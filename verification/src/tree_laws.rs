//! What the pane tree's edits promise across calls: an undone edit leaves the tree
//! as it was, and a redone one as the edit left it.

use vstd::prelude::*;

use crate::edit_history::{after_insertion, after_removal, put_back, take_out, CommandView};
use crate::pane_tree::{
    bounded_forest, clamp_insert, first_with_id, forest_entries, inserted_roots, lemma_first_with_id,
    lemma_path_of_valid, node_at, parent_found, path_of, register_labels, register_parents,
    set_children_at, sibling_site, siblings_at, subtree_entries, unregister_labels, unregister_parents,
    valid_path, with_children, with_siblings, PaneEntry, PaneNodeView, PanePayload, PaneTreeView,
    duplicate_parent, duplicate_position, ids_of, index_range, is_duplicate, lemma_ids_single, pane_count,
};

verus! {

proof fn lemma_bounded_index<P>(s: Seq<PaneNodeView<P>>, i: int)
    requires
        bounded_forest(s),
        0 <= i < s.len(),
    ensures
        bounded_forest(s[i].children),
    decreases s.len(),
{
    if i < s.len() - 1 {
        assert(s.drop_last()[i] == s[i]);
        lemma_bounded_index(s.drop_last(), i);
    }
}

proof fn lemma_bounded_at<P>(s: Seq<PaneNodeView<P>>, p: Seq<usize>)
    requires
        bounded_forest(s),
        valid_path(s, p),
    ensures
        bounded_forest(node_at(s, p).children),
    decreases p.len(),
{
    lemma_bounded_index(s, p[0] as int);
    if p.len() > 1 {
        lemma_bounded_at(s[p[0] as int].children, p.drop_first());
    }
}

proof fn lemma_set_children_node_at<P>(s: Seq<PaneNodeView<P>>, p: Seq<usize>, c: Seq<PaneNodeView<P>>)
    requires
        valid_path(s, p),
    ensures
        valid_path(set_children_at(s, p, c), p),
        node_at(set_children_at(s, p, c), p) == with_children(node_at(s, p), c),
    decreases p.len(),
{
    if p.len() > 1 {
        lemma_set_children_node_at(s[p[0] as int].children, p.drop_first(), c);
    }
}

proof fn lemma_set_children_twice<P>(
    s: Seq<PaneNodeView<P>>,
    p: Seq<usize>,
    c1: Seq<PaneNodeView<P>>,
    c2: Seq<PaneNodeView<P>>,
)
    requires
        valid_path(s, p),
    ensures
        set_children_at(set_children_at(s, p, c1), p, c2) == set_children_at(s, p, c2),
    decreases p.len(),
{
    if p.len() > 1 {
        lemma_set_children_twice(s[p[0] as int].children, p.drop_first(), c1, c2);
        assert(set_children_at(set_children_at(s, p, c1), p, c2) =~= set_children_at(s, p, c2));
    } else {
        assert(set_children_at(set_children_at(s, p, c1), p, c2) =~= set_children_at(s, p, c2));
    }
}

proof fn lemma_set_children_same<P>(s: Seq<PaneNodeView<P>>, p: Seq<usize>)
    requires
        valid_path(s, p),
    ensures
        set_children_at(s, p, node_at(s, p).children) == s,
    decreases p.len(),
{
    if p.len() > 1 {
        lemma_set_children_same(s[p[0] as int].children, p.drop_first());
    }
    assert(set_children_at(s, p, node_at(s, p).children) =~= s);
}

/// Changing the children of the first pane with index `id` leaves it the first.
proof fn lemma_path_of_set_children<P>(s: Seq<PaneNodeView<P>>, id: usize, c: Seq<PaneNodeView<P>>)
    requires
        path_of(s, id) is Some,
        bounded_forest(s),
    ensures
        path_of(set_children_at(s, path_of(s, id)->0, c), id) == path_of(s, id),
    decreases s,
{
    let p = path_of(s, id)->0;
    let t = s.drop_last();
    let s2 = set_children_at(s, p, c);
    lemma_path_of_valid(s, id);
    if path_of(t, id) is Some {
        lemma_path_of_valid(t, id);
        assert(bounded_forest(t));
        lemma_path_of_set_children(t, id, c);
        assert(p == path_of(t, id)->0);
        assert(p[0] < t.len());
        if p.len() > 1 {
            assert(s2.drop_last() =~= set_children_at(t, p, c));
        } else {
            assert(s2.drop_last() =~= set_children_at(t, p, c));
        }
    } else if s.last().pane_idx == id {
        assert(s2.drop_last() =~= t);
        assert(s2.last().pane_idx == id);
    } else {
        let q = path_of(s.last().children, id)->0;
        assert(p == seq![(s.len() - 1) as usize] + q);
        assert(p.drop_first() =~= q);
        assert(p.len() > 1);
        lemma_bounded_index(s, s.len() - 1);
        lemma_path_of_set_children(s.last().children, id, c);
        assert(s2.drop_last() =~= t);
        assert(s2.last() == with_children(s.last(), set_children_at(s.last().children, q, c)));
    }
}

proof fn lemma_siblings_after_set<P>(roots: Seq<PaneNodeView<P>>, parent: Option<usize>, c: Seq<PaneNodeView<P>>)
    requires
        bounded_forest(roots),
        parent_found(roots, parent),
    ensures
        parent_found(with_siblings(roots, parent, c), parent),
        siblings_at(with_siblings(roots, parent, c), parent) == c,
        with_siblings(with_siblings(roots, parent, c), parent, siblings_at(roots, parent)) == roots,
{
    match parent {
        Some(pid) => {
            let p = path_of(roots, pid)->0;
            lemma_path_of_valid(roots, pid);
            lemma_path_of_set_children(roots, pid, c);
            lemma_set_children_node_at(roots, p, c);
            lemma_set_children_twice(roots, p, c, node_at(roots, p).children);
            lemma_set_children_same(roots, p);
        },
        None => {},
    }
}

/// The entries of `a` all occur in `b`.
pub open spec fn entries_within(a: Seq<PaneEntry>, b: Seq<PaneEntry>) -> bool {
    forall|x: PaneEntry| a.contains(x) ==> b.contains(x)
}

proof fn lemma_within_concat(a: Seq<PaneEntry>, b: Seq<PaneEntry>)
    ensures
        entries_within(a, a + b),
        entries_within(b, a + b),
{
    assert forall|x: PaneEntry| a.contains(x) implies (a + b).contains(x) by {
        let j = choose|j: int| 0 <= j < a.len() && a[j] == x;
        assert((a + b)[j] == x);
    }
    assert forall|x: PaneEntry| b.contains(x) implies (a + b).contains(x) by {
        let j = choose|j: int| 0 <= j < b.len() && b[j] == x;
        assert((a + b)[a.len() + j] == x);
    }
}

proof fn lemma_entries_index<P>(s: Seq<PaneNodeView<P>>, i: int, parent: Option<usize>)
    requires
        0 <= i < s.len(),
    ensures
        entries_within(subtree_entries(s[i], parent), forest_entries(s, parent)),
    decreases s.len(),
{
    let t = s.drop_last();
    lemma_within_concat(forest_entries(t, parent), subtree_entries(s.last(), parent));
    if i < s.len() - 1 {
        assert(t[i] == s[i]);
        lemma_entries_index(t, i, parent);
    }
}

proof fn lemma_entries_children<P>(n: PaneNodeView<P>, parent: Option<usize>)
    ensures
        entries_within(forest_entries(n.children, Some(n.pane_idx)), subtree_entries(n, parent)),
{
    lemma_within_concat(seq![(n.pane_idx, parent, crate::text::trim_nul(n.label))], forest_entries(n.children, Some(n.pane_idx)));
}

proof fn lemma_entries_at<P>(s: Seq<PaneNodeView<P>>, p: Seq<usize>, parent: Option<usize>)
    requires
        valid_path(s, p),
    ensures
        entries_within(
            forest_entries(node_at(s, p).children, Some(node_at(s, p).pane_idx)),
            forest_entries(s, parent),
        ),
    decreases p.len(),
{
    let n = s[p[0] as int];
    lemma_entries_index(s, p[0] as int, parent);
    lemma_entries_children(n, parent);
    if p.len() > 1 {
        lemma_entries_at(n.children, p.drop_first(), Some(n.pane_idx));
    }
}

/// Every pane of the tree is recorded in the parent map with its parent, and no pane's
/// index exceeds the largest one recorded.
pub open spec fn parents_record<P>(t: PaneTreeView<P>) -> bool {
    forall|x: PaneEntry| forest_entries(t.roots, None).contains(x) ==> {
        &&& t.parents.contains_key(x.0)
        &&& t.parents[x.0] == x.1
        &&& x.0 <= t.max_pane_idx
    }
}

/// Besides what `parents_record` asks, every pane's label, without trailing NULs, is
/// recorded in the label map as naming that pane; so no two panes share a label.
pub open spec fn maps_record<P>(t: PaneTreeView<P>) -> bool {
    &&& parents_record(t)
    &&& forall|x: PaneEntry| forest_entries(t.roots, None).contains(x) ==> {
        &&& t.labels.contains_key(x.2)
        &&& t.labels[x.2] == x.0
    }
}

pub open spec fn entry_keys(es: Seq<PaneEntry>) -> Set<usize> {
    Set::new(|k: usize| exists|j: int| 0 <= j < es.len() && es[j].0 == k)
}

pub open spec fn entry_labels(es: Seq<PaneEntry>) -> Set<Seq<char>> {
    Set::new(|l: Seq<char>| exists|j: int| 0 <= j < es.len() && es[j].2 == l)
}

proof fn lemma_unregister_char(pm: Map<usize, Option<usize>>, lm: Map<Seq<char>, usize>, es: Seq<PaneEntry>)
    ensures
        unregister_parents(pm, es) == pm.remove_keys(entry_keys(es)),
        unregister_labels(lm, es) == lm.remove_keys(entry_labels(es)),
    decreases es.len(),
{
    if es.len() == 0 {
        assert(pm.remove_keys(entry_keys(es)) =~= pm);
        assert(lm.remove_keys(entry_labels(es)) =~= lm);
    } else {
        let t = es.drop_last();
        lemma_unregister_char(pm, lm, t);
        assert forall|k: usize| entry_keys(es).contains(k) <==> (entry_keys(t).contains(k) || k == es.last().0) by {
            if entry_keys(es).contains(k) {
                let j = choose|j: int| 0 <= j < es.len() && es[j].0 == k;
                if j < t.len() {
                    assert(t[j] == es[j]);
                }
            }
            if entry_keys(t).contains(k) {
                let j = choose|j: int| 0 <= j < t.len() && t[j].0 == k;
                assert(t[j] == es[j]);
            }
        }
        assert forall|l: Seq<char>| entry_labels(es).contains(l) <==> (entry_labels(t).contains(l) || l == es.last().2) by {
            if entry_labels(es).contains(l) {
                let j = choose|j: int| 0 <= j < es.len() && es[j].2 == l;
                if j < t.len() {
                    assert(t[j] == es[j]);
                }
            }
            if entry_labels(t).contains(l) {
                let j = choose|j: int| 0 <= j < t.len() && t[j].2 == l;
                assert(t[j] == es[j]);
            }
        }
        assert(unregister_parents(pm, es) =~= pm.remove_keys(entry_keys(es)));
        assert(unregister_labels(lm, es) =~= lm.remove_keys(entry_labels(es)));
    }
}

/// Registering entries that a reference parent map already records: each key gets
/// the reference value.
proof fn lemma_register_parents_recorded(
    u: Map<usize, Option<usize>>,
    pm: Map<usize, Option<usize>>,
    es: Seq<PaneEntry>,
)
    requires
        forall|x: PaneEntry| es.contains(x) ==> pm.contains_key(x.0) && pm[x.0] == x.1,
    ensures
        register_parents(u, es) == u.union_prefer_right(pm.restrict(entry_keys(es))),
    decreases es.len(),
{
    if es.len() == 0 {
        assert(u.union_prefer_right(pm.restrict(entry_keys(es))) =~= u);
    } else {
        let t = es.drop_last();
        assert forall|x: PaneEntry| t.contains(x) implies es.contains(x) by {
            let j = choose|j: int| 0 <= j < t.len() && t[j] == x;
            assert(es[j] == x);
        }
        lemma_register_parents_recorded(u, pm, t);
        let e = es.last();
        assert(es.contains(e)) by {
            assert(es[es.len() - 1] == e);
        }
        assert forall|k: usize| entry_keys(es).contains(k) <==> (entry_keys(t).contains(k) || k == e.0) by {
            lemma_entry_keys_step(es, k, Seq::empty());
        }
        assert(register_parents(u, es) =~= u.union_prefer_right(pm.restrict(entry_keys(es))));
    }
}

/// Registering entries that a reference label map already records: each label gets
/// the reference value.
proof fn lemma_register_labels_recorded(v: Map<Seq<char>, usize>, lm: Map<Seq<char>, usize>, es: Seq<PaneEntry>)
    requires
        forall|x: PaneEntry| es.contains(x) ==> lm.contains_key(x.2) && lm[x.2] == x.0,
    ensures
        register_labels(v, es) == v.union_prefer_right(lm.restrict(entry_labels(es))),
    decreases es.len(),
{
    if es.len() == 0 {
        assert(v.union_prefer_right(lm.restrict(entry_labels(es))) =~= v);
    } else {
        let t = es.drop_last();
        assert forall|x: PaneEntry| t.contains(x) implies es.contains(x) by {
            let j = choose|j: int| 0 <= j < t.len() && t[j] == x;
            assert(es[j] == x);
        }
        lemma_register_labels_recorded(v, lm, t);
        let e = es.last();
        assert(es.contains(e)) by {
            assert(es[es.len() - 1] == e);
        }
        assert forall|l: Seq<char>| entry_labels(es).contains(l) <==> (entry_labels(t).contains(l) || l == e.2) by {
            lemma_entry_keys_step(es, 0, l);
        }
        assert(register_labels(v, es) =~= v.union_prefer_right(lm.restrict(entry_labels(es))));
    }
}

proof fn lemma_entry_keys_step(es: Seq<PaneEntry>, k: usize, l: Seq<char>)
    requires
        es.len() > 0,
    ensures
        entry_keys(es).contains(k) <==> (entry_keys(es.drop_last()).contains(k) || k == es.last().0),
        entry_labels(es).contains(l) <==> (entry_labels(es.drop_last()).contains(l) || l == es.last().2),
{
    let t = es.drop_last();
    if entry_keys(es).contains(k) {
        let j = choose|j: int| 0 <= j < es.len() && es[j].0 == k;
        if j < t.len() {
            assert(t[j] == es[j]);
        }
    }
    if entry_keys(t).contains(k) {
        let j = choose|j: int| 0 <= j < t.len() && t[j].0 == k;
        assert(t[j] == es[j]);
    }
    if k == es.last().0 {
        assert(es[es.len() - 1].0 == k);
    }
    if entry_labels(es).contains(l) {
        let j = choose|j: int| 0 <= j < es.len() && es[j].2 == l;
        if j < t.len() {
            assert(t[j] == es[j]);
        }
    }
    if entry_labels(t).contains(l) {
        let j = choose|j: int| 0 <= j < t.len() && t[j].2 == l;
        assert(t[j] == es[j]);
    }
    if l == es.last().2 {
        assert(es[es.len() - 1].2 == l);
    }
}

proof fn lemma_register_dom_at(
    pm: Map<usize, Option<usize>>,
    lm: Map<Seq<char>, usize>,
    es: Seq<PaneEntry>,
    k: usize,
    l: Seq<char>,
)
    ensures
        !entry_keys(es).contains(k) ==> (register_parents(pm, es).contains_key(k) == pm.contains_key(k)
            && (pm.contains_key(k) ==> register_parents(pm, es)[k] == pm[k])),
        entry_keys(es).contains(k) ==> register_parents(pm, es).contains_key(k),
        !entry_labels(es).contains(l) ==> (register_labels(lm, es).contains_key(l) == lm.contains_key(l)
            && (lm.contains_key(l) ==> register_labels(lm, es)[l] == lm[l])),
        entry_labels(es).contains(l) ==> register_labels(lm, es).contains_key(l),
    decreases es.len(),
{
    if es.len() > 0 {
        lemma_register_dom_at(pm, lm, es.drop_last(), k, l);
        lemma_entry_keys_step(es, k, l);
    } else {
        assert(!entry_keys(es).contains(k));
        assert(!entry_labels(es).contains(l));
    }
}

/// Registering entries and then forgetting them leaves every other key as it was.
proof fn lemma_register_then_unregister(
    pm: Map<usize, Option<usize>>,
    lm: Map<Seq<char>, usize>,
    es: Seq<PaneEntry>,
)
    ensures
        unregister_parents(register_parents(pm, es), es) == pm.remove_keys(entry_keys(es)),
        unregister_labels(register_labels(lm, es), es) == lm.remove_keys(entry_labels(es)),
{
    lemma_unregister_char(register_parents(pm, es), register_labels(lm, es), es);
    let rp = register_parents(pm, es);
    let rl = register_labels(lm, es);
    assert forall|k: usize| #[trigger] rp.remove_keys(entry_keys(es)).contains_key(k) <==> pm.remove_keys(entry_keys(es)).contains_key(k) by {
        lemma_register_dom_at(pm, lm, es, k, Seq::empty());
    }
    assert forall|k: usize| #[trigger] rp.remove_keys(entry_keys(es)).contains_key(k) implies rp.remove_keys(entry_keys(es))[k] == pm.remove_keys(entry_keys(es))[k] by {
        lemma_register_dom_at(pm, lm, es, k, Seq::empty());
    }
    assert forall|l: Seq<char>| #[trigger] rl.remove_keys(entry_labels(es)).contains_key(l) <==> lm.remove_keys(entry_labels(es)).contains_key(l) by {
        lemma_register_dom_at(pm, lm, es, 0, l);
    }
    assert forall|l: Seq<char>| #[trigger] rl.remove_keys(entry_labels(es)).contains_key(l) implies rl.remove_keys(entry_labels(es))[l] == lm.remove_keys(entry_labels(es))[l] by {
        lemma_register_dom_at(pm, lm, es, 0, l);
    }
    assert(rp.remove_keys(entry_keys(es)) =~= pm.remove_keys(entry_keys(es)));
    assert(rl.remove_keys(entry_labels(es)) =~= lm.remove_keys(entry_labels(es)));
}


proof fn lemma_register_max_bounded(x: usize, es: Seq<PaneEntry>)
    requires
        forall|y: PaneEntry| es.contains(y) ==> y.0 <= x,
    ensures
        crate::pane_tree::register_max(x, es) == x,
    decreases es.len(),
{
    if es.len() > 0 {
        let t = es.drop_last();
        assert forall|y: PaneEntry| t.contains(y) implies y.0 <= x by {
            let j = choose|j: int| 0 <= j < t.len() && t[j] == y;
            assert(es[j] == y);
            assert(es.contains(y));
        }
        lemma_register_max_bounded(x, t);
        assert(es.contains(es.last())) by {
            assert(es[es.len() - 1] == es.last());
        }
    }
}

/// The entries of the pane at `sibling_site` all occur among the tree's entries.
proof fn lemma_site_entries<P>(t: PaneTreeView<P>, target: usize)
    requires
        bounded_forest(t.roots),
        sibling_site(t, target) is Some,
    ensures
        ({
            let (parent, i) = sibling_site(t, target)->0;
            let c = siblings_at(t.roots, parent);
            &&& i < c.len()
            &&& c[i as int].pane_idx == target
            &&& bounded_forest(c)
            &&& entries_within(subtree_entries(c[i as int], parent), forest_entries(t.roots, None))
        }),
{
    let (parent, i) = sibling_site(t, target)->0;
    let c = siblings_at(t.roots, parent);
    match parent {
        Some(pid) => {
            let p = path_of(t.roots, pid)->0;
            lemma_path_of_valid(t.roots, pid);
            lemma_bounded_at(t.roots, p);
            lemma_entries_at(t.roots, p, None);
            lemma_first_with_id(c, target);
            lemma_entries_index(c, i as int, Some(pid));
        },
        None => {
            lemma_first_with_id(c, target);
            lemma_entries_index(c, i as int, None);
        },
    }
}

/// Undoing a deletion restores the tree. Taking the pane `target` out of a tree in
/// which every pane is recorded in the parent map, and then putting the taken pane back
/// at the recorded place, gives back the same roots, in the same order, the same parent
/// map and the same largest index; where the label map records every pane as well, it
/// gives back the whole tree, label map included. The pane put back keeps its index, so
/// the command recorded for redoing takes out the same pane again.
pub proof fn law_delete_then_undo<P: PanePayload>(t: PaneTreeView<P>, target: usize)
    requires
        bounded_forest(t.roots),
        parents_record(t),
        take_out(t, target) is Some,
    ensures
        match take_out(t, target) {
            Some((CommandView::Removed { parent_idx, position, node }, t1)) => {
                let (inv, t2) = put_back(t1, parent_idx, position, node);
                &&& inv == CommandView::<P>::Inserted(target)
                &&& t2.roots == t.roots
                &&& t2.parents == t.parents
                &&& t2.max_pane_idx == t.max_pane_idx
                &&& maps_record(t) ==> t2 == t
            },
            _ => false,
        },
{
    let (parent, i) = sibling_site(t, target)->0;
    let roots = t.roots;
    let c = siblings_at(roots, parent);
    let n = c[i as int];
    lemma_site_entries(t, target);
    let e = subtree_entries(n, parent);
    let t1 = after_removal(t, parent, i);
    lemma_siblings_after_set(roots, parent, c.remove(i as int));
    assert(c.remove(i as int).insert(i as int, n) =~= c);
    assert(clamp_insert(c.remove(i as int), i, n) == c);
    assert(inserted_roots(t1.roots, parent, i, n) == roots);
    assert forall|x: PaneEntry| e.contains(x) implies t.parents.contains_key(x.0) && t.parents[x.0] == x.1
        && x.0 <= t.max_pane_idx by {
        assert(forest_entries(roots, None).contains(x));
    }
    lemma_unregister_char(t.parents, t.labels, e);
    lemma_register_parents_recorded(t1.parents, t.parents, e);
    assert(register_parents(t1.parents, e) =~= t.parents);
    lemma_register_max_bounded(t.max_pane_idx, e);
    let t2 = after_insertion(t1, parent, i, n);
    if maps_record(t) {
        assert forall|x: PaneEntry| e.contains(x) implies t.labels.contains_key(x.2) && t.labels[x.2] == x.0 by {
            assert(forest_entries(roots, None).contains(x));
        }
        lemma_register_labels_recorded(t1.labels, t.labels, e);
        assert(register_labels(t1.labels, e) =~= t.labels);
        assert(t2 == t);
    }
}

/// Redoing an undone deletion deletes the same pane again: after the undo has put the
/// pane back, taking out the pane that the recorded command names gives the same command
/// as the deletion did, and the same roots, parent map and largest index; where the label
/// map records every pane, the very same tree.
pub proof fn law_delete_undo_redo<P: PanePayload>(t: PaneTreeView<P>, target: usize)
    requires
        bounded_forest(t.roots),
        parents_record(t),
        take_out(t, target) is Some,
    ensures
        match take_out(t, target) {
            Some((CommandView::Removed { parent_idx, position, node }, t1)) => {
                let (inv, t2) = put_back(t1, parent_idx, position, node);
                &&& inv == CommandView::<P>::Inserted(target)
                &&& take_out(t2, target) matches Some((redo, t3))
                &&& redo == (take_out(t, target)->0).0
                &&& t3.roots == t1.roots
                &&& t3.parents == t1.parents
                &&& t3.max_pane_idx == t1.max_pane_idx
                &&& maps_record(t) ==> take_out(t2, target) == take_out(t, target)
            },
            _ => false,
        },
{
    law_delete_then_undo(t, target);
    let (parent, i) = sibling_site(t, target)->0;
    let t1 = (take_out(t, target)->0).1;
    let n = siblings_at(t.roots, parent)[i as int];
    let t2 = put_back(t1, parent, i, n).1;
    assert(sibling_site(t2, target) == sibling_site(t, target));
}

/// A pane's own entry is the first of its subtree's entries.
proof fn lemma_own_entry<P>(n: PaneNodeView<P>, parent: Option<usize>)
    ensures
        subtree_entries(n, parent).contains((n.pane_idx, parent, crate::text::trim_nul(n.label))),
        subtree_entries(n, parent)[0] == (n.pane_idx, parent, crate::text::trim_nul(n.label)),
{
    assert(subtree_entries(n, parent)[0] == (n.pane_idx, parent, crate::text::trim_nul(n.label)));
}

/// The siblings under a parent found in the tree all have entries among the tree's entries.
proof fn lemma_siblings_recorded<P>(t: PaneTreeView<P>, parent: Option<usize>, j: int)
    requires
        bounded_forest(t.roots),
        parent_found(t.roots, parent),
        0 <= j < siblings_at(t.roots, parent).len(),
    ensures
        forest_entries(t.roots, None).contains(
            (siblings_at(t.roots, parent)[j].pane_idx, parent, crate::text::trim_nul(siblings_at(t.roots, parent)[j].label)),
        ),
{
    let c = siblings_at(t.roots, parent);
    lemma_own_entry(c[j], parent);
    match parent {
        Some(pid) => {
            let p = path_of(t.roots, pid)->0;
            lemma_path_of_valid(t.roots, pid);
            lemma_entries_at(t.roots, p, None);
            lemma_entries_index(c, j, Some(pid));
        },
        None => {
            lemma_entries_index(c, j, None);
        },
    }
}

/// Undoing an insertion restores the tree's panes and maps, and redoing it inserts the
/// pane again. Inserting a pane whose subtree repeats no index and records none already
/// recorded, under a parent that is found, and then taking out the pane the recorded
/// command names, gives back the same roots and parent map; where the subtree's labels
/// were not recorded either, the same label map too. The largest recorded index keeps
/// the increase the insertion made. Putting the taken pane back where the command
/// records it gives the roots and parent map the insertion gave.
pub proof fn law_insert_then_undo<P: PanePayload>(
    t: PaneTreeView<P>,
    parent: Option<usize>,
    position: usize,
    n: PaneNodeView<P>,
)
    requires
        bounded_forest(t.roots),
        parents_record(t),
        parent_found(t.roots, parent),
        siblings_at(t.roots, parent).len() < usize::MAX,
        forall|j: int, k: int| 0 <= j < k < subtree_entries(n, parent).len() ==>
            subtree_entries(n, parent)[j].0 != subtree_entries(n, parent)[k].0,
        forall|x: PaneEntry| subtree_entries(n, parent).contains(x) ==> !t.parents.contains_key(x.0),
    ensures
        ({
            let t1 = after_insertion(t, parent, position, n);
            match take_out(t1, n.pane_idx) {
                Some((CommandView::Removed { parent_idx, position: pos, node }, t2)) => {
                    &&& parent_idx == parent
                    &&& node == n
                    &&& t2.roots == t.roots
                    &&& t2.parents == t.parents
                    &&& (forall|x: PaneEntry| subtree_entries(n, parent).contains(x) ==> !t.labels.contains_key(x.2))
                        ==> t2.labels == t.labels
                    &&& put_back(t2, parent_idx, pos, node).0 == CommandView::<P>::Inserted(n.pane_idx)
                    &&& put_back(t2, parent_idx, pos, node).1.roots == t1.roots
                    &&& put_back(t2, parent_idx, pos, node).1.parents == t1.parents
                },
                _ => false,
            }
        }),
{
    let e = subtree_entries(n, parent);
    let t1 = after_insertion(t, parent, position, n);
    let c = siblings_at(t.roots, parent);
    let pos = if position < c.len() { position as int } else { c.len() as int };
    let c1 = c.insert(pos, n);
    lemma_siblings_after_set(t.roots, parent, c1);
    assert(t1.roots == with_siblings(t.roots, parent, c1));
    lemma_own_entry(n, parent);
    // The new pane's parent is recorded as the one it was inserted under.
    lemma_unregister_char(t.parents, t.labels, e);
    assert(e[0].0 == n.pane_idx);
    assert(t1.parents.contains_key(n.pane_idx) && t1.parents[n.pane_idx] == parent) by {
        lemma_register_last_entry(t.parents, e, 0);
    }
    // It is the first sibling with its index.
    assert forall|j: int| 0 <= j < c.len() implies c[j].pane_idx != n.pane_idx by {
        lemma_siblings_recorded(t, parent, j);
        assert(t.parents.contains_key(c[j].pane_idx));
    }
    assert(c1.len() <= usize::MAX);
    lemma_first_with_id(c1, n.pane_idx);
    assert(c1[pos] == n);
    if first_with_id(c1, n.pane_idx) != Some(pos as usize) {
        let f = first_with_id(c1, n.pane_idx)->0;
        if (f as int) < pos {
            assert(c1[f as int] == c[f as int]);
        }
    }
    assert(sibling_site(t1, n.pane_idx) == Some((parent, pos as usize)));
    assert(c1.remove(pos) =~= c);
    let t2 = after_removal(t1, parent, pos as usize);
    assert(t2.roots == t.roots);
    lemma_register_then_unregister(t.parents, t.labels, e);
    assert(t.parents.remove_keys(entry_keys(e)) =~= t.parents) by {
        assert forall|k: usize| entry_keys(e).contains(k) implies !t.parents.contains_key(k) by {
            let j = choose|j: int| 0 <= j < e.len() && e[j].0 == k;
            assert(e.contains(e[j]));
        }
    }
    if forall|x: PaneEntry| e.contains(x) ==> !t.labels.contains_key(x.2) {
        assert(t.labels.remove_keys(entry_labels(e)) =~= t.labels) by {
            assert forall|l: Seq<char>| entry_labels(e).contains(l) implies !t.labels.contains_key(l) by {
                let j = choose|j: int| 0 <= j < e.len() && e[j].2 == l;
                assert(e.contains(e[j]));
            }
        }
    }
}

/// With no later entry for the same index, the entry at `j` decides the registered parent.
proof fn lemma_register_last_entry(pm: Map<usize, Option<usize>>, es: Seq<PaneEntry>, j: int)
    requires
        0 <= j < es.len(),
        forall|k: int| j < k < es.len() ==> es[k].0 != es[j].0,
    ensures
        register_parents(pm, es).contains_key(es[j].0),
        register_parents(pm, es)[es[j].0] == es[j].1,
    decreases es.len(),
{
    if j < es.len() - 1 {
        let t = es.drop_last();
        assert(t[j] == es[j]);
        lemma_register_last_entry(pm, t, j);
    }
}


/// The indices of a forest's entries are its indices in pre-order.
proof fn lemma_entry_ids<P>(s: Seq<PaneNodeView<P>>, parent: Option<usize>)
    ensures
        forest_entries(s, parent).map_values(|x: PaneEntry| x.0) == ids_of(s),
    decreases s,
{
    if s.len() > 0 {
        let d = s.drop_last();
        let l = s.last();
        assert(decreases_to!(s => l));
        lemma_entry_ids(d, parent);
        lemma_entry_ids(l.children, Some(l.pane_idx));
        let own = seq![(l.pane_idx, parent, crate::text::trim_nul(l.label))];
        let below = forest_entries(l.children, Some(l.pane_idx));
        assert(subtree_entries(l, parent) == own + below);
        assert((forest_entries(d, parent) + (own + below)).map_values(|x: PaneEntry| x.0)
            =~= forest_entries(d, parent).map_values(|x: PaneEntry| x.0) + seq![l.pane_idx] + below.map_values(
            |x: PaneEntry| x.0,
        ));
    } else {
        assert(forest_entries(s, parent).map_values(|x: PaneEntry| x.0) =~= Seq::<usize>::empty());
    }
}

/// Undoing a duplication removes the copy and gives back the tree's panes and parent
/// map, and redoing it puts the copy back. Duplicating a pane of a tree whose parent map
/// records every pane and holds no index above the largest recorded one, where the pane
/// stands where the parent map puts it, inserts the copy under the original's parent
/// with the indices after the largest one; taking out the copy's root, as undoing does,
/// leaves the roots and the parent map as they were before the duplication, and putting
/// it back where the undo recorded it, as redoing does, gives the roots and parent map
/// the duplication gave and names the copy's root again.
pub proof fn law_duplicate_then_undo<P: PanePayload>(t: PaneTreeView<P>, source: usize, c: PaneNodeView<P>)
    requires
        bounded_forest(t.roots),
        parents_record(t),
        forall|k: usize| t.parents.contains_key(k) ==> k <= t.max_pane_idx,
        sibling_site(t, source) is Some,
        path_of(t.roots, source) is Some,
        t.max_pane_idx + 1 + pane_count(node_at(t.roots, path_of(t.roots, source)->0)) <= usize::MAX,
        is_duplicate(node_at(t.roots, path_of(t.roots, source)->0), c, (t.max_pane_idx + 1) as usize),
        siblings_at(t.roots, duplicate_parent(t, source)).len() < usize::MAX,
    ensures
        c.pane_idx == t.max_pane_idx + 1,
        match take_out(
            after_insertion(t, duplicate_parent(t, source), duplicate_position(t, source), c),
            c.pane_idx,
        ) {
            Some((CommandView::Removed { parent_idx, position, node }, t2)) => {
                let t1 = after_insertion(t, duplicate_parent(t, source), duplicate_position(t, source), c);
                &&& node == c
                &&& t2.roots == t.roots
                &&& t2.parents == t.parents
                &&& put_back(t2, parent_idx, position, node).0 == CommandView::<P>::Inserted(c.pane_idx)
                &&& put_back(t2, parent_idx, position, node).1.roots == t1.roots
                &&& put_back(t2, parent_idx, position, node).1.parents == t1.parents
            },
            _ => false,
        },
{
    let v = node_at(t.roots, path_of(t.roots, source)->0);
    let start = (t.max_pane_idx + 1) as usize;
    let parent = duplicate_parent(t, source);
    let e = subtree_entries(c, parent);
    lemma_ids_single(c);
    lemma_entry_ids(c.children, Some(c.pane_idx));
    let own = seq![(c.pane_idx, parent, crate::text::trim_nul(c.label))];
    assert(e.map_values(|x: PaneEntry| x.0) =~= seq![c.pane_idx] + ids_of(c.children));
    assert(e.map_values(|x: PaneEntry| x.0) == index_range(start as int, pane_count(v)));
    assert(ids_of(seq![c])[0] == c.pane_idx);
    assert forall|j: int| 0 <= j < e.len() implies #[trigger] e[j].0 == start + j by {
        assert(e.map_values(|x: PaneEntry| x.0)[j] == e[j].0);
    }
    assert forall|j: int, k: int| 0 <= j < k < e.len() implies e[j].0 != e[k].0 by {
        assert(e[j].0 == start + j);
        assert(e[k].0 == start + k);
    }
    assert forall|x: PaneEntry| e.contains(x) implies !t.parents.contains_key(x.0) by {
        let j = choose|j: int| 0 <= j < e.len() && e[j] == x;
        assert(e[j].0 == start + j);
    }
    law_insert_then_undo(t, parent, duplicate_position(t, source), c);
}

} // verus!
