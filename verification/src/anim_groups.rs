//! Which panes an animation drives and which it hides, through the layout's groups.
//!
//! An animation names the groups of panes it animates. When playback is limited to
//! those groups, every pane that another group binds is hidden, unless it is bound by
//! an animated group or lies below a pane that is.

use vstd::prelude::*;
use std::collections::HashSet;

use crate::pane_tree::{ids_of, node_at, path_of, PaneNodeView, PaneTree};
use crate::text::{trim_nul, trim_nul_str};

verus! {

broadcast use vstd::std_specs::hash::group_hash_axioms;

/// A group of the layout: its name and the names of the panes it binds.
pub struct LayoutGroup {
    pub group_name: String,
    pub child_names: Vec<String>,
}

pub struct GroupView {
    pub name: Seq<char>,
    pub children: Seq<Seq<char>>,
}

impl View for LayoutGroup {
    type V = GroupView;

    open spec fn view(&self) -> GroupView {
        GroupView { name: self.group_name@, children: self.child_names@.map_values(|s: String| s@) }
    }
}

pub open spec fn groups_view(gs: Seq<LayoutGroup>) -> Seq<GroupView> {
    gs.map_values(|g: LayoutGroup| g@)
}

pub open spec fn names_view(names: Seq<String>) -> Seq<Seq<char>> {
    names.map_values(|s: String| s@)
}

/// The position of the first group called `name`.
pub open spec fn first_group_named(groups: Seq<GroupView>, name: Seq<char>) -> Option<int>
    decreases groups.len(),
{
    if groups.len() == 0 {
        None
    } else {
        match first_group_named(groups.drop_last(), name) {
            Some(i) => Some(i),
            None => if groups.last().name == name { Some(groups.len() - 1) } else { None },
        }
    }
}

/// The panes that the first `n` of `children` name, looked up by their names with
/// trailing NULs removed; names that no pane has are passed over.
pub open spec fn members_upto(children: Seq<Seq<char>>, labels: Map<Seq<char>, usize>, n: nat) -> Set<usize>
    decreases n,
{
    if n == 0 {
        Set::empty()
    } else {
        let prev = members_upto(children, labels, (n - 1) as nat);
        let name = trim_nul(children[n - 1]);
        if labels.contains_key(name) {
            prev.insert(labels[name])
        } else {
            prev
        }
    }
}

pub open spec fn members(children: Seq<Seq<char>>, labels: Map<Seq<char>, usize>) -> Set<usize> {
    members_upto(children, labels, children.len())
}

/// The panes bound by the groups that the first `n` animated group names name.
pub open spec fn active_upto(
    anim_groups: Seq<Seq<char>>,
    groups: Seq<GroupView>,
    labels: Map<Seq<char>, usize>,
    n: nat,
) -> Set<usize>
    decreases n,
{
    if n == 0 {
        Set::empty()
    } else {
        let prev = active_upto(anim_groups, groups, labels, (n - 1) as nat);
        match first_group_named(groups, anim_groups[n - 1]) {
            Some(g) => prev.union(members(groups[g].children, labels)),
            None => prev,
        }
    }
}

/// The panes that an animation over `anim_groups` drives: those bound by the first
/// group of each name it animates.
pub open spec fn active_group_panes(
    anim_groups: Seq<Seq<char>>,
    groups: Seq<GroupView>,
    labels: Map<Seq<char>, usize>,
) -> Set<usize> {
    active_upto(anim_groups, groups, labels, anim_groups.len())
}

/// The panes below the first pane whose index is `p`.
pub open spec fn descendant_set<P>(roots: Seq<PaneNodeView<P>>, p: usize) -> Set<usize> {
    match path_of(roots, p) {
        Some(path) => ids_of(node_at(roots, path).children).to_set(),
        None => Set::empty(),
    }
}

/// The panes an animation lets show: those it drives and every pane below them.
pub open spec fn allowed_panes<P>(active: Set<usize>, roots: Seq<PaneNodeView<P>>) -> Set<usize> {
    Set::new(|i: usize| active.contains(i) || exists|p: usize| active.contains(p) && #[trigger] descendant_set(roots, p).contains(i))
}

/// The panes hidden by the first `n` groups: those bound by a group that is not
/// animated, unless allowed.
pub open spec fn hidden_upto(
    anim_groups: Seq<Seq<char>>,
    groups: Seq<GroupView>,
    labels: Map<Seq<char>, usize>,
    allowed: Set<usize>,
    n: nat,
) -> Set<usize>
    decreases n,
{
    if n == 0 {
        Set::empty()
    } else {
        let prev = hidden_upto(anim_groups, groups, labels, allowed, (n - 1) as nat);
        if anim_groups.contains(groups[n - 1].name) {
            prev
        } else {
            prev.union(members(groups[n - 1].children, labels).difference(allowed))
        }
    }
}

/// The panes to hide while an animation over `anim_groups` plays limited to its groups:
/// none where it names no group; otherwise those bound by a group it does not
/// animate, unless it drives them or a pane above them.
pub open spec fn group_hidden_panes<P>(
    anim_groups: Seq<Seq<char>>,
    groups: Seq<GroupView>,
    labels: Map<Seq<char>, usize>,
    roots: Seq<PaneNodeView<P>>,
) -> Set<usize> {
    if anim_groups.len() == 0 {
        Set::empty()
    } else {
        hidden_upto(
            anim_groups,
            groups,
            labels,
            allowed_panes(active_group_panes(anim_groups, groups, labels), roots),
            groups.len(),
        )
    }
}

fn find_group(groups: &Vec<LayoutGroup>, name: &String) -> (r: Option<usize>)
    ensures
        match r {
            Some(i) => first_group_named(groups_view(groups@), name@) == Some(i as int) && i < groups@.len(),
            None => first_group_named(groups_view(groups@), name@) is None,
        },
{
    let ghost gv = groups_view(groups@);
    let mut i: usize = 0;
    while i < groups.len()
        invariant
            i <= groups@.len(),
            gv == groups_view(groups@),
            first_group_named(gv.take(i as int), name@) is None,
        decreases groups.len() - i,
    {
        let ghost t = gv.take(i + 1);
        assert(t.drop_last() =~= gv.take(i as int));
        if groups[i].group_name == *name {
            assert(t.last() == gv[i as int]);
            proof {
                lemma_first_group_prefix(gv, (i + 1) as int, name@);
            }
            return Some(i);
        }
        assert(t.last() == gv[i as int]);
        i = i + 1;
    }
    assert(gv.take(i as int) =~= gv);
    None
}

proof fn lemma_first_group_prefix(groups: Seq<GroupView>, n: int, name: Seq<char>)
    requires
        0 <= n <= groups.len(),
        first_group_named(groups.take(n), name) is Some,
    ensures
        first_group_named(groups, name) == first_group_named(groups.take(n), name),
    decreases groups.len() - n,
{
    if n < groups.len() {
        let t = groups.take(n + 1);
        assert(t.drop_last() =~= groups.take(n));
        lemma_first_group_prefix(groups, n + 1, name);
    } else {
        assert(groups.take(n) =~= groups);
    }
}

fn add_members<P>(
    children: &Vec<String>,
    tree: &PaneTree<P>,
    set: &mut HashSet<usize>,
    list: &mut Vec<usize>,
)
    ensures
        final(set)@ == old(set)@.union(members(names_view(children@), tree@.labels)),
        final(list)@.to_set() == old(list)@.to_set().union(members(names_view(children@), tree@.labels)),
{
    let ghost cv = names_view(children@);
    let ghost s0 = set@;
    let ghost l0 = list@;
    let mut i: usize = 0;
    while i < children.len()
        invariant
            i <= children@.len(),
            cv == names_view(children@),
            cv.len() == children@.len(),
            set@ == s0.union(members_upto(cv, tree@.labels, i as nat)),
            list@.to_set() == l0.to_set().union(members_upto(cv, tree@.labels, i as nat)),
        decreases children.len() - i,
    {
        let clean = trim_nul_str(children[i].as_str());
        assert(cv[i as int] == children@[i as int]@);
        match tree.label_map.get(clean.as_str()) {
            Some(idx) => {
                let v = *idx;
                set.insert(v);
                let ghost before = list@;
                list.push(v);
                proof {
                    assert(list@ =~= before.push(v));
                    broadcast use vstd::seq_lib::group_seq_properties;
                    assert(list@.to_set() =~= before.to_set().insert(v));
                }
                assert(set@ =~= s0.union(members_upto(cv, tree@.labels, (i + 1) as nat)));
                assert(list@.to_set() =~= l0.to_set().union(members_upto(cv, tree@.labels, (i + 1) as nat)));
            },
            None => {},
        }
        i = i + 1;
    }
}

/// The panes that an animation over `anim_groups` drives, by the layout's `groups`.
pub fn active_group_pane_indices<P>(
    anim_groups: &Vec<String>,
    tree: &PaneTree<P>,
    groups: &Vec<LayoutGroup>,
) -> (r: HashSet<usize>)
    ensures
        r@ == active_group_panes(names_view(anim_groups@), groups_view(groups@), tree@.labels),
{
    let (set, _list) = active_panes_with_list(anim_groups, tree, groups);
    set
}

fn active_panes_with_list<P>(
    anim_groups: &Vec<String>,
    tree: &PaneTree<P>,
    groups: &Vec<LayoutGroup>,
) -> (r: (HashSet<usize>, Vec<usize>))
    ensures
        r.0@ == active_group_panes(names_view(anim_groups@), groups_view(groups@), tree@.labels),
        r.1@.to_set() == r.0@,
{
    let mut set: HashSet<usize> = HashSet::new();
    let mut list: Vec<usize> = Vec::new();
    let ghost av = names_view(anim_groups@);
    let ghost gv = groups_view(groups@);
    proof {
        broadcast use vstd::seq_lib::group_seq_properties;
        assert(list@.to_set() =~= Set::<usize>::empty());
    }
    let mut k: usize = 0;
    while k < anim_groups.len()
        invariant
            k <= anim_groups@.len(),
            av == names_view(anim_groups@),
            gv == groups_view(groups@),
            av.len() == anim_groups@.len(),
            set@ == active_upto(av, gv, tree@.labels, k as nat),
            list@.to_set() == set@,
        decreases anim_groups.len() - k,
    {
        assert(av[k as int] == anim_groups@[k as int]@);
        match find_group(groups, &anim_groups[k]) {
            Some(g) => {
                assert(gv[g as int] == groups@[g as int]@);
                add_members(&groups[g].child_names, tree, &mut set, &mut list);
            },
            None => {},
        }
        k = k + 1;
    }
    (set, list)
}

/// Sets `hidden_panes` to the panes to hide while an animation over `anim_groups`
/// plays limited to its groups: see `group_hidden_panes`.
pub fn resolve_group_visibility<P>(
    anim_groups: &Vec<String>,
    tree: &PaneTree<P>,
    groups: &Vec<LayoutGroup>,
    hidden_panes: &mut HashSet<usize>,
)
    ensures
        final(hidden_panes)@ == group_hidden_panes(
            names_view(anim_groups@),
            groups_view(groups@),
            tree@.labels,
            tree@.roots,
        ),
{
    hidden_panes.clear();
    if anim_groups.len() == 0 {
        return;
    }
    let ghost av = names_view(anim_groups@);
    let ghost gv = groups_view(groups@);
    let (active, list) = active_panes_with_list(anim_groups, tree, groups);
    let ghost act = active@;
    let mut allowed: HashSet<usize> = HashSet::new();
    let mut j: usize = 0;
    while j < list.len()
        invariant
            j <= list@.len(),
            list@.to_set() == act,
            allowed@ == Set::new(
                |i: usize|
                    list@.take(j as int).contains(i) || exists|p: usize|
                        list@.take(j as int).contains(p) && #[trigger] descendant_set(tree@.roots, p).contains(i),
            ),
        decreases list.len() - j,
    {
        let p = list[j];
        allowed.insert(p);
        let desc = tree.descendants(p);
        let ghost ds = descendant_set(tree@.roots, p);
        assert(desc@.to_set() == ds);
        let mut m: usize = 0;
        while m < desc.len()
            invariant
                m <= desc@.len(),
                ds == desc@.to_set(),
                allowed@ == Set::new(
                    |i: usize|
                        list@.take(j as int).contains(i) || exists|q: usize|
                            list@.take(j as int).contains(q) && #[trigger] descendant_set(tree@.roots, q).contains(i),
                ).insert(p).union(desc@.take(m as int).to_set()),
            decreases desc.len() - m,
        {
            allowed.insert(desc[m]);
            proof {
                broadcast use vstd::seq_lib::group_seq_properties;
                assert(desc@.take(m + 1) =~= desc@.take(m as int).push(desc@[m as int]));
                assert(desc@.take(m + 1).to_set() =~= desc@.take(m as int).to_set().insert(desc@[m as int]));
            }
            m = m + 1;
        }
        proof {
            assert(desc@.take(m as int) =~= desc@);
            broadcast use vstd::seq_lib::group_seq_properties;
            assert(list@.take(j + 1) =~= list@.take(j as int).push(p));
            let next = Set::new(
                |i: usize|
                    list@.take(j + 1).contains(i) || exists|q: usize|
                        list@.take(j + 1).contains(q) && #[trigger] descendant_set(tree@.roots, q).contains(i),
            );
            assert forall|i: usize| #[trigger] allowed@.contains(i) == next.contains(i) by {
                if list@.take(j + 1).contains(i) && !list@.take(j as int).contains(i) {
                    assert(i == p);
                }
                if exists|q: usize| list@.take(j + 1).contains(q) && #[trigger] descendant_set(tree@.roots, q).contains(i) {
                    let q = choose|q: usize| list@.take(j + 1).contains(q) && #[trigger] descendant_set(tree@.roots, q).contains(i);
                    if !list@.take(j as int).contains(q) {
                        assert(q == p);
                    }
                }
            }
            assert(allowed@ =~= next);
        }
        j = j + 1;
    }
    proof {
        assert(list@.take(j as int) =~= list@);
        assert(allowed@ =~= allowed_panes(act, tree@.roots));
    }
    let ghost al = allowed@;
    let mut g: usize = 0;
    while g < groups.len()
        invariant
            g <= groups@.len(),
            av == names_view(anim_groups@),
            gv == groups_view(groups@),
            av.len() == anim_groups@.len(),
            allowed@ == al,
            hidden_panes@ == hidden_upto(av, gv, tree@.labels, al, g as nat),
        decreases groups.len() - g,
    {
        assert(gv[g as int] == groups@[g as int]@);
        let mut animated = false;
        let mut k: usize = 0;
        while k < anim_groups.len()
            invariant
                k <= anim_groups@.len(),
                av == names_view(anim_groups@),
                av.len() == anim_groups@.len(),
                gv == groups_view(groups@),
                g < groups@.len(),
                animated == exists|x: int| 0 <= x < k && av[x] == gv[g as int].name,
            decreases anim_groups.len() - k,
        {
            assert(av[k as int] == anim_groups@[k as int]@);
            if anim_groups[k] == groups[g].group_name {
                animated = true;
            }
            k = k + 1;
        }
        if !animated {
            let children = &groups[g].child_names;
            let ghost cv = names_view(children@);
            let ghost h0 = hidden_panes@;
            let mut c: usize = 0;
            while c < children.len()
                invariant
                    c <= children@.len(),
                    cv == names_view(children@),
                    cv.len() == children@.len(),
                    allowed@ == al,
                    hidden_panes@ == h0.union(members_upto(cv, tree@.labels, c as nat).difference(al)),
                decreases children.len() - c,
            {
                let clean = trim_nul_str(children[c].as_str());
                assert(cv[c as int] == children@[c as int]@);
                match tree.label_map.get(clean.as_str()) {
                    Some(idx) => {
                        if !allowed.contains(idx) {
                            hidden_panes.insert(*idx);
                        }
                    },
                    None => {},
                }
                assert(hidden_panes@ =~= h0.union(members_upto(cv, tree@.labels, (c + 1) as nat).difference(al)));
                c = c + 1;
            }
        }
        proof {
            if animated {
                let x = choose|x: int| 0 <= x < k && av[x] == gv[g as int].name;
                assert(av.contains(gv[g as int].name));
            } else {
                assert(!av.contains(gv[g as int].name));
            }
        }
        g = g + 1;
    }
}

} // verus!
