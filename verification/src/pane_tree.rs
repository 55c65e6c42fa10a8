//! The tree of panes of a layout: its structure, indices and the edits made to it.

use vstd::prelude::*;
use vstd::hash_map::{HashMapWithView, StringHashMap};

use crate::text::{trim_nul, trim_nul_str};

verus! {

broadcast use vstd::std_specs::hash::group_hash_axioms;

/// Which derived data of a pane must be rebuilt before it is drawn again.
#[derive(Clone, Copy, Debug, PartialEq, Eq, Structural)]
pub struct DirtyFlags {
    pub bits: u8,
}

/// Transforms must be recalculated.
pub const DIRTY_TRANSFORM: u8 = 0x01;
/// Materials must be uploaded to the GPU again.
pub const DIRTY_MATERIAL: u8 = 0x02;
/// Vertices must be uploaded to the GPU again.
pub const DIRTY_VERTICES: u8 = 0x04;
/// The texture bind group must be rebuilt.
pub const DIRTY_TEXTURE: u8 = 0x08;
/// Every flag above.
pub const DIRTY_ALL: u8 = 0x0F;

impl DirtyFlags {
    pub fn empty() -> (r: Self)
        ensures
            r.bits == 0,
    {
        DirtyFlags { bits: 0 }
    }

    pub fn all() -> (r: Self)
        ensures
            r.bits == DIRTY_ALL,
    {
        DirtyFlags { bits: DIRTY_ALL }
    }

    pub fn from_bits_truncate(bits: u8) -> (r: Self)
        ensures
            r.bits == bits & DIRTY_ALL,
    {
        DirtyFlags { bits: bits & DIRTY_ALL }
    }

    pub fn contains(&self, flags: u8) -> (r: bool)
        ensures
            r == (self.bits & flags == flags),
    {
        self.bits & flags == flags
    }

    pub fn insert(&mut self, flags: u8)
        ensures
            final(self).bits == old(self).bits | flags,
    {
        self.bits = self.bits | flags;
    }

    pub fn remove(&mut self, flags: u8)
        ensures
            final(self).bits == old(self).bits & !flags,
    {
        self.bits = self.bits & !flags;
    }
}

/// One pane of a layout. The structure and identity of the pane live here; what the
/// renderer and the layout format need (geometry, quads, the binary section) is the payload.
pub struct PaneNode<P> {
    pub label: String,
    pub kind: String,
    pub depth: usize,
    pub visible: bool,
    /// The name of the Parts layout this pane was pulled in from, if it was.
    pub parts_source: Option<String>,
    pub pane_idx: usize,
    pub dirty: DirtyFlags,
    pub children: Vec<PaneNode<P>>,
    pub payload: P,
}

/// The mathematical value of a pane and its subtree.
pub struct PaneNodeView<P> {
    pub label: Seq<char>,
    pub kind: Seq<char>,
    pub depth: usize,
    pub visible: bool,
    pub parts_source: Option<Seq<char>>,
    pub pane_idx: usize,
    pub dirty: u8,
    pub children: Seq<PaneNodeView<P>>,
    pub payload: P,
}

pub open spec fn opt_string_view(s: Option<String>) -> Option<Seq<char>> {
    match s {
        Some(s) => Some(s@),
        None => None,
    }
}

pub open spec fn node_view<P>(n: PaneNode<P>) -> PaneNodeView<P>
    decreases n, 1int,
{
    PaneNodeView {
        label: n.label@,
        kind: n.kind@,
        depth: n.depth,
        visible: n.visible,
        parts_source: opt_string_view(n.parts_source),
        pane_idx: n.pane_idx,
        dirty: n.dirty.bits,
        children: forest_view(n.children@),
        payload: n.payload,
    }
}

/// The value of a list of sibling panes.
pub open spec fn forest_view<P>(s: Seq<PaneNode<P>>) -> Seq<PaneNodeView<P>>
    decreases s, 0int,
{
    if s.len() == 0 {
        Seq::empty()
    } else {
        forest_view(s.drop_last()).push(node_view(s.last()))
    }
}

impl<P> View for PaneNode<P> {
    type V = PaneNodeView<P>;

    open spec fn view(&self) -> PaneNodeView<P> {
        node_view(*self)
    }
}

pub broadcast proof fn lemma_forest_view_index<P>(s: Seq<PaneNode<P>>)
    ensures
        #[trigger] forest_view(s).len() == s.len(),
        forall|i: int| 0 <= i < s.len() ==> #[trigger] forest_view(s)[i] == node_view(s[i]),
    decreases s.len(),
{
    if s.len() > 0 {
        lemma_forest_view_index(s.drop_last());
    }
}

/// `n` with its children replaced by `c`.
pub open spec fn with_children<P>(n: PaneNodeView<P>, c: Seq<PaneNodeView<P>>) -> PaneNodeView<P> {
    PaneNodeView { children: c, ..n }
}

/// The pane indices of a forest in pre-order (each pane before its children).
pub open spec fn ids_of<P>(s: Seq<PaneNodeView<P>>) -> Seq<usize>
    decreases s,
{
    if s.len() == 0 {
        Seq::empty()
    } else {
        ids_of(s.drop_last()) + seq![s.last().pane_idx] + ids_of(s.last().children)
    }
}

/// A path leads from the roots to a pane by the position of each pane among its siblings.
pub open spec fn valid_path<P>(s: Seq<PaneNodeView<P>>, p: Seq<usize>) -> bool
    decreases p.len(),
{
    &&& p.len() >= 1
    &&& p[0] < s.len()
    &&& (p.len() == 1 || valid_path(s[p[0] as int].children, p.drop_first()))
}

/// The pane that a valid path leads to.
pub open spec fn node_at<P>(s: Seq<PaneNodeView<P>>, p: Seq<usize>) -> PaneNodeView<P>
    decreases p.len(),
{
    if p.len() <= 1 {
        s[p[0] as int]
    } else {
        node_at(s[p[0] as int].children, p.drop_first())
    }
}

/// The forest with the children of the pane at `p` replaced by `c`.
pub open spec fn set_children_at<P>(
    s: Seq<PaneNodeView<P>>,
    p: Seq<usize>,
    c: Seq<PaneNodeView<P>>,
) -> Seq<PaneNodeView<P>>
    decreases p.len(),
{
    if p.len() <= 1 {
        s.update(p[0] as int, with_children(s[p[0] as int], c))
    } else {
        s.update(
            p[0] as int,
            with_children(s[p[0] as int], set_children_at(s[p[0] as int].children, p.drop_first(), c)),
        )
    }
}

/// Every list of siblings in the forest is short enough to be indexed by `usize`,
/// as all forests read from memory are.
pub open spec fn bounded_forest<P>(s: Seq<PaneNodeView<P>>) -> bool
    decreases s,
{
    &&& s.len() <= usize::MAX
    &&& (s.len() == 0 || (bounded_forest(s.drop_last()) && bounded_forest(s.last().children)))
}

pub proof fn lemma_forest_view_bounded<P>(s: Seq<PaneNode<P>>)
    requires
        s.len() <= usize::MAX,
    ensures
        bounded_forest(forest_view(s)),
    decreases s,
{
    if s.len() > 0 {
        lemma_forest_view_bounded(s.drop_last());
        assert(s.last().children.len() == s.last().children@.len());
        assert(decreases_to!(s => s.last()));
        lemma_forest_view_bounded(s.last().children@);
        lemma_forest_view_index(s);
        let fv = forest_view(s);
        assert(fv.drop_last() =~= forest_view(s.drop_last()));
        assert(fv.last() == node_view(s.last()));
    }
}

pub proof fn lemma_roots_bounded<P>(v: &Vec<PaneNode<P>>)
    ensures
        bounded_forest(forest_view(v@)),
{
    assert(v.len() == v@.len());
    lemma_forest_view_bounded(v@);
}

/// The path to the first pane in pre-order whose index is `id`.
pub open spec fn path_of<P>(s: Seq<PaneNodeView<P>>, id: usize) -> Option<Seq<usize>>
    decreases s,
{
    if s.len() == 0 {
        None
    } else {
        match path_of(s.drop_last(), id) {
            Some(p) => Some(p),
            None => if s.last().pane_idx == id {
                Some(seq![(s.len() - 1) as usize])
            } else {
                match path_of(s.last().children, id) {
                    Some(q) => Some(seq![(s.len() - 1) as usize] + q),
                    None => None,
                }
            },
        }
    }
}


/// Once a pane with index `id` appears in a prefix of the forest, the first
/// occurrence in the whole forest is that one.
pub proof fn lemma_path_of_prefix<P>(s: Seq<PaneNodeView<P>>, k: int, id: usize)
    requires
        0 <= k <= s.len(),
        path_of(s.take(k), id) is Some,
    ensures
        path_of(s, id) == path_of(s.take(k), id),
    decreases s.len() - k,
{
    if k < s.len() {
        assert(s.drop_last().take(k) == s.take(k));
        lemma_path_of_prefix(s.drop_last(), k, id);
    } else {
        assert(s.take(k) =~= s);
    }
}

/// The next sibling after a prefix: the first occurrence in the longer prefix.
pub proof fn lemma_path_of_step<P>(s: Seq<PaneNodeView<P>>, i: int, id: usize)
    requires
        0 <= i < s.len(),
    ensures
        path_of(s.take(i + 1), id) == (match path_of(s.take(i), id) {
            Some(p) => Some(p),
            None => if s[i].pane_idx == id {
                Some(seq![i as usize])
            } else {
                match path_of(s[i].children, id) {
                    Some(q) => Some(seq![i as usize] + q),
                    None => None,
                }
            },
        }),
{
    assert(s.take(i + 1).drop_last() =~= s.take(i));
    assert(s.take(i + 1).last() == s[i]);
}

fn find_path_in<P>(nodes: &Vec<PaneNode<P>>, id: usize) -> (r: Option<Vec<usize>>)
    ensures
        match r {
            Some(v) => path_of(forest_view(nodes@), id) == Some(v@),
            None => path_of(forest_view(nodes@), id) is None,
        },
    decreases nodes@,
{
    let n = nodes.len();
    let ghost fv = forest_view(nodes@);
    proof {
        lemma_forest_view_index(nodes@);
        assert(fv.take(0) =~= Seq::<PaneNodeView<P>>::empty());
    }
    let mut i: usize = 0;
    while i < n
        invariant
            0 <= i <= n,
            n == nodes@.len(),
            fv == forest_view(nodes@),
            fv.len() == n,
            forall|j: int| 0 <= j < n ==> #[trigger] fv[j] == node_view(nodes@[j]),
            path_of(fv.take(i as int), id) is None,
        decreases n - i,
    {
        let node = &nodes[i];
        proof {
            lemma_path_of_step(fv, i as int, id);
        }
        if node.pane_idx == id {
            let v = vec![i];
            proof {
                lemma_path_of_prefix(fv, i + 1, id);
                assert(v@ =~= seq![i]);
            }
            return Some(v);
        }
        assert(decreases_to!(nodes@ => nodes@[i as int]));
        let sub = find_path_in(&node.children, id);
        match sub {
            Some(q) => {
                let mut v = vec![i];
                let mut q2 = q;
                v.append(&mut q2);
                proof {
                    lemma_path_of_prefix(fv, i + 1, id);
                    assert(v@ =~= seq![i] + q@);
                }
                return Some(v);
            },
            None => {},
        }
        i = i + 1;
    }
    proof {
        assert(fv.take(n as int) =~= fv);
    }
    None
}


/// What registering one pane records: its index, its parent's index and its clean label.
pub type PaneEntry = (usize, Option<usize>, Seq<char>);

/// The entries of a subtree in pre-order, the root under `parent`.
pub open spec fn subtree_entries<P>(n: PaneNodeView<P>, parent: Option<usize>) -> Seq<PaneEntry>
    decreases n, 1int,
{
    seq![(n.pane_idx, parent, trim_nul(n.label))] + forest_entries(n.children, Some(n.pane_idx))
}

/// The entries of a forest in pre-order, every root under `parent`.
pub open spec fn forest_entries<P>(s: Seq<PaneNodeView<P>>, parent: Option<usize>) -> Seq<PaneEntry>
    decreases s, 0int,
{
    if s.len() == 0 {
        Seq::empty()
    } else {
        forest_entries(s.drop_last(), parent) + subtree_entries(s.last(), parent)
    }
}

/// The parent map after recording each entry in turn.
pub open spec fn register_parents(m: Map<usize, Option<usize>>, es: Seq<PaneEntry>) -> Map<usize, Option<usize>>
    decreases es.len(),
{
    if es.len() == 0 {
        m
    } else {
        register_parents(m, es.drop_last()).insert(es.last().0, es.last().1)
    }
}

/// The label map after recording each entry in turn; a later label overwrites an earlier one.
pub open spec fn register_labels(m: Map<Seq<char>, usize>, es: Seq<PaneEntry>) -> Map<Seq<char>, usize>
    decreases es.len(),
{
    if es.len() == 0 {
        m
    } else {
        register_labels(m, es.drop_last()).insert(es.last().2, es.last().0)
    }
}

/// The largest of `x` and the indices of the entries.
pub open spec fn register_max(x: usize, es: Seq<PaneEntry>) -> usize
    decreases es.len(),
{
    if es.len() == 0 {
        x
    } else {
        let m = register_max(x, es.drop_last());
        if es.last().0 > m { es.last().0 } else { m }
    }
}

/// The parent map after forgetting each entry's index.
pub open spec fn unregister_parents(m: Map<usize, Option<usize>>, es: Seq<PaneEntry>) -> Map<usize, Option<usize>>
    decreases es.len(),
{
    if es.len() == 0 {
        m
    } else {
        unregister_parents(m, es.drop_last()).remove(es.last().0)
    }
}

/// The label map after forgetting each entry's label.
pub open spec fn unregister_labels(m: Map<Seq<char>, usize>, es: Seq<PaneEntry>) -> Map<Seq<char>, usize>
    decreases es.len(),
{
    if es.len() == 0 {
        m
    } else {
        unregister_labels(m, es.drop_last()).remove(es.last().2)
    }
}

pub proof fn lemma_register_concat(
    pm: Map<usize, Option<usize>>,
    lm: Map<Seq<char>, usize>,
    x: usize,
    a: Seq<PaneEntry>,
    b: Seq<PaneEntry>,
)
    ensures
        register_parents(pm, a + b) == register_parents(register_parents(pm, a), b),
        register_labels(lm, a + b) == register_labels(register_labels(lm, a), b),
        register_max(x, a + b) == register_max(register_max(x, a), b),
        unregister_parents(pm, a + b) == unregister_parents(unregister_parents(pm, a), b),
        unregister_labels(lm, a + b) == unregister_labels(unregister_labels(lm, a), b),
    decreases b.len(),
{
    if b.len() == 0 {
        assert(a + b =~= a);
    } else {
        assert((a + b).drop_last() =~= a + b.drop_last());
        assert((a + b).last() == b.last());
        lemma_register_concat(pm, lm, x, a, b.drop_last());
    }
}

pub proof fn lemma_forest_entries_step<P>(s: Seq<PaneNodeView<P>>, j: int, parent: Option<usize>)
    requires
        0 <= j < s.len(),
    ensures
        forest_entries(s.take(j + 1), parent) == forest_entries(s.take(j), parent) + subtree_entries(s[j], parent),
{
    assert(s.take(j + 1).drop_last() =~= s.take(j));
    assert(s.take(j + 1).last() == s[j]);
}

/// The mathematical value of a pane tree: its roots and the two indices kept beside them.
pub struct PaneTreeView<P> {
    pub roots: Seq<PaneNodeView<P>>,
    pub parents: Map<usize, Option<usize>>,
    pub labels: Map<Seq<char>, usize>,
    pub max_pane_idx: usize,
}

/// The panes of a layout, with the parent of every pane index and the index of every
/// label kept beside the tree.
pub struct PaneTree<P> {
    pub roots: Vec<PaneNode<P>>,
    pub parent_map: HashMapWithView<usize, Option<usize>>,
    pub label_map: StringHashMap<usize>,
    pub max_pane_idx: usize,
}

impl<P> View for PaneTree<P> {
    type V = PaneTreeView<P>;

    open spec fn view(&self) -> PaneTreeView<P> {
        PaneTreeView {
            roots: forest_view(self.roots@),
            parents: self.parent_map@,
            labels: self.label_map@,
            max_pane_idx: self.max_pane_idx,
        }
    }
}

/// Records a pane and its subtree in the two maps and the running maximum index.
fn register_subtree<P>(
    n: &PaneNode<P>,
    parent: Option<usize>,
    pm: &mut HashMapWithView<usize, Option<usize>>,
    lm: &mut StringHashMap<usize>,
    max_idx: &mut usize,
)
    ensures
        final(pm)@ == register_parents(old(pm)@, subtree_entries(n@, parent)),
        final(lm)@ == register_labels(old(lm)@, subtree_entries(n@, parent)),
        *final(max_idx) == register_max(*old(max_idx), subtree_entries(n@, parent)),
    decreases *n,
{
    let ghost pm0 = pm@;
    let ghost lm0 = lm@;
    let ghost x0 = *max_idx;
    let i = n.pane_idx;
    if i > *max_idx {
        *max_idx = i;
    }
    pm.insert(i, parent);
    let clean = trim_nul_str(n.label.as_str());
    lm.insert(clean, i);
    let ghost e0 = seq![(i, parent, trim_nul(n.label@))];
    let ghost cv = forest_view(n.children@);
    proof {
        lemma_forest_view_index(n.children@);
        assert(cv.take(0) =~= Seq::<PaneNodeView<P>>::empty());
        assert(e0 + forest_entries(cv.take(0), Some(i)) =~= e0);
        assert(e0.drop_last() =~= Seq::<PaneEntry>::empty());
        assert(register_parents(pm0, e0) == register_parents(pm0, e0.drop_last()).insert(i, parent));
        assert(register_labels(lm0, e0) == register_labels(lm0, e0.drop_last()).insert(trim_nul(n.label@), i));
        assert(register_max(x0, e0.drop_last()) == x0);
        assert(e0.last().0 == i);
    }
    let len = n.children.len();
    let mut j: usize = 0;
    while j < len
        invariant
            0 <= j <= len,
            len == n.children@.len(),
            cv == forest_view(n.children@),
            cv.len() == len,
            forall|k: int| 0 <= k < len ==> #[trigger] cv[k] == node_view(n.children@[k]),
            i == n.pane_idx,
            e0 == seq![(i, parent, trim_nul(n.label@))],
            pm@ == register_parents(pm0, e0 + forest_entries(cv.take(j as int), Some(i))),
            lm@ == register_labels(lm0, e0 + forest_entries(cv.take(j as int), Some(i))),
            *max_idx == register_max(x0, e0 + forest_entries(cv.take(j as int), Some(i))),
        decreases len - j,
    {
        let ghost before = e0 + forest_entries(cv.take(j as int), Some(i));
        assert(decreases_to!(*n => n.children@[j as int]));
        register_subtree(&n.children[j], Some(i), pm, lm, max_idx);
        proof {
            lemma_forest_entries_step(cv, j as int, Some(i));
            assert(e0 + forest_entries(cv.take(j + 1), Some(i)) =~= before + subtree_entries(cv[j as int], Some(i)));
            lemma_register_concat(pm0, lm0, x0, before, subtree_entries(cv[j as int], Some(i)));
        }
        j = j + 1;
    }
    proof {
        assert(cv.take(len as int) =~= cv);
        assert(subtree_entries(n@, parent) == e0 + forest_entries(cv, Some(i)));
    }
}


/// Forgets a pane and its subtree in the two maps.
fn unregister_subtree<P>(
    n: &PaneNode<P>,
    pm: &mut HashMapWithView<usize, Option<usize>>,
    lm: &mut StringHashMap<usize>,
    parent: Ghost<Option<usize>>,
)
    ensures
        final(pm)@ == unregister_parents(old(pm)@, subtree_entries(n@, parent@)),
        final(lm)@ == unregister_labels(old(lm)@, subtree_entries(n@, parent@)),
    decreases *n,
{
    let ghost pm0 = pm@;
    let ghost lm0 = lm@;
    let i = n.pane_idx;
    pm.remove(&i);
    let clean = trim_nul_str(n.label.as_str());
    lm.remove(clean.as_str());
    let ghost e0 = seq![(i, parent@, trim_nul(n.label@))];
    let ghost cv = forest_view(n.children@);
    proof {
        lemma_forest_view_index(n.children@);
        assert(cv.take(0) =~= Seq::<PaneNodeView<P>>::empty());
        assert(e0 + forest_entries(cv.take(0), Some(i)) =~= e0);
        assert(e0.drop_last() =~= Seq::<PaneEntry>::empty());
        assert(unregister_parents(pm0, e0) == unregister_parents(pm0, e0.drop_last()).remove(i));
        assert(unregister_labels(lm0, e0) == unregister_labels(lm0, e0.drop_last()).remove(trim_nul(n.label@)));
    }
    let len = n.children.len();
    let mut j: usize = 0;
    while j < len
        invariant
            0 <= j <= len,
            len == n.children@.len(),
            cv == forest_view(n.children@),
            cv.len() == len,
            forall|k: int| 0 <= k < len ==> #[trigger] cv[k] == node_view(n.children@[k]),
            i == n.pane_idx,
            e0 == seq![(i, parent@, trim_nul(n.label@))],
            pm@ == unregister_parents(pm0, e0 + forest_entries(cv.take(j as int), Some(i))),
            lm@ == unregister_labels(lm0, e0 + forest_entries(cv.take(j as int), Some(i))),
        decreases len - j,
    {
        let ghost before = e0 + forest_entries(cv.take(j as int), Some(i));
        assert(decreases_to!(*n => n.children@[j as int]));
        unregister_subtree(&n.children[j], pm, lm, Ghost(Some(i)));
        proof {
            lemma_forest_entries_step(cv, j as int, Some(i));
            assert(e0 + forest_entries(cv.take(j + 1), Some(i)) =~= before + subtree_entries(cv[j as int], Some(i)));
            lemma_register_concat(pm0, lm0, 0, before, subtree_entries(cv[j as int], Some(i)));
        }
        j = j + 1;
    }
    proof {
        assert(cv.take(len as int) =~= cv);
        assert(subtree_entries(n@, parent@) == e0 + forest_entries(cv, Some(i)));
    }
}

pub proof fn lemma_path_extend<P>(s: Seq<PaneNodeView<P>>, k: int, p: Seq<usize>)
    requires
        0 <= k <= s.len(),
        valid_path(s.take(k), p),
    ensures
        valid_path(s, p),
        node_at(s, p) == node_at(s.take(k), p),
{
    assert(s.take(k)[p[0] as int] == s[p[0] as int]);
    if p.len() > 1 {
        assert(valid_path(s.take(k)[p[0] as int].children, p.drop_first()));
    }
}

/// The first occurrence of an index leads, by a valid path, to a pane with that index.
pub proof fn lemma_path_of_valid<P>(s: Seq<PaneNodeView<P>>, id: usize)
    requires
        path_of(s, id) is Some,
        bounded_forest(s),
    ensures
        valid_path(s, path_of(s, id)->0),
        node_at(s, path_of(s, id)->0).pane_idx == id,
    decreases s,
{
    let t = s.drop_last();
    if path_of(t, id) is Some {
        lemma_path_of_valid(t, id);
        assert(t == s.take(s.len() - 1));
        lemma_path_extend(s, s.len() - 1, path_of(t, id)->0);
    } else if s.last().pane_idx == id {
        let p = seq![(s.len() - 1) as usize];
        assert(p[0] == s.len() - 1);
    } else {
        let q = path_of(s.last().children, id)->0;
        lemma_path_of_valid(s.last().children, id);
        let p = seq![(s.len() - 1) as usize] + q;
        assert(p.drop_first() =~= q);
        assert(p[0] == s.len() - 1);
    }
}

fn node_ref_at<'a, P>(nodes: &'a Vec<PaneNode<P>>, path: &Vec<usize>, k: usize) -> (r: &'a PaneNode<P>)
    requires
        k < path@.len(),
        valid_path(forest_view(nodes@), path@.skip(k as int)),
    ensures
        r@ == node_at(forest_view(nodes@), path@.skip(k as int)),
    decreases path@.len() - k,
{
    proof {
        lemma_forest_view_index(nodes@);
    }
    let plen = path.len();
    let i = path[k];
    assert(path@.skip(k as int)[0] == i);
    let n = &nodes[i];
    if plen - k == 1 {
        n
    } else {
        assert(path@.skip(k as int).drop_first() =~= path@.skip(k + 1));
        node_ref_at(&n.children, path, k + 1)
    }
}


pub proof fn lemma_forest_view_edits<P>(s: Seq<PaneNode<P>>, i: int, n: PaneNode<P>)
    ensures
        0 <= i < s.len() ==> forest_view(s.update(i, n)) == forest_view(s).update(i, node_view(n)),
        0 <= i <= s.len() ==> forest_view(s.insert(i, n)) == forest_view(s).insert(i, node_view(n)),
        0 <= i < s.len() ==> forest_view(s.remove(i)) == forest_view(s).remove(i),
{
    lemma_forest_view_index(s);
    if 0 <= i < s.len() {
        lemma_forest_view_index(s.update(i, n));
        assert(forest_view(s.update(i, n)) =~= forest_view(s).update(i, node_view(n)));
        lemma_forest_view_index(s.remove(i));
        assert(forest_view(s.remove(i)) =~= forest_view(s).remove(i));
    }
    if 0 <= i <= s.len() {
        lemma_forest_view_index(s.insert(i, n));
        assert(forest_view(s.insert(i, n)) =~= forest_view(s).insert(i, node_view(n)));
    }
}

/// `c` with `n` inserted at `position`, or at the end where `position` is past it.
pub open spec fn clamp_insert<P>(c: Seq<PaneNodeView<P>>, position: usize, n: PaneNodeView<P>) -> Seq<PaneNodeView<P>> {
    c.insert(if position < c.len() { position as int } else { c.len() as int }, n)
}

fn insert_child_at<P>(
    nodes: &mut Vec<PaneNode<P>>,
    path: &Vec<usize>,
    k: usize,
    position: usize,
    node: PaneNode<P>,
)
    requires
        k < path@.len(),
        valid_path(forest_view(old(nodes)@), path@.skip(k as int)),
    ensures
        forest_view(final(nodes)@) == set_children_at(
            forest_view(old(nodes)@),
            path@.skip(k as int),
            clamp_insert(node_at(forest_view(old(nodes)@), path@.skip(k as int)).children, position, node@),
        ),
    decreases path@.len() - k,
{
    let ghost old_nodes = nodes@;
    let ghost fv = forest_view(nodes@);
    let ghost p = path@.skip(k as int);
    proof {
        lemma_forest_view_index(nodes@);
    }
    let plen = path.len();
    let i = path[k];
    assert(p[0] == i);
    let mut n = nodes.remove(i);
    let ghost n0 = n;
    assert(n0 == old_nodes[i as int]);
    if plen - k == 1 {
        let clen = n.children.len();
        let pos = if position < clen { position } else { clen };
        n.children.insert(pos, node);
        proof {
            lemma_forest_view_index(n0.children@);
            lemma_forest_view_edits(n0.children@, pos as int, node);
            assert(node_at(fv, p) == node_view(n0));
        }
    } else {
        assert(p.drop_first() =~= path@.skip(k + 1));
        insert_child_at(&mut n.children, path, k + 1, position, node);
    }
    nodes.insert(i, n);
    proof {
        assert(nodes@ =~= old_nodes.update(i as int, n));
        lemma_forest_view_edits(old_nodes, i as int, n);
        assert(node_view(n) == with_children(node_view(n0), forest_view(n.children@)));
    }
}

fn remove_child_at<P>(nodes: &mut Vec<PaneNode<P>>, path: &Vec<usize>, k: usize, j: usize) -> (r: PaneNode<P>)
    requires
        k < path@.len(),
        valid_path(forest_view(old(nodes)@), path@.skip(k as int)),
        j < node_at(forest_view(old(nodes)@), path@.skip(k as int)).children.len(),
    ensures
        r@ == node_at(forest_view(old(nodes)@), path@.skip(k as int)).children[j as int],
        forest_view(final(nodes)@) == set_children_at(
            forest_view(old(nodes)@),
            path@.skip(k as int),
            node_at(forest_view(old(nodes)@), path@.skip(k as int)).children.remove(j as int),
        ),
    decreases path@.len() - k,
{
    let ghost old_nodes = nodes@;
    let ghost fv = forest_view(nodes@);
    let ghost p = path@.skip(k as int);
    proof {
        lemma_forest_view_index(nodes@);
    }
    let plen = path.len();
    let i = path[k];
    assert(p[0] == i);
    let mut n = nodes.remove(i);
    let ghost n0 = n;
    assert(n0 == old_nodes[i as int]);
    let r;
    if plen - k == 1 {
        proof {
            lemma_forest_view_index(n0.children@);
            lemma_forest_view_edits(n0.children@, j as int, n0.children@[j as int]);
        }
        r = n.children.remove(j);
    } else {
        assert(p.drop_first() =~= path@.skip(k + 1));
        r = remove_child_at(&mut n.children, path, k + 1, j);
    }
    nodes.insert(i, n);
    proof {
        assert(nodes@ =~= old_nodes.update(i as int, n));
        lemma_forest_view_edits(old_nodes, i as int, n);
        assert(node_view(n) == with_children(node_view(n0), forest_view(n.children@)));
    }
    r
}


/// The position of the first sibling whose index is `id`.
pub open spec fn first_with_id<P>(s: Seq<PaneNodeView<P>>, id: usize) -> Option<usize>
    decreases s.len(),
{
    if s.len() == 0 {
        None
    } else {
        match first_with_id(s.drop_last(), id) {
            Some(i) => Some(i),
            None => if s.last().pane_idx == id {
                Some((s.len() - 1) as usize)
            } else {
                None
            },
        }
    }
}

pub proof fn lemma_first_with_id<P>(s: Seq<PaneNodeView<P>>, id: usize)
    requires
        s.len() <= usize::MAX,
    ensures
        match first_with_id(s, id) {
            Some(i) => i < s.len() && s[i as int].pane_idx == id
                && forall|j: int| 0 <= j < i ==> s[j].pane_idx != id,
            None => forall|j: int| 0 <= j < s.len() ==> s[j].pane_idx != id,
        },
    decreases s.len(),
{
    if s.len() > 0 {
        let t = s.drop_last();
        lemma_first_with_id(t, id);
        assert(forall|j: int| 0 <= j < t.len() ==> t[j] == s[j]);
        match first_with_id(t, id) {
            Some(i) => {},
            None => {
                if s.last().pane_idx == id {
                    assert(first_with_id(s, id) == Some((s.len() - 1) as usize));
                    assert(s[s.len() - 1] == s.last());
                } else {
                    assert(first_with_id(s, id) is None);
                    assert forall|j: int| 0 <= j < s.len() implies s[j].pane_idx != id by {
                        if j < t.len() {
                            assert(t[j] == s[j]);
                        } else {
                            assert(s[j] == s.last());
                        }
                    }
                }
            },
        }
    }
}

fn position_of<P>(nodes: &Vec<PaneNode<P>>, id: usize) -> (r: Option<usize>)
    ensures
        r == first_with_id(forest_view(nodes@), id),
        r matches Some(i) ==> i < nodes@.len() && i < usize::MAX,
{
    let ghost fv = forest_view(nodes@);
    let n = nodes.len();
    proof {
        lemma_forest_view_index(nodes@);
        lemma_first_with_id(fv, id);
    }
    let mut i: usize = 0;
    while i < n
        invariant
            0 <= i <= n,
            n == nodes@.len(),
            fv == forest_view(nodes@),
            fv.len() == n,
            forall|k: int| 0 <= k < n ==> #[trigger] fv[k] == node_view(nodes@[k]),
            forall|k: int| 0 <= k < i ==> fv[k].pane_idx != id,
            match first_with_id(fv, id) {
                Some(f) => f < fv.len() && fv[f as int].pane_idx == id
                    && forall|j: int| 0 <= j < f ==> fv[j].pane_idx != id,
                None => forall|j: int| 0 <= j < fv.len() ==> fv[j].pane_idx != id,
            },
        decreases n - i,
    {
        if nodes[i].pane_idx == id {
            assert(fv[i as int].pane_idx == id);
            proof {
                match first_with_id(fv, id) {
                    Some(f) => {
                        if f < i {
                            assert(fv[f as int].pane_idx != id);
                        }
                        if f > i {
                            assert(fv[i as int].pane_idx != id);
                        }
                    },
                    None => {
                        assert(fv[i as int].pane_idx != id);
                    },
                }
            }
            return Some(i);
        }
        i = i + 1;
    }
    None
}

/// The siblings among which a pane under `parent` stands: the roots, or the children
/// of the first pane in pre-order with that index.
pub open spec fn siblings_at<P>(roots: Seq<PaneNodeView<P>>, parent: Option<usize>) -> Seq<PaneNodeView<P>> {
    match parent {
        Some(pid) => node_at(roots, path_of(roots, pid)->0).children,
        None => roots,
    }
}

/// The forest with the siblings under `parent` replaced by `c`.
pub open spec fn with_siblings<P>(
    roots: Seq<PaneNodeView<P>>,
    parent: Option<usize>,
    c: Seq<PaneNodeView<P>>,
) -> Seq<PaneNodeView<P>> {
    match parent {
        Some(pid) => set_children_at(roots, path_of(roots, pid)->0, c),
        None => c,
    }
}

/// A parent that can be found: none (the roots) or an index present in the forest.
pub open spec fn parent_found<P>(roots: Seq<PaneNodeView<P>>, parent: Option<usize>) -> bool {
    match parent {
        Some(pid) => path_of(roots, pid) is Some,
        None => true,
    }
}

/// The roots after inserting `n` at `position` under `parent`; unchanged when that
/// parent cannot be found.
pub open spec fn inserted_roots<P>(
    roots: Seq<PaneNodeView<P>>,
    parent: Option<usize>,
    position: usize,
    n: PaneNodeView<P>,
) -> Seq<PaneNodeView<P>> {
    if parent_found(roots, parent) {
        with_siblings(roots, parent, clamp_insert(siblings_at(roots, parent), position, n))
    } else {
        roots
    }
}

/// Where the pane `target` stands: its parent as the parent map records it, and its
/// position among the siblings under that parent.
pub open spec fn sibling_site<P>(t: PaneTreeView<P>, target: usize) -> Option<(Option<usize>, usize)> {
    if !t.parents.contains_key(target) {
        None
    } else {
        let parent = t.parents[target];
        if !parent_found(t.roots, parent) {
            None
        } else {
            match first_with_id(siblings_at(t.roots, parent), target) {
                Some(i) => Some((parent, i)),
                None => None,
            }
        }
    }
}


fn collect_ids<P>(nodes: &Vec<PaneNode<P>>, out: &mut Vec<usize>)
    ensures
        final(out)@ == old(out)@ + ids_of(forest_view(nodes@)),
    decreases nodes@,
{
    let ghost out0 = out@;
    let ghost fv = forest_view(nodes@);
    let n = nodes.len();
    proof {
        lemma_forest_view_index(nodes@);
        assert(fv.take(0) =~= Seq::<PaneNodeView<P>>::empty());
        assert(out0 + ids_of(fv.take(0)) =~= out0);
    }
    let mut i: usize = 0;
    while i < n
        invariant
            0 <= i <= n,
            n == nodes@.len(),
            fv == forest_view(nodes@),
            fv.len() == n,
            forall|k: int| 0 <= k < n ==> #[trigger] fv[k] == node_view(nodes@[k]),
            out@ == out0 + ids_of(fv.take(i as int)),
        decreases n - i,
    {
        let node = &nodes[i];
        out.push(node.pane_idx);
        assert(decreases_to!(nodes@ => nodes@[i as int]));
        collect_ids(&node.children, out);
        proof {
            assert(fv.take(i + 1).drop_last() =~= fv.take(i as int));
            assert(fv.take(i + 1).last() == fv[i as int]);
            assert(out@ =~= out0 + ids_of(fv.take(i + 1)));
        }
        i = i + 1;
    }
    proof {
        assert(fv.take(n as int) =~= fv);
    }
}

impl<P> PaneTree<P> {
    /// Builds a tree over the given roots, recording every pane in pre-order in the
    /// parent and label maps and taking the largest pane index.
    pub fn from_roots(roots: Vec<PaneNode<P>>) -> (t: Self)
        ensures
            t@.roots == forest_view(roots@),
            t@.parents == register_parents(Map::empty(), forest_entries(forest_view(roots@), None)),
            t@.labels == register_labels(Map::empty(), forest_entries(forest_view(roots@), None)),
            t@.max_pane_idx == register_max(0, forest_entries(forest_view(roots@), None)),
    {
        let mut pm: HashMapWithView<usize, Option<usize>> = HashMapWithView::new();
        let mut lm: StringHashMap<usize> = StringHashMap::new();
        let mut max_idx: usize = 0;
        let ghost fv = forest_view(roots@);
        let n = roots.len();
        proof {
            lemma_forest_view_index(roots@);
            assert(fv.take(0) =~= Seq::<PaneNodeView<P>>::empty());
        }
        let mut j: usize = 0;
        while j < n
            invariant
                0 <= j <= n,
                n == roots@.len(),
                fv == forest_view(roots@),
                fv.len() == n,
                forall|k: int| 0 <= k < n ==> #[trigger] fv[k] == node_view(roots@[k]),
                pm@ == register_parents(Map::empty(), forest_entries(fv.take(j as int), None)),
                lm@ == register_labels(Map::empty(), forest_entries(fv.take(j as int), None)),
                max_idx == register_max(0, forest_entries(fv.take(j as int), None)),
            decreases n - j,
        {
            let ghost before = forest_entries(fv.take(j as int), None);
            register_subtree(&roots[j], None, &mut pm, &mut lm, &mut max_idx);
            proof {
                lemma_forest_entries_step(fv, j as int, None);
                lemma_register_concat(Map::empty(), Map::empty(), 0, before, subtree_entries(fv[j as int], None));
            }
            j = j + 1;
        }
        proof {
            assert(fv.take(n as int) =~= fv);
        }
        PaneTree { roots, parent_map: pm, label_map: lm, max_pane_idx: max_idx }
    }

    /// The first pane in pre-order whose index is `pane_idx`.
    pub fn find_by_idx(&self, pane_idx: usize) -> (r: Option<&PaneNode<P>>)
        ensures
            match path_of(self@.roots, pane_idx) {
                Some(p) => r is Some && r->0@ == node_at(self@.roots, p),
                None => r is None,
            },
    {
        match find_path_in(&self.roots, pane_idx) {
            Some(path) => {
                proof {
                    lemma_roots_bounded(&self.roots);
                    lemma_path_of_valid(self@.roots, pane_idx);
                    assert(path@.skip(0) =~= path@);
                }
                Some(node_ref_at(&self.roots, &path, 0))
            },
            None => None,
        }
    }

    /// The pane recorded under `label` in the label map.
    pub fn find_by_label(&self, label: &str) -> (r: Option<&PaneNode<P>>)
        ensures
            match self@.labels.get(label@) {
                Some(idx) => match path_of(self@.roots, idx) {
                    Some(p) => r is Some && r->0@ == node_at(self@.roots, p),
                    None => r is None,
                },
                None => r is None,
            },
    {
        match self.label_map.get(label) {
            Some(idx) => self.find_by_idx(*idx),
            None => None,
        }
    }

    /// The indices of every pane below the first pane whose index is `pane_idx`, in
    /// pre-order; empty when there is no such pane.
    pub fn descendants(&self, pane_idx: usize) -> (r: Vec<usize>)
        ensures
            r@ == match path_of(self@.roots, pane_idx) {
                Some(p) => ids_of(node_at(self@.roots, p).children),
                None => Seq::empty(),
            },
    {
        let mut out = Vec::new();
        match self.find_by_idx(pane_idx) {
            Some(node) => {
                collect_ids(&node.children, &mut out);
                assert(out@ =~= ids_of(node@.children));
            },
            None => {},
        }
        out
    }

    /// The index after the largest one ever recorded.
    pub fn next_pane_idx(&self) -> (r: usize)
        requires
            self.max_pane_idx < usize::MAX,
        ensures
            r == self.max_pane_idx + 1,
    {
        self.max_pane_idx + 1
    }

    /// Where the pane `target_idx` stands: its parent as recorded and its position
    /// among that parent's children (or among the roots).
    pub fn sibling_position(&self, target_idx: usize) -> (r: Option<(Option<usize>, usize)>)
        ensures
            r == sibling_site(self@, target_idx),
            r matches Some((_, i)) ==> i < usize::MAX,
    {
        let parent_idx = match self.parent_map.get(&target_idx) {
            Some(p) => *p,
            None => return None,
        };
        match parent_idx {
            Some(pid) => {
                let path = match find_path_in(&self.roots, pid) {
                    Some(p) => p,
                    None => return None,
                };
                proof {
                    lemma_roots_bounded(&self.roots);
                    lemma_path_of_valid(self@.roots, pid);
                    assert(path@.skip(0) =~= path@);
                }
                let parent_node = node_ref_at(&self.roots, &path, 0);
                match position_of(&parent_node.children, target_idx) {
                    Some(i) => Some((parent_idx, i)),
                    None => None,
                }
            },
            None => match position_of(&self.roots, target_idx) {
                Some(i) => Some((None, i)),
                None => None,
            },
        }
    }

    /// Inserts `node` at the end of the siblings under `parent_idx`.
    pub fn insert_node(&mut self, parent_idx: Option<usize>, node: PaneNode<P>) -> (r: usize)
        ensures
            r == node.pane_idx,
            final(self)@.roots == inserted_roots(old(self)@.roots, parent_idx, usize::MAX, node@),
            final(self)@.parents == register_parents(old(self)@.parents, subtree_entries(node@, parent_idx)),
            final(self)@.labels == register_labels(old(self)@.labels, subtree_entries(node@, parent_idx)),
            final(self)@.max_pane_idx == register_max(old(self)@.max_pane_idx, subtree_entries(node@, parent_idx)),
    {
        self.insert_node_at(parent_idx, usize::MAX, node)
    }

    /// Inserts `node` at `position` among the siblings under `parent_idx` (at the end
    /// where `position` is past it) and records its subtree in the maps. The maps are
    /// updated even where the parent cannot be found; the node is then dropped.
    pub fn insert_node_at(&mut self, parent_idx: Option<usize>, position: usize, node: PaneNode<P>) -> (r: usize)
        ensures
            r == node.pane_idx,
            final(self)@.roots == inserted_roots(old(self)@.roots, parent_idx, position, node@),
            final(self)@.parents == register_parents(old(self)@.parents, subtree_entries(node@, parent_idx)),
            final(self)@.labels == register_labels(old(self)@.labels, subtree_entries(node@, parent_idx)),
            final(self)@.max_pane_idx == register_max(old(self)@.max_pane_idx, subtree_entries(node@, parent_idx)),
    {
        let idx = node.pane_idx;
        register_subtree(&node, parent_idx, &mut self.parent_map, &mut self.label_map, &mut self.max_pane_idx);
        match parent_idx {
            Some(pid) => {
                match find_path_in(&self.roots, pid) {
                    Some(path) => {
                        proof {
                            lemma_roots_bounded(&self.roots);
                            lemma_path_of_valid(self@.roots, pid);
                            assert(path@.skip(0) =~= path@);
                        }
                        insert_child_at(&mut self.roots, &path, 0, position, node);
                    },
                    None => {},
                }
            },
            None => {
                let len = self.roots.len();
                let pos = if position < len { position } else { len };
                proof {
                    lemma_forest_view_index(self.roots@);
                    lemma_forest_view_edits(self.roots@, pos as int, node);
                }
                self.roots.insert(pos, node);
            },
        }
        idx
    }

    /// Takes the pane `target_idx` and its subtree out of the tree and forgets them in
    /// the maps. Nothing changes where the pane is not where the parent map puts it.
    pub fn remove_node(&mut self, target_idx: usize) -> (r: Option<PaneNode<P>>)
        ensures
            match sibling_site(old(self)@, target_idx) {
                None => r is None && final(self)@ == old(self)@,
                Some((parent, i)) => {
                    &&& r is Some
                    &&& r->0@ == siblings_at(old(self)@.roots, parent)[i as int]
                    &&& final(self)@.roots == with_siblings(
                        old(self)@.roots,
                        parent,
                        siblings_at(old(self)@.roots, parent).remove(i as int),
                    )
                    &&& final(self)@.parents == unregister_parents(old(self)@.parents, subtree_entries(r->0@, parent))
                    &&& final(self)@.labels == unregister_labels(old(self)@.labels, subtree_entries(r->0@, parent))
                    &&& final(self)@.max_pane_idx == old(self)@.max_pane_idx
                },
            },
    {
        let parent_idx = match self.parent_map.get(&target_idx) {
            Some(p) => *p,
            None => return None,
        };
        match parent_idx {
            Some(pid) => {
                let path = match find_path_in(&self.roots, pid) {
                    Some(p) => p,
                    None => return None,
                };
                proof {
                    lemma_roots_bounded(&self.roots);
                    lemma_path_of_valid(self@.roots, pid);
                    assert(path@.skip(0) =~= path@);
                }
                let pos = {
                    let parent_node = node_ref_at(&self.roots, &path, 0);
                    proof {
                        lemma_forest_view_index(parent_node.children@);
                    }
                    match position_of(&parent_node.children, target_idx) {
                        Some(i) => i,
                        None => return None,
                    }
                };
                let node = remove_child_at(&mut self.roots, &path, 0, pos);
                unregister_subtree(&node, &mut self.parent_map, &mut self.label_map, Ghost(parent_idx));
                Some(node)
            },
            None => {
                let pos = match position_of(&self.roots, target_idx) {
                    Some(i) => i,
                    None => return None,
                };
                proof {
                    lemma_forest_view_index(self.roots@);
                    lemma_forest_view_edits(self.roots@, pos as int, self.roots@[pos as int]);
                }
                let node = self.roots.remove(pos);
                unregister_subtree(&node, &mut self.parent_map, &mut self.label_map, Ghost(parent_idx));
                Some(node)
            },
        }
    }
}


/// A pane whose subtree has been flagged for a new transform: every pane in it gains
/// the transform and vertex flags.
pub open spec fn marked_transform_dirty<P>(n: PaneNodeView<P>) -> PaneNodeView<P>
    decreases n, 1int,
{
    PaneNodeView {
        dirty: n.dirty | (DIRTY_TRANSFORM | DIRTY_VERTICES),
        children: marked_forest(n.children),
        ..n
    }
}

pub open spec fn marked_forest<P>(s: Seq<PaneNodeView<P>>) -> Seq<PaneNodeView<P>>
    decreases s, 0int,
{
    if s.len() == 0 {
        Seq::empty()
    } else {
        marked_forest(s.drop_last()).push(marked_transform_dirty(s.last()))
    }
}

pub proof fn lemma_marked_forest_index<P>(s: Seq<PaneNodeView<P>>)
    ensures
        marked_forest(s).len() == s.len(),
        forall|i: int| 0 <= i < s.len() ==> #[trigger] marked_forest(s)[i] == marked_transform_dirty(s[i]),
    decreases s.len(),
{
    if s.len() > 0 {
        lemma_marked_forest_index(s.drop_last());
    }
}

impl<P> PaneNode<P> {
    /// Flags this pane and every pane below it for a new transform and new vertices.
    pub fn mark_transform_dirty(&mut self)
        ensures
            final(self)@ == marked_transform_dirty(old(self)@),
        decreases old(self)@,
    {
        let ghost old_children = self.children@;
        self.dirty.insert(DIRTY_TRANSFORM | DIRTY_VERTICES);
        let n = self.children.len();
        let mut i: usize = 0;
        proof {
            lemma_forest_view_index(old_children);
        }
        while i < n
            invariant
                0 <= i <= n,
                n == self.children@.len(),
                old_children.len() == n,
                forall|k: int| 0 <= k < i ==> #[trigger] node_view(self.children@[k]) == marked_transform_dirty(node_view(old_children[k])),
                forall|k: int| i <= k < n ==> #[trigger] self.children@[k] == old_children[k],
                self.dirty.bits == old(self).dirty.bits | (DIRTY_TRANSFORM | DIRTY_VERTICES),
                self.label == old(self).label,
                self.kind == old(self).kind,
                self.depth == old(self).depth,
                self.visible == old(self).visible,
                self.parts_source == old(self).parts_source,
                self.pane_idx == old(self).pane_idx,
                self.payload == old(self).payload,
                old(self)@.children == forest_view(old_children),
            decreases n - i,
        {
            let mut c = self.children.remove(i);
            proof {
                lemma_forest_view_index(old_children);
                assert(decreases_to!(old(self)@ => old(self)@.children));
                assert(old(self)@.children[i as int] == node_view(old_children[i as int]));
                assert(decreases_to!(old(self)@.children => old(self)@.children[i as int]));
            }
            c.mark_transform_dirty();
            self.children.insert(i, c);
            i = i + 1;
        }
        proof {
            lemma_forest_view_index(self.children@);
            lemma_marked_forest_index(old(self)@.children);
            assert(forest_view(self.children@) =~= marked_forest(old(self)@.children));
        }
    }
}


/// What the tree needs from the data a pane carries for drawing and saving.
pub trait PanePayload: Sized {
    /// A pane's position, size and rotation as an edit records it.
    type Transform;

    /// The data with `t` written into it as the pane's translation, size and Z
    /// rotation; `None` where the data has no transform to write.
    spec fn restored(&self, t: &Self::Transform) -> Option<Self>;

    /// The data with every record of the pane's index set to `pane_idx`.
    spec fn renumbered(&self, pane_idx: usize) -> Self;

    /// Writes a recorded transform back into the pane's data, as `restored` says;
    /// false, with the data unchanged, where it has no transform to write.
    fn restore_transform(&mut self, transform: &Self::Transform) -> (ok: bool)
        ensures
            ok == old(self).restored(transform) is Some,
            ok ==> *final(self) == old(self).restored(transform)->0,
            !ok ==> *final(self) == *old(self),
    ;

    /// Renumbers the pane wherever its data records its index.
    fn set_pane_idx(&mut self, pane_idx: usize)
        ensures
            *final(self) == old(self).renumbered(pane_idx),
    ;

    /// A copy of the pane's data.
    fn duplicate(&self) -> (r: Self)
        ensures
            r == *self,
    ;
}

/// Putting the pane at a path back in its own place leaves the forest as it was.
pub proof fn lemma_set_node_at_same<P>(s: Seq<PaneNodeView<P>>, p: Seq<usize>)
    requires
        valid_path(s, p),
    ensures
        set_node_at(s, p, node_at(s, p)) == s,
    decreases p.len(),
{
    if p.len() <= 1 {
        assert(s.update(p[0] as int, s[p[0] as int]) =~= s);
    } else {
        let c = s[p[0] as int];
        lemma_set_node_at_same(c.children, p.drop_first());
        assert(with_children(c, c.children) == c);
        assert(s.update(p[0] as int, c) =~= s);
    }
}

/// The tree after writing the transform `tr` into the first pane whose index is
/// `pane_idx` and flagging its subtree for a new transform; `None` where there is no
/// such pane or its data has no transform to write.
pub open spec fn transform_restored<P: PanePayload>(t: PaneTreeView<P>, pane_idx: usize, tr: P::Transform) -> Option<PaneTreeView<P>> {
    match path_of(t.roots, pane_idx) {
        None => None,
        Some(p) => match node_at(t.roots, p).payload.restored(&tr) {
            None => None,
            Some(q) => Some(
                PaneTreeView {
                    roots: set_node_at(t.roots, p, marked_transform_dirty(with_payload(node_at(t.roots, p), q))),
                    ..t
                },
            ),
        },
    }
}

/// The forest with the pane at `p` replaced by `n`.
pub open spec fn set_node_at<P>(s: Seq<PaneNodeView<P>>, p: Seq<usize>, n: PaneNodeView<P>) -> Seq<PaneNodeView<P>>
    decreases p.len(),
{
    if p.len() <= 1 {
        s.update(p[0] as int, n)
    } else {
        s.update(p[0] as int, with_children(s[p[0] as int], set_node_at(s[p[0] as int].children, p.drop_first(), n)))
    }
}

/// `n` carrying the data `q` in place of its own.
pub open spec fn with_payload<P>(n: PaneNodeView<P>, q: P) -> PaneNodeView<P> {
    PaneNodeView { payload: q, ..n }
}

/// Writes `t` into the pane at the path and, where that succeeds, flags its subtree
/// for a new transform. Returns whether it succeeded and the pane's new data.
fn restore_transform_at<P: PanePayload>(
    nodes: &mut Vec<PaneNode<P>>,
    path: &Vec<usize>,
    k: usize,
    t: &P::Transform,
) -> (r: (bool, Ghost<P>))
    requires
        k < path@.len(),
        valid_path(forest_view(old(nodes)@), path@.skip(k as int)),
    ensures
        r.0 == node_at(forest_view(old(nodes)@), path@.skip(k as int)).payload.restored(t) is Some,
        r.0 ==> r.1@ == node_at(forest_view(old(nodes)@), path@.skip(k as int)).payload.restored(t)->0,
        !r.0 ==> r.1@ == node_at(forest_view(old(nodes)@), path@.skip(k as int)).payload,
        forest_view(final(nodes)@) == set_node_at(
            forest_view(old(nodes)@),
            path@.skip(k as int),
            if r.0 {
                marked_transform_dirty(with_payload(node_at(forest_view(old(nodes)@), path@.skip(k as int)), r.1@))
            } else {
                with_payload(node_at(forest_view(old(nodes)@), path@.skip(k as int)), r.1@)
            },
        ),
    decreases path@.len() - k,
{
    let ghost old_nodes = nodes@;
    let ghost p = path@.skip(k as int);
    proof {
        lemma_forest_view_index(nodes@);
    }
    let plen = path.len();
    let i = path[k];
    assert(p[0] == i);
    let mut n = nodes.remove(i);
    let ghost n0 = n;
    assert(n0 == old_nodes[i as int]);
    let r;
    if plen - k == 1 {
        let ok = n.payload.restore_transform(t);
        let ghost q = n.payload;
        assert(node_view(n) == with_payload(node_view(n0), q));
        if ok {
            n.mark_transform_dirty();
        }
        r = (ok, Ghost(q));
        nodes.insert(i, n);
        proof {
            assert(nodes@ =~= old_nodes.update(i as int, n));
            lemma_forest_view_edits(old_nodes, i as int, n);
        }
    } else {
        assert(p.drop_first() =~= path@.skip(k + 1));
        r = restore_transform_at(&mut n.children, path, k + 1, t);
        nodes.insert(i, n);
        proof {
            assert(nodes@ =~= old_nodes.update(i as int, n));
            lemma_forest_view_edits(old_nodes, i as int, n);
            assert(node_view(n) == with_children(node_view(n0), forest_view(n.children@)));
        }
    }
    r
}

impl<P: PanePayload> PaneTree<P> {
    /// Writes a recorded transform into the first pane whose index is `pane_idx` and
    /// flags its subtree for a new transform, as `transform_restored` says. False, with
    /// the tree unchanged, where there is no such pane or its data has no transform.
    pub fn restore_transform(&mut self, pane_idx: usize, transform: &P::Transform) -> (ok: bool)
        ensures
            ok == transform_restored(old(self)@, pane_idx, *transform) is Some,
            ok ==> final(self)@ == transform_restored(old(self)@, pane_idx, *transform)->0,
            !ok ==> final(self)@ == old(self)@,
    {
        match find_path_in(&self.roots, pane_idx) {
            Some(path) => {
                proof {
                    lemma_roots_bounded(&self.roots);
                    lemma_path_of_valid(self@.roots, pane_idx);
                    assert(path@.skip(0) =~= path@);
                }
                let ghost p = path@;
                let (ok, q) = restore_transform_at(&mut self.roots, &path, 0, transform);
                proof {
                    if !ok {
                        let n = node_at(old(self)@.roots, p);
                        assert(with_payload(n, n.payload) == n);
                        lemma_set_node_at_same(old(self)@.roots, p);
                    }
                }
                ok
            },
            None => false,
        }
    }
}


/// A pane and its subtree with indices, flags and data forgotten: what a copy keeps.
pub open spec fn erased<P>(v: PaneNodeView<P>) -> PaneNodeView<()>
    decreases v, 1int,
{
    PaneNodeView {
        label: v.label,
        kind: v.kind,
        depth: v.depth,
        visible: v.visible,
        parts_source: v.parts_source,
        pane_idx: 0,
        dirty: 0,
        children: erased_forest(v.children),
        payload: (),
    }
}

pub open spec fn erased_forest<P>(s: Seq<PaneNodeView<P>>) -> Seq<PaneNodeView<()>>
    decreases s, 0int,
{
    if s.len() == 0 {
        Seq::empty()
    } else {
        erased_forest(s.drop_last()).push(erased(s.last()))
    }
}

pub proof fn lemma_erased_forest_index<P>(s: Seq<PaneNodeView<P>>)
    ensures
        erased_forest(s).len() == s.len(),
        forall|i: int| 0 <= i < s.len() ==> #[trigger] erased_forest(s)[i] == erased(s[i]),
    decreases s.len(),
{
    if s.len() > 0 {
        lemma_erased_forest_index(s.drop_last());
    }
}

/// Every pane of the forest is flagged for a full rebuild.
pub open spec fn all_dirty_forest<P>(s: Seq<PaneNodeView<P>>) -> bool
    decreases s,
{
    s.len() == 0 || (all_dirty_forest(s.drop_last()) && s.last().dirty == DIRTY_ALL
        && all_dirty_forest(s.last().children))
}

/// The number of panes in a subtree.
pub open spec fn pane_count<P>(v: PaneNodeView<P>) -> nat {
    ids_of(seq![v]).len()
}

/// `len` consecutive indices from `start`.
pub open spec fn index_range(start: int, len: nat) -> Seq<usize> {
    Seq::new(len, |k: int| (start + k) as usize)
}

pub proof fn lemma_ids_single<P>(v: PaneNodeView<P>)
    ensures
        ids_of(seq![v]) == seq![v.pane_idx] + ids_of(v.children),
{
    let s = seq![v];
    assert(s.drop_last() =~= Seq::<PaneNodeView<P>>::empty());
    assert(s.last() == v);
    assert(ids_of(Seq::<PaneNodeView<P>>::empty()) =~= Seq::<usize>::empty());
    assert(Seq::<usize>::empty() + seq![v.pane_idx] =~= seq![v.pane_idx]);
}

pub proof fn lemma_ids_step<P>(s: Seq<PaneNodeView<P>>, i: int)
    requires
        0 <= i < s.len(),
    ensures
        ids_of(s.take(i + 1)) == ids_of(s.take(i)) + ids_of(seq![s[i]]),
{
    assert(s.take(i + 1).drop_last() =~= s.take(i));
    assert(s.take(i + 1).last() == s[i]);
    lemma_ids_single(s[i]);
    assert(ids_of(s.take(i)) + seq![s[i].pane_idx] + ids_of(s[i].children)
        =~= ids_of(s.take(i)) + (seq![s[i].pane_idx] + ids_of(s[i].children)));
}

/// The panes' data of a forest in pre-order, as `ids_of` lists their indices.
pub open spec fn payloads_of<P>(s: Seq<PaneNodeView<P>>) -> Seq<P>
    decreases s,
{
    if s.len() == 0 {
        Seq::empty()
    } else {
        payloads_of(s.drop_last()) + seq![s.last().payload] + payloads_of(s.last().children)
    }
}

/// Each of `ps` renumbered to its place in the run of indices from `start`.
pub open spec fn renumbered_from<P: PanePayload>(ps: Seq<P>, start: int) -> Seq<P> {
    Seq::new(ps.len(), |j: int| ps[j].renumbered((start + j) as usize))
}

pub proof fn lemma_payloads_single<P>(v: PaneNodeView<P>)
    ensures
        payloads_of(seq![v]) == seq![v.payload] + payloads_of(v.children),
{
    let s = seq![v];
    assert(s.drop_last() =~= Seq::<PaneNodeView<P>>::empty());
    assert(s.last() == v);
    assert(payloads_of(Seq::<PaneNodeView<P>>::empty()) =~= Seq::<P>::empty());
    assert(Seq::<P>::empty() + seq![v.payload] =~= seq![v.payload]);
}

pub proof fn lemma_payloads_step<P>(s: Seq<PaneNodeView<P>>, i: int)
    requires
        0 <= i < s.len(),
    ensures
        payloads_of(s.take(i + 1)) == payloads_of(s.take(i)) + payloads_of(seq![s[i]]),
{
    assert(s.take(i + 1).drop_last() =~= s.take(i));
    assert(s.take(i + 1).last() == s[i]);
    lemma_payloads_single(s[i]);
    assert(payloads_of(s.take(i)) + seq![s[i].payload] + payloads_of(s[i].children)
        =~= payloads_of(s.take(i)) + (seq![s[i].payload] + payloads_of(s[i].children)));
}

/// There is one datum for each index.
pub proof fn lemma_payloads_len<P>(s: Seq<PaneNodeView<P>>)
    ensures
        payloads_of(s).len() == ids_of(s).len(),
    decreases s,
{
    if s.len() > 0 {
        let l = s.last();
        assert(decreases_to!(s => l));
        lemma_payloads_len(s.drop_last());
        lemma_payloads_len(l.children);
    }
}

/// A copy of the subtree, index for index, with the data duplicated.
fn clone_subtree<P: PanePayload>(n: &PaneNode<P>) -> (c: PaneNode<P>)
    ensures
        erased(c@) == erased(n@),
        pane_count(c@) == pane_count(n@),
        payloads_of(seq![c@]) == payloads_of(seq![n@]),
    decreases *n,
{
    let mut children: Vec<PaneNode<P>> = Vec::new();
    let len = n.children.len();
    let ghost ov = forest_view(n.children@);
    proof {
        lemma_forest_view_index(n.children@);
        assert(ov.take(0) =~= Seq::<PaneNodeView<P>>::empty());
    }
    let mut i: usize = 0;
    while i < len
        invariant
            0 <= i <= len,
            len == n.children@.len(),
            ov == forest_view(n.children@),
            ov.len() == len,
            forall|k: int| 0 <= k < len ==> #[trigger] ov[k] == node_view(n.children@[k]),
            children@.len() == i,
            forall|k: int| 0 <= k < i ==> #[trigger] erased(node_view(children@[k])) == erased(ov[k]),
            ids_of(forest_view(children@)).len() == ids_of(ov.take(i as int)).len(),
            payloads_of(forest_view(children@)) == payloads_of(ov.take(i as int)),
        decreases len - i,
    {
        assert(decreases_to!(*n => n.children@[i as int]));
        let c = clone_subtree(&n.children[i]);
        let ghost prev = children@;
        children.push(c);
        proof {
            lemma_forest_view_index(children@);
            lemma_forest_view_index(prev);
            assert(children@.drop_last() =~= prev);
            assert(forest_view(children@) == forest_view(prev).push(node_view(c)));
            assert(forest_view(children@).drop_last() =~= forest_view(prev));
            lemma_ids_single(node_view(c));
            lemma_ids_single(ov[i as int]);
            lemma_ids_step(ov, i as int);
            lemma_payloads_single(node_view(c));
            lemma_payloads_single(ov[i as int]);
            lemma_payloads_step(ov, i as int);
        }
        i = i + 1;
    }
    let parts_source = match &n.parts_source {
        Some(s) => Some(s.clone()),
        None => None,
    };
    let c = PaneNode {
        label: n.label.clone(),
        kind: n.kind.clone(),
        depth: n.depth,
        visible: n.visible,
        parts_source,
        pane_idx: n.pane_idx,
        dirty: n.dirty,
        children,
        payload: n.payload.duplicate(),
    };
    proof {
        assert(ov.take(len as int) =~= ov);
        lemma_forest_view_index(children@);
        lemma_erased_forest_index(forest_view(children@));
        lemma_erased_forest_index(ov);
        assert(erased_forest(forest_view(children@)) =~= erased_forest(ov));
        lemma_ids_single(c@);
        lemma_ids_single(n@);
        lemma_payloads_single(c@);
        lemma_payloads_single(n@);
    }
    c
}

/// Gives the subtree consecutive indices from `*next` in pre-order and flags every
/// pane for a full rebuild.
fn reindex<P: PanePayload>(node: &mut PaneNode<P>, next: &mut usize)
    requires
        *old(next) + pane_count(old(node)@) <= usize::MAX,
    ensures
        erased(final(node)@) == erased(old(node)@),
        ids_of(seq![final(node)@]) == index_range(*old(next) as int, pane_count(old(node)@)),
        *final(next) == *old(next) + pane_count(old(node)@),
        all_dirty_forest(seq![final(node)@]),
        payloads_of(seq![final(node)@]) == renumbered_from(payloads_of(seq![old(node)@]), *old(next) as int),
    decreases old(node)@,
{
    let ghost start = *next;
    let ghost old_children = node.children@;
    let ghost ov = forest_view(old_children);
    proof {
        lemma_ids_single(node@);
        lemma_forest_view_index(old_children);
    }
    node.pane_idx = *next;
    *next = *next + 1;
    node.payload.set_pane_idx(node.pane_idx);
    node.dirty = DirtyFlags::all();
    let len = node.children.len();
    let mut i: usize = 0;
    proof {
        assert(ov.take(0) =~= Seq::<PaneNodeView<P>>::empty());
        assert(forest_view(node.children@).take(0) =~= Seq::<PaneNodeView<P>>::empty());
    }
    while i < len
        invariant
            0 <= i <= len,
            len == node.children@.len(),
            old_children.len() == len,
            ov == forest_view(old_children),
            ov.len() == len,
            forall|k: int| 0 <= k < len ==> #[trigger] ov[k] == node_view(old_children[k]),
            forall|k: int| i <= k < len ==> #[trigger] node.children@[k] == old_children[k],
            forall|k: int| 0 <= k < i ==> #[trigger] erased(node_view(node.children@[k])) == erased(ov[k]),
            ids_of(forest_view(node.children@).take(i as int)) == index_range(start + 1, ids_of(ov.take(i as int)).len()),
            all_dirty_forest(forest_view(node.children@).take(i as int)),
            *next == start + 1 + ids_of(ov.take(i as int)).len(),
            start + 1 + ids_of(ov).len() <= usize::MAX,
            old(node)@.children == ov,
            node.pane_idx == start,
            node.dirty.bits == DIRTY_ALL,
            node.label == old(node).label,
            node.kind == old(node).kind,
            node.depth == old(node).depth,
            node.visible == old(node).visible,
            node.parts_source == old(node).parts_source,
            node.payload == old(node).payload.renumbered(start),
            payloads_of(forest_view(node.children@).take(i as int)) == renumbered_from(
                payloads_of(ov.take(i as int)),
                start + 1,
            ),
        decreases len - i,
    {
        let ghost before = node.children@;
        let mut c = node.children.remove(i);
        proof {
            assert(c == old_children[i as int]);
            assert(decreases_to!(old(node)@ => old(node)@.children));
            assert(decreases_to!(old(node)@.children => old(node)@.children[i as int]));
            lemma_ids_step(ov, i as int);
            lemma_ids_prefix_le(ov, i + 1);
        }
        reindex(&mut c, next);
        node.children.insert(i, c);
        proof {
            let nv = forest_view(node.children@);
            let bv = forest_view(before);
            lemma_forest_view_index(node.children@);
            lemma_forest_view_index(before);
            assert(node.children@ =~= before.update(i as int, c));
            assert(nv.take(i as int) =~= bv.take(i as int));
            lemma_ids_step(nv, i as int);
            assert(nv[i as int] == node_view(c));
            assert(nv.take(i + 1).drop_last() =~= nv.take(i as int));
            assert(nv.take(i + 1).last() == nv[i as int]);
            let a = ids_of(ov.take(i as int)).len();
            let b = pane_count(ov[i as int]);
            assert(index_range(start + 1, a) + index_range(start + 1 + a, b) =~= index_range(start + 1, a + b));
            assert(all_dirty_forest(seq![node_view(c)]));
            assert(seq![node_view(c)].drop_last() =~= Seq::<PaneNodeView<P>>::empty());
            lemma_payloads_step(nv, i as int);
            lemma_payloads_step(ov, i as int);
            lemma_payloads_len(ov.take(i as int));
            let pa = payloads_of(ov.take(i as int));
            let pb = payloads_of(seq![ov[i as int]]);
            assert(renumbered_from(pa, start + 1) + renumbered_from(pb, start + 1 + a) =~= renumbered_from(
                pa + pb,
                start + 1,
            ));
        }
        i = i + 1;
    }
    proof {
        let nv = forest_view(node.children@);
        lemma_forest_view_index(node.children@);
        assert(nv.take(len as int) =~= nv);
        assert(ov.take(len as int) =~= ov);
        lemma_erased_forest_index(nv);
        lemma_erased_forest_index(ov);
        assert(erased_forest(nv) =~= erased_forest(ov));
        lemma_ids_single(node@);
        assert(seq![start] + index_range(start + 1, ids_of(ov).len()) =~= index_range(start as int, pane_count(old(node)@)));
        let one = seq![node@];
        assert(one.drop_last() =~= Seq::<PaneNodeView<P>>::empty());
        assert(one.last() == node@);
        assert(all_dirty_forest(nv));
        assert(node@.children == nv);
        assert(node@.dirty == DIRTY_ALL);
        assert(all_dirty_forest(Seq::<PaneNodeView<P>>::empty()));
        lemma_payloads_single(node@);
        lemma_payloads_single(old(node)@);
        assert(seq![old(node).payload.renumbered(start)] + renumbered_from(payloads_of(ov), start + 1)
            =~= renumbered_from(seq![old(node).payload] + payloads_of(ov), start as int));
    }
}

pub proof fn lemma_ids_prefix_le<P>(s: Seq<PaneNodeView<P>>, k: int)
    requires
        0 <= k <= s.len(),
    ensures
        ids_of(s.take(k)).len() <= ids_of(s).len(),
    decreases s.len() - k,
{
    if k < s.len() {
        assert(s.drop_last().take(k) == s.take(k));
        lemma_ids_prefix_le(s.drop_last(), k);
    } else {
        assert(s.take(k) =~= s);
    }
}


/// `c` is a copy of `v` numbered from `start`: the same labels, kinds and shape, the
/// indices `start, start + 1, ...` in pre-order, each pane's data that of the pane it
/// copies renumbered to the copy's index, every pane flagged for a full rebuild, and
/// the root's label with its trailing NULs dropped and " copy" added.
pub open spec fn is_duplicate<P: PanePayload>(v: PaneNodeView<P>, c: PaneNodeView<P>, start: usize) -> bool {
    &&& erased(c) == erased(PaneNodeView { label: trim_nul(v.label) + " copy"@, ..v })
    &&& ids_of(seq![c]) == index_range(start as int, pane_count(v))
    &&& payloads_of(seq![c]) == renumbered_from(payloads_of(seq![v]), start as int)
    &&& all_dirty_forest(seq![c])
}

/// The parent a copy of `target` is inserted under: the recorded parent, or the roots.
pub open spec fn duplicate_parent<P>(t: PaneTreeView<P>, target: usize) -> Option<usize> {
    if t.parents.contains_key(target) { t.parents[target] } else { None }
}

/// The position a copy of `target` is inserted at: just after the original, or at the end.
pub open spec fn duplicate_position<P>(t: PaneTreeView<P>, target: usize) -> usize {
    match sibling_site(t, target) {
        Some((_, pos)) => (pos + 1) as usize,
        None => usize::MAX,
    }
}

impl<P: PanePayload> PaneTree<P> {
    /// Inserts a renumbered copy of the first pane whose index is `target_idx`, with its
    /// subtree, just after the original, and returns the copy's index.
    pub fn duplicate_node(&mut self, target_idx: usize) -> (r: Option<usize>)
        requires
            path_of(old(self)@.roots, target_idx) matches Some(p)
                ==> old(self).max_pane_idx + 1 + pane_count(node_at(old(self)@.roots, p)) <= usize::MAX,
        ensures
            match path_of(old(self)@.roots, target_idx) {
                None => r is None && final(self)@ == old(self)@,
                Some(p) => {
                    let start = (old(self).max_pane_idx + 1) as usize;
                    let parent = duplicate_parent(old(self)@, target_idx);
                    let position = duplicate_position(old(self)@, target_idx);
                    &&& r == Some(start)
                    &&& exists|c: PaneNodeView<P>| {
                        &&& is_duplicate(node_at(old(self)@.roots, p), c, start)
                        &&& final(self)@.roots == inserted_roots(old(self)@.roots, parent, position, c)
                        &&& final(self)@.parents == register_parents(old(self)@.parents, subtree_entries(c, parent))
                        &&& final(self)@.labels == register_labels(old(self)@.labels, subtree_entries(c, parent))
                        &&& final(self)@.max_pane_idx == register_max(old(self)@.max_pane_idx, subtree_entries(c, parent))
                    }
                },
            },
    {
        let parent_idx = match self.parent_map.get(&target_idx) {
            Some(p) => *p,
            None => None,
        };
        let mut clone = match self.find_by_idx(target_idx) {
            Some(n) => clone_subtree(n),
            None => return None,
        };
        let ghost v = clone@;
        let mut next_idx = self.next_pane_idx();
        reindex(&mut clone, &mut next_idx);
        let ghost rv = clone@;
        let mut label = trim_nul_str(clone.label.as_str());
        label.append(" copy");
        clone.label = label;
        let position = match self.sibling_position(target_idx) {
            Some((_, pos)) => pos + 1,
            None => usize::MAX,
        };
        proof {
            lemma_ids_single(clone@);
            lemma_ids_single(rv);
            assert(ids_of(seq![clone@]) == ids_of(seq![rv]));
            assert(seq![clone@].drop_last() =~= Seq::<PaneNodeView<P>>::empty());
            assert(seq![rv].drop_last() =~= Seq::<PaneNodeView<P>>::empty());
            assert(all_dirty_forest(seq![clone@]));
            lemma_payloads_single(clone@);
            lemma_payloads_single(rv);
            let p = path_of(old(self)@.roots, target_idx)->0;
            let orig = node_at(old(self)@.roots, p);
            assert(erased(clone@) == erased(PaneNodeView { label: trim_nul(orig.label) + " copy"@, ..orig }));
        }
        let ghost c = clone@;
        let ghost pre = self@;
        let r = self.insert_node_at(parent_idx, position, clone);
        proof {
            let p = path_of(old(self)@.roots, target_idx)->0;
            let start = (old(self).max_pane_idx + 1) as usize;
            assert(pre == old(self)@);
            assert(is_duplicate(node_at(old(self)@.roots, p), c, start));
            assert(parent_idx == duplicate_parent(old(self)@, target_idx));
            assert(position == duplicate_position(old(self)@, target_idx));
            lemma_ids_single(c);
            assert(ids_of(seq![c])[0] == c.pane_idx);
            assert(r == start);
            assert({
                &&& is_duplicate(node_at(old(self)@.roots, p), c, start)
                &&& self@.roots == inserted_roots(old(self)@.roots, parent_idx, position, c)
                &&& self@.parents == register_parents(old(self)@.parents, subtree_entries(c, parent_idx))
                &&& self@.labels == register_labels(old(self)@.labels, subtree_entries(c, parent_idx))
                &&& self@.max_pane_idx == register_max(old(self)@.max_pane_idx, subtree_entries(c, parent_idx))
            });
        }
        Some(r)
    }
}

} // verus!
