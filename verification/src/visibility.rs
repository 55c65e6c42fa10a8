//! Hiding and showing a pane together with every pane below it.

use vstd::prelude::*;

use std::collections::HashSet;

use crate::anim_groups::descendant_set;
use crate::pane_tree::PaneTree;

verus! {

broadcast use vstd::std_specs::hash::group_hash_axioms;

/// `idx` and every pane below the first pane with that index.
pub open spec fn subtree_set<P>(tree: &PaneTree<P>, idx: usize) -> Set<usize> {
    set![idx].union(descendant_set(tree@.roots, idx))
}

/// Adds the pane `idx` and every pane below it to the hidden panes.
pub fn hide_pane_recursive<P>(idx: usize, tree: &PaneTree<P>, hidden_set: &mut HashSet<usize>)
    ensures
        final(hidden_set)@ == old(hidden_set)@.union(subtree_set(tree, idx)),
{
    hidden_set.insert(idx);
    let below = tree.descendants(idx);
    assert(below@.to_set() == descendant_set(tree@.roots, idx));
    let ghost h0 = hidden_set@;
    let mut i: usize = 0;
    while i < below.len()
        invariant
            i <= below@.len(),
            hidden_set@ == h0.union(below@.take(i as int).to_set()),
        decreases below.len() - i,
    {
        hidden_set.insert(below[i]);
        proof {
            broadcast use vstd::seq_lib::group_seq_properties;
            assert(below@.take(i + 1) =~= below@.take(i as int).push(below@[i as int]));
            assert(below@.take(i + 1).to_set() =~= below@.take(i as int).to_set().insert(below@[i as int]));
        }
        assert(hidden_set@ =~= h0.union(below@.take(i + 1).to_set()));
        i = i + 1;
    }
    assert(below@.take(i as int) =~= below@);
    assert(hidden_set@ =~= old(hidden_set)@.union(subtree_set(tree, idx)));
}

/// Removes the pane `idx` and every pane below it from the hidden panes.
pub fn show_pane_recursive<P>(idx: usize, tree: &PaneTree<P>, hidden_set: &mut HashSet<usize>)
    ensures
        final(hidden_set)@ == old(hidden_set)@.difference(subtree_set(tree, idx)),
{
    hidden_set.remove(&idx);
    let below = tree.descendants(idx);
    assert(below@.to_set() == descendant_set(tree@.roots, idx));
    let ghost h0 = hidden_set@;
    let mut i: usize = 0;
    while i < below.len()
        invariant
            i <= below@.len(),
            hidden_set@ == h0.difference(below@.take(i as int).to_set()),
        decreases below.len() - i,
    {
        hidden_set.remove(&below[i]);
        proof {
            broadcast use vstd::seq_lib::group_seq_properties;
            assert(below@.take(i + 1) =~= below@.take(i as int).push(below@[i as int]));
            assert(below@.take(i + 1).to_set() =~= below@.take(i as int).to_set().insert(below@[i as int]));
        }
        assert(hidden_set@ =~= h0.difference(below@.take(i + 1).to_set()));
        i = i + 1;
    }
    assert(below@.take(i as int) =~= below@);
    assert(hidden_set@ =~= old(hidden_set)@.difference(subtree_set(tree, idx)));
}

/// Showing a pane and all below it after hiding them leaves hidden exactly the panes
/// outside that subtree that were hidden before; where none of the subtree was hidden,
/// the hidden panes are as they were.
pub proof fn law_show_all_undoes_hide_all<P>(hidden: Set<usize>, tree: &PaneTree<P>, idx: usize)
    ensures
        hidden.union(subtree_set(tree, idx)).difference(subtree_set(tree, idx)) == hidden.difference(
            subtree_set(tree, idx),
        ),
        hidden.disjoint(subtree_set(tree, idx)) ==> hidden.union(subtree_set(tree, idx)).difference(
            subtree_set(tree, idx),
        ) == hidden,
{
    let s = subtree_set(tree, idx);
    assert(hidden.union(s).difference(s) =~= hidden.difference(s));
    if hidden.disjoint(s) {
        assert(hidden.difference(s) =~= hidden);
    }
}

} // verus!
