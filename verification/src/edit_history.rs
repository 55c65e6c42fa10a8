//! Structural edits of the pane tree and the undo and redo stacks that record them.

use vstd::prelude::*;
use vstd::std_specs::cmp::PartialEqSpec;

use crate::pane_tree::{
    duplicate_parent, duplicate_position, inserted_roots, is_duplicate, marked_transform_dirty, node_at,
    pane_count, path_of, register_labels, register_max, register_parents, set_node_at, sibling_site,
    siblings_at, subtree_entries, unregister_labels, unregister_parents, with_payload, with_siblings,
    PaneNode, PaneNodeView, PanePayload, PaneTree, PaneTreeView, transform_restored,
};

verus! {

/// A pane taken out of the tree, with the place it was taken from.
pub struct PendingRemoval<P> {
    pub parent_idx: Option<usize>,
    pub position: usize,
    pub node: PaneNode<P>,
}

/// An edit the user asks for.
pub enum PaneEdit<P> {
    Delete { target_idx: usize },
    Duplicate { source_idx: usize },
    Insert { parent_idx: Option<usize>, position: usize, node: Box<PaneNode<P>> },
}

/// An edit that has been carried out, holding what is needed to reverse it.
pub enum AppliedCommand<P: PanePayload> {
    Inserted(usize),
    Removed(Box<PendingRemoval<P>>),
    Transformed { pane_idx: usize, before: P::Transform, after: P::Transform },
}

/// The mathematical value of a recorded command.
pub enum CommandView<P: PanePayload> {
    Inserted(usize),
    Removed { parent_idx: Option<usize>, position: usize, node: PaneNodeView<P> },
    Transformed { pane_idx: usize, before: P::Transform, after: P::Transform },
}

impl<P: PanePayload> View for AppliedCommand<P> {
    type V = CommandView<P>;

    open spec fn view(&self) -> CommandView<P> {
        match self {
            AppliedCommand::Inserted(i) => CommandView::Inserted(*i),
            AppliedCommand::Removed(r) => CommandView::Removed {
                parent_idx: r.parent_idx,
                position: r.position,
                node: r.node@,
            },
            AppliedCommand::Transformed { pane_idx, before, after } => CommandView::Transformed {
                pane_idx: *pane_idx,
                before: *before,
                after: *after,
            },
        }
    }
}

/// The tree after the pane at position `i` under `parent` has been taken out and
/// forgotten in the maps.
pub open spec fn after_removal<P>(t: PaneTreeView<P>, parent: Option<usize>, i: usize) -> PaneTreeView<P> {
    let n = siblings_at(t.roots, parent)[i as int];
    PaneTreeView {
        roots: with_siblings(t.roots, parent, siblings_at(t.roots, parent).remove(i as int)),
        parents: unregister_parents(t.parents, subtree_entries(n, parent)),
        labels: unregister_labels(t.labels, subtree_entries(n, parent)),
        max_pane_idx: t.max_pane_idx,
    }
}

/// The tree after `n` has been inserted at `position` under `parent` and recorded in the maps.
pub open spec fn after_insertion<P>(
    t: PaneTreeView<P>,
    parent: Option<usize>,
    position: usize,
    n: PaneNodeView<P>,
) -> PaneTreeView<P> {
    PaneTreeView {
        roots: inserted_roots(t.roots, parent, position, n),
        parents: register_parents(t.parents, subtree_entries(n, parent)),
        labels: register_labels(t.labels, subtree_entries(n, parent)),
        max_pane_idx: register_max(t.max_pane_idx, subtree_entries(n, parent)),
    }
}

/// Taking the pane `target` out of the tree: the command that records it and the tree
/// after it, or `None` where the pane is not where the parent map puts it.
pub open spec fn take_out<P: PanePayload>(t: PaneTreeView<P>, target: usize) -> Option<(CommandView<P>, PaneTreeView<P>)> {
    match sibling_site(t, target) {
        Some((parent, i)) => Some((
            CommandView::Removed { parent_idx: parent, position: i, node: siblings_at(t.roots, parent)[i as int] },
            after_removal(t, parent, i),
        )),
        None => None,
    }
}

/// Putting a removed pane back where it was: the command that records it and the tree after it.
pub open spec fn put_back<P: PanePayload>(
    t: PaneTreeView<P>,
    parent: Option<usize>,
    position: usize,
    n: PaneNodeView<P>,
) -> (CommandView<P>, PaneTreeView<P>) {
    (CommandView::Inserted(n.pane_idx), after_insertion(t, parent, position, n))
}

impl<P: PanePayload> PaneEdit<P> {
    /// Carries out the edit on the tree and returns the command that records it, or
    /// `None`, with the tree unchanged, where the edit cannot be made.
    pub fn apply(self, tree: &mut PaneTree<P>) -> (r: Option<AppliedCommand<P>>)
        requires
            self matches PaneEdit::Duplicate { source_idx } ==> (path_of(old(tree)@.roots, source_idx) matches Some(p)
                ==> old(tree).max_pane_idx + 1 + pane_count(node_at(old(tree)@.roots, p)) <= usize::MAX),
        ensures
            match self {
                PaneEdit::Delete { target_idx } => match take_out(old(tree)@, target_idx) {
                    Some((c, t)) => r matches Some(a) && a@ == c && final(tree)@ == t,
                    None => r is None && final(tree)@ == old(tree)@,
                },
                PaneEdit::Insert { parent_idx, position, node } => {
                    &&& r matches Some(a) && a@ == CommandView::<P>::Inserted(node.pane_idx)
                    &&& final(tree)@ == after_insertion(old(tree)@, parent_idx, position, node@)
                },
                PaneEdit::Duplicate { source_idx } => match path_of(old(tree)@.roots, source_idx) {
                    None => r is None && final(tree)@ == old(tree)@,
                    Some(p) => {
                        let start = (old(tree).max_pane_idx + 1) as usize;
                        &&& r matches Some(a) && a@ == CommandView::<P>::Inserted(start)
                        &&& exists|c: PaneNodeView<P>| {
                            &&& is_duplicate(node_at(old(tree)@.roots, p), c, start)
                            &&& final(tree)@ == after_insertion(
                                old(tree)@,
                                duplicate_parent(old(tree)@, source_idx),
                                duplicate_position(old(tree)@, source_idx),
                                c,
                            )
                        }
                    },
                },
            },
    {
        match self {
            PaneEdit::Delete { target_idx } => {
                let (parent_idx, position) = match tree.sibling_position(target_idx) {
                    Some(site) => site,
                    None => return None,
                };
                let node = match tree.remove_node(target_idx) {
                    Some(n) => n,
                    None => return None,
                };
                Some(AppliedCommand::Removed(Box::new(PendingRemoval { parent_idx, position, node })))
            },
            PaneEdit::Duplicate { source_idx } => {
                match tree.duplicate_node(source_idx) {
                    Some(new_idx) => Some(AppliedCommand::Inserted(new_idx)),
                    None => None,
                }
            },
            PaneEdit::Insert { parent_idx, position, node } => {
                let idx = tree.insert_node_at(parent_idx, position, *node);
                Some(AppliedCommand::Inserted(idx))
            },
        }
    }
}

impl<P: PanePayload> AppliedCommand<P> {
    /// Reverses the command on the tree and returns the command that reverses it in
    /// turn, or `None` where it cannot be reversed. A transform is written back into
    /// the pane's data; the caller recomputes positions afterwards.
    pub fn invert(self, tree: &mut PaneTree<P>) -> (r: Option<AppliedCommand<P>>)
        ensures
            match self@ {
                CommandView::Inserted(idx) => match take_out(old(tree)@, idx) {
                    Some((c, t)) => r matches Some(a) && a@ == c && final(tree)@ == t,
                    None => r is None && final(tree)@ == old(tree)@,
                },
                CommandView::Removed { parent_idx, position, node } => {
                    let (c, t) = put_back(old(tree)@, parent_idx, position, node);
                    r matches Some(a) && a@ == c && final(tree)@ == t
                },
                CommandView::Transformed { pane_idx, before, after } => match transform_restored(
                    old(tree)@,
                    pane_idx,
                    before,
                ) {
                    Some(t) => r matches Some(a) && a@ == CommandView::<P>::Transformed {
                        pane_idx,
                        before: after,
                        after: before,
                    } && final(tree)@ == t,
                    None => r is None && final(tree)@ == old(tree)@,
                },
            },
    {
        match self {
            AppliedCommand::Inserted(pane_idx) => {
                let (parent_idx, position) = match tree.sibling_position(pane_idx) {
                    Some(site) => site,
                    None => return None,
                };
                let node = match tree.remove_node(pane_idx) {
                    Some(n) => n,
                    None => return None,
                };
                Some(AppliedCommand::Removed(Box::new(PendingRemoval { parent_idx, position, node })))
            },
            AppliedCommand::Removed(removal) => {
                let PendingRemoval { parent_idx, position, node } = *removal;
                let pane_idx = tree.insert_node_at(parent_idx, position, node);
                Some(AppliedCommand::Inserted(pane_idx))
            },
            AppliedCommand::Transformed { pane_idx, before, after } => {
                if tree.restore_transform(pane_idx, &before) {
                    Some(AppliedCommand::Transformed { pane_idx, before: after, after: before })
                } else {
                    None
                }
            },
        }
    }

    /// The pane the command leaves selected: the inserted or transformed one.
    pub fn resulting_pane_idx(&self) -> (r: Option<usize>)
        ensures
            r == match self@ {
                CommandView::Inserted(i) => Some(i),
                CommandView::Removed { .. } => None,
                CommandView::Transformed { pane_idx, .. } => Some(pane_idx),
            },
    {
        match self {
            AppliedCommand::Inserted(idx) => Some(*idx),
            AppliedCommand::Removed(_) => None,
            AppliedCommand::Transformed { pane_idx, .. } => Some(*pane_idx),
        }
    }
}


/// The undo stack after recording `c`: its oldest command falls off once it holds `limit`.
pub open spec fn pushed<P: PanePayload>(s: Seq<CommandView<P>>, c: CommandView<P>, limit: usize) -> Seq<CommandView<P>> {
    if s.len() >= limit {
        s.drop_first().push(c)
    } else {
        s.push(c)
    }
}

/// The mathematical value of an edit history.
pub struct EditHistoryView<P: PanePayload> {
    pub undo: Seq<CommandView<P>>,
    pub redo: Seq<CommandView<P>>,
    pub limit: usize,
}

/// What carrying out `edit` on `t0` with history `h0` does, giving `t1`, `h1` and the
/// pane `r` left selected: the edit is applied and recorded for undoing, and what could
/// be redone is forgotten; an edit that cannot be made changes nothing.
pub open spec fn edit_performed<P: PanePayload>(
    h0: EditHistoryView<P>,
    t0: PaneTreeView<P>,
    edit: PaneEdit<P>,
    h1: EditHistoryView<P>,
    t1: PaneTreeView<P>,
    r: Option<usize>,
) -> bool {
    match edit {
        PaneEdit::Delete { target_idx } => match take_out(t0, target_idx) {
            Some((c, t)) => {
                &&& t1 == t
                &&& h1.undo == pushed(h0.undo, c, h0.limit)
                &&& h1.redo == Seq::<CommandView<P>>::empty()
                &&& r is None
            },
            None => r is None && t1 == t0 && h1 == h0,
        },
        PaneEdit::Insert { parent_idx, position, node } => {
            &&& t1 == after_insertion(t0, parent_idx, position, node@)
            &&& h1.undo == pushed(h0.undo, CommandView::<P>::Inserted(node.pane_idx), h0.limit)
            &&& h1.redo == Seq::<CommandView<P>>::empty()
            &&& r == Some(node.pane_idx)
        },
        PaneEdit::Duplicate { source_idx } => match path_of(t0.roots, source_idx) {
            None => r is None && t1 == t0 && h1 == h0,
            Some(p) => {
                let start = (t0.max_pane_idx + 1) as usize;
                &&& r == Some(start)
                &&& h1.undo == pushed(h0.undo, CommandView::<P>::Inserted(start), h0.limit)
                &&& h1.redo == Seq::<CommandView<P>>::empty()
                &&& exists|c: PaneNodeView<P>| {
                    &&& is_duplicate(node_at(t0.roots, p), c, start)
                    &&& t1 == after_insertion(
                        t0,
                        duplicate_parent(t0, source_idx),
                        duplicate_position(t0, source_idx),
                        c,
                    )
                }
            },
        },
    }
}

/// The pane an edit is aimed at, where it is aimed at an existing one.
pub open spec fn edit_target<P>(edit: PaneEdit<P>) -> Option<usize> {
    match edit {
        PaneEdit::Delete { target_idx } => Some(target_idx),
        PaneEdit::Duplicate { source_idx } => Some(source_idx),
        PaneEdit::Insert { .. } => None,
    }
}

/// The first pane with index `idx` belongs to a linked layout.
pub open spec fn is_linked<P>(t: PaneTreeView<P>, idx: usize) -> bool {
    path_of(t.roots, idx) matches Some(p) && node_at(t.roots, p).parts_source is Some
}

pub open spec fn commands_view<P: PanePayload>(s: Seq<AppliedCommand<P>>) -> Seq<CommandView<P>> {
    s.map_values(|c: AppliedCommand<P>| c@)
}

/// The commands that can be undone and redone, at most `limit` of the former.
pub struct EditHistory<P: PanePayload> {
    undo_stack: Vec<AppliedCommand<P>>,
    redo_stack: Vec<AppliedCommand<P>>,
    limit: usize,
}

impl<P: PanePayload> View for EditHistory<P> {
    type V = EditHistoryView<P>;

    closed spec fn view(&self) -> EditHistoryView<P> {
        EditHistoryView {
            undo: commands_view(self.undo_stack@),
            redo: commands_view(self.redo_stack@),
            limit: self.limit,
        }
    }
}

impl<P: PanePayload> EditHistory<P> {
    #[verifier::type_invariant]
    closed spec fn inv(self) -> bool {
        &&& self.limit > 0
        &&& self.undo_stack@.len() <= self.limit
    }

    /// An empty history that keeps at most `limit` commands to undo.
    pub fn new(limit: usize) -> (h: Self)
        requires
            limit > 0,
        ensures
            h@.undo == Seq::<CommandView<P>>::empty(),
            h@.redo == Seq::<CommandView<P>>::empty(),
            h@.limit == limit,
    {
        let h = EditHistory { undo_stack: Vec::new(), redo_stack: Vec::new(), limit };
        proof {
            assert(commands_view(h.undo_stack@) =~= Seq::<CommandView<P>>::empty());
            assert(commands_view(h.redo_stack@) =~= Seq::<CommandView<P>>::empty());
        }
        h
    }

    /// Records a command for undoing. Where the undo stack is already at its limit,
    /// its oldest command is dropped first, so the stack never holds more than the
    /// limit; what could be redone is left as it was.
    pub fn push_undo(&mut self, applied: AppliedCommand<P>)
        ensures
            final(self)@.undo == pushed(old(self)@.undo, applied@, old(self)@.limit),
            final(self)@.redo == old(self)@.redo,
            final(self)@.limit == old(self)@.limit,
            final(self)@.undo.len() <= final(self)@.limit,
    {
        proof {
            use_type_invariant(&*self);
        }
        let ghost old_undo = self.undo_stack@;
        let mut undo = Vec::new();
        std::mem::swap(&mut undo, &mut self.undo_stack);
        if undo.len() >= self.limit {
            undo.remove(0);
            proof {
                assert(commands_view(undo@) =~= commands_view(old_undo).drop_first());
            }
        }
        let ghost mid = undo@;
        undo.push(applied);
        proof {
            assert(commands_view(undo@) =~= commands_view(mid).push(applied@));
        }
        self.undo_stack = undo;
    }

    /// Carries out the edit, forgets what could be redone and records the edit for
    /// undoing. Returns the pane the edit leaves selected; where the edit cannot be
    /// made nothing changes and the result is `None`.
    pub fn perform(&mut self, tree: &mut PaneTree<P>, edit: PaneEdit<P>) -> (r: Option<usize>)
        requires
            edit matches PaneEdit::Duplicate { source_idx } ==> (path_of(old(tree)@.roots, source_idx) matches Some(p)
                ==> old(tree).max_pane_idx + 1 + pane_count(node_at(old(tree)@.roots, p)) <= usize::MAX),
        ensures
            final(self)@.undo.len() <= final(self)@.limit,
            final(self)@.limit == old(self)@.limit,
            edit_performed(old(self)@, old(tree)@, edit, final(self)@, final(tree)@, r),
    {
        proof {
            use_type_invariant(&*self);
        }
        let applied = match edit.apply(tree) {
            Some(a) => a,
            None => return None,
        };
        let resulting_idx = applied.resulting_pane_idx();
        self.redo_stack = Vec::new();
        proof {
            assert(commands_view(self.redo_stack@) =~= Seq::<CommandView<P>>::empty());
        }
        self.push_undo(applied);
        resulting_idx
    }

    /// Carries out the edit as `perform` does, unless it is aimed at a pane that
    /// belongs to a linked layout: such panes are edited through their Parts pane, so
    /// the edit is refused, nothing changes and the result is `None`.
    pub fn perform_unless_linked(&mut self, tree: &mut PaneTree<P>, edit: PaneEdit<P>) -> (r: Option<Option<usize>>)
        requires
            edit matches PaneEdit::Duplicate { source_idx } ==> (path_of(old(tree)@.roots, source_idx) matches Some(p)
                ==> old(tree).max_pane_idx + 1 + pane_count(node_at(old(tree)@.roots, p)) <= usize::MAX),
        ensures
            final(self)@.undo.len() <= final(self)@.limit,
            final(self)@.limit == old(self)@.limit,
            (edit_target(edit) matches Some(i) && is_linked(old(tree)@, i)) ==> r is None && final(self)@ == old(
                self,
            )@ && final(tree)@ == old(tree)@,
            !(edit_target(edit) matches Some(i) && is_linked(old(tree)@, i)) ==> (r matches Some(x)
                && edit_performed(old(self)@, old(tree)@, edit, final(self)@, final(tree)@, x)),
    {
        proof {
            use_type_invariant(&*self);
        }
        let target = match &edit {
            PaneEdit::Delete { target_idx } => Some(*target_idx),
            PaneEdit::Duplicate { source_idx } => Some(*source_idx),
            PaneEdit::Insert { .. } => None,
        };
        if let Some(idx) = target {
            match tree.find_by_idx(idx) {
                Some(n) => {
                    if n.parts_source.is_some() {
                        return None;
                    }
                },
                None => {},
            }
        }
        Some(self.perform(tree, edit))
    }

    /// Reverses the most recent command and records its reversal for redoing. Returns
    /// the pane the reversal leaves selected. With nothing to undo nothing changes; a
    /// command that cannot be reversed is dropped from the history.
    pub fn undo(&mut self, tree: &mut PaneTree<P>) -> (r: Option<usize>)
        ensures
            final(self)@.limit == old(self)@.limit,
            old(self)@.undo.len() == 0 ==> r is None && final(self)@ == old(self)@ && final(tree)@ == old(tree)@,
            old(self)@.undo.len() > 0 ==> {
                let c = old(self)@.undo.last();
                &&& final(self)@.undo == old(self)@.undo.drop_last()
                &&& match c {
                    CommandView::Removed { parent_idx, position, node } => {
                        let (inv, t) = put_back(old(tree)@, parent_idx, position, node);
                        &&& final(tree)@ == t
                        &&& final(self)@.redo == old(self)@.redo.push(inv)
                        &&& r == Some(node.pane_idx)
                    },
                    CommandView::Inserted(idx) => match take_out(old(tree)@, idx) {
                        Some((inv, t)) => final(tree)@ == t && final(self)@.redo == old(self)@.redo.push(inv) && r is None,
                        None => final(tree)@ == old(tree)@ && final(self)@.redo == old(self)@.redo && r is None,
                    },
                    CommandView::Transformed { pane_idx, before, after } => match transform_restored(
                        old(tree)@,
                        pane_idx,
                        before,
                    ) {
                        Some(t) => {
                            &&& final(tree)@ == t
                            &&& final(self)@.redo == old(self)@.redo.push(
                                CommandView::<P>::Transformed { pane_idx, before: after, after: before },
                            )
                            &&& r == Some(pane_idx)
                        },
                        None => final(tree)@ == old(tree)@ && final(self)@.redo == old(self)@.redo && r is None,
                    },
                }
            },
    {
        proof {
            use_type_invariant(&*self);
        }
        let ghost old_undo = self.undo_stack@;
        let mut undo = Vec::new();
        std::mem::swap(&mut undo, &mut self.undo_stack);
        let popped = undo.pop();
        self.undo_stack = undo;
        let applied = match popped {
            Some(a) => a,
            None => {
                return None;
            },
        };
        proof {
            assert(commands_view(self.undo_stack@) =~= commands_view(old_undo).drop_last());
            assert(applied@ == commands_view(old_undo).last());
        }
        let inverse = match applied.invert(tree) {
            Some(i) => i,
            None => return None,
        };
        let resulting_idx = inverse.resulting_pane_idx();
        let ghost old_redo = self.redo_stack@;
        let mut redo = Vec::new();
        std::mem::swap(&mut redo, &mut self.redo_stack);
        redo.push(inverse);
        self.redo_stack = redo;
        proof {
            assert(commands_view(self.redo_stack@) =~= commands_view(old_redo).push(inverse@));
        }
        resulting_idx
    }

    /// Reverses the most recently undone command and records that for undoing again.
    /// With nothing to redo nothing changes; a command that cannot be reversed is dropped.
    pub fn redo(&mut self, tree: &mut PaneTree<P>) -> (r: Option<usize>)
        ensures
            final(self)@.undo.len() <= final(self)@.limit,
            final(self)@.limit == old(self)@.limit,
            old(self)@.redo.len() == 0 ==> r is None && final(self)@ == old(self)@ && final(tree)@ == old(tree)@,
            old(self)@.redo.len() > 0 ==> {
                let c = old(self)@.redo.last();
                &&& final(self)@.redo == old(self)@.redo.drop_last()
                &&& match c {
                    CommandView::Removed { parent_idx, position, node } => {
                        let (inv, t) = put_back(old(tree)@, parent_idx, position, node);
                        &&& final(tree)@ == t
                        &&& final(self)@.undo == pushed(old(self)@.undo, inv, old(self)@.limit)
                        &&& r == Some(node.pane_idx)
                    },
                    CommandView::Inserted(idx) => match take_out(old(tree)@, idx) {
                        Some((inv, t)) => final(tree)@ == t && final(self)@.undo == pushed(old(self)@.undo, inv, old(self)@.limit) && r is None,
                        None => final(tree)@ == old(tree)@ && final(self)@.undo == old(self)@.undo && r is None,
                    },
                    CommandView::Transformed { pane_idx, before, after } => match transform_restored(
                        old(tree)@,
                        pane_idx,
                        before,
                    ) {
                        Some(t) => {
                            &&& final(tree)@ == t
                            &&& final(self)@.undo == pushed(
                                old(self)@.undo,
                                CommandView::<P>::Transformed { pane_idx, before: after, after: before },
                                old(self)@.limit,
                            )
                            &&& r == Some(pane_idx)
                        },
                        None => final(tree)@ == old(tree)@ && final(self)@.undo == old(self)@.undo && r is None,
                    },
                }
            },
    {
        proof {
            use_type_invariant(&*self);
        }
        let ghost old_redo = self.redo_stack@;
        let mut redo = Vec::new();
        std::mem::swap(&mut redo, &mut self.redo_stack);
        let popped = redo.pop();
        self.redo_stack = redo;
        let applied = match popped {
            Some(a) => a,
            None => {
                return None;
            },
        };
        proof {
            assert(commands_view(self.redo_stack@) =~= commands_view(old_redo).drop_last());
            assert(applied@ == commands_view(old_redo).last());
        }
        let inverse = match applied.invert(tree) {
            Some(i) => i,
            None => return None,
        };
        let resulting_idx = inverse.resulting_pane_idx();
        self.push_undo(inverse);
        resulting_idx
    }

    /// Records a transform made by dragging a pane, forgetting what could be redone;
    /// a transform equal to the one before it is not recorded.
    pub fn record_transform(&mut self, pane_idx: usize, before: P::Transform, after: P::Transform)
        where P::Transform: PartialEq,
        ensures
            final(self)@.undo.len() <= final(self)@.limit,
            final(self)@.limit == old(self)@.limit,
            final(self)@ == old(self)@ || {
                &&& final(self)@.redo == Seq::<CommandView<P>>::empty()
                &&& final(self)@.undo == pushed(
                    old(self)@.undo,
                    CommandView::<P>::Transformed { pane_idx, before, after },
                    old(self)@.limit,
                )
            },
            <P::Transform as PartialEqSpec>::obeys_eq_spec() ==> (if before.eq_spec(&after) {
                final(self)@ == old(self)@
            } else {
                &&& final(self)@.redo == Seq::<CommandView<P>>::empty()
                &&& final(self)@.undo == pushed(
                    old(self)@.undo,
                    CommandView::<P>::Transformed { pane_idx, before, after },
                    old(self)@.limit,
                )
            }),
    {
        proof {
            use_type_invariant(&*self);
        }
        if before == after {
            return;
        }
        self.redo_stack = Vec::new();
        proof {
            assert(commands_view(self.redo_stack@) =~= Seq::<CommandView<P>>::empty());
        }
        self.push_undo(AppliedCommand::Transformed { pane_idx, before, after });
    }
}

} // verus!
