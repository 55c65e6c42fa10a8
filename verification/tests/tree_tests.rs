use std::collections::HashSet;

use nnbfl_preview::anim_groups::{active_group_pane_indices, resolve_group_visibility, LayoutGroup};
use nnbfl_preview::edit_history::{AppliedCommand, EditHistory, PaneEdit};
use nnbfl_preview::pane_tree::{
    DirtyFlags, PaneNode, PanePayload, PaneTree, DIRTY_ALL, DIRTY_MATERIAL, DIRTY_TEXTURE, DIRTY_TRANSFORM,
};
use nnbfl_preview::visibility::{hide_pane_recursive, show_pane_recursive};

#[derive(Debug, Clone, PartialEq)]
struct Data {
    idx: usize,
    pos: i32,
}

impl PanePayload for Data {
    type Transform = i32;

    fn restored(&self, t: &i32) -> Option<Self> {
        Some(Data { pos: *t, ..self.clone() })
    }

    fn renumbered(&self, pane_idx: usize) -> Self {
        Data { idx: pane_idx, ..self.clone() }
    }

    fn restore_transform(&mut self, transform: &i32) -> bool {
        self.pos = *transform;
        true
    }

    fn set_pane_idx(&mut self, pane_idx: usize) {
        self.idx = pane_idx;
    }

    fn duplicate(&self) -> Self {
        self.clone()
    }
}

fn node(idx: usize, label: &str, children: Vec<PaneNode<Data>>) -> PaneNode<Data> {
    PaneNode {
        label: label.to_string(),
        kind: "pan1".to_string(),
        depth: 0,
        visible: true,
        parts_source: None,
        pane_idx: idx,
        dirty: DirtyFlags::empty(),
        children,
        payload: Data { idx, pos: 0 },
    }
}

/// RootPane(0) { A(1) { A1(3) }, B(2) }
fn sample() -> PaneTree<Data> {
    PaneTree::from_roots(vec![node(
        0,
        "RootPane",
        vec![node(1, "A", vec![node(3, "A1", vec![])]), node(2, "B", vec![])],
    )])
}

fn shape(nodes: &[PaneNode<Data>]) -> Vec<(usize, String, Vec<usize>)> {
    let mut out = Vec::new();
    for n in nodes {
        out.push((n.pane_idx, n.label.clone(), n.children.iter().map(|c| c.pane_idx).collect()));
        out.extend(shape(&n.children));
    }
    out
}

fn child_ids(t: &PaneTree<Data>) -> Vec<usize> {
    t.roots[0].children.iter().map(|c| c.pane_idx).collect()
}

#[test]
fn tree_lookups() {
    let t = sample();
    assert_eq!(t.find_by_idx(3).unwrap().label, "A1");
    assert!(t.find_by_idx(9).is_none());
    assert_eq!(t.find_by_label("B").unwrap().pane_idx, 2);
    assert!(t.find_by_label("C").is_none());
    assert_eq!(t.descendants(0), vec![1, 3, 2]);
    assert_eq!(t.descendants(1), vec![3]);
    assert_eq!(t.descendants(9), Vec::<usize>::new());
    assert_eq!(t.sibling_position(2), Some((Some(0), 1)));
    assert_eq!(t.sibling_position(0), Some((None, 0)));
    assert_eq!(t.sibling_position(9), None);
    assert_eq!(t.next_pane_idx(), 4);
    assert_eq!(t.max_pane_idx, 3);
}

#[test]
fn labels_are_recorded_without_trailing_nuls() {
    let t = PaneTree::from_roots(vec![node(0, "N\0\0", vec![node(5, "M", vec![])])]);
    assert_eq!(t.find_by_label("N").unwrap().pane_idx, 0);
    assert_eq!(t.label_map.get("N"), Some(&0));
    assert_eq!(t.max_pane_idx, 5);
}

#[test]
fn insertion_places_and_records_panes() {
    let mut t = sample();
    assert_eq!(t.insert_node(Some(1), node(10, "C", vec![])), 10);
    assert_eq!(t.descendants(1), vec![3, 10]);
    assert_eq!(t.max_pane_idx, 10);
    assert_eq!(t.sibling_position(10), Some((Some(1), 1)));
    assert_eq!(t.insert_node_at(Some(0), 0, node(11, "D", vec![])), 11);
    assert_eq!(child_ids(&t), vec![11, 1, 2]);
    assert_eq!(t.insert_node_at(None, 99, node(12, "E", vec![])), 12);
    assert_eq!(t.roots.len(), 2);
    assert_eq!(t.roots[1].pane_idx, 12);
    assert_eq!(t.find_by_label("E").unwrap().pane_idx, 12);
}

#[test]
fn removal_forgets_the_subtree() {
    let mut t = sample();
    let removed = t.remove_node(1).unwrap();
    assert_eq!(removed.pane_idx, 1);
    assert_eq!(removed.children[0].pane_idx, 3);
    assert_eq!(child_ids(&t), vec![2]);
    assert!(t.find_by_label("A1").is_none());
    assert!(t.parent_map.get(&3).is_none());
    assert!(t.remove_node(1).is_none());
    assert_eq!(t.max_pane_idx, 3);
}

#[test]
fn duplication_copies_a_subtree_with_fresh_indices() {
    let mut t = sample();
    assert_eq!(t.duplicate_node(1), Some(4));
    assert_eq!(child_ids(&t), vec![1, 4, 2]);
    let copy = t.find_by_idx(4).unwrap();
    assert_eq!(copy.label, "A copy");
    assert_eq!(copy.children[0].pane_idx, 5);
    assert_eq!(copy.children[0].label, "A1");
    assert_eq!(copy.children[0].payload.idx, 5);
    assert_eq!(copy.dirty.bits, DIRTY_ALL);
    assert_eq!(t.max_pane_idx, 5);
    assert_eq!(t.duplicate_node(42), None);
}

#[test]
fn dirty_flags() {
    assert_eq!(DirtyFlags::from_bits_truncate(0xFF).bits, 0x0F);
    let mut f = DirtyFlags::empty();
    f.insert(DIRTY_TRANSFORM | DIRTY_TEXTURE);
    assert!(f.contains(DIRTY_TRANSFORM));
    assert!(!f.contains(DIRTY_MATERIAL));
    f.remove(DIRTY_TRANSFORM);
    assert!(!f.contains(DIRTY_TRANSFORM));
    assert!(f.contains(DIRTY_TEXTURE));
    assert_eq!(DirtyFlags::all().bits, DIRTY_ALL);
}

#[test]
fn marking_a_transform_dirty_reaches_the_subtree() {
    let mut t = sample();
    t.roots[0].children[0].mark_transform_dirty();
    assert!(t.roots[0].children[0].dirty.contains(DIRTY_TRANSFORM));
    assert!(t.roots[0].children[0].children[0].dirty.contains(DIRTY_TRANSFORM));
    assert!(!t.roots[0].children[1].dirty.contains(DIRTY_TRANSFORM));
}

#[test]
fn delete_then_undo_restores_the_tree() {
    let mut t = sample();
    let before = shape(&t.roots);
    let mut h = EditHistory::new(20);
    assert_eq!(h.perform(&mut t, PaneEdit::Delete { target_idx: 1 }), None);
    assert_eq!(child_ids(&t), vec![2]);
    assert_eq!(h.undo(&mut t), Some(1));
    assert_eq!(shape(&t.roots), before);
    assert_eq!(t.find_by_label("A1").unwrap().pane_idx, 3);
    assert_eq!(h.redo(&mut t), None);
    assert_eq!(child_ids(&t), vec![2]);
    assert_eq!(h.undo(&mut t), Some(1));
    assert_eq!(shape(&t.roots), before);
}

#[test]
fn insert_then_undo_restores_the_tree() {
    let mut t = sample();
    let before = shape(&t.roots);
    let mut h = EditHistory::new(20);
    let r = h.perform(&mut t, PaneEdit::Insert { parent_idx: Some(2), position: 0, node: Box::new(node(7, "New", vec![])) });
    assert_eq!(r, Some(7));
    assert_eq!(t.descendants(2), vec![7]);
    assert_eq!(h.undo(&mut t), None);
    assert_eq!(shape(&t.roots), before);
    assert!(t.find_by_label("New").is_none());
    assert_eq!(h.redo(&mut t), Some(7));
    assert_eq!(t.descendants(2), vec![7]);
}

#[test]
fn duplicate_then_undo_removes_the_copy() {
    let mut t = sample();
    let before = shape(&t.roots);
    let mut h = EditHistory::new(20);
    assert_eq!(h.perform(&mut t, PaneEdit::Duplicate { source_idx: 2 }), Some(4));
    assert_eq!(child_ids(&t), vec![1, 2, 4]);
    assert_eq!(h.undo(&mut t), None);
    assert_eq!(shape(&t.roots), before);
}

#[test]
fn failed_edits_are_not_recorded() {
    let mut t = sample();
    let mut h = EditHistory::new(20);
    assert_eq!(h.perform(&mut t, PaneEdit::Delete { target_idx: 99 }), None);
    assert_eq!(h.undo(&mut t), None);
    assert_eq!(child_ids(&t), vec![1, 2]);
}

#[test]
fn history_keeps_at_most_its_limit() {
    let mut t = sample();
    let mut h = EditHistory::new(1);
    h.perform(&mut t, PaneEdit::Delete { target_idx: 2 });
    h.perform(&mut t, PaneEdit::Delete { target_idx: 1 });
    assert!(t.roots[0].children.is_empty());
    assert_eq!(h.undo(&mut t), Some(1));
    assert_eq!(child_ids(&t), vec![1]);
    assert_eq!(h.undo(&mut t), None);
    assert_eq!(child_ids(&t), vec![1]);
}

#[test]
fn a_new_edit_forgets_the_redo_stack() {
    let mut t = sample();
    let mut h = EditHistory::new(20);
    h.perform(&mut t, PaneEdit::Delete { target_idx: 2 });
    h.undo(&mut t);
    h.perform(&mut t, PaneEdit::Delete { target_idx: 3 });
    assert_eq!(h.redo(&mut t), None);
    assert_eq!(child_ids(&t), vec![1, 2]);
}

#[test]
fn linked_panes_are_not_edited() {
    let mut root = node(0, "RootPane", vec![node(1, "A", vec![])]);
    root.children[0].parts_source = Some("Parts".to_string());
    let mut t = PaneTree::from_roots(vec![root]);
    let mut h = EditHistory::new(20);
    assert_eq!(h.perform_unless_linked(&mut t, PaneEdit::Delete { target_idx: 1 }), None);
    assert_eq!(child_ids(&t), vec![1]);
    assert_eq!(h.perform_unless_linked(&mut t, PaneEdit::Delete { target_idx: 0 }), Some(None));
    assert!(t.roots.is_empty());
}

#[test]
fn transforms_are_recorded_only_when_they_change() {
    let mut t = sample();
    let mut h = EditHistory::new(20);
    h.record_transform(2, 5, 5);
    assert_eq!(h.undo(&mut t), None);
    h.record_transform(2, 5, 8);
    assert_eq!(h.undo(&mut t), Some(2));
    assert_eq!(t.find_by_idx(2).unwrap().payload.pos, 5);
    assert_eq!(h.redo(&mut t), Some(2));
    assert_eq!(t.find_by_idx(2).unwrap().payload.pos, 8);
}

#[test]
fn hide_all_and_show_all() {
    let t = sample();
    let mut hidden: HashSet<usize> = HashSet::new();
    hidden.insert(2);
    hide_pane_recursive(1, &t, &mut hidden);
    assert_eq!(hidden, HashSet::from([1, 2, 3]));
    show_pane_recursive(1, &t, &mut hidden);
    assert_eq!(hidden, HashSet::from([2]));
    show_pane_recursive(0, &t, &mut hidden);
    assert!(hidden.is_empty());
    hide_pane_recursive(9, &t, &mut hidden);
    assert_eq!(hidden, HashSet::from([9]));
}

#[test]
fn animation_groups_drive_and_hide_panes() {
    let t = sample();
    let groups = vec![
        LayoutGroup { group_name: "G1".to_string(), child_names: vec!["A\0".to_string()] },
        LayoutGroup { group_name: "G2".to_string(), child_names: vec!["B".to_string(), "Missing".to_string(), "A1".to_string()] },
        LayoutGroup { group_name: "G1".to_string(), child_names: vec!["B".to_string()] },
    ];
    let anim = vec!["G1".to_string()];
    assert_eq!(active_group_pane_indices(&anim, &t, &groups), HashSet::from([1]));
    let mut hidden: HashSet<usize> = HashSet::from([0]);
    resolve_group_visibility(&anim, &t, &groups, &mut hidden);
    assert_eq!(hidden, HashSet::from([2]));

    let both = vec!["G2".to_string(), "G1".to_string()];
    assert_eq!(active_group_pane_indices(&both, &t, &groups), HashSet::from([1, 2, 3]));
    resolve_group_visibility(&both, &t, &groups, &mut hidden);
    assert!(hidden.is_empty());

    let none: Vec<String> = vec![];
    let mut hidden: HashSet<usize> = HashSet::from([0, 1]);
    assert!(active_group_pane_indices(&none, &t, &groups).is_empty());
    resolve_group_visibility(&none, &t, &groups, &mut hidden);
    assert!(hidden.is_empty());

    let unknown = vec!["Nope".to_string()];
    resolve_group_visibility(&unknown, &t, &groups, &mut hidden);
    assert_eq!(hidden, HashSet::from([1, 2, 3]));
}

#[test]
fn push_undo_drops_the_oldest_command_at_the_limit() {
    let mut t = sample();
    let mut h = EditHistory::new(1);
    h.push_undo(AppliedCommand::Inserted(1));
    h.push_undo(AppliedCommand::Inserted(2));
    h.undo(&mut t);
    assert_eq!(child_ids(&t), vec![1]);
    assert_eq!(h.undo(&mut t), None);
    assert_eq!(child_ids(&t), vec![1]);
}

#[test]
fn a_duplicate_carries_renumbered_pane_data() {
    let mut t = sample();
    t.roots[0].children[0].children[0].payload.pos = 7;
    assert_eq!(t.duplicate_node(1), Some(4));
    let copy = t.find_by_idx(4).unwrap();
    assert_eq!(copy.payload, Data { idx: 4, pos: 0 });
    assert_eq!(copy.children[0].payload, Data { idx: 5, pos: 7 });
    assert_eq!(t.find_by_idx(3).unwrap().payload, Data { idx: 3, pos: 7 });
}
