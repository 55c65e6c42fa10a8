use std::collections::HashSet;

use nnbfl_preview::anim_groups::LayoutGroup;
use nnbfl_preview::frames::{apply_texture_flip, FrameKind, TextureFlip};
use nnbfl_preview::keybinds::{apply, bindings, pressed_binding, Action, Key, Modifiers, ShortcutTarget, TimelineCommand};
use nnbfl_preview::tabs::{fill_default_anim_names, LayoutTabs};
use nnbfl_preview::timeline::{
    collect_tracks_for_pane, target_index_label, AnimContent, AnimInfoSummary, TargetGroup, TimelineRow,
};
use nnbfl_preview::ui_state::{
    apply_context_menu_action, ContextMenu, ContextMenuAction, GroupEditor, MenuButton, PaneVisibilityFlags,
    UiAction,
};

fn target() -> ShortcutTarget {
    ShortcutTarget { selected_pane: Some(4), context_menu_open: true, pending_action: None, archive_browser_visible: false }
}

#[test]
fn the_binding_table() {
    let b = bindings();
    assert_eq!(b.len(), 12);
    assert_eq!(b[0].action, Action::SaveAs);
    assert_eq!(b[0].key, Key::S);
    assert_eq!(b[0].description, "Save As...");
    assert_eq!(b[5].key, Key::Backspace);
    assert_eq!(b[5].action, Action::DeleteSelected);
    assert_eq!(b[0].shortcut_text(), "Ctrl+S");
    assert_eq!(b[1].shortcut_text(), "Space");
    assert_eq!(b[8].action, Action::Redo);
    assert_eq!(b[8].shortcut_text(), "Ctrl+Shift+Z");
    assert_eq!(b[11].shortcut_text(), "Ctrl+B");
}

#[test]
fn shortcut_actions_on_the_interface() {
    let mut s = target();
    assert_eq!(apply(Action::DeleteSelected, &mut s), TimelineCommand::Unchanged);
    assert!(matches!(s.pending_action, Some(UiAction::DeletePane(4))));
    apply(Action::DuplicateSelected, &mut s);
    assert!(matches!(s.pending_action, Some(UiAction::DuplicatePane(4))));
    apply(Action::Undo, &mut s);
    assert!(matches!(s.pending_action, Some(UiAction::Undo)));
    apply(Action::SaveAs, &mut s);
    assert!(matches!(s.pending_action, Some(UiAction::SaveFile)));
    apply(Action::SetLayoutDirectory, &mut s);
    assert!(matches!(s.pending_action, Some(UiAction::SetBlarcDir)));
    apply(Action::Deselect, &mut s);
    assert_eq!(s.selected_pane, None);
    assert!(!s.context_menu_open);
    apply(Action::DeleteSelected, &mut s);
    assert!(matches!(s.pending_action, Some(UiAction::SetBlarcDir)));
    apply(Action::ToggleArchiveBrowser, &mut s);
    assert!(s.archive_browser_visible);
    apply(Action::ToggleArchiveBrowser, &mut s);
    assert!(!s.archive_browser_visible);
    assert_eq!(apply(Action::TogglePlayback, &mut s), TimelineCommand::TogglePlayback);
    assert_eq!(apply(Action::FitTimeline, &mut s), TimelineCommand::FitView);
}

#[test]
fn context_menu_choices() {
    let mut m = ContextMenu::new();
    assert!(m.respond(false, false, Some(MenuButton::Delete), false).is_none());
    m.open_context_menu(7);
    assert!(m.is_open);
    assert!(m.respond(false, false, None, false).is_none());
    assert!(m.is_open);
    assert!(matches!(m.respond(true, false, Some(MenuButton::ToggleVisibility), false), Some(ContextMenuAction::ShowPane(7))));
    assert!(!m.is_open);
    m.open_context_menu(7);
    assert!(matches!(m.respond(false, false, Some(MenuButton::ToggleVisibility), false), Some(ContextMenuAction::HidePane(7))));
    m.open_context_menu(7);
    assert!(m.respond(false, true, Some(MenuButton::Delete), false).is_none());
    assert!(m.is_open);
    assert!(matches!(
        m.respond(false, false, Some(MenuButton::Duplicate), false),
        Some(ContextMenuAction::Action(UiAction::DuplicatePane(7)))
    ));
    m.open_context_menu(7);
    assert!(m.respond(false, false, None, true).is_none());
    assert!(!m.is_open);
}

#[test]
fn context_menu_actions_applied() {
    let mut hidden: HashSet<usize> = HashSet::new();
    let mut pending = None;
    apply_context_menu_action(ContextMenuAction::HidePane(3), &mut hidden, &mut pending);
    assert!(hidden.contains(&3));
    apply_context_menu_action(ContextMenuAction::ShowPane(3), &mut hidden, &mut pending);
    assert!(hidden.is_empty());
    apply_context_menu_action(ContextMenuAction::Action(UiAction::DeletePane(3)), &mut hidden, &mut pending);
    assert!(matches!(pending, Some(UiAction::DeletePane(3))));
}

#[test]
fn quad_visibility_flags() {
    let f = PaneVisibilityFlags { clip_to_root: false, only_textured: false, no_textured: false, quad_for_textured: false };
    assert!(f.shows_plain_quad(false, false));
    assert!(!f.shows_plain_quad(true, false));
    assert!(!f.shows_plain_quad(false, true));
    assert!(f.shows_textured_quad(false));
    assert!(!f.shows_textured_quad(true));
    let g = PaneVisibilityFlags { quad_for_textured: true, ..f };
    assert!(g.shows_plain_quad(true, false));
    let h = PaneVisibilityFlags { only_textured: true, no_textured: true, ..g };
    assert!(!h.shows_plain_quad(false, false));
    assert!(!h.shows_textured_quad(false));
}

#[test]
fn creating_groups() {
    let mut groups = vec![LayoutGroup { group_name: "A".to_string(), child_names: vec![] }];
    let mut ed = GroupEditor { is_editor_visible: true, new_group_name: "  B  ".to_string() };
    assert!(ed.create_group(&mut groups));
    assert_eq!(groups.len(), 2);
    assert_eq!(groups[1].group_name, "B");
    assert!(groups[1].child_names.is_empty());
    assert_eq!(ed.new_group_name, "");
    assert!(!ed.create_group(&mut groups));
    ed.new_group_name = " A".to_string();
    assert!(!ed.create_group(&mut groups));
    assert_eq!(ed.new_group_name, " A");
    assert_eq!(groups.len(), 2);
}

#[test]
fn editing_group_members() {
    let mut g = LayoutGroup { group_name: "G".to_string(), child_names: vec![] };
    assert!(g.add_child(&"P1".to_string()));
    assert!(g.add_child(&"P2".to_string()));
    assert!(!g.add_child(&"P1".to_string()));
    assert_eq!(g.child_names, vec!["P1", "P2"]);
    g.remove_child(0);
    assert_eq!(g.child_names, vec!["P2"]);
    assert!(g.clear_children());
    assert!(!g.clear_children());
    assert!(g.child_names.is_empty());
}

#[test]
fn layout_tabs() {
    let mut tabs: LayoutTabs<&str> = LayoutTabs::new();
    assert!(tabs.is_empty());
    assert_eq!(tabs.active(), None);
    tabs.set_single("first");
    assert_eq!(tabs.active(), Some(&"first"));
    tabs.push_and_select("second");
    assert_eq!(tabs.active_index, 1);
    assert_eq!(tabs.active(), Some(&"second"));
    tabs.set_single("replaced");
    assert_eq!(tabs.items, vec!["first", "replaced"]);
    assert_eq!(tabs.active(), Some(&"replaced"));
}

#[test]
fn unnamed_animations_get_numbered_names() {
    let mut names = vec!["Loop".to_string(), String::new(), String::new()];
    fill_default_anim_names(&mut names);
    assert_eq!(names, vec!["Loop", "Animation 2", "Animation 3"]);
}

fn contents() -> Vec<AnimContent> {
    vec![
        AnimContent {
            name: "P_Title\0\0".to_string(),
            infos: vec![
                AnimInfoSummary::Standard { target_labels: vec!["TranslateX".to_string(), "TranslateY".to_string()] },
                AnimInfoSummary::Other,
                AnimInfoSummary::Standard { target_labels: vec!["Alpha".to_string()] },
            ],
        },
        AnimContent { name: "Empty".to_string(), infos: vec![AnimInfoSummary::Standard { target_labels: vec![] }] },
        AnimContent {
            name: "P_Title".to_string(),
            infos: vec![AnimInfoSummary::Standard { target_labels: vec!["ScaleX".to_string()] }],
        },
    ]
}

#[test]
fn timeline_rows() {
    let c = contents();
    let rows = TimelineRow::build(&c, &HashSet::new());
    assert_eq!(rows.len(), 2);
    assert!(matches!(&rows[0], TimelineRow::PaneHeader { content_idx: 0, label } if label == "P_Title"));
    assert!(matches!(&rows[1], TimelineRow::PaneHeader { content_idx: 2, .. }));

    let rows = TimelineRow::build(&c, &HashSet::from([0]));
    assert_eq!(rows.len(), 5);
    match &rows[3] {
        TimelineRow::Track(t) => {
            assert_eq!(t.label, "Alpha");
            assert_eq!((t.content_idx, t.info_idx, t.target_idx), (0, 2, 0));
        }
        _ => panic!("expected a track"),
    }
    assert!(matches!(&rows[4], TimelineRow::PaneHeader { content_idx: 2, .. }));
}

#[test]
fn tracks_of_a_pane() {
    let c = contents();
    let tracks = collect_tracks_for_pane(&c, "P_Title\0");
    let ids: Vec<(usize, usize, usize)> = tracks.iter().map(|t| (t.content_idx, t.info_idx, t.target_idx)).collect();
    assert_eq!(ids, vec![(0, 0, 0), (0, 0, 1), (0, 2, 0), (2, 0, 0)]);
    assert_eq!(tracks[1].label, "TranslateY");
    assert!(collect_tracks_for_pane(&c, "Other").is_empty());
}

#[test]
fn texture_flips_reorder_corners() {
    let c = ['a', 'b', 'c', 'd'];
    assert_eq!(apply_texture_flip(TextureFlip::Identity, c), c);
    assert_eq!(apply_texture_flip(TextureFlip::FlipU, c), ['b', 'a', 'd', 'c']);
    assert_eq!(apply_texture_flip(TextureFlip::FlipV, c), ['c', 'd', 'a', 'b']);
    assert_eq!(apply_texture_flip(TextureFlip::Rotate180, c), ['d', 'c', 'b', 'a']);
    assert_eq!(apply_texture_flip(TextureFlip::Rotate90, c), c);
    for f in [TextureFlip::FlipU, TextureFlip::FlipV, TextureFlip::Rotate180] {
        assert_eq!(apply_texture_flip(f, apply_texture_flip(f, c)), c);
    }
    assert_eq!(
        apply_texture_flip(TextureFlip::FlipV, apply_texture_flip(TextureFlip::FlipU, c)),
        apply_texture_flip(TextureFlip::Rotate180, c)
    );
}

#[test]
fn frame_textures() {
    assert_eq!(FrameKind::Top.to_binary_index(1), Some((0, None)));
    assert_eq!(FrameKind::Right.to_binary_index(2), Some((1, None)));
    assert_eq!(FrameKind::Top.to_binary_index(2), None);
    assert_eq!(FrameKind::BottomLeft.to_binary_index(4), Some((2, None)));
    assert_eq!(FrameKind::Left.to_binary_index(4), None);
    assert_eq!(FrameKind::Bottom.to_binary_index(8), Some((7, None)));
    assert_eq!(FrameKind::TopRight.to_binary_index(8), Some((1, None)));
    assert_eq!(FrameKind::Left.to_binary_index(3), None);
    assert_eq!(FrameKind::Left.to_binary_index(0), None);
}

#[test]
fn target_labels() {
    assert_eq!(target_index_label(TargetGroup::PaneSrt, "TranslateX", 0), "SRT, TranslateX");
    assert_eq!(target_index_label(TargetGroup::MaterialColor, "BlackR", 2), "Material Color, BlackR [Layer 2]");
    assert_eq!(target_index_label(TargetGroup::Other, "Unknown(7)", 0), "Unknown(7)");
    assert_eq!(target_index_label(TargetGroup::Other, "Unknown(7)", 12), "Unknown(7) [Layer 12]");
}

fn mods(command: bool, shift: bool) -> Modifiers {
    Modifiers { alt: false, ctrl: false, shift, mac_cmd: false, command }
}

#[test]
fn pressed_binding_needs_the_exact_modifiers() {
    let undo = pressed_binding(mods(true, false), &vec![Key::Z]).unwrap();
    assert_eq!(undo.action, Action::Undo);
    let redo = pressed_binding(mods(true, true), &vec![Key::Z]).unwrap();
    assert_eq!(redo.action, Action::Redo);
    assert!(pressed_binding(mods(false, false), &vec![Key::Z]).is_none());
    assert!(pressed_binding(mods(true, false), &vec![]).is_none());
}

#[test]
fn pressed_binding_takes_the_first_in_table_order() {
    let b = pressed_binding(mods(false, false), &vec![Key::F, Key::Space]).unwrap();
    assert_eq!(b.action, Action::TogglePlayback);
    let del = pressed_binding(mods(false, false), &vec![Key::Backspace]).unwrap();
    assert_eq!(del.action, Action::DeleteSelected);
}
