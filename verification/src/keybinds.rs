//! Keyboard shortcuts: the table of bindings, how a binding is shown, and what each
//! action does to the interface state.

use vstd::prelude::*;

use crate::ui_state::UiAction;

verus! {

/// What a shortcut does.
#[derive(Debug, Clone, Copy, PartialEq, Eq, Structural)]
pub enum Action {
    SaveAs,
    TogglePlayback,
    Deselect,
    FitTimeline,
    DeleteSelected,
    DuplicateSelected,
    Undo,
    Redo,
    Open,
    SetLayoutDirectory,
    ToggleArchiveBrowser,
}

/// The keys that shortcuts use.
#[derive(Debug, Clone, Copy, PartialEq, Eq, Structural)]
pub enum Key {
    S,
    Space,
    Escape,
    F,
    Delete,
    Backspace,
    D,
    Z,
    O,
    B,
}

/// The name a key is shown by.
pub open spec fn key_name(k: Key) -> Seq<char> {
    match k {
        Key::S => "S"@,
        Key::Space => "Space"@,
        Key::Escape => "Escape"@,
        Key::F => "F"@,
        Key::Delete => "Delete"@,
        Key::Backspace => "Backspace"@,
        Key::D => "D"@,
        Key::Z => "Z"@,
        Key::O => "O"@,
        Key::B => "B"@,
    }
}

impl Key {
    /// The name this key is shown by.
    pub fn name(&self) -> (r: &'static str)
        ensures
            r@ == key_name(*self),
    {
        match self {
            Key::S => "S",
            Key::Space => "Space",
            Key::Escape => "Escape",
            Key::F => "F",
            Key::Delete => "Delete",
            Key::Backspace => "Backspace",
            Key::D => "D",
            Key::Z => "Z",
            Key::O => "O",
            Key::B => "B",
        }
    }
}

/// The modifier keys held with a key; `command` is Ctrl, or Cmd on a Mac.
#[derive(Debug, Clone, Copy, PartialEq, Eq, Structural)]
pub struct Modifiers {
    pub alt: bool,
    pub ctrl: bool,
    pub shift: bool,
    pub mac_cmd: bool,
    pub command: bool,
}

pub open spec fn no_modifiers() -> Modifiers {
    Modifiers { alt: false, ctrl: false, shift: false, mac_cmd: false, command: false }
}

pub open spec fn command_modifier() -> Modifiers {
    Modifiers { command: true, ..no_modifiers() }
}

pub open spec fn command_shift_modifiers() -> Modifiers {
    Modifiers { command: true, shift: true, ..no_modifiers() }
}

/// A key, the modifiers that must be held with it, what it does and how that is described.
#[derive(Clone, Copy)]
pub struct KeyBind {
    pub key: Key,
    pub modifiers: Modifiers,
    pub action: Action,
    pub description: &'static str,
}

/// A binding as plain values.
pub open spec fn bind_view(b: KeyBind) -> (Key, Modifiers, Action, Seq<char>) {
    (b.key, b.modifiers, b.action, b.description@)
}

/// The shortcuts, in the order they are matched and listed.
pub open spec fn binding_table() -> Seq<(Key, Modifiers, Action, Seq<char>)> {
    seq![
        (Key::S, command_modifier(), Action::SaveAs, "Save As..."@),
        (Key::Space, no_modifiers(), Action::TogglePlayback, "Play/pause the active animation"@),
        (Key::Escape, no_modifiers(), Action::Deselect, "Deselect the current pane / close menus"@),
        (Key::F, no_modifiers(), Action::FitTimeline, "Reset the timeline's zoom/pan"@),
        (Key::Delete, no_modifiers(), Action::DeleteSelected, "Delete the selected pane"@),
        (Key::Backspace, no_modifiers(), Action::DeleteSelected, "Delete the selected pane"@),
        (Key::D, command_modifier(), Action::DuplicateSelected, "Duplicate the selected pane"@),
        (Key::Z, command_modifier(), Action::Undo, "Undo"@),
        (Key::Z, command_shift_modifiers(), Action::Redo, "Redo"@),
        (Key::O, command_modifier(), Action::Open, "Open File"@),
        (Key::O, command_shift_modifiers(), Action::SetLayoutDirectory, "Set Layout Directory"@),
        (Key::B, command_modifier(), Action::ToggleArchiveBrowser, "Open/Close Archive Browser"@),
    ]
}

fn none_mods() -> (m: Modifiers)
    ensures
        m == no_modifiers(),
{
    Modifiers { alt: false, ctrl: false, shift: false, mac_cmd: false, command: false }
}

fn command_mods() -> (m: Modifiers)
    ensures
        m == command_modifier(),
{
    Modifiers { alt: false, ctrl: false, shift: false, mac_cmd: false, command: true }
}

fn command_shift_mods() -> (m: Modifiers)
    ensures
        m == command_shift_modifiers(),
{
    Modifiers { alt: false, ctrl: false, shift: true, mac_cmd: false, command: true }
}

/// The shortcuts, in the order they are matched and listed.
pub fn bindings() -> (r: Vec<KeyBind>)
    ensures
        r@.map_values(|b: KeyBind| bind_view(b)) == binding_table(),
{
    let r = vec![
        KeyBind { key: Key::S, modifiers: command_mods(), action: Action::SaveAs, description: "Save As..." },
        KeyBind {
            key: Key::Space,
            modifiers: none_mods(),
            action: Action::TogglePlayback,
            description: "Play/pause the active animation",
        },
        KeyBind {
            key: Key::Escape,
            modifiers: none_mods(),
            action: Action::Deselect,
            description: "Deselect the current pane / close menus",
        },
        KeyBind {
            key: Key::F,
            modifiers: none_mods(),
            action: Action::FitTimeline,
            description: "Reset the timeline's zoom/pan",
        },
        KeyBind {
            key: Key::Delete,
            modifiers: none_mods(),
            action: Action::DeleteSelected,
            description: "Delete the selected pane",
        },
        KeyBind {
            key: Key::Backspace,
            modifiers: none_mods(),
            action: Action::DeleteSelected,
            description: "Delete the selected pane",
        },
        KeyBind {
            key: Key::D,
            modifiers: command_mods(),
            action: Action::DuplicateSelected,
            description: "Duplicate the selected pane",
        },
        KeyBind { key: Key::Z, modifiers: command_mods(), action: Action::Undo, description: "Undo" },
        KeyBind { key: Key::Z, modifiers: command_shift_mods(), action: Action::Redo, description: "Redo" },
        KeyBind { key: Key::O, modifiers: command_mods(), action: Action::Open, description: "Open File" },
        KeyBind {
            key: Key::O,
            modifiers: command_shift_mods(),
            action: Action::SetLayoutDirectory,
            description: "Set Layout Directory",
        },
        KeyBind {
            key: Key::B,
            modifiers: command_mods(),
            action: Action::ToggleArchiveBrowser,
            description: "Open/Close Archive Browser",
        },
    ];
    assert(r@.map_values(|b: KeyBind| bind_view(b)) =~= binding_table());
    r
}

/// How a binding is shown: the held modifiers as `Ctrl+`, `Shift+` and `Alt+`, in
/// that order, then the key's name.
pub open spec fn shortcut_text_of(m: Modifiers, k: Key) -> Seq<char> {
    (if m.command { "Ctrl+"@ } else { Seq::empty() }) + (if m.shift { "Shift+"@ } else { Seq::empty() }) + (
    if m.alt { "Alt+"@ } else { Seq::empty() }) + key_name(k)
}

impl KeyBind {
    /// How this binding is shown in the list of shortcuts.
    pub fn shortcut_text(&self) -> (r: String)
        ensures
            r@ == shortcut_text_of(self.modifiers, self.key),
    {
        let mut mods = String::new();
        if self.modifiers.command {
            mods.append("Ctrl+");
        }
        if self.modifiers.shift {
            mods.append("Shift+");
        }
        if self.modifiers.alt {
            mods.append("Alt+");
        }
        mods.append(self.key.name());
        mods
    }
}

/// Whether a binding fires: its modifiers are exactly those held and its key was pressed.
pub open spec fn binding_fires(b: (Key, Modifiers, Action, Seq<char>), held: Modifiers, pressed: Seq<Key>) -> bool {
    b.1 == held && pressed.contains(b.0)
}

fn key_pressed(pressed: &Vec<Key>, key: Key) -> (r: bool)
    ensures
        r == pressed@.contains(key),
{
    let mut i: usize = 0;
    while i < pressed.len()
        invariant
            i <= pressed.len(),
            forall|j: int| 0 <= j < i ==> pressed@[j] != key,
        decreases pressed.len() - i,
    {
        if pressed[i] == key {
            return true;
        }
        i = i + 1;
    }
    false
}

/// The first binding of the table that fires for the held modifiers and the keys
/// pressed this frame, or `None` where none does.
pub fn pressed_binding(held: Modifiers, pressed: &Vec<Key>) -> (r: Option<KeyBind>)
    ensures
        r is None <==> forall|i: int|
            0 <= i < binding_table().len() ==> !binding_fires(#[trigger] binding_table()[i], held, pressed@),
        r matches Some(b) ==> exists|i: int|
            0 <= i < binding_table().len() && bind_view(b) == #[trigger] binding_table()[i]
                && binding_fires(binding_table()[i], held, pressed@)
                && forall|j: int| 0 <= j < i ==> !binding_fires(#[trigger] binding_table()[j], held, pressed@),
{
    let table = bindings();
    let ghost tv = table@.map_values(|b: KeyBind| bind_view(b));
    let mut i: usize = 0;
    while i < table.len()
        invariant
            i <= table.len(),
            tv == binding_table(),
            tv == table@.map_values(|b: KeyBind| bind_view(b)),
            forall|j: int| 0 <= j < i ==> !binding_fires(#[trigger] binding_table()[j], held, pressed@),
        decreases table.len() - i,
    {
        let b = table[i];
        assert(tv[i as int] == bind_view(b));
        if b.modifiers == held && key_pressed(pressed, b.key) {
            return Some(b);
        }
        i = i + 1;
    }
    None
}

/// The parts of the interface state that shortcuts act on.
pub struct ShortcutTarget {
    pub selected_pane: Option<usize>,
    pub context_menu_open: bool,
    pub pending_action: Option<UiAction>,
    pub archive_browser_visible: bool,
}

/// What a shortcut asks of the timeline, where one is open.
#[derive(Debug, Clone, Copy, PartialEq, Eq, Structural)]
pub enum TimelineCommand {
    Unchanged,
    /// Play or pause the active animation.
    TogglePlayback,
    /// Reset the zoom and pan.
    FitView,
}

/// The state after `action`, and what it asks of the timeline.
pub open spec fn shortcut_applied(action: Action, s: ShortcutTarget) -> (ShortcutTarget, TimelineCommand) {
    match action {
        Action::TogglePlayback => (s, TimelineCommand::TogglePlayback),
        Action::FitTimeline => (s, TimelineCommand::FitView),
        Action::Deselect => (
            ShortcutTarget { selected_pane: None, context_menu_open: false, ..s },
            TimelineCommand::Unchanged,
        ),
        Action::DeleteSelected => (
            match s.selected_pane {
                Some(p) => ShortcutTarget { pending_action: Some(UiAction::DeletePane(p)), ..s },
                None => s,
            },
            TimelineCommand::Unchanged,
        ),
        Action::DuplicateSelected => (
            match s.selected_pane {
                Some(p) => ShortcutTarget { pending_action: Some(UiAction::DuplicatePane(p)), ..s },
                None => s,
            },
            TimelineCommand::Unchanged,
        ),
        Action::Undo => (ShortcutTarget { pending_action: Some(UiAction::Undo), ..s }, TimelineCommand::Unchanged),
        Action::Redo => (ShortcutTarget { pending_action: Some(UiAction::Redo), ..s }, TimelineCommand::Unchanged),
        Action::Open => (
            ShortcutTarget { pending_action: Some(UiAction::LoadFile), ..s },
            TimelineCommand::Unchanged,
        ),
        Action::SaveAs => (
            ShortcutTarget { pending_action: Some(UiAction::SaveFile), ..s },
            TimelineCommand::Unchanged,
        ),
        Action::SetLayoutDirectory => (
            ShortcutTarget { pending_action: Some(UiAction::SetBlarcDir), ..s },
            TimelineCommand::Unchanged,
        ),
        Action::ToggleArchiveBrowser => (
            ShortcutTarget { archive_browser_visible: !s.archive_browser_visible, ..s },
            TimelineCommand::Unchanged,
        ),
    }
}

/// Carries out `action` on the interface state; what it asks of the timeline is
/// returned. See `shortcut_applied`.
pub fn apply(action: Action, state: &mut ShortcutTarget) -> (r: TimelineCommand)
    ensures
        (*final(state), r) == shortcut_applied(action, *old(state)),
{
    match action {
        Action::TogglePlayback => TimelineCommand::TogglePlayback,
        Action::FitTimeline => TimelineCommand::FitView,
        Action::Deselect => {
            state.selected_pane = None;
            state.context_menu_open = false;
            TimelineCommand::Unchanged
        },
        Action::DeleteSelected => {
            if let Some(p) = state.selected_pane {
                state.pending_action = Some(UiAction::DeletePane(p));
            }
            TimelineCommand::Unchanged
        },
        Action::DuplicateSelected => {
            if let Some(p) = state.selected_pane {
                state.pending_action = Some(UiAction::DuplicatePane(p));
            }
            TimelineCommand::Unchanged
        },
        Action::Undo => {
            state.pending_action = Some(UiAction::Undo);
            TimelineCommand::Unchanged
        },
        Action::Redo => {
            state.pending_action = Some(UiAction::Redo);
            TimelineCommand::Unchanged
        },
        Action::Open => {
            state.pending_action = Some(UiAction::LoadFile);
            TimelineCommand::Unchanged
        },
        Action::SaveAs => {
            state.pending_action = Some(UiAction::SaveFile);
            TimelineCommand::Unchanged
        },
        Action::SetLayoutDirectory => {
            state.pending_action = Some(UiAction::SetBlarcDir);
            TimelineCommand::Unchanged
        },
        Action::ToggleArchiveBrowser => {
            state.archive_browser_visible = !state.archive_browser_visible;
            TimelineCommand::Unchanged
        },
    }
}


/// Each shortcut does its own thing to the interface state: undo, redo, open, save and
/// setting the layout folder queue their own request; delete and duplicate queue the
/// request for the selected pane, or nothing where none is selected; deselecting
/// clears the selection and closes the context menu; the archive browser shortcut
/// shows or hides it; playback and fitting the timeline change nothing here and ask
/// the timeline to play or pause, or to reset its view. Nothing else changes.
pub proof fn law_each_shortcut_does_its_own_thing(s: ShortcutTarget)
    ensures
        shortcut_applied(Action::Undo, s) == (ShortcutTarget { pending_action: Some(UiAction::Undo), ..s }, TimelineCommand::Unchanged),
        shortcut_applied(Action::Redo, s) == (ShortcutTarget { pending_action: Some(UiAction::Redo), ..s }, TimelineCommand::Unchanged),
        shortcut_applied(Action::Open, s) == (ShortcutTarget { pending_action: Some(UiAction::LoadFile), ..s }, TimelineCommand::Unchanged),
        shortcut_applied(Action::SaveAs, s) == (ShortcutTarget { pending_action: Some(UiAction::SaveFile), ..s }, TimelineCommand::Unchanged),
        shortcut_applied(Action::SetLayoutDirectory, s) == (ShortcutTarget {
            pending_action: Some(UiAction::SetBlarcDir),
            ..s
        }, TimelineCommand::Unchanged),
        s.selected_pane matches Some(p) ==> shortcut_applied(Action::DeleteSelected, s) == (ShortcutTarget {
            pending_action: Some(UiAction::DeletePane(p)),
            ..s
        }, TimelineCommand::Unchanged),
        s.selected_pane matches Some(p) ==> shortcut_applied(Action::DuplicateSelected, s) == (ShortcutTarget {
            pending_action: Some(UiAction::DuplicatePane(p)),
            ..s
        }, TimelineCommand::Unchanged),
        s.selected_pane is None ==> shortcut_applied(Action::DeleteSelected, s) == (s, TimelineCommand::Unchanged),
        s.selected_pane is None ==> shortcut_applied(Action::DuplicateSelected, s) == (s, TimelineCommand::Unchanged),
        shortcut_applied(Action::Deselect, s) == (ShortcutTarget {
            selected_pane: None,
            context_menu_open: false,
            ..s
        }, TimelineCommand::Unchanged),
        shortcut_applied(Action::ToggleArchiveBrowser, s) == (ShortcutTarget {
            archive_browser_visible: !s.archive_browser_visible,
            ..s
        }, TimelineCommand::Unchanged),
        shortcut_applied(Action::TogglePlayback, s) == (s, TimelineCommand::TogglePlayback),
        shortcut_applied(Action::FitTimeline, s) == (s, TimelineCommand::FitView),
{
}

/// Toggling the archive browser twice leaves the interface as it was.
pub proof fn law_archive_browser_toggle_twice(s: ShortcutTarget)
    ensures
        shortcut_applied(Action::ToggleArchiveBrowser, shortcut_applied(Action::ToggleArchiveBrowser, s).0).0 == s,
{
}


/// The binding at `i` fires and none before it does.
pub open spec fn fires_first(i: int, held: Modifiers, pressed: Seq<Key>) -> bool {
    &&& 0 <= i < binding_table().len()
    &&& binding_fires(binding_table()[i], held, pressed)
    &&& forall|j: int| 0 <= j < i ==> !binding_fires(#[trigger] binding_table()[j], held, pressed)
}

/// Pressing just `key` with just `held` selects a binding, and its action is `a`.
pub open spec fn selects(held: Modifiers, key: Key, a: Action) -> bool {
    &&& exists|i: int| fires_first(i, held, seq![key])
    &&& forall|i: int| fires_first(i, held, seq![key]) ==> (#[trigger] binding_table()[i]).2 == a
}

proof fn lemma_selects(held: Modifiers, key: Key, a: Action, w: int)
    requires
        fires_first(w, held, seq![key]),
        binding_table()[w].2 == a,
    ensures
        selects(held, key, a),
{
    assert forall|i: int| fires_first(i, held, seq![key]) implies (#[trigger] binding_table()[i]).2 == a by {
        if i < w {
            assert(!binding_fires(binding_table()[i], held, seq![key]));
        } else if i > w {
            assert(!binding_fires(binding_table()[w], held, seq![key]));
        }
    }
}

/// What each shortcut key does: Ctrl+S saves as, Space plays or pauses, Escape
/// deselects, F fits the timeline, Delete and Backspace delete the selection, Ctrl+D
/// duplicates it, Ctrl+Z undoes, Ctrl+Shift+Z redoes, Ctrl+O opens a file,
/// Ctrl+Shift+O sets the layout folder and Ctrl+B shows or hides the archive browser.
pub proof fn law_shortcut_keys()
    ensures
        selects(command_modifier(), Key::S, Action::SaveAs),
        selects(no_modifiers(), Key::Space, Action::TogglePlayback),
        selects(no_modifiers(), Key::Escape, Action::Deselect),
        selects(no_modifiers(), Key::F, Action::FitTimeline),
        selects(no_modifiers(), Key::Delete, Action::DeleteSelected),
        selects(no_modifiers(), Key::Backspace, Action::DeleteSelected),
        selects(command_modifier(), Key::D, Action::DuplicateSelected),
        selects(command_modifier(), Key::Z, Action::Undo),
        selects(command_shift_modifiers(), Key::Z, Action::Redo),
        selects(command_modifier(), Key::O, Action::Open),
        selects(command_shift_modifiers(), Key::O, Action::SetLayoutDirectory),
        selects(command_modifier(), Key::B, Action::ToggleArchiveBrowser),
{
    let t = binding_table();
    assert forall|w: int| 0 <= w < 12 implies fires_first(w, t[w].1, seq![t[w].0]) by {
        assert(seq![t[w].0][0] == t[w].0);
        assert forall|j: int| 0 <= j < w implies !binding_fires(#[trigger] t[j], t[w].1, seq![t[w].0]) by {
            if t[j].1 == t[w].1 && seq![t[w].0].contains(t[j].0) {
                let q = choose|q: int| 0 <= q < 1 && seq![t[w].0][q] == t[j].0;
                assert(t[j].0 == t[w].0);
            }
        }
    }
    lemma_selects(t[0].1, t[0].0, t[0].2, 0);
    lemma_selects(t[1].1, t[1].0, t[1].2, 1);
    lemma_selects(t[2].1, t[2].0, t[2].2, 2);
    lemma_selects(t[3].1, t[3].0, t[3].2, 3);
    lemma_selects(t[4].1, t[4].0, t[4].2, 4);
    lemma_selects(t[5].1, t[5].0, t[5].2, 5);
    lemma_selects(t[6].1, t[6].0, t[6].2, 6);
    lemma_selects(t[7].1, t[7].0, t[7].2, 7);
    lemma_selects(t[8].1, t[8].0, t[8].2, 8);
    lemma_selects(t[9].1, t[9].0, t[9].2, 9);
    lemma_selects(t[10].1, t[10].0, t[10].2, 10);
    lemma_selects(t[11].1, t[11].0, t[11].2, 11);
}

} // verus!
