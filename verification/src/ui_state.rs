//! The decisions behind the editor's panels: requests the interface makes, the pane
//! context menu, which quads are drawn, searching the archive browser and editing
//! the layout's groups.

use vstd::prelude::*;
use std::collections::HashSet;

use std::path::PathBuf;

use crate::anim_groups::{names_view, LayoutGroup};
use crate::archive::ArchiveEntry;
use crate::scan::ArchiveScan;
use crate::text::{lowercase, to_lowercase};

verus! {

broadcast use vstd::std_specs::hash::group_hash_axioms;

/// A request from the interface, carried out between frames.
pub enum UiAction {
    LoadFile,
    SetBlarcDir,
    StartArchiveScan,
    CancelArchiveScan,
    LoadArchiveEntry(ArchiveEntry),
    SaveFile,
    DeletePane(usize),
    DuplicatePane(usize),
    Undo,
    Redo,
}

/// The left sidebar's tabs.
#[derive(Debug, Clone, Copy, PartialEq, Eq, Structural)]
pub enum SidebarTab {
    Panes,
}

/// The right sidebar's tabs.
#[derive(Debug, Clone, Copy, PartialEq, Eq, Structural)]
pub enum SidebarRightTab {
    Properties,
    Animations,
}

impl Default for SidebarTab {
    fn default() -> (r: Self)
        ensures
            r == SidebarTab::Panes,
    {
        SidebarTab::Panes
    }
}

impl Default for SidebarRightTab {
    fn default() -> (r: Self)
        ensures
            r == SidebarRightTab::Properties,
    {
        SidebarRightTab::Properties
    }
}

/// Which quads the viewport draws.
#[derive(Debug, Clone, Copy, PartialEq, Eq, Structural)]
pub struct PaneVisibilityFlags {
    /// Clips panes to fit within the root pane.
    pub clip_to_root: bool,
    /// Hide every plain (untextured) quad.
    pub only_textured: bool,
    /// Hide every textured quad (draw only outlines).
    pub no_textured: bool,
    /// Show the plain outline on top of panes that have a texture.
    pub quad_for_textured: bool,
}

impl PaneVisibilityFlags {
    /// Whether a pane's plain quad is drawn in its own colour: not for a hidden pane,
    /// not when only textured quads are shown, and not for a textured pane unless
    /// outlines of textured panes are asked for.
    pub fn shows_plain_quad(&self, has_textured: bool, hidden: bool) -> (r: bool)
        ensures
            r == !(hidden || self.only_textured || (has_textured && !self.quad_for_textured)),
    {
        !(hidden || self.only_textured || (has_textured && !self.quad_for_textured))
    }

    /// Whether a pane's textured quad is drawn with its tint: not for a hidden pane,
    /// nor when textured quads are switched off.
    pub fn shows_textured_quad(&self, hidden: bool) -> (r: bool)
        ensures
            r == !(hidden || self.no_textured),
    {
        !(hidden || self.no_textured)
    }
}

/// What the pane context menu asks for.
pub enum ContextMenuAction {
    HidePane(usize),
    ShowPane(usize),
    Action(UiAction),
}

/// A button of the pane context menu.
#[derive(Debug, Clone, Copy, PartialEq, Eq, Structural)]
pub enum MenuButton {
    ToggleVisibility,
    Duplicate,
    Delete,
}

/// The pane context menu: whether it is open, and for which pane.
pub struct ContextMenu {
    pub is_open: bool,
    pub pane_idx: usize,
}

/// What clicking `clicked` in the menu for `pane_idx` asks for. A pane that belongs to
/// a linked layout offers no Duplicate or Delete.
pub open spec fn menu_choice(
    pane_idx: usize,
    is_hidden: bool,
    is_parts_content: bool,
    clicked: Option<MenuButton>,
) -> Option<ContextMenuAction> {
    match clicked {
        Some(MenuButton::ToggleVisibility) => if is_hidden {
            Some(ContextMenuAction::ShowPane(pane_idx))
        } else {
            Some(ContextMenuAction::HidePane(pane_idx))
        },
        Some(MenuButton::Duplicate) => if is_parts_content {
            None
        } else {
            Some(ContextMenuAction::Action(UiAction::DuplicatePane(pane_idx)))
        },
        Some(MenuButton::Delete) => if is_parts_content {
            None
        } else {
            Some(ContextMenuAction::Action(UiAction::DeletePane(pane_idx)))
        },
        None => None,
    }
}

impl ContextMenu {
    /// A closed menu.
    pub fn new() -> (m: Self)
        ensures
            !m.is_open,
            m.pane_idx == 0,
    {
        ContextMenu { is_open: false, pane_idx: 0 }
    }

    /// Opens the menu for `pane_idx`.
    pub fn open_context_menu(&mut self, pane_idx: usize)
        ensures
            final(self).is_open,
            final(self).pane_idx == pane_idx,
    {
        self.pane_idx = pane_idx;
        self.is_open = true;
    }

    /// One frame of the open menu: what the click on `clicked` asks for, where any.
    /// The menu closes once it has asked for something, or when it was `dismissed`
    /// (a click elsewhere, or Escape). A closed menu asks for nothing.
    pub fn respond(
        &mut self,
        is_hidden: bool,
        is_parts_content: bool,
        clicked: Option<MenuButton>,
        dismissed: bool,
    ) -> (r: Option<ContextMenuAction>)
        ensures
            !old(self).is_open ==> r is None && final(self).is_open == old(self).is_open,
            old(self).is_open ==> r == menu_choice(old(self).pane_idx, is_hidden, is_parts_content, clicked)
                && final(self).is_open == (r is None && !dismissed),
            final(self).pane_idx == old(self).pane_idx,
    {
        if !self.is_open {
            return None;
        }
        let pane_idx = self.pane_idx;
        let out = match clicked {
            Some(MenuButton::ToggleVisibility) => if is_hidden {
                Some(ContextMenuAction::ShowPane(pane_idx))
            } else {
                Some(ContextMenuAction::HidePane(pane_idx))
            },
            Some(MenuButton::Duplicate) => if is_parts_content {
                None
            } else {
                Some(ContextMenuAction::Action(UiAction::DuplicatePane(pane_idx)))
            },
            Some(MenuButton::Delete) => if is_parts_content {
                None
            } else {
                Some(ContextMenuAction::Action(UiAction::DeletePane(pane_idx)))
            },
            None => None,
        };
        match out {
            None => {
                if dismissed {
                    self.is_open = false;
                }
            },
            Some(_) => {
                self.is_open = false;
            },
        }
        out
    }
}

/// Carries out what the context menu asked for: hiding or showing a pane, or passing
/// a request on.
pub fn apply_context_menu_action(
    action: ContextMenuAction,
    hidden_panes: &mut HashSet<usize>,
    pending_action: &mut Option<UiAction>,
)
    ensures
        match action {
            ContextMenuAction::HidePane(p) => final(hidden_panes)@ == old(hidden_panes)@.insert(p)
                && *final(pending_action) == *old(pending_action),
            ContextMenuAction::ShowPane(p) => final(hidden_panes)@ == old(hidden_panes)@.remove(p)
                && *final(pending_action) == *old(pending_action),
            ContextMenuAction::Action(a) => final(hidden_panes)@ == old(hidden_panes)@
                && *final(pending_action) == Some(a),
        },
{
    match action {
        ContextMenuAction::HidePane(p) => {
            hidden_panes.insert(p);
        },
        ContextMenuAction::ShowPane(p) => {
            hidden_panes.remove(&p);
        },
        ContextMenuAction::Action(a) => {
            *pending_action = Some(a);
        },
    }
}

/// The keyboard shortcuts window.
pub struct Shortcuts {
    pub is_visible: bool,
}

/// The archive browser window: the layout folder, its scan, and the search text.
pub struct ArchiveBrowser {
    pub is_visible: bool,
    pub layout_dir: Option<PathBuf>,
    pub archive_scan: Option<ArchiveScan>,
    pub search_query: String,
}

/// `needle` occurs in `hay` as a run of consecutive characters.
pub open spec fn occurs_in(needle: Seq<char>, hay: Seq<char>) -> bool {
    exists|k: int| 0 <= k && k + needle.len() <= hay.len() && #[trigger] hay.subrange(k, k + needle.len()) == needle
}

/// Whether `needle` occurs in `hay`.
pub fn contains_str(hay: &str, needle: &str) -> (r: bool)
    ensures
        r == occurs_in(needle@, hay@),
{
    let n = hay.unicode_len();
    let m = needle.unicode_len();
    if m > n {
        proof {
            assert forall|k: int| 0 <= k && k + needle@.len() <= hay@.len() implies #[trigger] hay@.subrange(k, k + needle@.len()) != needle@ by {}
        }
        return false;
    }
    let mut k: usize = 0;
    while k <= n - m
        invariant
            n == hay@.len(),
            m == needle@.len(),
            m <= n,
            k <= n - m + 1,
            forall|j: int| 0 <= j < k ==> #[trigger] hay@.subrange(j, j + m) != needle@,
        decreases n - m + 1 - k,
    {
        let mut i: usize = 0;
        let mut same = true;
        assert(hay@.subrange(k as int, k as int) =~= needle@.subrange(0, 0));
        while i < m
            invariant
                i <= m,
                k + m <= n,
                n == hay@.len(),
                m == needle@.len(),
                same == (hay@.subrange(k as int, k + i) == needle@.subrange(0, i as int)),
            decreases m - i,
        {
            let a = hay.get_char(k + i);
            let b = needle.get_char(i);
            proof {
                assert(hay@.subrange(k as int, k + i + 1) =~= hay@.subrange(k as int, k + i).push(a));
                assert(needle@.subrange(0, i + 1) =~= needle@.subrange(0, i as int).push(b));
                if hay@.subrange(k as int, k + i + 1) == needle@.subrange(0, i + 1) {
                    assert(hay@.subrange(k as int, k + i + 1)[i as int] == a);
                    assert(hay@.subrange(k as int, k + i) =~= hay@.subrange(k as int, k + i + 1).drop_last());
                    assert(needle@.subrange(0, i as int) =~= needle@.subrange(0, i + 1).drop_last());
                }
            }
            same = same && a == b;
            i = i + 1;
        }
        proof {
            assert(needle@.subrange(0, m as int) =~= needle@);
            if m == 0 {
                assert(hay@.subrange(k as int, k as int) =~= needle@.subrange(0, 0));
            }
        }
        if same {
            return true;
        }
        k = k + 1;
    }
    proof {
        assert forall|j: int| 0 <= j && j + needle@.len() <= hay@.len() implies #[trigger] hay@.subrange(j, j + needle@.len()) != needle@ by {
            assert(j < k);
        }
    }
    false
}

/// The positions of the entries the browser lists for `query`: all of them for an
/// empty query, otherwise those whose lower-cased name contains the lower-cased query.
pub open spec fn listed_for(entries: Seq<ArchiveEntry>, query: Seq<char>) -> Seq<usize> {
    Seq::new(entries.len(), |i: int| i as usize).filter(
        |i: usize| lowercase(query).len() == 0 || occurs_in(lowercase(query), lowercase(entries[i as int].display_name@)),
    )
}

/// The positions of the entries the browser lists for `query`, in order.
pub fn matching_entries(entries: &Vec<ArchiveEntry>, query: &str) -> (r: Vec<usize>)
    ensures
        r@ == listed_for(entries@, query@),
{
    let q = to_lowercase(query);
    let ghost all = Seq::new(entries@.len(), |i: int| i as usize);
    let ghost pred = |i: usize| lowercase(query@).len() == 0 || occurs_in(lowercase(query@), lowercase(entries@[i as int].display_name@));
    let mut out: Vec<usize> = Vec::new();
    let mut i: usize = 0;
    let empty = q.as_str().unicode_len() == 0;
    while i < entries.len()
        invariant
            i <= entries@.len(),
            q@ == lowercase(query@),
            empty == (q@.len() == 0),
            all == Seq::new(entries@.len(), |i: int| i as usize),
            pred == (|i: usize| lowercase(query@).len() == 0 || occurs_in(lowercase(query@), lowercase(entries@[i as int].display_name@))),
            out@ == all.take(i as int).filter(pred),
        decreases entries.len() - i,
    {
        let name = to_lowercase(entries[i].display_name.as_str());
        let keep = empty || contains_str(name.as_str(), q.as_str());
        proof {
            assert(all.take(i + 1).drop_last() =~= all.take(i as int));
            assert(all.take(i + 1).last() == i);
            reveal(Seq::filter);
            assert(all.take(i as int).push(i) =~= all.take(i + 1));
        }
        if keep {
            out.push(i);
        }
        i = i + 1;
    }
    proof {
        assert(all.take(i as int) =~= all);
    }
    out
}

/// What the browser says of a scan.
#[derive(Debug, Clone, Copy, PartialEq, Eq, Structural)]
pub enum ScanStatus {
    /// Finished: how many layouts were found in how many files.
    Done { found: usize, scanned: usize },
    /// Stopped on request after `scanned` of `total` files.
    Cancelled { scanned: usize, total: usize },
    /// Still going: `scanned` of `of` files, where `of` is never below `scanned`.
    Scanning { scanned: usize, of: usize },
}

impl ArchiveBrowser {
    /// The status line of a scan.
    pub fn scan_status(scan: &ArchiveScan) -> (r: ScanStatus)
        ensures
            r == (if scan.done {
                ScanStatus::Done { found: scan.entries@.len() as usize, scanned: scan.scanned }
            } else if scan.cancelled {
                ScanStatus::Cancelled { scanned: scan.scanned, total: scan.total }
            } else {
                ScanStatus::Scanning {
                    scanned: scan.scanned,
                    of: if scan.total >= scan.scanned { scan.total } else { scan.scanned },
                }
            }),
    {
        if scan.done {
            ScanStatus::Done { found: scan.entries.len(), scanned: scan.scanned }
        } else if scan.cancelled {
            ScanStatus::Cancelled { scanned: scan.scanned, total: scan.total }
        } else {
            let of = if scan.total >= scan.scanned { scan.total } else { scan.scanned };
            ScanStatus::Scanning { scanned: scan.scanned, of }
        }
    }

    /// Whether the scan can be cancelled (it is still going) or run again (it is over).
    pub fn scan_buttons(scan: &ArchiveScan) -> (r: (bool, bool))
        ensures
            r == (!scan.done && !scan.cancelled, scan.done || scan.cancelled),
    {
        (!scan.done && !scan.cancelled, scan.done || scan.cancelled)
    }
}

/// What `str::trim` makes of a string: it without leading and trailing white space.
pub uninterp spec fn trimmed(s: Seq<char>) -> Seq<char>;

/// Removes leading and trailing white space with `str::trim`. Claimed: the result is
/// `trimmed(s)`, a function of the string alone; which characters count as white space
/// is not stated.
#[verifier::external_body]
fn trim_whitespace(s: &str) -> (r: String)
    ensures
        r@ == trimmed(s@),
{
    s.trim().to_string()
}

/// The group editor window, with the name typed for a new group.
pub struct GroupEditor {
    pub is_editor_visible: bool,
    pub new_group_name: String,
}

pub open spec fn group_names(groups: Seq<LayoutGroup>) -> Seq<Seq<char>> {
    groups.map_values(|g: LayoutGroup| g.group_name@)
}

impl GroupEditor {
    /// Creates an empty group named by the typed name, trimmed, where a name was typed
    /// and no group has the trimmed name yet; the typed name is then cleared. Returns
    /// whether a group was created.
    pub fn create_group(&mut self, groups: &mut Vec<LayoutGroup>) -> (created: bool)
        ensures
            created == (old(self).new_group_name@.len() > 0 && !group_names(old(groups)@).contains(
                trimmed(old(self).new_group_name@),
            )),
            created ==> group_names(final(groups)@) == group_names(old(groups)@).push(
                trimmed(old(self).new_group_name@),
            ) && final(groups)@.last().child_names@.len() == 0 && final(groups)@.drop_last() == old(groups)@
                && final(self).new_group_name@.len() == 0,
            !created ==> final(groups)@ == old(groups)@ && final(self).new_group_name@ == old(
                self,
            ).new_group_name@,
            final(self).is_editor_visible == old(self).is_editor_visible,
    {
        if self.new_group_name.as_str().unicode_len() == 0 {
            return false;
        }
        let formatted = trim_whitespace(self.new_group_name.as_str());
        let mut i: usize = 0;
        while i < groups.len()
            invariant
                i <= groups@.len(),
                groups@ == old(groups)@,
                self.new_group_name@ == old(self).new_group_name@,
                self.is_editor_visible == old(self).is_editor_visible,
                old(self).new_group_name@.len() > 0,
                formatted@ == trimmed(old(self).new_group_name@),
                forall|j: int| 0 <= j < i ==> group_names(groups@)[j] != formatted@,
            decreases groups.len() - i,
        {
            if groups[i].group_name == formatted {
                assert(group_names(groups@)[i as int] == formatted@);
                return false;
            }
            i = i + 1;
        }
        let ghost before = groups@;
        groups.push(LayoutGroup { group_name: formatted, child_names: Vec::new() });
        assert(group_names(groups@) =~= group_names(before).push(formatted@));
        assert(groups@.drop_last() =~= before);
        self.new_group_name = String::new();
        true
    }
}

impl LayoutGroup {
    /// Binds the pane called `name`, unless the group binds it already. Returns whether
    /// it was added.
    pub fn add_child(&mut self, name: &String) -> (added: bool)
        ensures
            added == !names_view(old(self).child_names@).contains(name@),
            added ==> final(self).child_names@ == old(self).child_names@.push(*name),
            !added ==> final(self).child_names@ == old(self).child_names@,
            final(self).group_name == old(self).group_name,
    {
        let mut i: usize = 0;
        while i < self.child_names.len()
            invariant
                i <= self.child_names@.len(),
                forall|j: int| 0 <= j < i ==> names_view(self.child_names@)[j] != name@,
            decreases self.child_names.len() - i,
        {
            if self.child_names[i] == *name {
                assert(names_view(self.child_names@)[i as int] == name@);
                return false;
            }
            i = i + 1;
        }
        self.child_names.push(name.clone());
        true
    }

    /// Unbinds the pane at position `idx` of the group's list.
    pub fn remove_child(&mut self, idx: usize)
        requires
            idx < old(self).child_names@.len(),
        ensures
            final(self).child_names@ == old(self).child_names@.remove(idx as int),
            final(self).group_name == old(self).group_name,
    {
        self.child_names.remove(idx);
    }

    /// Unbinds every pane; returns whether there were any.
    pub fn clear_children(&mut self) -> (changed: bool)
        ensures
            changed == (old(self).child_names@.len() > 0),
            changed ==> final(self).child_names@.len() == 0,
            !changed ==> final(self).child_names@ == old(self).child_names@,
            final(self).group_name == old(self).group_name,
    {
        if self.child_names.len() == 0 {
            return false;
        }
        self.child_names.clear();
        true
    }
}

} // verus!
