//! The editor workbench: the pane layout with its tabs, focus and counters,
//! and the operations the UI performs on it.
use crate::editor::{EditorTab, MarkdownDoc, PaneId, SplitDirection, TabId, TabKind, TabView, new_tab_view};
use crate::text::{line_col_to_offset, line_col_offset, str_eq};
use crate::undo::{model_record, model_undo, model_redo};
use crate::paths::{parent_of, path_equals, path_parent, same_path};
use crate::pane::{deleted_tabs, holds, shows_deleted, lemma_collapse_tabs, lemma_pane_of_tab_group, lemma_collapse_wf, lemma_split_at, lemma_with_ratio, tab_with_id, tab_with_path, index_of_path, lemma_index_of_path_bound, EditorPane, PaneNode, ids_of, active_ok, tab_views, index_of_tab, pane_of_tab, tab_of_kind, position_of_tab, lemma_with_group, lemma_with_group_twice, lemma_group_iff_pane_id, lemma_index_of_tab_bound};
use crate::settings::{ExportSettings, Settings};
use crate::strings::{blank, is_blank};
use crate::terminal::TerminalFilter;
use vstd::prelude::*;

verus! {

broadcast use vstd::seq_lib::group_to_multiset_ensures, vstd::multiset::group_multiset_axioms;

/// Modal dialog currently shown above the workbench.
#[derive(Clone, Copy, Debug, PartialEq, Eq, Structural)]
pub enum AppDialog {
    /// Product information dialog.
    About,
}

/// Global application state.
pub struct AppState {
    /// Editor pane layout
    pub editor_pane: EditorPane,
    /// Next tab ID to assign
    pub next_tab_id: TabId,
    /// Next pane ID to assign
    pub next_pane_id: PaneId,
    /// Currently focused pane ID
    pub focused_pane_id: PaneId,
    /// Most recent real source tab used by Preview/Export tool tabs
    pub last_source_tab_id: Option<TabId>,
    /// Current workspace folder (None = no folder opened)
    pub workspace: Option<String>,
    /// Recently opened files (most recent first)
    pub recent_files: Vec<String>,
    /// Whether preview window is open
    pub is_previewing: bool,
    /// Whether the open preview is stale relative to the editor content
    pub preview_dirty: bool,
    /// Error message if any (None = no error)
    pub error_message: Option<String>,
    /// Export settings
    pub export_settings: ExportSettings,
    /// Application settings
    pub settings: Settings,
    /// Whether the terminal panel is visible
    pub terminal_visible: bool,
    /// Terminal output filter settings
    pub terminal_filter: TerminalFilter,
    /// Modal dialog currently shown above the workbench.
    pub active_dialog: Option<AppDialog>,
}

/// The layout part of the workbench state, as mathematical values.
pub struct Layout {
    pub pane: PaneNode,
    pub next_tab_id: TabId,
    pub next_pane_id: PaneId,
    pub focused: PaneId,
    pub last_source: Option<TabId>,
}

/// The active tab of the group `g`, if it has one.
pub open spec fn group_active(g: Option<(Seq<TabView>, usize)>) -> Option<TabView> {
    match g {
        Some((tabs, a)) => if a < tabs.len() {
            Some(tabs[a as int])
        } else {
            None
        },
        None => None,
    }
}

impl Layout {
    /// The active tab of the focused pane.
    pub open spec fn active(self) -> Option<TabView> {
        group_active(self.pane.group(self.focused))
    }

    /// Remember the active tab as the last source tab when it is a real source document.
    pub open spec fn remember(self) -> Layout {
        match self.active() {
            Some(t) => if t.persistable() {
                Layout { last_source: Some(t.id), ..self }
            } else {
                self
            },
            None => self,
        }
    }

    /// Opening again the file shown by the tab at `idx` of pane `found`:
    /// that pane is focused and the tab made its active one.
    pub open spec fn reopen(self, found: PaneId, idx: nat) -> Layout {
        match self.pane.group(found) {
            Some((ts, _)) => Layout { pane: self.pane.with_group(found, ts, idx as usize), focused: found, ..self }.remember(),
            None => Layout { focused: found, ..self }.remember(),
        }
    }

    /// Every tab id is below the next tab id and every pane id below the next pane id.
    pub open spec fn counters_ok(self) -> bool {
        &&& forall|i: int| 0 <= i < self.pane.tabs().len() ==> #[trigger] self.pane.tabs()[i].id < self.next_tab_id
        &&& forall|i: int| 0 <= i < self.pane.pane_ids().len() ==> #[trigger] self.pane.pane_ids()[i] < self.next_pane_id
    }

    /// The workbench invariant: a well-formed layout with fresh counters.
    pub open spec fn inv(self) -> bool {
        self.pane.wf() && self.counters_ok()
    }

    /// Focusing pane `p` (when it exists) and remembering its active source tab.
    pub open spec fn focus(self, p: PaneId) -> Layout {
        if self.pane.group(p) is Some {
            Layout { focused: p, ..self }.remember()
        } else {
            self
        }
    }

    /// Switching to tab `t`: focus its pane and make it that pane's active tab.
    pub open spec fn switch_to(self, t: TabId) -> Layout {
        match pane_of_tab(self.pane, t) {
            Some(p) => {
                let focused = Layout { focused: p, ..self };
                match self.pane.group(p) {
                    Some((tabs, _)) => match index_of_tab(tabs, t) {
                        Some(k) => Layout { pane: self.pane.with_group(p, tabs, k as usize), ..focused }.remember(),
                        None => focused.remember(),
                    },
                    None => focused.remember(),
                }
            },
            None => self,
        }
    }

    /// The layout with the active tab of the focused pane replaced by `t`.
    pub open spec fn with_active(self, t: TabView) -> Layout {
        match self.pane.group(self.focused) {
            Some((ts, a)) => if a < ts.len() {
                Layout { pane: self.pane.with_group(self.focused, ts.update(a as int, t), a), ..self }
            } else {
                self
            },
            None => self,
        }
    }

    /// Adding a new tab `tab` (which takes the next tab id) to pane `p`, when it exists.
    pub open spec fn add_tab(self, p: PaneId, tab: TabView) -> Layout {
        Layout { next_tab_id: (self.next_tab_id + 1) as TabId, ..self.push_tab(p, tab) }
    }

    /// Appending `tab` to pane `p` (when it exists) as its active tab.
    pub open spec fn push_tab(self, p: PaneId, tab: TabView) -> Layout {
        match self.pane.group(p) {
            Some((tabs, _)) => Layout { pane: self.pane.with_group(p, tabs.push(tab), tabs.len() as usize), ..self },
            None => self,
        }
    }
}

/// A tab whose close is awaiting confirmation because it has unsaved changes.
#[derive(Clone, Copy, Debug, PartialEq, Eq, Structural)]
pub struct PendingCloseTab {
    pub pane_id: PaneId,
    pub tab_id: TabId,
}

/// How the active tab is saved.
pub enum SavePlan {
    /// Write this code to this file.
    WriteTo { path: String, code: String },
    /// Ask for a path first (then write the active tab's code there).
    AskForPath,
}

/// What a request to close a tab leads to.
pub struct CloseRequest {
    /// The Preview tab is closing: its process is to be stopped.
    pub stop_preview: bool,
    /// The close waits for this confirmation.
    pub pending: Option<PendingCloseTab>,
}

/// The non-layout state other than the error message is the same in `a` and `b`.
pub open spec fn same_settings_and_files(a: AppState, b: AppState) -> bool {
    &&& a.workspace == b.workspace
    &&& a.recent_files@ == b.recent_files@
    &&& a.is_previewing == b.is_previewing
    &&& a.preview_dirty == b.preview_dirty
    &&& a.export_settings == b.export_settings
    &&& a.settings == b.settings
    &&& a.terminal_visible == b.terminal_visible
    &&& a.terminal_filter == b.terminal_filter
    &&& a.active_dialog == b.active_dialog
}

/// Only the layout differs between `a` and `b`.
pub open spec fn only_layout_changed(a: AppState, b: AppState) -> bool {
    same_settings_and_files(a, b) && a.error_message == b.error_message
}

impl AppState {
    /// The layout part of the state.
    pub open spec fn layout(self) -> Layout {
        Layout {
            pane: self.editor_pane@,
            next_tab_id: self.next_tab_id,
            next_pane_id: self.next_pane_id,
            focused: self.focused_pane_id,
            last_source: self.last_source_tab_id,
        }
    }

    /// The workbench invariant holds.
    pub open spec fn inv(self) -> bool {
        self.layout().inv()
    }

    /// Create a new state with default settings.
    pub fn new() -> (s: Self)
        ensures
            s.settings.is_default(),
            s.layout() == (Layout {
                pane: PaneNode::Group { id: 1, tabs: Seq::empty(), active: 0 },
                next_tab_id: 2,
                next_pane_id: 2,
                focused: 1,
                last_source: None,
            }),
            s.inv(),
    {
        Self::with_settings(Settings::default())
    }

    /// Create a state with loaded settings: one empty pane (id 1), focused,
    /// no workspace, no recent files, nothing previewing.
    pub fn with_settings(settings: Settings) -> (s: Self)
        ensures
            s.settings == settings,
            s.layout() == (Layout {
                pane: PaneNode::Group { id: 1, tabs: Seq::empty(), active: 0 },
                next_tab_id: 2,
                next_pane_id: 2,
                focused: 1,
                last_source: None,
            }),
            s.workspace is None,
            s.recent_files@.len() == 0,
            !s.is_previewing,
            !s.preview_dirty,
            s.error_message is None,
            !s.terminal_visible,
            s.terminal_filter == (TerminalFilter { show_info: true, show_warn: true, show_error: true }),
            s.active_dialog is None,
            s.inv(),
    {
        let s = AppState {
            editor_pane: EditorPane::default(),
            next_tab_id: 2,
            next_pane_id: 2,
            focused_pane_id: 1,
            last_source_tab_id: None,
            workspace: None,
            recent_files: Vec::new(),
            is_previewing: false,
            preview_dirty: false,
            error_message: None,
            export_settings: ExportSettings::default(),
            settings,
            terminal_visible: false,
            terminal_filter: TerminalFilter::default(),
            active_dialog: None,
        };
        proof {
            assert(s.editor_pane@.pane_ids() =~= seq![1u64]);
            assert(ids_of(s.editor_pane@.tabs()) =~= Seq::<TabId>::empty());
        }
        s
    }

    /// Check if there's an error in the script.
    pub fn has_error(&self) -> (r: bool)
        ensures
            r == self.error_message is Some,
    {
        self.error_message.is_some()
    }

    /// Toggle terminal panel visibility.
    pub fn toggle_terminal(&mut self)
        ensures
            *final(self) == (AppState { terminal_visible: !old(self).terminal_visible, ..*old(self) }),
    {
        self.terminal_visible = !self.terminal_visible;
    }

    /// Open the About dialog.
    pub fn open_about(&mut self)
        ensures
            *final(self) == (AppState { active_dialog: Some(AppDialog::About), ..*old(self) }),
    {
        self.active_dialog = Some(AppDialog::About);
    }

    /// Check whether the About dialog is open.
    pub fn is_about_open(&self) -> (r: bool)
        ensures
            r == (self.active_dialog == Some(AppDialog::About)),
    {
        match self.active_dialog {
            Some(d) => match d {
                AppDialog::About => {
                    assert(self.active_dialog == Some(AppDialog::About));
                    true
                },
            },
            None => false,
        }
    }

    /// Close the About dialog (nothing happens when it is not open).
    pub fn close_about(&mut self)
        ensures
            *final(self) == (if old(self).active_dialog == Some(AppDialog::About) {
                AppState { active_dialog: None, ..*old(self) }
            } else {
                *old(self)
            }),
    {
        if self.is_about_open() {
            self.active_dialog = None;
        }
    }

    /// Check if a workspace folder is currently open.
    pub fn has_workspace(&self) -> (r: bool)
        ensures
            r == self.workspace is Some,
    {
        self.workspace.is_some()
    }

    /// Open a folder as the workspace.
    pub fn open_folder(&mut self, path: String)
        ensures
            *final(self) == (AppState { workspace: Some(path), ..*old(self) }),
    {
        self.workspace = Some(path);
    }

    /// Close the current workspace folder.
    pub fn close_folder(&mut self)
        ensures
            *final(self) == (AppState { workspace: None, ..*old(self) }),
    {
        self.workspace = None;
    }

    /// A preview starts: it is running, nothing is waiting to be previewed
    /// and the last error is cleared.
    pub fn begin_preview(&mut self)
        ensures
            *final(self) == (AppState { is_previewing: true, preview_dirty: false, error_message: None, ..*old(self) }),
    {
        self.is_previewing = true;
        self.preview_dirty = false;
        self.error_message = None;
    }

    /// The preview could not run: the error is shown and nothing is
    /// previewing.
    pub fn preview_failed(&mut self, message: String)
        ensures
            *final(self) == (AppState { is_previewing: false, error_message: Some(message), ..*old(self) }),
    {
        self.is_previewing = false;
        self.error_message = Some(message);
    }

    /// The script failed to compile: the error is shown (the preview still
    /// starts).
    pub fn script_error(&mut self, message: String)
        ensures
            *final(self) == (AppState { error_message: Some(message), ..*old(self) }),
    {
        self.error_message = Some(message);
    }

    /// The preview process of `generation` exited: nothing is previewing any
    /// more, unless a newer preview (`current`) took its place.
    pub fn preview_exited(&mut self, current: u64, generation: u64)
        ensures
            *final(self) == (if current == generation {
                AppState { is_previewing: false, ..*old(self) }
            } else {
                *old(self)
            }),
    {
        if current == generation {
            self.is_previewing = false;
        }
    }

    /// Record that the preview has been stopped (the caller stops the process).
    pub fn stop_preview(&mut self)
        ensures
            *final(self) == (AppState { is_previewing: false, ..*old(self) }),
    {
        self.is_previewing = false;
    }

    /// Get the active tab from the focused pane.
    pub fn active_tab(&self) -> (r: Option<&EditorTab>)
        ensures
            r matches Some(t) ==> self.layout().active() == Some(t@),
            r is None ==> self.layout().active() is None,
    {
        match self.editor_pane.find_pane(self.focused_pane_id) {
            Some(pane) => pane.active_tab(),
            None => None,
        }
    }

    /// Get the currently active code (empty when no tab is active).
    pub fn code(&self) -> (r: String)
        ensures
            r@ == (match self.layout().active() {
                Some(t) => t.content,
                None => Seq::empty(),
            }),
    {
        match self.active_tab() {
            Some(t) => t.content.clone(),
            None => String::new(),
        }
    }

    /// Get the current file path (from the active tab).
    pub fn current_file(&self) -> (r: Option<String>)
        ensures
            crate::editor::opt_view(r) == (match self.layout().active() {
                Some(t) => t.path,
                None => None,
            }),
    {
        match self.active_tab() {
            Some(t) => t.path.clone(),
            None => None,
        }
    }

    /// Get the cursor position (line, column) of the active tab, (1, 1) without one.
    pub fn cursor_position(&self) -> (r: (usize, usize))
        ensures
            r == (match self.layout().active() {
                Some(t) => (t.cursor_line, t.cursor_col),
                None => (1usize, 1usize),
            }),
    {
        match self.active_tab() {
            Some(t) => (t.cursor_line, t.cursor_col),
            None => (1, 1),
        }
    }

    /// How the active tab is saved: to its file, unless it has none or a new
    /// path is asked for (`force_dialog`), in which case a path is asked
    /// for first.
    pub fn save_plan(&self, force_dialog: bool) -> (r: SavePlan)
        ensures
            match r {
                SavePlan::WriteTo { path, code } => !force_dialog
                    && (self.layout().active() matches Some(t) && t.path == Some(path@) && t.content == code@),
                SavePlan::AskForPath => force_dialog || !(self.layout().active() matches Some(t) && t.path is Some),
            },
    {
        if !force_dialog {
            if let Some(path) = self.current_file() {
                return SavePlan::WriteTo { path, code: self.code() };
            }
        }
        SavePlan::AskForPath
    }

    /// Get all tabs (flattened from the pane tree).
    pub fn all_tabs(&self) -> (r: Vec<&EditorTab>)
        ensures
            r@.len() == self.editor_pane@.tabs().len(),
            forall|i: int| 0 <= i < r@.len() ==> r@[i]@ == self.editor_pane@.tabs()[i],
    {
        self.editor_pane.collect_tabs()
    }

    /// Check if any tab has unsaved changes.
    pub fn has_unsaved_changes(&self) -> (r: bool)
        ensures
            r == exists|i: int| 0 <= i < self.editor_pane@.tabs().len() && #[trigger] self.editor_pane@.tabs()[i].is_dirty,
    {
        let tabs = self.all_tabs();
        let mut i: usize = 0;
        while i < tabs.len()
            invariant
                tabs@.len() == self.editor_pane@.tabs().len(),
                forall|j: int| 0 <= j < tabs@.len() ==> tabs@[j]@ == self.editor_pane@.tabs()[j],
                0 <= i <= tabs@.len(),
                forall|j: int| 0 <= j < i ==> !self.editor_pane@.tabs()[j].is_dirty,
            decreases tabs@.len() - i,
        {
            if tabs[i].is_dirty {
                assert(self.editor_pane@.tabs()[i as int].is_dirty);
                return true;
            }
            i = i + 1;
        }
        false
    }
}


/// `ids_of` distributes over concatenation.
pub proof fn lemma_ids_of_concat(a: Seq<TabView>, b: Seq<TabView>)
    ensures
        ids_of(a + b) == ids_of(a) + ids_of(b),
{
    assert(ids_of(a + b) =~= ids_of(a) + ids_of(b));
}

/// Replacing the contents of one group keeps the invariant when the new tabs
/// have distinct ids, each either taken from the group's old tabs, fresh
/// (between the old and the new next tab id) or absent from the layout and
/// below the next tab id, and a valid active index.
pub proof fn lemma_replace_group_inv(l: Layout, p: PaneId, new_tabs: Seq<TabView>, active: usize, new_next: TabId)
    requires
        l.inv(),
        l.pane.group(p) is Some,
        active_ok(new_tabs, active),
        ids_of(new_tabs).no_duplicates(),
        l.next_tab_id <= new_next,
        forall|i: int| 0 <= i < new_tabs.len() ==> ids_of(l.pane.group(p).unwrap().0).contains(#[trigger] new_tabs[i].id)
            || (l.next_tab_id <= new_tabs[i].id < new_next)
            || (!ids_of(l.pane.tabs()).contains(new_tabs[i].id) && new_tabs[i].id < l.next_tab_id),
    ensures
        (Layout { pane: l.pane.with_group(p, new_tabs, active), next_tab_id: new_next, ..l }).inv(),
{
    let old_tabs = l.pane.group(p).unwrap().0;
    let n2 = l.pane.with_group(p, new_tabs, active);
    lemma_with_group(l.pane, p, new_tabs, active);
    let b = l.pane.tabs_before(p);
    let a = l.pane.tabs_after(p);
    lemma_ids_of_concat(b, old_tabs);
    lemma_ids_of_concat(b + old_tabs, a);
    lemma_ids_of_concat(b, new_tabs);
    lemma_ids_of_concat(b + new_tabs, a);
    let whole = ids_of(b) + ids_of(old_tabs) + ids_of(a);
    assert(ids_of(l.pane.tabs()) == whole);
    // parts of a duplicate-free sequence
    assert(ids_of(b).no_duplicates()) by {
        assert forall|i: int, j: int| 0 <= i < ids_of(b).len() && 0 <= j < ids_of(b).len() && i != j implies ids_of(b)[i] != ids_of(b)[j] by {
            assert(whole[i] == ids_of(b)[i]);
            assert(whole[j] == ids_of(b)[j]);
        }
    }
    assert(ids_of(a).no_duplicates()) by {
        let off = ids_of(b).len() + ids_of(old_tabs).len();
        assert forall|i: int, j: int| 0 <= i < ids_of(a).len() && 0 <= j < ids_of(a).len() && i != j implies ids_of(a)[i] != ids_of(a)[j] by {
            assert(whole[off + i] == ids_of(a)[i]);
            assert(whole[off + j] == ids_of(a)[j]);
        }
    }
    // every id of b is below next and not an old group id; same for a
    assert forall|i: int, j: int| 0 <= i < ids_of(b).len() && 0 <= j < ids_of(new_tabs).len() implies ids_of(b)[i] != ids_of(new_tabs)[j] by {
        assert(whole[i] == ids_of(b)[i]);
        assert(l.pane.tabs()[i].id == ids_of(b)[i]);
        assert(ids_of(l.pane.tabs())[i] == ids_of(b)[i]);
        assert(ids_of(new_tabs)[j] == new_tabs[j].id);
        if ids_of(old_tabs).contains(new_tabs[j].id) {
            let k = choose|k: int| 0 <= k < ids_of(old_tabs).len() && ids_of(old_tabs)[k] == new_tabs[j].id;
            assert(whole[ids_of(b).len() + k] == ids_of(old_tabs)[k]);
        }
    }
    vstd::seq_lib::lemma_no_dup_in_concat(ids_of(b), ids_of(new_tabs));
    assert forall|i: int, j: int| 0 <= i < (ids_of(b) + ids_of(new_tabs)).len() && 0 <= j < ids_of(a).len()
        implies (ids_of(b) + ids_of(new_tabs))[i] != ids_of(a)[j] by {
        let off = ids_of(b).len() + ids_of(old_tabs).len();
        assert(whole[off + j] == ids_of(a)[j]);
        assert(l.pane.tabs()[off + j].id == ids_of(a)[j]);
        assert(ids_of(l.pane.tabs())[off + j] == ids_of(a)[j]);
        if i < ids_of(b).len() {
            assert(whole[i] == ids_of(b)[i]);
        } else {
            let jj = i - ids_of(b).len();
            assert(ids_of(new_tabs)[jj] == new_tabs[jj].id);
            if ids_of(old_tabs).contains(new_tabs[jj].id) {
                let k = choose|k: int| 0 <= k < ids_of(old_tabs).len() && ids_of(old_tabs)[k] == new_tabs[jj].id;
                assert(whole[ids_of(b).len() + k] == ids_of(old_tabs)[k]);
            }
        }
    }
    vstd::seq_lib::lemma_no_dup_in_concat(ids_of(b) + ids_of(new_tabs), ids_of(a));
    assert(ids_of(n2.tabs()) == ids_of(b) + ids_of(new_tabs) + ids_of(a));
    // counters
    let l2 = Layout { pane: n2, next_tab_id: new_next, ..l };
    assert forall|i: int| 0 <= i < l2.pane.tabs().len() implies #[trigger] l2.pane.tabs()[i].id < l2.next_tab_id by {
        let nb = b.len() as int;
        let nn = new_tabs.len() as int;
        if i < nb {
            assert(l2.pane.tabs()[i] == b[i]);
            assert(l.pane.tabs()[i] == b[i]);
        } else if i < nb + nn {
            assert(l2.pane.tabs()[i] == new_tabs[i - nb]);
            if ids_of(old_tabs).contains(new_tabs[i - nb].id) {
                let k = choose|k: int| 0 <= k < ids_of(old_tabs).len() && ids_of(old_tabs)[k] == new_tabs[i - nb].id;
                assert(l.pane.tabs()[nb + k] == old_tabs[k]);
            }
        } else {
            let no = old_tabs.len() as int;
            assert(l2.pane.tabs()[i] == a[i - nb - nn]);
            assert(l.pane.tabs()[nb + no + (i - nb - nn)] == a[i - nb - nn]);
        }
    }
}

impl AppState {
    /// Remember the active tab as the last source tab when it is a real source document.
    fn remember_active_source_tab(&mut self)
        ensures
            final(self).layout() == old(self).layout().remember(),
            only_layout_changed(*old(self), *final(self)),
    {
        let id = match self.active_tab() {
            Some(tab) => if tab.is_persistable() {
                Some(tab.id)
            } else {
                None
            },
            None => None,
        };
        if let Some(tab_id) = id {
            self.last_source_tab_id = Some(tab_id);
        }
    }

    /// Focus a pane (nothing happens when there is no such pane).
    pub fn focus_pane(&mut self, pane_id: PaneId)
        ensures
            final(self).layout() == old(self).layout().focus(pane_id),
            only_layout_changed(*old(self), *final(self)),
            old(self).inv() ==> final(self).inv(),
    {
        if self.editor_pane.has_pane(pane_id) {
            self.focused_pane_id = pane_id;
            self.remember_active_source_tab();
        }
    }

    /// Switch to a tab by id: focus the pane that holds it and make it that
    /// pane's active tab (nothing happens when no pane holds it).
    pub fn switch_to_tab(&mut self, tab_id: TabId)
        ensures
            final(self).layout() == old(self).layout().switch_to(tab_id),
            only_layout_changed(*old(self), *final(self)),
            old(self).inv() ==> final(self).inv(),
    {
        if let Some(pane_id) = self.editor_pane.find_pane_containing_tab(tab_id) {
            self.focused_pane_id = pane_id;
            let ghost before = self.editor_pane@;
            if let Some((tabs, active)) = self.editor_pane.take_group(pane_id) {
                let new_active = match position_of_tab(&tabs, tab_id) {
                    Some(idx) => idx,
                    None => active,
                };
                proof {
                    lemma_index_of_tab_bound(tab_views(tabs@), tab_id);
                    lemma_with_group_twice(before, pane_id, Seq::empty(), 0, tab_views(tabs@), new_active);
                    if index_of_tab(tab_views(tabs@), tab_id) is None {
                        lemma_with_group(before, pane_id, tab_views(tabs@), active);
                        assert(before.with_group(pane_id, tab_views(tabs@), active) == before) by {
                            lemma_with_group_self(before, pane_id);
                        }
                    }
                    if old(self).inv() {
                        lemma_group_active_ok(before, pane_id);
                        lemma_ids_contained(tab_views(tabs@));
                        lemma_group_ids_distinct(before, pane_id);
                        lemma_replace_group_inv(Layout { focused: pane_id, ..old(self).layout() }, pane_id, tab_views(tabs@), new_active, old(self).next_tab_id);
                        lemma_group_active_ok(before, pane_id);
                        lemma_ids_contained(tab_views(tabs@));
                    }
                }
                self.editor_pane.put_group(pane_id, tabs, new_active);
            }
            self.remember_active_source_tab();
        }
    }
}

/// Replacing a group by its own contents changes nothing.
pub proof fn lemma_with_group_self(n: PaneNode, id: PaneId)
    requires
        n.group(id) is Some,
    ensures
        n.with_group(id, n.group(id).unwrap().0, n.group(id).unwrap().1) == n,
    decreases n,
{
    match n {
        PaneNode::Group { .. } => {},
        PaneNode::Split { first, second, .. } => {
            if first.group(id) is Some {
                lemma_with_group_self(*first, id);
            } else {
                lemma_with_group_self(*second, id);
            }
        },
    }
}


/// The active index of every group of a layout whose actives are valid is valid.
pub proof fn lemma_group_active_ok(n: PaneNode, id: PaneId)
    requires
        n.actives_ok(),
    ensures
        n.group(id) matches Some((tabs, a)) ==> active_ok(tabs, a),
    decreases n,
{
    match n {
        PaneNode::Group { .. } => {},
        PaneNode::Split { first, second, .. } => {
            lemma_group_active_ok(*first, id);
            lemma_group_active_ok(*second, id);
        },
    }
}

/// Every tab's id is among the ids of its sequence.
pub proof fn lemma_ids_contained(ts: Seq<TabView>)
    ensures
        forall|i: int| 0 <= i < ts.len() ==> ids_of(ts).contains(#[trigger] ts[i].id),
{
    assert forall|i: int| 0 <= i < ts.len() implies ids_of(ts).contains(#[trigger] ts[i].id) by {
        assert(ids_of(ts)[i] == ts[i].id);
    }
}


/// The middle part of a duplicate-free sequence is duplicate-free.
pub proof fn lemma_no_dup_middle<A>(x: Seq<A>, y: Seq<A>, z: Seq<A>)
    requires
        (x + y + z).no_duplicates(),
    ensures
        y.no_duplicates(),
{
    let w = x + y + z;
    assert forall|i: int, j: int| 0 <= i < y.len() && 0 <= j < y.len() && i != j implies y[i] != y[j] by {
        assert(w[x.len() + i] == y[i]);
        assert(w[x.len() + j] == y[j]);
    }
}

/// The tab ids of each group of a layout with distinct tab ids are distinct.
pub proof fn lemma_group_ids_distinct(n: PaneNode, id: PaneId)
    requires
        ids_of(n.tabs()).no_duplicates(),
    ensures
        n.group(id) matches Some((tabs, _)) ==> ids_of(tabs).no_duplicates(),
{
    if let Some((tabs, a)) = n.group(id) {
        lemma_with_group(n, id, tabs, a);
        let b = n.tabs_before(id);
        let c = n.tabs_after(id);
        lemma_ids_of_concat(b, tabs);
        lemma_ids_of_concat(b + tabs, c);
        lemma_no_dup_middle(ids_of(b), ids_of(tabs), ids_of(c));
    }
}


/// Replacing the active tab by one with the same id keeps the invariant.
pub proof fn lemma_with_active_inv(l: Layout, t: TabView)
    requires
        l.inv(),
        l.active() matches Some(cur) && cur.id == t.id,
    ensures
        l.with_active(t).inv(),
{
    let (ts, a) = l.pane.group(l.focused).unwrap();
    let nts = ts.update(a as int, t);
    lemma_group_active_ok(l.pane, l.focused);
    lemma_group_ids_distinct(l.pane, l.focused);
    assert(ids_of(nts) =~= ids_of(ts));
    lemma_ids_contained(ts);
    assert forall|i: int| 0 <= i < nts.len() implies ids_of(ts).contains(#[trigger] nts[i].id) || (l.next_tab_id <= nts[i].id < l.next_tab_id) by {
        assert(nts[i].id == ts[i].id);
    }
    lemma_replace_group_inv(l, l.focused, nts, a, l.next_tab_id);
}

/// Adding a tab with the next tab id keeps the invariant.
pub proof fn lemma_add_tab_inv(l: Layout, p: PaneId, t: TabView)
    requires
        l.inv(),
        t.id == l.next_tab_id,
        l.next_tab_id < u64::MAX,
    ensures
        l.add_tab(p, t).inv(),
{
    if let Some((ts, a)) = l.pane.group(p) {
        let nts = ts.push(t);
        lemma_group_ids_distinct(l.pane, p);
        lemma_ids_contained(ts);
        assert(ids_of(nts) =~= ids_of(ts).push(t.id));
        lemma_with_group(l.pane, p, ts, a);
        assert(ts == l.pane.group(p).unwrap().0);
        assert forall|i: int| 0 <= i < ts.len() implies ts[i].id < l.next_tab_id by {
            let b = l.pane.tabs_before(p);
            assert(l.pane.tabs()[b.len() + i] == ts[i]);
        }
        assert(ids_of(nts).no_duplicates()) by {
            assert forall|i: int, j: int| 0 <= i < ids_of(nts).len() && 0 <= j < ids_of(nts).len() && i != j implies ids_of(nts)[i] != ids_of(nts)[j] by {
                if i < ts.len() && j < ts.len() {
                    assert(ids_of(nts)[i] == ids_of(ts)[i]);
                    assert(ids_of(nts)[j] == ids_of(ts)[j]);
                } else if i < ts.len() {
                    assert(ids_of(nts)[i] == ts[i].id);
                } else {
                    assert(ids_of(nts)[j] == ts[j].id);
                }
            }
        }
        assert forall|i: int| 0 <= i < nts.len() implies ids_of(ts).contains(#[trigger] nts[i].id) || (l.next_tab_id <= nts[i].id < l.next_tab_id + 1) by {
            if i < ts.len() {
                assert(nts[i] == ts[i]);
            }
        }
        lemma_replace_group_inv(l, p, nts, ts.len() as usize, (l.next_tab_id + 1) as TabId);
    } else {
        assert(l.add_tab(p, t).pane == l.pane);
    }
}

impl AppState {
    /// Take the active tab of the focused pane out of the layout, leaving its
    /// group empty; returns the other tabs, the active index and the tab.
    fn take_active_tab(&mut self) -> (r: Option<(Vec<EditorTab>, usize, EditorTab)>)
        ensures
            only_layout_changed(*old(self), *final(self)),
            final(self).next_tab_id == old(self).next_tab_id,
            final(self).next_pane_id == old(self).next_pane_id,
            final(self).focused_pane_id == old(self).focused_pane_id,
            final(self).last_source_tab_id == old(self).last_source_tab_id,
            (match old(self).editor_pane@.group(old(self).focused_pane_id) {
                Some((ts, a)) => if a < ts.len() {
                    r matches Some((rest, idx, t)) && idx == a && t@ == ts[a as int] && tab_views(rest@) == ts.remove(a as int)
                        && final(self).editor_pane@ == old(self).editor_pane@.with_group(old(self).focused_pane_id, Seq::empty(), 0)
                } else {
                    r is None && final(self).editor_pane@ == old(self).editor_pane@
                },
                None => r is None && final(self).editor_pane@ == old(self).editor_pane@,
            }),
    {
        let focused = self.focused_pane_id;
        let ghost before = self.editor_pane@;
        match self.editor_pane.take_group(focused) {
            Some((mut tabs, active)) => {
                if active < tabs.len() {
                    let ghost whole = tabs@;
                    let t = tabs.remove(active);
                    assert(tab_views(tabs@) =~= tab_views(whole).remove(active as int));
                    Some((tabs, active, t))
                } else {
                    proof {
                        lemma_with_group_twice(before, focused, Seq::empty(), 0, tab_views(tabs@), active);
                        lemma_with_group_self(before, focused);
                    }
                    self.editor_pane.put_group(focused, tabs, active);
                    None
                }
            },
            None => None,
        }
    }
}


/// Taking the active tab out and putting a replacement back at its index is
/// replacing it in place.
pub proof fn lemma_take_restore(n: PaneNode, f: PaneId, t: TabView)
    requires
        n.group(f) matches Some((ts, a)) && a < ts.len(),
    ensures
        ({
            let (ts, a) = n.group(f).unwrap();
            n.with_group(f, Seq::empty(), 0).with_group(f, ts.remove(a as int).insert(a as int, t), a)
                == n.with_group(f, ts.update(a as int, t), a)
        }),
{
    let (ts, a) = n.group(f).unwrap();
    lemma_with_group_twice(n, f, Seq::empty(), 0, ts.remove(a as int).insert(a as int, t), a);
    assert(ts.remove(a as int).insert(a as int, t) =~= ts.update(a as int, t));
}

impl AppState {
    /// Put `t` back as the active tab at index `idx` among `rest` in the focused pane.
    fn restore_active_tab(&mut self, rest: Vec<EditorTab>, idx: usize, t: EditorTab)
        requires
            idx <= rest@.len(),
        ensures
            only_layout_changed(*old(self), *final(self)),
            final(self).next_tab_id == old(self).next_tab_id,
            final(self).next_pane_id == old(self).next_pane_id,
            final(self).focused_pane_id == old(self).focused_pane_id,
            final(self).last_source_tab_id == old(self).last_source_tab_id,
            final(self).editor_pane@ == old(self).editor_pane@.with_group(
                old(self).focused_pane_id,
                tab_views(rest@).insert(idx as int, t@),
                idx,
            ),
    {
        let mut rest = rest;
        let ghost r0 = rest@;
        rest.insert(idx, t);
        assert(tab_views(rest@) =~= tab_views(r0).insert(idx as int, t@));
        let focused = self.focused_pane_id;
        self.editor_pane.put_group(focused, rest, idx);
    }

    /// Add `tab` (which takes the next tab id) as the active tab of pane
    /// `pane_id`; returns whether the pane exists (the id is used either way).
    fn add_tab(&mut self, pane_id: PaneId, tab: EditorTab) -> (pushed: bool)
        requires
            tab@.id == old(self).next_tab_id,
            old(self).next_tab_id < u64::MAX,
        ensures
            final(self).layout() == old(self).layout().add_tab(pane_id, tab@),
            pushed == old(self).editor_pane@.group(pane_id) is Some,
            only_layout_changed(*old(self), *final(self)),
            old(self).inv() ==> final(self).inv(),
    {
        proof {
            if old(self).inv() {
                lemma_add_tab_inv(old(self).layout(), pane_id, tab@);
            }
        }
        self.next_tab_id = self.next_tab_id + 1;
        let ghost before = self.editor_pane@;
        match self.editor_pane.take_group(pane_id) {
            Some((mut tabs, _)) => {
                let ghost t0 = tabs@;
                tabs.push(tab);
                assert(tab_views(tabs@) =~= tab_views(t0).push(tab@));
                let a = tabs.len() - 1;
                proof {
                    lemma_with_group_twice(before, pane_id, Seq::empty(), 0, tab_views(tabs@), a);
                }
                self.editor_pane.put_group(pane_id, tabs, a);
                true
            },
            None => false,
        }
    }

    /// Create a new blank tab in a specific pane (the tab id is used even
    /// when the pane does not exist); clears the error message.
    pub fn new_tab_in_pane(&mut self, pane_id: PaneId)
        requires
            old(self).next_tab_id < u64::MAX,
        ensures
            ({
                let l = old(self).layout();
                let t = new_tab_view(l.next_tab_id, TabKind::File, None, Seq::empty(), false);
                let l2 = l.add_tab(pane_id, t);
                final(self).layout() == if l.pane.group(pane_id) is Some {
                    Layout { last_source: Some(t.id), ..l2 }
                } else {
                    l2
                }
            }),
            final(self).error_message is None,
            same_settings_and_files(*old(self), *final(self)),
            old(self).inv() ==> final(self).inv(),
    {
        let tab_id = self.next_tab_id;
        let tab = EditorTab::new_blank(tab_id);
        if self.add_tab(pane_id, tab) {
            self.last_source_tab_id = Some(tab_id);
        }
        self.error_message = None;
    }

    /// Create a new untitled tab in the focused pane.
    pub fn new_tab(&mut self)
        requires
            old(self).next_tab_id < u64::MAX,
        ensures
            ({
                let l = old(self).layout();
                let t = new_tab_view(l.next_tab_id, TabKind::File, None, Seq::empty(), false);
                let l2 = l.add_tab(l.focused, t);
                final(self).layout() == if l.pane.group(l.focused) is Some {
                    Layout { last_source: Some(t.id), ..l2 }
                } else {
                    l2
                }
            }),
            final(self).error_message is None,
            same_settings_and_files(*old(self), *final(self)),
            old(self).inv() ==> final(self).inv(),
    {
        let focused = self.focused_pane_id;
        self.new_tab_in_pane(focused);
    }

    /// Focus the existing tab of `kind` or add a new one (built by the caller's
    /// `tab`, taking the next id) to the focused pane.
    fn open_singleton(&mut self, kind: TabKind, tab: EditorTab)
        requires
            tab@.id == old(self).next_tab_id,
            tab@.kind == kind,
            old(self).next_tab_id < u64::MAX,
        ensures
            final(self).layout() == (match tab_of_kind(old(self).editor_pane@, kind) {
                Some((p, t)) => Layout { focused: p, ..old(self).layout() }.switch_to(t),
                None => old(self).layout().add_tab(old(self).focused_pane_id, tab@),
            }),
            only_layout_changed(*old(self), *final(self)),
            old(self).inv() ==> final(self).inv(),
    {
        if let Some((pane_id, tab_id)) = self.editor_pane.find_tab_of_kind(kind) {
            self.focused_pane_id = pane_id;
            self.switch_to_tab(tab_id);
            return;
        }
        let focused = self.focused_pane_id;
        self.add_tab(focused, tab);
    }

    /// Open the Settings tab (a singleton: focuses the existing one if open).
    pub fn open_settings(&mut self)
        requires
            old(self).next_tab_id < u64::MAX,
        ensures
            final(self).layout() == (match tab_of_kind(old(self).editor_pane@, TabKind::Settings) {
                Some((p, t)) => Layout { focused: p, ..old(self).layout() }.switch_to(t),
                None => old(self).layout().add_tab(
                    old(self).focused_pane_id,
                    new_tab_view(old(self).next_tab_id, TabKind::Settings, None, Seq::empty(), false),
                ),
            }),
            only_layout_changed(*old(self), *final(self)),
            old(self).inv() ==> final(self).inv(),
    {
        let tab = EditorTab::new_settings(self.next_tab_id);
        self.open_singleton(TabKind::Settings, tab);
    }

    /// Open a markdown documentation tab (a singleton per document).
    pub fn open_markdown(&mut self, doc: MarkdownDoc)
        requires
            old(self).next_tab_id < u64::MAX,
        ensures
            final(self).layout() == (match tab_of_kind(old(self).editor_pane@, TabKind::Markdown(doc)) {
                Some((p, t)) => Layout { focused: p, ..old(self).layout() }.switch_to(t),
                None => old(self).layout().add_tab(
                    old(self).focused_pane_id,
                    new_tab_view(old(self).next_tab_id, TabKind::Markdown(doc), None, Seq::empty(), false),
                ),
            }),
            only_layout_changed(*old(self), *final(self)),
            old(self).inv() ==> final(self).inv(),
    {
        let tab = EditorTab::new_markdown(self.next_tab_id, doc);
        self.open_singleton(TabKind::Markdown(doc), tab);
    }

    /// Open the Cookbook tab.
    pub fn open_cookbook(&mut self)
        requires
            old(self).next_tab_id < u64::MAX,
        ensures
            final(self).layout() == (match tab_of_kind(old(self).editor_pane@, TabKind::Markdown(MarkdownDoc::Cookbook)) {
                Some((p, t)) => Layout { focused: p, ..old(self).layout() }.switch_to(t),
                None => old(self).layout().add_tab(
                    old(self).focused_pane_id,
                    new_tab_view(old(self).next_tab_id, TabKind::Markdown(MarkdownDoc::Cookbook), None, Seq::empty(), false),
                ),
            }),
            only_layout_changed(*old(self), *final(self)),
            old(self).inv() ==> final(self).inv(),
    {
        self.open_markdown(MarkdownDoc::Cookbook);
    }

    /// Open the README tab.
    pub fn open_readme(&mut self)
        requires
            old(self).next_tab_id < u64::MAX,
        ensures
            final(self).layout() == (match tab_of_kind(old(self).editor_pane@, TabKind::Markdown(MarkdownDoc::Readme)) {
                Some((p, t)) => Layout { focused: p, ..old(self).layout() }.switch_to(t),
                None => old(self).layout().add_tab(
                    old(self).focused_pane_id,
                    new_tab_view(old(self).next_tab_id, TabKind::Markdown(MarkdownDoc::Readme), None, Seq::empty(), false),
                ),
            }),
            only_layout_changed(*old(self), *final(self)),
            old(self).inv() ==> final(self).inv(),
    {
        self.open_markdown(MarkdownDoc::Readme);
    }

    /// Set the cursor position in the active tab.
    pub fn set_cursor(&mut self, line: usize, col: usize)
        ensures
            final(self).layout() == (match old(self).layout().active() {
                Some(t) => old(self).layout().with_active(TabView { cursor_line: line, cursor_col: col, ..t }),
                None => old(self).layout(),
            }),
            only_layout_changed(*old(self), *final(self)),
            old(self).inv() ==> final(self).inv(),
    {
        let ghost n0 = self.editor_pane@;
        let ghost f = self.focused_pane_id;
        if let Some((rest, idx, mut tab)) = self.take_active_tab() {
            tab.cursor_line = line;
            tab.cursor_col = col;
            proof {
                lemma_take_restore(n0, f, tab@);
            }
            self.restore_active_tab(rest, idx, tab);
            proof {
                if old(self).inv() {
                    lemma_with_active_inv(old(self).layout(), tab@);
                }
            }
        }
    }

    /// Mark the active tab as saved, optionally under a new path; a saved
    /// source tab becomes the last source tab.
    pub fn mark_saved(&mut self, path: Option<String>)
        ensures
            final(self).layout() == (match old(self).layout().active() {
                Some(t) => {
                    let t2 = TabView {
                        is_dirty: false,
                        path: match path {
                            Some(p) => Some(p@),
                            None => t.path,
                        },
                        ..t
                    };
                    let l = old(self).layout().with_active(t2);
                    if t.persistable() {
                        Layout { last_source: Some(t.id), ..l }
                    } else {
                        l
                    }
                },
                None => old(self).layout(),
            }),
            only_layout_changed(*old(self), *final(self)),
            old(self).inv() ==> final(self).inv(),
    {
        let ghost n0 = self.editor_pane@;
        let ghost f = self.focused_pane_id;
        if let Some((rest, idx, mut tab)) = self.take_active_tab() {
            tab.is_dirty = false;
            if let Some(p) = path {
                tab.path = Some(p);
            }
            let saved = if tab.is_persistable() {
                Some(tab.id)
            } else {
                None
            };
            proof {
                lemma_take_restore(n0, f, tab@);
                if old(self).inv() {
                    lemma_with_active_inv(old(self).layout(), tab@);
                }
            }
            self.restore_active_tab(rest, idx, tab);
            if let Some(id) = saved {
                self.last_source_tab_id = Some(id);
            }
        }
    }
}


/// The state an edit of the active tab `t` to `code` starts from, for undo:
/// its content and the byte offset of its cursor.
pub open spec fn edit_origin(t: TabView) -> (Seq<char>, usize) {
    (t.content, line_col_offset(t.content, t.cursor_line as int, t.cursor_col as int) as usize)
}

/// The active tab `t` after its content became `code`, with history `h`:
/// unless its history was applying an undo or redo, the edit is now the last
/// recorded one.
pub open spec fn edited_tab(t: TabView, code: Seq<char>, h: crate::undo::UndoModel) -> TabView {
    TabView {
        content: code,
        is_dirty: true,
        history: h,
        history_grouping: if t.history_applying { t.history_grouping } else { true },
        ..t
    }
}

/// The history of the active tab `t` after an edit recorded at the undo limit
/// `limit`: unchanged while an undo or redo is being applied; a new step when
/// no edit is recorded before; when there is one, the edit either joins its
/// step (it came within `EDIT_GROUP_MS`, which the clock decides) or starts a
/// new one.
pub open spec fn history_after_edit(t: TabView, h: crate::undo::UndoModel, limit: nat) -> bool {
    if t.history_applying {
        h == t.history
    } else if !t.history_grouping {
        h == model_record(t.history, edit_origin(t), limit)
    } else {
        h == t.history || h == model_record(t.history, edit_origin(t), limit)
    }
}

impl AppState {
    /// Replace the code of the active tab, recording the previous state in its
    /// undo history (bounded by the undo history limit setting); marks the
    /// tab dirty and the preview stale, and remembers an edited source tab.
    /// Nothing happens without an active tab or when the code is unchanged.
    pub fn set_code(&mut self, code: String)
        ensures
            same_settings_and_files(*old(self), *final(self)) || (old(self).layout().active() is Some),
            final(self).error_message == old(self).error_message,
            old(self).inv() ==> final(self).inv(),
            match old(self).layout().active() {
                Some(t) => if t.content == code@ {
                    final(self).layout() == old(self).layout() && final(self).preview_dirty == old(self).preview_dirty
                } else {
                    &&& final(self).preview_dirty
                    &&& final(self).layout().active() matches Some(t2)
                    &&& history_after_edit(t, t2.history, old(self).settings.undo_history_limit as nat)
                    &&& ({
                        let l = old(self).layout().with_active(edited_tab(t, code@, t2.history));
                        final(self).layout() == if t.persistable() {
                            Layout { last_source: Some(t.id), ..l }
                        } else {
                            l
                        }
                    })
                },
                None => final(self).layout() == old(self).layout() && final(self).preview_dirty == old(self).preview_dirty,
            },
            final(self).workspace == old(self).workspace,
            final(self).recent_files@ == old(self).recent_files@,
            final(self).settings == old(self).settings,
            final(self).is_previewing == old(self).is_previewing,
    {
        let undo_limit = self.settings.undo_history_limit;
        let ghost n0 = self.editor_pane@;
        let ghost f = self.focused_pane_id;
        if let Some((rest, idx, mut tab)) = self.take_active_tab() {
            let mut edited: Option<TabId> = None;
            let mut changed = false;
            if !str_eq(tab.content.as_str(), code.as_str()) {
                let old_content = tab.content.clone();
                let old_cursor = line_col_to_offset(old_content.as_str(), tab.cursor_line, tab.cursor_col);
                let ghost h0 = tab.history;
                tab.history.record_edit(old_content.as_str(), old_cursor, undo_limit);
                proof {
                    if !h0.applying() {
                        let e = choose|e: u128| crate::undo::recorded(
                            h0,
                            tab.history,
                            (old_content@, old_cursor),
                            undo_limit as nat,
                            crate::undo::joins_last_step(h0, Some(e)),
                        );
                    }
                }
                tab.content = code;
                tab.is_dirty = true;
                changed = true;
                if tab.is_persistable() {
                    edited = Some(tab.id);
                }
            }
            proof {
                lemma_take_restore(n0, f, tab@);
                if old(self).inv() {
                    lemma_with_active_inv(old(self).layout(), tab@);
                }
                let (ts, a) = n0.group(f).unwrap();
                lemma_with_group(n0, f, ts.update(a as int, tab@), a);
                assert(ts.update(a as int, tab@)[a as int] == tab@);
                if !changed {
                    assert(ts.update(a as int, tab@) =~= ts);
                    lemma_with_group_self(n0, f);
                }
            }
            self.restore_active_tab(rest, idx, tab);
            if changed {
                self.preview_dirty = true;
            }
            if let Some(id) = edited {
                self.last_source_tab_id = Some(id);
            }
        }
    }

    /// Undo the last edit of the active tab; returns the restored content and
    /// cursor offset, or `None` when there is nothing to undo.
    pub fn undo(&mut self) -> (r: Option<(String, usize)>)
        ensures
            only_layout_changed(*old(self), *final(self)),
            old(self).inv() ==> final(self).inv(),
            match old(self).layout().active() {
                Some(t) => {
                    let (m1, restored) = model_undo(t.history, edit_origin(t));
                    match restored {
                        Some(snap) => r matches Some((c, pos)) && c@ == snap.0 && pos == snap.1
                            && final(self).layout() == old(self).layout().with_active(
                                TabView { content: snap.0, is_dirty: true, history: m1, history_applying: false, history_grouping: false, ..t },
                            ),
                        None => r is None && final(self).layout() == old(self).layout(),
                    }
                },
                None => r is None && final(self).layout() == old(self).layout(),
            },
    {
        let ghost n0 = self.editor_pane@;
        let ghost f = self.focused_pane_id;
        if let Some((rest, idx, mut tab)) = self.take_active_tab() {
            let current_content = tab.content.clone();
            let current_cursor = line_col_to_offset(current_content.as_str(), tab.cursor_line, tab.cursor_col);
            let res = tab.history.undo(current_content.as_str(), current_cursor);
            let out = match res {
                Some(snapshot) => {
                    tab.content = snapshot.content.clone();
                    tab.is_dirty = true;
                    tab.history.finish_undo_redo();
                    Some((snapshot.content, snapshot.cursor_pos))
                },
                None => None,
            };
            proof {
                lemma_take_restore(n0, f, tab@);
                if old(self).inv() {
                    lemma_with_active_inv(old(self).layout(), tab@);
                }
                if out is None {
                    let (ts, a) = n0.group(f).unwrap();
                    assert(ts.update(a as int, tab@) =~= ts);
                    lemma_with_group_self(n0, f);
                }
            }
            self.restore_active_tab(rest, idx, tab);
            out
        } else {
            None
        }
    }

    /// Redo the last undone edit of the active tab; returns the restored
    /// content and cursor offset, or `None` when there is nothing to redo.
    pub fn redo(&mut self) -> (r: Option<(String, usize)>)
        ensures
            only_layout_changed(*old(self), *final(self)),
            old(self).inv() ==> final(self).inv(),
            match old(self).layout().active() {
                Some(t) => {
                    let (m1, restored) = model_redo(t.history, edit_origin(t));
                    match restored {
                        Some(snap) => r matches Some((c, pos)) && c@ == snap.0 && pos == snap.1
                            && final(self).layout() == old(self).layout().with_active(
                                TabView { content: snap.0, is_dirty: true, history: m1, history_applying: false, history_grouping: false, ..t },
                            ),
                        None => r is None && final(self).layout() == old(self).layout(),
                    }
                },
                None => r is None && final(self).layout() == old(self).layout(),
            },
    {
        let ghost n0 = self.editor_pane@;
        let ghost f = self.focused_pane_id;
        if let Some((rest, idx, mut tab)) = self.take_active_tab() {
            let current_content = tab.content.clone();
            let current_cursor = line_col_to_offset(current_content.as_str(), tab.cursor_line, tab.cursor_col);
            let res = tab.history.redo(current_content.as_str(), current_cursor);
            let out = match res {
                Some(snapshot) => {
                    tab.content = snapshot.content.clone();
                    tab.is_dirty = true;
                    tab.history.finish_undo_redo();
                    Some((snapshot.content, snapshot.cursor_pos))
                },
                None => None,
            };
            proof {
                lemma_take_restore(n0, f, tab@);
                if old(self).inv() {
                    lemma_with_active_inv(old(self).layout(), tab@);
                }
                if out is None {
                    let (ts, a) = n0.group(f).unwrap();
                    assert(ts.update(a as int, tab@) =~= ts);
                    lemma_with_group_self(n0, f);
                }
            }
            self.restore_active_tab(rest, idx, tab);
            out
        } else {
            None
        }
    }
}


/// The views of a sequence of strings.
pub open spec fn str_views(s: Seq<String>) -> Seq<Seq<char>> {
    s.map_values(|x: String| x@)
}

/// `s` without the paths equal to `x`, order kept.
pub open spec fn without(s: Seq<Seq<char>>, x: Seq<char>) -> Seq<Seq<char>>
    decreases s.len(),
{
    if s.len() == 0 {
        s
    } else if path_equals(s.last(), x) {
        without(s.drop_last(), x)
    } else {
        without(s.drop_last(), x).push(s.last())
    }
}

/// The recent-files list after opening `path`: `path` first, then the other
/// entries in order, keeping at most `limit` entries (at least one).
pub open spec fn recent_after(files: Seq<Seq<char>>, path: Seq<char>, limit: nat) -> Seq<Seq<char>> {
    let keep = if limit < 1 { 1 } else { limit };
    let all = seq![path] + without(files, path);
    if all.len() > keep { all.take(keep as int) } else { all }
}


/// With distinct pane ids, the tab found by path lies in the group found by
/// its pane id, at the index found.
pub proof fn lemma_tab_with_path_group(n: PaneNode, path: Seq<char>)
    requires
        n.pane_ids().no_duplicates(),
    ensures
        tab_with_path(n, path) matches Some((p, k)) ==> (n.group(p) matches Some((ts, _)) && k < ts.len()
            && (ts[k as int].path matches Some(q) && path_equals(q, path))),
    decreases n,
{
    match n {
        PaneNode::Group { tabs, .. } => {
            lemma_index_of_path_bound(tabs, path);
        },
        PaneNode::Split { first, second, .. } => {
            crate::pane::lemma_no_dup_concat_parts(first.pane_ids(), second.pane_ids());
            lemma_tab_with_path_group(*first, path);
            lemma_tab_with_path_group(*second, path);
            if let Some((p, k)) = tab_with_path(*first, path) {
                lemma_group_iff_pane_id(*first, p);
            } else if let Some((p, k)) = tab_with_path(*second, path) {
                lemma_group_iff_pane_id(*first, p);
                lemma_group_iff_pane_id(*second, p);
            }
        },
    }
}

impl AppState {
    /// Add a file to the recent files list: it moves to the front, and the list
    /// keeps at most the configured number of entries (at least one).
    pub fn add_to_recent_files(&mut self, path: String)
        ensures
            str_views(final(self).recent_files@) == recent_after(str_views(old(self).recent_files@), path@, old(self).settings.recent_files_limit as nat),
            final(self).layout() == old(self).layout(),
            final(self).workspace == old(self).workspace,
            final(self).settings == old(self).settings,
            final(self).error_message == old(self).error_message,
    {
        let limit = if self.settings.recent_files_limit < 1 { 1 } else { self.settings.recent_files_limit };
        let mut kept: Vec<String> = Vec::new();
        let mut i: usize = 0;
        let ghost files = str_views(self.recent_files@);
        while i < self.recent_files.len()
            invariant
                files == str_views(self.recent_files@),
                0 <= i <= self.recent_files@.len(),
                str_views(kept@) == without(files.take(i as int), path@),
            decreases self.recent_files@.len() - i,
        {
            proof {
                assert(files.take(i as int + 1).drop_last() =~= files.take(i as int));
            }
            if !same_path(self.recent_files[i].as_str(), path.as_str()) {
                let ghost k0 = kept@;
                kept.push(self.recent_files[i].clone());
                assert(str_views(kept@) =~= str_views(k0).push(files[i as int]));
            }
            i = i + 1;
        }
        proof {
            assert(files.take(files.len() as int) =~= files);
        }
        let mut result: Vec<String> = Vec::new();
        result.push(path);
        result.append(&mut kept);
        assert(str_views(result@) =~= seq![path@] + without(files, path@));
        if result.len() > limit {
            let ghost r0 = result@;
            result.truncate(limit);
            assert(str_views(result@) =~= str_views(r0).take(limit as int));
        }
        self.recent_files = result;
    }

    /// Open a file in a specific pane: when a tab already shows the path, it
    /// is focused instead. Otherwise a new tab with `content` is added to the
    /// pane (when it exists); the file's folder becomes the workspace when none
    /// is open, the file moves to the front of the recent files, and the error
    /// message is cleared.
    pub fn open_file_in_pane(&mut self, pane_id: PaneId, path: String, content: String)
        requires
            old(self).next_tab_id < u64::MAX,
        ensures
            old(self).inv() ==> final(self).inv(),
            match tab_with_path(old(self).editor_pane@, path@) {
                Some((found, idx)) => {
                    &&& only_layout_changed(*old(self), *final(self))
                    &&& final(self).layout() == old(self).layout().reopen(found, idx)
                },
                None => {
                    let l = old(self).layout();
                    let t = new_tab_view(l.next_tab_id, TabKind::File, Some(path@), content@, false);
                    &&& final(self).layout() == if l.pane.group(pane_id) is Some {
                        Layout { last_source: Some(t.id), ..l.add_tab(pane_id, t) }
                    } else {
                        l
                    }
                    &&& old(self).workspace is Some ==> final(self).workspace == old(self).workspace
                    &&& old(self).workspace is None ==> crate::editor::opt_view(final(self).workspace) == path_parent(path@)
                    &&& str_views(final(self).recent_files@) == recent_after(str_views(old(self).recent_files@), path@, old(self).settings.recent_files_limit as nat)
                    &&& final(self).error_message is None
                    &&& final(self).settings == old(self).settings
                },
            },
    {
        if let Some((found, idx)) = self.editor_pane.find_tab_by_path(path.as_str()) {
            self.focused_pane_id = found;
            let ghost before = self.editor_pane@;
            proof {
                if old(self).inv() {
                    lemma_tab_with_path_group(before, path@);
                }
            }
            if let Some((tabs, active)) = self.editor_pane.take_group(found) {
                proof {
                    lemma_with_group_twice(before, found, Seq::empty(), 0, tab_views(tabs@), idx);
                    if old(self).inv() {
                        lemma_group_ids_distinct(before, found);
                        lemma_ids_contained(tab_views(tabs@));
                        lemma_replace_group_inv(Layout { focused: found, ..old(self).layout() }, found, tab_views(tabs@), idx, old(self).next_tab_id);
                    }
                }
                self.editor_pane.put_group(found, tabs, idx);
            }
            self.remember_active_source_tab();
            return;
        }
        if self.editor_pane.has_pane(pane_id) {
            let tab_id = self.next_tab_id;
            let tab = EditorTab::from_file(tab_id, path.clone(), content);
            self.add_tab(pane_id, tab);
            self.last_source_tab_id = Some(tab_id);
        }
        if self.workspace.is_none() {
            if let Some(parent) = parent_of(path.as_str()) {
                self.workspace = Some(parent);
            }
        }
        self.add_to_recent_files(path);
        self.error_message = None;
    }

    /// Open a file in the focused pane (or focus the tab already showing it).
    pub fn open_file(&mut self, path: String, content: String)
        requires
            old(self).next_tab_id < u64::MAX,
        ensures
            old(self).inv() ==> final(self).inv(),
            tab_with_path(old(self).editor_pane@, path@) is None ==> {
                let l = old(self).layout();
                let t = new_tab_view(l.next_tab_id, TabKind::File, Some(path@), content@, false);
                &&& final(self).layout() == if l.pane.group(l.focused) is Some {
                    Layout { last_source: Some(t.id), ..l.add_tab(l.focused, t) }
                } else {
                    l
                }
                &&& str_views(final(self).recent_files@) == recent_after(str_views(old(self).recent_files@), path@, old(self).settings.recent_files_limit as nat)
                &&& final(self).error_message is None
            },
            tab_with_path(old(self).editor_pane@, path@) matches Some((found, idx)) ==> final(self).layout() == old(self).layout().reopen(found, idx)
                && only_layout_changed(*old(self), *final(self)),
    {
        let focused = self.focused_pane_id;
        self.open_file_in_pane(focused, path, content);
    }
}


/// The first tab of `tabs` that holds a real source document.
pub open spec fn first_source(tabs: Seq<TabView>) -> Option<TabView>
    decreases tabs.len(),
{
    if tabs.len() == 0 {
        None
    } else if tabs[0].persistable() {
        Some(tabs[0])
    } else {
        first_source(tabs.drop_first())
    }
}

/// A Preview or Export tab whose snapshot is not blank.
pub open spec fn is_snapshot(t: TabView) -> bool {
    (t.kind == TabKind::Preview || t.kind == TabKind::Export) && !blank(t.content)
}

/// The first tab of `tabs` that is a non-blank Preview/Export snapshot.
pub open spec fn first_snapshot(tabs: Seq<TabView>) -> Option<TabView>
    decreases tabs.len(),
{
    if tabs.len() == 0 {
        None
    } else if is_snapshot(tabs[0]) {
        Some(tabs[0])
    } else {
        first_snapshot(tabs.drop_first())
    }
}

/// The id of an optional tab.
pub open spec fn id_of(t: Option<TabView>) -> Option<TabId> {
    match t {
        Some(v) => Some(v.id),
        None => None,
    }
}

/// A split ratio kept between a tenth and nine tenths (in ten-thousandths).
pub open spec fn clamp_ratio(r: u32) -> u32 {
    if r < 1000 {
        1000
    } else if r > 9000 {
        9000
    } else {
        r
    }
}

/// The tab a new split pane opens with: a copy (under id `id`) of the active
/// tab of `ts`, or a blank tab when there is none.
pub open spec fn copy_for_split(ts: Seq<TabView>, a: usize, id: TabId) -> TabView {
    if a < ts.len() {
        new_tab_view(id, ts[a as int].kind, ts[a as int].path, ts[a as int].content, ts[a as int].is_dirty)
    } else {
        new_tab_view(id, TabKind::File, None, Seq::empty(), false)
    }
}

impl Layout {
    /// The last source tab is still open and still a source tab.
    pub open spec fn source_ok(self) -> bool {
        match self.last_source {
            Some(t) => match tab_with_id(self.pane, t) {
                Some(v) => v.persistable(),
                None => false,
            },
            None => false,
        }
    }

    /// The active tab if it is a source tab, else the first source tab.
    pub open spec fn pick_source(self) -> Option<TabId> {
        match self.active() {
            Some(t) => if t.persistable() {
                Some(t.id)
            } else {
                id_of(first_source(self.pane.tabs()))
            },
            None => id_of(first_source(self.pane.tabs())),
        }
    }

    /// When the last source tab is gone, pick another (see `pick_source`).
    pub open spec fn repair(self) -> Layout {
        if self.source_ok() {
            self
        } else {
            Layout { last_source: self.pick_source(), ..self }
        }
    }

    /// Closing pane `p` (unless it is the only one): its parent split is
    /// replaced by the sibling; focus moves to the first pane when the focused
    /// one is gone; the last source tab is repaired.
    pub open spec fn close_pane(self, p: PaneId) -> Layout {
        if self.pane.pane_ids().len() <= 1 {
            self
        } else {
            let c = self.pane.collapse(p);
            let f = if c.group(self.focused) is Some {
                self.focused
            } else {
                c.pane_ids()[0]
            };
            Layout { pane: c, focused: f, ..self }.repair()
        }
    }

    /// Splitting pane `p` (when it exists) in `direction`: a new pane (the next
    /// pane id) opens beside it with a copy of its active tab (or a blank tab)
    /// under the next tab id, and takes the focus.
    pub open spec fn split(self, p: PaneId, direction: SplitDirection) -> Layout {
        match self.pane.group(p) {
            Some((ts, a)) => {
                let tab = copy_for_split(ts, a, self.next_tab_id);
                let l = Layout {
                    pane: self.pane.split_at(p, direction, tab, self.next_pane_id),
                    next_tab_id: (self.next_tab_id + 1) as TabId,
                    next_pane_id: (self.next_pane_id + 1) as PaneId,
                    focused: self.next_pane_id,
                    ..self
                };
                if tab.persistable() {
                    Layout { last_source: Some(tab.id), ..l }
                } else {
                    l
                }
            },
            None => self,
        }
    }
}

/// Collapsing a pane keeps the invariant.
pub proof fn lemma_collapse_inv(l: Layout, p: PaneId)
    requires
        l.inv(),
    ensures
        (Layout { pane: l.pane.collapse(p), ..l }).inv(),
{
    let c = l.pane.collapse(p);
    lemma_collapse_wf(l.pane, p);
    assert forall|i: int| 0 <= i < c.tabs().len() implies #[trigger] c.tabs()[i].id < l.next_tab_id by {
        assert(l.pane.tabs().contains(c.tabs()[i]));
        let k = choose|k: int| 0 <= k < l.pane.tabs().len() && l.pane.tabs()[k] == c.tabs()[i];
        assert(l.pane.tabs()[k].id < l.next_tab_id);
    }
    assert forall|i: int| 0 <= i < c.pane_ids().len() implies #[trigger] c.pane_ids()[i] < l.next_pane_id by {
        assert(l.pane.pane_ids().contains(c.pane_ids()[i]));
        let k = choose|k: int| 0 <= k < l.pane.pane_ids().len() && l.pane.pane_ids()[k] == c.pane_ids()[i];
        assert(l.pane.pane_ids()[k] < l.next_pane_id);
    }
}

/// Splitting an existing pane with the next pane and tab ids keeps the invariant.
pub proof fn lemma_split_inv(l: Layout, p: PaneId, direction: SplitDirection, tab: TabView)
    requires
        l.inv(),
        l.pane.group(p) is Some,
        tab.id == l.next_tab_id,
        l.next_tab_id < u64::MAX,
        l.next_pane_id < u64::MAX,
    ensures
        (Layout {
            pane: l.pane.split_at(p, direction, tab, l.next_pane_id),
            next_tab_id: (l.next_tab_id + 1) as TabId,
            next_pane_id: (l.next_pane_id + 1) as PaneId,
            ..l
        }).inv(),
{
    let n = l.pane;
    let s = n.split_at(p, direction, tab, l.next_pane_id);
    assert(!n.pane_ids().contains(l.next_pane_id)) by {
        if n.pane_ids().contains(l.next_pane_id) {
            let k = choose|k: int| 0 <= k < n.pane_ids().len() && n.pane_ids()[k] == l.next_pane_id;
            assert(n.pane_ids()[k] < l.next_pane_id);
        }
    }
    assert(!ids_of(n.tabs()).contains(tab.id)) by {
        if ids_of(n.tabs()).contains(tab.id) {
            let k = choose|k: int| 0 <= k < ids_of(n.tabs()).len() && ids_of(n.tabs())[k] == tab.id;
            assert(n.tabs()[k].id < l.next_tab_id);
        }
    }
    lemma_split_at(n, p, direction, tab, l.next_pane_id);
    assert forall|i: int| 0 <= i < s.tabs().len() implies #[trigger] s.tabs()[i].id < l.next_tab_id + 1 by {
        assert(ids_of(s.tabs())[i] == s.tabs()[i].id);
        assert(ids_of(s.tabs()).contains(s.tabs()[i].id));
        if s.tabs()[i].id != tab.id {
            let k = choose|k: int| 0 <= k < ids_of(n.tabs()).len() && ids_of(n.tabs())[k] == s.tabs()[i].id;
            assert(n.tabs()[k].id < l.next_tab_id);
        }
    }
    assert forall|i: int| 0 <= i < s.pane_ids().len() implies #[trigger] s.pane_ids()[i] < l.next_pane_id + 1 by {
        assert(s.pane_ids().contains(s.pane_ids()[i]));
        if s.pane_ids()[i] != l.next_pane_id {
            let k = choose|k: int| 0 <= k < n.pane_ids().len() && n.pane_ids()[k] == s.pane_ids()[i];
            assert(n.pane_ids()[k] < l.next_pane_id);
        }
    }
}

impl AppState {
    /// The first tab (in layout order) that holds a real source document.
    fn first_source_tab(&self) -> (r: Option<&EditorTab>)
        ensures
            r matches Some(t) ==> first_source(self.editor_pane@.tabs()) == Some(t@),
            r is None ==> first_source(self.editor_pane@.tabs()) is None,
    {
        let tabs = self.editor_pane.collect_tabs();
        let ghost vs = self.editor_pane@.tabs();
        proof {
            assert(vs.skip(0) =~= vs);
        }
        let mut i: usize = 0;
        while i < tabs.len()
            invariant
                tabs@.len() == vs.len(),
                forall|j: int| 0 <= j < tabs@.len() ==> tabs@[j]@ == vs[j],
                vs == self.editor_pane@.tabs(),
                0 <= i <= tabs@.len(),
                first_source(vs) == first_source(vs.skip(i as int)),
            decreases tabs@.len() - i,
        {
            proof {
                assert(vs.skip(i as int).drop_first() =~= vs.skip(i as int + 1));
                assert(vs.skip(i as int)[0] == vs[i as int]);
            }
            if tabs[i].is_persistable() {
                return Some(tabs[i]);
            }
            i = i + 1;
        }
        None
    }

    /// The first tab (in layout order) that is a non-blank Preview/Export snapshot.
    fn first_snapshot_tab(&self) -> (r: Option<&EditorTab>)
        ensures
            r matches Some(t) ==> first_snapshot(self.editor_pane@.tabs()) == Some(t@),
            r is None ==> first_snapshot(self.editor_pane@.tabs()) is None,
    {
        let tabs = self.editor_pane.collect_tabs();
        let ghost vs = self.editor_pane@.tabs();
        proof {
            assert(vs.skip(0) =~= vs);
        }
        let mut i: usize = 0;
        while i < tabs.len()
            invariant
                tabs@.len() == vs.len(),
                forall|j: int| 0 <= j < tabs@.len() ==> tabs@[j]@ == vs[j],
                vs == self.editor_pane@.tabs(),
                0 <= i <= tabs@.len(),
                first_snapshot(vs) == first_snapshot(vs.skip(i as int)),
            decreases tabs@.len() - i,
        {
            proof {
                assert(vs.skip(i as int).drop_first() =~= vs.skip(i as int + 1));
                assert(vs.skip(i as int)[0] == vs[i as int]);
            }
            let t = tabs[i];
            if (t.is_preview() || t.is_export()) && !is_blank(t.content.as_str()) {
                return Some(t);
            }
            i = i + 1;
        }
        None
    }

    /// Point the last source tab at a source tab that is still open (see
    /// `Layout::repair`).
    fn repair_last_source_tab(&mut self)
        ensures
            final(self).layout() == old(self).layout().repair(),
            only_layout_changed(*old(self), *final(self)),
    {
        if let Some(tab_id) = self.last_source_tab_id {
            if let Some(tab) = self.editor_pane.find_tab(tab_id) {
                if tab.is_persistable() {
                    return;
                }
            }
        }
        self.last_source_tab_id = self.pick_source_tab_id();
    }

    /// The active tab's id if it is a source tab, else the first source tab's.
    pub(crate) fn pick_source_tab_id(&self) -> (r: Option<TabId>)
        ensures
            r == self.layout().pick_source(),
    {
        let from_active = match self.active_tab() {
            Some(tab) => if tab.is_persistable() {
                Some(tab.id)
            } else {
                None
            },
            None => None,
        };
        match from_active {
            Some(id) => Some(id),
            None => match self.first_source_tab() {
                Some(tab) => Some(tab.id),
                None => None,
            },
        }
    }

    /// Close a pane and collapse its parent split (nothing happens when it is
    /// the only pane).
    pub fn close_pane(&mut self, pane_id: PaneId)
        ensures
            final(self).layout() == old(self).layout().close_pane(pane_id),
            only_layout_changed(*old(self), *final(self)),
            old(self).inv() ==> final(self).inv(),
    {
        if self.editor_pane.all_pane_ids().len() <= 1 {
            return;
        }
        let mut pane = EditorPane::default();
        std::mem::swap(&mut pane, &mut self.editor_pane);
        self.editor_pane = EditorPane::collapse_pane(pane, pane_id);
        if !self.editor_pane.has_pane(self.focused_pane_id) {
            self.focused_pane_id = self.editor_pane.first_pane_id();
        }
        proof {
            if old(self).inv() {
                lemma_collapse_inv(old(self).layout(), pane_id);
            }
        }
        self.repair_last_source_tab();
    }

    /// Split a pane in `direction`: a new pane beside it gets a copy of its
    /// active tab (or a blank tab) and the focus.
    pub fn split_pane(&mut self, pane_id: PaneId, direction: SplitDirection)
        requires
            old(self).next_tab_id < u64::MAX,
            old(self).next_pane_id < u64::MAX,
        ensures
            final(self).layout() == old(self).layout().split(pane_id, direction),
            only_layout_changed(*old(self), *final(self)),
            old(self).inv() ==> final(self).inv(),
    {
        let next_id = self.next_tab_id;
        let cloned = match self.editor_pane.find_pane(pane_id) {
            None => {
                return;
            },
            Some(EditorPane::TabGroup { tabs, active_tab_idx, .. }) => {
                if *active_tab_idx < tabs.len() {
                    Some(tabs[*active_tab_idx].duplicate(next_id))
                } else {
                    None
                }
            },
            Some(EditorPane::Split { .. }) => {
                return;
            },
        };
        let new_tab = match cloned {
            Some(t) => t,
            None => EditorTab::new_blank(next_id),
        };
        let new_tab_id = new_tab.id;
        let new_tab_is_source = new_tab.is_persistable();
        proof {
            if old(self).inv() {
                lemma_split_inv(old(self).layout(), pane_id, direction, new_tab@);
            }
        }
        self.next_tab_id = self.next_tab_id + 1;
        let new_pane_id = self.next_pane_id;
        self.next_pane_id = self.next_pane_id + 1;
        let mut pane = EditorPane::default();
        std::mem::swap(&mut pane, &mut self.editor_pane);
        self.editor_pane = EditorPane::create_split_at(pane, pane_id, direction, new_tab, new_pane_id);
        self.focused_pane_id = new_pane_id;
        if new_tab_is_source {
            self.last_source_tab_id = Some(new_tab_id);
        }
    }

    /// Set the split ratio (in ten-thousandths, kept between 1000 and 9000) of
    /// the split whose first child starts with pane `pane_id`.
    pub fn set_split_ratio(&mut self, pane_id: PaneId, new_ratio: u32)
        ensures
            final(self).layout() == (Layout {
                pane: old(self).editor_pane@.with_ratio(pane_id, clamp_ratio(new_ratio)),
                ..old(self).layout()
            }),
            only_layout_changed(*old(self), *final(self)),
            old(self).inv() ==> final(self).inv(),
    {
        let ratio = if new_ratio < 1000 {
            1000
        } else if new_ratio > 9000 {
            9000
        } else {
            new_ratio
        };
        let mut pane = EditorPane::default();
        std::mem::swap(&mut pane, &mut self.editor_pane);
        proof {
            lemma_with_ratio(pane@, pane_id, ratio);
        }
        self.editor_pane = EditorPane::update_split_ratio(pane, pane_id, ratio);
    }
}


/// Removing an element keeps a sequence duplicate-free; what remains is exactly
/// the other elements.
pub proof fn lemma_remove_no_dup<A>(s: Seq<A>, k: int)
    requires
        s.no_duplicates(),
        0 <= k < s.len(),
    ensures
        s.remove(k).no_duplicates(),
        forall|x: A| #[trigger] s.remove(k).contains(x) <==> s.contains(x) && x != s[k],
{
    let r = s.remove(k);
    assert forall|i: int, j: int| 0 <= i < r.len() && 0 <= j < r.len() && i != j implies r[i] != r[j] by {
        let si = if i < k { i } else { i + 1 };
        let sj = if j < k { j } else { j + 1 };
        assert(r[i] == s[si]);
        assert(r[j] == s[sj]);
    }
    assert forall|x: A| #[trigger] r.contains(x) <==> s.contains(x) && x != s[k] by {
        if r.contains(x) {
            let i = choose|i: int| 0 <= i < r.len() && r[i] == x;
            let si = if i < k { i } else { i + 1 };
            assert(r[i] == s[si]);
        }
        if s.contains(x) && x != s[k] {
            let j = choose|j: int| 0 <= j < s.len() && s[j] == x;
            let rj = if j < k { j } else { j - 1 };
            assert(r[rj] == x);
        }
    }
}

/// Inserting an element that is not there keeps a sequence duplicate-free.
pub proof fn lemma_insert_no_dup<A>(s: Seq<A>, i: int, x: A)
    requires
        s.no_duplicates(),
        !s.contains(x),
        0 <= i <= s.len(),
    ensures
        s.insert(i, x).no_duplicates(),
        forall|y: A| #[trigger] s.insert(i, x).contains(y) <==> s.contains(y) || y == x,
{
    let r = s.insert(i, x);
    assert forall|a: int, b: int| 0 <= a < r.len() && 0 <= b < r.len() && a != b implies r[a] != r[b] by {
        if a != i && b != i {
            let sa = if a < i { a } else { a - 1 };
            let sb = if b < i { b } else { b - 1 };
            assert(r[a] == s[sa]);
            assert(r[b] == s[sb]);
        } else if a == i {
            let sb = if b < i { b } else { b - 1 };
            assert(r[b] == s[sb]);
        } else {
            let sa = if a < i { a } else { a - 1 };
            assert(r[a] == s[sa]);
        }
    }
    assert forall|y: A| #[trigger] r.contains(y) <==> s.contains(y) || y == x by {
        if r.contains(y) && y != x {
            let a = choose|a: int| 0 <= a < r.len() && r[a] == y;
            let sa = if a < i { a } else { a - 1 };
            assert(r[a] == s[sa]);
        }
        if s.contains(y) {
            let j = choose|j: int| 0 <= j < s.len() && s[j] == y;
            let rj = if j < i { j } else { j + 1 };
            assert(r[rj] == y);
        }
        if y == x {
            assert(r[i] == x);
        }
    }
}

/// The tab ids of a group are among the tab ids of the layout.
pub proof fn lemma_group_ids_in_layout(n: PaneNode, p: PaneId)
    requires
        n.group(p) is Some,
    ensures
        forall|x: TabId| #[trigger] ids_of(n.group(p).unwrap().0).contains(x) ==> ids_of(n.tabs()).contains(x),
{
    let (ts, a) = n.group(p).unwrap();
    lemma_with_group(n, p, ts, a);
    let b = n.tabs_before(p);
    let c = n.tabs_after(p);
    lemma_ids_of_concat(b, ts);
    lemma_ids_of_concat(b + ts, c);
    assert forall|x: TabId| #[trigger] ids_of(ts).contains(x) implies ids_of(n.tabs()).contains(x) by {
        let j = choose|j: int| 0 <= j < ids_of(ts).len() && ids_of(ts)[j] == x;
        assert(ids_of(n.tabs())[b.len() + j] == x);
    }
}

/// Removing the tab at `k` from group `p` keeps the invariant (with any valid
/// active index), and the layout then holds exactly the other tab ids.
pub proof fn lemma_remove_tab_inv(l: Layout, p: PaneId, k: int, na: usize)
    requires
        l.inv(),
        l.pane.group(p) matches Some((ts, _)) && 0 <= k < ts.len() && active_ok(ts.remove(k), na),
    ensures
        ({
            let ts = l.pane.group(p).unwrap().0;
            let l2 = Layout { pane: l.pane.with_group(p, ts.remove(k), na), ..l };
            &&& l2.inv()
            &&& forall|x: TabId| #[trigger] ids_of(l2.pane.tabs()).contains(x)
                <==> ids_of(l.pane.tabs()).contains(x) && x != ts[k].id
        }),
{
    let (ts, a) = l.pane.group(p).unwrap();
    let nts = ts.remove(k);
    lemma_group_ids_distinct(l.pane, p);
    assert(ids_of(nts) =~= ids_of(ts).remove(k));
    lemma_remove_no_dup(ids_of(ts), k);
    assert forall|i: int| 0 <= i < nts.len() implies ids_of(ts).contains(#[trigger] nts[i].id)
        || (l.next_tab_id <= nts[i].id < l.next_tab_id)
        || (!ids_of(l.pane.tabs()).contains(nts[i].id) && nts[i].id < l.next_tab_id) by {
        assert(ids_of(nts)[i] == nts[i].id);
        assert(ids_of(nts).contains(nts[i].id));
    }
    lemma_replace_group_inv(l, p, nts, na, l.next_tab_id);
    lemma_with_group(l.pane, p, nts, na);
    let b = l.pane.tabs_before(p);
    let c = l.pane.tabs_after(p);
    let n2 = l.pane.with_group(p, nts, na);
    lemma_ids_of_concat(b, ts);
    lemma_ids_of_concat(b + ts, c);
    lemma_ids_of_concat(b, nts);
    lemma_ids_of_concat(b + nts, c);
    crate::pane::lemma_no_dup_concat_parts(ids_of(b) + ids_of(ts), ids_of(c));
    crate::pane::lemma_no_dup_concat_parts(ids_of(b), ids_of(ts));
    assert(ids_of(ts)[k] == ts[k].id);
    assert(ids_of(ts).contains(ts[k].id));
    assert forall|x: TabId| #[trigger] ids_of(n2.tabs()).contains(x)
        <==> ids_of(l.pane.tabs()).contains(x) && x != ts[k].id by {
        vstd::seq_lib::lemma_seq_concat_contains_all_elements(ids_of(b) + ids_of(nts), ids_of(c), x);
        vstd::seq_lib::lemma_seq_concat_contains_all_elements(ids_of(b), ids_of(nts), x);
        vstd::seq_lib::lemma_seq_concat_contains_all_elements(ids_of(b) + ids_of(ts), ids_of(c), x);
        vstd::seq_lib::lemma_seq_concat_contains_all_elements(ids_of(b), ids_of(ts), x);
        vstd::seq_lib::lemma_seq_concat_contains_all_elements(ids_of(b), ids_of(ts), ts[k].id);
    }
}


/// Inserting into group `p` a tab whose id is not in the layout and is below
/// the next tab id keeps the invariant.
pub proof fn lemma_insert_tab_inv(l: Layout, p: PaneId, i: int, t: TabView, na: usize)
    requires
        l.inv(),
        !ids_of(l.pane.tabs()).contains(t.id),
        t.id < l.next_tab_id,
        l.pane.group(p) matches Some((ts, _)) && 0 <= i <= ts.len() && active_ok(ts.insert(i, t), na),
    ensures
        (Layout { pane: l.pane.with_group(p, l.pane.group(p).unwrap().0.insert(i, t), na), ..l }).inv(),
{
    let (ts, a) = l.pane.group(p).unwrap();
    let nts = ts.insert(i, t);
    lemma_group_ids_distinct(l.pane, p);
    lemma_group_ids_in_layout(l.pane, p);
    assert(ids_of(nts) =~= ids_of(ts).insert(i, t.id));
    lemma_insert_no_dup(ids_of(ts), i, t.id);
    assert forall|j: int| 0 <= j < nts.len() implies ids_of(ts).contains(#[trigger] nts[j].id)
        || (l.next_tab_id <= nts[j].id < l.next_tab_id)
        || (!ids_of(l.pane.tabs()).contains(nts[j].id) && nts[j].id < l.next_tab_id) by {
        assert(ids_of(nts)[j] == nts[j].id);
        assert(ids_of(nts).contains(nts[j].id));
    }
    lemma_replace_group_inv(l, p, nts, na, l.next_tab_id);
}

/// Moving the tab at `o` of group `p` to position `i` (counted after its
/// removal) keeps the invariant.
pub proof fn lemma_reorder_inv(l: Layout, p: PaneId, o: int, i: int, na: usize)
    requires
        l.inv(),
        l.pane.group(p) matches Some((ts, _)) && 0 <= o < ts.len() && 0 <= i < ts.len() && na < ts.len(),
    ensures
        ({
            let ts = l.pane.group(p).unwrap().0;
            (Layout { pane: l.pane.with_group(p, ts.remove(o).insert(i, ts[o]), na), ..l }).inv()
        }),
{
    let (ts, a) = l.pane.group(p).unwrap();
    let nts = ts.remove(o).insert(i, ts[o]);
    lemma_group_ids_distinct(l.pane, p);
    assert(ids_of(ts.remove(o)) =~= ids_of(ts).remove(o));
    assert(ids_of(nts) =~= ids_of(ts).remove(o).insert(i, ts[o].id));
    assert(ids_of(ts)[o] == ts[o].id);
    lemma_remove_no_dup(ids_of(ts), o);
    lemma_insert_no_dup(ids_of(ts).remove(o), i, ts[o].id);
    assert forall|j: int| 0 <= j < nts.len() implies ids_of(ts).contains(#[trigger] nts[j].id)
        || (l.next_tab_id <= nts[j].id < l.next_tab_id)
        || (!ids_of(l.pane.tabs()).contains(nts[j].id) && nts[j].id < l.next_tab_id) by {
        assert(ids_of(nts)[j] == nts[j].id);
        assert(ids_of(nts).contains(nts[j].id));
        assert(ids_of(ts).contains(ts[o].id));
    }
    lemma_replace_group_inv(l, p, nts, na, l.next_tab_id);
}


/// The active index after closing the tab at `k` of a group whose active index
/// was `a`, leaving `len` tabs.
pub open spec fn active_after_close(a: usize, k: nat, len: nat) -> usize {
    if len == 0 {
        0
    } else if a >= len {
        (len - 1) as usize
    } else if a > k {
        (a - 1) as usize
    } else {
        a
    }
}

/// The active index of a group that a tab at `k` was moved out of, leaving `len` tabs.
pub open spec fn active_after_take(a: usize, k: nat, len: nat) -> usize {
    if a >= len && len > 0 {
        (len - 1) as usize
    } else if a > k && a > 0 {
        (a - 1) as usize
    } else {
        a
    }
}

/// Where a tab moved from `o` to `n` is inserted once removed, among `len` tabs.
pub open spec fn reinsert_index(o: usize, n: usize, len: nat) -> usize {
    let want: int = if n > o { n - 1 } else { n as int };
    if want < len { want as usize } else { len as usize }
}

/// The active index after moving the tab at `o` to `ins` in a group of `len` tabs.
pub open spec fn active_after_reorder(a: usize, o: usize, ins: usize, len: nat) -> usize {
    if a == o {
        ins
    } else if o < a && ins >= a {
        (a - 1) as usize
    } else if o > a && ins <= a {
        if a + 1 < len { (a + 1) as usize } else { (len - 1) as usize }
    } else {
        a
    }
}

impl Layout {
    /// Closing tab `t` of pane `p`: a split pane whose only tab it is closes;
    /// otherwise the tab leaves the group. The last source tab is repaired when
    /// it was `t`.
    pub open spec fn close_tab(self, p: PaneId, t: TabId) -> Layout {
        let l1 = match self.pane.group(p) {
            Some((ts, a)) => if ts.len() == 1 && index_of_tab(ts, t) is Some && !(self.pane is Group) {
                self.close_pane(p)
            } else {
                match index_of_tab(ts, t) {
                    Some(k) => {
                        let nts = ts.remove(k as int);
                        Layout { pane: self.pane.with_group(p, nts, active_after_close(a, k, nts.len())), ..self }
                    },
                    None => self,
                }
            },
            None => self,
        };
        if self.last_source == Some(t) {
            l1.repair()
        } else {
            l1
        }
    }

    /// Moving the tab at `o` of pane `p` to index `n` (nothing happens when
    /// `o == n` or either is out of range).
    pub open spec fn reorder(self, p: PaneId, o: usize, n: usize) -> Layout {
        if o == n {
            self
        } else {
            match self.pane.group(p) {
                Some((ts, a)) => if o >= ts.len() || n > ts.len() {
                    self
                } else {
                    let rest = ts.remove(o as int);
                    let ins = reinsert_index(o, n, rest.len());
                    let nts = rest.insert(ins as int, ts[o as int]);
                    Layout { pane: self.pane.with_group(p, nts, active_after_reorder(a, o, ins, nts.len())), ..self }
                },
                None => self,
            }
        }
    }

    /// Moving tab `t` to pane `target` at index `ti`: within its own pane this
    /// is a reorder; otherwise it leaves its pane, is inserted (and made active)
    /// in `target` when that pane exists, `target` takes the focus, and a split
    /// pane left empty closes.
    pub open spec fn move_tab(self, t: TabId, target: PaneId, ti: usize) -> Layout {
        match pane_of_tab(self.pane, t) {
            None => self,
            Some(src) => match self.pane.group(src) {
                None => self,
                Some((ts, a)) => match index_of_tab(ts, t) {
                    None => self,
                    Some(k) => if src == target {
                        self.reorder(src, k as usize, ti)
                    } else {
                        let tab = ts[k as int];
                        let rest = ts.remove(k as int);
                        let p1 = self.pane.with_group(src, rest, active_after_take(a, k, rest.len()));
                        let p2 = insert_into(p1, target, ti, tab);
                        let l2 = Layout {
                            pane: p2,
                            focused: target,
                            last_source: if tab.persistable() { Some(tab.id) } else { self.last_source },
                            ..self
                        };
                        if rest.len() == 0 && !(p1 is Group) {
                            l2.close_pane(src)
                        } else {
                            l2
                        }
                    },
                },
            },
        }
    }
}

impl AppState {

    /// The state after stopping the preview when `tab_id` is the Preview tab.
    pub open spec fn stopped_for_close(self, tab_id: TabId) -> AppState {
        if tab_with_id(self.editor_pane@, tab_id) matches Some(v) && v.kind == TabKind::Preview {
            AppState { is_previewing: false, ..self }
        } else {
            self
        }
    }

    /// Request closing a tab: closing the Preview tab stops the preview first
    /// (the caller also stops its process); a tab with unsaved changes then
    /// waits for confirmation, any other tab closes at once.
    pub fn request_close_tab(&mut self, pane_id: PaneId, tab_id: TabId) -> (r: CloseRequest)
        ensures
            r.stop_preview == (tab_with_id(old(self).editor_pane@, tab_id) matches Some(v) && v.kind == TabKind::Preview),
            if tab_with_id(old(self).editor_pane@, tab_id) matches Some(v) && v.is_dirty {
                &&& r.pending == Some(PendingCloseTab { pane_id, tab_id })
                &&& *final(self) == old(self).stopped_for_close(tab_id)
            } else {
                &&& r.pending is None
                &&& final(self).layout() == old(self).layout().close_tab(pane_id, tab_id)
                &&& only_layout_changed(old(self).stopped_for_close(tab_id), *final(self))
            },
            old(self).inv() ==> final(self).inv(),
    {
        let (is_dirty, is_preview) = match self.editor_pane.find_tab(tab_id) {
            Some(t) => (t.is_dirty, t.is_preview()),
            None => (false, false),
        };
        if is_preview {
            self.stop_preview();
        }
        if is_dirty {
            CloseRequest { stop_preview: is_preview, pending: Some(PendingCloseTab { pane_id, tab_id }) }
        } else {
            self.close_tab_in_pane(pane_id, tab_id);
            CloseRequest { stop_preview: is_preview, pending: None }
        }
    }

    /// Close tab `tab_id` of pane `pane_id`. Closing the last tab of a split
    /// pane closes the pane; closing the last tab of the only pane leaves it
    /// empty (the welcome screen). Always returns `true`.
    pub fn close_tab_in_pane(&mut self, pane_id: PaneId, tab_id: TabId) -> (r: bool)
        ensures
            r,
            final(self).layout() == old(self).layout().close_tab(pane_id, tab_id),
            only_layout_changed(*old(self), *final(self)),
            old(self).inv() ==> final(self).inv(),
    {
        let closing_last_source = match self.last_source_tab_id {
            Some(id) => id == tab_id,
            None => false,
        };
        let is_last_tab = match self.editor_pane.find_pane(pane_id) {
            Some(EditorPane::TabGroup { tabs, .. }) => tabs.len() == 1 && position_of_tab(tabs, tab_id).is_some(),
            _ => false,
        };
        let is_root = self.editor_pane.is_single_pane();
        if is_last_tab && !is_root {
            self.close_pane(pane_id);
        } else {
            let ghost before = self.editor_pane@;
            if let Some((mut tabs, active)) = self.editor_pane.take_group(pane_id) {
                let ghost t0 = tabs@;
                match position_of_tab(&tabs, tab_id) {
                    Some(idx) => {
                        proof {
                            lemma_index_of_tab_bound(tab_views(t0), tab_id);
                        }
                        tabs.remove(idx);
                        assert(tab_views(tabs@) =~= tab_views(t0).remove(idx as int));
                        let na = if tabs.len() == 0 {
                            0
                        } else if active >= tabs.len() {
                            tabs.len() - 1
                        } else if active > idx {
                            active - 1
                        } else {
                            active
                        };
                        proof {
                            lemma_with_group_twice(before, pane_id, Seq::empty(), 0, tab_views(tabs@), na);
                            lemma_index_of_tab_bound(tab_views(t0), tab_id);
                            if old(self).inv() {
                                lemma_group_active_ok(before, pane_id);
                                lemma_remove_tab_inv(old(self).layout(), pane_id, idx as int, na);
                            }
                        }
                        self.editor_pane.put_group(pane_id, tabs, na);
                    },
                    None => {
                        proof {
                            lemma_with_group_twice(before, pane_id, Seq::empty(), 0, tab_views(tabs@), active);
                            lemma_with_group_self(before, pane_id);
                        }
                        self.editor_pane.put_group(pane_id, tabs, active);
                    },
                }
            }
        }
        if closing_last_source {
            self.repair_last_source_tab();
        }
        true
    }

    /// Reorder the tabs of a pane: the tab at `old_index` moves to `new_index`
    /// and the active tab follows its tab.
    #[verifier::rlimit(40)]
    pub fn reorder_tab(&mut self, pane_id: PaneId, old_index: usize, new_index: usize)
        ensures
            final(self).layout() == old(self).layout().reorder(pane_id, old_index, new_index),
            only_layout_changed(*old(self), *final(self)),
            old(self).inv() ==> final(self).inv(),
    {
        if old_index == new_index {
            return;
        }
        let ghost before = self.editor_pane@;
        if let Some((mut tabs, active)) = self.editor_pane.take_group(pane_id) {
            if old_index >= tabs.len() || new_index > tabs.len() {
                proof {
                    lemma_with_group_twice(before, pane_id, Seq::empty(), 0, tab_views(tabs@), active);
                    lemma_with_group_self(before, pane_id);
                }
                self.editor_pane.put_group(pane_id, tabs, active);
                return;
            }
            let ghost t0 = tabs@;
            let tab = tabs.remove(old_index);
            let insert_idx = if new_index > old_index {
                if new_index - 1 < tabs.len() { new_index - 1 } else { tabs.len() }
            } else {
                if new_index < tabs.len() { new_index } else { tabs.len() }
            };
            tabs.insert(insert_idx, tab);
            assert(tab_views(tabs@) =~= tab_views(t0).remove(old_index as int).insert(insert_idx as int, tab_views(t0)[old_index as int]));
            let na = if active == old_index {
                insert_idx
            } else if old_index < active && insert_idx >= active {
                active - 1
            } else if old_index > active && insert_idx <= active {
                if active + 1 < tabs.len() { active + 1 } else { tabs.len() - 1 }
            } else {
                active
            };
            proof {
                lemma_with_group_twice(before, pane_id, Seq::empty(), 0, tab_views(tabs@), na);
                if old(self).inv() {
                    lemma_group_active_ok(before, pane_id);
                    lemma_reorder_inv(old(self).layout(), pane_id, old_index as int, insert_idx as int, na);
                }
            }
            self.editor_pane.put_group(pane_id, tabs, na);
        }
    }
}


/// `n` with `tab` inserted into group `p` at `ti` (at the end when `ti` is past
/// it) as its active tab; `n` itself when there is no such group.
pub open spec fn insert_into(n: PaneNode, p: PaneId, ti: usize, tab: TabView) -> PaneNode {
    match n.group(p) {
        Some((tts, _)) => {
            let ins: usize = if ti < tts.len() { ti } else { tts.len() as usize };
            n.with_group(p, tts.insert(ins as int, tab), ins)
        },
        None => n,
    }
}

/// Taking the tab at `k` out of group `src` and inserting it into another group
/// keeps the invariant.
pub proof fn lemma_move_inv(l: Layout, src: PaneId, k: int, target: PaneId, ti: usize)
    requires
        l.inv(),
        l.pane.group(src) matches Some((ts, _)) && 0 <= k < ts.len(),
    ensures
        ({
            let (ts, a) = l.pane.group(src).unwrap();
            let p1 = l.pane.with_group(src, ts.remove(k), active_after_take(a, k as nat, (ts.len() - 1) as nat));
            (Layout { pane: insert_into(p1, target, ti, ts[k]), ..l }).inv()
        }),
{
    let (ts, a) = l.pane.group(src).unwrap();
    let na = active_after_take(a, k as nat, (ts.len() - 1) as nat);
    lemma_group_active_ok(l.pane, src);
    lemma_remove_tab_inv(l, src, k, na);
    let l1 = Layout { pane: l.pane.with_group(src, ts.remove(k), na), ..l };
    lemma_group_ids_in_layout(l.pane, src);
    assert(ids_of(ts)[k] == ts[k].id);
    assert(ids_of(ts).contains(ts[k].id));
    assert(ids_of(l.pane.tabs()).contains(ts[k].id));
    let j = choose|j: int| 0 <= j < ids_of(l.pane.tabs()).len() && ids_of(l.pane.tabs())[j] == ts[k].id;
    assert(l.pane.tabs()[j].id < l.next_tab_id);
    if let Some((tts, _)) = l1.pane.group(target) {
        let ins: usize = if ti < tts.len() { ti } else { tts.len() as usize };
        lemma_insert_tab_inv(l1, target, ins as int, ts[k], ins);
    }
}

impl AppState {
    /// Take tab `tab_id` out of pane `pane_id`; returns it and whether the pane
    /// is left empty.
    fn take_tab(&mut self, pane_id: PaneId, tab_id: TabId) -> (r: Option<(EditorTab, bool)>)
        ensures
            only_layout_changed(*old(self), *final(self)),
            final(self).layout() == (Layout { pane: final(self).editor_pane@, ..old(self).layout() }),
            match old(self).editor_pane@.group(pane_id) {
                Some((ts, a)) => match index_of_tab(ts, tab_id) {
                    Some(k) => r matches Some((t, empty)) && t@ == ts[k as int] && empty == (ts.len() == 1)
                        && k < ts.len()
                        && final(self).editor_pane@ == old(self).editor_pane@.with_group(
                            pane_id,
                            ts.remove(k as int),
                            active_after_take(a, k, (ts.len() - 1) as nat),
                        ),
                    None => r is None && final(self).editor_pane@ == old(self).editor_pane@,
                },
                None => r is None && final(self).editor_pane@ == old(self).editor_pane@,
            },
    {
        let ghost before = self.editor_pane@;
        let (mut tabs, active) = match self.editor_pane.take_group(pane_id) {
            Some(g) => g,
            None => {
                return None;
            },
        };
        let ghost t0 = tabs@;
        proof {
            lemma_index_of_tab_bound(tab_views(t0), tab_id);
        }
        match position_of_tab(&tabs, tab_id) {
            Some(idx) => {
                let tab = tabs.remove(idx);
                assert(tab_views(tabs@) =~= tab_views(t0).remove(idx as int));
                let na = if active >= tabs.len() && tabs.len() > 0 {
                    tabs.len() - 1
                } else if active > idx && active > 0 {
                    active - 1
                } else {
                    active
                };
                let empty = tabs.len() == 0;
                proof {
                    lemma_with_group_twice(before, pane_id, Seq::empty(), 0, tab_views(tabs@), na);
                }
                self.editor_pane.put_group(pane_id, tabs, na);
                Some((tab, empty))
            },
            None => {
                proof {
                    lemma_with_group_twice(before, pane_id, Seq::empty(), 0, tab_views(tabs@), active);
                    lemma_with_group_self(before, pane_id);
                }
                self.editor_pane.put_group(pane_id, tabs, active);
                None
            },
        }
    }

    /// Insert `tab` into pane `pane_id` at `index` (at the end when past it) as
    /// its active tab; the tab is dropped when there is no such pane.
    fn insert_tab(&mut self, pane_id: PaneId, index: usize, tab: EditorTab)
        ensures
            only_layout_changed(*old(self), *final(self)),
            final(self).layout() == (Layout { pane: insert_into(old(self).editor_pane@, pane_id, index, tab@), ..old(self).layout() }),
    {
        let ghost before = self.editor_pane@;
        if let Some((mut tts, _)) = self.editor_pane.take_group(pane_id) {
            let ins = if index < tts.len() { index } else { tts.len() };
            let ghost tt0 = tts@;
            tts.insert(ins, tab);
            assert(tab_views(tts@) =~= tab_views(tt0).insert(ins as int, tab@));
            proof {
                lemma_with_group_twice(before, pane_id, Seq::empty(), 0, tab_views(tts@), ins);
            }
            self.editor_pane.put_group(pane_id, tts, ins);
        }
    }

    /// Move a tab to a target pane at a specific index (see `Layout::move_tab`).
    pub fn move_tab(&mut self, tab_id: TabId, target_pane_id: PaneId, target_index: usize)
        ensures
            final(self).layout() == old(self).layout().move_tab(tab_id, target_pane_id, target_index),
            only_layout_changed(*old(self), *final(self)),
            old(self).inv() ==> final(self).inv(),
    {
        let source_pane_id = match self.editor_pane.find_pane_containing_tab(tab_id) {
            Some(p) => p,
            None => {
                return;
            },
        };
        if source_pane_id == target_pane_id {
            let old_idx = match self.editor_pane.find_pane(source_pane_id) {
                Some(EditorPane::TabGroup { tabs, .. }) => position_of_tab(tabs, tab_id),
                _ => None,
            };
            if let Some(o) = old_idx {
                self.reorder_tab(source_pane_id, o, target_index);
            }
            return;
        }
        let ghost l0 = self.layout();
        let (tab, source_empty) = match self.take_tab(source_pane_id, tab_id) {
            Some(x) => x,
            None => {
                return;
            },
        };
        proof {
            if l0.inv() {
                let (ts, a) = l0.pane.group(source_pane_id).unwrap();
                let k = index_of_tab(ts, tab_id).unwrap();
                lemma_move_inv(l0, source_pane_id, k as int, target_pane_id, target_index);
            }
        }
        let is_root = self.editor_pane.is_single_pane();
        let moved_is_source = tab.is_persistable();
        let moved_id = tab.id;
        self.insert_tab(target_pane_id, target_index, tab);
        self.focused_pane_id = target_pane_id;
        if moved_is_source {
            self.last_source_tab_id = Some(moved_id);
        }
        if source_empty && !is_root {
            self.close_pane(source_pane_id);
        }
    }
}


impl Layout {
    /// Closing the tabs `targets` (pane, tab) one after the other.
    pub open spec fn close_all(self, targets: Seq<(PaneId, TabId)>) -> Layout
        decreases targets.len(),
    {
        if targets.len() == 0 {
            self
        } else {
            let (p, t) = targets.last();
            self.close_all(targets.drop_last()).close_tab(p, t)
        }
    }
}

impl AppState {
    /// Close every tab showing a deleted file (`is_dir` false: the path itself)
    /// or a path inside a deleted folder (`is_dir` true), in layout order.
    pub fn close_tabs_for_deleted_path(&mut self, deleted_path: &str, is_dir: bool)
        ensures
            final(self).layout() == old(self).layout().close_all(deleted_tabs(old(self).editor_pane@, deleted_path@, is_dir)),
            only_layout_changed(*old(self), *final(self)),
            old(self).inv() ==> final(self).inv(),
    {
        let mut targets: Vec<(PaneId, TabId)> = Vec::new();
        self.editor_pane.collect_deleted(deleted_path, is_dir, &mut targets);
        assert(targets@ =~= deleted_tabs(self.editor_pane@, deleted_path@, is_dir));
        let ghost s0 = *self;
        let ghost l0 = self.layout();
        let mut i: usize = 0;
        proof {
            assert(targets@.take(0) =~= Seq::<(PaneId, TabId)>::empty());
        }
        while i < targets.len()
            invariant
                0 <= i <= targets@.len(),
                self.layout() == l0.close_all(targets@.take(i as int)),
                only_layout_changed(s0, *self),
                l0.inv() ==> self.inv(),
            decreases targets@.len() - i,
        {
            proof {
                assert(targets@.take(i as int + 1).drop_last() =~= targets@.take(i as int));
                assert(targets@.take(i as int + 1).last() == targets@[i as int]);
            }
            let (pane_id, tab_id) = targets[i];
            self.close_tab_in_pane(pane_id, tab_id);
            i = i + 1;
        }
        proof {
            assert(targets@.take(targets@.len() as int) =~= targets@);
        }
    }
}


impl Layout {
    /// The source tab Preview/Export operate on: the active tab when it is a
    /// source tab, else the last source tab when it is still open, else the
    /// first source tab.
    pub open spec fn source(self) -> Option<TabView> {
        let fallback = match self.last_source {
            Some(id) => match tab_with_id(self.pane, id) {
                Some(v) => if v.persistable() {
                    Some(v)
                } else {
                    first_source(self.pane.tabs())
                },
                None => first_source(self.pane.tabs()),
            },
            None => first_source(self.pane.tabs()),
        };
        match self.active() {
            Some(t) => if t.persistable() {
                Some(t)
            } else {
                fallback
            },
            None => fallback,
        }
    }

    /// The snapshot Preview/Export fall back on when no source tab is open:
    /// the active tab when it is a non-blank tool snapshot, else the first one.
    pub open spec fn snapshot(self) -> Option<TabView> {
        match self.active() {
            Some(t) => if is_snapshot(t) {
                Some(t)
            } else {
                first_snapshot(self.pane.tabs())
            },
            None => first_snapshot(self.pane.tabs()),
        }
    }

    /// The code Preview/Export run: the source tab's, else the snapshot's,
    /// else empty.
    pub open spec fn source_code(self) -> Seq<char> {
        match self.source() {
            Some(t) => t.content,
            None => match self.snapshot() {
                Some(t) => t.content,
                None => Seq::empty(),
            },
        }
    }

    /// The active tab's content replaced by `code`.
    pub open spec fn set_active_content(self, code: Seq<char>) -> Layout {
        match self.active() {
            Some(t) => self.with_active(TabView { content: code, ..t }),
            None => self,
        }
    }

    /// Opening the tool tab of `kind` showing `code`: focus the existing one and
    /// refresh its content, or add a new one to the focused pane.
    pub open spec fn open_tool(self, kind: TabKind, code: Seq<char>) -> Layout {
        match tab_of_kind(self.pane, kind) {
            Some((p, t)) => Layout { focused: p, ..self }.switch_to(t).set_active_content(code),
            None => self.add_tab(self.focused, new_tab_view(self.next_tab_id, kind, None, code, false)),
        }
    }
}

impl AppState {
    /// The source tab Preview/Export should use (see `Layout::source`).
    fn source_tab(&self) -> (r: Option<&EditorTab>)
        ensures
            r matches Some(t) ==> self.layout().source() == Some(t@),
            r is None ==> self.layout().source() is None,
    {
        if let Some(tab) = self.active_tab() {
            if tab.is_persistable() {
                return Some(tab);
            }
        }
        if let Some(tab_id) = self.last_source_tab_id {
            if let Some(tab) = self.editor_pane.find_tab(tab_id) {
                if tab.is_persistable() {
                    return Some(tab);
                }
            }
        }
        self.first_source_tab()
    }

    /// A Preview/Export snapshot to run when no source tab remains open (see
    /// `Layout::snapshot`).
    fn tool_snapshot_tab(&self) -> (r: Option<&EditorTab>)
        ensures
            r matches Some(t) ==> self.layout().snapshot() == Some(t@),
            r is None ==> self.layout().snapshot() is None,
    {
        if let Some(tab) = self.active_tab() {
            if (tab.is_preview() || tab.is_export()) && !is_blank(tab.content.as_str()) {
                return Some(tab);
            }
        }
        self.first_snapshot_tab()
    }

    /// The source code Preview/Export should operate on.
    pub fn source_code(&self) -> (r: String)
        ensures
            r@ == self.layout().source_code(),
    {
        match self.source_tab() {
            Some(tab) => tab.content.clone(),
            None => match self.tool_snapshot_tab() {
                Some(tab) => tab.content.clone(),
                None => String::new(),
            },
        }
    }

    /// The file path of the source script used by Preview/Export.
    pub fn source_file(&self) -> (r: Option<String>)
        ensures
            crate::editor::opt_view(r) == (match self.layout().source() {
                Some(t) => t.path,
                None => None,
            }),
    {
        match self.source_tab() {
            Some(tab) => match &tab.path {
                Some(p) => Some(p.clone()),
                None => None,
            },
            None => None,
        }
    }

    /// Replace the content of the active tab (nothing happens without one).
    fn set_active_content(&mut self, code: String)
        ensures
            final(self).layout() == old(self).layout().set_active_content(code@),
            only_layout_changed(*old(self), *final(self)),
            old(self).inv() ==> final(self).inv(),
    {
        let ghost n0 = self.editor_pane@;
        let ghost f = self.focused_pane_id;
        if let Some((rest, idx, mut tab)) = self.take_active_tab() {
            tab.content = code;
            proof {
                lemma_take_restore(n0, f, tab@);
                if old(self).inv() {
                    lemma_with_active_inv(old(self).layout(), tab@);
                }
            }
            self.restore_active_tab(rest, idx, tab);
        }
    }

    /// Open the tool tab of `kind` (Preview or Export) on the current source
    /// code (see `Layout::open_tool`).
    fn open_tool_tab(&mut self, kind: TabKind)
        requires
            kind == TabKind::Preview || kind == TabKind::Export,
            old(self).next_tab_id < u64::MAX,
        ensures
            final(self).layout() == old(self).layout().open_tool(kind, old(self).layout().source_code()),
            only_layout_changed(*old(self), *final(self)),
            old(self).inv() ==> final(self).inv(),
    {
        let source_code = self.source_code();
        if let Some((pane_id, tab_id)) = self.editor_pane.find_tab_of_kind(kind) {
            self.focused_pane_id = pane_id;
            self.switch_to_tab(tab_id);
            self.set_active_content(source_code);
            return;
        }
        let next_id = self.next_tab_id;
        let tab = match kind {
            TabKind::Preview => EditorTab::new_preview(next_id, source_code),
            _ => EditorTab::new_export(next_id, source_code),
        };
        let focused = self.focused_pane_id;
        self.add_tab(focused, tab);
    }

    /// Open the Preview tab on the current source code (a singleton: the
    /// existing one is focused and refreshed).
    pub fn open_preview_tab(&mut self)
        requires
            old(self).next_tab_id < u64::MAX,
        ensures
            final(self).layout() == old(self).layout().open_tool(TabKind::Preview, old(self).layout().source_code()),
            only_layout_changed(*old(self), *final(self)),
            old(self).inv() ==> final(self).inv(),
    {
        self.open_tool_tab(TabKind::Preview);
    }

    /// Open the Export tab on the current source code (a singleton: the
    /// existing one is focused and refreshed).
    pub fn open_export_tab(&mut self)
        requires
            old(self).next_tab_id < u64::MAX,
        ensures
            final(self).layout() == old(self).layout().open_tool(TabKind::Export, old(self).layout().source_code()),
            only_layout_changed(*old(self), *final(self)),
            old(self).inv() ==> final(self).inv(),
    {
        self.open_tool_tab(TabKind::Export);
    }
}


/// Every layout has a pane.
pub proof fn lemma_pane_ids_nonempty(n: PaneNode)
    ensures
        n.pane_ids().len() >= 1,
        n is Split ==> n.pane_ids().len() >= 2,
    decreases n,
{
    match n {
        PaneNode::Group { .. } => {},
        PaneNode::Split { first, second, .. } => {
            lemma_pane_ids_nonempty(*first);
            lemma_pane_ids_nonempty(*second);
        },
    }
}

/// Switching to an open tab focuses the pane holding it and makes it that
/// pane's active tab (for a layout whose tabs can be counted in a `usize`, as
/// any layout held in memory).
pub proof fn lemma_switch_activates(l: Layout, t: TabId)
    requires
        l.inv(),
        pane_of_tab(l.pane, t) is Some,
        l.pane.tabs().len() <= usize::MAX,
    ensures
        l.switch_to(t).focused == pane_of_tab(l.pane, t).unwrap(),
        l.switch_to(t).active() matches Some(v) && v.id == t,
{
    let p = pane_of_tab(l.pane, t).unwrap();
    lemma_pane_of_tab_group(l.pane, t);
    let (ts, a) = l.pane.group(p).unwrap();
    let k = index_of_tab(ts, t).unwrap();
    lemma_index_of_tab_bound(ts, t);
    lemma_with_group(l.pane, p, ts, a);
    assert(ts.len() <= l.pane.tabs().len());
    lemma_with_group(l.pane, p, ts, k as usize);
}

/// Closing an open tab keeps the invariant and leaves exactly the other tabs
/// open (a split pane whose last tab it was closes with it).
pub proof fn lemma_close_tab_removes(l: Layout, p: PaneId, t: TabId)
    requires
        l.inv(),
        l.pane.group(p) matches Some((ts, _)) && index_of_tab(ts, t) is Some,
    ensures
        l.close_tab(p, t).inv(),
        forall|x: TabId| #[trigger] ids_of(l.close_tab(p, t).pane.tabs()).contains(x)
            <==> ids_of(l.pane.tabs()).contains(x) && x != t,
{
    let (ts, a) = l.pane.group(p).unwrap();
    let k = index_of_tab(ts, t).unwrap();
    lemma_index_of_tab_bound(ts, t);
    lemma_group_active_ok(l.pane, p);
    if ts.len() == 1 && !(l.pane is Group) {
        lemma_pane_ids_nonempty(l.pane);
        lemma_collapse_tabs(l.pane, p);
        lemma_collapse_inv(l, p);
        lemma_with_group(l.pane, p, ts, a);
        let b = l.pane.tabs_before(p);
        let c = l.pane.tabs_after(p);
        lemma_ids_of_concat(b, ts);
        lemma_ids_of_concat(b + ts, c);
        lemma_ids_of_concat(b, c);
        assert(ids_of(ts) =~= seq![t]);
        crate::pane::lemma_no_dup_concat_parts(ids_of(b) + ids_of(ts), ids_of(c));
        crate::pane::lemma_no_dup_concat_parts(ids_of(b), ids_of(ts));
        assert(ids_of(ts).contains(t)) by {
            assert(ids_of(ts)[0] == t);
        }
        assert forall|x: TabId| #[trigger] ids_of(l.close_tab(p, t).pane.tabs()).contains(x)
            <==> ids_of(l.pane.tabs()).contains(x) && x != t by {
            vstd::seq_lib::lemma_seq_concat_contains_all_elements(ids_of(b), ids_of(c), x);
            vstd::seq_lib::lemma_seq_concat_contains_all_elements(ids_of(b) + ids_of(ts), ids_of(c), x);
            vstd::seq_lib::lemma_seq_concat_contains_all_elements(ids_of(b), ids_of(ts), x);
            if ids_of(ts).contains(x) {
                let j = choose|j: int| 0 <= j < ids_of(ts).len() && ids_of(ts)[j] == x;
                assert(j == 0);
            }
        }
    } else {
        let na = active_after_close(a, k, (ts.len() - 1) as nat);
        lemma_remove_tab_inv(l, p, k as int, na);
    }
}

/// Closing a tab that pane `p` holds removes exactly that tab from the
/// layout's tabs; every other pane keeps the tabs it holds. Closing a tab
/// that `p` does not hold leaves the panes as they are.
proof fn lemma_close_tab_panes(l: Layout, p: PaneId, t: TabId)
    requires
        l.inv(),
    ensures
        !holds(l.pane, p, t) ==> l.close_tab(p, t).pane == l.pane,
        holds(l.pane, p, t) ==> exists|k: int| 0 <= k < l.pane.tabs().len() && l.pane.tabs()[k].id == t
            && #[trigger] l.close_tab(p, t).pane.tabs() == l.pane.tabs().remove(k),
        forall|q: PaneId, x: TabId| holds(l.pane, p, t) && x != t && #[trigger] holds(l.pane, q, x) ==> holds(l.close_tab(p, t).pane, q, x),
{
    if holds(l.pane, p, t) {
        let (ts, a) = l.pane.group(p).unwrap();
        let k = index_of_tab(ts, t).unwrap();
        lemma_index_of_tab_bound(ts, t);
        lemma_with_group(l.pane, p, ts, a);
        let b = l.pane.tabs_before(p);
        let c = l.pane.tabs_after(p);
        let kk = (b.len() + k) as int;
        assert(l.pane.tabs()[kk] == ts[k as int]);
        if ts.len() == 1 && !(l.pane is Group) {
            lemma_pane_ids_nonempty(l.pane);
            lemma_collapse_tabs(l.pane, p);
            assert(k == 0);
            assert(l.close_tab(p, t).pane.tabs() =~= l.pane.tabs().remove(kk));
            assert forall|q: PaneId, x: TabId| x != t && #[trigger] holds(l.pane, q, x) implies holds(l.close_tab(p, t).pane, q, x) by {
                if q == p {
                    lemma_index_of_tab_bound(ts, x);
                } else {
                    crate::pane::lemma_collapse_keeps_groups(l.pane, p, q);
                }
            }
        } else {
            let nts = ts.remove(k as int);
            let na = active_after_close(a, k, nts.len());
            lemma_with_group(l.pane, p, nts, na);
            assert(l.close_tab(p, t).pane.tabs() =~= l.pane.tabs().remove(kk));
            assert forall|q: PaneId, x: TabId| x != t && #[trigger] holds(l.pane, q, x) implies holds(l.close_tab(p, t).pane, q, x) by {
                if q == p {
                    crate::pane::lemma_index_of_tab_remove(ts, k as int, x);
                }
            }
        }
    }
}

/// The tab ids of a list of (pane, tab) pairs.
pub open spec fn target_ids(targets: Seq<(PaneId, TabId)>) -> Seq<TabId> {
    targets.map_values(|e: (PaneId, TabId)| e.1)
}

/// Closing a list of tabs, each held by its pane: the invariant holds, every
/// tab left was there before, the tabs left are exactly those not listed, and
/// every pane still holds its unlisted tabs.
proof fn lemma_close_all(l: Layout, targets: Seq<(PaneId, TabId)>)
    requires
        l.inv(),
        forall|j: int| 0 <= j < targets.len() ==> holds(l.pane, (#[trigger] targets[j]).0, targets[j].1),
    ensures
        l.close_all(targets).inv(),
        forall|v: TabView| l.close_all(targets).pane.tabs().contains(v) ==> #[trigger] l.pane.tabs().contains(v),
        forall|x: TabId| #[trigger] ids_of(l.close_all(targets).pane.tabs()).contains(x)
            <==> ids_of(l.pane.tabs()).contains(x) && !target_ids(targets).contains(x),
        forall|q: PaneId, x: TabId| #[trigger] holds(l.pane, q, x) && !target_ids(targets).contains(x)
            ==> holds(l.close_all(targets).pane, q, x),
    decreases targets.len(),
{
    if targets.len() > 0 {
        let d = targets.drop_last();
        assert forall|j: int| 0 <= j < d.len() implies holds(l.pane, (#[trigger] d[j]).0, d[j].1) by {
            assert(d[j] == targets[j]);
        }
        lemma_close_all(l, d);
        let cur = l.close_all(d);
        let (p, t) = targets.last();
        assert(holds(l.pane, p, t)) by {
            assert(targets[targets.len() - 1] == targets.last());
        }
        assert(target_ids(targets) =~= target_ids(d).push(t));
        lemma_close_tab_panes(cur, p, t);
        let next = cur.close_tab(p, t);
        assert(next == l.close_all(targets));
        if target_ids(d).contains(t) {
            // Already closed: the tab is gone, so this close finds nothing.
            if holds(cur.pane, p, t) {
                let (ts, _) = cur.pane.group(p).unwrap();
                lemma_index_of_tab_bound(ts, t);
                lemma_group_ids_in_layout(cur.pane, p);
                assert(ids_of(ts)[index_of_tab(ts, t).unwrap() as int] == t);
                assert(ids_of(ts).contains(t));
                assert(ids_of(cur.pane.tabs()).contains(t));
                assert(false);
            }
            assert(next.pane == cur.pane);
            assert(next.inv());
        } else {
            assert(holds(cur.pane, p, t));
            let (ts, _) = cur.pane.group(p).unwrap();
            lemma_index_of_tab_bound(ts, t);
            lemma_close_tab_removes(cur, p, t);
            let k = choose|k: int| 0 <= k < cur.pane.tabs().len() && cur.pane.tabs()[k].id == t
                && #[trigger] cur.close_tab(p, t).pane.tabs() == cur.pane.tabs().remove(k);
            assert forall|v: TabView| next.pane.tabs().contains(v) implies #[trigger] l.pane.tabs().contains(v) by {
                let i = choose|i: int| 0 <= i < next.pane.tabs().len() && next.pane.tabs()[i] == v;
                if i < k {
                    assert(cur.pane.tabs()[i] == v);
                } else {
                    assert(cur.pane.tabs()[i + 1] == v);
                }
                assert(cur.pane.tabs().contains(v));
            }
        }
        assert forall|x: TabId| #[trigger] ids_of(next.pane.tabs()).contains(x)
            <==> ids_of(l.pane.tabs()).contains(x) && !target_ids(targets).contains(x) by {
            vstd::seq_lib::lemma_seq_contains_after_push(target_ids(d), t, x);
        }
        assert forall|q: PaneId, x: TabId| #[trigger] holds(l.pane, q, x) && !target_ids(targets).contains(x)
            implies holds(next.pane, q, x) by {
            vstd::seq_lib::lemma_seq_contains_after_push(target_ids(d), t, x);
        }
    }
}

/// Closing the tabs of a deleted file or folder keeps the invariant, leaves
/// no tab showing the deleted path, and keeps every other tab open.
pub proof fn lemma_deleted_path_closed(l: Layout, deleted: Seq<char>, is_dir: bool)
    requires
        l.inv(),
    ensures
        ({
            let after = l.close_all(deleted_tabs(l.pane, deleted, is_dir));
            &&& after.inv()
            &&& forall|i: int| 0 <= i < after.pane.tabs().len() ==> !shows_deleted(#[trigger] after.pane.tabs()[i], deleted, is_dir)
            &&& forall|i: int| 0 <= i < l.pane.tabs().len() && !shows_deleted(#[trigger] l.pane.tabs()[i], deleted, is_dir)
                ==> ids_of(after.pane.tabs()).contains(l.pane.tabs()[i].id)
        }),
{
    let dt = deleted_tabs(l.pane, deleted, is_dir);
    crate::pane::lemma_deleted_tabs_members(l.pane, deleted, is_dir);
    lemma_close_all(l, dt);
    let after = l.close_all(dt);
    assert forall|i: int| 0 <= i < after.pane.tabs().len() implies !shows_deleted(#[trigger] after.pane.tabs()[i], deleted, is_dir) by {
        let v = after.pane.tabs()[i];
        assert(after.pane.tabs().contains(v));
        assert(l.pane.tabs().contains(v));
        let j = choose|j: int| 0 <= j < l.pane.tabs().len() && l.pane.tabs()[j] == v;
        assert(ids_of(after.pane.tabs())[i] == v.id);
        assert(ids_of(after.pane.tabs()).contains(v.id));
        if shows_deleted(v, deleted, is_dir) {
            assert(shows_deleted(l.pane.tabs()[j], deleted, is_dir));
            assert(target_ids(dt).contains(v.id));
        }
    }
    assert forall|i: int| 0 <= i < l.pane.tabs().len() && !shows_deleted(#[trigger] l.pane.tabs()[i], deleted, is_dir)
        implies ids_of(after.pane.tabs()).contains(l.pane.tabs()[i].id) by {
        let v = l.pane.tabs()[i];
        assert(ids_of(l.pane.tabs())[i] == v.id);
        if target_ids(dt).contains(v.id) {
            let j = choose|j: int| 0 <= j < target_ids(dt).len() && target_ids(dt)[j] == v.id;
            assert(holds(l.pane, dt[j].0, dt[j].1));
            // The listed tab with this id is the one at `i`: tab ids are distinct.
            assert(dt[j].1 == v.id);
            assert(crate::pane::shows_deleted_id(l.pane.tabs(), dt[j].1, deleted, is_dir));
            let k = choose|k: int| 0 <= k < l.pane.tabs().len() && l.pane.tabs()[k].id == dt[j].1
                && #[trigger] shows_deleted(l.pane.tabs()[k], deleted, is_dir);
            assert(ids_of(l.pane.tabs())[k] == ids_of(l.pane.tabs())[i]);
        }
    }
}

/// Opening a file that a tab already shows adds no tab and keeps every pane:
/// it only focuses that tab.
pub proof fn lemma_reopen_keeps_tabs(l: Layout, path: Seq<char>)
    requires
        l.inv(),
        l.pane.tabs().len() <= usize::MAX,
        tab_with_path(l.pane, path) is Some,
    ensures
        ({
            let (found, idx) = tab_with_path(l.pane, path).unwrap();
            let r = l.reopen(found, idx);
            &&& r.pane.tabs() == l.pane.tabs()
            &&& r.pane.pane_ids() == l.pane.pane_ids()
            &&& r.focused == found
            &&& r.active() matches Some(t) && t.path matches Some(q) && path_equals(q, path)
            &&& r.inv()
        }),
{
    let (found, idx) = tab_with_path(l.pane, path).unwrap();
    lemma_tab_with_path_group(l.pane, path);
    let (ts, a) = l.pane.group(found).unwrap();
    lemma_with_group(l.pane, found, ts, a);
    assert(ts.len() <= l.pane.tabs().len());
    lemma_with_group(l.pane, found, ts, idx as usize);
    lemma_group_ids_distinct(l.pane, found);
    lemma_ids_contained(ts);
    lemma_replace_group_inv(Layout { focused: found, ..l }, found, ts, idx as usize, l.next_tab_id);
    let r = l.reopen(found, idx);
    assert(r.pane.tabs() =~= l.pane.tabs());
}

/// Two duplicate-free sequences with the same elements are the same multiset.
proof fn lemma_same_elements_multiset(a: Seq<TabId>, b: Seq<TabId>)
    requires
        a.no_duplicates(),
        b.no_duplicates(),
        forall|x: TabId| a.contains(x) <==> b.contains(x),
    ensures
        a.to_multiset() == b.to_multiset(),
{
    broadcast use vstd::seq_lib::group_seq_properties, vstd::multiset::group_multiset_axioms;
    a.lemma_multiset_has_no_duplicates();
    b.lemma_multiset_has_no_duplicates();
    assert forall|x: TabId| a.to_multiset().count(x) == b.to_multiset().count(x) by {
        if a.contains(x) {
            assert(a.to_multiset().contains(x));
            assert(b.to_multiset().contains(x));
        } else {
            assert(!b.contains(x));
        }
    }
    assert(a.to_multiset() =~= b.to_multiset());
}

/// Moving an open tab from pane `src` to another existing pane `target`
/// inserts it at `ti` (at most at the end) in the target, where it becomes
/// the active tab, and focuses the target; the source pane keeps its other
/// tabs, and closes exactly when it held only the moved tab; every other pane
/// keeps its tabs; the layout's tab ids stay the same multiset.
pub proof fn lemma_move_places_tab(l: Layout, t: TabId, target: PaneId, ti: usize)
    requires
        l.inv(),
        l.pane.tabs().len() <= usize::MAX,
        pane_of_tab(l.pane, t) matches Some(src) && src != target,
        l.pane.group(target) is Some,
    ensures
        ({
            let src = pane_of_tab(l.pane, t).unwrap();
            let (ts, _) = l.pane.group(src).unwrap();
            let k = index_of_tab(ts, t).unwrap();
            let (tts, _) = l.pane.group(target).unwrap();
            let ins: usize = if ti < tts.len() { ti } else { tts.len() as usize };
            let r = l.move_tab(t, target, ti);
            &&& r.focused == target
            &&& r.pane.group(target) == Some((tts.insert(ins as int, ts[k as int]), ins))
            &&& (r.pane.group(src) is None <==> ts.len() == 1)
            &&& (ts.len() > 1 ==> (r.pane.group(src) matches Some((rest, _)) && rest == ts.remove(k as int)))
            &&& forall|q: PaneId| q != src && q != target ==> #[trigger] r.pane.group(q) == l.pane.group(q)
            &&& ids_of(r.pane.tabs()).to_multiset() == ids_of(l.pane.tabs()).to_multiset()
        }),
{
    lemma_move_keeps_tabs(l, t, target, ti);
    lemma_same_elements_multiset(ids_of(l.move_tab(t, target, ti).pane.tabs()), ids_of(l.pane.tabs()));
    let src = pane_of_tab(l.pane, t).unwrap();
    lemma_pane_of_tab_group(l.pane, t);
    let (ts, a) = l.pane.group(src).unwrap();
    let k = index_of_tab(ts, t).unwrap();
    lemma_index_of_tab_bound(ts, t);
    let (tts, ta) = l.pane.group(target).unwrap();
    let tab = ts[k as int];
    let rest = ts.remove(k as int);
    let na = active_after_take(a, k, rest.len());
    let p1 = l.pane.with_group(src, rest, na);
    lemma_with_group(l.pane, src, rest, na);
    assert(p1.group(target) == Some((tts, ta)));
    lemma_with_group(l.pane, target, tts, ta);
    assert(tts.len() <= l.pane.tabs().len());
    let ins: usize = if ti < tts.len() { ti } else { tts.len() as usize };
    let p2 = p1.with_group(target, tts.insert(ins as int, tab), ins);
    lemma_with_group(p1, target, tts.insert(ins as int, tab), ins);
    assert(insert_into(p1, target, ti, tab) == p2);
    // Two distinct groups: the layout is a split, and so are p1 and p2.
    assert(!(l.pane is Group));
    assert(p1 is Split);
    assert(p2 is Split);
    if rest.len() == 0 {
        let l2 = Layout {
            pane: p2,
            focused: target,
            last_source: if tab.persistable() { Some(tab.id) } else { l.last_source },
            ..l
        };
        lemma_group_iff_pane_id(p2, src);
        lemma_group_iff_pane_id(p2, target);
        let ids = p2.pane_ids();
        assert(ids.len() > 1) by {
            let i = choose|i: int| 0 <= i < ids.len() && ids[i] == src;
            let j = choose|j: int| 0 <= j < ids.len() && ids[j] == target;
            assert(i != j);
        }
        crate::pane::lemma_collapse_removes(p2, src);
        crate::pane::lemma_collapse_keeps_groups(p2, src, target);
        assert forall|q: PaneId| q != src && q != target implies #[trigger] l.move_tab(t, target, ti).pane.group(q) == l.pane.group(q) by {
            crate::pane::lemma_collapse_keeps_groups(p2, src, q);
        }
    }
}

/// Closing a tab other than the active one of pane `p` keeps the same tab
/// active there.
pub proof fn lemma_close_keeps_active(l: Layout, p: PaneId, t: TabId)
    requires
        l.pane.group(p) matches Some((ts, a)) && a < ts.len()
            && (index_of_tab(ts, t) matches Some(k) && k != a),
    ensures
        ({
            let (ts, a) = l.pane.group(p).unwrap();
            l.close_tab(p, t).pane.group(p) matches Some((ts2, a2)) && a2 < ts2.len() && ts2[a2 as int] == ts[a as int]
        }),
{
    let (ts, a) = l.pane.group(p).unwrap();
    let k = index_of_tab(ts, t).unwrap();
    lemma_index_of_tab_bound(ts, t);
    let nts = ts.remove(k as int);
    let na = active_after_close(a, k, nts.len());
    lemma_with_group(l.pane, p, nts, na);
    if k < a {
        assert(nts[a - 1] == ts[a as int]);
    } else {
        assert(nts[a as int] == ts[a as int]);
    }
}

/// Moving a tab within pane `p` keeps the same tab active there: the active
/// index follows its tab, whichever tab moved.
pub proof fn lemma_reorder_keeps_active(l: Layout, p: PaneId, o: usize, n: usize)
    requires
        l.pane.group(p) matches Some((ts, a)) && a < ts.len(),
    ensures
        ({
            let (ts, a) = l.pane.group(p).unwrap();
            l.reorder(p, o, n).pane.group(p) matches Some((ts2, a2)) && a2 < ts2.len() && ts2[a2 as int] == ts[a as int]
        }),
{
    let (ts, a) = l.pane.group(p).unwrap();
    if o != n && o < ts.len() && n <= ts.len() {
        let rest = ts.remove(o as int);
        let ins = reinsert_index(o, n, rest.len());
        let nts = rest.insert(ins as int, ts[o as int]);
        let na = active_after_reorder(a, o, ins, nts.len());
        lemma_with_group(l.pane, p, nts, na);
        if a == o {
            assert(nts[ins as int] == ts[o as int]);
        } else if o < a && ins >= a {
            assert(rest[a - 1] == ts[a as int]);
            assert(nts[a - 1] == rest[a - 1]);
        } else if o > a && ins <= a {
            assert(rest[a as int] == ts[a as int]);
            assert(nts[a + 1] == rest[a as int]);
        } else if o < a {
            assert(rest[a - 1] == ts[a as int]);
            assert(nts[a as int] == rest[a - 1]);
        } else {
            assert(rest[a as int] == ts[a as int]);
            assert(nts[a as int] == rest[a as int]);
        }
    }
}

/// Splitting an existing pane focuses the new pane, whose only and active
/// tab is the copy made for it.
pub proof fn lemma_split_focuses_copy(l: Layout, p: PaneId, direction: SplitDirection)
    requires
        l.inv(),
        l.pane.group(p) is Some,
        l.next_tab_id < u64::MAX,
        l.next_pane_id < u64::MAX,
    ensures
        l.split(p, direction).inv(),
        l.split(p, direction).focused == l.next_pane_id,
        l.split(p, direction).active() == Some(copy_for_split(l.pane.group(p).unwrap().0, l.pane.group(p).unwrap().1, l.next_tab_id)),
{
    let (ts, a) = l.pane.group(p).unwrap();
    let tab = copy_for_split(ts, a, l.next_tab_id);
    lemma_split_inv(l, p, direction, tab);
    assert(!l.pane.pane_ids().contains(l.next_pane_id)) by {
        if l.pane.pane_ids().contains(l.next_pane_id) {
            let k = choose|k: int| 0 <= k < l.pane.pane_ids().len() && l.pane.pane_ids()[k] == l.next_pane_id;
            assert(l.pane.pane_ids()[k] < l.next_pane_id);
        }
    }
    assert(!ids_of(l.pane.tabs()).contains(tab.id)) by {
        if ids_of(l.pane.tabs()).contains(tab.id) {
            let k = choose|k: int| 0 <= k < ids_of(l.pane.tabs()).len() && ids_of(l.pane.tabs())[k] == tab.id;
            assert(l.pane.tabs()[k].id < l.next_tab_id);
        }
    }
    lemma_split_at(l.pane, p, direction, tab, l.next_pane_id);
}

/// `without(s, x)` holds no path equal to `x` and is no longer than `s`.
pub proof fn lemma_without(s: Seq<Seq<char>>, x: Seq<char>)
    ensures
        without(s, x).len() <= s.len(),
        forall|i: int| 0 <= i < without(s, x).len() ==> !path_equals(#[trigger] without(s, x)[i], x),
    decreases s.len(),
{
    if s.len() > 0 {
        lemma_without(s.drop_last(), x);
    }
}

/// After opening a path, the recent files start with it, hold no other entry
/// for the same path, and keep at most the limit (at least one).
pub proof fn lemma_recent_files(files: Seq<Seq<char>>, path: Seq<char>, limit: nat)
    ensures
        recent_after(files, path, limit).len() >= 1,
        recent_after(files, path, limit)[0] == path,
        recent_after(files, path, limit).len() <= if limit < 1 { 1 } else { limit },
        forall|i: int| 1 <= i < recent_after(files, path, limit).len() ==> !path_equals(#[trigger] recent_after(files, path, limit)[i], path),
{
    lemma_without(files, path);
    let all = seq![path] + without(files, path);
    assert forall|i: int| 1 <= i < recent_after(files, path, limit).len() implies !path_equals(#[trigger] recent_after(files, path, limit)[i], path) by {
        assert(recent_after(files, path, limit)[i] == all[i]);
        assert(all[i] == without(files, path)[i - 1]);
    }
}


/// Inserting a tab whose id is not in the layout into an existing group adds
/// exactly that id.
pub proof fn lemma_insert_tab_ids(n: PaneNode, p: PaneId, i: int, t: TabView, na: usize)
    requires
        ids_of(n.tabs()).no_duplicates(),
        !ids_of(n.tabs()).contains(t.id),
        n.group(p) matches Some((ts, _)) && 0 <= i <= ts.len(),
    ensures
        forall|x: TabId| #[trigger] ids_of(n.with_group(p, n.group(p).unwrap().0.insert(i, t), na).tabs()).contains(x)
            <==> ids_of(n.tabs()).contains(x) || x == t.id,
{
    let (ts, a) = n.group(p).unwrap();
    let nts = ts.insert(i, t);
    lemma_with_group(n, p, nts, na);
    let b = n.tabs_before(p);
    let c = n.tabs_after(p);
    lemma_ids_of_concat(b, ts);
    lemma_ids_of_concat(b + ts, c);
    lemma_ids_of_concat(b, nts);
    lemma_ids_of_concat(b + nts, c);
    lemma_group_ids_distinct(n, p);
    lemma_group_ids_in_layout(n, p);
    assert(ids_of(nts) =~= ids_of(ts).insert(i, t.id));
    lemma_insert_no_dup(ids_of(ts), i, t.id);
    let n2 = n.with_group(p, nts, na);
    assert forall|x: TabId| #[trigger] ids_of(n2.tabs()).contains(x) <==> ids_of(n.tabs()).contains(x) || x == t.id by {
        vstd::seq_lib::lemma_seq_concat_contains_all_elements(ids_of(b) + ids_of(nts), ids_of(c), x);
        vstd::seq_lib::lemma_seq_concat_contains_all_elements(ids_of(b), ids_of(nts), x);
        vstd::seq_lib::lemma_seq_concat_contains_all_elements(ids_of(b) + ids_of(ts), ids_of(c), x);
        vstd::seq_lib::lemma_seq_concat_contains_all_elements(ids_of(b), ids_of(ts), x);
    }
}

/// Moving an open tab to another existing pane keeps the invariant, keeps
/// every tab open (the source pane closes when it was a split pane left
/// empty) and focuses the target pane.
pub proof fn lemma_move_keeps_tabs(l: Layout, t: TabId, target: PaneId, ti: usize)
    requires
        l.inv(),
        pane_of_tab(l.pane, t) matches Some(src) && src != target,
        l.pane.group(target) is Some,
    ensures
        l.move_tab(t, target, ti).inv(),
        forall|x: TabId| #[trigger] ids_of(l.move_tab(t, target, ti).pane.tabs()).contains(x) <==> ids_of(l.pane.tabs()).contains(x),
{
    let src = pane_of_tab(l.pane, t).unwrap();
    lemma_pane_of_tab_group(l.pane, t);
    let (ts, a) = l.pane.group(src).unwrap();
    let k = index_of_tab(ts, t).unwrap();
    lemma_index_of_tab_bound(ts, t);
    lemma_group_active_ok(l.pane, src);
    let tab = ts[k as int];
    let rest = ts.remove(k as int);
    let na = active_after_take(a, k, rest.len());
    lemma_move_inv(l, src, k as int, target, ti);
    lemma_remove_tab_inv(l, src, k as int, na);
    let p1 = l.pane.with_group(src, rest, na);
    let l1 = Layout { pane: p1, ..l };
    lemma_with_group(l.pane, src, rest, na);
    lemma_group_iff_pane_id(l.pane, target);
    lemma_group_iff_pane_id(p1, target);
    assert(p1.group(target) is Some);
    let (tts, _) = p1.group(target).unwrap();
    let ins: usize = if ti < tts.len() { ti } else { tts.len() as usize };
    lemma_insert_tab_ids(p1, target, ins as int, tab, ins);
    let p2 = insert_into(p1, target, ti, tab);
    let l2 = Layout {
        pane: p2,
        focused: target,
        last_source: if tab.persistable() { Some(tab.id) } else { l.last_source },
        ..l
    };
    assert forall|x: TabId| #[trigger] ids_of(p2.tabs()).contains(x) <==> ids_of(l.pane.tabs()).contains(x) by {
        if x == t {
            assert(ids_of(ts)[k as int] == t);
            assert(ids_of(ts).contains(t));
            lemma_group_ids_in_layout(l.pane, src);
        }
    }
    if rest.len() == 0 && !(p1 is Group) {
        lemma_pane_ids_nonempty(p2);
        lemma_with_group(p1, target, tts.insert(ins as int, tab), ins);
        assert(p2.group(src) == Some((rest, na)));
        assert(p2 is Split);
        lemma_collapse_tabs(p2, src);
        lemma_collapse_inv(l2, src);
        lemma_with_group(p2, src, rest, na);
        lemma_with_group_self(p2, src);
        let b = p2.tabs_before(src);
        let c = p2.tabs_after(src);
        assert(p2.tabs() =~= b + c);
    }
}

} // verus!
