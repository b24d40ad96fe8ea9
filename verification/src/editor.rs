//! Editor tabs and the recursive pane layout that holds them.
use crate::paths::{file_name_of, path_file_name};
use crate::undo::{UndoHistory, UndoModel};
use vstd::prelude::*;

verus! {

/// Unique identifier for editor tabs.
pub type TabId = u64;

/// Unique identifier for panes.
pub type PaneId = u64;

/// Types of embedded markdown documents.
#[derive(Clone, Copy, Debug, PartialEq, Eq, Structural)]
pub enum MarkdownDoc {
    Cookbook,
    Readme,
}

impl MarkdownDoc {
    /// Display name of the document's tab.
    pub open spec fn spec_display_name(self) -> Seq<char> {
        match self {
            MarkdownDoc::Cookbook => "Cookbook"@,
            MarkdownDoc::Readme => "README"@,
        }
    }

    /// Get display name for the tab.
    pub fn display_name(self) -> (r: &'static str)
        ensures
            r@ == self.spec_display_name(),
    {
        match self {
            MarkdownDoc::Cookbook => "Cookbook",
            MarkdownDoc::Readme => "README",
        }
    }
}

/// The kind of tab: determines rendering and behavior.
#[derive(Clone, Copy, Debug, PartialEq, Eq, Structural)]
pub enum TabKind {
    /// Regular file or untitled document
    File,
    /// Settings panel (singleton)
    Settings,
    /// Embedded markdown documentation (singleton per document)
    Markdown(MarkdownDoc),
    /// Docked preview of the source script (singleton)
    Preview,
    /// Export panel for the source script (singleton)
    Export,
}

/// Direction of a split pane.
#[derive(Clone, Copy, Debug, PartialEq, Eq, Structural)]
pub enum SplitDirection {
    /// Side-by-side (left/right columns)
    Vertical,
    /// Top/bottom (rows)
    Horizontal,
}

/// A single editor tab.
pub struct EditorTab {
    /// Unique identifier
    pub id: TabId,
    /// The kind of tab
    pub kind: TabKind,
    /// File path (None if untitled or a tool tab)
    pub path: Option<String>,
    /// Content of the file (for Preview/Export tabs: a snapshot of the source)
    pub content: String,
    /// Whether the content has been modified since last save
    pub is_dirty: bool,
    /// Cursor line position
    pub cursor_line: usize,
    /// Cursor column position
    pub cursor_col: usize,
    /// Undo/redo history
    pub history: UndoHistory,
}

/// The mathematical value of a tab.
pub struct TabView {
    pub id: TabId,
    pub kind: TabKind,
    pub path: Option<Seq<char>>,
    pub content: Seq<char>,
    pub is_dirty: bool,
    pub cursor_line: usize,
    pub cursor_col: usize,
    pub history: UndoModel,
    /// The history is applying an undo or redo, so edits are not recorded.
    pub history_applying: bool,
    /// The history has a last recorded edit that a rapid next edit may join.
    pub history_grouping: bool,
}

/// The view of an optional string.
pub open spec fn opt_view(o: Option<String>) -> Option<Seq<char>> {
    match o {
        Some(s) => Some(s@),
        None => None,
    }
}

impl View for EditorTab {
    type V = TabView;

    open spec fn view(&self) -> TabView {
        TabView {
            id: self.id,
            kind: self.kind,
            path: opt_view(self.path),
            content: self.content@,
            is_dirty: self.is_dirty,
            cursor_line: self.cursor_line,
            cursor_col: self.cursor_col,
            history: self.history@,
            history_applying: self.history.applying(),
            history_grouping: self.history.last_edit() is Some,
        }
    }
}

/// A new tab: cursor at 1:1 and an empty history.
pub open spec fn new_tab_view(id: TabId, kind: TabKind, path: Option<Seq<char>>, content: Seq<char>, is_dirty: bool) -> TabView {
    TabView {
        id,
        kind,
        path,
        content,
        is_dirty,
        cursor_line: 1,
        cursor_col: 1,
        history: UndoModel { undo: Seq::empty(), redo: Seq::empty() },
        history_applying: false,
        history_grouping: false,
    }
}

impl TabView {
    /// Whether this tab holds a real source document (not a tool tab).
    pub open spec fn persistable(self) -> bool {
        self.kind == TabKind::File
    }
}

/// The display name of a tab of `kind` with `path`.
pub open spec fn tab_display_name(kind: TabKind, path: Option<Seq<char>>) -> Seq<char> {
    match kind {
        TabKind::Settings => "Settings"@,
        TabKind::Preview => "Preview"@,
        TabKind::Export => "Export"@,
        TabKind::Markdown(doc) => doc.spec_display_name(),
        TabKind::File => match path {
            Some(p) => match path_file_name(p) {
                Some(n) => n,
                None => "Untitled"@,
            },
            None => "Untitled"@,
        },
    }
}

/// The example script a new untitled tab starts with.
pub const DEFAULT_SCRIPT: &'static str = "// Welcome to Soyuz Studio!
// Write your SDF script here and click Preview to see it.

// Example: A simple barrel shape
let body = cylinder(0.5, 1.2);
let band_top = torus(0.5, 0.08).translate_y(0.5);
let band_bottom = torus(0.5, 0.08).translate_y(-0.5);

body
    .smooth_union(band_top, 0.05)
    .smooth_union(band_bottom, 0.05)
    .hollow(0.05)
";

impl EditorTab {
    /// Create a new untitled tab holding the example script.
    pub fn new_untitled(id: TabId) -> (t: Self)
        ensures
            t@ == new_tab_view(id, TabKind::File, None, DEFAULT_SCRIPT@, false),
    {
        EditorTab {
            id,
            kind: TabKind::File,
            path: None,
            content: DEFAULT_SCRIPT.to_string(),
            is_dirty: false,
            cursor_line: 1,
            cursor_col: 1,
            history: UndoHistory::default(),
        }
    }

    /// Create a new blank tab (empty content).
    pub fn new_blank(id: TabId) -> (t: Self)
        ensures
            t@ == new_tab_view(id, TabKind::File, None, Seq::empty(), false),
    {
        EditorTab {
            id,
            kind: TabKind::File,
            path: None,
            content: String::new(),
            is_dirty: false,
            cursor_line: 1,
            cursor_col: 1,
            history: UndoHistory::default(),
        }
    }

    /// Create a Settings tab.
    pub fn new_settings(id: TabId) -> (t: Self)
        ensures
            t@ == new_tab_view(id, TabKind::Settings, None, Seq::empty(), false),
    {
        EditorTab {
            id,
            kind: TabKind::Settings,
            path: None,
            content: String::new(),
            is_dirty: false,
            cursor_line: 1,
            cursor_col: 1,
            history: UndoHistory::default(),
        }
    }

    /// Create a Markdown documentation tab.
    pub fn new_markdown(id: TabId, doc: MarkdownDoc) -> (t: Self)
        ensures
            t@ == new_tab_view(id, TabKind::Markdown(doc), None, Seq::empty(), false),
    {
        EditorTab {
            id,
            kind: TabKind::Markdown(doc),
            path: None,
            content: String::new(),
            is_dirty: false,
            cursor_line: 1,
            cursor_col: 1,
            history: UndoHistory::default(),
        }
    }

    /// Create a Preview tool tab holding a snapshot of the source code.
    pub fn new_preview(id: TabId, content: String) -> (t: Self)
        ensures
            t@ == new_tab_view(id, TabKind::Preview, None, content@, false),
    {
        EditorTab {
            id,
            kind: TabKind::Preview,
            path: None,
            content,
            is_dirty: false,
            cursor_line: 1,
            cursor_col: 1,
            history: UndoHistory::default(),
        }
    }

    /// Create an Export tool tab holding a snapshot of the source code.
    pub fn new_export(id: TabId, content: String) -> (t: Self)
        ensures
            t@ == new_tab_view(id, TabKind::Export, None, content@, false),
    {
        EditorTab {
            id,
            kind: TabKind::Export,
            path: None,
            content,
            is_dirty: false,
            cursor_line: 1,
            cursor_col: 1,
            history: UndoHistory::default(),
        }
    }

    /// Create a tab from a file.
    pub fn from_file(id: TabId, path: String, content: String) -> (t: Self)
        ensures
            t@ == new_tab_view(id, TabKind::File, Some(path@), content@, false),
    {
        EditorTab {
            id,
            kind: TabKind::File,
            path: Some(path),
            content,
            is_dirty: false,
            cursor_line: 1,
            cursor_col: 1,
            history: UndoHistory::default(),
        }
    }

    /// Create a file tab with existing history (for session restore).
    pub fn with_history(id: TabId, path: Option<String>, content: String, is_dirty: bool, history: UndoHistory) -> (t: Self)
        ensures
            t@ == (TabView {
                history: history@,
                history_applying: history.applying(),
                history_grouping: history.last_edit() is Some,
                ..new_tab_view(id, TabKind::File, opt_view(path), content@, is_dirty)
            }),
    {
        EditorTab { id, kind: TabKind::File, path, content, is_dirty, cursor_line: 1, cursor_col: 1, history }
    }

    /// A copy of this tab as a new tab with id `id`: same kind, path, content
    /// and dirty flag, cursor at 1:1 and an empty history.
    pub fn duplicate(&self, id: TabId) -> (t: Self)
        ensures
            t@ == new_tab_view(id, self.kind, self@.path, self@.content, self.is_dirty),
    {
        let path = match &self.path {
            Some(p) => Some(p.clone()),
            None => None,
        };
        EditorTab {
            id,
            kind: self.kind,
            path,
            content: self.content.clone(),
            is_dirty: self.is_dirty,
            cursor_line: 1,
            cursor_col: 1,
            history: UndoHistory::default(),
        }
    }

    /// Get display name for the tab: the tool's name, or the file name of the
    /// path ("Untitled" without one).
    pub fn display_name(&self) -> (r: String)
        ensures
            r@ == tab_display_name(self.kind, self@.path),
    {
        match self.kind {
            TabKind::Settings => "Settings".to_string(),
            TabKind::Preview => "Preview".to_string(),
            TabKind::Export => "Export".to_string(),
            TabKind::Markdown(doc) => doc.display_name().to_string(),
            TabKind::File => {
                match &self.path {
                    Some(p) => match file_name_of(p.as_str()) {
                        Some(n) => n,
                        None => "Untitled".to_string(),
                    },
                    None => "Untitled".to_string(),
                }
            },
        }
    }

    /// Check if this is a Settings tab.
    pub fn is_settings(&self) -> (r: bool)
        ensures
            r == (self.kind == TabKind::Settings),
    {
        match self.kind {
            TabKind::Settings => true,
            _ => false,
        }
    }

    /// Check if this is a markdown documentation tab.
    pub fn is_markdown(&self) -> (r: bool)
        ensures
            r == (self.kind is Markdown),
    {
        match self.kind {
            TabKind::Markdown(_) => true,
            _ => false,
        }
    }

    /// Check if this is the Preview tool tab.
    pub fn is_preview(&self) -> (r: bool)
        ensures
            r == (self.kind == TabKind::Preview),
    {
        match self.kind {
            TabKind::Preview => true,
            _ => false,
        }
    }

    /// Check if this is the Export tool tab.
    pub fn is_export(&self) -> (r: bool)
        ensures
            r == (self.kind == TabKind::Export),
    {
        match self.kind {
            TabKind::Export => true,
            _ => false,
        }
    }

    /// Whether this tab holds a real source document that is saved in sessions
    /// and that Preview/Export operate on (tool tabs are not).
    pub fn is_persistable(&self) -> (r: bool)
        ensures
            r == self@.persistable(),
    {
        match self.kind {
            TabKind::File => true,
            _ => false,
        }
    }

    /// Get the markdown doc type if this is a markdown tab.
    pub fn markdown_doc(&self) -> (r: Option<MarkdownDoc>)
        ensures
            r == (match self.kind {
                TabKind::Markdown(doc) => Some(doc),
                _ => None,
            }),
    {
        match self.kind {
            TabKind::Markdown(doc) => Some(doc),
            _ => None,
        }
    }
}

} // verus!
