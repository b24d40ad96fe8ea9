//! Keyboard shortcuts: which action a key press asks for, in the workbench
//! and in the code editor; and the window title.
use crate::editor::{EditorTab, SplitDirection, tab_display_name};
use crate::palette::{lowercase, lowered};
use crate::paths::{file_name_of, path_file_name};
use crate::settings::AutoSave;
use crate::strings::push_str;
use crate::text::str_eq;
use vstd::prelude::*;

verus! {

/// A key the keyboard reports.
pub enum KeyName {
    /// A key that types text (the text as reported).
    Character(String),
    Enter,
    Escape,
    Tab,
    F1,
    F5,
    /// Any other key.
    Other,
}

/// A key press: the key, whether Ctrl (or Cmd) and whether Shift was held.
pub struct KeyPress {
    pub key: KeyName,
    pub ctrl: bool,
    pub shift: bool,
}

/// Whether the key types `c`, with case ignored as `str::to_lowercase` does.
pub open spec fn types(key: KeyName, c: Seq<char>) -> bool {
    match key {
        KeyName::Character(s) => lowercase(s@) == c,
        _ => false,
    }
}

/// Whether the key types `c` (case ignored).
fn key_types(key: &KeyName, c: &str) -> (r: bool)
    ensures
        r == types(*key, c@),
{
    match key {
        KeyName::Character(s) => {
            let l = lowered(s.as_str());
            str_eq(l.as_str(), c)
        },
        _ => false,
    }
}

/// What a key press asks of the workbench.
#[derive(Clone, Copy, Debug, PartialEq, Eq)]
pub enum GlobalShortcut {
    /// Close the About dialog.
    CloseAbout,
    /// Run the application command with this id.
    Command(&'static str),
    /// Open the unified palette with an empty query.
    OpenPalette,
    /// Open the palette in go-to-line mode.
    GoToLine,
    /// Show or hide the terminal.
    ToggleTerminal,
    /// Split the focused pane.
    Split(SplitDirection),
    /// Close the active tab (asking first when it has unsaved changes).
    CloseActiveTab,
}

/// The workbench shortcut of a key press, when the About dialog is open or
/// not.
pub open spec fn global_action(p: KeyPress, about_open: bool) -> Option<GlobalShortcut> {
    if p.key is Escape && about_open {
        Some(GlobalShortcut::CloseAbout)
    } else if p.key is F5 {
        Some(GlobalShortcut::Command(if p.shift { "preview.stop" } else { "preview.run" }))
    } else if p.key is F1 {
        Some(GlobalShortcut::Command("help.documentation"))
    } else if p.ctrl && p.key is Enter {
        Some(GlobalShortcut::Command("preview.run"))
    } else if !p.ctrl {
        None
    } else if types(p.key, "p"@) {
        Some(GlobalShortcut::OpenPalette)
    } else if types(p.key, "g"@) && !p.shift {
        Some(GlobalShortcut::GoToLine)
    } else if types(p.key, "`"@) && !p.shift {
        Some(GlobalShortcut::ToggleTerminal)
    } else if types(p.key, "\\"@) {
        Some(GlobalShortcut::Split(if p.shift { SplitDirection::Horizontal } else { SplitDirection::Vertical }))
    } else if types(p.key, "s"@) {
        Some(GlobalShortcut::Command(if p.shift { "file.saveAs" } else { "file.save" }))
    } else if types(p.key, "o"@) && !p.shift {
        Some(GlobalShortcut::Command("file.open"))
    } else if types(p.key, "n"@) && !p.shift {
        Some(GlobalShortcut::Command("file.new"))
    } else if types(p.key, "z"@) {
        Some(GlobalShortcut::Command(if p.shift { "edit.redo" } else { "edit.undo" }))
    } else if types(p.key, "w"@) && !p.shift {
        Some(GlobalShortcut::CloseActiveTab)
    } else {
        None
    }
}

/// The workbench shortcut of a key press (F5 runs or, with Shift, stops the
/// preview; F1 opens the documentation; Ctrl+Enter runs the preview; Ctrl
/// with P, G, `, \, S, O, N, Z or W; Escape closes the About dialog).
pub fn global_shortcut(press: &KeyPress, about_open: bool) -> (r: Option<GlobalShortcut>)
    ensures
        r == global_action(*press, about_open),
{
    let shift = press.shift;
    match &press.key {
        KeyName::Escape => {
            if about_open {
                return Some(GlobalShortcut::CloseAbout);
            }
        },
        KeyName::F5 => {
            return Some(GlobalShortcut::Command(if shift { "preview.stop" } else { "preview.run" }));
        },
        KeyName::F1 => {
            return Some(GlobalShortcut::Command("help.documentation"));
        },
        KeyName::Enter => {
            if press.ctrl {
                return Some(GlobalShortcut::Command("preview.run"));
            }
        },
        _ => {},
    }
    if !press.ctrl {
        return None;
    }
    let key = &press.key;
    if key_types(key, "p") {
        Some(GlobalShortcut::OpenPalette)
    } else if key_types(key, "g") && !shift {
        Some(GlobalShortcut::GoToLine)
    } else if key_types(key, "`") && !shift {
        Some(GlobalShortcut::ToggleTerminal)
    } else if key_types(key, "\\") {
        Some(GlobalShortcut::Split(if shift { SplitDirection::Horizontal } else { SplitDirection::Vertical }))
    } else if key_types(key, "s") {
        Some(GlobalShortcut::Command(if shift { "file.saveAs" } else { "file.save" }))
    } else if key_types(key, "o") && !shift {
        Some(GlobalShortcut::Command("file.open"))
    } else if key_types(key, "n") && !shift {
        Some(GlobalShortcut::Command("file.new"))
    } else if key_types(key, "z") {
        Some(GlobalShortcut::Command(if shift { "edit.redo" } else { "edit.undo" }))
    } else if key_types(key, "w") && !shift {
        Some(GlobalShortcut::CloseActiveTab)
    } else {
        None
    }
}

/// What a key press asks of the code editor.
#[derive(Clone, Copy, Debug, PartialEq, Eq, Structural)]
pub enum EditorShortcut {
    /// Run the docked preview.
    RunPreview,
    Undo,
    Redo,
    /// Open a new tab in this pane.
    NewTab,
    /// Close this tab (asking first when it has unsaved changes).
    CloseTab,
    /// Indent by the tab size.
    Indent,
}

/// The editor shortcut of a key press.
pub open spec fn editor_action(p: KeyPress) -> Option<EditorShortcut> {
    if p.ctrl && p.key is Enter {
        Some(EditorShortcut::RunPreview)
    } else if p.ctrl && types(p.key, "z"@) {
        Some(if p.shift { EditorShortcut::Redo } else { EditorShortcut::Undo })
    } else if p.ctrl && !p.shift && types(p.key, "n"@) {
        Some(EditorShortcut::NewTab)
    } else if p.ctrl && !p.shift && types(p.key, "w"@) {
        Some(EditorShortcut::CloseTab)
    } else if p.key is Tab && !p.shift {
        Some(EditorShortcut::Indent)
    } else {
        None
    }
}

/// The editor shortcut of a key press (Ctrl+Enter, Ctrl+Z, Ctrl+Shift+Z,
/// Ctrl+N, Ctrl+W and Tab); the editor keeps these from the workbench.
pub fn editor_shortcut(press: &KeyPress) -> (r: Option<EditorShortcut>)
    ensures
        r == editor_action(*press),
{
    let ctrl = press.ctrl;
    let shift = press.shift;
    if ctrl && matches!(press.key, KeyName::Enter) {
        Some(EditorShortcut::RunPreview)
    } else if ctrl && key_types(&press.key, "z") {
        Some(if shift { EditorShortcut::Redo } else { EditorShortcut::Undo })
    } else if ctrl && !shift && key_types(&press.key, "n") {
        Some(EditorShortcut::NewTab)
    } else if ctrl && !shift && key_types(&press.key, "w") {
        Some(EditorShortcut::CloseTab)
    } else if matches!(press.key, KeyName::Tab) && !shift {
        Some(EditorShortcut::Indent)
    } else {
        None
    }
}

/// How many spaces the Tab key inserts for a configured tab size: the size
/// kept within 1 to 16.
pub open spec fn indent_width(tab_size: u32) -> nat {
    if tab_size < 1 {
        1
    } else if tab_size > 16 {
        16
    } else {
        tab_size as nat
    }
}

/// The text the Tab key inserts in the editor: `indent_width(tab_size)` spaces.
pub fn indent_text(tab_size: u32) -> (r: String)
    ensures
        r@ == Seq::new(indent_width(tab_size), |_i: int| ' '),
{
    let width: u32 = if tab_size < 1 {
        1
    } else if tab_size > 16 {
        16
    } else {
        tab_size
    };
    let mut r = String::new();
    let mut i: u32 = 0;
    while i < width
        invariant
            i <= width,
            width == indent_width(tab_size),
            r@ == Seq::new(i as nat, |_i: int| ' '),
        decreases width - i,
    {
        crate::strings::push_char(&mut r, ' ');
        i = i + 1;
        assert(r@ =~= Seq::new(i as nat, |_i: int| ' '));
    }
    r
}

/// The window title: the active tab's file name (or its display name), a
/// star when it has unsaved changes, and the application name; just the
/// application name without an active tab.
pub open spec fn title_text(tab: Option<crate::editor::TabView>) -> Seq<char> {
    match tab {
        None => "Soyuz Studio"@,
        Some(t) => {
            let name = match t.path {
                Some(p) => match path_file_name(p) {
                    Some(n) => n,
                    None => tab_display_name(t.kind, t.path),
                },
                None => tab_display_name(t.kind, t.path),
            };
            name + (if t.is_dirty { " *"@ } else { Seq::empty() }) + " - Soyuz Studio"@
        },
    }
}

/// The window title for the active tab.
pub fn window_title(tab: Option<&EditorTab>) -> (r: String)
    ensures
        r@ == title_text(match tab { Some(t) => Some(t@), None => None }),
{
    match tab {
        None => "Soyuz Studio".to_string(),
        Some(t) => {
            let name = match &t.path {
                Some(p) => match file_name_of(p.as_str()) {
                    Some(n) => n,
                    None => t.display_name(),
                },
                None => t.display_name(),
            };
            let mut out = String::new();
            push_str(&mut out, name.as_str());
            if t.is_dirty {
                push_str(&mut out, " *");
            }
            push_str(&mut out, " - Soyuz Studio");
            proof {
                if t.is_dirty {
                    assert(out@ =~= title_text(Some(t@)));
                } else {
                    assert(out@ =~= title_text(Some(t@)));
                }
            }
            out
        },
    }
}

/// Seconds between session checkpoints: the auto-save delay, or 30 when
/// auto-save is off.
pub fn checkpoint_interval_secs(auto_save: AutoSave) -> (r: u64)
    ensures
        r == match auto_save {
            AutoSave::Off => 30,
            AutoSave::AfterDelay(secs) => secs as u64,
        },
{
    match auto_save.interval_secs() {
        Some(secs) => secs as u64,
        None => 30,
    }
}

} // verus!
