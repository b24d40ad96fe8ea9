//! The status bar: the script state, the cursor position and whether
//! anything is unsaved.
use crate::strings::{decimal, push_decimal, push_str};
use crate::workbench::AppState;
use vstd::prelude::*;

verus! {

/// What the status bar shows.
pub struct StatusSummary {
    /// The script state: an error, a running preview, or ready.
    pub text: &'static str,
    /// The style of the script state.
    pub class: &'static str,
    /// `Line l, Col c` of the cursor in the active tab.
    pub cursor: String,
    /// Whether any tab has unsaved changes.
    pub unsaved: bool,
}

/// The cursor text of a line and column.
pub open spec fn cursor_text(line: usize, col: usize) -> Seq<char> {
    "Line "@ + decimal(line as nat) + ", Col "@ + decimal(col as nat)
}

/// What the status bar shows for the state.
pub fn status_summary(state: &AppState) -> (r: StatusSummary)
    ensures
        r.text@ == (if state.error_message is Some {
            "Error in script"@
        } else if state.is_previewing {
            "Preview running"@
        } else {
            "Ready"@
        }),
        r.class@ == (if state.error_message is Some {
            "status-error"@
        } else if state.is_previewing {
            "status-running"@
        } else {
            "status-ready"@
        }),
        r.cursor@ == (match state.layout().active() {
            Some(t) => cursor_text(t.cursor_line, t.cursor_col),
            None => cursor_text(1, 1),
        }),
        r.unsaved == exists|i: int| 0 <= i < state.editor_pane@.tabs().len() && #[trigger] state.editor_pane@.tabs()[i].is_dirty,
{
    let (text, class) = if state.has_error() {
        ("Error in script", "status-error")
    } else if state.is_previewing {
        ("Preview running", "status-running")
    } else {
        ("Ready", "status-ready")
    };
    let (line, col) = state.cursor_position();
    let mut cursor = String::new();
    push_str(&mut cursor, "Line ");
    push_decimal(&mut cursor, line as u64);
    push_str(&mut cursor, ", Col ");
    push_decimal(&mut cursor, col as u64);
    StatusSummary { text, class, cursor, unsaved: state.has_unsaved_changes() }
}

} // verus!
