//! The preview process: the arguments the studio starts its own executable
//! with to show a preview, standalone or embedded in the studio window.
use crate::strings::{decimal, push_char, push_decimal, push_str};
use vstd::prelude::*;

verus! {

/// DOM rectangle in viewport coordinates, in physical (device) pixels.
#[derive(Clone, Copy, Debug, PartialEq, Eq, Structural)]
pub struct DomRect {
    pub x: i32,
    pub y: i32,
    pub width: u32,
    pub height: u32,
}

/// Decimal text of an integer, with a leading `-` when negative.
pub open spec fn signed_text(n: int) -> Seq<char> {
    if n < 0 {
        seq!['-'] + decimal((-n) as nat)
    } else {
        decimal(n as nat)
    }
}

/// The decimal text of `n`.
pub fn u32_text(n: u32) -> (r: String)
    ensures
        r@ == decimal(n as nat),
{
    let mut s = String::new();
    push_decimal(&mut s, n as u64);
    assert(s@ =~= decimal(n as nat));
    s
}

/// The decimal text of `n`, with a leading `-` when negative.
pub fn i32_text(n: i32) -> (r: String)
    ensures
        r@ == signed_text(n as int),
{
    let mut s = String::new();
    if n < 0 {
        push_char(&mut s, '-');
        let m: u64 = (0i64 - (n as i64)) as u64;
        push_decimal(&mut s, m);
    } else {
        push_decimal(&mut s, n as u64);
    }
    assert(s@ =~= signed_text(n as int));
    s
}

/// The views of a sequence of strings.
pub open spec fn arg_texts(v: Seq<String>) -> Seq<Seq<char>> {
    v.map_values(|s: String| s@)
}

/// The arguments of a standalone preview of `script_path`.
pub open spec fn preview_args(script_path: Seq<char>) -> Seq<Seq<char>> {
    seq!["--preview"@, "--script"@, script_path]
}

/// The arguments the studio executable is started with to preview
/// `script_path` in a window of its own.
pub fn preview_process_args(script_path: &str) -> (r: Vec<String>)
    ensures
        arg_texts(r@) == preview_args(script_path@),
{
    let mut v: Vec<String> = Vec::new();
    v.push("--preview".to_string());
    v.push("--script".to_string());
    v.push(script_path.to_string());
    assert(arg_texts(v@) =~= preview_args(script_path@));
    v
}

/// The arguments of a preview of `script_path` embedded into window
/// `parent_handle` at `rect`.
pub open spec fn embedded_preview_args(script_path: Seq<char>, parent_handle: u32, rect: DomRect) -> Seq<Seq<char>> {
    seq![
        "--embedded-preview"@, "--script"@, script_path,
        "--parent"@, decimal(parent_handle as nat),
        "--x"@, signed_text(rect.x as int),
        "--y"@, signed_text(rect.y as int),
        "--width"@, decimal(rect.width as nat),
        "--height"@, decimal(rect.height as nat),
    ]
}

/// The arguments the studio executable is started with to preview
/// `script_path` embedded into the studio window `parent_handle` at `rect`.
pub fn embedded_preview_process_args(script_path: &str, parent_handle: u32, rect: DomRect) -> (r: Vec<String>)
    ensures
        arg_texts(r@) == embedded_preview_args(script_path@, parent_handle, rect),
{
    let mut v: Vec<String> = Vec::new();
    v.push("--embedded-preview".to_string());
    v.push("--script".to_string());
    v.push(script_path.to_string());
    v.push("--parent".to_string());
    v.push(u32_text(parent_handle));
    v.push("--x".to_string());
    v.push(i32_text(rect.x));
    v.push("--y".to_string());
    v.push(i32_text(rect.y));
    v.push("--width".to_string());
    v.push(u32_text(rect.width));
    v.push("--height".to_string());
    v.push(u32_text(rect.height));
    assert(arg_texts(v@) =~= embedded_preview_args(script_path@, parent_handle, rect));
    v
}


/// State shared with the preview window.
pub struct PreviewState {
    /// Current script to render
    pub script: String,
    /// Whether the script has changed
    pub needs_update: bool,
    /// Whether to open the preview window
    pub should_open: bool,
}

impl Default for PreviewState {
    /// No script, nothing to update or open.
    fn default() -> (s: Self)
        ensures
            s.script@.len() == 0,
            !s.needs_update,
            !s.should_open,
    {
        PreviewState { script: String::new(), needs_update: false, should_open: false }
    }
}


/// What a docked preview does once the studio window handle and the preview
/// host's rectangle are known.
pub enum DockedStep {
    /// No parent window (e.g. a Wayland session): open a pop-out instead.
    PopOut,
    /// The host is not usable: report this and stop.
    Unavailable(&'static str),
    /// Embed the preview into `parent` at `rect`.
    Embed { parent: u32, rect: DomRect },
}

/// The message when the preview host never reported its place.
pub open spec fn host_not_ready() -> Seq<char> {
    "Docked preview host is not ready yet. Click Refresh to try the tab preview again, or use Pop Out for a separate preview window."@
}

/// The message when the preview host has no size.
pub open spec fn host_without_size() -> Seq<char> {
    "Docked preview host has no visible size yet. Click Refresh after the Preview tab is visible, or use Pop Out for a separate preview window."@
}

/// The next step of a docked preview: a pop-out without a parent window; a
/// report when the host has no rectangle or an empty one; else the embedding.
pub fn docked_step(parent: Option<u32>, rect: Option<DomRect>) -> (r: DockedStep)
    ensures
        match parent {
            None => r is PopOut,
            Some(p) => match rect {
                None => r matches DockedStep::Unavailable(m) && m@ == host_not_ready(),
                Some(d) => if d.width < 1 || d.height < 1 {
                    r matches DockedStep::Unavailable(m) && m@ == host_without_size()
                } else {
                    r == (DockedStep::Embed { parent: p, rect: d })
                },
            },
        },
{
    match parent {
        None => DockedStep::PopOut,
        Some(p) => match rect {
            None => DockedStep::Unavailable(
                "Docked preview host is not ready yet. Click Refresh to try the tab preview again, or use Pop Out for a separate preview window.",
            ),
            Some(d) => {
                if d.width < 1 || d.height < 1 {
                    DockedStep::Unavailable("Docked preview host has no visible size yet. Click Refresh after the Preview tab is visible, or use Pop Out for a separate preview window.")
                } else {
                    DockedStep::Embed { parent: p, rect: d }
                }
            },
        },
    }
}

/// How many windows up the ancestor chain the focus check looks for the
/// studio window.
pub const FOCUS_WALK_LIMIT: u32 = 16;

/// The next step of the check that keeps keyboard focus in the studio while a
/// preview is embedded in it.
#[derive(Clone, Copy, Debug, PartialEq, Eq, Structural)]
pub enum FocusCheck {
    /// Focus is where it belongs (or is not the studio's to take): stop.
    Done,
    /// Give the focus back to the studio window.
    Reclaim,
    /// Ask the window system for the parent of this window, then continue
    /// with `focus_check_step`.
    QueryParent(u32),
}

/// The first step, from the window holding focus (`focus`) and the active
/// window (`active`, none when unknown): nothing to do when the studio window
/// (`parent`) holds focus or is not the active window; the preview (`xid`),
/// no window (0) or the pointer root (1) holding focus is reclaimed at once;
/// any other window is followed up its ancestors.
pub open spec fn focus_first(xid: u32, parent: u32, focus: u32, active: Option<u32>) -> FocusCheck {
    if focus == parent {
        FocusCheck::Done
    } else if active != Some(parent) {
        FocusCheck::Done
    } else if focus != xid && focus > 1 {
        FocusCheck::QueryParent(focus)
    } else {
        FocusCheck::Reclaim
    }
}

/// A step of the ancestor walk: `steps` windows have been asked about before
/// this one, and `reply` is the window system's answer for `window`, as its
/// root and parent (none when the query failed). A failed query, the root, or
/// a window without parent means focus is outside the studio: reclaim. The
/// parent being the studio window means focus is legitimately inside it. The
/// walk gives up (and reclaims) after `FOCUS_WALK_LIMIT` windows.
pub open spec fn focus_next(parent: u32, window: u32, steps: u32, reply: Option<(u32, u32)>) -> FocusCheck {
    match reply {
        None => FocusCheck::Reclaim,
        Some((root, up)) => if window == root || up == 0 {
            FocusCheck::Reclaim
        } else if steps + 1 >= FOCUS_WALK_LIMIT {
            FocusCheck::Reclaim
        } else if up == parent {
            FocusCheck::Done
        } else {
            FocusCheck::QueryParent(up)
        },
    }
}

/// The first step of the focus check (see `focus_first`).
pub fn focus_check_start(xid: u32, parent: u32, focus: u32, active: Option<u32>) -> (r: FocusCheck)
    ensures
        r == focus_first(xid, parent, focus, active),
{
    if focus == parent {
        FocusCheck::Done
    } else if !matches!(active, Some(a) if a == parent) {
        FocusCheck::Done
    } else if focus != xid && focus > 1 {
        FocusCheck::QueryParent(focus)
    } else {
        FocusCheck::Reclaim
    }
}

/// A step of the focus check's ancestor walk (see `focus_next`).
pub fn focus_check_step(parent: u32, window: u32, steps: u32, reply: Option<(u32, u32)>) -> (r: FocusCheck)
    ensures
        r == focus_next(parent, window, steps, reply),
{
    match reply {
        None => FocusCheck::Reclaim,
        Some((root, up)) => if window == root || up == 0 {
            FocusCheck::Reclaim
        } else if steps >= FOCUS_WALK_LIMIT - 1 {
            FocusCheck::Reclaim
        } else if up == parent {
            FocusCheck::Done
        } else {
            FocusCheck::QueryParent(up)
        },
    }
}

/// Whether the studio window `parent` is among the first `n` ancestors of
/// `window`, following the window system's answers `tree` (each window's
/// root and parent; none when the query fails), and stopping at the root.
pub open spec fn parent_within(tree: spec_fn(u32) -> Option<(u32, u32)>, window: u32, parent: u32, n: nat) -> bool
    decreases n,
{
    n > 0 && match tree(window) {
        None => false,
        Some((root, up)) => window != root && up != 0 && (up == parent || parent_within(tree, up, parent, (n - 1) as nat)),
    }
}

/// The outcome of the ancestor walk from `window`, `steps` windows in, when
/// the window system answers as `tree` does.
pub open spec fn focus_walk(parent: u32, window: u32, steps: u32, tree: spec_fn(u32) -> Option<(u32, u32)>) -> FocusCheck
    decreases FOCUS_WALK_LIMIT - steps,
{
    if steps >= FOCUS_WALK_LIMIT {
        FocusCheck::Reclaim
    } else {
        match focus_next(parent, window, steps, tree(window)) {
            FocusCheck::QueryParent(up) => focus_walk(parent, up, (steps + 1) as u32, tree),
            other => other,
        }
    }
}

/// The outcome of the whole focus check, when the window system answers the
/// ancestor queries as `tree` does.
pub open spec fn focus_run(xid: u32, parent: u32, focus: u32, active: Option<u32>, tree: spec_fn(u32) -> Option<(u32, u32)>) -> FocusCheck {
    match focus_first(xid, parent, focus, active) {
        FocusCheck::QueryParent(w) => focus_walk(parent, w, 0, tree),
        other => other,
    }
}

/// The walk from `window` finds the studio window among its remaining
/// ancestors, or reclaims focus.
proof fn lemma_focus_walk(parent: u32, window: u32, steps: u32, tree: spec_fn(u32) -> Option<(u32, u32)>)
    requires
        steps < FOCUS_WALK_LIMIT,
    ensures
        focus_walk(parent, window, steps, tree) == if parent_within(tree, window, parent, (FOCUS_WALK_LIMIT - 1 - steps) as nat) {
            FocusCheck::Done
        } else {
            FocusCheck::Reclaim
        },
    decreases FOCUS_WALK_LIMIT - steps,
{
    if let Some((root, up)) = tree(window) {
        if window != root && up != 0 && steps + 1 < FOCUS_WALK_LIMIT && up != parent {
            lemma_focus_walk(parent, up, (steps + 1) as u32, tree);
        }
    }
}

/// The focus check, run to its end, gives focus back to the studio window
/// exactly when the studio window does not hold it, the studio is the active
/// window, and the window holding focus is not a window (other than the
/// preview, no window or the pointer root) with the studio window among its
/// first fifteen ancestors. So focus is never taken while another window is
/// active, and the check never ends waiting for a query.
pub proof fn lemma_focus_run(xid: u32, parent: u32, focus: u32, active: Option<u32>, tree: spec_fn(u32) -> Option<(u32, u32)>)
    ensures
        focus_run(xid, parent, focus, active, tree) !is QueryParent,
        focus_run(xid, parent, focus, active, tree) == FocusCheck::Reclaim
            <==> (focus != parent && active == Some(parent)
                && !(focus != xid && focus > 1 && parent_within(tree, focus, parent, 15))),
{
    if focus_first(xid, parent, focus, active) is QueryParent {
        lemma_focus_walk(parent, focus, 0, tree);
    }
}

} // verus!
