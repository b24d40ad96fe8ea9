# soyuz_studio

The editor workbench of Soyuz Studio, a code editor for Rhai scripts that
describe 3D shapes, written in Verus: the library's functions carry
`requires`/`ensures` contracts that Verus proves. The few calls into std
(paths, number parsing, character classes, the clock) and into
`pulldown-cmark` go through small wrappers whose contracts are trusted; each
says in its doc comment what it claims.

## Layout

- `src/` — the verified library.
  - `workbench.rs`, `pane.rs`, `editor.rs`, `drag.rs` — the pane tree with its
    tab groups and splits, tabs, focus, the operations the UI performs on them
    (open, close, split, move, reorder, undo/redo through each tab's history)
    and the invariant they all keep (distinct pane and tab ids, valid active
    indices, fresh id counters).
  - `undo.rs` — snapshot undo/redo with grouping of rapid edits.
  - `session.rs` — saving the layout and restoring it; the save/restore round
    trip is proved.
  - `settings.rs`, `settings_panel.rs` — preferences, the settings panel's
    metadata and how a control's value is written back.
  - `palette.rs`, `commands.rs`, `shortcuts.rs` — the command palette (query
    modes, scoring, ranking), command ids and keyboard shortcuts.
  - `tree.rs` — the file explorer's flat tree: splicing children, listing
    order, drop and rename targets.
  - `terminal.rs` — log entries, the level filter and the bounded buffer with
    stable ids.
  - `text.rs`, `highlight.rs`, `markdown.rs`, `strings.rs`, `paths.rs` — text
    offsets (UTF-8/UTF-16), Rhai highlighting, markdown with heading anchors,
    string building and path components.
  - `launch.rs`, `preview.rs`, `export.rs`, `status.rs` — command-line
    parsing, preview process arguments, export defaults and the status bar.
- `tests/` — tests run against the compiled library.
- `app/` — the command-line program around the library: settings and session
  files (JSON), directory listings and the workspace file search.
