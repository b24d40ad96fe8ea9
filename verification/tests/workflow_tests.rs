use soyuz_studio::drag::TabDragState;
use soyuz_studio::editor::{MarkdownDoc, SplitDirection};
use soyuz_studio::status::status_summary;
use soyuz_studio::preview::{docked_step, DockedStep, DomRect};
use soyuz_studio::terminal::{visible_entries, TerminalEntry, TerminalFilter, TerminalLevel};
use soyuz_studio::workbench::{AppState, PendingCloseTab, SavePlan};

#[test]
fn dragging_a_tab_onto_another_moves_it_there() {
    let mut d = TabDragState::default();
    assert!(d.drop_on_tab(1, 0).is_none());
    d.start(1, 7, 2);
    assert!(d.is_dragging(7));
    assert!(!d.is_dragging(8));
    d.over_tab(2, 1);
    assert!(d.drops_before(2, 1));
    d.leave_tab(2, 0);
    assert!(d.drops_before(2, 1));
    d.leave_tab(2, 1);
    assert_eq!(d.target, None);
    d.over_bar(2, 4);
    assert_eq!(d.target, Some((2, 4, false)));
    d.over_tab(2, 3);
    d.over_bar(2, 4);
    assert_eq!(d.target, Some((2, 3, false)));
    let m = d.drop_on_bar(2, 4).expect("a tab is dragged");
    assert_eq!((m.tab, m.pane, m.index), (7, 2, 3));
    assert_eq!(d, TabDragState::default());

    d.start(1, 9, 0);
    d.over_content(3, 5);
    assert!(d.content_is_target(3));
    d.leave_content(4);
    assert!(d.content_is_target(3));
    let m = d.drop_on_content(3, 5).expect("a tab is dragged");
    assert_eq!((m.tab, m.pane, m.index), (9, 3, 5));
    d.start(1, 9, 0);
    d.end();
    assert!(d.source.is_none() && d.target.is_none());
}

#[test]
fn closing_a_dirty_tab_asks_first() {
    let mut state = AppState::new();
    state.open_file("/a.rhai".to_string(), "a".to_string());
    state.set_code("edited".to_string());
    let id = state.active_tab().map(|t| t.id).expect("a tab");
    let r = state.request_close_tab(1, id);
    assert_eq!(r.pending, Some(PendingCloseTab { pane_id: 1, tab_id: id }));
    assert!(!r.stop_preview);
    assert_eq!(state.all_tabs().len(), 1);

    state.mark_saved(None);
    let r = state.request_close_tab(1, id);
    assert!(r.pending.is_none());
    assert!(state.all_tabs().is_empty());
}

#[test]
fn closing_the_preview_tab_stops_the_preview() {
    let mut state = AppState::new();
    state.open_file("/a.rhai".to_string(), "a".to_string());
    state.open_preview_tab();
    state.begin_preview();
    assert!(state.is_previewing);
    let id = state.active_tab().map(|t| t.id).expect("a tab");
    let r = state.request_close_tab(1, id);
    assert!(r.stop_preview);
    assert!(r.pending.is_none());
    assert!(!state.is_previewing);
    assert_eq!(state.all_tabs().len(), 1);
}

#[test]
fn saving_writes_to_the_file_or_asks_for_a_path() {
    let mut state = AppState::new();
    assert!(matches!(state.save_plan(false), SavePlan::AskForPath));
    state.new_tab();
    assert!(matches!(state.save_plan(false), SavePlan::AskForPath));
    state.open_file("/a.rhai".to_string(), "body".to_string());
    match state.save_plan(false) {
        SavePlan::WriteTo { path, code } => assert_eq!((path.as_str(), code.as_str()), ("/a.rhai", "body")),
        SavePlan::AskForPath => panic!("expected a write"),
    }
    assert!(matches!(state.save_plan(true), SavePlan::AskForPath));
}

#[test]
fn preview_lifecycle_updates_the_state() {
    let mut state = AppState::new();
    state.preview_dirty = true;
    state.error_message = Some("old".to_string());
    state.begin_preview();
    assert!(state.is_previewing && !state.preview_dirty && state.error_message.is_none());
    state.script_error("bad".to_string());
    assert!(state.is_previewing);
    assert_eq!(state.error_message.as_deref(), Some("bad"));
    state.preview_exited(3, 2);
    assert!(state.is_previewing);
    state.preview_exited(3, 3);
    assert!(!state.is_previewing);
    state.begin_preview();
    state.preview_failed("no spawn".to_string());
    assert!(!state.is_previewing);
    assert_eq!(state.error_message.as_deref(), Some("no spawn"));
}

#[test]
fn docked_preview_steps() {
    let rect = DomRect { x: 1, y: 2, width: 300, height: 200 };
    assert!(matches!(docked_step(None, Some(rect)), DockedStep::PopOut));
    assert!(matches!(docked_step(Some(5), None), DockedStep::Unavailable(m) if m.contains("not ready")));
    let empty = DomRect { x: 1, y: 2, width: 0, height: 200 };
    assert!(matches!(docked_step(Some(5), Some(empty)), DockedStep::Unavailable(m) if m.contains("no visible size")));
    assert!(matches!(docked_step(Some(5), Some(rect)), DockedStep::Embed { parent: 5, rect: r } if r == rect));
}

#[test]
fn terminal_shows_the_levels_the_filter_lets_through() {
    let entry = |level| TerminalEntry { timestamp_secs: 1, level, message: "m".to_string(), target: None };
    let entries = vec![
        (4, entry(TerminalLevel::Info)),
        (5, entry(TerminalLevel::Debug)),
        (6, entry(TerminalLevel::Warn)),
        (7, entry(TerminalLevel::Error)),
    ];
    let shown = visible_entries(&TerminalFilter::default(), &entries);
    let ids: Vec<u64> = shown.iter().map(|(id, _)| *id).collect();
    assert_eq!(ids, vec![4, 6, 7]);
    let filter = TerminalFilter { show_info: false, show_warn: true, show_error: false };
    let ids: Vec<u64> = visible_entries(&filter, &entries).iter().map(|(id, _)| *id).collect();
    assert_eq!(ids, vec![6]);
}

#[test]
fn status_bar_summary() {
    let mut state = AppState::new();
    let s = status_summary(&state);
    assert_eq!((s.text, s.class, s.cursor.as_str(), s.unsaved), ("Ready", "status-ready", "Line 1, Col 1", false));
    state.open_file("/a.rhai".to_string(), "x".to_string());
    state.set_cursor(12, 30);
    state.set_code("y".to_string());
    state.is_previewing = true;
    let s = status_summary(&state);
    assert_eq!((s.text, s.cursor.as_str(), s.unsaved), ("Preview running", "Line 12, Col 30", true));
    state.error_message = Some("e".to_string());
    assert_eq!(status_summary(&state).text, "Error in script");
}

#[test]
fn tool_tabs_are_found_where_they_are() {
    let mut state = AppState::new();
    assert!(state.editor_pane.find_settings_tab().is_none());
    state.open_file("/a.rhai".to_string(), "a".to_string());
    state.split_pane(1, SplitDirection::Vertical);
    state.open_settings();
    state.open_preview_tab();
    state.focus_pane(1);
    assert_eq!(state.focused_pane_id, 1);
    state.open_export_tab();
    state.open_readme();
    let settings = state.editor_pane.find_settings_tab().expect("settings tab");
    assert_eq!(settings.0, 2);
    assert_eq!(state.editor_pane.find_preview_tab().map(|p| p.0), Some(2));
    assert_eq!(state.editor_pane.find_export_tab().map(|p| p.0), Some(1));
    assert_eq!(state.editor_pane.find_markdown_tab(MarkdownDoc::Readme).map(|p| p.0), Some(1));
    assert!(state.editor_pane.find_markdown_tab(MarkdownDoc::Cookbook).is_none());
    assert!(state.active_tab().map(|t| t.is_markdown()).unwrap_or(false));
    // Focusing an unknown pane changes nothing.
    state.focus_pane(42);
    assert_eq!(state.focused_pane_id, 1);
}
