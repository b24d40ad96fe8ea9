use soyuz_studio::editor::{EditorTab, MarkdownDoc, SplitDirection, TabKind};
use soyuz_studio::pane::EditorPane;
use soyuz_studio::workbench::AppState;

fn active_tab(state: &AppState) -> &EditorTab {
    let Some(tab) = state.active_tab() else {
        panic!("expected an active tab");
    };
    tab
}

fn group_tab_ids(pane: &EditorPane) -> Vec<u64> {
    match pane {
        EditorPane::TabGroup { tabs, .. } => tabs.iter().map(|t| t.id).collect(),
        EditorPane::Split { .. } => panic!("expected a tab group"),
    }
}

#[test]
fn preview_and_export_use_last_source_tab_when_tool_tab_is_focused() {
    let source_path = "/tmp/barrel.rhai".to_string();
    let source = "sphere(1.0)";
    let mut state = AppState::new();

    state.open_file(source_path.clone(), source.to_string());
    let source_tab_id = active_tab(&state).id;

    state.open_preview_tab();
    assert!(active_tab(&state).is_preview());
    assert_eq!(state.source_code(), source);
    assert_eq!(state.source_file(), Some(source_path.clone()));

    state.open_settings();
    assert!(active_tab(&state).is_settings());
    assert_eq!(state.source_code(), source);
    assert_eq!(state.source_file(), Some(source_path));

    state.open_export_tab();
    assert!(active_tab(&state).is_export());
    assert_eq!(active_tab(&state).content, source);

    state.switch_to_tab(source_tab_id);
    state.set_code("cube(1.0)".to_string());
    state.open_preview_tab();
    assert_eq!(active_tab(&state).content, "cube(1.0)");
    assert_eq!(state.source_code(), "cube(1.0)");
}

#[test]
fn preview_snapshot_remains_runnable_after_source_tab_closes() {
    let source = "sphere(2.0)";
    let mut state = AppState::new();

    state.open_file("/tmp/snapshot.rhai".to_string(), source.to_string());
    let source_tab_id = active_tab(&state).id;
    state.open_preview_tab();

    state.close_tab_in_pane(1, source_tab_id);

    assert!(active_tab(&state).is_preview());
    assert_eq!(state.source_file(), None);
    assert_eq!(state.source_code(), source);
}

#[test]
fn about_dialog_visibility_opens_and_closes() {
    let mut state = AppState::new();

    assert!(!state.is_about_open());
    state.open_about();
    assert!(state.is_about_open());
    state.close_about();
    assert!(!state.is_about_open());
}

#[test]
fn opening_an_open_file_focuses_its_tab() {
    let mut state = AppState::new();
    state.open_file("/ws/a.rhai".to_string(), "a".to_string());
    state.open_file("/ws/b.rhai".to_string(), "b".to_string());
    let tabs_before = state.all_tabs().len();
    state.open_file("/ws/a.rhai".to_string(), "ignored".to_string());
    assert_eq!(state.all_tabs().len(), tabs_before);
    assert_eq!(state.code(), "a");
    assert_eq!(state.current_file(), Some("/ws/a.rhai".to_string()));
    assert_eq!(state.workspace, Some("/ws".to_string()));
}

#[test]
fn recent_files_move_to_front_and_respect_the_limit() {
    let mut state = AppState::new();
    state.settings.recent_files_limit = 2;
    state.add_to_recent_files("/a".to_string());
    state.add_to_recent_files("/b".to_string());
    state.add_to_recent_files("/a".to_string());
    assert_eq!(state.recent_files, vec!["/a".to_string(), "/b".to_string()]);
    state.add_to_recent_files("/c".to_string());
    assert_eq!(state.recent_files, vec!["/c".to_string(), "/a".to_string()]);

    state.settings.recent_files_limit = 0;
    state.add_to_recent_files("/d".to_string());
    assert_eq!(state.recent_files, vec!["/d".to_string()]);
}

#[test]
fn split_clones_the_active_tab_into_a_focused_pane() {
    let mut state = AppState::new();
    state.open_file("/ws/a.rhai".to_string(), "body".to_string());
    state.split_pane(1, SplitDirection::Vertical);
    assert_eq!(state.focused_pane_id, 2);
    let tab = active_tab(&state);
    assert_eq!(tab.content, "body");
    assert_eq!(tab.path.as_deref(), Some("/ws/a.rhai"));
    assert_eq!((tab.cursor_line, tab.cursor_col), (1, 1));
    assert_eq!(state.editor_pane.all_pane_ids(), vec![1, 2]);
    match &state.editor_pane {
        EditorPane::Split { direction, ratio, .. } => {
            assert_eq!(*direction, SplitDirection::Vertical);
            assert_eq!(*ratio, 5000);
        }
        EditorPane::TabGroup { .. } => panic!("expected a split"),
    }

    state.set_split_ratio(1, 20000);
    match &state.editor_pane {
        EditorPane::Split { ratio, .. } => assert_eq!(*ratio, 9000),
        EditorPane::TabGroup { .. } => panic!("expected a split"),
    }
    state.set_split_ratio(1, 10);
    match &state.editor_pane {
        EditorPane::Split { ratio, .. } => assert_eq!(*ratio, 1000),
        EditorPane::TabGroup { .. } => panic!("expected a split"),
    }
}

#[test]
fn splitting_an_empty_pane_adds_a_blank_tab() {
    let mut state = AppState::new();
    state.split_pane(1, SplitDirection::Horizontal);
    let tab = active_tab(&state);
    assert_eq!(tab.kind, TabKind::File);
    assert!(tab.path.is_none());
    assert!(tab.content.is_empty());
    // An unknown pane is not split.
    state.split_pane(99, SplitDirection::Horizontal);
    assert_eq!(state.editor_pane.all_pane_ids(), vec![1, 2]);
}

#[test]
fn closing_the_last_tab_of_a_split_pane_collapses_it() {
    let mut state = AppState::new();
    state.open_file("/ws/a.rhai".to_string(), "a".to_string());
    state.split_pane(1, SplitDirection::Vertical);
    let copy_id = active_tab(&state).id;
    assert!(state.close_tab_in_pane(2, copy_id));
    assert!(state.editor_pane.is_single_pane());
    assert_eq!(state.focused_pane_id, 1);
    assert_eq!(state.code(), "a");

    // The root pane keeps an empty group when its last tab closes.
    let id = active_tab(&state).id;
    state.close_tab_in_pane(1, id);
    assert!(state.active_tab().is_none());
    assert!(state.editor_pane.is_single_pane());
}

#[test]
fn close_pane_keeps_the_only_pane() {
    let mut state = AppState::new();
    state.close_pane(1);
    assert_eq!(state.editor_pane.all_pane_ids(), vec![1]);
}

#[test]
fn reorder_moves_a_tab_and_keeps_the_active_one() {
    let mut state = AppState::new();
    state.open_file("/a".to_string(), "a".to_string());
    state.open_file("/b".to_string(), "b".to_string());
    state.open_file("/c".to_string(), "c".to_string());
    let ids = group_tab_ids(&state.editor_pane);
    // Active is "c" (index 2); move "a" to the end.
    state.reorder_tab(1, 0, 3);
    assert_eq!(group_tab_ids(&state.editor_pane), vec![ids[1], ids[2], ids[0]]);
    assert_eq!(state.code(), "c");
    // Out-of-range indices leave the tabs as they are.
    state.reorder_tab(1, 5, 0);
    assert_eq!(group_tab_ids(&state.editor_pane), vec![ids[1], ids[2], ids[0]]);
}

#[test]
fn moving_the_last_tab_out_of_a_pane_collapses_it() {
    let mut state = AppState::new();
    state.open_file("/a".to_string(), "a".to_string());
    state.split_pane(1, SplitDirection::Vertical);
    let moved = active_tab(&state).id;
    state.open_file_in_pane(1, "/b".to_string(), "b".to_string());
    state.move_tab(moved, 1, 0);
    assert!(state.editor_pane.is_single_pane());
    assert_eq!(state.focused_pane_id, 1);
    assert_eq!(group_tab_ids(&state.editor_pane)[0], moved);
    assert_eq!(active_tab(&state).id, moved);
    assert_eq!(state.all_tabs().len(), 3);
}

#[test]
fn deleting_a_directory_closes_the_tabs_under_it() {
    let mut state = AppState::new();
    state.open_file("/ws/dir/a.rhai".to_string(), "a".to_string());
    state.open_file("/ws/dir/sub/b.rhai".to_string(), "b".to_string());
    state.open_file("/ws/other.rhai".to_string(), "o".to_string());
    state.open_file("/ws/director.rhai".to_string(), "d".to_string());
    state.close_tabs_for_deleted_path("/ws/dir", true);
    let paths: Vec<String> = state.all_tabs().iter().filter_map(|t| t.path.clone()).collect();
    assert_eq!(paths, vec!["/ws/other.rhai".to_string(), "/ws/director.rhai".to_string()]);

    state.close_tabs_for_deleted_path("/ws/other.rhai", false);
    let paths: Vec<String> = state.all_tabs().iter().filter_map(|t| t.path.clone()).collect();
    assert_eq!(paths, vec!["/ws/director.rhai".to_string()]);
}

#[test]
fn edits_are_undone_and_redone_in_the_active_tab() {
    let mut state = AppState::new();
    state.open_file("/a".to_string(), "one".to_string());
    assert!(!state.has_unsaved_changes());
    state.set_code("two".to_string());
    assert!(state.has_unsaved_changes());
    assert!(state.preview_dirty);
    let (content, cursor) = state.undo().expect("undo should pop");
    assert_eq!((content.as_str(), cursor), ("one", 0));
    assert_eq!(state.code(), "one");
    let (content, _) = state.redo().expect("redo should pop");
    assert_eq!(content, "two");
    assert_eq!(state.code(), "two");
    state.mark_saved(Some("/b".to_string()));
    assert!(!state.has_unsaved_changes());
    assert_eq!(state.current_file(), Some("/b".to_string()));
}

#[test]
fn cursor_and_markdown_tabs() {
    let mut state = AppState::new();
    state.new_tab();
    state.set_cursor(3, 4);
    assert_eq!(state.cursor_position(), (3, 4));
    state.open_cookbook();
    assert_eq!(active_tab(&state).markdown_doc(), Some(MarkdownDoc::Cookbook));
    state.open_readme();
    assert_eq!(active_tab(&state).markdown_doc(), Some(MarkdownDoc::Readme));
    let count = state.all_tabs().len();
    state.open_cookbook();
    assert_eq!(state.all_tabs().len(), count);
    assert_eq!(active_tab(&state).markdown_doc(), Some(MarkdownDoc::Cookbook));
}

#[test]
fn folder_and_terminal_toggles() {
    let mut state = AppState::new();
    assert!(!state.has_workspace());
    state.open_folder("/ws".to_string());
    assert!(state.has_workspace());
    state.close_folder();
    assert!(!state.has_workspace());
    assert!(!state.terminal_visible);
    state.toggle_terminal();
    assert!(state.terminal_visible);
    state.is_previewing = true;
    state.stop_preview();
    assert!(!state.is_previewing);
    assert!(!state.has_error());
}

#[test]
fn editing_records_the_previous_content_and_undo_restarts_grouping() {
    let mut state = AppState::new();
    state.open_file("/ws/e.rhai".to_string(), "a".to_string());
    state.set_code("ab".to_string());
    let history = &active_tab(&state).history;
    assert_eq!(history.undo_stack.len(), 1);
    assert_eq!(history.undo_stack[0].content, "a");

    let restored = state.undo().expect("one step to undo");
    assert_eq!(restored.0, "a");
    assert!(!active_tab(&state).history.in_undo_redo);
    assert!(active_tab(&state).history.last_edit_time.is_none());

    // After an undo the next edit starts a new step at once.
    state.set_code("ac".to_string());
    let history = &active_tab(&state).history;
    assert_eq!(history.undo_stack.len(), 1);
    assert_eq!(history.undo_stack[0].content, "a");
    assert!(history.redo_stack.is_empty());
}
