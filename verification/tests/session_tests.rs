use soyuz_studio::editor::{EditorTab, SplitDirection};
use soyuz_studio::pane::EditorPane;
use soyuz_studio::session::{
    can_restore, content_sources, load_tab_content, restore_session, state_to_session, ContentSource, PaneSession,
    Session, TabSession,
};
use soyuz_studio::undo::UndoHistory;
use soyuz_studio::workbench::AppState;

fn tab(path: Option<&str>, content: Option<&str>, is_dirty: bool) -> TabSession {
    TabSession { path: path.map(String::from), content: content.map(String::from), is_dirty, history: None }
}

fn group(id: u64, tabs: Vec<TabSession>, active_tab_idx: usize) -> PaneSession {
    PaneSession::TabGroup { id, tabs, active_tab_idx }
}

fn session_with_layout(layout: PaneSession) -> Session {
    Session { pane_layout: Some(layout), focused_pane_id: 1, ..Session::default() }
}

fn source_tab(id: u64, path: Option<&str>, content: &str, is_dirty: bool) -> EditorTab {
    EditorTab::with_history(id, path.map(String::from), content.to_string(), is_dirty, UndoHistory::default())
}

fn restore(state: &mut AppState, session: Session, loaded: Vec<Option<String>>, ws: bool, export: bool) {
    assert!(can_restore(&session, &loaded));
    restore_session(state, session, loaded, ws, export);
}

#[test]
fn restore_skips_unreadable_tabs_and_keeps_the_active_tab() {
    let session = session_with_layout(group(
        1,
        vec![
            tab(Some("/tmp/f55_a.rhai"), None, false),
            tab(Some("/tmp/soyuz_session_test_missing_f55.rhai"), None, false),
            tab(None, Some("cube(1.0)"), false),
        ],
        2,
    ));
    let loaded = vec![Some("sphere(0.5)".to_string()), None, None];

    let mut state = AppState::new();
    restore(&mut state, session, loaded, false, false);

    let EditorPane::TabGroup { tabs, active_tab_idx, .. } = &state.editor_pane else {
        panic!("expected a tab group");
    };
    assert_eq!(tabs.len(), 2);
    assert_eq!(tabs[0].content, "sphere(0.5)");
    assert_eq!(tabs[1].content, "cube(1.0)");
    assert_eq!(*active_tab_idx, 1);
    assert_eq!(state.next_tab_id, 3);
}

#[test]
fn restore_with_every_tab_unreadable_yields_an_empty_group() {
    let session = session_with_layout(group(
        1,
        vec![
            tab(Some("/tmp/soyuz_session_test_missing_a.rhai"), None, false),
            tab(Some("/tmp/soyuz_session_test_missing_b.rhai"), None, false),
        ],
        1,
    ));

    let mut state = AppState::new();
    restore(&mut state, session, vec![None, None], false, false);

    let EditorPane::TabGroup { tabs, active_tab_idx, .. } = &state.editor_pane else {
        panic!("expected a tab group");
    };
    assert!(tabs.is_empty());
    assert_eq!(*active_tab_idx, 0);
    assert_eq!(state.next_tab_id, 1);
}

#[test]
fn legacy_flat_tabs_migrate_into_a_pane_tree() {
    let session = Session {
        pane_layout: None,
        focused_pane_id: 1,
        tabs: vec![tab(None, Some("a"), false), tab(None, Some("b"), true)],
        active_tab_idx: 1,
        ..Session::default()
    };

    let mut state = AppState::new();
    restore(&mut state, session, vec![None, None], false, false);

    let EditorPane::TabGroup { id, tabs, active_tab_idx } = &state.editor_pane else {
        panic!("expected a tab group");
    };
    assert_eq!(*id, 1);
    assert_eq!(tabs.len(), 2);
    assert_eq!(tabs[0].content, "a");
    assert_eq!(tabs[1].content, "b");
    assert!(tabs[1].is_dirty);
    assert_eq!(*active_tab_idx, 1);
    assert_eq!(state.next_tab_id, 3);
    assert_eq!(state.next_pane_id, 2);
}

#[test]
fn pane_tree_round_trips_through_serialized_session() {
    let mut state = AppState::new();
    state.editor_pane = EditorPane::Split {
        direction: SplitDirection::Vertical,
        first: Box::new(EditorPane::TabGroup {
            id: 1,
            tabs: vec![source_tab(1, None, "first pane", false)],
            active_tab_idx: 0,
        }),
        second: Box::new(EditorPane::TabGroup {
            id: 2,
            tabs: vec![source_tab(2, None, "second pane", true)],
            active_tab_idx: 0,
        }),
        ratio: 6000,
    };
    state.focused_pane_id = 2;

    let session = state_to_session(&state);
    let loaded = vec![None; content_sources(&session).len()];
    let mut restored = AppState::new();
    restore(&mut restored, session, loaded, false, false);

    let EditorPane::Split { direction, first, second, ratio } = &restored.editor_pane else {
        panic!("expected a split");
    };
    assert!(matches!(direction, SplitDirection::Vertical));
    assert_eq!(*ratio, 6000);
    let EditorPane::TabGroup { id: first_id, tabs: first_tabs, .. } = first.as_ref() else {
        panic!("expected a tab group");
    };
    let EditorPane::TabGroup { id: second_id, tabs: second_tabs, .. } = second.as_ref() else {
        panic!("expected a tab group");
    };
    assert_eq!((*first_id, *second_id), (1, 2));
    assert_eq!(first_tabs[0].content, "first pane");
    assert_eq!(second_tabs[0].content, "second pane");
    assert!(second_tabs[0].is_dirty);
    assert_eq!(restored.focused_pane_id, 2);
    assert_eq!(restored.next_pane_id, 3);
    assert_eq!(restored.next_tab_id, 3);
}

#[test]
fn tool_tabs_are_not_persisted() {
    let mut state = AppState::new();
    state.editor_pane = EditorPane::TabGroup { id: 1, tabs: vec![source_tab(1, None, "source", false)], active_tab_idx: 0 };
    state.next_tab_id = 2;
    state.focused_pane_id = 1;
    state.open_preview_tab();

    let session = state_to_session(&state);
    let Some(PaneSession::TabGroup { tabs, active_tab_idx, .. }) = session.pane_layout else {
        panic!("expected a tab group");
    };
    assert_eq!(tabs.len(), 1);
    assert_eq!(tabs[0].content.as_deref(), Some("source"));
    assert_eq!(active_tab_idx, 0);
}

#[test]
fn only_dirty_or_untitled_tabs_persist_content() {
    let file = "/tmp/content_policy.rhai";
    let mut state = AppState::new();
    state.editor_pane = EditorPane::TabGroup {
        id: 1,
        tabs: vec![
            source_tab(1, Some(file), "on disk", false),
            source_tab(2, Some(file), "edited", true),
            source_tab(3, None, "untitled", false),
        ],
        active_tab_idx: 0,
    };

    let session = state_to_session(&state);
    let Some(PaneSession::TabGroup { tabs, .. }) = session.pane_layout else {
        panic!("expected a tab group");
    };
    assert_eq!(tabs[0].content, None);
    assert_eq!(tabs[1].content.as_deref(), Some("edited"));
    assert_eq!(tabs[2].content.as_deref(), Some("untitled"));
}

#[test]
fn restore_filters_missing_workspace_and_export_dir() {
    let mut session = session_with_layout(group(1, vec![tab(None, Some("x"), false)], 0));
    session.workspace = Some("/tmp/existing".to_string());
    session.last_export_dir = Some("/tmp/existing".to_string());
    let mut state = AppState::new();
    state.settings.remember_workspace = true;
    restore(&mut state, session, vec![None], true, true);
    assert_eq!(state.workspace.as_deref(), Some("/tmp/existing"));
    assert_eq!(state.export_settings.last_export_dir.as_deref(), Some("/tmp/existing"));

    let mut session = session_with_layout(group(1, vec![tab(None, Some("x"), false)], 0));
    session.workspace = Some("/tmp/missing".to_string());
    session.last_export_dir = Some("/tmp/missing".to_string());
    let mut state = AppState::new();
    state.settings.remember_workspace = true;
    restore(&mut state, session, vec![None], false, false);
    assert!(state.workspace.is_none());
    assert!(state.export_settings.last_export_dir.is_none());
}

#[test]
fn workspace_is_not_restored_unless_remembered() {
    let mut session = session_with_layout(group(1, vec![tab(None, Some("x"), false)], 0));
    session.workspace = Some("/tmp/ws".to_string());
    let mut state = AppState::new();
    state.settings.remember_workspace = false;
    restore(&mut state, session, vec![None], true, true);
    assert!(state.workspace.is_none());
}

#[test]
fn an_empty_session_leaves_the_state_alone() {
    let mut state = AppState::new();
    state.open_file("/a.rhai".to_string(), "a".to_string());
    restore(&mut state, Session::default(), Vec::new(), true, true);
    assert_eq!(state.code(), "a");
    assert_eq!(state.next_tab_id, 3);
}

#[test]
fn restore_focuses_the_first_pane_when_the_saved_one_is_gone() {
    let mut session = session_with_layout(group(4, vec![tab(None, Some("x"), false)], 0));
    session.focused_pane_id = 9;
    let mut state = AppState::new();
    restore(&mut state, session, vec![None], false, false);
    assert_eq!(state.focused_pane_id, 4);
    assert_eq!(state.next_pane_id, 5);
    assert_eq!(state.last_source_tab_id, Some(1));
}

#[test]
fn content_sources_prefer_stored_content() {
    assert!(matches!(
        load_tab_content(Some(&"/p".to_string()), Some(&"c".to_string())),
        ContentSource::Stored(c) if c == "c"
    ));
    assert!(matches!(load_tab_content(Some(&"/p".to_string()), None), ContentSource::File(p) if p == "/p"));
    assert!(matches!(load_tab_content(None, None), ContentSource::Empty));

    let session = session_with_layout(PaneSession::Split {
        direction: SplitDirection::Horizontal,
        first: Box::new(group(1, vec![tab(Some("/a"), None, false)], 0)),
        second: Box::new(group(2, vec![tab(None, None, false), tab(Some("/b"), Some("b"), true)], 0)),
        ratio: 5000,
    });
    let sources = content_sources(&session);
    assert_eq!(sources.len(), 3);
    assert!(matches!(&sources[0], ContentSource::File(p) if p == "/a"));
    assert!(matches!(&sources[1], ContentSource::Empty));
    assert!(matches!(&sources[2], ContentSource::Stored(c) if c == "b"));
    // One loaded entry per saved tab is required.
    assert!(!can_restore(&session, &vec![None]));
    assert!(can_restore(&session, &vec![None, None, None]));
}
