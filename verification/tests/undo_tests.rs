use soyuz_studio::undo::{EditSnapshot, UndoHistory};

/// Record an edit as the start of a new group, regardless of wall clock:
/// `finish_undo_redo` resets the grouping timer.
fn record_new_group(history: &mut UndoHistory, old_content: &str, limit: usize) {
    history.finish_undo_redo();
    history.record_edit(old_content, 0, limit);
}

#[test]
fn rapid_edits_group_into_one_undo_step() {
    let mut history = UndoHistory::default();
    history.record_edit("v1", 0, 100);
    history.record_edit("v2", 1, 100);
    history.record_edit("v3", 2, 100);
    assert_eq!(history.undo_stack.len(), 1);
    assert_eq!(history.undo_stack[0].content, "v1");
}

#[test]
fn history_trims_oldest_beyond_limit() {
    let mut history = UndoHistory::default();
    for content in ["v1", "v2", "v3", "v4", "v5"] {
        record_new_group(&mut history, content, 3);
    }
    let contents: Vec<_> = history.undo_stack.iter().map(|s| s.content.as_str()).collect();
    assert_eq!(contents, ["v3", "v4", "v5"]);

    let restored = history.undo("v6", 0).expect("undo should pop");
    assert_eq!(restored.content, "v5");
}

#[test]
fn zero_limit_is_guarded_to_keep_one_step() {
    let mut history = UndoHistory::default();
    record_new_group(&mut history, "v1", 0);
    record_new_group(&mut history, "v2", 0);
    assert_eq!(history.undo_stack.len(), 1);
    assert_eq!(history.undo_stack[0].content, "v2");
}

#[test]
fn undo_redo_transfer_round_trips_content_and_cursor() {
    let mut history = UndoHistory::default();
    history.record_edit("v1", 3, 100);

    let restored = history.undo("v2", 7).expect("undo should pop");
    assert_eq!((restored.content.as_str(), restored.cursor_pos), ("v1", 3));
    assert_eq!(history.redo_stack.len(), 1);
    history.finish_undo_redo();

    let redone = history.redo("v1", 3).expect("redo should pop");
    assert_eq!((redone.content.as_str(), redone.cursor_pos), ("v2", 7));
    assert_eq!(history.undo_stack.len(), 1);
    history.finish_undo_redo();
}

#[test]
fn new_edit_clears_redo_and_undo_ignores_in_flight_recording() {
    let mut history = UndoHistory::default();
    history.record_edit("v1", 0, 100);
    let _ = history.undo("v2", 0).expect("undo should pop");

    history.record_edit("applying-undo", 0, 100);
    assert!(history.undo_stack.is_empty());
    history.finish_undo_redo();

    assert_eq!(history.redo_stack.len(), 1);
    history.record_edit("v1", 0, 100);
    assert!(history.redo_stack.is_empty());
}

#[test]
fn undo_and_redo_on_empty_stacks_return_none() {
    let mut history = UndoHistory::default();
    assert!(history.undo("x", 1).is_none());
    assert!(history.redo("x", 1).is_none());
    assert!(history.undo_stack.is_empty());
    assert!(history.redo_stack.is_empty());
}

#[test]
fn edits_in_a_fresh_window_after_finish_start_new_steps() {
    let mut history = UndoHistory::default();
    history.record_edit("a", 1, 10);
    history.finish_undo_redo();
    history.record_edit("b", 2, 10);
    assert_eq!(history.undo_stack.len(), 2);
    assert_eq!(history.undo_stack[1].content, "b");
    assert_eq!(history.undo_stack[1].cursor_pos, 2);
}

#[test]
fn saved_copy_and_from_stacks_keep_the_stacks() {
    let mut history = UndoHistory::default();
    record_new_group(&mut history, "a", 10);
    record_new_group(&mut history, "b", 10);
    let _ = history.undo("c", 4);
    let copy = history.saved_copy();
    assert_eq!(copy.undo_stack.len(), 1);
    assert_eq!(copy.undo_stack[0].content, "a");
    assert_eq!(copy.redo_stack.len(), 1);
    assert_eq!(copy.redo_stack[0].content, "c");
    assert_eq!(copy.redo_stack[0].cursor_pos, 4);

    let mut rebuilt = UndoHistory::from_stacks(
        vec![EditSnapshot { content: "x".to_string(), cursor_pos: 1 }],
        Vec::new(),
    );
    // A rebuilt history records again right away.
    rebuilt.record_edit("y", 2, 10);
    assert_eq!(rebuilt.undo_stack.len(), 2);
}

#[test]
fn edits_past_the_grouping_window_start_a_new_step() {
    let mut history = UndoHistory::default();
    history.record_edit("v1", 0, 100);
    // The second edit comes 600 ms later, past the grouping window.
    history.record_edit_at("v2", 1, 100, std::time::Instant::now(), Some(600));
    assert_eq!(history.undo_stack.len(), 2);
    assert_eq!(history.undo_stack[1].content, "v2");
    assert_eq!(history.undo_stack[1].cursor_pos, 1);
}

#[test]
fn edits_within_the_grouping_window_join_the_step() {
    let mut history = UndoHistory::default();
    let start = std::time::Instant::now();
    history.record_edit_at("v1", 0, 100, start, None);
    history.record_edit_at("v2", 1, 100, start, Some(120));
    history.record_edit_at("v3", 2, 100, start, Some(499));
    assert_eq!(history.undo_stack.len(), 1);
    assert_eq!(history.undo_stack[0].content, "v1");
    history.record_edit_at("v4", 3, 100, start, Some(500));
    assert_eq!(history.undo_stack.len(), 2);
    assert_eq!(history.undo_stack[1].content, "v4");
}
