use editor::scene::SceneDocument;
use editor::undo::{
    history_shortcut, HistoryAction, HistoryEntry, SceneHistory, SceneNodeState, SceneSnapshot,
};
use editor::workspace::WorkspaceMode;

const ROOT: u128 = 1;
const CHILD: u128 = 2;

fn node(id: u128, parent: Option<u128>, name: &str, x: i32) -> SceneNodeState {
    SceneNodeState {
        id,
        parent,
        order: 0,
        name: name.to_string(),
        state: format!("kind: empty2d, translation: ({x}, 0, 0)"),
    }
}

fn snapshot(name: &str, x: i32) -> SceneSnapshot {
    SceneSnapshot {
        nodes: vec![node(ROOT, None, name, x)],
        selected: Some(ROOT),
        mode: WorkspaceMode::TwoD,
    }
}

#[test]
fn recording_clears_redo_and_tracks_labels() {
    let old = HistoryEntry {
        label: "Old".to_string(),
        before: snapshot("Root", 0),
        after: snapshot("Root", 1),
    };
    let mut history = SceneHistory::from_stacks(Vec::new(), vec![old], None).unwrap();
    let mut document = SceneDocument::new();

    history.record(
        "Move Entity".to_string(),
        snapshot("Root", 0),
        snapshot("Root", 2),
        &mut document,
    );

    assert_eq!(history.undo_label(), Some("Move Entity"));
    assert!(!history.can_redo());
    assert!(document.dirty);
}

#[test]
fn saved_snapshot_controls_dirty_state() {
    let saved = snapshot("Root", 0);
    let changed = snapshot("Root", 3);
    let history = SceneHistory::with_saved(saved.duplicate());
    let mut document = SceneDocument::new();

    history.update_dirty(&changed, &mut document);
    assert!(document.dirty);
    history.update_dirty(&saved, &mut document);
    assert!(!document.dirty);
}

#[test]
fn selection_changes_do_not_make_scene_dirty() {
    let mut saved = snapshot("Root", 0);
    saved.nodes.push(node(CHILD, Some(ROOT), "Child", 0));
    let mut changed_selection = saved.duplicate();
    changed_selection.selected = Some(CHILD);
    let history = SceneHistory::with_saved(saved);
    let mut document = SceneDocument::new();

    history.update_dirty(&changed_selection, &mut document);
    assert!(!document.dirty);
}

#[test]
fn undo_and_redo_restore_scene_transform_and_dirty_state() {
    let mut history = SceneHistory::new();
    let mut document = SceneDocument::new();
    document.open = true;
    history.request_reset(true);
    history.process_request(snapshot("Root", 0), &mut document);
    assert!(!document.dirty);

    history.begin("Edit Transform".to_string(), snapshot("Root", 0));
    history.finalize_pending(snapshot("Root", 4), &mut document);
    assert!(history.can_undo());
    assert!(document.dirty);

    let restored = history.activate(HistoryAction::Undo, &mut document).unwrap();
    assert!(restored.same_as(&snapshot("Root", 0)));
    assert!(!document.dirty);

    let restored = history.activate(HistoryAction::Redo, &mut document).unwrap();
    assert!(restored.same_as(&snapshot("Root", 4)));
    assert!(document.dirty);
}

#[test]
fn hierarchy_add_node_is_recorded_and_undoable() {
    let mut history = SceneHistory::new();
    let mut document = SceneDocument::new();
    let before = snapshot("Root", 0);
    let mut after = snapshot("Root", 0);
    after.nodes.push(node(CHILD, Some(ROOT), "Empty", 0));
    after.selected = Some(CHILD);
    history.record("Add Entity".to_string(), before, after, &mut document);
    assert!(history.can_undo());

    let restored = history.activate(HistoryAction::Undo, &mut document).unwrap();
    assert_eq!(restored.nodes.len(), 1);
    assert_eq!(restored.selected, Some(ROOT));
    assert_eq!(restored.nodes[0].id, ROOT);
    assert!(history.can_redo());
}

#[test]
fn undo_on_an_empty_history_changes_nothing() {
    let mut history = SceneHistory::new();
    let mut document = SceneDocument::new();
    assert!(history.activate(HistoryAction::Undo, &mut document).is_none());
    assert!(history.activate(HistoryAction::Redo, &mut document).is_none());
    assert!(history.button_disabled(HistoryAction::Undo));
    assert_eq!(history.status_text(), "No history");
}

#[test]
fn an_unchanged_action_is_not_recorded() {
    let mut history = SceneHistory::new();
    let mut document = SceneDocument::new();
    history.record("Nothing".to_string(), snapshot("Root", 1), snapshot("Root", 1), &mut document);
    assert!(!history.can_undo());
    assert!(!document.dirty);
}

#[test]
fn undo_then_redo_labels_follow_the_stacks() {
    let mut history = SceneHistory::new();
    let mut document = SceneDocument::new();
    history.record("First".to_string(), snapshot("Root", 0), snapshot("Root", 1), &mut document);
    history.record("Second".to_string(), snapshot("Root", 1), snapshot("Root", 2), &mut document);
    assert_eq!(history.status_text(), "Undo: Second");
    history.activate(HistoryAction::Undo, &mut document);
    assert_eq!(history.undo_label(), Some("First"));
    assert_eq!(history.redo_label(), Some("Second"));
    history.activate(HistoryAction::Redo, &mut document);
    assert_eq!(history.undo_label(), Some("Second"));
    assert_eq!(history.redo_label(), None);
}

#[test]
fn the_history_keeps_at_most_its_limit() {
    let mut history = SceneHistory::new();
    let mut document = SceneDocument::new();
    for i in 0..300 {
        history.record(format!("Step {i}"), snapshot("Root", i), snapshot("Root", i + 1), &mut document);
    }
    let mut undone = 0;
    while history.activate(HistoryAction::Undo, &mut document).is_some() {
        undone += 1;
    }
    assert_eq!(undone, editor::undo::HISTORY_LIMIT);
}

#[test]
fn keyboard_shortcuts_choose_undo_or_redo() {
    assert_eq!(history_shortcut(false, true, false, true, false), Some(HistoryAction::Undo));
    assert_eq!(history_shortcut(false, true, true, true, false), Some(HistoryAction::Redo));
    assert_eq!(history_shortcut(false, true, false, false, true), Some(HistoryAction::Redo));
    assert_eq!(history_shortcut(false, false, false, true, false), None);
    assert_eq!(history_shortcut(true, true, false, true, false), None);
    assert_eq!(history_shortcut(false, true, false, false, false), None);
}

#[test]
fn commit_records_the_pending_action_and_requests_are_queued() {
    let mut history = SceneHistory::with_saved(snapshot("Root", 0));
    let mut document = SceneDocument::new();
    history.begin("Edit Transform".to_string(), snapshot("Root", 0));
    assert!(history.has_pending());
    history.commit("Edit Transform".to_string(), snapshot("Root", 0), snapshot("Root", 5), &mut document);
    assert!(!history.has_pending());
    assert_eq!(history.undo_label(), Some("Edit Transform"));
    assert!(document.dirty);
    assert!(!history.has_request());
    history.request_mark_saved();
    assert!(history.has_request());
    history.process_request(snapshot("Root", 5), &mut document);
    assert!(!history.has_request());
    assert!(!document.dirty);
}

#[test]
fn an_unchanged_commit_records_nothing() {
    let mut history = SceneHistory::with_saved(snapshot("Root", 0));
    let mut document = SceneDocument::new();
    history.commit("Nothing".to_string(), snapshot("Root", 0), snapshot("Root", 0), &mut document);
    assert!(!history.can_undo());
    assert!(!document.dirty);
}
