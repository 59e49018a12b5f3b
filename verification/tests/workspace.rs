use editor::selection::Selection;
use editor::workspace::{
    gizmo_focus, helpers_2d_visible, helpers_3d_visible, matches_mode, object_visible, panel_visible, EditorViewMode, EditorViewPanel,
    SceneSpace, WorkspaceMode, WorkspaceSelections, WorkspaceState,
};

#[test]
fn workspace_selections_are_independent() {
    let entity_2d = 2u64;
    let entity_3d = 3u64;
    let mut selections = WorkspaceSelections::default();

    selections.set(WorkspaceMode::TwoD, Some(entity_2d));
    selections.set(WorkspaceMode::ThreeD, Some(entity_3d));

    assert_eq!(selections.get(WorkspaceMode::TwoD), Some(entity_2d));
    assert_eq!(selections.get(WorkspaceMode::ThreeD), Some(entity_3d));
}

#[test]
fn activating_tabs_restores_each_workspaces_selection() {
    let entity_2d = 2u64;
    let entity_3d = 3u64;
    let spaces = vec![(entity_2d, SceneSpace::TwoD), (entity_3d, SceneSpace::ThreeD)];
    let mut state = WorkspaceState::default();
    state.mode = WorkspaceMode::ThreeD;
    state.selection = Selection(Some(entity_3d));
    state.saved.set(WorkspaceMode::TwoD, Some(entity_2d));
    state.saved.set(WorkspaceMode::ThreeD, Some(entity_3d));

    state.activate_workspace_tab(WorkspaceMode::TwoD, &spaces);
    assert_eq!(state.mode, WorkspaceMode::TwoD);
    assert_eq!(state.selection.0, Some(entity_2d));

    state.activate_workspace_tab(WorkspaceMode::ThreeD, &spaces);
    assert_eq!(state.mode, WorkspaceMode::ThreeD);
    assert_eq!(state.selection.0, Some(entity_3d));
}

#[test]
fn main_editor_views_switch_scene_dimension_without_losing_selection() {
    let entity_2d = 2u64;
    let entity_3d = 3u64;
    let spaces = vec![(entity_2d, SceneSpace::TwoD), (entity_3d, SceneSpace::ThreeD)];
    let mut state = WorkspaceState::default();
    state.saved.set(WorkspaceMode::TwoD, Some(entity_2d));
    state.saved.set(WorkspaceMode::ThreeD, Some(entity_3d));
    state.selection = Selection(Some(entity_2d));

    state.activate_editor_view(EditorViewMode::ThreeD, &spaces);
    assert_eq!(state.view, EditorViewMode::ThreeD);
    assert_eq!(state.mode, WorkspaceMode::ThreeD);
    assert_eq!(state.selection.0, Some(entity_3d));

    state.activate_editor_view(EditorViewMode::Game, &spaces);
    assert_eq!(state.view, EditorViewMode::Game);
    assert_eq!(state.mode, WorkspaceMode::ThreeD);
    assert_eq!(state.selection.0, Some(entity_3d));
}

#[test]
fn a_remembered_selection_from_the_other_space_is_not_restored() {
    let spaces = vec![(5u64, SceneSpace::ThreeD)];
    let mut state = WorkspaceState::default();
    state.saved.set(WorkspaceMode::ThreeD, Some(5));
    state.saved.set(WorkspaceMode::TwoD, Some(5));
    state.mode = WorkspaceMode::ThreeD;
    state.selection = Selection(Some(5));
    state.activate_workspace_tab(WorkspaceMode::TwoD, &spaces);
    assert_eq!(state.selection.0, None);
}

#[test]
fn tab_round_trip_returns_to_the_same_state() {
    let spaces = vec![(2u64, SceneSpace::TwoD), (3u64, SceneSpace::ThreeD)];
    let mut state = WorkspaceState::default();
    state.selection = Selection(Some(2));
    state.saved.set(WorkspaceMode::ThreeD, Some(3));
    let before = state;
    state.activate_workspace_tab(WorkspaceMode::ThreeD, &spaces);
    state.activate_workspace_tab(WorkspaceMode::TwoD, &spaces);
    assert_eq!(state.mode, before.mode);
    assert_eq!(state.selection, before.selection);
}

#[test]
fn labels_and_visibility_follow_the_view() {
    assert_eq!(WorkspaceMode::TwoD.label(), "2D");
    assert_eq!(EditorViewMode::AssetStore.label(), "AssetStore");
    assert_eq!(EditorViewMode::Game.workspace_mode(), None);
    assert!(matches_mode(WorkspaceMode::ThreeD, SceneSpace::ThreeD));
    assert!(!matches_mode(WorkspaceMode::TwoD, SceneSpace::ThreeD));
    assert!(panel_visible(EditorViewPanel::Game, EditorViewMode::Game));
    assert!(!panel_visible(EditorViewPanel::Scene, EditorViewMode::Game));
    assert!(object_visible(WorkspaceMode::TwoD, EditorViewMode::TwoD, SceneSpace::TwoD));
    assert_eq!(gizmo_focus(WorkspaceMode::ThreeD, Selection(Some(4))), Some(4));
    assert_eq!(gizmo_focus(WorkspaceMode::TwoD, Selection(Some(4))), None);
}

#[test]
fn helpers_follow_the_view_and_selections_are_remembered_on_change() {
    assert!(helpers_3d_visible(EditorViewMode::ThreeD));
    assert!(!helpers_3d_visible(EditorViewMode::TwoD));
    assert!(helpers_2d_visible(EditorViewMode::TwoD));
    assert!(!helpers_2d_visible(EditorViewMode::Game));
    let mut state = WorkspaceState::default();
    state.selection = Selection(Some(9));
    state.remember_selection(false);
    assert_eq!(state.saved.get(WorkspaceMode::TwoD), None);
    state.remember_selection(true);
    assert_eq!(state.saved.get(WorkspaceMode::TwoD), Some(9));
    assert_eq!(state.saved.get(WorkspaceMode::ThreeD), None);
}
