use editor::scene::{
    check_unique_ids, id_text, normalize_scene_filename, parse_node_space, quoted_value,
    ron_string, scene_loader, unsigned_value, validate_hierarchy, SceneDocument, SceneLink,
    SceneLoader, FileSystemState, OpenSceneFailure,
};
use editor::workspace::SceneSpace;
use editor::scene::{last_scene_from, last_scene_state, last_scene_text, save_shortcut};
use editor::scene::{apply_opened_scene, close_scene, new_scene_path, require_scene_root};
use editor::selection::Selection;
use editor::undo::SceneHistory;
use editor::workspace::{EditorViewMode, WorkspaceMode, WorkspaceState};

const ROOT_ID: u128 = 1;
const CHILD_ID: u128 = 2;

fn link(id: u128, parent: Option<u128>, name: &str) -> SceneLink {
    SceneLink { id, parent, name: name.to_string() }
}

#[test]
fn normalizes_scene_extension() {
    assert_eq!(normalize_scene_filename("main"), Ok("main.bsn".into()));
    assert_eq!(normalize_scene_filename("main.bsn"), Ok("main.bsn".into()));
    assert!(normalize_scene_filename("folder/main").is_err());
}

#[test]
fn scene_file_names_are_trimmed_and_checked() {
    assert_eq!(normalize_scene_filename("  Level.BSN "), Ok("Level.BSN".into()));
    assert_eq!(
        normalize_scene_filename("   "),
        Err("Enter a scene file name.".to_string())
    );
    assert_eq!(
        normalize_scene_filename(".."),
        Err("Use a file name, not a folder path.".to_string())
    );
    assert!(normalize_scene_filename("a\\b").is_err());
}

#[test]
fn v2_scene_save_rejects_duplicate_ids() {
    let error = check_unique_ids(&vec![ROOT_ID, ROOT_ID]).unwrap_err();
    assert!(error.contains("duplicate"));
    assert_eq!(
        error,
        "duplicate scene entity ID: 00000000000000000000000000000001"
    );
    assert!(check_unique_ids(&vec![ROOT_ID, CHILD_ID]).is_ok());
}

#[test]
fn v2_scene_save_rejects_missing_parent() {
    let nodes = vec![
        link(ROOT_ID, None, "Root"),
        link(CHILD_ID, Some(9), "Orphan"),
    ];
    let error = validate_hierarchy(ROOT_ID, &nodes).unwrap_err();
    assert!(error.contains("missing parent"));
}

#[test]
fn v2_scene_save_rejects_hierarchy_cycles() {
    let third_id = 3u128;
    let nodes = vec![
        link(ROOT_ID, None, "Root"),
        link(CHILD_ID, Some(third_id), "Child"),
        link(third_id, Some(CHILD_ID), "Grandchild"),
    ];
    let error = validate_hierarchy(ROOT_ID, &nodes).unwrap_err();
    assert!(error.contains("cycle"));
}

#[test]
fn hierarchy_errors_name_the_entity() {
    assert_eq!(
        validate_hierarchy(ROOT_ID, &vec![link(CHILD_ID, None, "Lonely")]),
        Err("root entity is missing".to_string())
    );
    assert_eq!(
        validate_hierarchy(ROOT_ID, &vec![link(ROOT_ID, Some(CHILD_ID), "Root"), link(CHILD_ID, None, "Other")]),
        Err("root entity cannot have a parent".to_string())
    );
    assert_eq!(
        validate_hierarchy(ROOT_ID, &vec![link(ROOT_ID, None, "Root"), link(CHILD_ID, None, "Loose")]),
        Err("entity Loose has no parent".to_string())
    );
    assert_eq!(
        validate_hierarchy(ROOT_ID, &vec![link(ROOT_ID, None, "Root"), link(CHILD_ID, Some(CHILD_ID), "Self")]),
        Err("entity Self cannot parent itself".to_string())
    );
    let tree = vec![
        link(ROOT_ID, None, "Root"),
        link(CHILD_ID, Some(ROOT_ID), "Child"),
        link(3, Some(CHILD_ID), "Grandchild"),
    ];
    assert_eq!(validate_hierarchy(ROOT_ID, &tree), Ok(()));
}

#[test]
fn node_spaces_come_from_the_explicit_space_or_the_kind() {
    assert_eq!(parse_node_space("mesh3d", None), Ok(SceneSpace::ThreeD));
    assert_eq!(parse_node_space("sprite2d", None), Ok(SceneSpace::TwoD));
    assert_eq!(parse_node_space("empty", Some("3d")), Ok(SceneSpace::ThreeD));
    assert_eq!(
        parse_node_space("empty", None),
        Err("logical empty entity requires an explicit space".to_string())
    );
    assert_eq!(
        parse_node_space("x", Some("4d")),
        Err("unsupported entity space: 4d".to_string())
    );
    assert_eq!(
        parse_node_space("teapot", None),
        Err("unsupported scene kind: teapot".to_string())
    );
}

#[test]
fn ids_are_thirty_two_lower_hex_digits() {
    assert_eq!(id_text(1), "00000000000000000000000000000001");
    assert_eq!(id_text(0xabc), "00000000000000000000000000000abc");
    assert_eq!(id_text(u128::MAX), "ffffffffffffffffffffffffffffffff");
}

#[test]
fn ron_strings_escape_quotes_backslashes_and_newlines() {
    assert_eq!(ron_string("a\"b\\c\nd"), "a\\\"b\\\\c\\nd");
}

#[test]
fn scene_lines_give_numbers_and_quoted_text() {
    assert_eq!(unsigned_value("  format_version: 2,", "format_version:"), Some(2));
    assert_eq!(unsigned_value("format_version: x", "format_version:"), None);
    assert_eq!(unsigned_value("nothing here", "format_version:"), None);
    assert_eq!(
        quoted_value("(name: \"Say \\\"hi\\\"\", kind: \"sprite2d\")", "name:"),
        Some("Say \\".to_string())
    );
    assert_eq!(
        quoted_value("(name: \"Root\", kind: \"empty3d\")", "kind:"),
        Some("empty3d".to_string())
    );
    assert_eq!(quoted_value("root: Root", "root:"), None);
}

#[test]
fn scene_files_choose_their_loader() {
    assert_eq!(scene_loader("levels/main.BSN", "anything"), Ok(SceneLoader::Bsn));
    assert_eq!(scene_loader("old.scene", "(root: \"Root\")"), Ok(SceneLoader::Legacy));
    assert_eq!(
        scene_loader("old.scene", "(\n  format_version: 2,\n)"),
        Ok(SceneLoader::RonV2)
    );
    assert_eq!(
        scene_loader("old.scene", "(\n  format_version: 3,\n)"),
        Err("unsupported scene format version: 3".to_string())
    );
}

#[test]
fn saving_a_new_scene_opens_the_dialog_in_the_scenes_folder() {
    let mut document = SceneDocument::new();
    document.request_save("/games/demo");
    assert!(document.dialog.open);
    assert_eq!(document.dialog.folder, "/games/demo/assets/scenes");
    document.finish_save_as("/games/demo/assets/scenes/level.bsn".to_string());
    assert_eq!(document.name, "level.bsn");
    assert!(!document.dirty);
}

#[test]
fn the_last_scene_is_remembered_in_the_state_file() {
    let text = last_scene_text("assets/scenes/a \"b\".bsn");
    assert_eq!(text, "(last_scene: \"assets/scenes/a \\\"b\\\".bsn\")\n");
    assert_eq!(last_scene_from("(last_scene: \"assets/main.bsn\")\n"), Some("assets/main.bsn".to_string()));
    assert_eq!(last_scene_from("(other: 1)\n"), None);
}

#[test]
fn control_s_saves_and_escape_closes_the_save_dialog() {
    assert!(save_shortcut(true, true));
    assert!(!save_shortcut(false, true));
    assert!(!save_shortcut(true, false));
    let mut document = SceneDocument::new();
    let before = document.revision();
    document.escape();
    assert_eq!(document.revision(), before);
    document.request_save("/games/demo");
    assert!(document.dialog.open);
    document.escape();
    assert!(!document.dialog.open);
    assert!(document.dialog.error.is_empty());
}

#[test]
fn saving_checks_the_root_and_the_folder() {
    assert_eq!(require_scene_root(true), Ok(()));
    assert_eq!(
        require_scene_root(false),
        Err("Create a 2D or 3D scene root before saving.".to_string())
    );
    let mut document = SceneDocument::new();
    document.dialog.folder = "   ".to_string();
    assert_eq!(document.save_folder(), Err("Choose a folder for this scene.".to_string()));
    document.dialog.folder = "relative/scenes".to_string();
    assert_eq!(
        document.save_folder(),
        Err("Choose an absolute scene folder or use Browse.".to_string())
    );
    document.dialog.folder = " /games/demo/scenes ".to_string();
    assert_eq!(document.save_folder(), Ok(Some("/games/demo/scenes".to_string())));
    assert_eq!(
        new_scene_path("/games/demo/scenes", "level"),
        Ok("/games/demo/scenes/level.bsn".to_string())
    );
    assert!(new_scene_path("/games/demo/scenes", "a/b").is_err());
    document.finish_save_as("/games/demo/scenes/level.bsn".to_string());
    assert_eq!(document.save_folder(), Ok(None));
}

#[test]
fn save_outcomes_update_the_document() {
    let mut document = SceneDocument::new();
    document.finish_open("/games/demo/assets/scenes/main.bsn".to_string());
    assert!(document.open);
    assert!(!document.dirty);
    assert_eq!(document.name, "main.bsn");
    assert!(!document.save_dialog_open());
    document.dirty = true;
    document.show_save_error("disk full".to_string());
    assert!(document.save_dialog_open());
    assert_eq!(document.dialog.error, "disk full");
    assert!(document.dirty);
    let before = document.revision();
    document.finish_save_existing();
    assert!(!document.dirty);
    assert!(document.dialog.error.is_empty());
    assert_eq!(document.revision(), before.wrapping_add(1));
}

#[test]
fn opening_and_closing_a_scene_reset_the_workspace() {
    let mut workspace = WorkspaceState::default();
    apply_opened_scene(&mut workspace, WorkspaceMode::ThreeD, 42);
    assert_eq!(workspace.mode, WorkspaceMode::ThreeD);
    assert_eq!(workspace.view, EditorViewMode::ThreeD);
    assert_eq!(workspace.selection, Selection(Some(42)));
    assert_eq!(workspace.saved.get(WorkspaceMode::ThreeD), Some(42));
    let mut document = SceneDocument::new();
    document.finish_open("/games/demo/assets/scenes/main.bsn".to_string());
    let mut history = SceneHistory::new();
    close_scene(&mut document, &mut workspace, &mut history);
    assert!(!document.open);
    assert_eq!(document.path, None);
    assert!(document.name.is_empty());
    assert_eq!(workspace.mode, WorkspaceMode::TwoD);
    assert_eq!(workspace.view, EditorViewMode::TwoD);
    assert_eq!(workspace.selection, Selection(None));
    assert_eq!(workspace.saved.get(WorkspaceMode::ThreeD), None);
    assert!(history.has_request());
}

#[test]
fn the_state_file_reads_back_the_scene_it_remembers() {
    for relative in ["assets/scenes/level.bsn", "assets\\odd\\name.bsn", "", "a b/c.bsn"] {
        assert_eq!(last_scene_from(&last_scene_text(relative)), Some(relative.to_string()));
    }
    assert_eq!(
        last_scene_state("/games/demo", Some("/games/demo/assets/scenes/main.bsn")),
        "(last_scene: \"assets/scenes/main.bsn\")\n"
    );
    assert_eq!(last_scene_state("/games/demo", Some("/elsewhere/main.bsn")), "(last_scene: \"\")\n");
    assert_eq!(last_scene_state("/games/demo", None), "(last_scene: \"\")\n");
}

#[test]
fn normalizing_a_normalized_scene_name_changes_nothing() {
    let once = normalize_scene_filename("  level  ").unwrap();
    assert_eq!(once, "level.bsn");
    assert_eq!(normalize_scene_filename(&once), Ok(once.clone()));
    let upper = normalize_scene_filename("Main.BSN").unwrap();
    assert_eq!(upper, "Main.BSN");
    assert_eq!(normalize_scene_filename(&upper), Ok(upper.clone()));
}

#[test]
fn scenes_that_do_not_open_report_why() {
    let mut files = FileSystemState { status: String::new(), revision: 4 };
    files.report_open_failure(r"assets\scenes\gone.bsn", OpenSceneFailure::NotFound);
    assert_eq!(files.status, "Scene not found: assets/scenes/gone.bsn");
    assert_eq!(files.revision, 5);
    files.report_open_failure("a.bsn", OpenSceneFailure::LoadFailed("bad header".to_string()));
    assert_eq!(files.status, "Open scene failed: bad header");
    files.report_open_failure("a.bsn", OpenSceneFailure::RootMissing);
    assert_eq!(files.status, "Open scene failed: root entity is missing");
    assert_eq!(files.revision, 7);
}
