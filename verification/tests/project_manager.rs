use editor::project_manager::model::{
    check_cargo_manifest, check_project_manifest, icon_candidate_list, parse_recent_config,
    path_string, project_files, project_from_disk, project_metadata, safe_relative, same_path, ManifestInfo,
    ProjectMetadata, ProjectSort, RecentProject, RecentProjects,
};
use editor::project_manager::{DialogKind, DialogState, ManagerState};
use editor::project_manager::{ManagerAction, ManagerEffect};
use editor::project_manager::{project_row_text, validation_line, ProjectListView};
use editor::project_manager::model::relative_time;
use editor::project_manager::model::{TargetState, creation_target, fill_template, template_values};

const CARGO: &str = "[package]\nname = \"demo\"\nversion = \"0.1.0\"\n\n[dependencies]\narisna_engine = { path = \"engine\" }\n";

fn metadata(name: &str) -> ProjectMetadata {
    ProjectMetadata { name: name.to_string(), format_version: 1, icon: None }
}

fn record(path: &str, name: &str, last_opened: u64) -> RecentProject {
    project_from_disk(path, last_opened, Ok(metadata(name)))
}

#[test]
fn validates_supported_project_manifest() {
    let manifest = Ok("[project]\nname = \"Demo\"\nformat_version = 1\n".to_string());
    let info = check_project_manifest(&manifest).unwrap();
    assert_eq!(info.name, "Demo");
    assert_eq!(info.format_version, 1);
    assert!(check_cargo_manifest(&Ok(CARGO.to_string())).is_none());

    let metadata = project_metadata("/games/demo", true, true, Ok(info), true, &vec![false, false]).unwrap();
    assert_eq!(metadata.name, "Demo");
    assert_eq!(metadata.format_version, 1);
    assert_eq!(metadata.icon, None);
}

#[test]
fn rejects_invalid_and_future_project_manifests() {
    let manifest = Ok("[project]\nname = \"Demo\"\nformat_version = 99\n".to_string());
    let error = check_project_manifest(&manifest).unwrap_err();
    assert!(error.contains("Unsupported project format"));
    assert_eq!(error, "Unsupported project format 99; expected 1");

    let negative = Ok("[project]\nname = \"Demo\"\nformat_version = -3\n".to_string());
    assert_eq!(
        check_project_manifest(&negative).unwrap_err(),
        "Unsupported project format -3; expected 1"
    );
    let invalid = check_project_manifest(&Ok("[project\nname=".to_string())).unwrap_err();
    assert!(invalid.starts_with("Invalid project.toml: "));
}

#[test]
fn rejects_non_revy_rust_project() {
    let cargo = Ok("[package]\nname = \"demo\"\nversion = \"0.1.0\"\n".to_string());
    let error = check_cargo_manifest(&cargo).unwrap();
    assert!(error.contains("revy_engine"));
    let revy = Ok("[dependencies]\nrevy_engine = \"1\"\n".to_string());
    assert!(check_cargo_manifest(&revy).is_none());
}

#[test]
fn manifest_errors_come_in_order() {
    assert_eq!(
        check_project_manifest(&Err("denied".to_string())).unwrap_err(),
        "Cannot read project.toml: denied"
    );
    assert_eq!(
        check_project_manifest(&Ok("name = \"x\"\n".to_string())).unwrap_err(),
        "project.toml is missing [project]"
    );
    assert_eq!(
        check_project_manifest(&Ok("project = 3\n".to_string())).unwrap_err(),
        "project.toml is missing [project]"
    );
    assert_eq!(
        check_project_manifest(&Ok("[project]\nname = \"  \"\nformat_version = 1\n".to_string())).unwrap_err(),
        "project.name must be a non-empty string"
    );
    assert_eq!(
        check_project_manifest(&Ok("[project]\nname = \"A\"\nformat_version = \"1\"\n".to_string())).unwrap_err(),
        "project.format_version must be an integer"
    );
    let inline = check_project_manifest(&Ok("project = { name = \" Inline \", format_version = 1, icon = \"art/i.png\" }\n".to_string())).unwrap();
    assert_eq!(inline.name, "Inline");
    assert_eq!(inline.icon, Some("art/i.png".to_string()));
    assert_eq!(
        check_cargo_manifest(&Err("gone".to_string())),
        Some("Cannot read Cargo.toml: gone".to_string())
    );
}

#[test]
fn project_folder_checks_and_icons() {
    let info = || ManifestInfo { name: "Demo".to_string(), format_version: 1, icon: Some("../x.png".to_string()) };
    assert_eq!(
        project_metadata("/p", false, false, Ok(info()), true, &vec![]).unwrap_err(),
        "Project folder does not exist"
    );
    assert_eq!(
        project_metadata("/p", true, false, Ok(info()), true, &vec![]).unwrap_err(),
        "Project path is not a folder"
    );
    assert_eq!(
        project_metadata("/p", true, true, Err("bad".to_string()), true, &vec![]).unwrap_err(),
        "bad"
    );
    assert_eq!(
        project_metadata("/p", true, true, Ok(info()), false, &vec![]).unwrap_err(),
        "Project is missing src/main.rs"
    );
    let found = project_metadata("/p", true, true, Ok(info()), true, &vec![true, false, true]).unwrap();
    assert_eq!(found.icon, Some("/p/assets/icon.png".to_string()));
    assert_eq!(icon_candidate_list(&None), vec!["icon.png".to_string(), "assets/icon.png".to_string()]);
    assert!(safe_relative("assets/icon.png"));
    assert!(!safe_relative("/etc/icon.png"));
    assert!(!safe_relative("a/../../b.png"));
}

#[test]
fn valid_empty_recent_list_stays_empty() {
    let config = parse_recent_config("format_version = 1\nlast_project = \"\"\n").unwrap();
    let recents = RecentProjects::from_config(config, Vec::new());

    assert!(recents.projects.is_empty());
    assert!(recents.last_project.is_none());
}

#[test]
fn saved_list_keeps_first_entry_per_folder_and_sorts_by_recency() {
    let source = "format_version = 1\nlast_project = \"/b\"\n\n[[projects]]\npath = \"/a\"\nlast_opened = 5\n\n[[projects]]\npath = \"/b\"\nlast_opened = 9\n\n[[projects]]\npath = \"/a\"\nlast_opened = 50\n\n[[projects]]\nlast_opened = 7\n\n[[projects]]\npath = \"/c\"\nlast_opened = -4\n";
    let config = parse_recent_config(source).unwrap();
    assert_eq!(config.last_project, Some("/b".to_string()));
    assert_eq!(
        config.entries,
        vec![("/a".to_string(), 5), ("/b".to_string(), 9), ("/c".to_string(), 0)]
    );
    let recents = RecentProjects::from_config(
        config,
        vec![Ok(metadata("Alpha")), Ok(metadata("Beta")), Err("missing".to_string())],
    );
    let paths: Vec<&str> = recents.projects.iter().map(|p| p.path.as_str()).collect();
    assert_eq!(paths, vec!["/b", "/a", "/c"]);
    assert_eq!(recents.projects[2].name, "c");
    assert_eq!(recents.projects[2].validation_error, Some("missing".to_string()));
    assert!(parse_recent_config("not = [valid").is_none());
}

#[test]
fn windows_verbatim_and_regular_paths_match() {
    assert!(same_path(true, r"\\?\E:\Games\Demo", r"E:\Games\Demo"));
    assert!(same_path(true, r"e:\games\DEMO", r"E:/Games/Demo"));
    assert!(!same_path(true, r"E:\Games\Demo", r"E:\Games\Other"));
    assert!(same_path(false, "/games/demo", "/games/demo"));
    assert!(!same_path(false, "/games/demo", "/games/other"));
    assert_eq!(path_string("/games/demo"), "/games/demo");
    assert_eq!(path_string(r"\\?\UNC\server\share\Demo"), "//server/share/Demo");
    assert_eq!(path_string(r"\\?\E:\Games\Demo"), "E:/Games/Demo");
}

#[test]
fn reopening_project_updates_one_cached_record() {
    let root = "/games/reopen";
    let mut recents = RecentProjects::default();

    let canonical = recents.add_or_update(Ok(root.to_string()), Ok(metadata("Demo")), 10).unwrap();
    recents.add_or_update(Ok(root.to_string()), Ok(metadata("Demo")), 20).unwrap();

    assert_eq!(recents.projects.len(), 1);
    assert_eq!(recents.projects[0].last_opened, 20);
    assert!(same_path(recents.windows, &recents.projects[0].path, &canonical));
    assert!(recents
        .last_project
        .as_ref()
        .is_some_and(|path| same_path(recents.windows, path, &canonical)));
}

#[test]
fn opening_fails_without_changing_the_list() {
    let mut recents = RecentProjects::default();
    assert_eq!(
        recents.add_or_update(Err("no such folder".to_string()), Ok(metadata("Demo")), 1),
        Err("Cannot open project folder: no such folder".to_string())
    );
    assert_eq!(
        recents.add_or_update(Ok("/x".to_string()), Err("invalid".to_string()), 1),
        Err("invalid".to_string())
    );
    assert!(recents.projects.is_empty());
    assert!(recents.last_project.is_none());
}

#[test]
fn removing_cached_project_keeps_files_on_disk() {
    let root = "/games/keep-me";
    let mut recents = RecentProjects::default();
    recents.add_or_update(Ok(root.to_string()), Ok(metadata("Keep Me")), 10).unwrap();

    recents.remove(root);

    assert!(recents.projects.is_empty());
    assert!(recents.last_project.is_none());
}

#[test]
fn remove_missing_keeps_existing_projects() {
    let root = "/games/existing";
    let missing = "/games/existing-missing";
    let existing = record(root, "Existing", 20);
    let missing_record = project_from_disk(missing, 10, Err("Project folder does not exist".to_string()));
    let mut recents = RecentProjects {
        windows: false,
        projects: vec![existing, missing_record],
        last_project: Some(missing.to_string()),
    };

    assert_eq!(recents.remove_flagged(&vec![false, true]), 1);
    assert_eq!(recents.projects.len(), 1);
    assert!(same_path(recents.windows, &recents.projects[0].path, root));
    assert!(recents
        .last_project
        .as_ref()
        .is_some_and(|path| same_path(recents.windows, path, root)));
}

#[test]
fn saved_list_text_lists_every_project() {
    let recents = RecentProjects {
        windows: false,
        projects: vec![record("/a \"q\"", "A", 3)],
        last_project: None,
    };
    assert_eq!(
        recents.config_source(),
        "format_version = 1\nlast_project = \"\"\n\n[[projects]]\npath = \"/a \\\"q\\\"\"\nlast_opened = 3\n"
    );
}

#[test]
fn new_project_activation_opens_create_dialog() {
    let mut state = ManagerState::new(RecentProjects::default());
    let mut dialog = DialogState::default();
    let effect = state.handle_action(&mut dialog, ManagerAction::NewProject, "/home/me/Revy Projects".to_string());
    assert_eq!(effect, ManagerEffect::Done);
    assert_eq!(dialog.kind, DialogKind::Create);
    assert_eq!(dialog.project_name, "My Game");
    assert_eq!(dialog.create_parent, "/home/me/Revy Projects");
}

#[test]
fn an_error_over_a_dialog_returns_to_it() {
    let mut dialog = DialogState::default();
    dialog.show_import();
    dialog.show_error("Could Not Import".to_string(), "bad".to_string());
    assert_eq!(dialog.kind, DialogKind::Error);
    dialog.close();
    assert_eq!(dialog.kind, DialogKind::Import);
    dialog.escape();
    assert_eq!(dialog.kind, DialogKind::Closed);
}

#[test]
fn manager_selects_the_last_project_and_filters_by_name() {
    let recents = RecentProjects {
        windows: false,
        projects: vec![record("/g/alpha", "Alpha", 9), record("/g/beta", "Beta Game", 5)],
        last_project: Some("/g/beta".to_string()),
    };
    let mut state = ManagerState::new(recents);
    assert_eq!(state.selected, Some("/g/beta".to_string()));
    assert_eq!(state.selected_project(), Some(1));
    assert_eq!(state.status, "2 project(s)");
    state.filter = "  GAME ".to_string();
    let visible = state.visible_projects();
    assert_eq!(visible.len(), 1);
    assert_eq!(visible[0].name, "Beta Game");
    state.filter = String::new();
    state.toggle_sort();
    assert_eq!(state.sort, ProjectSort::Name);
    let names: Vec<String> = state.visible_projects().iter().map(|p| p.name.clone()).collect();
    assert_eq!(names, vec!["Alpha".to_string(), "Beta Game".to_string()]);
}

#[test]
fn an_empty_manager_invites_a_first_project() {
    let state = ManagerState::new(RecentProjects::default());
    assert_eq!(state.selected, None);
    assert_eq!(state.status, "Create or import a project to get started");
}

#[test]
fn manager_buttons_ask_for_the_right_work() {
    let recents = RecentProjects {
        windows: false,
        projects: vec![record("/g/alpha", "Alpha", 9), record("/g/beta", "Beta", 5)],
        last_project: None,
    };
    let mut state = ManagerState::new(recents);
    let mut dialog = DialogState::default();
    assert_eq!(
        state.handle_action(&mut dialog, ManagerAction::OpenSelected, String::new()),
        ManagerEffect::Launch("/g/alpha".to_string())
    );
    assert_eq!(
        state.handle_action(&mut dialog, ManagerAction::NewProject, "/home/me/projects".to_string()),
        ManagerEffect::Done
    );
    assert_eq!(dialog.kind, DialogKind::Create);
    dialog.create_parent = "  /tmp/games ".to_string();
    assert_eq!(
        state.handle_action(&mut dialog, ManagerAction::ConfirmCreate, String::new()),
        ManagerEffect::Create("My Game".to_string(), "/tmp/games".to_string())
    );
    assert_eq!(
        state.created(&mut dialog, Err("Target folder is not empty: /tmp/games/My Game".to_string())),
        ManagerEffect::Done
    );
    assert_eq!(dialog.kind, DialogKind::Error);
    assert_eq!(dialog.error_title, "Project Creation Failed");
    assert_eq!(
        state.handle_action(&mut dialog, ManagerAction::CancelDialog, String::new()),
        ManagerEffect::Done
    );
    assert_eq!(dialog.kind, DialogKind::Create);
    assert_eq!(
        state.handle_action(&mut dialog, ManagerAction::RemoveSelected, String::new()),
        ManagerEffect::Persist
    );
    assert_eq!(state.recents.projects.len(), 1);
    assert_eq!(state.selected, Some("/g/beta".to_string()));
    assert_eq!(
        state.handle_action(&mut dialog, ManagerAction::RemoveMissing, String::new()),
        ManagerEffect::CheckMissing
    );
}

#[test]
fn importing_checks_the_folder_first() {
    let mut state = ManagerState::new(RecentProjects::default());
    let mut dialog = DialogState::default();
    assert_eq!(
        state.handle_action(&mut dialog, ManagerAction::ImportProject, String::new()),
        ManagerEffect::PickImportFolder
    );
    assert_eq!(
        state.import_picked(&mut dialog, Some("/games/x".to_string())),
        ManagerEffect::Import("/games/x".to_string())
    );
    assert_eq!(
        state.import_checked(&mut dialog, "/games/x".to_string(), Err("Project folder does not exist".to_string())),
        ManagerEffect::Done
    );
    assert_eq!(dialog.error_message, "/games/x\n\nProject folder does not exist");
    assert_eq!(state.status, "Import failed: Project folder does not exist");
    dialog.close();
    assert_eq!(dialog.kind, DialogKind::Import);
    assert_eq!(
        state.import_checked(&mut dialog, "/games/x".to_string(), Ok(metadata("X"))),
        ManagerEffect::Launch("/games/x".to_string())
    );
    assert_eq!(dialog.kind, DialogKind::Closed);
}

#[test]
fn launching_and_showing_folders_report_their_outcome() {
    let mut state = ManagerState::new(RecentProjects::default());
    let mut dialog = DialogState::default();
    assert!(!state.launch_recorded(&mut dialog, Err("Cannot open project folder: gone".to_string())));
    assert_eq!(state.status, "Cannot open project folder: gone");
    assert_eq!(dialog.error_title, "Could Not Open Project");
    assert!(state.launch_recorded(&mut dialog, Ok("/g/a".to_string())));
    assert_eq!(state.selected, Some("/g/a".to_string()));
    state.folder_shown(&mut dialog, "/g/a", Ok(()));
    assert_eq!(state.status, "Opened /g/a");
    assert_eq!(state.project_clicked("/g/b".to_string(), 2), ManagerEffect::Launch("/g/b".to_string()));
    assert_eq!(state.project_clicked("/g/b".to_string(), 1), ManagerEffect::Done);
    assert_eq!(state.status, "Selected /g/b");
}

#[test]
fn new_projects_are_planned_before_anything_is_written() {
    assert_eq!(
        creation_target("  ", "/p", "/cwd", &TargetState::Missing),
        Err("Project name cannot be empty".to_string())
    );
    assert_eq!(
        creation_target(" ... ", "/p", "/cwd", &TargetState::Missing),
        Err("Project name does not contain a valid folder name".to_string())
    );
    assert_eq!(
        creation_target(" My Game ", "p", "/cwd", &TargetState::Empty),
        Ok("/cwd/p/My Game".to_string())
    );
    assert_eq!(
        creation_target("Demo", "/p", "/cwd", &TargetState::NotEmpty),
        Err("Target folder is not empty: /p/Demo".to_string())
    );
    let values = template_values(" Quoted \"Game\"\\Next ", "/sdk/engine", "/sdk/vendor");
    assert_eq!(values.package_name, "quoted__game__next");
    assert_eq!(values.project_name_toml, "Quoted \\\"Game\\\"\\\\Next");
    assert_eq!(values.engine_path_toml, "/sdk/engine");
    let filled = fill_template(
        "name = \"{{NAME}}\"\ntitle = \"{{NAME}}\"\npath = \"{{PATH}}\"\n",
        &vec![("{{NAME}}".to_string(), values.project_name_toml.clone()), ("{{PATH}}".to_string(), values.engine_path_toml)],
    );
    assert_eq!(
        filled,
        "name = \"Quoted \\\"Game\\\"\\\\Next\"\ntitle = \"Quoted \\\"Game\\\"\\\\Next\"\npath = \"/sdk/engine\"\n"
    );
}

#[test]
fn a_saved_list_reads_back_as_written() {
    let recents = RecentProjects {
        windows: false,
        projects: vec![record("/g/b", "B", 9), record("/g/a \"x\"", "A", 5)],
        last_project: Some("/g/b".to_string()),
    };
    let config = parse_recent_config(&recents.config_source()).unwrap();
    assert_eq!(config.last_project, Some("/g/b".to_string()));
    assert_eq!(
        config.entries,
        vec![("/g/b".to_string(), 9), ("/g/a \"x\"".to_string(), 5)]
    );
}

#[test]
fn the_saved_order_is_most_recent_first() {
    let mut recents = RecentProjects::default();
    recents.add_or_update(Ok("/g/old".to_string()), Ok(metadata("Old")), 1).unwrap();
    recents.add_or_update(Ok("/g/new".to_string()), Ok(metadata("New")), 5).unwrap();
    recents.add_or_update(Ok("/g/also".to_string()), Ok(metadata("also")), 5).unwrap();
    let paths: Vec<&str> = recents.projects.iter().map(|p| p.path.as_str()).collect();
    assert_eq!(paths, vec!["/g/also", "/g/new", "/g/old"]);
    assert_eq!(recents.last_project, Some("/g/also".to_string()));
}

#[test]
fn the_list_shows_rows_or_says_why_it_is_empty() {
    let mut broken = record("/g/beta", "", 0);
    broken.validation_error = Some("project.toml is missing".to_string());
    let recents = RecentProjects {
        windows: false,
        projects: vec![record("/g/alpha", "Alpha", 1_000), broken],
        last_project: None,
    };
    let mut state = ManagerState::new(recents);
    match state.project_list_view(1_000 + 2 * 3_600) {
        ProjectListView::Rows(rows) => {
            assert_eq!(rows.len(), 2);
            assert_eq!(rows[0].name, "Alpha");
            assert_eq!(rows[0].initial, "A");
            assert_eq!(rows[0].summary, "Rust project  |  Format 1");
            assert!(!rows[0].needs_attention);
            assert_eq!(rows[0].last_opened, "2 hr ago");
            assert_eq!(rows[1].path, "/g/beta");
            assert_eq!(rows[1].summary, "Project needs attention");
            assert!(rows[1].needs_attention);
            assert_eq!(rows[1].last_opened, "Never opened");
        }
        ProjectListView::Empty { .. } => panic!("rows expected"),
    }
    state.filter = "zzz".to_string();
    match state.project_list_view(0) {
        ProjectListView::Empty { message, hint } => {
            assert_eq!(message, "No matching projects");
            assert_eq!(hint, "Use New Project or Import in the toolbar");
        }
        ProjectListView::Rows(_) => panic!("nothing matches"),
    }
    let empty = ManagerState::new(RecentProjects::default());
    match empty.project_list_view(0) {
        ProjectListView::Empty { message, .. } => assert_eq!(message, "No projects yet"),
        ProjectListView::Rows(_) => panic!("nothing is listed"),
    }
}

#[test]
fn a_row_initial_is_the_first_letter_of_the_name() {
    let row = project_row_text(&record("/g/zeta", "Zeta", 0), 0);
    assert_eq!(row.initial, "Z");
    assert_eq!(project_row_text(&record("/g/x", "", 0), 0).initial, "A");
}

#[test]
fn the_details_panel_describes_the_selection() {
    let mut broken = record("/g/beta", "Beta", 5);
    broken.validation_error = Some("Cargo.toml is missing".to_string());
    let recents = RecentProjects {
        windows: false,
        projects: vec![record("/g/alpha", "Alpha", 9), broken],
        last_project: Some("/g/beta".to_string()),
    };
    let mut state = ManagerState::new(recents);
    let details = state.details_text();
    assert_eq!(details.heading, "SELECTED PROJECT");
    assert_eq!(details.title, "Beta");
    assert_eq!(details.subtitle, "/g/beta");
    assert_eq!(details.ready, Some(false));
    assert_eq!(details.readiness, "Cannot open");
    assert_eq!(details.error, Some("Cargo.toml is missing".to_string()));
    state.select("/g/alpha".to_string());
    let details = state.details_text();
    assert_eq!(details.readiness, "Ready to open");
    assert_eq!(details.error, None);
    state.selected = None;
    let details = state.details_text();
    assert_eq!(details.heading, "PROJECT");
    assert_eq!(details.title, "Nothing selected");
    assert_eq!(details.subtitle, "Select a project from the list.");
    assert_eq!(details.ready, None);
}

#[test]
fn dialogs_show_a_validation_line_and_launch_failures() {
    assert_eq!(
        validation_line(DialogKind::Create, Ok("/games/demo".to_string())),
        Some(Ok("Ready to create".to_string()))
    );
    assert_eq!(
        validation_line(DialogKind::Import, Ok("Demo".to_string())),
        Some(Ok("Found project: Demo".to_string()))
    );
    assert_eq!(
        validation_line(DialogKind::Import, Err("project.toml is missing".to_string())),
        Some(Err("project.toml is missing".to_string()))
    );
    assert_eq!(validation_line(DialogKind::Closed, Ok("x".to_string())), None);
    let mut state = ManagerState::new(RecentProjects::default());
    let mut dialog = DialogState::default();
    state.launch_failed(&mut dialog, "editor binary not found".to_string());
    assert_eq!(state.status, "editor binary not found");
    assert_eq!(dialog.kind, DialogKind::Error);
    assert_eq!(dialog.error_title, "Could Not Open Project");
    assert_eq!(dialog.error_message, "editor binary not found");
}

#[test]
fn records_without_a_folder_are_dropped_by_remove_missing() {
    let mut broken = record("/nonexistent/revy/missing-project", "Gone", 3);
    broken.validation_error = Some("project.toml is missing".to_string());
    assert!(!broken.is_valid());
    assert!(record("/", "Root", 1).is_valid());
    let mut recents = RecentProjects {
        windows: false,
        projects: vec![record("/", "Root", 1), broken],
        last_project: None,
    };
    assert_eq!(recents.remove_missing(), 1);
    assert_eq!(recents.projects.len(), 1);
    assert_eq!(recents.projects[0].name, "Root");
    assert_eq!(relative_time(0), "Never opened");
}

#[test]
fn each_dialog_shows_its_title_and_buttons() {
    let mut dialog = DialogState::default();
    assert!(dialog.dialog_text().is_none());
    dialog.show_create("/games".to_string());
    let text = dialog.dialog_text().unwrap();
    assert_eq!(text.title, "Create New Project");
    assert_eq!(text.confirm, Some((ManagerAction::ConfirmCreate, "Create & Edit".to_string())));
    assert_eq!(text.dismiss, "Cancel");
    dialog.show_import();
    let text = dialog.dialog_text().unwrap();
    assert_eq!(text.title, "Import Existing Project");
    assert_eq!(text.hint, "Select a folder containing project.toml");
    assert_eq!(text.confirm, Some((ManagerAction::ConfirmImport, "Import & Edit".to_string())));
    dialog.show_error("Could Not Import".to_string(), "project.toml is missing".to_string());
    let text = dialog.dialog_text().unwrap();
    assert_eq!(text.title, "Could Not Import");
    assert_eq!(text.body, "project.toml is missing");
    assert_eq!(text.confirm, None);
    assert_eq!(text.dismiss, "Close");
}

#[test]
fn escapes_project_name_in_generated_toml_and_rust() {
    let name = "Quoted \"Game\"\\Next";
    let values = template_values(name, "/sdk/engine", "/sdk/vendor");
    let manifest = fill_template(
        "[project]\nname = \"{{PROJECT_NAME}}\"\nformat_version = 1\n",
        &vec![("{{PROJECT_NAME}}".to_string(), values.project_name_toml.clone())],
    );
    let info = check_project_manifest(&Ok(manifest)).unwrap();
    assert_eq!(info.name, name);
    let main = fill_template(
        "        title: \"{{PROJECT_NAME}}\".into(),\n",
        &vec![("{{PROJECT_NAME}}".to_string(), values.project_name_rust.clone())],
    );
    assert!(main.contains(r#"title: "Quoted \"Game\"\\Next".into()"#));
}

#[test]
fn repeating_a_successful_open_changes_nothing() {
    let mut recents = RecentProjects::default();
    recents.add_or_update(Ok("/g/one".to_string()), Ok(metadata("One")), 3).unwrap();
    recents.add_or_update(Ok("/g/two".to_string()), Ok(metadata("Two")), 7).unwrap();
    let before = format!("{:?}", recents);

    let again = recents.add_or_update(Ok("/g/two".to_string()), Ok(metadata("Two")), 7);

    assert_eq!(again, Ok("/g/two".to_string()));
    assert_eq!(format!("{:?}", recents), before);
}

#[test]
fn windows_rules_keep_one_record_per_folder_ignoring_case() {
    let mut recents = RecentProjects::default();
    recents.windows = true;
    recents.add_or_update(Ok(r"C:\Games\Demo".to_string()), Ok(metadata("Demo")), 1).unwrap();
    recents.add_or_update(Ok(r"\\?\c:\games\DEMO".to_string()), Ok(metadata("Demo")), 2).unwrap();

    assert_eq!(recents.projects.len(), 1);
    assert_eq!(recents.projects[0].last_opened, 2);
    assert_eq!(recents.last_project.as_deref(), Some(r"\\?\c:\games\DEMO"));
}

#[test]
fn validation_asks_about_files_under_the_project_root() {
    let (main, icons) = project_files("/g/demo", &Some("art/logo.png".to_string()));
    assert_eq!(main, "/g/demo/src/main.rs");
    assert_eq!(icons, vec!["/g/demo/art/logo.png", "/g/demo/icon.png", "/g/demo/assets/icon.png"]);
    let (_, defaults) = project_files("/g/demo", &None);
    assert_eq!(defaults, vec!["/g/demo/icon.png", "/g/demo/assets/icon.png"]);
}

#[test]
fn missing_checks_ask_about_each_record_folder() {
    let recents = RecentProjects {
        windows: false,
        projects: vec![record("/g/alpha", "Alpha", 9), record("/g/beta", "Beta", 5)],
        last_project: None,
    };
    assert_eq!(recents.folder_paths(), vec!["/g/alpha", "/g/beta"]);
}
