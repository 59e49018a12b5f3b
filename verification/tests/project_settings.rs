use editor::project_settings::{
    field_accepts_text, main_scene_file, main_scene_path, normalize_main_scene, parse_dimension,
    render_project_settings, saved_settings_text, toml_string, update_toml_section, validate_draft,
    project_relative_path, scene_path_in_project, settings_escape, settings_text_edit, EditKind, KeyModifiers, KeyPress, TextEditAction,
    ProjectDisplaySettings, ProjectMenuState, ProjectSettings, ProjectSettingsDialog,
    ProjectSettingsDraft, ProjectSettingsField, ProjectWindowSettings,
};

const NO_MODIFIERS: KeyModifiers =
    KeyModifiers { control: false, shift: false, alt: false, super_key: false };

const MISSING_ROOT: &str = "/nonexistent/revy/settings/project";

fn settings(width: u32, height: u32) -> ProjectSettings {
    ProjectSettings {
        name: "Edited Project".to_string(),
        main_scene: "assets/scenes/main.bsn".to_string(),
        window: ProjectWindowSettings {
            title: "Edited Window".to_string(),
            width,
            height,
            mode: "Borderless".to_string(),
            vsync: false,
        },
    }
}

fn draft(width: &str) -> ProjectSettingsDraft {
    ProjectSettingsDraft {
        project_name: "  Edited Project ".to_string(),
        main_scene: String::new(),
        window_title: "Edited Window".to_string(),
        window_width: width.to_string(),
        window_height: "810".to_string(),
        window_mode: "Borderless".to_string(),
        vsync: false,
    }
}

fn dialog() -> ProjectSettingsDialog {
    ProjectSettingsDialog {
        open: false,
        draft: draft("960"),
        status: String::new(),
        status_is_error: false,
        ignore_input_changes: false,
        active_input: None,
        replace_active_input: false,
    }
}

#[test]
fn project_settings_save_preserves_unrelated_manifest_values() {
    let source = "[project]\nname = \"Original\"\nformat_version = 1\nmain_scene = \"\"\n\n[custom]\nkeep = true\n";
    let rendered = saved_settings_text(&Ok(source.to_string()), &settings(1440, 810)).unwrap();
    assert!(rendered.contains("keep = true"));
    assert!(rendered.contains("name = \"Edited Project\""));
    assert!(rendered.contains("main_scene = \"assets/scenes/main.bsn\""));
    assert!(rendered.contains("format_version = 1"));
    assert!(rendered.contains("[display.window]\ntitle = \"Edited Window\"\nwidth = 1440\nheight = 810\nmode = \"Borderless\"\nvsync = false"));
}

#[test]
fn saving_settings_needs_a_readable_manifest_with_a_project_table() {
    assert_eq!(
        saved_settings_text(&Err("denied".to_string()), &settings(960, 540)),
        Err("Could not read project.toml: denied".to_string())
    );
    assert_eq!(
        saved_settings_text(&Ok("[other]\nx = 1\n".to_string()), &settings(960, 540)),
        Err("project.toml is missing [project]".to_string())
    );
    assert!(saved_settings_text(&Ok("[project\n".to_string()), &settings(960, 540))
        .unwrap_err()
        .starts_with("Invalid project.toml: "));
}

#[test]
fn project_settings_reject_paths_outside_the_project() {
    assert!(normalize_main_scene(MISSING_ROOT, "../outside.bsn").is_err());
    assert!(normalize_main_scene(MISSING_ROOT, "assets/scenes/missing.bsn").is_err());
    assert_eq!(
        normalize_main_scene(MISSING_ROOT, "assets/scenes/missing.bsn"),
        Err("Main Scene does not exist: res://assets/scenes/missing.bsn".to_string())
    );
}

#[test]
fn main_scene_paths_are_normalized() {
    assert_eq!(main_scene_path("res://assets\\scenes\\main.BSN"), Ok("assets/scenes/main.BSN".to_string()));
    assert_eq!(main_scene_path("  "), Ok(String::new()));
    assert_eq!(
        main_scene_path("/abs/main.bsn"),
        Err("Main Scene must stay inside the project directory.".to_string())
    );
    assert_eq!(
        main_scene_path("assets/main.ron"),
        Err("Main Scene must be a .bsn scene file.".to_string())
    );
}

#[test]
fn project_menu_toggles_without_opening_settings_directly() {
    let mut menu = ProjectMenuState::default();
    let settings_dialog = dialog();
    menu.toggle();
    assert!(menu.open);
    assert!(!settings_dialog.open);
    menu.toggle();
    assert!(!menu.open);
}

#[test]
fn a_click_outside_closes_the_project_menu() {
    let mut menu = ProjectMenuState { open: true };
    menu.click(true);
    assert!(menu.open);
    menu.click(false);
    assert!(!menu.open);
}

#[test]
fn project_display_settings_use_the_saved_window_resolution() {
    assert_eq!(
        ProjectDisplaySettings::from_settings(&settings(960, 540)),
        ProjectDisplaySettings { width: 960, height: 540 }
    );
}

#[test]
fn project_settings_routes_character_only_to_active_secondary_window_field() {
    let mut settings_dialog = dialog();
    settings_dialog.open = true;
    settings_dialog.activate_input(7);
    assert_eq!(settings_dialog.active_input, Some(7));
    assert!(settings_dialog.replace_active_input);
    let edit = settings_dialog.key_pressed(
        &KeyPress::Character("2".to_string()),
        None,
        NO_MODIFIERS,
        false,
        Some(ProjectSettingsField::WindowWidth),
    );
    assert_eq!(edit, Some((true, TextEditAction::Insert("2".to_string()))));
    assert!(!settings_dialog.replace_active_input);
    assert_eq!(settings_dialog.active_input, Some(7));
}

#[test]
fn project_settings_rejects_non_numeric_resolution_input() {
    let mut settings_dialog = dialog();
    settings_dialog.open = true;
    settings_dialog.activate_input(7);
    let edit = settings_dialog.key_pressed(
        &KeyPress::Character("x".to_string()),
        Some("x"),
        NO_MODIFIERS,
        false,
        Some(ProjectSettingsField::WindowWidth),
    );
    assert_eq!(edit, None);
    assert!(settings_dialog.replace_active_input);
    assert!(!field_accepts_text(ProjectSettingsField::WindowWidth, "x"));
    assert!(field_accepts_text(ProjectSettingsField::WindowWidth, "2"));
    assert!(field_accepts_text(ProjectSettingsField::WindowTitle, "x"));
}

#[test]
fn route_edit_selects_all_only_before_the_first_replacing_edit() {
    let mut settings_dialog = dialog();
    settings_dialog.open = true;
    settings_dialog.activate_input(7);
    assert!(settings_dialog.route_edit(EditKind::Insert));
    assert!(!settings_dialog.replace_active_input);
    assert!(!settings_dialog.route_edit(EditKind::Insert));
    settings_dialog.activate_input(8);
    assert!(!settings_dialog.route_edit(EditKind::Other));
    assert!(!settings_dialog.route_edit(EditKind::Backspace));
}

#[test]
fn command_keys_map_to_clipboard_and_selection_edits() {
    let control = KeyModifiers { control: true, shift: false, alt: false, super_key: false };
    let command_mac = KeyModifiers { control: false, shift: false, alt: false, super_key: true };
    let field = ProjectSettingsField::WindowTitle;
    let key = |c: &str| KeyPress::Character(c.to_string());
    assert_eq!(settings_text_edit(&key("A"), None, control, false, field), Some(TextEditAction::SelectAll));
    assert_eq!(settings_text_edit(&key("c"), None, control, false, field), Some(TextEditAction::Copy));
    assert_eq!(settings_text_edit(&key("x"), None, command_mac, true, field), Some(TextEditAction::Cut));
    assert_eq!(settings_text_edit(&key("V"), None, command_mac, true, field), Some(TextEditAction::Paste));
    // Control on macOS is not the command key, and other letters type nothing with it held.
    assert_eq!(settings_text_edit(&key("a"), Some("a"), control, true, field), Some(TextEditAction::Insert("a".to_string())));
    assert_eq!(settings_text_edit(&key("q"), Some("q"), control, false, field), None);
    assert_eq!(settings_text_edit(&KeyPress::Paste, None, NO_MODIFIERS, false, field), Some(TextEditAction::Paste));
}

#[test]
fn movement_keys_follow_the_word_and_command_modifiers() {
    let field = ProjectSettingsField::ProjectName;
    let shift = KeyModifiers { control: false, shift: true, alt: false, super_key: false };
    let control = KeyModifiers { control: true, shift: false, alt: false, super_key: false };
    let alt = KeyModifiers { control: false, shift: false, alt: true, super_key: false };
    assert_eq!(settings_text_edit(&KeyPress::ArrowLeft, None, shift, false, field), Some(TextEditAction::Left(true)));
    assert_eq!(settings_text_edit(&KeyPress::ArrowRight, None, control, false, field), Some(TextEditAction::WordRight(false)));
    assert_eq!(settings_text_edit(&KeyPress::ArrowLeft, None, alt, true, field), Some(TextEditAction::WordLeft(false)));
    assert_eq!(settings_text_edit(&KeyPress::Backspace, None, control, false, field), Some(TextEditAction::BackspaceWord));
    assert_eq!(settings_text_edit(&KeyPress::Delete, None, NO_MODIFIERS, false, field), Some(TextEditAction::Delete));
    assert_eq!(settings_text_edit(&KeyPress::Home, None, control, false, field), Some(TextEditAction::TextStart(false)));
    assert_eq!(settings_text_edit(&KeyPress::End, None, shift, false, field), Some(TextEditAction::LineEnd(true)));
    assert_eq!(settings_text_edit(&KeyPress::ArrowUp, None, shift, false, field), Some(TextEditAction::Up(true)));
    assert_eq!(settings_text_edit(&KeyPress::Escape, None, NO_MODIFIERS, false, field), None);
}

#[test]
fn typed_text_prefers_the_event_text_and_the_space_bar_types_a_space() {
    let field = ProjectSettingsField::WindowTitle;
    let alt = KeyModifiers { control: false, shift: false, alt: true, super_key: false };
    assert_eq!(
        settings_text_edit(&KeyPress::Character("e".to_string()), Some("é"), NO_MODIFIERS, false, field),
        Some(TextEditAction::Insert("é".to_string()))
    );
    assert_eq!(
        settings_text_edit(&KeyPress::Character("e".to_string()), Some(""), NO_MODIFIERS, false, field),
        Some(TextEditAction::Insert("e".to_string()))
    );
    assert_eq!(
        settings_text_edit(&KeyPress::Space, None, NO_MODIFIERS, false, field),
        Some(TextEditAction::Insert(" ".to_string()))
    );
    assert_eq!(settings_text_edit(&KeyPress::Space, None, NO_MODIFIERS, false, ProjectSettingsField::WindowHeight), None);
    assert_eq!(settings_text_edit(&KeyPress::Character("e".to_string()), None, alt, false, field), None);
}

#[test]
fn escape_closes_the_settings_window_and_a_lost_input_is_forgotten() {
    let mut settings_dialog = dialog();
    settings_dialog.open = true;
    settings_dialog.activate_input(7);
    assert_eq!(settings_dialog.key_pressed(&KeyPress::Character("1".to_string()), None, NO_MODIFIERS, false, None), None);
    assert_eq!(settings_dialog.active_input, None);
    assert!(settings_dialog.open);
    settings_dialog.activate_input(7);
    assert_eq!(settings_dialog.key_pressed(&KeyPress::Escape, None, NO_MODIFIERS, false, None), None);
    assert!(!settings_dialog.open);
    assert_eq!(settings_dialog.active_input, None);
    assert_eq!(
        settings_dialog.key_pressed(&KeyPress::Character("1".to_string()), None, NO_MODIFIERS, false, Some(ProjectSettingsField::WindowWidth)),
        None
    );
    let mut reopened = dialog();
    reopened.open = true;
    let mut menu = ProjectMenuState { open: true };
    settings_escape(&mut reopened, &mut menu);
    assert!(!reopened.open);
    assert!(!menu.open);
}

#[test]
fn dimensions_are_whole_numbers_in_range() {
    assert_eq!(parse_dimension("Width", " 1440 ", 320), Ok(1440));
    assert_eq!(parse_dimension("Width", "12a", 320), Err("Width must be a whole number.".to_string()));
    assert_eq!(
        parse_dimension("Height", "100", 240),
        Err("Height must be between 240 and 16384 pixels.".to_string())
    );
    assert_eq!(parse_dimension("Width", "+16384", 320), Ok(16384));
    assert!(parse_dimension("Width", "99999999999", 320).is_err());
}

#[test]
fn drafts_are_validated_before_saving() {
    let valid = validate_draft(&draft("1440"), MISSING_ROOT).unwrap();
    assert_eq!(valid.name, "Edited Project");
    assert_eq!(valid.main_scene, "");
    assert_eq!(valid.window.width, 1440);
    let mut empty = draft("1440");
    empty.project_name = "   ".to_string();
    assert_eq!(
        validate_draft(&empty, MISSING_ROOT).unwrap_err(),
        "Project Name cannot be empty."
    );
    assert_eq!(
        validate_draft(&draft("abc"), MISSING_ROOT).unwrap_err(),
        "Width must be a whole number."
    );
}

#[test]
fn toml_sections_are_updated_in_place() {
    let pairs = vec![("width".to_string(), "800".to_string())];
    assert_eq!(
        update_toml_section("[a]\nx = 1\n\n[display.window]\nwidth = 1 # old\nheight = 2\n", "display.window", &pairs, false),
        Ok("[a]\nx = 1\n\n[display.window]\nwidth = 800\nheight = 2\n".to_string())
    );
    assert_eq!(
        update_toml_section("[a]\nx = 1", "b", &pairs, true),
        Ok("[a]\nx = 1\n\n[b]\nwidth = 800\n".to_string())
    );
    assert!(update_toml_section("[a]\n", "b", &pairs, false).is_err());
    assert_eq!(toml_string("say \"hi\"\n"), "\"say \\\"hi\\\"\\n\"");
    assert!(render_project_settings("[project]\nname = \"x\"\n", &settings(960, 540)).is_ok());
}

#[test]
fn the_settings_window_opens_with_the_saved_settings_or_the_error() {
    let mut settings_dialog = dialog();
    settings_dialog.open_with(Ok(settings(1280, 720)), draft("960"));
    assert!(settings_dialog.open);
    assert!(settings_dialog.ignore_input_changes);
    assert_eq!(settings_dialog.draft.project_name, "Edited Project");
    assert_eq!(settings_dialog.draft.window_width, "1280");
    assert!(!settings_dialog.status_is_error);
    assert_eq!(
        settings_dialog.status,
        "Changes are stored in project.toml and used by the next game launch."
    );
    let mut failed = dialog();
    failed.open_with(Err("project.toml is missing [project]".to_string()), draft("640"));
    assert!(failed.status_is_error);
    assert_eq!(failed.status, "project.toml is missing [project]");
    assert_eq!(failed.draft.window_width, "640");
}

#[test]
fn settings_actions_edit_the_draft_and_report() {
    let mut settings_dialog = dialog();
    settings_dialog.open = true;
    settings_dialog.use_current_scene(None);
    assert!(settings_dialog.status_is_error);
    assert_eq!(settings_dialog.status, "Save or open a scene before setting the main scene.");
    settings_dialog.use_current_scene(Some(Err("The scene is outside the project.".to_string())));
    assert_eq!(settings_dialog.status, "The scene is outside the project.");
    settings_dialog.use_current_scene(Some(Ok("assets/scenes/level.bsn".to_string())));
    assert_eq!(settings_dialog.draft.main_scene, "assets/scenes/level.bsn");
    assert_eq!(settings_dialog.status, "Unsaved changes");
    assert!(!settings_dialog.status_is_error);
    settings_dialog.set_window_mode("Fullscreen".to_string());
    assert_eq!(settings_dialog.draft.window_mode, "Fullscreen");
    settings_dialog.set_vsync(true);
    assert!(settings_dialog.draft.vsync);
    settings_dialog.draft.set_field(ProjectSettingsField::WindowTitle, "Title".to_string());
    assert_eq!(settings_dialog.draft.window_title, "Title");
    assert_eq!(settings_dialog.draft.window_width, "960");
    let display = settings_dialog.finish_apply(Ok(settings(1440, 810)));
    assert_eq!(display, Some(ProjectDisplaySettings { width: 1440, height: 810 }));
    assert_eq!(settings_dialog.status, "Project settings saved successfully.");
    let display = settings_dialog.finish_apply(Err("Width must be a whole number.".to_string()));
    assert_eq!(display, None);
    assert!(settings_dialog.status_is_error);
    settings_dialog.close();
    assert!(!settings_dialog.open);
}

#[test]
fn updating_a_section_keeps_the_lines_around_it() {
    let source = "# top\n[a]\nx = 1\n[b]\ny = 2 # note\n\n[c]\nz = 3\n";
    let pairs = vec![
        ("y".to_string(), "5".to_string()),
        ("w".to_string(), "6".to_string()),
    ];
    assert_eq!(
        update_toml_section(source, "b", &pairs, false),
        Ok("# top\n[a]\nx = 1\n[b]\ny = 5\n\nw = 6\n[c]\nz = 3\n".to_string())
    );
}

#[test]
fn a_key_set_twice_reads_back_with_the_last_value() {
    let pairs = vec![
        ("mode".to_string(), "\"Windowed\"".to_string()),
        ("mode".to_string(), "\"Fullscreen\"".to_string()),
    ];
    assert_eq!(
        update_toml_section("[display.window]\ntitle = \"T\"\n", "display.window", &pairs, false),
        Ok("[display.window]\ntitle = \"T\"\nmode = \"Fullscreen\"\n".to_string())
    );
}

#[test]
fn scene_paths_are_made_relative_to_the_project() {
    assert_eq!(
        project_relative_path("/games/demo", "/games/demo/assets/scenes/main.bsn"),
        Ok("assets/scenes/main.bsn".to_string())
    );
    assert_eq!(
        project_relative_path("/games/demo", "/games/other/main.bsn"),
        Err("The current scene is outside the active project.".to_string())
    );
    assert_eq!(
        project_relative_path("/games/demo", "/games/demo-copy/main.bsn"),
        Err("The current scene is outside the active project.".to_string())
    );
    assert_eq!(
        scene_path_in_project(Some("assets\\scenes\\a.bsn".to_string())),
        Ok("assets/scenes/a.bsn".to_string())
    );
    assert_eq!(
        scene_path_in_project(None),
        Err("The current scene is outside the active project.".to_string())
    );
}

#[test]
fn the_main_scene_file_is_looked_up_under_the_project_root() {
    assert_eq!(main_scene_file("/p", "assets/scenes/main.bsn"), "/p/assets/scenes/main.bsn");
}
