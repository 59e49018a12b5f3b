use editor::project_manager::model::{
    config_path, create_target_path, create_validation, escape_rust_string, escape_toml_string,
    path_string, project_folder_name, relative_time_at, rust_package_name, TargetState,
};

#[test]
fn creates_safe_folder_and_package_names() {
    assert_eq!(project_folder_name(" Demo: Game? "), "Demo_ Game_");
    assert_eq!(rust_package_name("42 Hello World"), "game_42_hello_world");
    assert_eq!(rust_package_name("\u{6d4b}\u{8bd5}"), "revy_game");
}

#[test]
fn folder_name_replaces_control_characters_and_trims_dots() {
    assert_eq!(project_folder_name("..a\tb<c>.. "), "a_b_c_");
    assert_eq!(project_folder_name(" . "), "");
}

#[test]
fn package_name_keeps_dashes_and_lowercases() {
    assert_eq!(rust_package_name("--My-Game__"), "my-game");
    assert_eq!(rust_package_name("9"), "game_9");
}

#[test]
fn toml_escape_covers_quotes_controls_and_backslashes() {
    assert_eq!(escape_toml_string("a\"b\\c\n\u{1}"), "a\\\"b\\\\c\\n\\u0001");
    assert_eq!(escape_toml_string("\u{8}\u{c}\u{7f}"), "\\b\\f\\u007F");
}

#[test]
fn rust_escape_matches_escape_default() {
    let input = "Quoted \"Game\"\\Next \u{e9}\t'";
    let expected: String = input.chars().flat_map(char::escape_default).collect();
    assert_eq!(escape_rust_string(input), expected);
    assert_eq!(escape_rust_string("Quoted \"Game\"\\Next"), "Quoted \\\"Game\\\"\\\\Next");
}

#[test]
fn path_string_strips_verbatim_prefixes() {
    assert_eq!(path_string(r"\\?\UNC\server\share\Demo"), "//server/share/Demo");
    assert_eq!(path_string(r"\\?\E:\Games\Demo"), "E:/Games/Demo");
    assert_eq!(path_string("/home/demo"), "/home/demo");
}

#[test]
fn relative_time_buckets() {
    assert_eq!(relative_time_at(0, 100), "Never opened");
    assert_eq!(relative_time_at(100, 150), "Just now");
    assert_eq!(relative_time_at(100, 100 + 125), "2 min ago");
    assert_eq!(relative_time_at(100, 100 + 7_200), "2 hr ago");
    assert_eq!(relative_time_at(100, 100 + 3 * 86_400), "3 days ago");
    assert_eq!(relative_time_at(100, 100 + 2 * 2_592_000), "2 months ago");
    assert_eq!(relative_time_at(100, 100 + 31_536_000), "1 years ago");
    assert_eq!(relative_time_at(500, 100), "Just now");
}

#[test]
fn config_path_depends_on_build_kind() {
    assert_eq!(
        config_path("/ws", "/exe", true),
        "/ws/target/editor-data/Revy/project_manager.toml"
    );
    assert_eq!(config_path("/ws", "/exe", false), "/exe/data/Revy/project_manager.toml");
}

#[test]
fn create_target_path_joins_trimmed_folder_name() {
    assert_eq!(create_target_path("  Demo: X ", "/games", "/cwd"), "/games/Demo_ X");
    assert_eq!(create_target_path("Demo", "games", "/cwd"), "/cwd/games/Demo");
}

#[test]
fn refuses_non_empty_creation_target() {
    let error = create_validation("Demo", "/root", "/cwd", &TargetState::NotEmpty).unwrap_err();
    assert!(error.contains("not empty"));
    assert_eq!(
        create_validation("  ", "/root", "/cwd", &TargetState::Missing).unwrap_err(),
        "Enter a project name"
    );
    assert_eq!(
        create_validation("Demo", "", "/cwd", &TargetState::Missing).unwrap_err(),
        "Choose a location"
    );
    assert_eq!(
        create_validation("Demo", "/root", "/cwd", &TargetState::Empty).unwrap(),
        "/root/Demo"
    );
    assert_eq!(
        create_validation("Demo", "/root", "/cwd", &TargetState::NotAFolder).unwrap_err(),
        "The target path is not a folder"
    );
}

#[test]
fn folder_names_are_clean_and_stable() {
    let name = "  a<b.  ";
    let folder = project_folder_name(name);
    assert_eq!(folder, "a_b");
    assert_eq!(project_folder_name(&folder), folder);

    let other = project_folder_name(". .x\u{1}y:z. .");
    assert_eq!(other, "x_y_z");
    assert!(!other.chars().any(|c| "<>:\"/\\|?*".contains(c) || c.is_control()));
    assert!(!other.starts_with([' ', '.']) && !other.ends_with([' ', '.']));
    assert!(other.chars().count() <= ". .x\u{1}y:z. .".chars().count());
    assert_eq!(project_folder_name(&other), other);
}

#[test]
fn escaped_toml_text_holds_no_raw_control_character() {
    let escaped = escape_toml_string("a\u{1}b\n\t\"q\"\\");
    assert_eq!(escaped, "a\\u0001b\\n\\t\\\"q\\\"\\\\");
    assert!(!escaped.chars().any(|c| c.is_control()));
}
