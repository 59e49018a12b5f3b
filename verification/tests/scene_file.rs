use editor::scene_file::{legacy_root_index, save_order, SaveKey};

fn key(parent: Option<&str>, order: u32, id: &str) -> SaveKey {
    SaveKey { parent: parent.map(|p| p.to_string()), order, id: id.to_string() }
}

#[test]
fn entities_are_written_by_parent_then_order_then_id() {
    let keys = vec![
        key(Some("0000000000000000000000000000000a"), 1, "00000000000000000000000000000003"),
        key(None, 0, "0000000000000000000000000000000a"),
        key(Some("0000000000000000000000000000000a"), 0, "00000000000000000000000000000005"),
        key(Some("0000000000000000000000000000000a"), 0, "00000000000000000000000000000004"),
        key(Some("00000000000000000000000000000004"), 0, "00000000000000000000000000000009"),
    ];
    assert_eq!(save_order(&keys), Ok(vec![1, 4, 3, 2, 0]));
}

#[test]
fn equal_keys_keep_their_places() {
    let keys = vec![key(None, 2, "b"), key(None, 1, "a"), key(None, 2, "b")];
    assert_eq!(save_order(&keys), Ok(vec![1, 0, 2]));
}

#[test]
fn an_empty_scene_cannot_be_saved() {
    assert_eq!(save_order(&Vec::new()), Err("The scene has no editable entities.".to_string()));
}

#[test]
fn the_legacy_root_is_the_first_entity_with_the_root_name() {
    let names = vec!["Camera".to_string(), "World".to_string(), "World".to_string()];
    assert_eq!(legacy_root_index(&names, "World"), Ok(1));
    assert_eq!(legacy_root_index(&names, "Level"), Err("root entity is missing".to_string()));
    assert_eq!(legacy_root_index(&Vec::new(), "World"), Err("scene contains no entities".to_string()));
}
