use editor::selection::{select_entity, Selection, SelectionSet};

#[test]
fn click_selection_supports_replace_add_and_toggle() {
    let a = 1u64;
    let b = 2u64;
    let mut selection = Selection::default();
    let mut set = SelectionSet::default();

    set.select_from_click(&mut selection, a, false, false);
    set.select_from_click(&mut selection, b, true, false);
    assert_eq!(set.entities(&selection), vec![a, b]);
    assert_eq!(selection.0, Some(b));

    set.select_from_click(&mut selection, a, false, true);
    assert_eq!(set.entities(&selection), vec![b]);
    assert_eq!(selection.0, Some(b));
}

#[test]
fn legacy_primary_assignment_falls_back_to_single_selection() {
    let a = 1u64;
    let b = 2u64;
    let mut selection = Selection::default();
    let mut set = SelectionSet::default();
    set.select_from_click(&mut selection, a, false, false);

    selection.0 = Some(b);

    assert_eq!(set.entities(&selection), vec![b]);
    assert!(set.contains(&selection, b));
    assert_eq!(set.entities(&selection).len(), 1);
}

#[test]
fn box_selection_replaces_adds_and_toggles_as_one_operation() {
    let a = 1u64;
    let b = 2u64;
    let c = 3u64;
    let mut selection = Selection::default();
    let mut set = SelectionSet::default();

    set.select_from_box(&mut selection, vec![a, b], false, false);
    set.select_from_box(&mut selection, vec![c], true, false);
    assert_eq!(set.entities(&selection), vec![a, b, c]);

    set.select_from_box(&mut selection, vec![a, b], false, true);
    assert_eq!(set.entities(&selection), vec![c]);
    assert_eq!(selection.0, Some(c));
}

#[test]
fn replacing_selection_preserves_order_and_uses_the_last_entity_as_primary() {
    let a = 1u64;
    let b = 2u64;
    let mut selection = Selection::default();
    let mut set = SelectionSet::default();

    set.select_many(&mut selection, vec![a, b, a]);

    assert_eq!(set.entities(&selection), vec![b, a]);
    assert_eq!(selection.0, Some(a));
}

#[test]
fn toggling_the_primary_away_makes_the_previous_entity_primary() {
    let mut selection = Selection::default();
    let mut set = SelectionSet::new();
    set.select_many(&mut selection, vec![1, 2, 3]);
    set.select_from_click(&mut selection, 3, false, true);
    assert_eq!(set.entities(&selection), vec![1, 2]);
    assert_eq!(selection.0, Some(2));
    set.select_from_click(&mut selection, 1, false, true);
    set.select_from_click(&mut selection, 2, false, true);
    assert!(set.entities(&selection).is_empty());
    assert_eq!(selection.0, None);
}

#[test]
fn clicking_an_entity_without_modifiers_replaces_the_selection() {
    let mut selection = Selection::default();
    let mut set = SelectionSet::new();
    set.select_many(&mut selection, vec![4, 5]);
    set.select_from_click(&mut selection, 6, false, false);
    assert_eq!(set.entities(&selection), vec![6]);
    assert!(!set.contains(&selection, 4));
    set.select_only(&mut selection, 7);
    assert_eq!(set.entities(&selection), vec![7]);
    assert_eq!(selection.0, Some(7));
}

#[test]
fn select_entity_sets_the_primary() {
    let mut selection = Selection::default();
    select_entity(9, &mut selection);
    assert_eq!(selection.0, Some(9));
}

#[test]
fn box_selection_keeps_the_last_occurrence_of_each_hit() {
    let mut selection = Selection::default();
    let mut set = SelectionSet::default();

    set.select_from_box(&mut selection, vec![1, 2, 1, 3, 2], false, false);

    assert_eq!(set.entities(&selection), vec![1, 3, 2]);
    assert_eq!(selection.0, Some(2));
}
