use editor::viewport::gizmo::{GizmoMode, GizmoSettings, GizmoSpace};
use editor::viewport::ownership::{PrimaryPointerOwner, PrimaryPointerOwnership};
use editor::viewport::snap::snap_effective;

#[test]
fn one_primary_press_has_exactly_one_owner() {
    let mut ownership = PrimaryPointerOwnership::default();

    assert!(ownership.claim(PrimaryPointerOwner::Ui));
    assert!(ownership.claim(PrimaryPointerOwner::Ui));
    assert!(!ownership.claim(PrimaryPointerOwner::Sprite));
    assert!(!ownership.claim(PrimaryPointerOwner::Marquee));
    assert!(ownership.is_owned_by(PrimaryPointerOwner::Ui));
}

#[test]
fn transform_edit_can_lock_selection_until_release() {
    let mut ownership = PrimaryPointerOwnership::default();
    assert!(ownership.claim(PrimaryPointerOwner::Sprite));
    assert!(ownership.lock_selection(PrimaryPointerOwner::Sprite));
    assert!(ownership.selection_is_locked_by(PrimaryPointerOwner::Sprite));

    ownership.release();

    assert!(!ownership.selection_is_locked_by(PrimaryPointerOwner::Sprite));
}

#[test]
fn release_allows_the_next_press_to_choose_a_new_owner() {
    let mut ownership = PrimaryPointerOwnership::default();
    assert!(ownership.claim(PrimaryPointerOwner::Navigation));

    ownership.release();

    assert!(ownership.claim(PrimaryPointerOwner::Sprite));
    assert!(ownership.is_owned_by(PrimaryPointerOwner::Sprite));
}

#[test]
fn only_the_owner_can_lock_the_selection() {
    let mut ownership = PrimaryPointerOwnership::new();
    assert!(!ownership.lock_selection(PrimaryPointerOwner::Ui));
    assert!(ownership.claim(PrimaryPointerOwner::Marquee));
    assert!(!ownership.lock_selection(PrimaryPointerOwner::Ui));
    assert!(!ownership.selection_is_locked_by(PrimaryPointerOwner::Marquee));
    assert!(ownership.is_claimed());
}

#[test]
fn a_held_press_keeps_its_owner() {
    let mut ownership = PrimaryPointerOwnership::new();
    assert!(ownership.claim(PrimaryPointerOwner::Ui));
    ownership.release_unless_pressed(true);
    assert!(ownership.is_owned_by(PrimaryPointerOwner::Ui));
    ownership.release_unless_pressed(false);
    assert!(!ownership.is_claimed());
}

#[test]
fn number_keys_choose_the_gizmo_mode_and_x_switches_its_space() {
    let mut settings = GizmoSettings { mode: GizmoMode::Translate, space: GizmoSpace::World };
    settings.keys(false, true, false, false);
    assert_eq!(settings.mode, GizmoMode::Rotate);
    settings.keys(true, false, true, true);
    assert_eq!(settings.mode, GizmoMode::Scale);
    assert_eq!(settings.space, GizmoSpace::Local);
    settings.keys(false, false, false, true);
    assert_eq!(settings.mode, GizmoMode::Scale);
    assert_eq!(settings.space, GizmoSpace::World);
}

#[test]
fn shift_inverts_the_snapping_setting() {
    assert!(snap_effective(true, false));
    assert!(!snap_effective(true, true));
    assert!(snap_effective(false, true));
    assert!(!snap_effective(false, false));
}
