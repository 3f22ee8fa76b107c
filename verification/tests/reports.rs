use guard_patrol::reports::{report_is_safe, report_is_safe_recursive};

fn dampened_safe(levels: &[u32]) -> bool {
    report_is_safe_recursive(None, None, false, levels)
}

#[test]
fn steady_moves_of_one_to_three_are_safe() {
    assert!(report_is_safe(&[7, 6, 4, 2, 1]));
    assert!(report_is_safe(&[1, 3, 6, 7, 9]));
    assert!(report_is_safe(&[5]));
    assert!(report_is_safe(&[]));
}

#[test]
fn jumps_flats_and_reversals_are_unsafe() {
    assert!(!report_is_safe(&[1, 2, 7, 8, 9]));
    assert!(!report_is_safe(&[9, 7, 6, 2, 1]));
    assert!(!report_is_safe(&[1, 3, 2, 4, 5]));
    assert!(!report_is_safe(&[8, 6, 4, 4, 1]));
}

#[test]
fn dampening_forgives_one_bad_level() {
    assert!(dampened_safe(&[7, 6, 4, 2, 1]));
    assert!(!dampened_safe(&[1, 2, 7, 8, 9]));
    assert!(!dampened_safe(&[9, 7, 6, 2, 1]));
    assert!(dampened_safe(&[1, 3, 2, 4, 5]));
    assert!(dampened_safe(&[8, 6, 4, 4, 1]));
    assert!(dampened_safe(&[1, 3, 6, 7, 9]));
}

#[test]
fn dampening_can_drop_the_first_level() {
    assert!(dampened_safe(&[9, 1, 2, 3]));
    assert!(dampened_safe(&[1, 9, 10, 11]));
}
