use guard_patrol::search::find_all;
use guard_patrol::visited::Visited;
use guard_patrol::direction::Direction;

fn chars(s: &str) -> Vec<char> {
    s.chars().collect()
}

#[test]
fn counts_forward_and_backward_occurrences() {
    let s = chars("XMASAMXMAS");
    let p = chars("XMAS");
    // Forward at 0 and 6, backward (SAMX) at 3.
    assert_eq!(find_all(&s, &p), 3);
}

#[test]
fn no_occurrences_count_zero() {
    let s = chars("MMMM");
    let p = chars("XMAS");
    assert_eq!(find_all(&s, &p), 0);
}

#[test]
fn pattern_longer_than_row_counts_zero() {
    let s = chars("XM");
    let p = chars("XMAS");
    assert_eq!(find_all(&s, &p), 0);
}

#[test]
fn palindromic_windows_count_twice() {
    let s = chars("ABA");
    let p = chars("ABA");
    assert_eq!(find_all(&s, &p), 2);
}

#[test]
fn single_character_pattern() {
    let s = chars("AXAXA");
    let p = chars("A");
    // Each of the three occurrences is found forward and backward.
    assert_eq!(find_all(&s, &p), 6);
}

#[test]
fn visitation_record_tracks_headings() {
    let mut v = Visited::new();
    assert!(!v.is_visited());
    assert!(!v.has_direction(&Direction::Up));
    v.visit(&Direction::Up);
    assert!(v.is_visited());
    assert!(v.has_direction(&Direction::Up));
    assert!(!v.has_direction(&Direction::Left));
    v.visit(&Direction::Left);
    assert!(v.has_direction(&Direction::Left));
    assert!(!v.has_direction(&Direction::Down));
    assert!(!v.has_direction(&Direction::Right));
}
