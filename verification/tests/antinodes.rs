use guard_patrol::antinodes::{AntennaMap, Location, Pairs, Vector};

#[test]
fn add_and_sub_are_componentwise() {
    let a = Location { x: 4, y: 3 };
    let b = Location { x: 5, y: 5 };
    let v = a.sub(&b);
    assert_eq!(v, Vector { x: -1, y: -2 });
    let c = a.add(&v);
    assert_eq!(c, Location { x: 3, y: 1 });
    assert_eq!(b.add(&b.sub(&a)), Location { x: 6, y: 7 });
}

#[test]
fn validity_is_the_map_rectangle() {
    let map = AntennaMap {
        width: 10,
        height: 10,
    };
    assert!(map.is_valid_antinode(&Location { x: 0, y: 0 }));
    assert!(map.is_valid_antinode(&Location { x: 9, y: 9 }));
    assert!(!map.is_valid_antinode(&Location { x: 10, y: 9 }));
    assert!(!map.is_valid_antinode(&Location { x: -1, y: 0 }));
}

#[test]
fn antinodes_follow_the_ray_to_the_edge() {
    let map = AntennaMap {
        width: 10,
        height: 10,
    };
    let a = Location { x: 4, y: 3 };
    let b = Location { x: 5, y: 5 };
    // Beyond a, away from b: (3, 1), then (2, -1) which is off the map.
    assert_eq!(map.antinodes(&a, &b), vec![Location { x: 3, y: 1 }]);
    // Beyond b, away from a: (6, 7), (7, 9), then (8, 11) off the map.
    assert_eq!(
        map.antinodes(&b, &a),
        vec![Location { x: 6, y: 7 }, Location { x: 7, y: 9 }]
    );
}

#[test]
fn pairs_yield_each_unordered_pair_once() {
    let items = [1u64, 2, 3];
    let mut pairs = Pairs::new(&items);
    assert_eq!(pairs.next(), Some((&1u64, &2u64)));
    assert_eq!(pairs.next(), Some((&1u64, &3u64)));
    assert_eq!(pairs.next(), Some((&2u64, &3u64)));
    assert_eq!(pairs.next(), None);
    assert_eq!(pairs.next(), None);
}

#[test]
fn pairs_of_a_single_element_are_empty() {
    let items = [7u64];
    let mut pairs = Pairs::new(&items);
    assert_eq!(pairs.next(), None);
}
