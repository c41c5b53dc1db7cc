use pbc_geometry::map_tools::{normalise_map, show_nested_map, NumericMap};

#[test]
fn normalise_divides_each_value_by_the_sum() {
    // {1: 2, 2: 2} normalises to {1: 1/2, 2: 1/2}.
    let mut map = NumericMap { entries: vec![(1, 2), (2, 2)], den: 1 };
    normalise_map(&mut map);
    assert_eq!(map.entries.len(), 2);
    assert_eq!(map.entries[0].0, 1);
    assert_eq!(map.entries[1].0, 2);
    // each value equals one half, exactly.
    for &(_, num) in &map.entries {
        assert_eq!(2 * num, map.den);
    }
    // and the values sum to exactly one.
    let sum: i64 = map.entries.iter().map(|e| e.1).sum();
    assert_eq!(sum, map.den);
}

#[test]
fn normalise_keeps_exact_ratios() {
    // {1: 1/2, 2: 3/2} has sum 2, so it normalises to {1: 1/4, 2: 3/4}.
    let mut map = NumericMap { entries: vec![(1, 1), (2, 3)], den: 2 };
    normalise_map(&mut map);
    assert_eq!(map.entries, vec![(1, 1), (2, 3)]);
    assert_eq!(map.den, 4);
}

#[test]
fn normalise_handles_a_negative_sum() {
    // {5: -3/2, 6: -1/2} has sum -2 and normalises to {5: 3/4, 6: 1/4}.
    let mut map = NumericMap { entries: vec![(5, -3), (6, -1)], den: 2 };
    normalise_map(&mut map);
    assert_eq!(map.entries, vec![(5, 3), (6, 1)]);
    assert_eq!(map.den, 4);
    let sum: i64 = map.entries.iter().map(|e| e.1).sum();
    assert_eq!(sum, map.den);
}

#[test]
fn show_nested_map_renders_one_line_per_outer_key() {
    let inner = NumericMap { entries: vec![(2, 3)], den: 2 };
    let out = show_nested_map(&vec![(1, inner)]);
    assert_eq!(String::from_utf8(out).unwrap(), "1: {2: 3/2, }\n");
}

#[test]
fn show_nested_map_renders_negative_numbers_and_order() {
    let first = NumericMap { entries: vec![(5, -7), (10, 0)], den: 3 };
    let second = NumericMap { entries: vec![], den: 1 };
    let out = show_nested_map(&vec![(-1, first), (7, second)]);
    assert_eq!(
        String::from_utf8(out).unwrap(),
        "-1: {5: -7/3, 10: 0/3, }\n7: {}\n"
    );
}

#[test]
fn show_nested_map_of_nothing_is_empty() {
    let out = show_nested_map(&vec![]);
    assert!(out.is_empty());
}

#[test]
fn show_nested_map_renders_the_extreme_numerator() {
    let inner = NumericMap { entries: vec![(0, i64::MIN)], den: 1 };
    let out = show_nested_map(&vec![(0, inner)]);
    assert_eq!(
        String::from_utf8(out).unwrap(),
        "0: {0: -9223372036854775808/1, }\n"
    );
}
