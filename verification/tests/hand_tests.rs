use cfr_solver::card::{Card, HoleCards};
use cfr_solver::hand::{Range, RangeParseError};

#[test]
fn test_empty_and_all() {
    let empty = Range::empty();
    assert_eq!(empty.num_classes(), 0);
    assert_eq!(empty.num_combos(), 0);

    let all = Range::all();
    assert_eq!(all.num_classes(), 169);
    assert_eq!(all.num_combos(), 1326);
}

#[test]
fn test_parse_pairs() {
    let range = Range::from_notation("AA").unwrap();
    assert_eq!(range.num_classes(), 1);
    assert_eq!(range.num_combos(), 6);

    let range = Range::from_notation("AA, KK, QQ").unwrap();
    assert_eq!(range.num_classes(), 3);
    assert_eq!(range.num_combos(), 18);
}

#[test]
fn test_parse_suited_offsuit() {
    let suited = Range::from_notation("AKs").unwrap();
    assert_eq!(suited.num_classes(), 1);
    assert_eq!(suited.num_combos(), 4);

    let offsuit = Range::from_notation("AKo").unwrap();
    assert_eq!(offsuit.num_classes(), 1);
    assert_eq!(offsuit.num_combos(), 12);

    let both = Range::from_notation("AK").unwrap();
    assert_eq!(both.num_classes(), 2);
    assert_eq!(both.num_combos(), 16);
}

#[test]
fn test_parse_plus_notation() {
    let range = Range::from_notation("TT+").unwrap();
    assert_eq!(range.num_classes(), 5);
    assert_eq!(range.num_combos(), 30);

    let range = Range::from_notation("AQs+").unwrap();
    assert_eq!(range.num_classes(), 2);
    assert_eq!(range.num_combos(), 8);
}

#[test]
fn test_parse_range_notation() {
    let range = Range::from_notation("A5s-A2s").unwrap();
    assert_eq!(range.num_classes(), 4);
    assert_eq!(range.num_combos(), 16);
}

// A malformed part fails with its own error, and nothing of the
// notation survives: no partial range is returned.
#[test]
fn test_parse_rejects_invalid_notation() {
    assert!(matches!(
        Range::from_notation("AXs"),
        Err(RangeParseError::InvalidRank('X'))
    ));
    assert!(matches!(
        Range::from_notation("AKx"),
        Err(RangeParseError::InvalidSuffix('x'))
    ));
    assert!(matches!(
        Range::from_notation("A"),
        Err(RangeParseError::InvalidFormat)
    ));
    assert!(matches!(
        Range::from_notation("A5s-K2s"),
        Err(RangeParseError::InvalidSpan)
    ));
    assert!(matches!(
        Range::from_notation("AA, KK, ZZ"),
        Err(RangeParseError::InvalidRank('Z'))
    ));
}

#[test]
fn test_contains_hole_cards() {
    let range = Range::from_notation("AA, KK, AKs").unwrap();

    let aa = HoleCards::from_str("AhAs").unwrap();
    assert!(range.contains(&aa));

    let aks = HoleCards::from_str("AhKh").unwrap();
    assert!(range.contains(&aks));

    let ako = HoleCards::from_str("AhKd").unwrap();
    assert!(!range.contains(&ako));

    let qq = HoleCards::from_str("QhQs").unwrap();
    assert!(!range.contains(&qq));
}

#[test]
fn hand_test_enumerate_combos() {
    let range = Range::from_notation("AA").unwrap();
    let combos = range.enumerate_combos();
    assert_eq!(combos.len(), 6);

    for combo in &combos {
        assert!(combo.is_pair());
        assert_eq!(combo.card1.rank(), 12);
    }
}

#[test]
fn test_enumerate_unblocked() {
    let range = Range::from_notation("AA").unwrap();

    let blockers = vec![Card::from_str("Ah").unwrap()];
    let combos = range.enumerate_unblocked_combos(&blockers);
    assert_eq!(combos.len(), 3);
}
