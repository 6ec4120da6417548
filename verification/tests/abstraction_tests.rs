use cfr_solver::abstraction::{AbstractionConfig, CardAbstraction, HandClass, HandClassIter};
use cfr_solver::card::{Board, HoleCards};

#[test]
fn test_hand_class_pairs() {
    for rank in 0..13u8 {
        let hc = HandClass::from_index(rank);
        assert_eq!(hc.rank1, rank);
        assert_eq!(hc.rank2, rank);
        assert!(!hc.suited);
        assert_eq!(hc.index(), rank);
        assert_eq!(hc.num_combos(), 6);
    }

    let aa = HandClass::from_index(12);
    assert_eq!(aa.to_string(), "AA");

    let twos = HandClass::from_index(0);
    assert_eq!(twos.to_string(), "22");
}

#[test]
fn test_hand_class_suited() {
    let first_suited = HandClass::from_index(13);
    assert!(first_suited.suited);
    assert_eq!(first_suited.num_combos(), 4);

    for idx in 13..91u8 {
        let hc = HandClass::from_index(idx);
        assert!(hc.suited);
        assert!(hc.rank1 > hc.rank2, "rank1 should be > rank2 for suited");
        assert_eq!(hc.index(), idx, "roundtrip failed for index {}", idx);
    }
}

#[test]
fn test_hand_class_offsuit() {
    for idx in 91..169u8 {
        let hc = HandClass::from_index(idx);
        assert!(!hc.suited);
        assert!(hc.rank1 > hc.rank2, "rank1 should be > rank2 for offsuit");
        assert_eq!(hc.index(), idx, "roundtrip failed for index {}", idx);
        assert_eq!(hc.num_combos(), 12);
    }
}

#[test]
fn abstraction_test_enumerate_combos() {
    let aa = HandClass::from_index(12);
    assert_eq!(aa.enumerate_combos().len(), 6);

    let aks = HandClass { rank1: 12, rank2: 11, suited: true };
    let combos = aks.enumerate_combos();
    assert_eq!(combos.len(), 4);
    for combo in &combos {
        assert!(combo.is_suited());
    }

    let ako = HandClass { rank1: 12, rank2: 11, suited: false };
    let combos = ako.enumerate_combos();
    assert_eq!(combos.len(), 12);
    for combo in &combos {
        assert!(!combo.is_suited());
    }
}

#[test]
fn test_hand_class_iterator() {
    let mut iter = HandClassIter::new();
    let mut classes: Vec<HandClass> = Vec::new();
    while let Some(hc) = iter.next() {
        classes.push(hc);
    }
    assert_eq!(classes.len(), 169);

    let total_combos: u32 = classes.iter().map(|hc| hc.num_combos() as u32).sum();
    assert_eq!(total_combos, 1326);
}

#[test]
fn test_abstraction_preflop() {
    let abstraction = CardAbstraction::new();
    let board = Board::new();

    let aa = HoleCards::from_str("AhAs").unwrap();
    let bucket = abstraction.get_bucket(&aa, &board);
    assert_eq!(bucket, 12);

    let twos = HoleCards::from_str("2h2s").unwrap();
    let bucket = abstraction.get_bucket(&twos, &board);
    assert_eq!(bucket, 0);
}

#[test]
fn test_abstraction_postflop() {
    let abstraction = CardAbstraction::with_config(AbstractionConfig::fast());

    let aa = HoleCards::from_str("AhAs").unwrap();
    let board = Board::from_str("Kd Qc 2s").unwrap();

    let bucket = abstraction.get_bucket(&aa, &board);
    assert!(
        bucket > abstraction.config.flop_buckets / 2,
        "AA bucket {} should be in upper half",
        bucket
    );
}

#[test]
fn test_bucket_key_generation() {
    let abstraction = CardAbstraction::new();

    let aa = HoleCards::from_str("AhAs").unwrap();
    let preflop_board = Board::new();
    let key = abstraction.bucket_key(&aa, &preflop_board);
    assert!(key.starts_with("S0B"), "Preflop key should start with S0B, got {}", key);

    let flop_board = Board::from_str("Kd Qc 2s").unwrap();
    let key = abstraction.bucket_key(&aa, &flop_board);
    assert!(key.starts_with("S1B"), "Flop key should start with S1B, got {}", key);
}
