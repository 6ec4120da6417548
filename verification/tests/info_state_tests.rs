use cfr_solver::card::Street;
use cfr_solver::eightmax::{BetLevel, Position8Max};
use cfr_solver::game::InfoState;
use cfr_solver::grid::{grid_to_hand_name, hand_names};
use cfr_solver::info_state::{CompactInfoState, PokerInfoState};
use cfr_solver::position::HUPosition;

#[test]
fn test_info_state_key() {
    let info = PokerInfoState::new(HUPosition::SB, Street::Flop, 523, "R300-C|X".to_string());

    let key = info.key();
    assert!(key.starts_with("P0S1B523"));
    assert!(key.contains("R300-C|X"));
}

#[test]
fn test_compact_info_state() {
    let info = PokerInfoState::new(HUPosition::BB, Street::Turn, 1000, "R300-C|X-B132|C".to_string());

    let compact = CompactInfoState::from_info_state(&info);

    assert_eq!(compact.position(), HUPosition::BB);
    assert_eq!(compact.street_index(), 2);
    assert_eq!(compact.bucket(), 1000);
}

#[test]
fn test_info_state_uniqueness() {
    let info1 = PokerInfoState::new(HUPosition::SB, Street::Flop, 100, "R300-C|X".to_string());

    let info2 = PokerInfoState::new(HUPosition::SB, Street::Flop, 100, "C|X-B132".to_string());

    assert_ne!(info1.key(), info2.key());

    let info3 = PokerInfoState::new(HUPosition::SB, Street::Flop, 200, "R300-C|X".to_string());

    assert_ne!(info1.key(), info3.key());
}

#[test]
fn test_parse_info_key() {
    let key = "P0S1B523|R300-C|X-B132";
    let parts: Vec<&str> = key.splitn(2, '|').collect();

    assert_eq!(parts.len(), 2);
    assert_eq!(parts[0], "P0S1B523");
    assert_eq!(parts[1], "R300-C|X-B132");

    let header = parts[0];
    assert!(header.starts_with("P0"));
    assert!(header.contains("S1"));
    assert!(header.contains("B523"));
}

#[test]
fn test_position_ordering() {
    assert!(Position8Max::BB.is_ip_vs(&Position8Max::SB));
    assert!(Position8Max::BU.is_ip_vs(&Position8Max::CO));
    assert!(!Position8Max::UTG.is_ip_vs(&Position8Max::BB));
}

#[test]
fn test_bet_level_progression() {
    assert_eq!(BetLevel::Unopened.next(), BetLevel::FacingRaise);
    assert_eq!(BetLevel::FacingRaise.next(), BetLevel::Facing3Bet);
    assert_eq!(BetLevel::Facing3Bet.next(), BetLevel::Facing4Bet);
    assert_eq!(BetLevel::Facing4Bet.next(), BetLevel::Facing5Bet);
    assert_eq!(BetLevel::Facing5Bet.next(), BetLevel::AllIn);
}

#[test]
fn test_hand_names_count() {
    assert_eq!(hand_names().len(), 169);
}

#[test]
fn test_grid_positions() {
    assert_eq!(grid_to_hand_name(0, 0), "AA");
    assert_eq!(grid_to_hand_name(1, 1), "KK");
    assert_eq!(grid_to_hand_name(0, 1), "AKs");
    assert_eq!(grid_to_hand_name(1, 0), "AKo");
    assert_eq!(grid_to_hand_name(12, 12), "22");
}

#[test]
fn test_hu_positions() {
    assert_eq!(HUPosition::SB.opponent(), HUPosition::BB);
    assert_eq!(HUPosition::BB.opponent(), HUPosition::SB);
    assert_eq!(HUPosition::SB.index(), 0);
    assert_eq!(HUPosition::BB.index(), 1);
    assert_eq!(HUPosition::from_index(0), HUPosition::SB);
    assert_eq!(HUPosition::from_index(1), HUPosition::BB);
    assert!(HUPosition::BB.is_ip_postflop());
    assert!(!HUPosition::SB.is_ip_postflop());
    assert_eq!(HUPosition::first_to_act(Street::Preflop), HUPosition::SB);
    assert_eq!(HUPosition::first_to_act(Street::Flop), HUPosition::SB);
}
