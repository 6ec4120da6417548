use cfr_solver::scenario::{ActionType, Position, PreflopRangeState, Scenario};
use cfr_solver::spots::{ScenarioFilter, Spot};

#[test]
fn test_scenario_names() {
    let rfi = Scenario::RFI { position: Position::UTG };
    assert_eq!(rfi.name(), "UTG_RFI");
    assert_eq!(rfi.display_name(), "UTG Open (RFI)");

    let vs = Scenario::VsRFI { hero: Position::BB, villain: Position::UTG };
    assert_eq!(vs.name(), "BB_vs_UTG_RFI");
    assert_eq!(vs.display_name(), "BB vs UTG Open");

    let threebet = Scenario::ThreeBet { hero: Position::BU, villain: Position::CO };
    assert_eq!(threebet.name(), "BU_3bet_vs_CO");

    let vs3 = Scenario::Vs3Bet { hero: Position::CO, villain: Position::BU };
    assert_eq!(vs3.name(), "CO_vs_BU_3bet");
}

#[test]
fn test_positions_in_order() {
    let all = Position::all();
    assert_eq!(all.len(), 8);
    assert_eq!(all[0], Position::UTG);
    assert_eq!(all[7], Position::BB);
    for (i, p) in all.iter().enumerate() {
        assert_eq!(p.index(), i);
    }
    assert!(Position::BB.is_ip_vs(&Position::SB));
    assert!(!Position::UTG.is_ip_vs(&Position::BB));
    assert_eq!(Position::all_8max(), Position::all());
}

#[test]
fn test_action_type_names() {
    assert_eq!(ActionType::Fold.name(), "Fold");
    assert_eq!(ActionType::Call.name(), "Call");
    assert_eq!(ActionType::Raise.name(), "Raise");
    assert_eq!(ActionType::AllIn.name(), "All-In");
}

#[test]
fn test_range_state_decision() {
    let scenario = Scenario::RFI { position: Position::CO };
    let state = PreflopRangeState::new(scenario, 12);
    assert!(!state.decided);
    assert_eq!(state.action, None);

    let decided = state.with_action(ActionType::Raise);
    assert!(decided.decided);
    assert_eq!(decided.action, Some(ActionType::Raise));
    assert_eq!(decided.hand_class, 12);
}

#[test]
fn test_scenario_filter() {
    let filter = ScenarioFilter {
        spots: vec![
            Spot {
                rfi: "UTG".to_string(),
                defender: "BB".to_string(),
                include_3bet: true,
                include_4bet_plus: false,
            },
            Spot {
                rfi: "CO".to_string(),
                defender: "BU".to_string(),
                include_3bet: false,
                include_4bet_plus: false,
            },
        ],
    };
    assert!(filter.includes_spot("UTG", "BB"));
    assert!(filter.includes_spot("CO", "BU"));
    assert!(!filter.includes_spot("BB", "UTG"));
    let spot = filter.get_spot("UTG", "BB").unwrap();
    assert!(spot.include_3bet);
    assert!(!spot.include_4bet_plus);
    assert!(filter.get_spot("SB", "BB").is_none());
}
