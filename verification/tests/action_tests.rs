use cfr_solver::action::PokerAction;
use cfr_solver::eightmax::PreflopAction;

#[test]
fn action_test_action_short_codes() {
    assert_eq!(PokerAction::Fold.short_code(), "F");
    assert_eq!(PokerAction::Check.short_code(), "X");
    assert_eq!(PokerAction::Call.short_code(), "C");
    assert_eq!(PokerAction::AllIn.short_code(), "A");
    assert_eq!(PokerAction::Bet(150).short_code(), "B150");
    assert_eq!(PokerAction::Raise(450).short_code(), "R450");
}

#[test]
fn test_action_parsing() {
    assert_eq!(PokerAction::from_short_code("F"), Some(PokerAction::Fold));
    assert_eq!(PokerAction::from_short_code("X"), Some(PokerAction::Check));
    assert_eq!(PokerAction::from_short_code("C"), Some(PokerAction::Call));
    assert_eq!(PokerAction::from_short_code("A"), Some(PokerAction::AllIn));
    assert_eq!(PokerAction::from_short_code("B150"), Some(PokerAction::Bet(150)));
    assert_eq!(PokerAction::from_short_code("R450"), Some(PokerAction::Raise(450)));
    assert_eq!(PokerAction::from_short_code(""), None);
}

#[test]
fn test_action_properties() {
    assert!(PokerAction::Bet(100).is_aggressive());
    assert!(PokerAction::Raise(200).is_aggressive());
    assert!(PokerAction::AllIn.is_aggressive());
    assert!(!PokerAction::Check.is_aggressive());
    assert!(!PokerAction::Call.is_aggressive());
    assert!(!PokerAction::Fold.is_aggressive());
}

#[test]
fn test_short_code_roundtrip() {
    let actions = vec![
        PokerAction::Fold,
        PokerAction::Check,
        PokerAction::Call,
        PokerAction::AllIn,
        PokerAction::Bet(1),
        PokerAction::Bet(4_294_967_295),
        PokerAction::Raise(230),
    ];
    for a in actions {
        let code = a.short_code();
        assert_eq!(PokerAction::from_short_code(&code), Some(a));
    }
}

#[test]
fn test_action_short_codes() {
    assert_eq!(PreflopAction::Fold.short_code(), "F");
    assert_eq!(PreflopAction::Call.short_code(), "C");
    assert_eq!(PreflopAction::AllIn.short_code(), "A");
    assert_eq!(PreflopAction::Raise(230).short_code(), "R230");
}

#[test]
fn test_aggressive_actions() {
    assert!(!PreflopAction::Fold.is_aggressive());
    assert!(!PreflopAction::Call.is_aggressive());
    assert!(PreflopAction::Raise(300).is_aggressive());
    assert!(PreflopAction::AllIn.is_aggressive());
}
