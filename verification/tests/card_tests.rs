use cfr_solver::card::{Board, Card, Deck, HoleCards, Street, RANK_2, RANK_A, RANK_K, RANK_T,
    SUIT_CLUBS, SUIT_SPADES};

#[test]
fn test_card_creation() {
    let ace_spades = Card::new(RANK_A, SUIT_SPADES);
    assert_eq!(ace_spades.rank(), RANK_A);
    assert_eq!(ace_spades.suit(), SUIT_SPADES);
    assert_eq!(ace_spades.to_string(), "As");

    let two_clubs = Card::new(RANK_2, SUIT_CLUBS);
    assert_eq!(two_clubs.rank(), RANK_2);
    assert_eq!(two_clubs.suit(), SUIT_CLUBS);
    assert_eq!(two_clubs.to_string(), "2c");
}

#[test]
fn test_card_parsing() {
    assert_eq!(Card::from_str("As").unwrap().to_string(), "As");
    assert_eq!(Card::from_str("Kh").unwrap().to_string(), "Kh");
    assert_eq!(Card::from_str("2c").unwrap().to_string(), "2c");
    assert_eq!(Card::from_str("Td").unwrap().to_string(), "Td");
    assert!(Card::from_str("XX").is_none());
    assert!(Card::from_str("A").is_none());
}

#[test]
fn test_hole_cards() {
    let hc = HoleCards::from_str("AhKs").unwrap();
    assert_eq!(hc.card1.rank(), RANK_A);
    assert_eq!(hc.card2.rank(), RANK_K);
    assert!(!hc.is_suited());
    assert!(!hc.is_pair());

    let hc_suited = HoleCards::from_str("AsKs").unwrap();
    assert!(hc_suited.is_suited());

    let hc_pair = HoleCards::from_str("AhAs").unwrap();
    assert!(hc_pair.is_pair());
}

#[test]
fn test_hand_class_index() {
    let aa = HoleCards::from_str("AhAs").unwrap();
    assert_eq!(aa.hand_class_index(), RANK_A);

    let kk = HoleCards::from_str("KhKs").unwrap();
    assert_eq!(kk.hand_class_index(), RANK_K);

    let tt = HoleCards::from_str("ThTs").unwrap();
    assert_eq!(tt.hand_class_index(), RANK_T);

    let aks = HoleCards::from_str("AsKs").unwrap();
    let idx = aks.hand_class_index();
    assert!(idx >= 13 && idx <= 90, "AKs index {} should be 13-90", idx);

    let ako = HoleCards::from_str("AhKs").unwrap();
    let idx = ako.hand_class_index();
    assert!(idx >= 91 && idx <= 168, "AKo index {} should be 91-168", idx);
}

#[test]
fn test_board() {
    let mut board = Board::new();
    assert_eq!(board.len(), 0);
    assert_eq!(board.street(), Street::Preflop);

    board = Board::from_str("AhKsQd").unwrap();
    assert_eq!(board.len(), 3);
    assert_eq!(board.street(), Street::Flop);

    board.add(Card::from_str("Jc").unwrap());
    assert_eq!(board.len(), 4);
    assert_eq!(board.street(), Street::Turn);

    board.add(Card::from_str("Tc").unwrap());
    assert_eq!(board.len(), 5);
    assert_eq!(board.street(), Street::River);
}

#[test]
fn test_deck() {
    let mut deck = Deck::new();
    assert_eq!(deck.remaining(), 52);

    let card = deck.deal().unwrap();
    assert_eq!(deck.remaining(), 51);
    assert!(deck.is_dealt(card));

    let cards = deck.deal_n(51);
    assert_eq!(cards.len(), 51);
    assert_eq!(deck.remaining(), 0);
    assert!(deck.deal().is_none());
}

#[test]
fn test_deck_without() {
    let dead = vec![Card::from_str("As").unwrap(), Card::from_str("Ah").unwrap()];
    let deck = Deck::without(&dead);
    assert_eq!(deck.remaining(), 50);
}

#[test]
fn test_street_progression() {
    assert_eq!(Street::Preflop.next(), Some(Street::Flop));
    assert_eq!(Street::Flop.next(), Some(Street::Turn));
    assert_eq!(Street::Turn.next(), Some(Street::River));
    assert_eq!(Street::River.next(), Some(Street::Showdown));
    assert_eq!(Street::Showdown.next(), None);
}
