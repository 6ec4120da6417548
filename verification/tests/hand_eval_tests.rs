use cfr_solver::card::{Board, Card, HoleCards};
use cfr_solver::hand_eval::{calculate_equity_vs_random, HandCategory, HandEvaluator};

fn cards_from_str(s: &str) -> Vec<Card> {
    let s = s.replace(' ', "");
    let mut cards = Vec::new();
    let chars: Vec<char> = s.chars().collect();
    let mut i = 0;
    while i < chars.len() {
        let pair: String = chars[i..i + 2].iter().collect();
        cards.push(Card::from_str(&pair).unwrap());
        i += 2;
    }
    cards
}

fn arr5(cards: &[Card]) -> [Card; 5] {
    [cards[0], cards[1], cards[2], cards[3], cards[4]]
}

#[test]
fn test_high_card() {
    let eval = HandEvaluator::new();
    let cards = cards_from_str("As Kd Qh Jc 9s");
    let rank = eval.evaluate_5(&arr5(&cards));
    assert_eq!(rank.category(), HandCategory::HighCard);
}

#[test]
fn test_one_pair() {
    let eval = HandEvaluator::new();
    let cards = cards_from_str("As Ad Kh Qc Js");
    let rank = eval.evaluate_5(&arr5(&cards));
    assert_eq!(rank.category(), HandCategory::OnePair);
}

#[test]
fn test_two_pair() {
    let eval = HandEvaluator::new();
    let cards = cards_from_str("As Ad Kh Kc Js");
    let rank = eval.evaluate_5(&arr5(&cards));
    assert_eq!(rank.category(), HandCategory::TwoPair);
}

#[test]
fn test_three_of_a_kind() {
    let eval = HandEvaluator::new();
    let cards = cards_from_str("As Ad Ah Kc Js");
    let rank = eval.evaluate_5(&arr5(&cards));
    assert_eq!(rank.category(), HandCategory::ThreeOfAKind);
}

#[test]
fn test_straight() {
    let eval = HandEvaluator::new();

    let cards = cards_from_str("Ts 9d 8h 7c 6s");
    let rank = eval.evaluate_5(&arr5(&cards));
    assert_eq!(rank.category(), HandCategory::Straight);

    let cards = cards_from_str("As Kd Qh Jc Ts");
    let rank = eval.evaluate_5(&arr5(&cards));
    assert_eq!(rank.category(), HandCategory::Straight);

    let cards = cards_from_str("5s 4d 3h 2c As");
    let rank = eval.evaluate_5(&arr5(&cards));
    assert_eq!(rank.category(), HandCategory::Straight);
}

#[test]
fn test_flush() {
    let eval = HandEvaluator::new();
    let cards = cards_from_str("As Ks 9s 7s 2s");
    let rank = eval.evaluate_5(&arr5(&cards));
    assert_eq!(rank.category(), HandCategory::Flush);
}

#[test]
fn test_full_house() {
    let eval = HandEvaluator::new();
    let cards = cards_from_str("As Ad Ah Kc Kd");
    let rank = eval.evaluate_5(&arr5(&cards));
    assert_eq!(rank.category(), HandCategory::FullHouse);
}

#[test]
fn test_four_of_a_kind() {
    let eval = HandEvaluator::new();
    let cards = cards_from_str("As Ad Ah Ac Ks");
    let rank = eval.evaluate_5(&arr5(&cards));
    assert_eq!(rank.category(), HandCategory::FourOfAKind);
}

#[test]
fn test_straight_flush() {
    let eval = HandEvaluator::new();

    let cards = cards_from_str("9s 8s 7s 6s 5s");
    let rank = eval.evaluate_5(&arr5(&cards));
    assert_eq!(rank.category(), HandCategory::StraightFlush);

    let cards = cards_from_str("As Ks Qs Js Ts");
    let rank = eval.evaluate_5(&arr5(&cards));
    assert_eq!(rank.category(), HandCategory::StraightFlush);
}

#[test]
fn test_hand_comparison() {
    let eval = HandEvaluator::new();

    let aa = HoleCards::from_str("AhAd").unwrap();
    let kk = HoleCards::from_str("KhKd").unwrap();
    let board = Board::from_str("Qs Jc 7d 3s 2h").unwrap();

    assert!(eval.compare(&aa, &kk, &board) > 0);
    assert!(eval.compare(&kk, &aa, &board) < 0);
}

#[test]
fn test_7_card_evaluation() {
    let eval = HandEvaluator::new();

    let hole = HoleCards::from_str("AhAs").unwrap();
    let board = Board::from_str("Ad Ac Kh Qs Jd").unwrap();

    let rank = eval.evaluate(&hole, &board);
    assert_eq!(rank.category(), HandCategory::FourOfAKind);
}

#[test]
fn test_equity_calculation() {
    // Equity is a fixed-point probability: one million units to one.
    let aa = HoleCards::from_str("AhAs").unwrap();
    let board = Board::new();
    let equity = calculate_equity_vs_random(&aa, &board, 1000);
    assert!(equity > 800_000, "AA equity {} should be > 80%", equity);

    let low = HoleCards::from_str("7h2s").unwrap();
    let equity = calculate_equity_vs_random(&low, &board, 1000);
    assert!(equity < 400_000, "72o equity {} should be < 40%", equity);
}
