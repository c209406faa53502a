use riverrun::cactus_kev::CactusKevEvaluator;
use riverrun::card::{Card, Rank, Suit};
use riverrun::hand_evaluator::HandEvaluator;
fn card(rank: Rank, suit: Suit) -> Card {
    Card::new(rank, suit)
}

#[test]
fn test_royal_flush() {
    let evaluator = CactusKevEvaluator::new();
    let cards = [
        card(Rank::Ace, Suit::Spades),
        card(Rank::King, Suit::Spades),
        card(Rank::Queen, Suit::Spades),
        card(Rank::Jack, Suit::Spades),
        card(Rank::Ten, Suit::Spades),
    ];
    let hand = evaluator.evaluate_5cards(cards);
    assert!(hand.is_royal_flush());
    assert_eq!(hand.strength(), 1);
}

#[test]
fn test_straight_flush() {
    let evaluator = CactusKevEvaluator::new();
    let cards = [
        card(Rank::Nine, Suit::Hearts),
        card(Rank::Eight, Suit::Hearts),
        card(Rank::Seven, Suit::Hearts),
        card(Rank::Six, Suit::Hearts),
        card(Rank::Five, Suit::Hearts),
    ];
    let hand = evaluator.evaluate_5cards(cards);
    assert!(hand.is_straight_flush());
    assert!(!hand.is_royal_flush());
}

#[test]
fn test_four_of_a_kind() {
    let evaluator = CactusKevEvaluator::new();
    let cards = [
        card(Rank::Ace, Suit::Spades),
        card(Rank::Ace, Suit::Hearts),
        card(Rank::Ace, Suit::Diamonds),
        card(Rank::Ace, Suit::Clubs),
        card(Rank::King, Suit::Spades),
    ];
    let hand = evaluator.evaluate_5cards(cards);
    assert!(hand.is_four_of_a_kind());
}

#[test]
fn test_full_house() {
    let evaluator = CactusKevEvaluator::new();
    let cards = [
        card(Rank::Ace, Suit::Spades),
        card(Rank::Ace, Suit::Hearts),
        card(Rank::Ace, Suit::Diamonds),
        card(Rank::King, Suit::Clubs),
        card(Rank::King, Suit::Spades),
    ];
    let hand = evaluator.evaluate_5cards(cards);
    assert!(hand.is_full_house());
}

#[test]
fn test_flush() {
    let evaluator = CactusKevEvaluator::new();
    let cards = [
        card(Rank::Ace, Suit::Spades),
        card(Rank::Jack, Suit::Spades),
        card(Rank::Eight, Suit::Spades),
        card(Rank::Four, Suit::Spades),
        card(Rank::Two, Suit::Spades),
    ];
    let hand = evaluator.evaluate_5cards(cards);
    assert!(hand.is_flush());
}

#[test]
fn test_straight() {
    let evaluator = CactusKevEvaluator::new();
    let cards = [
        card(Rank::Nine, Suit::Spades),
        card(Rank::Eight, Suit::Hearts),
        card(Rank::Seven, Suit::Diamonds),
        card(Rank::Six, Suit::Clubs),
        card(Rank::Five, Suit::Spades),
    ];
    let hand = evaluator.evaluate_5cards(cards);
    assert!(hand.is_straight());
}

#[test]
fn test_wheel_straight() {
    let evaluator = CactusKevEvaluator::new();
    let cards = [
        card(Rank::Ace, Suit::Spades),
        card(Rank::Two, Suit::Hearts),
        card(Rank::Three, Suit::Diamonds),
        card(Rank::Four, Suit::Clubs),
        card(Rank::Five, Suit::Spades),
    ];
    let hand = evaluator.evaluate_5cards(cards);
    assert!(hand.is_straight());
}

#[test]
fn test_three_of_a_kind() {
    let evaluator = CactusKevEvaluator::new();
    let cards = [
        card(Rank::Ace, Suit::Spades),
        card(Rank::Ace, Suit::Hearts),
        card(Rank::Ace, Suit::Diamonds),
        card(Rank::King, Suit::Clubs),
        card(Rank::Queen, Suit::Spades),
    ];
    let hand = evaluator.evaluate_5cards(cards);
    assert!(hand.is_three_of_a_kind());
}

#[test]
fn test_two_pair() {
    let evaluator = CactusKevEvaluator::new();
    let cards = [
        card(Rank::Ace, Suit::Spades),
        card(Rank::Ace, Suit::Hearts),
        card(Rank::King, Suit::Diamonds),
        card(Rank::King, Suit::Clubs),
        card(Rank::Queen, Suit::Spades),
    ];
    let hand = evaluator.evaluate_5cards(cards);
    assert!(hand.is_two_pair());
}

#[test]
fn test_one_pair() {
    let evaluator = CactusKevEvaluator::new();
    let cards = [
        card(Rank::Ace, Suit::Spades),
        card(Rank::Ace, Suit::Hearts),
        card(Rank::King, Suit::Diamonds),
        card(Rank::Queen, Suit::Clubs),
        card(Rank::Jack, Suit::Spades),
    ];
    let hand = evaluator.evaluate_5cards(cards);
    assert!(hand.is_one_pair());
}

#[test]
fn test_high_card() {
    let evaluator = CactusKevEvaluator::new();
    let cards = [
        card(Rank::Ace, Suit::Spades),
        card(Rank::King, Suit::Hearts),
        card(Rank::Queen, Suit::Diamonds),
        card(Rank::Jack, Suit::Clubs),
        card(Rank::Nine, Suit::Spades),
    ];
    let hand = evaluator.evaluate_5cards(cards);
    assert!(hand.is_high_card());
}

#[test]
fn test_7card_evaluation() {
    let evaluator = CactusKevEvaluator::new();
    let cards = [
        card(Rank::Ace, Suit::Spades),
        card(Rank::King, Suit::Spades),
        card(Rank::Queen, Suit::Spades),
        card(Rank::Jack, Suit::Spades),
        card(Rank::Ten, Suit::Spades),
        card(Rank::Two, Suit::Hearts),
        card(Rank::Three, Suit::Diamonds),
    ];
    let hand = evaluator.evaluate_7cards(cards);
    assert!(hand.is_royal_flush());
}

#[test]
fn test_hand_ordering() {
    let evaluator = CactusKevEvaluator::new();

    let royal_flush = evaluator.evaluate_5cards([
        card(Rank::Ace, Suit::Spades),
        card(Rank::King, Suit::Spades),
        card(Rank::Queen, Suit::Spades),
        card(Rank::Jack, Suit::Spades),
        card(Rank::Ten, Suit::Spades),
    ]);

    let four_kind = evaluator.evaluate_5cards([
        card(Rank::Ace, Suit::Spades),
        card(Rank::Ace, Suit::Hearts),
        card(Rank::Ace, Suit::Diamonds),
        card(Rank::Ace, Suit::Clubs),
        card(Rank::King, Suit::Spades),
    ]);

    let high_card = evaluator.evaluate_5cards([
        card(Rank::Ace, Suit::Spades),
        card(Rank::King, Suit::Hearts),
        card(Rank::Queen, Suit::Diamonds),
        card(Rank::Jack, Suit::Clubs),
        card(Rank::Nine, Suit::Spades),
    ]);

    assert!(royal_flush.beats(&four_kind));
    assert!(four_kind.beats(&high_card));
    assert!(royal_flush.beats(&high_card));
}
