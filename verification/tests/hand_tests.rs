use riverrun::card::{Card, Rank, Suit};
use riverrun::hand::{Hand, HandRank};
fn card(rank: Rank, suit: Suit) -> Card {
    Card::new(rank, suit)
}

#[test]
fn test_hand_rank_from_strength() {
    assert_eq!(HandRank::from_strength(1), HandRank::StraightFlush);
    assert_eq!(HandRank::from_strength(10), HandRank::StraightFlush);
    assert_eq!(HandRank::from_strength(11), HandRank::FourOfAKind);
    assert_eq!(HandRank::from_strength(166), HandRank::FourOfAKind);
    assert_eq!(HandRank::from_strength(167), HandRank::FullHouse);
    assert_eq!(HandRank::from_strength(322), HandRank::FullHouse);
    assert_eq!(HandRank::from_strength(323), HandRank::Flush);
    assert_eq!(HandRank::from_strength(1599), HandRank::Flush);
    assert_eq!(HandRank::from_strength(1600), HandRank::Straight);
    assert_eq!(HandRank::from_strength(1609), HandRank::Straight);
    assert_eq!(HandRank::from_strength(1610), HandRank::ThreeOfAKind);
    assert_eq!(HandRank::from_strength(2467), HandRank::ThreeOfAKind);
    assert_eq!(HandRank::from_strength(2468), HandRank::TwoPair);
    assert_eq!(HandRank::from_strength(3325), HandRank::TwoPair);
    assert_eq!(HandRank::from_strength(3326), HandRank::OnePair);
    assert_eq!(HandRank::from_strength(6185), HandRank::OnePair);
    assert_eq!(HandRank::from_strength(6186), HandRank::HighCard);
    assert_eq!(HandRank::from_strength(7462), HandRank::HighCard);
}

#[test]
fn test_hand_rank_ordering() {
    assert!(HandRank::StraightFlush > HandRank::FourOfAKind);
    assert!(HandRank::FourOfAKind > HandRank::FullHouse);
    assert!(HandRank::FullHouse > HandRank::Flush);
    assert!(HandRank::Flush > HandRank::Straight);
    assert!(HandRank::Straight > HandRank::ThreeOfAKind);
    assert!(HandRank::ThreeOfAKind > HandRank::TwoPair);
    assert!(HandRank::TwoPair > HandRank::OnePair);
    assert!(HandRank::OnePair > HandRank::HighCard);
}

#[test]
fn test_hand_creation() {
    let cards = [
        card(Rank::Ace, Suit::Spades),
        card(Rank::King, Suit::Spades),
        card(Rank::Queen, Suit::Spades),
        card(Rank::Jack, Suit::Spades),
        card(Rank::Ten, Suit::Spades),
    ];
    let hand = Hand::new(cards, 1);

    assert_eq!(hand.rank(), HandRank::StraightFlush);
    assert_eq!(hand.strength(), 1);
    assert!(hand.is_royal_flush());
    assert!(hand.is_straight_flush());
}

#[test]
fn test_hand_card_accessor() {
    let cards = [
        card(Rank::Ace, Suit::Spades),
        card(Rank::King, Suit::Spades),
        card(Rank::Queen, Suit::Spades),
        card(Rank::Jack, Suit::Spades),
        card(Rank::Ten, Suit::Spades),
    ];
    let hand = Hand::new(cards, 1);

    assert_eq!(hand.card(0), cards[0]);
    assert_eq!(hand.card(4), cards[4]);
    assert_eq!(hand.cards(), &cards);
}

#[test]
fn test_hand_comparison() {
    let cards1 = [
        card(Rank::Ace, Suit::Spades),
        card(Rank::King, Suit::Spades),
        card(Rank::Queen, Suit::Spades),
        card(Rank::Jack, Suit::Spades),
        card(Rank::Ten, Suit::Spades),
    ];
    let royal_flush = Hand::new(cards1, 1);

    let cards2 = [
        card(Rank::Ace, Suit::Spades),
        card(Rank::Ace, Suit::Hearts),
        card(Rank::Ace, Suit::Diamonds),
        card(Rank::Ace, Suit::Clubs),
        card(Rank::King, Suit::Spades),
    ];
    let four_aces = Hand::new(cards2, 11);

    assert!(royal_flush.beats(&four_aces));
    assert!(four_aces.loses_to(&royal_flush));
    assert!(!royal_flush.ties(&four_aces));
    assert!(royal_flush > four_aces);
}

#[test]
fn test_hand_ties() {
    let cards1 = [
        card(Rank::Ace, Suit::Spades),
        card(Rank::King, Suit::Spades),
        card(Rank::Queen, Suit::Spades),
        card(Rank::Jack, Suit::Spades),
        card(Rank::Ten, Suit::Spades),
    ];
    let hand1 = Hand::new(cards1, 1);

    let cards2 = [
        card(Rank::Ace, Suit::Hearts),
        card(Rank::King, Suit::Hearts),
        card(Rank::Queen, Suit::Hearts),
        card(Rank::Jack, Suit::Hearts),
        card(Rank::Ten, Suit::Hearts),
    ];
    let hand2 = Hand::new(cards2, 1);

    assert!(hand1.ties(&hand2));
    assert!(!hand1.beats(&hand2));
    assert!(!hand1.loses_to(&hand2));
}

#[test]
fn test_hand_display() {
    let cards = [
        card(Rank::Ace, Suit::Spades),
        card(Rank::King, Suit::Spades),
        card(Rank::Queen, Suit::Spades),
        card(Rank::Jack, Suit::Spades),
        card(Rank::Ten, Suit::Spades),
    ];
    let hand = Hand::new(cards, 1);
    let display = hand.to_string();
    assert!(display.contains("Straight Flush"));
    assert!(display.contains("As"));
}

#[test]
fn test_hand_from_tuple() {
    let cards = [
        card(Rank::Ace, Suit::Spades),
        card(Rank::King, Suit::Spades),
        card(Rank::Queen, Suit::Spades),
        card(Rank::Jack, Suit::Spades),
        card(Rank::Ten, Suit::Spades),
    ];
    let hand: Hand = (cards, 1).into();
    assert_eq!(hand.strength(), 1);
    assert!(hand.is_royal_flush());
}

#[test]
fn test_hand_rank_predicates() {
    let cards = [
        card(Rank::Ace, Suit::Spades),
        card(Rank::King, Suit::Hearts),
        card(Rank::Queen, Suit::Diamonds),
        card(Rank::Jack, Suit::Clubs),
        card(Rank::Nine, Suit::Spades),
    ];

    let high_card = Hand::new(cards, 7000);
    assert!(high_card.is_high_card());
    assert!(!high_card.is_one_pair());

    let one_pair = Hand::new(cards, 4000);
    assert!(one_pair.is_one_pair());
    assert!(!one_pair.is_two_pair());

    let two_pair = Hand::new(cards, 3000);
    assert!(two_pair.is_two_pair());

    let three_kind = Hand::new(cards, 2000);
    assert!(three_kind.is_three_of_a_kind());

    let straight = Hand::new(cards, 1605);
    assert!(straight.is_straight());

    let flush = Hand::new(cards, 500);
    assert!(flush.is_flush());

    let full_house = Hand::new(cards, 200);
    assert!(full_house.is_full_house());

    let four_kind = Hand::new(cards, 50);
    assert!(four_kind.is_four_of_a_kind());

    let straight_flush = Hand::new(cards, 5);
    assert!(straight_flush.is_straight_flush());
    assert!(!straight_flush.is_royal_flush());
}
