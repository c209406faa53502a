use riverrun::card::{Card, Rank, Suit};
use riverrun::hole_cards::HoleCards;
fn card(rank: Rank, suit: Suit) -> Card {
    Card::new(rank, suit)
}

#[test]
fn test_new_hole_cards() {
    let hole = HoleCards::new(
        card(Rank::Ace, Suit::Spades),
        card(Rank::King, Suit::Spades),
    );
    assert_eq!(hole.first(), card(Rank::Ace, Suit::Spades));
    assert_eq!(hole.second(), card(Rank::King, Suit::Spades));
}

#[test]
fn test_is_suited() {
    let suited = HoleCards::new(
        card(Rank::Ace, Suit::Spades),
        card(Rank::King, Suit::Spades),
    );
    let offsuit = HoleCards::new(
        card(Rank::Ace, Suit::Spades),
        card(Rank::King, Suit::Hearts),
    );
    assert!(suited.is_suited());
    assert!(!offsuit.is_suited());
}

#[test]
fn test_is_pair() {
    let pair = HoleCards::new(
        card(Rank::Ace, Suit::Spades),
        card(Rank::Ace, Suit::Hearts),
    );
    let not_pair = HoleCards::new(
        card(Rank::Ace, Suit::Spades),
        card(Rank::King, Suit::Spades),
    );
    assert!(pair.is_pair());
    assert!(!not_pair.is_pair());
}

#[test]
fn test_is_connected() {
    let connected = HoleCards::new(
        card(Rank::King, Suit::Spades),
        card(Rank::Queen, Suit::Hearts),
    );
    let ace_two = HoleCards::new(
        card(Rank::Ace, Suit::Spades),
        card(Rank::Two, Suit::Hearts),
    );
    let gapped = HoleCards::new(
        card(Rank::Ace, Suit::Spades),
        card(Rank::Jack, Suit::Hearts),
    );
    assert!(connected.is_connected());
    assert!(ace_two.is_connected());
    assert!(!gapped.is_connected());
}

#[test]
fn test_gap() {
    let connected = HoleCards::new(
        card(Rank::King, Suit::Spades),
        card(Rank::Queen, Suit::Hearts),
    );
    let one_gap = HoleCards::new(
        card(Rank::Ace, Suit::Spades),
        card(Rank::Queen, Suit::Hearts),
    );
    let two_gap = HoleCards::new(
        card(Rank::Ace, Suit::Spades),
        card(Rank::Jack, Suit::Hearts),
    );
    assert_eq!(connected.gap(), 0);
    assert_eq!(one_gap.gap(), 1);
    assert_eq!(two_gap.gap(), 2);
}

#[test]
fn hole_cards_test_display() {
    let hole = HoleCards::new(
        card(Rank::Ace, Suit::Spades),
        card(Rank::King, Suit::Hearts),
    );
    assert_eq!(hole.to_string(), "AsKh");
}

#[test]
fn test_from_array() {
    let cards = [
        card(Rank::Ace, Suit::Spades),
        card(Rank::King, Suit::Hearts),
    ];
    let hole: HoleCards = cards.into();
    assert_eq!(hole.first(), cards[0]);
}

#[test]
fn test_from_tuple() {
    let hole: HoleCards = (
        card(Rank::Ace, Suit::Spades),
        card(Rank::King, Suit::Hearts),
    ).into();
    assert_eq!(hole.to_string(), "AsKh");
}
