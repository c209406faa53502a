use riverrun::card::{Card, Rank, Suit};
use riverrun::deck::Deck;
#[test]
fn test_new_deck_has_52_cards() {
    let deck = Deck::new();
    assert_eq!(deck.remaining(), 52);
}

#[test]
fn test_empty_deck() {
    let deck = Deck::empty();
    assert!(deck.is_empty());
    assert_eq!(deck.remaining(), 0);
}

#[test]
fn test_deal_reduces_count() {
    let mut deck = Deck::new();
    let card = deck.deal();
    assert!(card.is_some());
    assert_eq!(deck.remaining(), 51);
}

#[test]
fn test_deal_from_empty() {
    let mut deck = Deck::empty();
    assert!(deck.deal().is_none());
}

#[test]
fn test_deal_multiple() {
    let mut deck = Deck::new();
    let cards = deck.deal_exact(5).unwrap();
    assert_eq!(cards.len(), 5);
    assert_eq!(deck.remaining(), 47);
}

#[test]
fn test_peek_does_not_remove() {
    let deck = Deck::new();
    let peeked = deck.peek();
    assert!(peeked.is_some());
    assert_eq!(deck.remaining(), 52);
}

#[test]
fn test_remove_cards() {
    let mut deck = Deck::new();
    let cards_to_remove = vec![
        Card::new(Rank::Ace, Suit::Spades),
        Card::new(Rank::King, Suit::Hearts),
    ];
    deck.remove(&cards_to_remove);
    assert_eq!(deck.remaining(), 50);
}

#[test]
fn deck_test_reset() {
    let mut deck = Deck::new();
    deck.deal_n(10);
    assert_eq!(deck.remaining(), 42);
    deck.reset();
    assert_eq!(deck.remaining(), 52);
}

#[test]
fn test_all_cards_unique() {
    let deck = Deck::new();
    let cards = deck.cards();
    let mut seen = std::collections::HashSet::new();
    for card in cards {
        assert!(seen.insert(card), "Duplicate card found: {}", card.to_string());
    }
}

#[test]
fn test_from_cards() {
    let cards = vec![
        Card::new(Rank::Ace, Suit::Spades),
        Card::new(Rank::King, Suit::Hearts),
    ];
    let deck = Deck::from_cards(cards);
    assert_eq!(deck.remaining(), 2);
}

#[test]
fn test_deal_exact() {
    let mut deck = Deck::new();
    let cards = deck.deal_exact(5);
    assert!(cards.is_some());
    assert_eq!(cards.unwrap().len(), 5);
    assert_eq!(deck.remaining(), 47);
}

#[test]
fn test_deal_exact_not_enough() {
    let mut deck = Deck::from_cards(vec![Card::new(Rank::Ace, Suit::Spades)]);
    assert!(deck.deal_exact(5).is_none());
    assert_eq!(deck.remaining(), 1); // Unchanged
}

#[test]
fn deck_test_deal_hole_cards() {
    let mut deck = Deck::new();
    let hands = deck.deal_hole_cards(4).unwrap();
    assert_eq!(hands.len(), 4);
    assert_eq!(deck.remaining(), 44); // 52 - 8
    for hand in &hands {
        assert_eq!(hand.len(), 2);
    }
}

#[test]
fn test_deal_hole_cards_not_enough() {
    let mut deck = Deck::from_cards(vec![
        Card::new(Rank::Ace, Suit::Spades),
        Card::new(Rank::King, Suit::Hearts),
    ]);
    assert!(deck.deal_hole_cards(2).is_none()); // Need 4 cards for 2 players
}

#[test]
fn deck_test_deal_flop() {
    let mut deck = Deck::new();
    let flop = deck.deal_flop().unwrap();
    assert_eq!(flop.len(), 3);
    assert_eq!(deck.remaining(), 48); // 52 - 1 burn - 3 dealt
}

#[test]
fn test_deal_flop_not_enough_cards() {
    let mut deck = Deck::from_cards(vec![
        Card::new(Rank::Ace, Suit::Spades),
        Card::new(Rank::King, Suit::Hearts),
        Card::new(Rank::Queen, Suit::Diamonds),
    ]);
    assert!(deck.deal_flop().is_none()); // Need 4 cards (1 burn + 3)
}

#[test]
fn deck_test_deal_turn() {
    let mut deck = Deck::new();
    let turn = deck.deal_turn().unwrap();
    assert_eq!(deck.remaining(), 50); // 52 - 1 burn - 1 turn
    assert!(turn.rank() <= 12);
}

#[test]
fn deck_test_deal_river() {
    let mut deck = Deck::new();
    let river = deck.deal_river().unwrap();
    assert_eq!(deck.remaining(), 50); // 52 - 1 burn - 1 river
    assert!(river.suit() <= 3);
}

#[test]
fn test_full_deal_sequence() {
    let mut deck = Deck::new();
    let hands = deck.deal_hole_cards(6).unwrap(); // 12 cards
    assert_eq!(hands.len(), 6);
    assert_eq!(deck.remaining(), 40);

    let flop = deck.deal_flop().unwrap(); // burn + 3
    assert_eq!(flop.len(), 3);
    assert_eq!(deck.remaining(), 36);

    let turn = deck.deal_turn().unwrap(); // burn + 1
    assert!(turn.rank() <= 12);
    assert_eq!(deck.remaining(), 34);

    let river = deck.deal_river().unwrap(); // burn + 1
    assert!(river.suit() <= 3);
    assert_eq!(deck.remaining(), 32);
}
