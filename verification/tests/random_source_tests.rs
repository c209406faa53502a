use riverrun::card::{Card, Rank, Suit};
use riverrun::random_source::{FixedRandomSource, RandomSource};
fn make_cards() -> Vec<Card> {
    vec![
        Card::new(Rank::Ace, Suit::Spades),
        Card::new(Rank::King, Suit::Hearts),
        Card::new(Rank::Queen, Suit::Diamonds),
        Card::new(Rank::Jack, Suit::Clubs),
    ]
}

#[test]
fn test_fixed_random_source_no_shuffle() {
    let mut source = FixedRandomSource::new(0);
    let mut cards = make_cards();
    let before = cards.clone();

    source.shuffle_cards(&mut cards);

    // Cards should remain in their order
    assert_eq!(cards, before);
}

#[test]
fn test_fixed_random_source_index() {
    let mut source = FixedRandomSource::new(5);

    assert_eq!(source.random_index(10), 5);
    assert_eq!(source.random_index(10), 5);
    assert_eq!(source.random_index(3), 2); // 5 % 3 = 2
}

#[test]
fn test_fixed_random_source_zero() {
    let mut source = FixedRandomSource::zero();

    assert_eq!(source.random_index(10), 0);
    assert_eq!(source.random_index(100), 0);
}

#[test]
fn test_fixed_random_source_zero_max() {
    let mut source = FixedRandomSource::new(5);
    assert_eq!(source.random_index(0), 0);
}
