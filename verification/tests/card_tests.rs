use riverrun::card::{Card, ParseCardError, Rank, Suit};
#[test]
fn test_card_creation() {
    let card = Card::new(Rank::Ace, Suit::Spades);
    assert_eq!(card.rank(), 12);
    assert_eq!(card.suit(), 3);
    assert_eq!(card.prime(), 41);
}

#[test]
fn test_card_from_raw() {
    let card = Card::from_raw(12, 3);
    assert_eq!(card.rank_enum(), Rank::Ace);
    assert_eq!(card.suit_enum(), Suit::Spades);
}

#[test]
fn test_card_display() {
    assert_eq!(Card::new(Rank::Two, Suit::Clubs).to_string(), "2c");
    assert_eq!(Card::new(Rank::Ace, Suit::Spades).to_string(), "As");
    assert_eq!(Card::new(Rank::Ten, Suit::Diamonds).to_string(), "Td");
}

#[test]
fn test_card_parse() {
    assert_eq!("As".parse::<Card>().unwrap(), Card::new(Rank::Ace, Suit::Spades));
    assert_eq!("2c".parse::<Card>().unwrap(), Card::new(Rank::Two, Suit::Clubs));
    assert_eq!("Td".parse::<Card>().unwrap(), Card::new(Rank::Ten, Suit::Diamonds));
    assert_eq!("qH".parse::<Card>().unwrap(), Card::new(Rank::Queen, Suit::Hearts));
}

#[test]
fn test_card_parse_errors() {
    assert_eq!("A".parse::<Card>(), Err(ParseCardError::InvalidLength));
    assert_eq!("Asx".parse::<Card>(), Err(ParseCardError::InvalidLength));
    assert_eq!("Xs".parse::<Card>(), Err(ParseCardError::InvalidRank));
    assert_eq!("Ax".parse::<Card>(), Err(ParseCardError::InvalidSuit));
}

#[test]
fn test_card_index() {
    let card = Card::new(Rank::Two, Suit::Clubs);
    assert_eq!(card.index(), 0);

    let card = Card::new(Rank::Ace, Suit::Spades);
    assert_eq!(card.index(), 51);
}

#[test]
fn test_card_from_index() {
    assert_eq!(Card::from_index(0), Some(Card::new(Rank::Two, Suit::Clubs)));
    assert_eq!(Card::from_index(51), Some(Card::new(Rank::Ace, Suit::Spades)));
    assert_eq!(Card::from_index(52), None);
}

#[test]
fn test_all_cards() {
    let cards: Vec<Card> = Card::all_cards();
    assert_eq!(cards.len(), 52);
    assert_eq!(cards[0], Card::new(Rank::Two, Suit::Clubs));
    assert_eq!(cards[51], Card::new(Rank::Ace, Suit::Spades));
}

#[test]
fn test_rank_bits() {
    let ace = Card::new(Rank::Ace, Suit::Clubs);
    let king = Card::new(Rank::King, Suit::Diamonds);
    assert_eq!(ace.rank_bits(), 1 << 12);
    assert_eq!(king.rank_bits(), 1 << 11);
}

#[test]
fn test_suit_bits() {
    let clubs = Card::new(Rank::Two, Suit::Clubs);
    let spades = Card::new(Rank::Two, Suit::Spades);
    assert_eq!(clubs.suit_bits(), 0b0001);
    assert_eq!(spades.suit_bits(), 0b1000);
}

#[test]
fn test_same_rank_suit() {
    let as_ = Card::new(Rank::Ace, Suit::Spades);
    let ah = Card::new(Rank::Ace, Suit::Hearts);
    let ks = Card::new(Rank::King, Suit::Spades);

    assert!(as_.same_rank(&ah));
    assert!(!as_.same_rank(&ks));
    assert!(as_.same_suit(&ks));
    assert!(!as_.same_suit(&ah));
}

#[test]
fn test_suit_enum() {
    assert_eq!(Suit::from_u8(0), Some(Suit::Clubs));
    assert_eq!(Suit::from_u8(4), None);
    assert_eq!(Suit::Spades.as_char(), 's');
    assert_eq!("H".parse::<Suit>(), Ok(Suit::Hearts));
}

#[test]
fn test_rank_enum() {
    assert_eq!(Rank::from_u8(12), Some(Rank::Ace));
    assert_eq!(Rank::from_u8(13), None);
    assert_eq!(Rank::Ace.prime(), 41);
    assert_eq!("K".parse::<Rank>(), Ok(Rank::King));
}

#[test]
fn test_card_from_tuple() {
    let card: Card = (Rank::Ace, Suit::Spades).into();
    assert_eq!(card.to_string(), "As");
}

#[test]
fn test_all_suits() {
    let suits: Vec<Suit> = Suit::all();
    assert_eq!(suits.len(), 4);
}

#[test]
fn test_all_ranks() {
    let ranks: Vec<Rank> = Rank::all();
    assert_eq!(ranks.len(), 13);
    assert_eq!(ranks[0], Rank::Two);
    assert_eq!(ranks[12], Rank::Ace);
}
