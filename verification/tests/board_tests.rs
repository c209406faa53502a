use riverrun::board::{Board, Street};
use riverrun::card::{Card, Rank, Suit};
fn card(rank: Rank, suit: Suit) -> Card {
    Card::new(rank, suit)
}

fn make_flop() -> Board {
    let mut board = Board::new();
    board.deal_flop(
        card(Rank::Ace, Suit::Spades),
        card(Rank::King, Suit::Hearts),
        card(Rank::Queen, Suit::Diamonds),
    );
    board
}

#[test]
fn test_new_board() {
    let board = Board::new();
    assert!(board.is_empty());
    assert_eq!(board.len(), 0);
    assert_eq!(board.street(), Street::Preflop);
}

#[test]
fn board_test_deal_flop() {
    let mut board = Board::new();
    assert!(board.deal_flop(
        card(Rank::Ace, Suit::Spades),
        card(Rank::King, Suit::Hearts),
        card(Rank::Queen, Suit::Diamonds),
    ));
    assert_eq!(board.len(), 3);
    assert_eq!(board.street(), Street::Flop);
}

#[test]
fn board_test_deal_flop_wrong_stage() {
    let mut board = make_flop();
    assert!(!board.deal_flop(
        card(Rank::Two, Suit::Clubs),
        card(Rank::Three, Suit::Clubs),
        card(Rank::Four, Suit::Clubs),
    ));
}

#[test]
fn board_test_deal_turn() {
    let mut board = make_flop();
    assert!(board.deal_turn(card(Rank::Jack, Suit::Clubs)));
    assert_eq!(board.len(), 4);
    assert_eq!(board.street(), Street::Turn);
}

#[test]
fn board_test_deal_river() {
    let mut board = make_flop();
    board.deal_turn(card(Rank::Jack, Suit::Clubs));
    assert!(board.deal_river(card(Rank::Ten, Suit::Spades)));
    assert_eq!(board.len(), 5);
    assert_eq!(board.street(), Street::River);
    assert!(board.is_complete());
}

#[test]
fn test_deal_turn_wrong_stage() {
    let mut board = Board::new();
    assert!(!board.deal_turn(card(Rank::Jack, Suit::Clubs)));
}

#[test]
fn test_deal_river_wrong_stage() {
    let mut board = make_flop();
    assert!(!board.deal_river(card(Rank::Ten, Suit::Spades)));
}

#[test]
fn test_with_cards_flop() {
    let board = Board::with_cards(vec![
        card(Rank::Ace, Suit::Spades),
        card(Rank::King, Suit::Hearts),
        card(Rank::Queen, Suit::Diamonds),
    ])
    .unwrap();
    assert_eq!(board.len(), 3);
    assert_eq!(board.street(), Street::Flop);
}

#[test]
fn test_with_cards_turn() {
    let board = Board::with_cards(vec![
        card(Rank::Ace, Suit::Spades),
        card(Rank::King, Suit::Hearts),
        card(Rank::Queen, Suit::Diamonds),
        card(Rank::Jack, Suit::Clubs),
    ])
    .unwrap();
    assert_eq!(board.len(), 4);
    assert_eq!(board.street(), Street::Turn);
}

#[test]
fn test_with_cards_river() {
    let board = Board::with_cards(vec![
        card(Rank::Ace, Suit::Spades),
        card(Rank::King, Suit::Hearts),
        card(Rank::Queen, Suit::Diamonds),
        card(Rank::Jack, Suit::Clubs),
        card(Rank::Ten, Suit::Spades),
    ])
    .unwrap();
    assert_eq!(board.len(), 5);
    assert_eq!(board.street(), Street::River);
    assert!(board.is_complete());
}

#[test]
fn test_with_cards_invalid_count() {
    // 1 card is invalid
    assert!(Board::with_cards(vec![card(Rank::Ace, Suit::Spades)]).is_none());
    // 2 cards is invalid
    assert!(Board::with_cards(vec![
        card(Rank::Ace, Suit::Spades),
        card(Rank::King, Suit::Hearts),
    ])
    .is_none());
    // 6 cards is invalid
    assert!(Board::with_cards(vec![
        card(Rank::Ace, Suit::Spades),
        card(Rank::King, Suit::Hearts),
        card(Rank::Queen, Suit::Diamonds),
        card(Rank::Jack, Suit::Clubs),
        card(Rank::Ten, Suit::Spades),
        card(Rank::Nine, Suit::Hearts),
    ])
    .is_none());
}

#[test]
fn test_cards_accessor() {
    let board = make_flop();
    let cards = board.cards();
    assert_eq!(cards.len(), 3);
    assert_eq!(cards[0], card(Rank::Ace, Suit::Spades));
    assert_eq!(cards[1], card(Rank::King, Suit::Hearts));
    assert_eq!(cards[2], card(Rank::Queen, Suit::Diamonds));
}

#[test]
fn board_test_display() {
    let board = make_flop();
    assert_eq!(board.to_string(), "[As Kh Qd]");
}

#[test]
fn test_display_empty() {
    let board = Board::new();
    assert_eq!(board.to_string(), "[]");
}

#[test]
fn test_clear() {
    let mut board = make_flop();
    board.clear();
    assert!(board.is_empty());
    assert_eq!(board.street(), Street::Preflop);
}
