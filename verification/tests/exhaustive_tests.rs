use riverrun::board::Board;
use riverrun::cactus_kev::CactusKevEvaluator;
use riverrun::card::{Card, Rank, Suit};
use riverrun::equity::{EquityCalculator, EquityResult};
use riverrun::exhaustive::ExhaustiveEquityCalculator;
use riverrun::hole_cards::HoleCards;

/// The equity of a result as a number: the fraction that the result holds.
fn equity(result: &EquityResult) -> f64 {
    let (numerator, denominator) = result.equity_fraction();
    if denominator == 0 {
        0.0
    } else {
        numerator as f64 / denominator as f64
    }
}


fn card(rank: Rank, suit: Suit) -> Card {
    Card::new(rank, suit)
}

fn make_board(cards: Vec<Card>) -> Board {
    Board::with_cards(cards).unwrap()
}

#[test]
fn test_river_equity_pocket_aces() {
    let calc = ExhaustiveEquityCalculator::new(CactusKevEvaluator::new());

    let hole_cards = HoleCards::new(
        card(Rank::Ace, Suit::Spades),
        card(Rank::Ace, Suit::Hearts),
    );

    let board = make_board(vec![
        card(Rank::King, Suit::Diamonds),
        card(Rank::Queen, Suit::Clubs),
        card(Rank::Jack, Suit::Spades),
        card(Rank::Two, Suit::Hearts),
        card(Rank::Seven, Suit::Clubs),
    ]);

    let result = calc.calculate(&hole_cards, &board, 1);
    assert!(equity(&result) > 0.85);
}

#[test]
fn test_river_equity_weak_hand() {
    let calc = ExhaustiveEquityCalculator::new(CactusKevEvaluator::new());

    let hole_cards = HoleCards::new(
        card(Rank::Two, Suit::Spades),
        card(Rank::Three, Suit::Hearts),
    );

    let board = make_board(vec![
        card(Rank::King, Suit::Diamonds),
        card(Rank::Queen, Suit::Clubs),
        card(Rank::Jack, Suit::Spades),
        card(Rank::Nine, Suit::Hearts),
        card(Rank::Eight, Suit::Clubs),
    ]);

    let result = calc.calculate(&hole_cards, &board, 1);
    assert!(equity(&result) < 0.20);
}
