use riverrun::board::Board;
use riverrun::cactus_kev::CactusKevEvaluator;
use riverrun::card::{Card, Rank, Suit};
use riverrun::equity::{EquityCalculator, EquityResult};
use riverrun::hole_cards::HoleCards;
use riverrun::monte_carlo::MonteCarloEquityCalculator;

/// The equity of a result as a number: the fraction that the result holds.
fn equity(result: &EquityResult) -> f64 {
    let (numerator, denominator) = result.equity_fraction();
    if denominator == 0 {
        0.0
    } else {
        numerator as f64 / denominator as f64
    }
}


fn card(rank: Rank, suit: Suit) -> Card {
    Card::new(rank, suit)
}

fn make_board(cards: Vec<Card>) -> Board {
    Board::with_cards(cards).unwrap()
}

#[test]
fn test_preflop_pocket_aces() {
    let calc = MonteCarloEquityCalculator::with_samples(CactusKevEvaluator::new(), 5000);

    let hole_cards = HoleCards::new(
        card(Rank::Ace, Suit::Spades),
        card(Rank::Ace, Suit::Hearts),
    );

    let board = Board::new(); // Preflop

    let result = calc.calculate(&hole_cards, &board, 1);

    // Pocket aces preflop ~85% equity heads-up
    assert!(equity(&result) > 0.80);
    assert!(equity(&result) < 0.90);
}

#[test]
fn test_preflop_72_offsuit() {
    let calc = MonteCarloEquityCalculator::with_samples(CactusKevEvaluator::new(), 5000);

    let hole_cards = HoleCards::new(
        card(Rank::Seven, Suit::Spades),
        card(Rank::Two, Suit::Hearts),
    );

    let board = Board::new();

    let result = calc.calculate(&hole_cards, &board, 1);

    // 72o is worst hand, ~35% equity heads-up
    assert!(equity(&result) > 0.30);
    assert!(equity(&result) < 0.40);
}

#[test]
fn test_flop_flush_draw() {
    let calc = MonteCarloEquityCalculator::with_samples(CactusKevEvaluator::new(), 5000);

    let hole_cards = HoleCards::new(
        card(Rank::Ace, Suit::Spades),
        card(Rank::King, Suit::Spades),
    );

    let board = make_board(vec![
        card(Rank::Queen, Suit::Spades),
        card(Rank::Jack, Suit::Spades),
        card(Rank::Two, Suit::Hearts),
    ]);

    let result = calc.calculate(&hole_cards, &board, 1);

    // AKs with nut flush draw + straight draw
    assert!(equity(&result) > 0.50);
}

#[test]
fn test_multi_opponent() {
    let calc = MonteCarloEquityCalculator::with_samples(CactusKevEvaluator::new(), 5000);

    let hole_cards = HoleCards::new(
        card(Rank::Ace, Suit::Spades),
        card(Rank::Ace, Suit::Hearts),
    );

    let board = Board::new();

    let result_1 = calc.calculate(&hole_cards, &board, 1);
    let result_3 = calc.calculate(&hole_cards, &board, 3);
    let result_5 = calc.calculate(&hole_cards, &board, 5);

    // Equity decreases with more opponents
    assert!(equity(&result_1) > equity(&result_3));
    assert!(equity(&result_3) > equity(&result_5));
}

#[test]
fn test_custom_samples() {
    let calc = MonteCarloEquityCalculator::with_samples(CactusKevEvaluator::new(), 1000);

    assert_eq!(calc.default_samples(), 1000);

    let hole_cards = HoleCards::new(
        card(Rank::Ace, Suit::Spades),
        card(Rank::Ace, Suit::Hearts),
    );

    let board = Board::new();

    // Using custom sample count
    let result = calc.calculate_sampled(&hole_cards, &board, 1, 500);
    assert_eq!(result.samples(), 500);
}

#[test]
fn test_river_equity() {
    let calc = MonteCarloEquityCalculator::new(CactusKevEvaluator::new());

    let hole_cards = HoleCards::new(
        card(Rank::Ace, Suit::Spades),
        card(Rank::Ace, Suit::Hearts),
    );

    let board = make_board(vec![
        card(Rank::King, Suit::Diamonds),
        card(Rank::Queen, Suit::Clubs),
        card(Rank::Jack, Suit::Spades),
        card(Rank::Two, Suit::Hearts),
        card(Rank::Seven, Suit::Clubs),
    ]);

    let result = calc.calculate(&hole_cards, &board, 1);

    // Pocket aces on safe board
    assert!(equity(&result) > 0.80);
}
