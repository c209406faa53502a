use rand::SeedableRng;
use riverrun::random_source::random_index_from;
use riverrun::board::Board;
use riverrun::cactus_kev::CactusKevEvaluator;
use riverrun::card::Card;
use riverrun::deck::Deck;
use riverrun::equity::EquityCalculator;
use riverrun::exhaustive::ExhaustiveEquityCalculator;
use riverrun::hole_cards::HoleCards;
use riverrun::monte_carlo::{seed_for, MonteCarloEquityCalculator, DEFAULT_SAMPLES};

fn card(text: &str) -> Card {
    Card::from_string(text).unwrap()
}

fn board(texts: &[&str]) -> Board {
    Board::with_cards(texts.iter().map(|t| card(t)).collect()).unwrap()
}

#[test]
fn exhaustive_river_counts_every_opponent_hand_once() {
    let calc = ExhaustiveEquityCalculator::new(CactusKevEvaluator::new());
    let hole = HoleCards::new(card("As"), card("Ah"));
    let river = board(&["Kd", "Qc", "Js", "2h", "7c"]);
    let result = calc.calculate(&hole, &river, 1);
    // 45 cards are left: 45 * 44 / 2 hands for the opponent.
    assert_eq!(result.samples(), 990);
    assert_eq!(result.wins() + result.ties() + result.losses(), 990);
    assert_eq!(result.num_opponents(), 1);
    // Sets, two pair with the board and the straight AT beat the pair of aces.
    let sampled = calc.calculate_sampled(&hole, &river, 1, 7);
    assert_eq!(sampled, result);
    assert_eq!(calc.count(&hole, &river, 1), result);
}

#[test]
fn exhaustive_river_with_the_nuts_never_loses() {
    let calc = ExhaustiveEquityCalculator::new(CactusKevEvaluator::new());
    let hole = HoleCards::new(card("As"), card("Ks"));
    let river = board(&["Qs", "Js", "Ts", "2h", "7c"]);
    let result = calc.calculate(&hole, &river, 1);
    assert_eq!(result.wins(), 990);
    assert_eq!(result.ties(), 0);
    assert_eq!(result.losses(), 0);
    assert_eq!(result.equity_fraction(), (1980, 1980));
}

#[test]
fn exhaustive_river_on_a_board_that_plays_always_ties() {
    let calc = ExhaustiveEquityCalculator::new(CactusKevEvaluator::new());
    let hole = HoleCards::new(card("2c"), card("3d"));
    let river = board(&["As", "Ks", "Qs", "Js", "Ts"]);
    let result = calc.calculate(&hole, &river, 1);
    assert_eq!(result.wins(), 0);
    assert_eq!(result.ties(), 990);
    assert_eq!(result.losses(), 0);
    // A tie with one opponent is worth half.
    assert_eq!(result.equity_fraction(), (990, 1980));
}

#[test]
fn exhaustive_turn_counts_every_river_and_opponent_hand() {
    let calc = ExhaustiveEquityCalculator::new(CactusKevEvaluator::new());
    let hole = HoleCards::new(card("As"), card("Ah"));
    let turn = board(&["Kd", "Qc", "Js", "2h"]);
    let result = calc.calculate(&hole, &turn, 1);
    // 46 river cards, then 45 * 44 / 2 hands for the opponent.
    assert_eq!(result.samples(), 46 * 990);
}

#[test]
fn exhaustive_two_opponents_counts_ordered_deals() {
    let calc = ExhaustiveEquityCalculator::new(CactusKevEvaluator::new());
    let hole = HoleCards::new(card("As"), card("Ks"));
    let river = board(&["Qs", "Js", "Ts", "2h", "7c"]);
    let result = calc.calculate(&hole, &river, 2);
    // 990 hands for the first opponent, 43 * 42 / 2 for the second.
    assert_eq!(result.samples(), 990 * 903);
    assert_eq!(result.wins(), 990 * 903);
    assert_eq!(result.num_opponents(), 2);
}

#[test]
fn exhaustive_gives_an_empty_result_where_it_does_not_enumerate() {
    let calc = ExhaustiveEquityCalculator::new(CactusKevEvaluator::new());
    let hole = HoleCards::new(card("As"), card("Ah"));
    let river = board(&["Kd", "Qc", "Js", "2h", "7c"]);
    assert_eq!(calc.calculate(&hole, &river, 4).samples(), 0);
    assert_eq!(calc.calculate(&hole, &river, 0).samples(), 0);
    assert_eq!(calc.calculate(&hole, &board(&["Kd", "Qc", "Js"]), 4).samples(), 0);
    assert_eq!(calc.calculate(&hole, &Board::new(), 2).samples(), 0);
    assert_eq!(calc.calculate(&hole, &Board::new(), 2).equity_fraction(), (0, 0));
}

#[test]
fn monte_carlo_gives_the_same_answer_to_the_same_question() {
    let calc = MonteCarloEquityCalculator::with_samples(CactusKevEvaluator::new(), 300);
    let hole = HoleCards::new(card("Qs"), card("Qh"));
    let flop = board(&["Kd", "7c", "2s"]);
    let first = calc.calculate(&hole, &flop, 2);
    let second = calc.calculate(&hole, &flop, 2);
    assert_eq!(first, second);
    assert_eq!(first.samples(), 300);
    assert_eq!(first.wins() + first.ties() + first.losses(), 300);
    assert_eq!(first.num_opponents(), 2);
    assert_eq!(seed_for(3, 4, 5), seed_for(3, 4, 5));
}

#[test]
fn monte_carlo_seed_decides_the_sample() {
    let calc = MonteCarloEquityCalculator::new(CactusKevEvaluator::new());
    assert_eq!(calc.default_samples(), DEFAULT_SAMPLES);
    assert_eq!(DEFAULT_SAMPLES, 10_000);
    let hole = HoleCards::new(card("7s"), card("2h"));
    let empty = Board::new();
    let remaining = MonteCarloEquityCalculator::<CactusKevEvaluator>::remaining_deck(hole, &empty);
    assert_eq!(remaining.remaining(), 50);
    let one = calc.simulate(hole, empty.cards(), &remaining, 1, 5, 200, 1);
    let again = calc.simulate(hole, empty.cards(), &remaining, 1, 5, 200, 1);
    assert_eq!(one, again);
    assert_eq!(one.samples(), 200);
    let others: Vec<_> = [2u64, 3, 99, 12345, u64::MAX]
        .iter()
        .map(|seed| calc.simulate(hole, empty.cards(), &remaining, 1, 5, 200, *seed))
        .collect();
    assert!(others.iter().any(|other| *other != one));
}

#[test]
fn monte_carlo_on_the_river_with_the_nuts_always_wins() {
    let calc = MonteCarloEquityCalculator::with_samples(CactusKevEvaluator::new(), 100);
    let hole = HoleCards::new(card("As"), card("Ks"));
    let river = board(&["Qs", "Js", "Ts", "2h", "7c"]);
    let result = calc.calculate(&hole, &river, 3);
    assert_eq!(result.wins(), 100);
    assert_eq!(result.samples(), 100);
}

#[test]
fn monte_carlo_gives_an_empty_result_for_too_many_opponents() {
    let calc = MonteCarloEquityCalculator::with_samples(CactusKevEvaluator::new(), 50);
    let hole = HoleCards::new(card("As"), card("Ah"));
    // 50 cards are left; 23 opponents and five board cards need 51.
    assert_eq!(calc.calculate(&hole, &Board::new(), 23).samples(), 0);
    assert_eq!(calc.calculate(&hole, &Board::new(), 22).samples(), 50);
    assert_eq!(calc.calculate(&hole, &Board::new(), usize::MAX).samples(), 0);
    assert_eq!(calc.calculate_sampled(&hole, &Board::new(), 1, 0).samples(), 0);
}

#[test]
fn shuffling_keeps_the_cards_and_changes_their_order() {
    let mut rng = rand::rngs::StdRng::seed_from_u64(7);
    let mut deck = Deck::new();
    let before: Vec<Card> = deck.cards().to_vec();
    deck.shuffle(&mut rng);
    let after: Vec<Card> = deck.cards().to_vec();
    assert_eq!(after.len(), 52);
    assert_ne!(before, after);
    let mut sorted: Vec<usize> = after.iter().map(|c| c.index()).collect();
    sorted.sort();
    assert_eq!(sorted, (0..52).collect::<Vec<usize>>());
}

#[test]
fn excluding_takes_exactly_the_named_cards_out() {
    let dead = [card("As"), card("Kd"), card("2c")];
    let deck = Deck::excluding(&dead);
    assert_eq!(deck.remaining(), 49);
    for c in deck.cards() {
        assert!(!dead.contains(c));
    }
    let indexes: Vec<usize> = deck.cards().iter().map(|c| c.index()).collect();
    let mut sorted = indexes.clone();
    sorted.sort();
    assert_eq!(indexes, sorted);
}

#[test]
fn index_drawn_with_a_generator_is_below_the_limit() {
    let mut rng = rand::rngs::StdRng::seed_from_u64(42);
    let mut seen = [false; 10];
    for _ in 0..400 {
        let index = random_index_from(&mut rng, 10);
        assert!(index < 10);
        seen[index] = true;
    }
    assert!(seen.iter().all(|&s| s));
    assert_eq!(random_index_from(&mut rng, 1), 0);
    assert_eq!(random_index_from(&mut rng, 0), 0);
}

#[test]
fn index_drawn_with_the_same_seed_is_the_same() {
    let mut first = rand::rngs::StdRng::seed_from_u64(9);
    let mut second = rand::rngs::StdRng::seed_from_u64(9);
    for max in 1..50usize {
        assert_eq!(random_index_from(&mut first, max), random_index_from(&mut second, max));
    }
}
