use riverrun::board::Board;
use riverrun::cactus_kev::CactusKevEvaluator;
use riverrun::card::Card;
use riverrun::deck::Deck;
use riverrun::equity::EquityCalculator;
use riverrun::exhaustive::ExhaustiveEquityCalculator;
use riverrun::hand_evaluator::HandEvaluator;
use riverrun::hole_cards::HoleCards;
use riverrun::monte_carlo::{seed_for, MonteCarloEquityCalculator};

fn card(text: &str) -> Card {
    Card::from_string(text).unwrap()
}

fn cards(texts: &[&str]) -> Vec<Card> {
    texts.iter().map(|t| card(t)).collect()
}

fn unseen(hole: &HoleCards, board: &[Card]) -> Vec<Card> {
    let mut dead = vec![hole.first(), hole.second()];
    dead.extend_from_slice(board);
    Deck::excluding(&dead).cards().to_vec()
}

fn strength(evaluator: &CactusKevEvaluator, first: Card, second: Card, board: [Card; 5]) -> u16 {
    evaluator.evaluate_7cards_fast(&HoleCards::new(first, second).combine_with_board(board))
}

fn count(tally: &mut [u64; 3], hero: u16, best_opponent: u16) {
    if hero < best_opponent {
        tally[0] += 1;
    } else if hero == best_opponent {
        tally[1] += 1;
    } else {
        tally[2] += 1;
    }
}

/// Heads-up counts on a complete board, with the deck positions in `skip` left out.
fn heads_up(evaluator: &CactusKevEvaluator, hole: &HoleCards, board: [Card; 5], deck: &[Card], skip: &[usize], tally: &mut [u64; 3]) {
    let hero = strength(evaluator, hole.first(), hole.second(), board);
    for i in 0..deck.len() {
        if skip.contains(&i) {
            continue;
        }
        for j in (i + 1)..deck.len() {
            if skip.contains(&j) {
                continue;
            }
            count(tally, hero, strength(evaluator, deck[i], deck[j], board));
        }
    }
}

fn tally_of(calc: &ExhaustiveEquityCalculator<CactusKevEvaluator>, hole: &HoleCards, board: &[Card], opponents: usize) -> [u64; 3] {
    let result = calc.calculate(hole, &Board::with_cards(board.to_vec()).unwrap(), opponents);
    assert_eq!(result.samples(), result.wins() + result.ties() + result.losses());
    [result.wins(), result.ties(), result.losses()]
}

#[test]
fn river_heads_up_matches_a_plain_enumeration() {
    let evaluator = CactusKevEvaluator::new();
    let calc = ExhaustiveEquityCalculator::new(CactusKevEvaluator::new());
    let hole = HoleCards::new(card("9s"), card("9h"));
    let board = cards(&["Kd", "9c", "Js", "2h", "2c"]);
    let deck = unseen(&hole, &board);
    let mut tally = [0u64; 3];
    heads_up(&evaluator, &hole, [board[0], board[1], board[2], board[3], board[4]], &deck, &[], &mut tally);
    assert_eq!(tally_of(&calc, &hole, &board, 1), tally);
    assert_eq!(tally.iter().sum::<u64>(), 990);
    assert!(tally[2] > 0);
}

#[test]
fn turn_heads_up_matches_a_plain_enumeration() {
    let evaluator = CactusKevEvaluator::new();
    let calc = ExhaustiveEquityCalculator::new(CactusKevEvaluator::new());
    let hole = HoleCards::new(card("As"), card("Kd"));
    let board = cards(&["Qh", "Jc", "4s", "4d"]);
    let deck = unseen(&hole, &board);
    let mut tally = [0u64; 3];
    for river in 0..deck.len() {
        let full = [board[0], board[1], board[2], board[3], deck[river]];
        heads_up(&evaluator, &hole, full, &deck, &[river], &mut tally);
    }
    assert_eq!(tally_of(&calc, &hole, &board, 1), tally);
}

#[test]
fn flop_heads_up_matches_a_plain_enumeration() {
    let evaluator = CactusKevEvaluator::new();
    let calc = ExhaustiveEquityCalculator::new(CactusKevEvaluator::new());
    let hole = HoleCards::new(card("7h"), card("8h"));
    let board = cards(&["9h", "Th", "2c"]);
    let deck = unseen(&hole, &board);
    let mut tally = [0u64; 3];
    for turn in 0..deck.len() {
        for river in (turn + 1)..deck.len() {
            let full = [board[0], board[1], board[2], deck[turn], deck[river]];
            heads_up(&evaluator, &hole, full, &deck, &[turn, river], &mut tally);
        }
    }
    assert_eq!(tally_of(&calc, &hole, &board, 1), tally);
    assert_eq!(tally.iter().sum::<u64>(), 1081 * 990);
}

#[test]
fn river_against_two_matches_a_plain_enumeration() {
    let evaluator = CactusKevEvaluator::new();
    let calc = ExhaustiveEquityCalculator::new(CactusKevEvaluator::new());
    let hole = HoleCards::new(card("Qs"), card("Qh"));
    let board = cards(&["Kd", "9c", "Js", "2h", "2c"]);
    let full = [board[0], board[1], board[2], board[3], board[4]];
    let deck = unseen(&hole, &board);
    let hero = strength(&evaluator, hole.first(), hole.second(), full);
    // The strength of every pair of deck cards, once.
    let n = deck.len();
    let mut table = vec![vec![0u16; n]; n];
    for i in 0..n {
        for j in (i + 1)..n {
            table[i][j] = strength(&evaluator, deck[i], deck[j], full);
        }
    }
    let mut tally = [0u64; 3];
    for a in 0..n {
        for b in (a + 1)..n {
            for c in 0..n {
                if c == a || c == b {
                    continue;
                }
                for d in (c + 1)..n {
                    if d == a || d == b {
                        continue;
                    }
                    count(&mut tally, hero, table[a][b].min(table[c][d]));
                }
            }
        }
    }
    assert_eq!(tally_of(&calc, &hole, &board, 2), tally);
}

#[test]
fn simulation_matches_a_plain_run_of_the_generator() {
    let evaluator = CactusKevEvaluator::new();
    let calc = MonteCarloEquityCalculator::with_samples(CactusKevEvaluator::new(), 400);
    let hole = HoleCards::new(card("Jd"), card("Tc"));
    let board = cards(&["9h", "8s", "2c"]);
    let opponents = 3;
    let deck = unseen(&hole, &board);
    let mut seed = seed_for(hole.first().index(), hole.second().index(), board.len());
    let needed = 2 + 2 * opponents;
    let mut tally = [0u64; 3];
    for _ in 0..400 {
        let mut shuffled = deck.clone();
        for i in 0..needed {
            seed = seed.wrapping_mul(6_364_136_223_846_793_005).wrapping_add(1);
            let j = i + ((seed >> 33) as usize % (shuffled.len() - i));
            shuffled.swap(i, j);
        }
        let full = [board[0], board[1], board[2], shuffled[0], shuffled[1]];
        let hero = strength(&evaluator, hole.first(), hole.second(), full);
        let best = (0..opponents)
            .map(|k| strength(&evaluator, shuffled[2 + 2 * k], shuffled[3 + 2 * k], full))
            .min()
            .unwrap();
        count(&mut tally, hero, best);
    }
    let result = calc.calculate(&hole, &Board::with_cards(board).unwrap(), opponents);
    assert_eq!([result.wins(), result.ties(), result.losses()], tally);
    assert_eq!(result.samples(), 400);
}

#[test]
fn seven_cards_match_the_best_of_their_fives() {
    let evaluator = CactusKevEvaluator::new();
    let deck = Deck::new().cards().to_vec();
    // A walk through the deck in steps that reach every card.
    for start in 0..52usize {
        let seven: Vec<Card> = (0..7).map(|k| deck[(start + 15 * k) % 52]).collect();
        let seven = [seven[0], seven[1], seven[2], seven[3], seven[4], seven[5], seven[6]];
        let mut best = u16::MAX;
        let mut best_cards = None;
        for a in 0..7 {
            for b in (a + 1)..7 {
                let five: Vec<Card> = (0..7).filter(|k| *k != a && *k != b).map(|k| seven[k]).collect();
                let five = [five[0], five[1], five[2], five[3], five[4]];
                let s = evaluator.evaluate_5cards_fast(&five);
                if s <= best {
                    best = s;
                    best_cards = Some(five);
                }
            }
        }
        let hand = evaluator.evaluate_7cards(seven);
        assert_eq!(hand.strength(), best);
        assert_eq!(evaluator.evaluate_7cards_fast(&seven), best);
        assert_eq!(evaluator.evaluate_5cards_fast(hand.cards()), best);
        assert!(best_cards.is_some());
    }
}
