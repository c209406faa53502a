use riverrun::cactus_kev::CactusKevEvaluator;
use riverrun::card::{Card, ParseCardError, Rank, Suit};
use riverrun::equity::EquityResult;
use riverrun::hand::{Hand, HandRank};
use riverrun::hand_evaluator::HandEvaluator;
use riverrun::hand_rank_tables::HandRankTables;
use riverrun::rank_keys::hand_key;
use std::collections::HashSet;

fn card(text: &str) -> Card {
    Card::from_string(text).unwrap()
}

fn five(texts: [&str; 5]) -> [Card; 5] {
    [card(texts[0]), card(texts[1]), card(texts[2]), card(texts[3]), card(texts[4])]
}

#[test]
fn index_round_trip_holds_for_every_card() {
    let mut seen = HashSet::new();
    for index in 0..52 {
        let card = Card::from_index(index).unwrap();
        assert_eq!(card.index(), index);
        assert_eq!(Card::from_index(card.index()), Some(card));
        assert!(seen.insert(card.raw()));
    }
    assert_eq!(seen.len(), 52);
    assert_eq!(Card::from_index(52), None);
    assert_eq!(Card::from_index(usize::MAX), None);
}

#[test]
fn text_round_trip_holds_for_every_card() {
    for card in Card::all_cards() {
        let text = card.to_string();
        assert_eq!(text.chars().count(), 2);
        assert_eq!(Card::from_string(&text), Some(card));
        assert_eq!(text.parse::<Card>(), Ok(card));
        assert_eq!(Card::from_string(&text.to_uppercase()), Some(card));
        assert_eq!(Card::from_string(&text.to_lowercase()), Some(card));
    }
}

#[test]
fn parse_errors_name_what_is_wrong() {
    assert_eq!("".parse::<Card>(), Err(ParseCardError::InvalidLength));
    assert_eq!("10s".parse::<Card>(), Err(ParseCardError::InvalidLength));
    assert_eq!("1s".parse::<Card>(), Err(ParseCardError::InvalidRank));
    assert_eq!("Xx".parse::<Card>(), Err(ParseCardError::InvalidRank));
    assert_eq!("Az".parse::<Card>(), Err(ParseCardError::InvalidSuit));
    assert_eq!("é".parse::<Card>(), Err(ParseCardError::InvalidLength));
    assert_eq!("".parse::<Rank>(), Err(ParseCardError::InvalidRank));
    assert_eq!("1".parse::<Rank>(), Err(ParseCardError::InvalidRank));
    assert_eq!("AK".parse::<Rank>(), Err(ParseCardError::InvalidRank));
    assert_eq!("x".parse::<Suit>(), Err(ParseCardError::InvalidSuit));
    assert_eq!("cd".parse::<Suit>(), Err(ParseCardError::InvalidSuit));
    assert_eq!(ParseCardError::InvalidLength.to_string(), "card string must be exactly 2 characters");
    assert_eq!(ParseCardError::InvalidRank.to_string(), "invalid rank character");
    assert_eq!(ParseCardError::InvalidSuit.to_string(), "invalid suit character");
}

#[test]
fn card_encoding_has_the_documented_fields() {
    let ace = Card::new(Rank::Ace, Suit::Spades);
    assert_eq!(ace.raw(), 41 | (12 << 8) | (1 << 15) | (1 << 28));
    let two = Card::new(Rank::Two, Suit::Clubs);
    assert_eq!(two.raw(), 2 | (1 << 12) | (1 << 16));
    assert_eq!(Rank::Ten.bit_mask(), 1 << 24);
    assert_eq!(Suit::Hearts.bit_mask(), 1 << 14);
    assert_eq!(Rank::Seven.prime(), 13);
    assert_eq!(Rank::Queen.as_char(), 'Q');
    assert_eq!(Suit::Diamonds.as_char(), 'd');
}

/// The strengths of all hands that are no flushes, by their ranks from the highest down.
fn unique_strengths(tables: &HandRankTables) -> Vec<u16> {
    let mut strengths = Vec::new();
    for a in 0..13usize {
        for b in 0..=a {
            for c in 0..=b {
                for d in 0..=c {
                    for e in 0..=d {
                        if a == e {
                            assert_eq!(tables.lookup_unique(hand_key(a, b, c, d, e)), None);
                            continue;
                        }
                        strengths.push(tables.lookup_unique(hand_key(a, b, c, d, e)).unwrap());
                    }
                }
            }
        }
    }
    strengths
}

/// The strengths of all flushes, by the patterns of their ranks.
fn flush_strengths(tables: &HandRankTables) -> Vec<u16> {
    let mut strengths = Vec::new();
    for bits in 0..8192u32 {
        let strength = tables.lookup_flush(bits);
        if bits.count_ones() == 5 {
            strengths.push(strength);
        } else {
            assert_eq!(strength, 7462);
        }
    }
    strengths
}

#[test]
fn every_strength_belongs_to_exactly_one_class() {
    let tables = HandRankTables::new();
    let unique = unique_strengths(&tables);
    let flush = flush_strengths(&tables);
    assert_eq!(unique.len(), 6175);
    assert_eq!(tables.unique_len(), 6175);
    assert_eq!(flush.len(), 1287);
    let mut seen = HashSet::new();
    for strength in unique.iter().chain(flush.iter()) {
        assert!(*strength >= 1 && *strength <= 7462);
        assert!(seen.insert(*strength));
    }
    assert_eq!(seen.len(), 7462);
}

#[test]
fn no_two_classes_share_a_key() {
    let mut keys = HashSet::new();
    for a in 0..13usize {
        for b in 0..=a {
            for c in 0..=b {
                for d in 0..=c {
                    for e in 0..=d {
                        assert!(keys.insert(hand_key(a, b, c, d, e)));
                    }
                }
            }
        }
    }
    assert_eq!(keys.len(), 6188);
}

#[test]
fn category_counts_are_the_known_ones() {
    let tables = HandRankTables::new();
    let mut counts = [0usize; 9];
    for strength in unique_strengths(&tables).into_iter().chain(flush_strengths(&tables)) {
        let slot = match HandRank::from_strength(strength) {
            HandRank::StraightFlush => 0,
            HandRank::FourOfAKind => 1,
            HandRank::FullHouse => 2,
            HandRank::Flush => 3,
            HandRank::Straight => 4,
            HandRank::ThreeOfAKind => 5,
            HandRank::TwoPair => 6,
            HandRank::OnePair => 7,
            HandRank::HighCard => 8,
        };
        counts[slot] += 1;
    }
    assert_eq!(counts, [10, 156, 156, 1277, 10, 858, 858, 2860, 1277]);
    assert_eq!(counts.iter().sum::<usize>(), 7462);
}

#[test]
fn strengths_at_the_ends_of_every_category() {
    let evaluator = CactusKevEvaluator::new();
    let cases: [([&str; 5], u16); 18] = [
        (["As", "Ks", "Qs", "Js", "Ts"], 1),
        (["5d", "4d", "3d", "2d", "Ad"], 10),
        (["As", "Ah", "Ad", "Ac", "Ks"], 11),
        (["2s", "2h", "2d", "2c", "3s"], 166),
        (["As", "Ah", "Ad", "Kc", "Ks"], 167),
        (["2s", "2h", "2d", "3c", "3s"], 322),
        (["Ah", "Kh", "Qh", "Jh", "9h"], 323),
        (["7c", "5c", "4c", "3c", "2c"], 1599),
        (["As", "Kh", "Qd", "Jc", "Ts"], 1600),
        (["5s", "4h", "3d", "2c", "As"], 1609),
        (["As", "Ah", "Ad", "Kc", "Qs"], 1610),
        (["2s", "2h", "2d", "4c", "3s"], 2467),
        (["As", "Ah", "Kd", "Kc", "Qs"], 2468),
        (["3s", "3h", "2d", "2c", "4s"], 3325),
        (["As", "Ah", "Kd", "Qc", "Js"], 3326),
        (["2s", "2h", "5d", "4c", "3s"], 6185),
        (["As", "Kh", "Qd", "Jc", "9s"], 6186),
        (["7s", "5h", "4d", "3c", "2s"], 7462),
    ];
    for (texts, strength) in cases {
        let cards = five(texts);
        assert_eq!(evaluator.evaluate_5cards_fast(&cards), strength);
        let hand = evaluator.evaluate_5cards(cards);
        assert_eq!(hand.strength(), strength);
        assert_eq!(hand.rank(), HandRank::from_strength(strength));
        assert_eq!(hand.cards(), &cards);
    }
}

#[test]
fn strength_does_not_depend_on_the_order_of_the_cards() {
    let evaluator = CactusKevEvaluator::new();
    let cards = five(["Ks", "2h", "Kd", "9c", "2s"]);
    let expected = evaluator.evaluate_5cards_fast(&cards);
    let orders = [[4, 3, 2, 1, 0], [1, 0, 3, 2, 4], [2, 4, 0, 3, 1], [3, 1, 4, 0, 2]];
    for order in orders {
        let shuffled = [cards[order[0]], cards[order[1]], cards[order[2]], cards[order[3]], cards[order[4]]];
        assert_eq!(evaluator.evaluate_5cards_fast(&shuffled), expected);
    }
    assert_eq!(HandRank::from_strength(expected), HandRank::TwoPair);
}

#[test]
fn five_cards_of_one_suit_with_a_repeated_rank_count_as_the_worst_hand() {
    let evaluator = CactusKevEvaluator::new();
    let cards = five(["As", "As", "Ks", "Qs", "Js"]);
    assert_eq!(evaluator.evaluate_5cards_fast(&cards), 7462);
}

#[test]
fn seven_cards_give_the_best_five_and_the_first_of_equal_fives() {
    let evaluator = CactusKevEvaluator::new();
    let cards = [card("2c"), card("7d"), card("As"), card("Ah"), card("Kd"), card("Kc"), card("Qs")];
    let hand = evaluator.evaluate_7cards(cards);
    assert_eq!(hand.strength(), 2468);
    assert_eq!(evaluator.evaluate_7cards_fast(&cards), 2468);
    assert_eq!(hand.cards(), &[card("As"), card("Ah"), card("Kd"), card("Kc"), card("Qs")]);
    // The board plays: every choice of the five board cards is the same straight.
    let board = [card("Ts"), card("Jh"), card("Qd"), card("Kc"), card("As"), card("2h"), card("3d")];
    let straight = evaluator.evaluate_7cards(board);
    assert_eq!(straight.strength(), 1600);
    assert_eq!(straight.cards(), &[card("Ts"), card("Jh"), card("Qd"), card("Kc"), card("As")]);
}

#[test]
fn outcomes_of_two_hands_exclude_each_other() {
    let cards = five(["As", "Ks", "Qs", "Js", "Ts"]);
    let strengths = [1u16, 10, 11, 322, 323, 1600, 7462];
    for a in strengths {
        for b in strengths {
            let first = Hand::new(cards, a);
            let second = Hand::new(cards, b);
            let outcomes = [first.beats(&second), first.ties(&second), first.loses_to(&second)];
            assert_eq!(outcomes.iter().filter(|o| **o).count(), 1);
            assert_eq!(first.beats(&second), second.loses_to(&first));
            assert_eq!(first.ties(&second), second.ties(&first));
            assert_eq!(first == second, a == b);
            assert_eq!(first > second, a < b);
        }
    }
}

#[test]
fn hand_text_names_category_and_cards() {
    let hand = Hand::new(five(["As", "Ks", "Qs", "Js", "Ts"]), 1);
    assert_eq!(hand.to_string(), "Straight Flush [AsKsQsJsTs]");
    assert_eq!(HandRank::ThreeOfAKind.name(), "Three of a Kind");
    assert_eq!(HandRank::from_strength(0), HandRank::HighCard);
    assert_eq!(HandRank::from_strength(u16::MAX), HandRank::HighCard);
}

#[test]
fn rates_of_a_result_add_up_to_one() {
    let result = EquityResult::from_counts(10, 2, 3, 2);
    assert_eq!(result.samples(), 15);
    assert_eq!(result.wins() + result.ties() + result.losses(), result.samples());
    assert_eq!(result.num_opponents(), 2);
    assert_eq!(result.equity_fraction(), (32, 45));
    let samples = result.samples() as f64;
    let sum = result.wins() as f64 / samples + result.ties() as f64 / samples + result.losses() as f64 / samples;
    assert!((sum - 1.0).abs() < 1e-12);
    let empty = EquityResult::from_counts(0, 0, 0, 4);
    assert_eq!(empty.samples(), 0);
    assert_eq!(empty.equity_fraction(), (0, 0));
    let quarter = EquityResult::from_counts(1, 0, 3, 1);
    assert_eq!(quarter.equity_fraction(), (2, 8));
}
