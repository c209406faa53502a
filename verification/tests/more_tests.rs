use riverrun::betting::{BettingRound, BettingState, Pot};
use riverrun::board::Board;
use riverrun::card::{Card, Rank, Suit};
use riverrun::chips::Chips;
use riverrun::combinatorics::{binomial, combinations, is_straight_pattern, FIVE_FROM_SEVEN};
use riverrun::deck::Deck;
use riverrun::game::Game;
use riverrun::hand_rank_tables::{rank_mask, unpaired_hands};
use riverrun::hole_cards::HoleCards;
use riverrun::id_generator::{IdGenerator, SequentialIdGenerator, SimpleUuidGenerator};
use riverrun::ids::HandNumber;
use riverrun::strength_map::{sorted_by_key, store, StrengthMap};
use riverrun::player::Position::{BigBlind, Button, Cutoff, Hijack, SmallBlind, MP, MP1, UTG, UTG1, UTG2};
use riverrun::player::{PlayerId, Position};
use riverrun::rank_keys::{hand_key, prime_for, product5, PRIMES};
use riverrun::snapshot_store::SnapshotPolicy;
use riverrun::street::Street;
use riverrun::text::{hex_fixed, hex_text};

fn card(text: &str) -> Card {
    Card::from_string(text).unwrap()
}

#[test]
fn combinations_come_in_lexicographic_order() {
    assert_eq!(
        combinations(4, 2),
        vec![vec![0, 1], vec![0, 2], vec![0, 3], vec![1, 2], vec![1, 3], vec![2, 3]]
    );
    assert_eq!(combinations(5, 0), vec![Vec::<usize>::new()]);
    assert_eq!(combinations(0, 0), vec![Vec::<usize>::new()]);
    assert_eq!(combinations(3, 5), Vec::<Vec<usize>>::new());
    assert_eq!(combinations(3, 3), vec![vec![0, 1, 2]]);
    assert_eq!(combinations(13, 5).len(), 1287);
    assert_eq!(combinations(7, 5).len(), binomial(7, 5));
    let seven: Vec<Vec<usize>> = FIVE_FROM_SEVEN.iter().map(|c| c.to_vec()).collect();
    assert_eq!(combinations(7, 5), seven);
}

#[test]
fn binomial_edge_cases() {
    assert_eq!(binomial(4, 5), 0);
    assert_eq!(binomial(0, 0), 1);
    assert_eq!(binomial(6, 3), 20);
    assert_eq!(binomial(52, 5), 2_598_960);
    assert_eq!(binomial(52, 47), 2_598_960);
    assert_eq!(binomial(12, 2), 66);
}

#[test]
fn straight_patterns_need_five_different_ranks() {
    assert!(is_straight_pattern(&[12, 0, 3, 1, 2]));
    assert!(is_straight_pattern(&[7, 5, 6, 4, 3]));
    assert!(!is_straight_pattern(&[0, 1, 2, 3]));
    assert!(!is_straight_pattern(&[0, 1, 2, 3, 4, 5]));
    assert!(!is_straight_pattern(&[]));
    assert!(!is_straight_pattern(&[12, 12, 0, 1, 2]));
    assert!(!is_straight_pattern(&[9, 10, 11, 12, 0]));
    assert!(!is_straight_pattern(&[usize::MAX, 0, 1, 2, 3]));
}

#[test]
fn keys_and_masks_of_hands() {
    assert_eq!(PRIMES, [2, 3, 5, 7, 11, 13, 17, 19, 23, 29, 31, 37, 41]);
    assert_eq!(prime_for(0), 2);
    assert_eq!(prime_for(12), 41);
    assert_eq!(product5(2, 3, 5, 7, 11), 2310);
    assert_eq!(product5(41, 41, 41, 41, 41), 115_856_201);
    assert_eq!(hand_key(12, 12, 12, 12, 11), 41 * 41 * 41 * 41 * 37);
    assert_eq!(rank_mask(&[12, 11, 10, 9, 8]), 0b1_1111_0000_0000);
    assert_eq!(rank_mask(&[12, 3, 2, 1, 0]), 0b1_0000_0000_1111);
    let hands = unpaired_hands();
    assert_eq!(hands.len(), 1277);
    assert_eq!(hands[0], [12, 11, 10, 9, 7]);
    assert_eq!(hands[1276], [5, 3, 2, 1, 0]);
    for pair in hands.windows(2) {
        assert!(pair[0] > pair[1]);
    }
}

#[test]
fn gap_counts_the_ranks_between_the_hole_cards() {
    let gap = |a: &str, b: &str| HoleCards::new(card(a), card(b)).gap();
    assert_eq!(gap("As", "Ah"), 0);
    assert_eq!(gap("As", "2h"), 0);
    assert_eq!(gap("2s", "Ah"), 0);
    assert_eq!(gap("As", "3h"), 1);
    assert_eq!(gap("2s", "8h"), 5);
    assert_eq!(gap("2s", "9h"), 5);
    assert_eq!(gap("2s", "Kh"), 1);
    assert!(HoleCards::new(card("7s"), card("7h")).is_connected());
    assert!(HoleCards::new(card("7s"), card("7h")).is_pair());
    assert_eq!(HoleCards::new(card("7s"), card("8s")).cards(), &[card("7s"), card("8s")]);
    let combined = HoleCards::new(card("As"), card("Kh")).combine_with_board([
        card("2c"),
        card("3d"),
        card("4h"),
        card("5s"),
        card("6c"),
    ]);
    assert_eq!(combined, [card("As"), card("Kh"), card("2c"), card("3d"), card("4h"), card("5s"), card("6c")]);
}

#[test]
fn deck_deals_from_the_top() {
    let mut deck = Deck::new();
    assert_eq!(deck.peek(), Some(&Card::new(Rank::Ace, Suit::Spades)));
    assert_eq!(deck.deal(), Some(Card::new(Rank::Ace, Suit::Spades)));
    assert_eq!(deck.deal_exact(2), Some(vec![card("Ah"), card("Ad")]));
    // One card is burnt, then three are dealt.
    assert_eq!(deck.deal_flop(), Some([card("Ks"), card("Kh"), card("Kd")]));
    assert_eq!(deck.burn(), Some(card("Kc")));
    assert_eq!(deck.deal_turn(), Some(card("Qh")));
    assert_eq!(deck.deal_river(), Some(card("Qc")));
    assert_eq!(deck.deal_n(100).len(), 40);
    assert!(deck.is_empty());
    assert_eq!(deck.deal_n(3), Vec::<Card>::new());
    assert_eq!(deck.burn_and_deal(0), None);
    let mut small = Deck::from_cards(vec![card("2c"), card("3c"), card("4c"), card("5c")]);
    let hands = small.deal_hole_cards(2).unwrap();
    assert_eq!(hands, vec![[card("5c"), card("3c")], [card("4c"), card("2c")]]);
    assert_eq!(Deck::new().deal_hole_cards(usize::MAX), None);
    let mut reset = Deck::empty();
    reset.reset();
    assert_eq!(reset.remaining(), 52);
}

#[test]
fn board_as_array_needs_five_cards() {
    let flop = Board::with_cards(vec![card("As"), card("Kh"), card("Qd")]).unwrap();
    assert_eq!(flop.as_array(), None);
    let mut river = flop.clone();
    assert!(river.deal_turn(card("2c")));
    assert!(river.deal_river(card("3c")));
    assert_eq!(river.as_array(), Some([card("As"), card("Kh"), card("Qd"), card("2c"), card("3c")]));
    assert_eq!(river.to_string(), "[As Kh Qd 2c 3c]");
    assert!(!river.deal_river(card("4c")));
    assert_eq!(river.len(), 5);
}

#[test]
fn game_deals_from_its_deck_in_order() {
    let mut game = Game::with_deck(2, Deck::new()).unwrap();
    assert!(Game::with_deck(1, Deck::new()).is_none());
    assert!(Game::with_deck(11, Deck::new()).is_none());
    assert!(game.deal_to_river());
    assert_eq!(game.player_hole_cards(0), Some(&[card("As"), card("Ad")]));
    assert_eq!(game.player_hole_cards(1), Some(&[card("Ah"), card("Ac")]));
    assert_eq!(game.board().cards(), &[card("Kh"), card("Kd"), card("Kc"), card("Qh"), card("Qc")]);
    assert_eq!(game.remaining_cards(), 40);
    assert_eq!(game.street(), Street::River);
    assert!(!game.deal_to_river());
    let mut short = Game::with_deck(2, Deck::from_cards(vec![card("2c"); 5])).unwrap();
    assert!(!short.deal_to_river());
    assert_eq!(short.all_hole_cards().len(), 2);
    assert_eq!(short.remaining_cards(), 1);
    assert_eq!(short.street(), Street::Preflop);
}

#[test]
fn positions_for_every_table_size() {
    assert_eq!(Position::for_table_size(0), None);
    assert_eq!(Position::for_table_size(2), Some(vec![Button, BigBlind]));
    assert_eq!(Position::for_table_size(3), Some(vec![Button, SmallBlind, BigBlind]));
    assert_eq!(Position::for_table_size(4), Some(vec![Button, SmallBlind, BigBlind, UTG]));
    assert_eq!(Position::for_table_size(5), Some(vec![Button, SmallBlind, BigBlind, UTG, Cutoff]));
    assert_eq!(Position::for_table_size(7), Some(vec![Button, SmallBlind, BigBlind, UTG, MP, Hijack, Cutoff]));
    assert_eq!(
        Position::for_table_size(9),
        Some(vec![Button, SmallBlind, BigBlind, UTG, UTG1, MP, MP1, Hijack, Cutoff])
    );
    assert_eq!(
        Position::for_table_size(10),
        Some(vec![Button, SmallBlind, BigBlind, UTG, UTG1, UTG2, MP, MP1, Hijack, Cutoff])
    );
    assert_eq!(Position::MP1.to_string(), "MP+1");
}

#[test]
fn betting_round_records_raises() {
    let mut round = BettingRound::new(3, Chips::new(10));
    let p0 = PlayerId::new(0);
    let p1 = PlayerId::new(1);
    let stranger = PlayerId::new(9);
    assert_eq!(round.record_bet(p0, Chips::new(10)), Chips::new(10));
    assert_eq!(round.record_bet(p1, Chips::new(35)), Chips::new(35));
    assert_eq!(round.min_raise(), Chips::new(25));
    assert_eq!(round.min_raise_to(), Chips::new(60));
    assert_eq!(round.amount_to_call(p0), Chips::new(25));
    assert_eq!(round.record_bet(p0, Chips::new(35)), Chips::new(25));
    assert!(round.has_acted(p0));
    assert!(round.has_acted(p1));
    assert_eq!(round.total_contributions(), Chips::new(70));
    assert_eq!(round.player_contribution(stranger), Chips::zero());
    assert!(!round.has_acted(stranger));
    round.record_check(PlayerId::new(2));
    round.record_fold(stranger);
    assert!(round.has_acted(PlayerId::new(2)));
    let later = BettingRound::new_postflop(2, Chips::new(10));
    assert_eq!(later.current_bet(), Chips::zero());
    assert_eq!(later.min_raise(), Chips::new(10));
}

#[test]
fn betting_state_pays_into_the_pot() {
    let mut state = BettingState::new(vec![Chips::new(100), Chips::new(40), Chips::new(500)]);
    state.start_round(Chips::new(10), true);
    let p0 = PlayerId::new(0);
    let p1 = PlayerId::new(1);
    let p2 = PlayerId::new(2);
    state.post_blind(p0, Chips::new(5));
    state.post_blind(p1, Chips::new(10));
    assert_eq!(state.bet_or_raise(p2, Chips::new(60)), Chips::new(60));
    assert_eq!(state.call(p0), Chips::new(55));
    assert_eq!(state.call(p1), Chips::new(30));
    assert!(state.is_all_in(p1));
    assert!(!state.is_active(p1));
    assert_eq!(state.active_count(), 2);
    assert_eq!(state.players_in_hand(), 3);
    assert_eq!(state.total_pot(), Chips::new(160));
    assert_eq!(state.total_invested(p0), Chips::new(60));
    assert_eq!(state.stack(p0), Chips::new(40));
    assert_eq!(state.main_pot().eligible_players(), &[p0, p1]);
    state.check(p2);
    state.fold(p0);
    assert_eq!(state.main_pot().eligible_players(), &[p1]);
    assert!(state.has_folded(p0));
    assert!(state.has_folded(PlayerId::new(7)));
    assert_eq!(state.current_round().unwrap().raise_count(), 1);
    state.end_round();
    assert!(state.current_round().is_none());
    assert!(state.side_pots().is_empty());
    let mut pot = Pot::with_players(Chips::new(7), vec![p0, p1, p0]);
    pot.remove_eligible_player(p0);
    assert_eq!(pot.eligible_players(), &[p1]);
    pot.add_eligible_player(p1);
    assert_eq!(pot.eligible_count(), 1);
    assert_eq!(pot.to_string(), "Pot: 7 (1 eligible)");
    pot.clear();
    assert_eq!(pot, Pot::new());
}

#[test]
fn numbers_as_text() {
    assert_eq!(Chips::new(0).to_string(), "0");
    assert_eq!(Chips::new(u64::MAX).to_string(), "18446744073709551615");
    assert_eq!(HandNumber::new(42).to_string(), "#42");
    assert_eq!(hex_text(0), "0");
    assert_eq!(hex_text(255), "ff");
    assert_eq!(hex_text(0x1234_abcd), "1234abcd");
    assert_eq!(hex_fixed(0xab, 4), "00ab");
    assert_eq!(hex_fixed(0x12345, 4), "2345");
    assert_eq!(hex_fixed(7, 0), "");
    assert_eq!(SimpleUuidGenerator::format(0), "00000000-0000-4000-8000-000000000000");
    assert_eq!(
        SimpleUuidGenerator::format(1),
        format!(
            "00000001-0000-{:04x}-{:04x}-{:012x}",
            ((6_364_136_223_846_793_005u128 >> 48) & 0x0FFF) | 0x4000,
            ((6_364_136_223_846_793_005u128 >> 32) & 0x3FFF) | 0x8000,
            6_364_136_223_846_793_005u128 & 0xFFFF_FFFF_FFFF
        )
    );
}

#[test]
fn snapshot_policy_with_no_interval() {
    let policy = SnapshotPolicy { every_n_events: 0, max_events_since_snapshot: 5 };
    assert!(!policy.should_snapshot(3, 0));
    assert!(policy.should_snapshot(5, 0));
    assert!(!policy.should_snapshot(0, 9));
    let never = SnapshotPolicy { every_n_events: 0, max_events_since_snapshot: 0 };
    assert!(never.should_snapshot(0, 0));
}

#[test]
fn sequential_generator_from_zero_starts_at_one() {
    let generator = SequentialIdGenerator::starting_from(0);
    assert_eq!(generator.generate(), "1");
    assert_eq!(generator.generate(), "2");
}

#[test]
fn sequential_generator_from_one_and_from_the_largest_number() {
    let generator = SequentialIdGenerator::starting_from(1);
    assert_eq!(generator.generate(), "1");
    let generator = SequentialIdGenerator::starting_from(u64::MAX);
    assert_eq!(generator.generate(), "18446744073709551615");
}

#[test]
fn hash_map_is_laid_out_in_the_order_of_its_keys() {
    let mut strengths = std::collections::HashMap::new();
    store(&mut strengths, 30, 3);
    store(&mut strengths, 10, 1);
    store(&mut strengths, 20, 2);
    store(&mut strengths, 10, 7);
    assert_eq!(strengths.len(), 3);
    assert_eq!(strengths.get(&10), Some(&7));
    let table = sorted_by_key(&strengths);
    assert_eq!(table.len(), 3);
    assert_eq!(table.get(10), Some(7));
    assert_eq!(table.get(20), Some(2));
    assert_eq!(table.get(30), Some(3));
    assert_eq!(table.get(15), None);
    assert_eq!(table.get(0), None);
    assert_eq!(table.get(u32::MAX), None);
}

#[test]
fn empty_hash_map_gives_an_empty_table() {
    let strengths = std::collections::HashMap::new();
    let table = sorted_by_key(&strengths);
    assert_eq!(table.len(), 0);
    assert_eq!(table.get(7), None);
    let fresh = StrengthMap::new();
    assert_eq!(fresh.len(), 0);
}
