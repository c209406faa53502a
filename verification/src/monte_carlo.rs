//! Equity by simulation: missing board cards and opponents' hole cards are drawn with a
//! pseudo-random sequence, over and over, and the outcomes are counted.
//!
//! The sequence is a linear congruential generator. It starts from a seed that depends on
//! the hero's hole cards and the number of board cards alone, so that the same question
//! gets the same answer every time.
use vstd::prelude::*;
use std::collections::hash_map::DefaultHasher;
use std::hash::Hasher;
use vstd::bytes::spec_u64_to_le_bytes;
use vstd::bytes::u64_to_le_bytes;
use vstd::std_specs::hash::DefaultHasherAdditionalSpecFns;
use crate::board::Board;
use crate::card::Card;
use crate::deck::full_deck;
use crate::deck::lemma_full_deck;
use crate::deck::lemma_without;
use crate::deck::Deck;
use crate::equity::known_cards;
use crate::equity::unseen_cards;
use crate::equity::valid_deal;
use crate::equity::EquityCalculator;
use crate::equity::EquityResult;
use crate::equity::Tally;
use crate::exhaustive::lemma_distinct_rankable;
use crate::hand_evaluator::HandEvaluator;
use crate::hand_strength::rankable7;
use crate::hand_strength::strength7;
use crate::hole_cards::HoleCards;

verus! {

/// The number of samples that a calculator takes unless it is told otherwise.
pub const DEFAULT_SAMPLES: u32 = 10_000;

/// The next state of the generator: `seed * 6364136223846793005 + 1` in 64 bits.
pub open spec fn lcg_next(seed: u64) -> u64 {
    seed.wrapping_mul(6_364_136_223_846_793_005).wrapping_add(1)
}

/// The position with which the card at position `i` of a deck of `len` cards is swapped:
/// `i` plus the upper 31 bits of the generator's state, reduced to the number of cards
/// from `i` on.
pub open spec fn draw_position(seed: u64, i: int, len: int) -> int {
    i + ((seed >> 33u64) as int) % (len - i)
}

/// A deck with the cards at two positions swapped.
pub open spec fn swapped(deck: Seq<Card>, i: int, j: int) -> Seq<Card> {
    deck.update(i, deck[j]).update(j, deck[i])
}

/// The deck and the generator's state after the first `count` steps of a shuffle: at step
/// `i` the generator is advanced and the card at position `i` is swapped with the card at
/// the position drawn from `i` on.
pub open spec fn shuffled(cards: Seq<Card>, seed: u64, count: nat) -> (Seq<Card>, u64)
    decreases count,
{
    if count == 0 {
        (cards, seed)
    } else {
        let (deck, state) = shuffled(cards, seed, (count - 1) as nat);
        let next = lcg_next(state);
        (swapped(deck, count - 1, draw_position(next, count - 1, cards.len() as int)), next)
    }
}

/// The board of a sample: the cards on the board, then the first cards of the shuffled
/// deck.
pub open spec fn sample_board(board: Seq<Card>, deck: Seq<Card>) -> Seq<Card> {
    board + deck.take(5 - board.len())
}

/// The strength of the `k`-th opponent of a sample, whose hole cards follow the cards that
/// completed the board, two for each opponent.
pub open spec fn opponent_strength(board: Seq<Card>, deck: Seq<Card>, k: int) -> int {
    let at = 5 - board.len() + 2 * k;
    strength7(HoleCards::of(deck[at], deck[at + 1]).with_board(sample_board(board, deck)))
}

/// The count of one sample: a loss if some opponent is stronger than the hero, else a tie
/// if some opponent is as strong, else a win.
pub open spec fn sample_tally(
    hole_cards: HoleCards,
    board: Seq<Card>,
    deck: Seq<Card>,
    opponents: int,
) -> Tally {
    let hero = strength7(hole_cards.with_board(sample_board(board, deck)));
    if exists|k: int| 0 <= k < opponents && #[trigger] opponent_strength(board, deck, k) < hero {
        Tally { wins: 0, ties: 0, losses: 1 }
    } else if exists|k: int|
        0 <= k < opponents && #[trigger] opponent_strength(board, deck, k) == hero {
        Tally { wins: 0, ties: 1, losses: 0 }
    } else {
        Tally { wins: 1, ties: 0, losses: 0 }
    }
}

/// The number of cards that a sample draws: the missing board cards and two for each
/// opponent.
pub open spec fn cards_needed(board: Seq<Card>, opponents: int) -> int {
    5 - board.len() + 2 * opponents
}

/// The counts and the generator's state after `n` samples. Every sample shuffles the deck
/// in its starting order anew; the generator runs on from sample to sample.
pub open spec fn simulation(
    hole_cards: HoleCards,
    board: Seq<Card>,
    cards: Seq<Card>,
    opponents: int,
    seed: u64,
    n: nat,
) -> (Tally, u64)
    decreases n,
{
    if n == 0 {
        (Tally::zero(), seed)
    } else {
        let (tally, state) = simulation(hole_cards, board, cards, opponents, seed, (n - 1) as nat);
        let (deck, next) = shuffled(cards, state, cards_needed(board, opponents) as nat);
        (tally.plus(sample_tally(hole_cards, board, deck, opponents)), next)
    }
}

/// The counts of a simulation of `samples` samples from the given seed; no sample counted
/// where the deck holds fewer cards than a sample needs.
pub open spec fn simulated_tally(
    hole_cards: HoleCards,
    board: Seq<Card>,
    opponents: int,
    samples: nat,
    seed: u64,
) -> Tally {
    let cards = unseen_cards(hole_cards, board);
    if cards.len() < cards_needed(board, opponents) {
        Tally::zero()
    } else {
        simulation(hole_cards, board, cards, opponents, seed, samples).0
    }
}

/// A deck for sampling: valid cards, no card twice, none of them known.
pub open spec fn deck_ok(hole_cards: HoleCards, board: Seq<Card>, deck: Seq<Card>) -> bool {
    &&& deck.no_duplicates()
    &&& forall|i: int| 0 <= i < deck.len() ==> (#[trigger] deck[i]).wf()
    &&& forall|i: int| 0 <= i < deck.len() ==> !known_cards(hole_cards, board).contains(#[trigger] deck[i])
}

/// Swapping two cards of a deck for sampling leaves a deck for sampling.
pub proof fn lemma_swapped_ok(hole_cards: HoleCards, board: Seq<Card>, deck: Seq<Card>, i: int, j: int)
    requires
        deck_ok(hole_cards, board, deck),
        0 <= i < deck.len(),
        0 <= j < deck.len(),
    ensures
        deck_ok(hole_cards, board, swapped(deck, i, j)),
        swapped(deck, i, j).len() == deck.len(),
{
    let s = swapped(deck, i, j);
    assert forall|a: int, b: int| 0 <= a < b < s.len() implies s[a] != s[b] by {
        let pa = if a == i {
            j
        } else if a == j {
            i
        } else {
            a
        };
        let pb = if b == i {
            j
        } else if b == j {
            i
        } else {
            b
        };
        assert(s[a] == deck[pa] && s[b] == deck[pb]);
    }
    assert forall|a: int| 0 <= a < s.len() implies (#[trigger] s[a]).wf() && !known_cards(
        hole_cards,
        board,
    ).contains(s[a]) by {
        let pa = if a == i {
            j
        } else if a == j {
            i
        } else {
            a
        };
        assert(s[a] == deck[pa]);
    }
}

/// The upper 31 bits of the generator's state fit 31 bits.
proof fn lemma_upper_bits(seed: u64)
    by (bit_vector)
    ensures
        (seed >> 33u64) <= 0x7FFF_FFFFu64,
{
}

/// The hands of a sample can be ranked.
pub proof fn lemma_sample_hands(hole_cards: HoleCards, board: Seq<Card>, deck: Seq<Card>, k: int)
    requires
        valid_deal(hole_cards, board),
        deck_ok(hole_cards, board, deck),
        0 <= k,
        5 - board.len() + 2 * k + 2 <= deck.len(),
    ensures
        rankable7(hole_cards.with_board(sample_board(board, deck))),
        rankable7(
            HoleCards::of(
                deck[5 - board.len() + 2 * k],
                deck[5 - board.len() + 2 * k + 1],
            ).with_board(sample_board(board, deck)),
        ),
{
    let known = known_cards(hole_cards, board);
    let full = sample_board(board, deck);
    let to_deal = 5 - board.len();
    assert(full.len() == 5);
    assert forall|b: int| 0 <= b < 5 implies (#[trigger] full[b]).wf() && (b < board.len()
        ==> full[b] == known[b + 2]) && (b >= board.len() ==> full[b] == deck[b - board.len()]) by {
        if b < board.len() {
            assert(full[b] == board[b]);
            assert(known[b + 2] == board[b]);
        } else {
            assert(full[b] == deck[b - board.len()]);
        }
    }
    assert(known[0] == hole_cards.first_value() && known[1] == hole_cards.second_value());
    let hero = hole_cards.with_board(full);
    assert forall|x: int, y: int| 0 <= x < y < 7 implies hero[x] != hero[y] by {
        // Every card of the hand is a known card or a card of the deck, each at a place of
        // its own.
        if y < 2 {
        } else if y - 2 < board.len() {
            assert(hero[y] == known[y]);
            if x < 2 {
                assert(hero[x] == known[x]);
            } else {
                assert(hero[x] == known[x]);
            }
        } else {
            assert(hero[y] == deck[y - 2 - board.len()]);
            if x < 2 {
                assert(hero[x] == known[x]);
                assert(known.contains(known[x]));
            } else if x - 2 < board.len() {
                assert(hero[x] == known[x]);
                assert(known.contains(known[x]));
            } else {
                assert(hero[x] == deck[x - 2 - board.len()]);
            }
        }
    }
    assert forall|x: int| 0 <= x < 7 implies (#[trigger] hero[x]).wf() by {
        if x < 2 {
            assert(hero[x] == known[x]);
        } else {
            assert(hero[x] == full[x - 2]);
        }
    }
    lemma_distinct_rankable(hero);
    let at = to_deal + 2 * k;
    HoleCards::lemma_of(deck[at], deck[at + 1]);
    let opp = HoleCards::of(deck[at], deck[at + 1]).with_board(full);
    assert(opp[0] == deck[at] && opp[1] == deck[at + 1]);
    assert forall|x: int, y: int| 0 <= x < y < 7 implies opp[x] != opp[y] by {
        if y < 2 {
        } else if y - 2 < board.len() {
            assert(opp[y] == known[y]);
            assert(known.contains(known[y]));
            if x >= 2 {
                assert(opp[x] == known[x]);
            }
        } else {
            assert(opp[y] == deck[y - 2 - board.len()]);
            if x >= 2 && x - 2 < board.len() {
                assert(opp[x] == known[x]);
                assert(known.contains(known[x]));
            } else if x >= 2 {
                assert(opp[x] == deck[x - 2 - board.len()]);
            }
        }
    }
    assert forall|x: int| 0 <= x < 7 implies (#[trigger] opp[x]).wf() by {
        if x >= 2 {
            assert(opp[x] == full[x - 2]);
        }
    }
    lemma_distinct_rankable(opp);
}

/// The seed of the simulation for hole cards at the given positions of the deck and a board
/// of the given length: the hash of the three numbers, each written as eight bytes with the
/// lowest first.
pub open spec fn seed_of(first_index: usize, second_index: usize, board_len: usize) -> u64 {
    DefaultHasher::spec_finish(
        seq![
            spec_u64_to_le_bytes(first_index as u64),
            spec_u64_to_le_bytes(second_index as u64),
            spec_u64_to_le_bytes(board_len as u64),
        ],
    )
}

/// The seed of the simulation for a deal.
pub open spec fn deal_seed(hole_cards: HoleCards, board: Seq<Card>) -> u64 {
    seed_of(
        hole_cards.first_value().deck_index() as usize,
        hole_cards.second_value().deck_index() as usize,
        board.len() as usize,
    )
}

/// The seed of a simulation: a hash of the positions of the hero's hole cards in the deck
/// and of the number of board cards.
pub fn seed_for(first_index: usize, second_index: usize, board_len: usize) -> (seed: u64)
    ensures
        seed == seed_of(first_index, second_index, board_len),
{
    let mut hasher = DefaultHasher::new();
    let first = u64_to_le_bytes(first_index as u64);
    hasher.write(first.as_slice());
    let second = u64_to_le_bytes(second_index as u64);
    hasher.write(second.as_slice());
    let third = u64_to_le_bytes(board_len as u64);
    hasher.write(third.as_slice());
    proof {
        assert(hasher@ =~= seq![
            spec_u64_to_le_bytes(first_index as u64),
            spec_u64_to_le_bytes(second_index as u64),
            spec_u64_to_le_bytes(board_len as u64),
        ]);
    }
    hasher.finish()
}

/// An equity calculator that samples deals.
pub struct MonteCarloEquityCalculator<E: HandEvaluator> {
    evaluator: E,
    default_samples: u32,
}

impl<E: HandEvaluator> MonteCarloEquityCalculator<E> {
    /// The number of samples that `calculate` takes.
    pub closed spec fn samples_value(self) -> u32 {
        self.default_samples
    }

    /// The evaluator of the calculator.
    pub closed spec fn evaluator_value(self) -> E {
        self.evaluator
    }

    /// A calculator that ranks hands with the given evaluator and takes 10,000 samples.
    pub fn new(evaluator: E) -> (r: Self)
        ensures
            r.samples_value() == DEFAULT_SAMPLES,
            r.evaluator_value() == evaluator,
    {
        MonteCarloEquityCalculator { evaluator, default_samples: DEFAULT_SAMPLES }
    }

    /// A calculator that ranks hands with the given evaluator and takes the given number of
    /// samples.
    pub fn with_samples(evaluator: E, default_samples: u32) -> (r: Self)
        ensures
            r.samples_value() == default_samples,
            r.evaluator_value() == evaluator,
    {
        MonteCarloEquityCalculator { evaluator, default_samples }
    }

    /// The evaluator of the calculator.
    pub fn evaluator(&self) -> (r: &E)
        ensures
            *r == self.evaluator_value(),
    {
        &self.evaluator
    }

    /// The number of samples that `calculate` takes.
    pub fn default_samples(&self) -> (r: u32)
        ensures
            r == self.samples_value(),
    {
        self.default_samples
    }

    /// The deck without the hero's hole cards and the cards on the board.
    pub fn remaining_deck(hole_cards: HoleCards, board: &Board) -> (r: Deck)
        ensures
            r@ == unseen_cards(hole_cards, board@),
    {
        let mut dead_cards: Vec<Card> = Vec::new();
        dead_cards.push(hole_cards.first());
        dead_cards.push(hole_cards.second());
        let on_board = board.cards();
        let mut i: usize = 0;
        while i < on_board.len()
            invariant
                i <= on_board@.len(),
                on_board@ == board@,
                dead_cards@ == seq![hole_cards.first_value(), hole_cards.second_value()]
                    + board@.take(i as int),
            decreases on_board@.len() - i,
        {
            dead_cards.push(on_board[i]);
            i = i + 1;
            assert(dead_cards@ =~= seq![hole_cards.first_value(), hole_cards.second_value()]
                + board@.take(i as int));
        }
        assert(board@.take(i as int) =~= board@);
        Deck::excluding(dead_cards.as_slice())
    }

    /// Shuffles the first `count` positions of the deck: at each position the generator is
    /// advanced and the card is swapped with one drawn from that position on.
    fn partial_shuffle(deck: &mut Vec<Card>, seed: u64, count: usize) -> (next: u64)
        requires
            count <= old(deck)@.len(),
        ensures
            (final(deck)@, next) == shuffled(old(deck)@, seed, count as nat),
            final(deck)@.len() == old(deck)@.len(),
    {
        let mut state = seed;
        let mut i: usize = 0;
        let length = deck.len();
        while i < count
            invariant
                i <= count <= length,
                length == old(deck)@.len(),
                deck@.len() == length,
                (deck@, state) == shuffled(old(deck)@, seed, i as nat),
            decreases count - i,
        {
            state = state.wrapping_mul(6_364_136_223_846_793_005).wrapping_add(1);
            proof {
                lemma_upper_bits(state);
            }
            let upper: usize = (state >> 33) as usize;
            let j = i + upper % (length - i);
            let first = deck[i];
            let second = deck[j];
            deck.set(i, second);
            deck.set(j, first);
            i = i + 1;
            assert(deck@ =~= shuffled(old(deck)@, seed, i as nat).0);
        }
        state
    }

    /// Counts one sample on a shuffled deck.
    fn play_sample(
        &self,
        hole_cards: HoleCards,
        board_cards: &[Card],
        deck: &Vec<Card>,
        num_opponents: usize,
        cards_to_deal: usize,
    ) -> (r: (bool, bool))
        requires
            valid_deal(hole_cards, board_cards@),
            deck_ok(hole_cards, board_cards@, deck@),
            cards_to_deal == 5 - board_cards@.len(),
            num_opponents <= 52,
            cards_to_deal + 2 * num_opponents <= deck@.len(),
        ensures
            sample_tally(hole_cards, board_cards@, deck@, num_opponents as int) == if !r.0 {
                Tally { wins: 0, ties: 0, losses: 1 }
            } else if r.1 {
                Tally { wins: 0, ties: 1, losses: 0 }
            } else {
                Tally { wins: 1, ties: 0, losses: 0 }
            },
    {
        let mut completed: Vec<Card> = Vec::new();
        let mut b: usize = 0;
        while b < board_cards.len()
            invariant
                b <= board_cards@.len() <= 5,
                completed@ == board_cards@.take(b as int),
            decreases board_cards@.len() - b,
        {
            completed.push(board_cards[b]);
            b = b + 1;
            assert(completed@ =~= board_cards@.take(b as int));
        }
        let mut d: usize = 0;
        while d < cards_to_deal
            invariant
                d <= cards_to_deal,
                cards_to_deal == 5 - board_cards@.len(),
                cards_to_deal <= deck@.len(),
                completed@ == board_cards@ + deck@.take(d as int),
            decreases cards_to_deal - d,
        {
            completed.push(deck[d]);
            d = d + 1;
            assert(completed@ =~= board_cards@ + deck@.take(d as int));
        }
        let full_board = [completed[0], completed[1], completed[2], completed[3], completed[4]];
        assert(full_board@ =~= sample_board(board_cards@, deck@));
        proof {
            if num_opponents > 0 {
                lemma_sample_hands(hole_cards, board_cards@, deck@, 0);
            } else {
                lemma_hero_only(hole_cards, board_cards@, deck@);
            }
        }
        let hero_strength = self.evaluator.evaluate_7cards_fast(
            &hole_cards.combine_with_board(full_board),
        );
        let mut hero_wins = true;
        let mut any_tie = false;
        let mut opp: usize = 0;
        while opp < num_opponents && hero_wins
            invariant
                opp <= num_opponents <= 52,
                valid_deal(hole_cards, board_cards@),
                deck_ok(hole_cards, board_cards@, deck@),
                cards_to_deal == 5 - board_cards@.len(),
                cards_to_deal + 2 * num_opponents <= deck@.len(),
                full_board@ == sample_board(board_cards@, deck@),
                hero_strength == strength7(hole_cards.with_board(sample_board(board_cards@, deck@))),
                hero_wins ==> forall|k: int|
                    0 <= k < opp ==> !(#[trigger] opponent_strength(board_cards@, deck@, k)
                        < hero_strength),
                !hero_wins ==> exists|k: int|
                    0 <= k < num_opponents && #[trigger] opponent_strength(board_cards@, deck@, k)
                        < hero_strength,
                any_tie == exists|k: int|
                    0 <= k < opp && #[trigger] opponent_strength(board_cards@, deck@, k)
                        == hero_strength,
            decreases (num_opponents - opp) + if hero_wins {
                1int
            } else {
                0int
            },
        {
            let at = cards_to_deal + opp * 2;
            proof {
                lemma_sample_hands(hole_cards, board_cards@, deck@, opp as int);
            }
            let opp_hole = HoleCards::new(deck[at], deck[at + 1]);
            let opp_strength = self.evaluator.evaluate_7cards_fast(
                &opp_hole.combine_with_board(full_board),
            );
            assert(opp_strength == opponent_strength(board_cards@, deck@, opp as int));
            if opp_strength < hero_strength {
                hero_wins = false;
            } else {
                if opp_strength == hero_strength {
                    any_tie = true;
                }
                opp = opp + 1;
            }
        }
        (hero_wins, any_tie)
    }

    /// Runs a simulation from the given seed: for each sample the deck is shuffled as far
    /// as cards are needed, the board is completed with its first cards and each opponent
    /// gets the next two. Returns the counts; no sample is counted where the deck holds
    /// fewer cards than a sample needs.
    pub fn simulate(
        &self,
        hole_cards: HoleCards,
        board_cards: &[Card],
        remaining: &Deck,
        num_opponents: usize,
        cards_to_deal: usize,
        iterations: u32,
        seed: u64,
    ) -> (r: EquityResult)
        requires
            valid_deal(hole_cards, board_cards@),
            remaining@ == unseen_cards(hole_cards, board_cards@),
            cards_to_deal == 5 - board_cards@.len(),
        ensures
            r.wf(),
            r.opponents_value() == num_opponents,
            r.tally() == simulated_tally(
                hole_cards,
                board_cards@,
                num_opponents as int,
                iterations as nat,
                seed,
            ),
            r.samples_value() == 0 || r.samples_value() == iterations,
    {
        let cards = remaining.cards();
        proof {
            lemma_full_deck();
            lemma_without(full_deck(), known_cards(hole_cards, board_cards@));
            assert forall|x: int| 0 <= x < cards@.len() implies (#[trigger] cards@[x]).wf()
                && !known_cards(hole_cards, board_cards@).contains(cards@[x]) by {
                assert(cards@.contains(cards@[x]));
                assert(full_deck().contains(cards@[x]));
                let p = choose|p: int| 0 <= p < 52 && full_deck()[p] == cards@[x];
                assert(full_deck()[p].wf());
            }
        }
        if num_opponents > 52 {
            return EquityResult::from_counts(0, 0, 0, num_opponents);
        }
        let total_cards_needed = cards_to_deal + num_opponents * 2;
        if cards.len() < total_cards_needed {
            return EquityResult::from_counts(0, 0, 0, num_opponents);
        }
        let mut wins: u64 = 0;
        let mut ties: u64 = 0;
        let mut losses: u64 = 0;
        let mut state = seed;
        let mut n: u32 = 0;
        while n < iterations
            invariant
                n <= iterations,
                valid_deal(hole_cards, board_cards@),
                deck_ok(hole_cards, board_cards@, cards@),
                cards@ == unseen_cards(hole_cards, board_cards@),
                cards_to_deal == 5 - board_cards@.len(),
                num_opponents <= 52,
                total_cards_needed == cards_to_deal + 2 * num_opponents,
                total_cards_needed <= cards@.len(),
                wins + ties + losses == n,
                (Tally { wins: wins as int, ties: ties as int, losses: losses as int }, state)
                    == simulation(
                    hole_cards,
                    board_cards@,
                    cards@,
                    num_opponents as int,
                    seed,
                    n as nat,
                ),
            decreases iterations - n,
        {
            let mut deck: Vec<Card> = Vec::new();
            let mut c: usize = 0;
            while c < cards.len()
                invariant
                    c <= cards@.len(),
                    deck@ == cards@.take(c as int),
                decreases cards@.len() - c,
            {
                deck.push(cards[c]);
                c = c + 1;
                assert(deck@ =~= cards@.take(c as int));
            }
            assert(deck@ =~= cards@);
            let ghost state_before = state;
            state = Self::partial_shuffle(&mut deck, state, total_cards_needed);
            proof {
                lemma_shuffled_ok(
                    hole_cards,
                    board_cards@,
                    cards@,
                    state_before,
                    total_cards_needed as nat,
                );
            }
            let outcome = self.play_sample(hole_cards, board_cards, &deck, num_opponents, cards_to_deal);
            if !outcome.0 {
                losses = losses + 1;
            } else if outcome.1 {
                ties = ties + 1;
            } else {
                wins = wins + 1;
            }
            n = n + 1;
        }
        EquityResult::from_counts(wins, ties, losses, num_opponents)
    }
}

/// A shuffle of a deck for sampling gives a deck for sampling with as many cards.
pub proof fn lemma_shuffled_ok(
    hole_cards: HoleCards,
    board: Seq<Card>,
    cards: Seq<Card>,
    seed: u64,
    count: nat,
)
    requires
        deck_ok(hole_cards, board, cards),
        count <= cards.len(),
    ensures
        deck_ok(hole_cards, board, shuffled(cards, seed, count).0),
        shuffled(cards, seed, count).0.len() == cards.len(),
    decreases count,
{
    if count > 0 {
        lemma_shuffled_ok(hole_cards, board, cards, seed, (count - 1) as nat);
        let (deck, state) = shuffled(cards, seed, (count - 1) as nat);
        let next = lcg_next(state);
        lemma_upper_bits(next);
        let j = draw_position(next, count - 1, cards.len() as int);
        assert(count - 1 <= j < cards.len());
        lemma_swapped_ok(hole_cards, board, deck, count - 1, j);
    }
}

/// The hero's cards on the board of a sample can be ranked.
pub proof fn lemma_hero_only(hole_cards: HoleCards, board: Seq<Card>, deck: Seq<Card>)
    requires
        valid_deal(hole_cards, board),
        deck_ok(hole_cards, board, deck),
        5 - board.len() <= deck.len(),
    ensures
        rankable7(hole_cards.with_board(sample_board(board, deck))),
{
    let known = known_cards(hole_cards, board);
    let full = sample_board(board, deck);
    assert(known[0] == hole_cards.first_value() && known[1] == hole_cards.second_value());
    let hero = hole_cards.with_board(full);
    assert forall|x: int| 0 <= x < 7 implies (#[trigger] hero[x]).wf() && (x < 2 + board.len()
        ==> hero[x] == known[x]) && (x >= 2 + board.len() ==> hero[x] == deck[x - 2
        - board.len()]) by {
        if x >= 2 {
            assert(hero[x] == full[x - 2]);
            if x - 2 < board.len() {
                assert(full[x - 2] == board[x - 2]);
                assert(known[x] == board[x - 2]);
                assert(known_cards(hole_cards, board)[x].wf());
            } else {
                assert(full[x - 2] == deck[x - 2 - board.len()]);
                assert(deck[x - 2 - board.len()].wf());
            }
        } else {
            assert(hero[x] == known[x]);
            assert(known_cards(hole_cards, board)[x].wf());
        }
    }
    assert forall|x: int, y: int| 0 <= x < y < 7 implies hero[x] != hero[y] by {
        if y >= 2 + board.len() && x < 2 + board.len() {
            assert(known.contains(known[x]));
            assert(hero[y] == deck[y - 2 - board.len()]);
        }
    }
    lemma_distinct_rankable(hero);
}

impl<E: HandEvaluator> MonteCarloEquityCalculator<E> {
    /// Simulates the given number of samples from the seed that belongs to the hero's hole
    /// cards and the number of board cards.
    pub fn sample(&self, hole_cards: &HoleCards, board: &Board, num_opponents: usize, samples: u32) -> (r:
        EquityResult)
        requires
            valid_deal(*hole_cards, board@),
        ensures
            r.wf(),
            r.opponents_value() == num_opponents,
            r.tally() == simulated_tally(
                *hole_cards,
                board@,
                num_opponents as int,
                samples as nat,
                deal_seed(*hole_cards, board@),
            ),
            r.samples_value() == 0 || r.samples_value() == samples,
    {
        let remaining = Self::remaining_deck(*hole_cards, board);
        let cards_to_deal = 5 - board.len();
        let seed = seed_for(hole_cards.first().index(), hole_cards.second().index(), board.len());
        let result = self.simulate(
            *hole_cards,
            board.cards(),
            &remaining,
            num_opponents,
            cards_to_deal,
            samples,
            seed,
        );
        result
    }
}

impl<E: HandEvaluator> EquityCalculator for MonteCarloEquityCalculator<E> {
    fn calculate(&self, hole_cards: &HoleCards, board: &Board, num_opponents: usize) -> (r:
        EquityResult)
        ensures
            r.tally() == simulated_tally(
                *hole_cards,
                board@,
                num_opponents as int,
                self.samples_value() as nat,
                deal_seed(*hole_cards, board@),
            ),
            r.samples_value() == 0 || r.samples_value() == self.samples_value(),
    {
        self.sample(hole_cards, board, num_opponents, self.default_samples)
    }

    fn calculate_sampled(
        &self,
        hole_cards: &HoleCards,
        board: &Board,
        num_opponents: usize,
        samples: u32,
    ) -> (r: EquityResult)
        ensures
            r.tally() == simulated_tally(
                *hole_cards,
                board@,
                num_opponents as int,
                samples as nat,
                deal_seed(*hole_cards, board@),
            ),
            r.samples_value() == 0 || r.samples_value() == samples,
    {
        self.sample(hole_cards, board, num_opponents, samples)
    }
}

} // verus!
