//! Hand evaluation with lookup tables.
//!
//! A flush is looked up by the pattern of its ranks; any other hand by the product of the
//! primes of its ranks.
use vstd::prelude::*;
use crate::card::Card;
use crate::combinatorics::FIVE_FROM_SEVEN;
use crate::hand::Hand;
use crate::hand_classes::strict5;
use crate::hand_evaluator::HandEvaluator;
use crate::hand_rank_tables::flush_entry;
use crate::hand_rank_tables::is_five_mask;
use crate::hand_rank_tables::lemma_flush_entry;
use crate::hand_rank_tables::lemma_unique_entry;
use crate::hand_rank_tables::mask5;
use crate::hand_rank_tables::unique_entry;
use crate::hand_rank_tables::HandRankTables;
use crate::hand_strength::best_choice;
use crate::hand_strength::best_of;
use crate::hand_strength::choice;
use crate::hand_strength::is_flush;
use crate::hand_strength::lemma_best_of;
use crate::hand_strength::lemma_sort5;
use crate::hand_strength::lemma_sort5_keeps;
use crate::hand_strength::lemma_strength5_range;
use crate::hand_strength::rankable5;
use crate::hand_strength::rankable7;
use crate::hand_strength::sort5;
use crate::hand_strength::strength5;
use crate::rank_keys::key5;
use crate::rank_keys::lemma_key_swaps;
use crate::rank_keys::product5;

verus! {

/// Five suit masks have a bit in common exactly if they are masks of one suit.
proof fn lemma_common_suit(
    r0: u32,
    r1: u32,
    r2: u32,
    r3: u32,
    r4: u32,
    s0: u32,
    s1: u32,
    s2: u32,
    s3: u32,
    s4: u32,
)
    by (bit_vector)
    requires
        s0 < 4 && s1 < 4 && s2 < 4 && s3 < 4 && s4 < 4,
        r0 & 0xF000 == 1u32 << (s0 + 12),
        r1 & 0xF000 == 1u32 << (s1 + 12),
        r2 & 0xF000 == 1u32 << (s2 + 12),
        r3 & 0xF000 == 1u32 << (s3 + 12),
        r4 & 0xF000 == 1u32 << (s4 + 12),
    ensures
        (r0 & r1 & r2 & r3 & r4 & 0xF000) != 0 <==> (s0 == s1 && s0 == s2 && s0 == s3 && s0 == s4),
{
}

/// The pattern of five ranks does not depend on their order, and it is below 8192.
proof fn lemma_mask_order(a: u32, b: u32, c: u32, d: u32, e: u32)
    by (bit_vector)
    requires
        a < 13 && b < 13 && c < 13 && d < 13 && e < 13,
    ensures
        ((1u32 << a) | (1u32 << b) | (1u32 << c) | (1u32 << d) | (1u32 << e)) < 8192,
        ((1u32 << a) | (1u32 << b) | (1u32 << c) | (1u32 << d) | (1u32 << e)) == ((1u32 << b) | (
        1u32 << a) | (1u32 << c) | (1u32 << d) | (1u32 << e)),
        ((1u32 << a) | (1u32 << b) | (1u32 << c) | (1u32 << d) | (1u32 << e)) == ((1u32 << a) | (
        1u32 << c) | (1u32 << b) | (1u32 << d) | (1u32 << e)),
        ((1u32 << a) | (1u32 << b) | (1u32 << c) | (1u32 << d) | (1u32 << e)) == ((1u32 << a) | (
        1u32 << b) | (1u32 << d) | (1u32 << c) | (1u32 << e)),
        ((1u32 << a) | (1u32 << b) | (1u32 << c) | (1u32 << d) | (1u32 << e)) == ((1u32 << a) | (
        1u32 << b) | (1u32 << c) | (1u32 << e) | (1u32 << d)),
{
}

/// The pattern of five ranks of which two are the same is not the pattern of five different
/// ranks.
proof fn lemma_mask_repeats(
    a: u32,
    b: u32,
    c: u32,
    d: u32,
    e: u32,
    a2: u32,
    b2: u32,
    c2: u32,
    d2: u32,
    e2: u32,
)
    by (bit_vector)
    requires
        a < 13,
        a >= b,
        b >= c,
        c >= d,
        d >= e,
        a == b || b == c || c == d || d == e,
        a2 < 13,
        a2 > b2,
        b2 > c2,
        c2 > d2,
        d2 > e2,
    ensures
        ((1u32 << a) | (1u32 << b) | (1u32 << c) | (1u32 << d) | (1u32 << e)) != ((1u32 << a2) | (
        1u32 << b2) | (1u32 << c2) | (1u32 << d2) | (1u32 << e2)),
{
}

/// The pattern of five ranks, restricted to rank indexes so that it is the same in every
/// order.
spec fn ranks_mask(a: int, b: int, c: int, d: int, e: int) -> u32 {
    if 0 <= a < 13 && 0 <= b < 13 && 0 <= c < 13 && 0 <= d < 13 && 0 <= e < 13 {
        mask5(a, b, c, d, e)
    } else {
        0
    }
}

/// The pattern and the key of five ranks are those of the five ranks sorted.
proof fn lemma_sorted_lookup(a: int, b: int, c: int, d: int, e: int)
    requires
        0 <= a < 13 && 0 <= b < 13 && 0 <= c < 13 && 0 <= d < 13 && 0 <= e < 13,
    ensures
        ({
            let (s0, s1, s2, s3, s4) = sort5(a, b, c, d, e);
            &&& mask5(a, b, c, d, e) == mask5(s0, s1, s2, s3, s4)
            &&& mask5(a, b, c, d, e) < 8192
            &&& key5(a, b, c, d, e) == key5(s0, s1, s2, s3, s4)
            &&& 0 <= s4 <= s3 <= s2 <= s1 <= s0 < 13
        }),
{
    lemma_sort5(a, b, c, d, e);
    let (s0, s1, s2, s3, s4) = sort5(a, b, c, d, e);
    assert forall|a: int, b: int, c: int, d: int, e: int|
        #![trigger ranks_mask(a, b, c, d, e)]
        ranks_mask(a, b, c, d, e) == ranks_mask(b, a, c, d, e) && ranks_mask(a, b, c, d, e)
            == ranks_mask(a, c, b, d, e) && ranks_mask(a, b, c, d, e) == ranks_mask(a, b, d, c, e)
            && ranks_mask(a, b, c, d, e) == ranks_mask(a, b, c, e, d) by {
        if 0 <= a < 13 && 0 <= b < 13 && 0 <= c < 13 && 0 <= d < 13 && 0 <= e < 13 {
            lemma_mask_order(a as u32, b as u32, c as u32, d as u32, e as u32);
        }
    }
    lemma_sort5_keeps(|a: int, b: int, c: int, d: int, e: int| ranks_mask(a, b, c, d, e), a, b, c, d, e);
    lemma_mask_order(a as u32, b as u32, c as u32, d as u32, e as u32);
    assert forall|a: int, b: int, c: int, d: int, e: int|
        #![trigger key5(a, b, c, d, e)]
        key5(a, b, c, d, e) == key5(b, a, c, d, e) && key5(a, b, c, d, e) == key5(a, c, b, d, e)
            && key5(a, b, c, d, e) == key5(a, b, d, c, e) && key5(a, b, c, d, e) == key5(
            a,
            b,
            c,
            e,
            d,
        ) by {
        lemma_key_swaps(a, b, c, d, e);
    }
    lemma_sort5_keeps(|a: int, b: int, c: int, d: int, e: int| key5(a, b, c, d, e), a, b, c, d, e);
}

/// What the tables hold for five cards is the strength of the five cards.
proof fn lemma_lookup_is_strength(cards: Seq<Card>)
    requires
        rankable5(cards),
    ensures
        ({
            let r0 = cards[0].rank_index() as int;
            let r1 = cards[1].rank_index() as int;
            let r2 = cards[2].rank_index() as int;
            let r3 = cards[3].rank_index() as int;
            let r4 = cards[4].rank_index() as int;
            &&& mask5(r0, r1, r2, r3, r4) < 8192
            &&& is_flush(cards) ==> flush_entry(mask5(r0, r1, r2, r3, r4) as int) == strength5(cards)
            &&& !is_flush(cards) ==> unique_entry(key5(r0, r1, r2, r3, r4)) == Some(strength5(cards))
        }),
{
    reveal(strength5);
    let r0 = cards[0].rank_index() as int;
    let r1 = cards[1].rank_index() as int;
    let r2 = cards[2].rank_index() as int;
    let r3 = cards[3].rank_index() as int;
    let r4 = cards[4].rank_index() as int;
    cards[0].lemma_wf_fields();
    cards[1].lemma_wf_fields();
    cards[2].lemma_wf_fields();
    cards[3].lemma_wf_fields();
    cards[4].lemma_wf_fields();
    lemma_sorted_lookup(r0, r1, r2, r3, r4);
    lemma_sort5(r0, r1, r2, r3, r4);
    let (a, b, c, d, e) = sort5(r0, r1, r2, r3, r4);
    if is_flush(cards) {
        if a > b > c > d > e {
            lemma_flush_entry(a, b, c, d, e);
        } else {
            let index = mask5(a, b, c, d, e) as int;
            if is_five_mask(index) {
                let (a2, b2, c2, d2, e2) = choose|a2: int, b2: int, c2: int, d2: int, e2: int|
                    strict5(a2, b2, c2, d2, e2) && #[trigger] mask5(a2, b2, c2, d2, e2) == index;
                lemma_mask_repeats(
                    a as u32,
                    b as u32,
                    c as u32,
                    d as u32,
                    e as u32,
                    a2 as u32,
                    b2 as u32,
                    c2 as u32,
                    d2 as u32,
                    e2 as u32,
                );
            }
        }
    } else {
        lemma_unique_entry(a, b, c, d, e);
    }
}

/// A hand evaluator that looks strengths up in precomputed tables.
pub struct CactusKevEvaluator {
    tables: HandRankTables,
}

impl CactusKevEvaluator {
    /// The tables of the evaluator.
    pub closed spec fn tables_value(self) -> HandRankTables {
        self.tables
    }

    /// An evaluator with freshly built tables, which are complete.
    pub fn new() -> (r: CactusKevEvaluator)
        ensures
            r.tables_value().is_complete(),
    {
        CactusKevEvaluator { tables: HandRankTables::new() }
    }

    /// An evaluator that uses the given tables.
    pub fn with_tables(tables: HandRankTables) -> (r: CactusKevEvaluator)
        ensures
            r.tables_value() == tables,
    {
        CactusKevEvaluator { tables }
    }

    /// The tables of the evaluator.
    pub fn tables(&self) -> (r: &HandRankTables)
        ensures
            *r == self.tables_value(),
    {
        &self.tables
    }
}

impl Default for CactusKevEvaluator {
    fn default() -> (r: CactusKevEvaluator) {
        CactusKevEvaluator::new()
    }
}

/// The five of seven cards at the positions of the `i`-th choice.
fn choose_five(cards: &[Card; 7], i: usize) -> (r: [Card; 5])
    requires
        i < 21,
    ensures
        r@ == choice(cards@, i as int),
{
    let combo = FIVE_FROM_SEVEN[i];
    assert(combo[0] < 7 && combo[1] < 7 && combo[2] < 7 && combo[3] < 7 && combo[4] < 7);
    let hand = [cards[combo[0]], cards[combo[1]], cards[combo[2]], cards[combo[3]], cards[combo[4]]];
    assert(hand@ =~= choice(cards@, i as int));
    hand
}

impl HandEvaluator for CactusKevEvaluator {
    fn evaluate_5cards(&self, cards: [Card; 5]) -> (r: Hand) {
        let strength = self.evaluate_5cards_fast(&cards);
        Hand::new(cards, strength)
    }

    fn evaluate_7cards(&self, cards: [Card; 7]) -> (r: Hand) {
        let mut best_rank: u16 = u16::MAX;
        let mut best_cards = [cards[0], cards[1], cards[2], cards[3], cards[4]];
        let mut i: usize = 0;
        proof {
            lemma_best_of(cards@, 21);
        }
        while i < 21
            invariant
                i <= 21,
                rankable7(cards@),
                best_rank == best_of(cards@, i as int),
                i > 0 ==> best_cards@ == choice(cards@, best_choice(cards@, i as int)),
                forall|j: int| 0 <= j < i ==> strength5(#[trigger] choice(cards@, j)) != 1,
                1 <= best_of(cards@, 21) <= 7462,
                forall|j: int| 0 <= j < 21 ==> best_of(cards@, 21) <= strength5(#[trigger] choice(cards@, j)),
                forall|j: int|
                    0 <= j < best_choice(cards@, 21) ==> best_of(cards@, 21) < strength5(
                        #[trigger] choice(cards@, j),
                    ),
                0 <= best_choice(cards@, 21) < 21,
                best_of(cards@, 21) == strength5(choice(cards@, best_choice(cards@, 21))),
            decreases 21 - i,
        {
            let hand_cards = choose_five(&cards, i);
            let rank = self.evaluate_5cards_fast(&hand_cards);
            proof {
                lemma_strength5_range(choice(cards@, i as int));
                if i > 0 {
                    lemma_best_of(cards@, i as int);
                }
            }
            if rank == 1 {
                return Hand::new(hand_cards, 1);
            }
            if rank < best_rank {
                best_rank = rank;
                best_cards = hand_cards;
            }
            i = i + 1;
        }
        Hand::new(best_cards, best_rank)
    }

    fn evaluate_5cards_fast(&self, cards: &[Card; 5]) -> (r: u16) {
        proof {
            lemma_lookup_is_strength(cards@);
            cards@[0].lemma_wf_fields();
            cards@[1].lemma_wf_fields();
            cards@[2].lemma_wf_fields();
            cards@[3].lemma_wf_fields();
            cards@[4].lemma_wf_fields();
            lemma_strength5_range(cards@);
        }
        let raw0 = cards[0].raw();
        let raw1 = cards[1].raw();
        let raw2 = cards[2].raw();
        let raw3 = cards[3].raw();
        let raw4 = cards[4].raw();
        let suit_and = raw0 & raw1 & raw2 & raw3 & raw4 & 0xF000;
        proof {
            lemma_common_suit(
                raw0,
                raw1,
                raw2,
                raw3,
                raw4,
                cards@[0].suit_index() as u32,
                cards@[1].suit_index() as u32,
                cards@[2].suit_index() as u32,
                cards@[3].suit_index() as u32,
                cards@[4].suit_index() as u32,
            );
        }
        if suit_and != 0 {
            let rank_bits = cards[0].rank_bits() | cards[1].rank_bits() | cards[2].rank_bits()
                | cards[3].rank_bits() | cards[4].rank_bits();
            return self.tables.lookup_flush(rank_bits);
        }
        let prime_product = product5(
            cards[0].prime(),
            cards[1].prime(),
            cards[2].prime(),
            cards[3].prime(),
            cards[4].prime(),
        );
        self.tables.lookup_unique(prime_product).unwrap()
    }

    fn evaluate_7cards_fast(&self, cards: &[Card; 7]) -> (r: u16) {
        let mut best_rank: u16 = u16::MAX;
        let mut i: usize = 0;
        proof {
            lemma_best_of(cards@, 21);
        }
        while i < 21
            invariant
                i <= 21,
                rankable7(cards@),
                best_rank == best_of(cards@, i as int),
                1 <= best_of(cards@, 21) <= 7462,
                forall|j: int| 0 <= j < 21 ==> best_of(cards@, 21) <= strength5(#[trigger] choice(cards@, j)),
            decreases 21 - i,
        {
            let hand = choose_five(cards, i);
            let rank = self.evaluate_5cards_fast(&hand);
            if rank == 1 {
                return 1;
            }
            if rank < best_rank {
                best_rank = rank;
            }
            i = i + 1;
        }
        best_rank
    }
}

} // verus!
