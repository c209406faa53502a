//! The strength of a hand, as a function of its cards.
//!
//! The strength of five cards is the strength of their class: the five ranks from the
//! highest to the lowest, and whether all five cards have one suit. The strength of seven
//! cards is that of the best five among them.
use vstd::prelude::*;
use crate::card::Card;
use crate::combinatorics::FIVE_FROM_SEVEN;
use crate::hand_classes::class_strength;
use crate::hand_classes::flush_strength;
use crate::hand_classes::lemma_class_strength_range;
use crate::hand_classes::lemma_flush_strength_range;

verus! {

/// Puts a third number at its place behind two that fall, so that the three fall.
pub open spec fn insert3(x: int, y: int, z: int) -> (int, int, int) {
    if z > x {
        (z, x, y)
    } else if z > y {
        (x, z, y)
    } else {
        (x, y, z)
    }
}

/// Puts a fourth number at its place among three that fall.
pub open spec fn insert4(x: int, y: int, z: int, w: int) -> (int, int, int, int) {
    if w > x {
        (w, x, y, z)
    } else if w > y {
        (x, w, y, z)
    } else if w > z {
        (x, y, w, z)
    } else {
        (x, y, z, w)
    }
}

/// Puts a fifth number at its place among four that fall.
pub open spec fn insert5(x: int, y: int, z: int, w: int, v: int) -> (int, int, int, int, int) {
    if v > x {
        (v, x, y, z, w)
    } else if v > y {
        (x, v, y, z, w)
    } else if v > z {
        (x, y, v, z, w)
    } else if v > w {
        (x, y, z, v, w)
    } else {
        (x, y, z, w, v)
    }
}

/// Five numbers from the highest to the lowest.
pub open spec fn sort5(a: int, b: int, c: int, d: int, e: int) -> (int, int, int, int, int) {
    let (x1, y1) = if b > a {
        (b, a)
    } else {
        (a, b)
    };
    let (x2, y2, z2) = insert3(x1, y1, c);
    let (x3, y3, z3, w3) = insert4(x2, y2, z2, d);
    insert5(x3, y3, z3, w3, e)
}

/// Sorting five numbers gives numbers that fall, with the highest and the lowest of the
/// five at the ends; equal numbers stay equal.
pub proof fn lemma_sort5(a: int, b: int, c: int, d: int, e: int)
    ensures
        ({
            let (s0, s1, s2, s3, s4) = sort5(a, b, c, d, e);
            &&& s0 >= s1 >= s2 >= s3 >= s4
            &&& s0 >= a && s0 >= b && s0 >= c && s0 >= d && s0 >= e
            &&& s4 <= a && s4 <= b && s4 <= c && s4 <= d && s4 <= e
            &&& (s0 == a || s0 == b || s0 == c || s0 == d || s0 == e)
            &&& (s4 == a || s4 == b || s4 == c || s4 == d || s4 == e)
            &&& (a == b && b == c && c == d && d == e) <==> s0 == s4
        }),
{
}

/// A function of five numbers that does not change when two neighbours are swapped has the
/// same value on the five numbers and on the five sorted.
pub proof fn lemma_sort5_keeps<X>(
    f: spec_fn(int, int, int, int, int) -> X,
    a: int,
    b: int,
    c: int,
    d: int,
    e: int,
)
    requires
        forall|a: int, b: int, c: int, d: int, e: int| #[trigger] f(a, b, c, d, e) == f(b, a, c, d, e),
        forall|a: int, b: int, c: int, d: int, e: int| #[trigger] f(a, b, c, d, e) == f(a, c, b, d, e),
        forall|a: int, b: int, c: int, d: int, e: int| #[trigger] f(a, b, c, d, e) == f(a, b, d, c, e),
        forall|a: int, b: int, c: int, d: int, e: int| #[trigger] f(a, b, c, d, e) == f(a, b, c, e, d),
    ensures
        ({
            let (s0, s1, s2, s3, s4) = sort5(a, b, c, d, e);
            f(a, b, c, d, e) == f(s0, s1, s2, s3, s4)
        }),
{
    let (x1, y1) = if b > a {
        (b, a)
    } else {
        (a, b)
    };
    assert(f(a, b, c, d, e) == f(x1, y1, c, d, e));
    let (x2, y2, z2) = insert3(x1, y1, c);
    assert(f(x1, y1, c, d, e) == f(x2, y2, z2, d, e)) by {
        assert(f(x1, y1, c, d, e) == f(x1, c, y1, d, e));
        assert(f(x1, c, y1, d, e) == f(c, x1, y1, d, e));
    }
    let (x3, y3, z3, w3) = insert4(x2, y2, z2, d);
    assert(f(x2, y2, z2, d, e) == f(x3, y3, z3, w3, e)) by {
        assert(f(x2, y2, z2, d, e) == f(x2, y2, d, z2, e));
        assert(f(x2, y2, d, z2, e) == f(x2, d, y2, z2, e));
        assert(f(x2, d, y2, z2, e) == f(d, x2, y2, z2, e));
    }
    let (s0, s1, s2, s3, s4) = insert5(x3, y3, z3, w3, e);
    assert(f(x3, y3, z3, w3, e) == f(s0, s1, s2, s3, s4)) by {
        assert(f(x3, y3, z3, w3, e) == f(x3, y3, z3, e, w3));
        assert(f(x3, y3, z3, e, w3) == f(x3, y3, e, z3, w3));
        assert(f(x3, y3, e, z3, w3) == f(x3, e, y3, z3, w3));
        assert(f(x3, e, y3, z3, w3) == f(e, x3, y3, z3, w3));
    }
}

/// Five cards, each a valid card.
pub open spec fn five_cards(cards: Seq<Card>) -> bool {
    cards.len() == 5 && forall|i: int| 0 <= i < 5 ==> (#[trigger] cards[i]).wf()
}

/// Whether five cards all have one suit.
pub open spec fn is_flush(cards: Seq<Card>) -> bool {
    cards[0].suit_index() == cards[1].suit_index() && cards[0].suit_index()
        == cards[2].suit_index() && cards[0].suit_index() == cards[3].suit_index()
        && cards[0].suit_index() == cards[4].suit_index()
}

/// Whether five cards all have one rank.
pub open spec fn one_rank(cards: Seq<Card>) -> bool {
    cards[0].rank_index() == cards[1].rank_index() && cards[0].rank_index()
        == cards[2].rank_index() && cards[0].rank_index() == cards[3].rank_index()
        && cards[0].rank_index() == cards[4].rank_index()
}

/// Five cards that can be ranked: five valid cards whose ranks can occur in a hand. Five
/// cards of one rank cannot, unless they are one card five times over.
pub open spec fn rankable5(cards: Seq<Card>) -> bool {
    five_cards(cards) && (one_rank(cards) ==> is_flush(cards))
}

/// The ranks of five cards from the highest to the lowest.
pub open spec fn sorted_ranks(cards: Seq<Card>) -> (int, int, int, int, int) {
    sort5(
        cards[0].rank_index() as int,
        cards[1].rank_index() as int,
        cards[2].rank_index() as int,
        cards[3].rank_index() as int,
        cards[4].rank_index() as int,
    )
}

/// The strength of five cards, from 1 for a royal flush to 7462 for seven high.
///
/// Five cards of one suit that do not have five different ranks are no poker hand; they
/// count as the worst hand.
#[verifier::opaque]
pub open spec fn strength5(cards: Seq<Card>) -> int {
    let (a, b, c, d, e) = sorted_ranks(cards);
    if is_flush(cards) {
        if a > b > c > d > e {
            flush_strength(a, b, c, d, e)
        } else {
            7462
        }
    } else {
        class_strength(a, b, c, d, e)
    }
}

/// The five cards of seven at the given five positions.
pub open spec fn pick5(cards: Seq<Card>, positions: [usize; 5]) -> Seq<Card> {
    seq![
        cards[positions[0] as int],
        cards[positions[1] as int],
        cards[positions[2] as int],
        cards[positions[3] as int],
        cards[positions[4] as int],
    ]
}

/// The `i`-th choice of five of seven cards.
pub open spec fn choice(cards: Seq<Card>, i: int) -> Seq<Card> {
    pick5(cards, FIVE_FROM_SEVEN[i])
}

/// Seven cards that can be ranked: every five of them can.
pub open spec fn rankable7(cards: Seq<Card>) -> bool {
    cards.len() == 7 && forall|i: int| 0 <= i < 21 ==> rankable5(#[trigger] choice(cards, i))
}

/// The best strength among the first `n` choices of five of seven cards; 65535 where
/// there is no choice.
pub open spec fn best_of(cards: Seq<Card>, n: int) -> int
    decreases n,
{
    if n <= 0 {
        65535
    } else {
        let before = best_of(cards, n - 1);
        let here = strength5(choice(cards, n - 1));
        if here < before {
            here
        } else {
            before
        }
    }
}

/// The strength of seven cards: that of the best five among them.
pub open spec fn strength7(cards: Seq<Card>) -> int {
    best_of(cards, 21)
}

/// The first of the first `n` choices of five of seven cards that has the best strength
/// among them.
pub open spec fn best_choice(cards: Seq<Card>, n: int) -> int
    decreases n,
{
    if n <= 1 {
        0
    } else if strength5(choice(cards, n - 1)) < best_of(cards, n - 1) {
        n - 1
    } else {
        best_choice(cards, n - 1)
    }
}

/// The strength of five cards that can be ranked lies between 1 and 7462.
pub proof fn lemma_strength5_range(cards: Seq<Card>)
    requires
        rankable5(cards),
    ensures
        1 <= strength5(cards) <= 7462,
{
    let r0 = cards[0].rank_index() as int;
    let r1 = cards[1].rank_index() as int;
    let r2 = cards[2].rank_index() as int;
    let r3 = cards[3].rank_index() as int;
    let r4 = cards[4].rank_index() as int;
    reveal(strength5);
    cards[0].lemma_wf_fields();
    cards[1].lemma_wf_fields();
    cards[2].lemma_wf_fields();
    cards[3].lemma_wf_fields();
    cards[4].lemma_wf_fields();
    lemma_sort5(r0, r1, r2, r3, r4);
    let (a, b, c, d, e) = sort5(r0, r1, r2, r3, r4);
    if is_flush(cards) {
        if a > b > c > d > e {
            lemma_flush_strength_range(a, b, c, d, e);
        }
    } else {
        lemma_class_strength_range(a, b, c, d, e);
    }
}

/// The best strength among some choices of five of seven cards is the strength of the best
/// choice, no choice among them is stronger, and it lies between 1 and 7462.
pub proof fn lemma_best_of(cards: Seq<Card>, n: int)
    requires
        rankable7(cards),
        1 <= n <= 21,
    ensures
        1 <= best_of(cards, n) <= 7462,
        0 <= best_choice(cards, n) < n,
        best_of(cards, n) == strength5(choice(cards, best_choice(cards, n))),
        forall|i: int| 0 <= i < n ==> best_of(cards, n) <= strength5(#[trigger] choice(cards, i)),
        forall|i: int|
            0 <= i < best_choice(cards, n) ==> best_of(cards, n) < strength5(
                #[trigger] choice(cards, i),
            ),
    decreases n,
{
    lemma_strength5_range(choice(cards, n - 1));
    if n > 1 {
        lemma_best_of(cards, n - 1);
    } else {
        assert(best_of(cards, 0) == 65535);
    }
}

} // verus!
