//! The classes of five-card hands and the strength of each class.
//!
//! A class is what five cards are once suits are forgotten but for the question whether all
//! five agree: five ranks, and whether the hand is a flush. There are 7462 classes; the
//! strength of a class is its place in the order of poker hands, 1 for the royal flush and
//! 7462 for seven high. Within a category the classes are ordered by their deciding ranks,
//! the highest first.
use vstd::prelude::*;
use crate::combinatorics::binom;
use crate::combinatorics::lemma_binom_grows;
use crate::combinatorics::lemma_binom_one;
use crate::combinatorics::lemma_binom_values;
use crate::hand::HandRank;
use crate::rank_keys::is_rank;
use crate::rank_keys::key5;
use crate::rank_keys::lemma_same_key_same_ranks;

verus! {

/// Five ranks from the highest to the lowest, not all five the same.
pub open spec fn sorted5(a: int, b: int, c: int, d: int, e: int) -> bool {
    is_rank(a) && is_rank(e) && a >= b >= c >= d >= e && a != e
}

/// Five different ranks from the highest to the lowest.
pub open spec fn strict5(a: int, b: int, c: int, d: int, e: int) -> bool {
    is_rank(a) && is_rank(e) && a > b > c > d > e
}

/// Whether five different ranks, the highest first, are a straight: five neighbours, or the
/// wheel with the ace below the two.
pub open spec fn is_straight5(a: int, b: int, c: int, d: int, e: int) -> bool {
    a - e == 4 || (a == 12 && b == 3 && c == 2 && d == 1 && e == 0)
}

/// The number of ranks above `k`, not counting the rank `q`.
pub open spec fn above_skipping(k: int, q: int) -> int {
    (12 - k) - if q > k {
        1int
    } else {
        0int
    }
}

/// The number of ranks above `k`, counting neither `h` nor `l`.
pub open spec fn above_skipping_two(k: int, h: int, l: int) -> int {
    (12 - k) - (if h > k {
        1int
    } else {
        0int
    }) - (if l > k {
        1int
    } else {
        0int
    })
}

/// The place of the rank `x` among the twelve ranks other than `t`, counted from the
/// lowest.
pub open spec fn index_without(x: int, t: int) -> int {
    x - if t < x {
        1int
    } else {
        0int
    }
}

/// The number of sets of five different ranks that come before the given one when the sets
/// are ordered by their highest rank, then the next, and so on, lowest sets first.
pub open spec fn colex5(a: int, b: int, c: int, d: int, e: int) -> int {
    binom(a as nat, 5) + binom(b as nat, 4) + binom(c as nat, 3) + binom(d as nat, 2) + e
}

/// The number of straights that rank above a hand of five different ranks that is no
/// straight and has the highest rank `a`.
pub open spec fn straights_above(a: int) -> int {
    13 - a + if a < 12 {
        1int
    } else {
        0int
    }
}

/// The place of a hand of five different ranks among the 1277 such hands that are no
/// straights, the best first, counted from 0.
pub open spec fn unpaired_ordinal(a: int, b: int, c: int, d: int, e: int) -> int {
    1286 - colex5(a, b, c, d, e) - straights_above(a)
}

/// The place of a straight among the ten straights, the best first, counted from 0.
pub open spec fn straight_ordinal(a: int, e: int) -> int {
    if a - e == 4 {
        12 - a
    } else {
        9
    }
}

/// The strength of four of a kind of rank `q` with the kicker `k`.
pub open spec fn quads_strength(q: int, k: int) -> int {
    11 + (12 - q) * 12 + above_skipping(k, q)
}

/// The strength of a full house of three of rank `t` and two of rank `p`.
pub open spec fn full_house_strength(t: int, p: int) -> int {
    167 + (12 - t) * 12 + above_skipping(p, t)
}

/// The strength of a flush of five different ranks, the highest first.
pub open spec fn flush_strength(a: int, b: int, c: int, d: int, e: int) -> int {
    if is_straight5(a, b, c, d, e) {
        1 + straight_ordinal(a, e)
    } else {
        323 + unpaired_ordinal(a, b, c, d, e)
    }
}

/// The strength of three of a kind of rank `t` with the kickers `k1` above `k2`.
pub open spec fn trips_strength(t: int, k1: int, k2: int) -> int {
    1610 + (12 - t) * 66 + (65 - (binom(index_without(k1, t) as nat, 2) + index_without(k2, t)))
}

/// The strength of two pair of the ranks `h` above `l` with the kicker `k`.
pub open spec fn two_pair_strength(h: int, l: int, k: int) -> int {
    2468 + (77 - (binom(h as nat, 2) + l)) * 11 + above_skipping_two(k, h, l)
}

/// The strength of one pair of rank `p` with the kickers `k1` above `k2` above `k3`.
pub open spec fn pair_strength(p: int, k1: int, k2: int, k3: int) -> int {
    3326 + (12 - p) * 220 + (219 - (binom(index_without(k1, p) as nat, 3) + binom(
        index_without(k2, p) as nat,
        2,
    ) + index_without(k3, p)))
}

/// The strength of five different ranks that are no flush, the highest first.
pub open spec fn unpaired_strength(a: int, b: int, c: int, d: int, e: int) -> int {
    if is_straight5(a, b, c, d, e) {
        1600 + straight_ordinal(a, e)
    } else {
        6186 + unpaired_ordinal(a, b, c, d, e)
    }
}

/// The strength of a hand that is no flush, by its five ranks from the highest to the lowest.
pub open spec fn class_strength(a: int, b: int, c: int, d: int, e: int) -> int {
    if a == d {
        quads_strength(a, e)
    } else if b == e {
        quads_strength(b, a)
    } else if a == c && d == e {
        full_house_strength(a, d)
    } else if a == b && c == e {
        full_house_strength(c, a)
    } else if a == c {
        trips_strength(a, d, e)
    } else if b == d {
        trips_strength(b, a, e)
    } else if c == e {
        trips_strength(c, a, b)
    } else if a == b && c == d {
        two_pair_strength(a, c, e)
    } else if a == b && d == e {
        two_pair_strength(a, d, c)
    } else if b == c && d == e {
        two_pair_strength(b, d, a)
    } else if a == b {
        pair_strength(a, c, d, e)
    } else if b == c {
        pair_strength(b, a, d, e)
    } else if c == d {
        pair_strength(c, a, b, e)
    } else if d == e {
        pair_strength(d, a, b, c)
    } else {
        unpaired_strength(a, b, c, d, e)
    }
}

/// Whether a number is the strength of some class of hands that are no flushes.
pub open spec fn strength_given(v: int) -> bool {
    exists|a: int, b: int, c: int, d: int, e: int|
        sorted5(a, b, c, d, e) && #[trigger] class_strength(a, b, c, d, e) == v
}

/// Whether a number is the strength of some flush.
pub open spec fn flush_given(v: int) -> bool {
    exists|a: int, b: int, c: int, d: int, e: int|
        strict5(a, b, c, d, e) && #[trigger] flush_strength(a, b, c, d, e) == v
}

/// The shapes that the ranks of a hand can have.
pub enum Shape {
    Quads,
    FullHouse,
    Trips,
    TwoPair,
    Pair,
    Straight,
    NoPair,
}

/// The shape of five ranks from the highest to the lowest.
pub open spec fn shape_of(a: int, b: int, c: int, d: int, e: int) -> Shape {
    if a == d || b == e {
        Shape::Quads
    } else if (a == c && d == e) || (a == b && c == e) {
        Shape::FullHouse
    } else if a == c || b == d || c == e {
        Shape::Trips
    } else if (a == b && c == d) || (a == b && d == e) || (b == c && d == e) {
        Shape::TwoPair
    } else if a == b || b == c || c == d || d == e {
        Shape::Pair
    } else if is_straight5(a, b, c, d, e) {
        Shape::Straight
    } else {
        Shape::NoPair
    }
}

/// Two hands with the same key hold the same ranks: sorted from the highest to the lowest
/// they are the same five ranks.
pub proof fn lemma_sorted_unique(
    a: int,
    b: int,
    c: int,
    d: int,
    e: int,
    a2: int,
    b2: int,
    c2: int,
    d2: int,
    e2: int,
)
    requires
        is_rank(a) && is_rank(e) && a >= b >= c >= d >= e,
        is_rank(a2) && is_rank(e2) && a2 >= b2 >= c2 >= d2 >= e2,
        key5(a, b, c, d, e) == key5(a2, b2, c2, d2, e2),
    ensures
        a == a2 && b == b2 && c == c2 && d == d2 && e == e2,
{
    lemma_same_key_same_ranks(a, b, c, d, e, a2, b2, c2, d2, e2, a);
    lemma_same_key_same_ranks(a, b, c, d, e, a2, b2, c2, d2, e2, b);
    lemma_same_key_same_ranks(a, b, c, d, e, a2, b2, c2, d2, e2, c);
    lemma_same_key_same_ranks(a, b, c, d, e, a2, b2, c2, d2, e2, d);
    lemma_same_key_same_ranks(a, b, c, d, e, a2, b2, c2, d2, e2, e);
    lemma_same_key_same_ranks(a, b, c, d, e, a2, b2, c2, d2, e2, a2);
    lemma_same_key_same_ranks(a, b, c, d, e, a2, b2, c2, d2, e2, b2);
    lemma_same_key_same_ranks(a, b, c, d, e, a2, b2, c2, d2, e2, c2);
    lemma_same_key_same_ranks(a, b, c, d, e, a2, b2, c2, d2, e2, d2);
    lemma_same_key_same_ranks(a, b, c, d, e, a2, b2, c2, d2, e2, e2);
    assert(a == a2);
    assert(e == e2);
    assert(b == b2);
    assert(d == d2);
}



/// The poker category of a shape of ranks for a hand that is no flush.
pub open spec fn category_of_shape(shape: Shape) -> HandRank {
    match shape {
        Shape::Quads => HandRank::FourOfAKind,
        Shape::FullHouse => HandRank::FullHouse,
        Shape::Trips => HandRank::ThreeOfAKind,
        Shape::TwoPair => HandRank::TwoPair,
        Shape::Pair => HandRank::OnePair,
        Shape::Straight => HandRank::Straight,
        Shape::NoPair => HandRank::HighCard,
    }
}

/// Two ranks among the lowest `n`, the higher first, have fewer than `C(n, 2)` pairs of
/// ranks below them.
proof fn lemma_colex_two(x: int, y: int, n: int)
    requires
        0 <= y < x < n <= 13,
    ensures
        0 <= binom(x as nat, 2) + y < binom(n as nat, 2),
{
    lemma_binom_one(x as nat);
    assert(binom((x + 1) as nat, 2) == binom(x as nat, 1) + binom(x as nat, 2));
    lemma_binom_grows((x + 1) as nat, n as nat, 2);
}

/// Three ranks among the lowest `n`, the highest first, have fewer than `C(n, 3)` sets of
/// three ranks below them.
proof fn lemma_colex_bounds(x: int, y: int, z: int, n: int)
    requires
        0 <= z < y < x < n <= 13,
    ensures
        0 <= binom(x as nat, 3) + binom(y as nat, 2) + z < binom(n as nat, 3),
{
    lemma_colex_two(y, z, x);
    assert(binom((x + 1) as nat, 3) == binom(x as nat, 2) + binom(x as nat, 3));
    lemma_binom_grows((x + 1) as nat, n as nat, 3);
}

/// From one rank to the next there is at least one more set of five ranks.
proof fn lemma_five_up(a: int)
    requires
        4 <= a <= 11,
    ensures
        binom((a + 1) as nat, 5) + (11 - a) <= 792,
    decreases 11 - a,
{
    lemma_binom_values();
    if a < 11 {
        lemma_five_up(a + 1);
        assert(binom((a + 2) as nat, 5) == binom((a + 1) as nat, 4) + binom((a + 1) as nat, 5));
        lemma_binom_grows(4, (a + 1) as nat, 4);
        lemma_binom_values_small();
    }
}

/// The place of five different ranks among all sets of five ranks lies below 1287, and
/// a hand that is no straight has an ordinal from 0 to 1276.
pub proof fn lemma_unpaired_ordinal_range(a: int, b: int, c: int, d: int, e: int)
    requires
        strict5(a, b, c, d, e),
    ensures
        0 <= colex5(a, b, c, d, e) < 1287,
        !is_straight5(a, b, c, d, e) ==> 0 <= unpaired_ordinal(a, b, c, d, e) <= 1276,
{
    lemma_binom_values();
    lemma_binom_one(d as nat);
    // From the lowest rank up: each partial sum stays below the next binomial coefficient.
    assert(binom((d + 1) as nat, 2) == binom(d as nat, 1) + binom(d as nat, 2));
    lemma_binom_grows((d + 1) as nat, c as nat, 2);
    assert(binom((c + 1) as nat, 3) == binom(c as nat, 2) + binom(c as nat, 3));
    lemma_binom_grows((c + 1) as nat, b as nat, 3);
    assert(binom((b + 1) as nat, 4) == binom(b as nat, 3) + binom(b as nat, 4));
    lemma_binom_grows((b + 1) as nat, a as nat, 4);
    assert(binom((a + 1) as nat, 5) == binom(a as nat, 4) + binom(a as nat, 5));
    lemma_binom_grows((a + 1) as nat, 13, 5);
    if !is_straight5(a, b, c, d, e) {
        // The lowest sets with a given highest rank: the one of five neighbours is the
        // greatest, so a hand that is no straight lies strictly below it.
        let low = colex5(a, b, c, d, e);
        // upper bound of the ordinal: low >= straights below it
        lemma_low_hands(a, b, c, d, e);
        // lower bound of the ordinal: low < C(a + 1, 5) - 1
        lemma_high_hands(a, b, c, d, e);
        if a < 12 {
            lemma_five_up(a);
        }
    }
}

/// Among the sets of five different ranks with the highest rank `a`, at least `a - 4` or,
/// where the ace is on top, one more are not above a hand that is no straight: the
/// straights with a lower top rank, and the wheel.
proof fn lemma_low_hands(a: int, b: int, c: int, d: int, e: int)
    requires
        strict5(a, b, c, d, e),
        !is_straight5(a, b, c, d, e),
    ensures
        colex5(a, b, c, d, e) >= binom(a as nat, 5) + if a == 12 {
            1int
        } else {
            0int
        },
        binom(a as nat, 5) >= a - 4,
{
    lemma_binom_one(a as nat);
    lemma_five_of(a);
    if a == 12 {
        // Not the wheel: some rank below the ace is not the lowest it can be.
        if b == 3 {
            assert(c == 2 && d == 1 && e == 0);
        } else {
            lemma_binom_grows(4, b as nat, 4);
            lemma_binom_values_small();
        }
    }
}

/// `C(n, 5)` is at least `n - 4` for the ranks from four on.
proof fn lemma_five_of(a: int)
    requires
        4 <= a <= 12,
    ensures
        binom(a as nat, 5) >= a - 4,
    decreases a,
{
    lemma_binom_values_small();
    if a > 4 {
        lemma_five_of(a - 1);
        assert(binom(a as nat, 5) == binom((a - 1) as nat, 4) + binom((a - 1) as nat, 5));
        lemma_binom_grows(4, (a - 1) as nat, 4);
    }
}

/// Some small binomial coefficients.
proof fn lemma_binom_values_small()
    ensures
        binom(4, 4) == 1,
        binom(4, 5) == 0,
        binom(3, 3) == 1,
        binom(2, 2) == 1,
{
    crate::combinatorics::lemma_binom_edge(4, 4);
    crate::combinatorics::lemma_binom_edge(4, 5);
    crate::combinatorics::lemma_binom_edge(3, 3);
    crate::combinatorics::lemma_binom_edge(2, 2);
}

/// A hand that is no straight lies strictly below the straight with the same highest rank.
proof fn lemma_high_hands(a: int, b: int, c: int, d: int, e: int)
    requires
        strict5(a, b, c, d, e),
        !is_straight5(a, b, c, d, e),
    ensures
        colex5(a, b, c, d, e) + 2 <= binom((a + 1) as nat, 5),
{
    lemma_binom_one(d as nat);
    lemma_binom_one(c as nat);
    lemma_binom_one(b as nat);
    assert(binom((a + 1) as nat, 5) == binom(a as nat, 4) + binom(a as nat, 5));
    // It suffices that C(b, 4) + C(c, 3) + C(d, 2) + e + 2 <= C(a, 4).
    assert(binom((d + 1) as nat, 2) == binom(d as nat, 1) + binom(d as nat, 2));
    assert(binom((c + 1) as nat, 3) == binom(c as nat, 2) + binom(c as nat, 3));
    assert(binom((b + 1) as nat, 4) == binom(b as nat, 3) + binom(b as nat, 4));
    if b < a - 1 {
        lemma_binom_grows((d + 1) as nat, c as nat, 2);
        lemma_binom_grows((c + 1) as nat, b as nat, 3);
        // C(b, 4) + C(c, 3) + C(d, 2) + e + 1 <= C(b + 1, 4) <= C(a - 1, 4)
        lemma_binom_grows((b + 1) as nat, (a - 1) as nat, 4);
        assert(binom(a as nat, 4) == binom((a - 1) as nat, 3) + binom((a - 1) as nat, 4));
        lemma_binom_grows(3, (a - 1) as nat, 3);
        lemma_binom_values_small();
    } else if c < b - 1 {
        lemma_binom_grows((d + 1) as nat, c as nat, 2);
        lemma_binom_grows((c + 1) as nat, (b - 1) as nat, 3);
        assert(binom(b as nat, 3) == binom((b - 1) as nat, 2) + binom((b - 1) as nat, 3));
        lemma_binom_grows(2, (b - 1) as nat, 2);
        lemma_binom_values_small();
    } else if d < c - 1 {
        lemma_binom_grows((d + 1) as nat, (c - 1) as nat, 2);
        assert(binom(c as nat, 2) == binom((c - 1) as nat, 1) + binom((c - 1) as nat, 2));
        lemma_binom_one((c - 1) as nat);
    } else {
        assert(e < d - 1);
    }
}

/// The strength of every class lies in the range of its category: the table gives a hand
/// the category that its ranks have.
pub proof fn lemma_class_strength_range(a: int, b: int, c: int, d: int, e: int)
    requires
        sorted5(a, b, c, d, e),
    ensures
        11 <= class_strength(a, b, c, d, e) <= 7462,
        HandRank::of_strength(class_strength(a, b, c, d, e) as u16) == category_of_shape(
            shape_of(a, b, c, d, e),
        ),
{
    lemma_binom_values();
    match shape_of(a, b, c, d, e) {
        Shape::Quads => {},
        Shape::FullHouse => {},
        Shape::Trips => {
            let t = if a == c {
                a
            } else if b == d {
                b
            } else {
                c
            };
            let k1 = if a == c {
                d
            } else {
                a
            };
            let k2 = if c == e {
                b
            } else {
                e
            };
            lemma_colex_two(index_without(k1, t), index_without(k2, t), 12);
        },
        Shape::TwoPair => {
            let h = if a == b {
                a
            } else {
                b
            };
            let l = if a == b && c == d {
                c
            } else {
                d
            };
            lemma_colex_two(h, l, 13);
            let n = 77 - (binom(h as nat, 2) + l);
            assert(0 <= n * 11 <= 77 * 11) by (nonlinear_arith)
                requires
                    0 <= n <= 77,
            ;
        },
        Shape::Pair => {
            let p = if a == b {
                a
            } else if b == c {
                b
            } else if c == d {
                c
            } else {
                d
            };
            let k1 = if a == b {
                c
            } else {
                a
            };
            let k2 = if a == b || b == c {
                d
            } else {
                b
            };
            let k3 = if d == e {
                c
            } else {
                e
            };
            lemma_colex_bounds(index_without(k1, p), index_without(k2, p), index_without(k3, p), 12);
        },
        Shape::Straight => {},
        Shape::NoPair => {
            lemma_unpaired_ordinal_range(a, b, c, d, e);
        },
    }
}

/// The strength of every flush lies in the range of its category.
pub proof fn lemma_flush_strength_range(a: int, b: int, c: int, d: int, e: int)
    requires
        strict5(a, b, c, d, e),
    ensures
        1 <= flush_strength(a, b, c, d, e) <= 1599,
        HandRank::of_strength(flush_strength(a, b, c, d, e) as u16) == if is_straight5(
            a,
            b,
            c,
            d,
            e,
        ) {
            HandRank::StraightFlush
        } else {
            HandRank::Flush
        },
{
    lemma_unpaired_ordinal_range(a, b, c, d, e);
}



/// Two pairs of ranks, the higher first, that have equally many pairs below them are the
/// same pair.
proof fn lemma_colex_two_unique(x: int, y: int, x2: int, y2: int)
    requires
        0 <= y < x < 13,
        0 <= y2 < x2 < 13,
        binom(x as nat, 2) + y == binom(x2 as nat, 2) + y2,
    ensures
        x == x2 && y == y2,
{
    lemma_colex_two(x, y, x + 1);
    lemma_colex_two(x2, y2, x2 + 1);
    if x < x2 {
        lemma_binom_grows((x + 1) as nat, x2 as nat, 2);
    }
    if x2 < x {
        lemma_binom_grows((x2 + 1) as nat, x as nat, 2);
    }
}

/// Two sets of three ranks, the highest first, that have equally many sets below them are
/// the same set.
proof fn lemma_colex_three_unique(x: int, y: int, z: int, x2: int, y2: int, z2: int)
    requires
        0 <= z < y < x < 13,
        0 <= z2 < y2 < x2 < 13,
        binom(x as nat, 3) + binom(y as nat, 2) + z == binom(x2 as nat, 3) + binom(y2 as nat, 2)
            + z2,
    ensures
        x == x2 && y == y2 && z == z2,
{
    lemma_colex_bounds(x, y, z, x + 1);
    lemma_colex_bounds(x2, y2, z2, x2 + 1);
    lemma_colex_two(y, z, 13);
    lemma_colex_two(y2, z2, 13);
    if x < x2 {
        lemma_binom_grows((x + 1) as nat, x2 as nat, 3);
    }
    if x2 < x {
        lemma_binom_grows((x2 + 1) as nat, x as nat, 3);
    }
    if x == x2 {
        lemma_colex_two_unique(y, z, y2, z2);
    }
}

/// The sets of five ranks below a set are fewer than `C(a + 1, 5)`, and those below its
/// four lower ranks fewer than `C(b + 1, 4)`.
proof fn lemma_colex_five_bounds(a: int, b: int, c: int, d: int, e: int)
    requires
        strict5(a, b, c, d, e),
    ensures
        0 <= binom(b as nat, 4) + binom(c as nat, 3) + binom(d as nat, 2) + e < binom(
            (b + 1) as nat,
            4,
        ),
        binom((b + 1) as nat, 4) <= binom(a as nat, 4),
        binom(a as nat, 5) <= colex5(a, b, c, d, e) < binom((a + 1) as nat, 5),
{
    lemma_colex_bounds(c, d, e, c + 1);
    lemma_binom_grows((c + 1) as nat, b as nat, 3);
    assert(binom((b + 1) as nat, 4) == binom(b as nat, 3) + binom(b as nat, 4));
    lemma_binom_grows((b + 1) as nat, a as nat, 4);
    assert(binom((a + 1) as nat, 5) == binom(a as nat, 4) + binom(a as nat, 5));
}

/// Two sets of five ranks, the highest first, that have equally many sets below them are
/// the same set.
proof fn lemma_colex_five_unique(
    a: int,
    b: int,
    c: int,
    d: int,
    e: int,
    a2: int,
    b2: int,
    c2: int,
    d2: int,
    e2: int,
)
    requires
        strict5(a, b, c, d, e),
        strict5(a2, b2, c2, d2, e2),
        colex5(a, b, c, d, e) == colex5(a2, b2, c2, d2, e2),
    ensures
        a == a2 && b == b2 && c == c2 && d == d2 && e == e2,
{
    lemma_colex_five_bounds(a, b, c, d, e);
    lemma_colex_five_bounds(a2, b2, c2, d2, e2);
    if a < a2 {
        lemma_binom_grows((a + 1) as nat, a2 as nat, 5);
    }
    if a2 < a {
        lemma_binom_grows((a2 + 1) as nat, a as nat, 5);
    }
    if a == a2 {
        if b < b2 {
            lemma_binom_grows((b + 1) as nat, b2 as nat, 4);
        }
        if b2 < b {
            lemma_binom_grows((b2 + 1) as nat, b as nat, 4);
        }
        if b == b2 {
            lemma_colex_three_unique(c, d, e, c2, d2, e2);
        }
    }
}

/// From a rank to a higher one there is at least one more set of five ranks for each step.
proof fn lemma_five_grows(n: int, m: int)
    requires
        4 <= n <= m <= 13,
    ensures
        binom(m as nat, 5) >= binom(n as nat, 5) + (m - n),
    decreases m - n,
{
    if n < m {
        lemma_five_grows(n, m - 1);
        assert(binom(m as nat, 5) == binom((m - 1) as nat, 4) + binom((m - 1) as nat, 5));
        lemma_binom_grows(4, (m - 1) as nat, 4);
        lemma_binom_values_small();
    }
}

/// Two hands of five different ranks that are no straights and have the same ordinal are
/// the same hand.
pub proof fn lemma_unpaired_ordinal_unique(
    a: int,
    b: int,
    c: int,
    d: int,
    e: int,
    a2: int,
    b2: int,
    c2: int,
    d2: int,
    e2: int,
)
    requires
        strict5(a, b, c, d, e),
        strict5(a2, b2, c2, d2, e2),
        !is_straight5(a, b, c, d, e),
        !is_straight5(a2, b2, c2, d2, e2),
        unpaired_ordinal(a, b, c, d, e) == unpaired_ordinal(a2, b2, c2, d2, e2),
    ensures
        a == a2 && b == b2 && c == c2 && d == d2 && e == e2,
{
    lemma_low_hands(a, b, c, d, e);
    lemma_low_hands(a2, b2, c2, d2, e2);
    lemma_high_hands(a, b, c, d, e);
    lemma_high_hands(a2, b2, c2, d2, e2);
    if a < a2 {
        lemma_five_grows(a + 1, a2);
    }
    if a2 < a {
        lemma_five_grows(a2 + 1, a);
    }
    if a == a2 {
        lemma_colex_five_unique(a, b, c, d, e, a2, b2, c2, d2, e2);
    }
}

/// Two flushes with the same strength have the same ranks.
pub proof fn lemma_flush_strength_unique(
    a: int,
    b: int,
    c: int,
    d: int,
    e: int,
    a2: int,
    b2: int,
    c2: int,
    d2: int,
    e2: int,
)
    requires
        strict5(a, b, c, d, e),
        strict5(a2, b2, c2, d2, e2),
        flush_strength(a, b, c, d, e) == flush_strength(a2, b2, c2, d2, e2),
    ensures
        a == a2 && b == b2 && c == c2 && d == d2 && e == e2,
{
    lemma_flush_strength_range(a, b, c, d, e);
    lemma_flush_strength_range(a2, b2, c2, d2, e2);
    if !is_straight5(a, b, c, d, e) && !is_straight5(a2, b2, c2, d2, e2) {
        lemma_unpaired_ordinal_unique(a, b, c, d, e, a2, b2, c2, d2, e2);
    }
}

/// The strength of a hand with three of a kind tells the rank of the three and the kickers.
proof fn lemma_trips_unique(t: int, k1: int, k2: int, t2: int, l1: int, l2: int)
    requires
        is_rank(t) && is_rank(k1) && is_rank(k2) && k1 > k2 && k1 != t && k2 != t,
        is_rank(t2) && is_rank(l1) && is_rank(l2) && l1 > l2 && l1 != t2 && l2 != t2,
        trips_strength(t, k1, k2) == trips_strength(t2, l1, l2),
    ensures
        t == t2 && k1 == l1 && k2 == l2,
{
    lemma_colex_two(index_without(k1, t), index_without(k2, t), 12);
    lemma_colex_two(index_without(l1, t2), index_without(l2, t2), 12);
    lemma_binom_values();
    if t == t2 {
        lemma_colex_two_unique(
            index_without(k1, t),
            index_without(k2, t),
            index_without(l1, t2),
            index_without(l2, t2),
        );
    }
}

/// The strength of a hand with two pair tells the ranks of the pairs and the kicker.
proof fn lemma_two_pair_unique(h: int, l: int, k: int, h2: int, l2: int, k2: int)
    requires
        is_rank(h) && is_rank(l) && is_rank(k) && h > l && k != h && k != l,
        is_rank(h2) && is_rank(l2) && is_rank(k2) && h2 > l2 && k2 != h2 && k2 != l2,
        two_pair_strength(h, l, k) == two_pair_strength(h2, l2, k2),
    ensures
        h == h2 && l == l2 && k == k2,
{
    lemma_colex_two(h, l, 13);
    lemma_colex_two(h2, l2, 13);
    lemma_binom_values();
    let n = 77 - (binom(h as nat, 2) + l);
    let n2 = 77 - (binom(h2 as nat, 2) + l2);
    assert(0 <= above_skipping_two(k, h, l) <= 10);
    assert(0 <= above_skipping_two(k2, h2, l2) <= 10);
    assert(n == n2) by (nonlinear_arith)
        requires
            n * 11 + above_skipping_two(k, h, l) == n2 * 11 + above_skipping_two(k2, h2, l2),
            0 <= above_skipping_two(k, h, l) <= 10,
            0 <= above_skipping_two(k2, h2, l2) <= 10,
    ;
    lemma_colex_two_unique(h, l, h2, l2);
}

/// The strength of a hand with one pair tells the rank of the pair and the kickers.
proof fn lemma_pair_unique(
    p: int,
    k1: int,
    k2: int,
    k3: int,
    other: int,
    l1: int,
    l2: int,
    l3: int,
)
    requires
        is_rank(p) && is_rank(k1) && is_rank(k3) && k1 > k2 > k3 && k1 != p && k2 != p && k3 != p,
        is_rank(other) && is_rank(l1) && is_rank(l3) && l1 > l2 > l3 && l1 != other && l2 != other && l3
            != other,
        pair_strength(p, k1, k2, k3) == pair_strength(other, l1, l2, l3),
    ensures
        p == other && k1 == l1 && k2 == l2 && k3 == l3,
{
    lemma_colex_bounds(index_without(k1, p), index_without(k2, p), index_without(k3, p), 12);
    lemma_colex_bounds(index_without(l1, other), index_without(l2, other), index_without(l3, other), 12);
    lemma_binom_values();
    if p == other {
        lemma_colex_three_unique(
            index_without(k1, p),
            index_without(k2, p),
            index_without(k3, p),
            index_without(l1, other),
            index_without(l2, other),
            index_without(l3, other),
        );
    }
}

/// Two classes of hands that are no flushes and have the same strength are the same class.
pub proof fn lemma_class_strength_unique(
    a: int,
    b: int,
    c: int,
    d: int,
    e: int,
    a2: int,
    b2: int,
    c2: int,
    d2: int,
    e2: int,
)
    requires
        sorted5(a, b, c, d, e),
        sorted5(a2, b2, c2, d2, e2),
        class_strength(a, b, c, d, e) == class_strength(a2, b2, c2, d2, e2),
    ensures
        a == a2 && b == b2 && c == c2 && d == d2 && e == e2,
{
    lemma_class_strength_range(a, b, c, d, e);
    lemma_class_strength_range(a2, b2, c2, d2, e2);
    assert(shape_of(a, b, c, d, e) == shape_of(a2, b2, c2, d2, e2));
    match shape_of(a, b, c, d, e) {
        Shape::Quads => {},
        Shape::FullHouse => {},
        Shape::Trips => {
            let t = if a == c {
                a
            } else if b == d {
                b
            } else {
                c
            };
            let k1 = if a == c {
                d
            } else {
                a
            };
            let k2 = if c == e {
                b
            } else {
                e
            };
            let t2 = if a2 == c2 {
                a2
            } else if b2 == d2 {
                b2
            } else {
                c2
            };
            let l1 = if a2 == c2 {
                d2
            } else {
                a2
            };
            let l2 = if c2 == e2 {
                b2
            } else {
                e2
            };
            lemma_trips_unique(t, k1, k2, t2, l1, l2);
        },
        Shape::TwoPair => {
            let h = if a == b {
                a
            } else {
                b
            };
            let l = if a == b && c == d {
                c
            } else {
                d
            };
            let k = if a != b {
                a
            } else if c == d {
                e
            } else {
                c
            };
            let h2 = if a2 == b2 {
                a2
            } else {
                b2
            };
            let l2 = if a2 == b2 && c2 == d2 {
                c2
            } else {
                d2
            };
            let k2 = if a2 != b2 {
                a2
            } else if c2 == d2 {
                e2
            } else {
                c2
            };
            lemma_two_pair_unique(h, l, k, h2, l2, k2);
        },
        Shape::Pair => {
            let p = if a == b {
                a
            } else if b == c {
                b
            } else if c == d {
                c
            } else {
                d
            };
            let k1 = if a == b {
                c
            } else {
                a
            };
            let k2 = if a == b || b == c {
                d
            } else {
                b
            };
            let k3 = if d == e {
                c
            } else {
                e
            };
            let other = if a2 == b2 {
                a2
            } else if b2 == c2 {
                b2
            } else if c2 == d2 {
                c2
            } else {
                d2
            };
            let l1 = if a2 == b2 {
                c2
            } else {
                a2
            };
            let l2 = if a2 == b2 || b2 == c2 {
                d2
            } else {
                b2
            };
            let l3 = if d2 == e2 {
                c2
            } else {
                e2
            };
            lemma_pair_unique(p, k1, k2, k3, other, l1, l2, l3);
        },
        Shape::Straight => {},
        Shape::NoPair => {
            lemma_unpaired_ordinal_unique(a, b, c, d, e, a2, b2, c2, d2, e2);
        },
    }
}

/// No flush has the strength of a hand that is no flush.
pub proof fn lemma_flush_strengths_apart(
    a: int,
    b: int,
    c: int,
    d: int,
    e: int,
    a2: int,
    b2: int,
    c2: int,
    d2: int,
    e2: int,
)
    requires
        strict5(a, b, c, d, e),
        sorted5(a2, b2, c2, d2, e2),
    ensures
        flush_strength(a, b, c, d, e) != class_strength(a2, b2, c2, d2, e2),
{
    lemma_flush_strength_range(a, b, c, d, e);
    lemma_class_strength_range(a2, b2, c2, d2, e2);
}

} // verus!
