//! The lookup tables that give every class of five-card hand its strength.
//!
//! Flushes are looked up by the set of their ranks, a 13-bit pattern; all other hands by
//! their key, the product of the primes of their ranks.
use vstd::prelude::*;
use crate::combinatorics::binom;
use crate::combinatorics::lemma_binom_values;
use crate::combinatorics::lemma_binom_one;
use crate::hand_classes::class_strength;
use crate::hand_classes::full_house_strength;
use crate::combinatorics::is_straight_pattern;
use crate::combinatorics::is_straight_ranks;
use crate::combinatorics::within_five;
use crate::hand_classes::flush_given;
use crate::hand_classes::flush_strength;
use crate::hand_classes::strength_given;
use crate::hand_classes::index_without;
use crate::hand_classes::is_straight5;
use crate::hand_classes::strict5;
use crate::hand_classes::unpaired_ordinal;
use crate::hand_classes::lemma_sorted_unique;
use crate::hand_classes::quads_strength;
use crate::hand_classes::shape_of;
use crate::hand_classes::sorted5;
use crate::hand_classes::pair_strength;
use crate::hand_classes::trips_strength;
use crate::hand_classes::two_pair_strength;
use crate::hand_classes::Shape;
use crate::rank_keys::prime_at;
use crate::rank_keys::hand_key;
use crate::rank_keys::key5;
use crate::rank_keys::lemma_key_swaps;
use crate::hand::HandRank;
use crate::hand_classes::category_of_shape;
use crate::hand_classes::lemma_class_strength_range;
use crate::hand_classes::lemma_class_strength_unique;
use crate::hand_classes::lemma_flush_strength_range;
use crate::strength_map::held;
use crate::strength_map::keys_rise;
use crate::strength_map::lemma_held_empty;
use crate::strength_map::sorted_by_key;
use crate::strength_map::store;
use std::collections::HashMap;
use crate::strength_map::StrengthMap;
use vstd::relations::injective_on;
use vstd::set_lib::lemma_int_range;
use vstd::set_lib::lemma_map_size;
use vstd::set_lib::lemma_set_disjoint_lens;
use vstd::set_lib::set_int_range;

verus! {

/// The strength of the worst hand, seven high.
pub const WORST_RANK: u16 = 7462;

/// The map holds the strength of the class with the given ranks.
pub open spec fn holds_class(m: Map<int, u16>, a: int, b: int, c: int, d: int, e: int) -> bool {
    m.contains_key(key5(a, b, c, d, e)) && m[key5(a, b, c, d, e)] == class_strength(a, b, c, d, e)
}

/// Two maps agree on the class with the given ranks.
pub open spec fn same_at(
    m: Map<int, u16>,
    n: Map<int, u16>,
    a: int,
    b: int,
    c: int,
    d: int,
    e: int,
) -> bool {
    let key = key5(a, b, c, d, e);
    m.contains_key(key) == n.contains_key(key) && (m.contains_key(key) ==> m[key] == n[key])
}

/// Whether a number is the key of some class of hands.
pub open spec fn is_class_key(key: int) -> bool {
    exists|a: int, b: int, c: int, d: int, e: int|
        sorted5(a, b, c, d, e) && #[trigger] key5(a, b, c, d, e) == key
}

/// Storing the strength of one class leaves the entries of all other classes as they were.
proof fn lemma_put_class(m: Map<int, u16>, value: u16, a: int, b: int, c: int, d: int, e: int)
    requires
        sorted5(a, b, c, d, e),
    ensures
        forall|a2: int, b2: int, c2: int, d2: int, e2: int|
            sorted5(a2, b2, c2, d2, e2) && !(a2 == a && b2 == b && c2 == c && d2 == d && e2 == e)
                ==> same_at(m.insert(key5(a, b, c, d, e), value), m, a2, b2, c2, d2, e2),
        m.insert(key5(a, b, c, d, e), value).contains_key(key5(a, b, c, d, e)),
        m.insert(key5(a, b, c, d, e), value)[key5(a, b, c, d, e)] == value,
        is_class_key(key5(a, b, c, d, e)),
        strength_given(class_strength(a, b, c, d, e)),
{
    assert forall|a2: int, b2: int, c2: int, d2: int, e2: int|
        sorted5(a2, b2, c2, d2, e2) && !(a2 == a && b2 == b && c2 == c && d2 == d && e2
            == e) implies same_at(
        m.insert(key5(a, b, c, d, e), value),
        m,
        a2,
        b2,
        c2,
        d2,
        e2,
    ) by {
        if key5(a2, b2, c2, d2, e2) == key5(a, b, c, d, e) {
            lemma_sorted_unique(a, b, c, d, e, a2, b2, c2, d2, e2);
        }
    }
}

/// The rank of which a hand of the shape four of a kind holds four.
pub open spec fn quad_rank(a: int, b: int, c: int, d: int, e: int) -> int {
    if a == d {
        a
    } else {
        b
    }
}

/// The kicker of a hand of the shape four of a kind.
pub open spec fn quad_kicker(a: int, b: int, c: int, d: int, e: int) -> int {
    if a == d {
        e
    } else {
        a
    }
}

/// Stores the strengths of all hands with four of a kind: for each rank of the four from
/// the ace down, each kicker from the ace down.
fn generate_four_of_kind(map: &mut HashMap<u32, u16>, rank: u16) -> (r: u16)
    requires
        rank == 11,
    ensures
        forall|v: int| 11 <= v < 167 ==> strength_given(v),
        forall|key: int| held(final(map)@).contains_key(key) ==> held(old(map)@).contains_key(key) || is_class_key(key),
        r == 167,
        forall|a: int, b: int, c: int, d: int, e: int|
            sorted5(a, b, c, d, e) && shape_of(a, b, c, d, e) is Quads ==> holds_class(
                held(final(map)@),
                a,
                b,
                c,
                d,
                e,
            ),
        forall|a: int, b: int, c: int, d: int, e: int|
            sorted5(a, b, c, d, e) && !(shape_of(a, b, c, d, e) is Quads) ==> same_at(
                held(final(map)@),
                held(old(map)@),
                a,
                b,
                c,
                d,
                e,
            ),
{
    let mut rank = rank;
    let mut qn: usize = 13;
    while qn > 0
        invariant
            qn <= 13,
            forall|v: int| 11 <= v < rank ==> strength_given(v),
            forall|key: int| held(map@).contains_key(key) ==> held(old(map)@).contains_key(key) || is_class_key(key),
            rank == 11 + (13 - qn) * 12,
            forall|a: int, b: int, c: int, d: int, e: int|
                sorted5(a, b, c, d, e) && shape_of(a, b, c, d, e) is Quads && quad_rank(
                    a,
                    b,
                    c,
                    d,
                    e,
                ) >= qn ==> holds_class(held(map@), a, b, c, d, e),
            forall|a: int, b: int, c: int, d: int, e: int|
                sorted5(a, b, c, d, e) && !(shape_of(a, b, c, d, e) is Quads) ==> same_at(
                    held(map@),
                    held(old(map)@),
                    a,
                    b,
                    c,
                    d,
                    e,
                ),
        decreases qn,
    {
        let q = qn - 1;
        let mut kn: usize = 13;
        while kn > 0
            invariant
                kn <= 13,
                q < 13,
                qn == q + 1,
                forall|v: int| 11 <= v < rank ==> strength_given(v),
                forall|key: int| held(map@).contains_key(key) ==> held(old(map)@).contains_key(key) || is_class_key(key),
                rank == 11 + (12 - q) * 12 + (13 - kn) - if q >= kn {
                    1int
                } else {
                    0int
                },
                forall|a: int, b: int, c: int, d: int, e: int|
                    sorted5(a, b, c, d, e) && shape_of(a, b, c, d, e) is Quads && (quad_rank(
                        a,
                        b,
                        c,
                        d,
                        e,
                    ) > q || (quad_rank(a, b, c, d, e) == q && quad_kicker(a, b, c, d, e) >= kn))
                        ==> holds_class(held(map@), a, b, c, d, e),
                forall|a: int, b: int, c: int, d: int, e: int|
                    sorted5(a, b, c, d, e) && !(shape_of(a, b, c, d, e) is Quads) ==> same_at(
                        held(map@),
                        held(old(map)@),
                        a,
                        b,
                        c,
                        d,
                        e,
                    ),
            decreases kn,
        {
            let k = kn - 1;
            if k != q {
                let key = hand_key(q, q, q, q, k);
                let ghost before = held(map@);
                proof {
                    let qi = q as int;
                    let ki = k as int;
                    lemma_key_swaps(qi, qi, qi, qi, ki);
                    lemma_key_swaps(qi, qi, qi, ki, qi);
                    lemma_key_swaps(qi, qi, ki, qi, qi);
                    lemma_key_swaps(qi, ki, qi, qi, qi);
                    assert(key5(qi, qi, qi, qi, ki) == key5(ki, qi, qi, qi, qi));
                    if q > k {
                        lemma_put_class(before, rank, qi, qi, qi, qi, ki);
                    } else {
                        lemma_put_class(before, rank, ki, qi, qi, qi, qi);
                    }
                    assert(rank == quads_strength(qi, ki));
                }
                store(map, key, rank);
                rank = rank + 1;
            }
            kn = kn - 1;
        }
        qn = qn - 1;
    }
    rank
}



/// The key of a hand is the same in every order of its ranks: here for the orders in which
/// the tables are filled.
proof fn lemma_key_orders(x: int, y: int, z: int, w: int)
    ensures
        key5(x, x, x, x, y) == key5(y, x, x, x, x),
        key5(x, x, x, y, y) == key5(y, y, x, x, x),
        key5(x, x, x, y, z) == key5(y, x, x, x, z),
        key5(x, x, x, y, z) == key5(y, z, x, x, x),
        key5(x, x, y, y, z) == key5(x, x, z, y, y),
        key5(x, x, y, y, z) == key5(z, x, x, y, y),
        key5(x, x, y, z, w) == key5(y, x, x, z, w),
        key5(x, x, y, z, w) == key5(y, z, x, x, w),
        key5(x, x, y, z, w) == key5(y, z, w, x, x),
{
    let a = prime_at(x);
    let b = prime_at(y);
    let c = prime_at(z);
    let d = prime_at(w);
    assert(a * a * a * a * b == b * a * a * a * a) by (nonlinear_arith);
    assert(a * a * a * b * b == b * b * a * a * a) by (nonlinear_arith);
    assert(a * a * a * b * c == b * a * a * a * c) by (nonlinear_arith);
    assert(a * a * a * b * c == b * c * a * a * a) by (nonlinear_arith);
    assert(a * a * b * b * c == a * a * c * b * b) by (nonlinear_arith);
    assert(a * a * b * b * c == c * a * a * b * b) by (nonlinear_arith);
    assert(a * a * b * c * d == b * a * a * c * d) by (nonlinear_arith);
    assert(a * a * b * c * d == b * c * a * a * d) by (nonlinear_arith);
    assert(a * a * b * c * d == b * c * d * a * a) by (nonlinear_arith);
}

/// The rank of which a full house holds three.
pub open spec fn full_trips(a: int, b: int, c: int, d: int, e: int) -> int {
    if a == c {
        a
    } else {
        c
    }
}

/// The rank of which a full house holds two.
pub open spec fn full_pair(a: int, b: int, c: int, d: int, e: int) -> int {
    if a == c {
        d
    } else {
        a
    }
}

/// Stores the strengths of all full houses: for each rank of the three from the ace down,
/// each rank of the two from the ace down.
fn generate_full_houses(map: &mut HashMap<u32, u16>, rank: u16) -> (r: u16)
    requires
        rank == 167,
    ensures
        forall|v: int| 167 <= v < 323 ==> strength_given(v),
        forall|key: int| held(final(map)@).contains_key(key) ==> held(old(map)@).contains_key(key) || is_class_key(key),
        r == 323,
        forall|a: int, b: int, c: int, d: int, e: int|
            sorted5(a, b, c, d, e) && shape_of(a, b, c, d, e) is FullHouse ==> holds_class(
                held(final(map)@),
                a,
                b,
                c,
                d,
                e,
            ),
        forall|a: int, b: int, c: int, d: int, e: int|
            sorted5(a, b, c, d, e) && !(shape_of(a, b, c, d, e) is FullHouse) ==> same_at(
                held(final(map)@),
                held(old(map)@),
                a,
                b,
                c,
                d,
                e,
            ),
{
    let mut rank = rank;
    let mut tn: usize = 13;
    while tn > 0
        invariant
            tn <= 13,
            forall|v: int| 167 <= v < rank ==> strength_given(v),
            forall|key: int| held(map@).contains_key(key) ==> held(old(map)@).contains_key(key) || is_class_key(key),
            rank == 167 + (13 - tn) * 12,
            forall|a: int, b: int, c: int, d: int, e: int|
                sorted5(a, b, c, d, e) && shape_of(a, b, c, d, e) is FullHouse && full_trips(
                    a,
                    b,
                    c,
                    d,
                    e,
                ) >= tn ==> holds_class(held(map@), a, b, c, d, e),
            forall|a: int, b: int, c: int, d: int, e: int|
                sorted5(a, b, c, d, e) && !(shape_of(a, b, c, d, e) is FullHouse) ==> same_at(
                    held(map@),
                    held(old(map)@),
                    a,
                    b,
                    c,
                    d,
                    e,
                ),
        decreases tn,
    {
        let t = tn - 1;
        let mut pn: usize = 13;
        while pn > 0
            invariant
                pn <= 13,
                t < 13,
                tn == t + 1,
                forall|v: int| 167 <= v < rank ==> strength_given(v),
                forall|key: int| held(map@).contains_key(key) ==> held(old(map)@).contains_key(key) || is_class_key(key),
                rank == 167 + (12 - t) * 12 + (13 - pn) - if t >= pn {
                    1int
                } else {
                    0int
                },
                forall|a: int, b: int, c: int, d: int, e: int|
                    sorted5(a, b, c, d, e) && shape_of(a, b, c, d, e) is FullHouse && (full_trips(
                        a,
                        b,
                        c,
                        d,
                        e,
                    ) > t || (full_trips(a, b, c, d, e) == t && full_pair(a, b, c, d, e) >= pn))
                        ==> holds_class(held(map@), a, b, c, d, e),
                forall|a: int, b: int, c: int, d: int, e: int|
                    sorted5(a, b, c, d, e) && !(shape_of(a, b, c, d, e) is FullHouse) ==> same_at(
                        held(map@),
                        held(old(map)@),
                        a,
                        b,
                        c,
                        d,
                        e,
                    ),
            decreases pn,
        {
            let p = pn - 1;
            if p != t {
                let key = hand_key(t, t, t, p, p);
                let ghost before = held(map@);
                proof {
                    let ti = t as int;
                    let pi = p as int;
                    lemma_key_orders(ti, pi, 0, 0);
                    if t > p {
                        lemma_put_class(before, rank, ti, ti, ti, pi, pi);
                    } else {
                        lemma_put_class(before, rank, pi, pi, ti, ti, ti);
                    }
                    assert(rank == full_house_strength(ti, pi));
                }
                store(map, key, rank);
                rank = rank + 1;
            }
            pn = pn - 1;
        }
        tn = tn - 1;
    }
    rank
}

/// Stores the strengths of the ten straights that are no flushes, from the ace-high
/// straight down to the wheel.
fn generate_straights(map: &mut HashMap<u32, u16>, rank: u16) -> (r: u16)
    requires
        rank == 1600,
    ensures
        forall|v: int| 1600 <= v < 1610 ==> strength_given(v),
        forall|key: int| held(final(map)@).contains_key(key) ==> held(old(map)@).contains_key(key) || is_class_key(key),
        r == 1610,
        forall|a: int, b: int, c: int, d: int, e: int|
            sorted5(a, b, c, d, e) && shape_of(a, b, c, d, e) is Straight ==> holds_class(
                held(final(map)@),
                a,
                b,
                c,
                d,
                e,
            ),
        forall|a: int, b: int, c: int, d: int, e: int|
            sorted5(a, b, c, d, e) && !(shape_of(a, b, c, d, e) is Straight) ==> same_at(
                held(final(map)@),
                held(old(map)@),
                a,
                b,
                c,
                d,
                e,
            ),
{
    let mut rank = rank;
    let mut hn: usize = 13;
    while hn > 4
        invariant
            4 <= hn <= 13,
            forall|v: int| 1600 <= v < rank ==> strength_given(v),
            forall|key: int| held(map@).contains_key(key) ==> held(old(map)@).contains_key(key) || is_class_key(key),
            rank == 1600 + (13 - hn),
            forall|a: int, b: int, c: int, d: int, e: int|
                sorted5(a, b, c, d, e) && shape_of(a, b, c, d, e) is Straight && a - e == 4 && a
                    >= hn ==> holds_class(held(map@), a, b, c, d, e),
            forall|a: int, b: int, c: int, d: int, e: int|
                sorted5(a, b, c, d, e) && !(shape_of(a, b, c, d, e) is Straight) ==> same_at(
                    held(map@),
                    held(old(map)@),
                    a,
                    b,
                    c,
                    d,
                    e,
                ),
        decreases hn,
    {
        let h = hn - 1;
        let key = hand_key(h, h - 1, h - 2, h - 3, h - 4);
        let ghost before = held(map@);
        proof {
            lemma_put_class(before, rank, h as int, h - 1, h - 2, h - 3, h - 4);
            assert(class_strength(h as int, h - 1, h - 2, h - 3, h - 4) == rank);
        }
        store(map, key, rank);
        rank = rank + 1;
        hn = hn - 1;
    }
    let key = hand_key(12, 3, 2, 1, 0);
    let ghost before = held(map@);
    proof {
        lemma_put_class(before, rank, 12, 3, 2, 1, 0);
        assert(class_strength(12, 3, 2, 1, 0) == rank);
    }
    store(map, key, rank);
    rank + 1
}

/// The rank of which a hand of the shape three of a kind holds three.
pub open spec fn trips_rank(a: int, b: int, c: int, d: int, e: int) -> int {
    if a == c {
        a
    } else if b == d {
        b
    } else {
        c
    }
}

/// The higher kicker of a hand of the shape three of a kind.
pub open spec fn trips_high(a: int, b: int, c: int, d: int, e: int) -> int {
    if a == c {
        d
    } else {
        a
    }
}

/// The lower kicker of a hand of the shape three of a kind.
pub open spec fn trips_low(a: int, b: int, c: int, d: int, e: int) -> int {
    if c == e {
        b
    } else {
        e
    }
}

/// Stores the strengths of all hands with three of a kind: for each rank of the three from
/// the ace down, each pair of kickers, the highest kickers first.
fn generate_three_of_kind(map: &mut HashMap<u32, u16>, rank: u16) -> (r: u16)
    requires
        rank == 1610,
    ensures
        forall|v: int| 1610 <= v < 2468 ==> strength_given(v),
        forall|key: int| held(final(map)@).contains_key(key) ==> held(old(map)@).contains_key(key) || is_class_key(key),
        r == 2468,
        forall|a: int, b: int, c: int, d: int, e: int|
            sorted5(a, b, c, d, e) && shape_of(a, b, c, d, e) is Trips ==> holds_class(
                held(final(map)@),
                a,
                b,
                c,
                d,
                e,
            ),
        forall|a: int, b: int, c: int, d: int, e: int|
            sorted5(a, b, c, d, e) && !(shape_of(a, b, c, d, e) is Trips) ==> same_at(
                held(final(map)@),
                held(old(map)@),
                a,
                b,
                c,
                d,
                e,
            ),
{
    let mut rank = rank;
    let mut tn: usize = 13;
    proof {
        lemma_binom_values();
    }
    while tn > 0
        invariant
            tn <= 13,
            forall|v: int| 1610 <= v < rank ==> strength_given(v),
            forall|key: int| held(map@).contains_key(key) ==> held(old(map)@).contains_key(key) || is_class_key(key),
            binom(12, 2) == 66,
            rank == 1610 + (13 - tn) * 66,
            forall|a: int, b: int, c: int, d: int, e: int|
                sorted5(a, b, c, d, e) && shape_of(a, b, c, d, e) is Trips && trips_rank(
                    a,
                    b,
                    c,
                    d,
                    e,
                ) >= tn ==> holds_class(held(map@), a, b, c, d, e),
            forall|a: int, b: int, c: int, d: int, e: int|
                sorted5(a, b, c, d, e) && !(shape_of(a, b, c, d, e) is Trips) ==> same_at(
                    held(map@),
                    held(old(map)@),
                    a,
                    b,
                    c,
                    d,
                    e,
                ),
        decreases tn,
    {
        let t = tn - 1;
        let mut hn: usize = 13;
        while hn > 0
            invariant
                hn <= 13,
                t < 13,
                tn == t + 1,
                forall|v: int| 1610 <= v < rank ==> strength_given(v),
                forall|key: int| held(map@).contains_key(key) ==> held(old(map)@).contains_key(key) || is_class_key(key),
                binom(12, 2) == 66,
                rank == 1610 + (12 - t) * 66 + 66 - binom(index_without(hn as int, t as int) as nat, 2),
                forall|a: int, b: int, c: int, d: int, e: int|
                    sorted5(a, b, c, d, e) && shape_of(a, b, c, d, e) is Trips && (trips_rank(
                        a,
                        b,
                        c,
                        d,
                        e,
                    ) > t || (trips_rank(a, b, c, d, e) == t && trips_high(a, b, c, d, e) >= hn))
                        ==> holds_class(held(map@), a, b, c, d, e),
                forall|a: int, b: int, c: int, d: int, e: int|
                    sorted5(a, b, c, d, e) && !(shape_of(a, b, c, d, e) is Trips) ==> same_at(
                        held(map@),
                        held(old(map)@),
                        a,
                        b,
                        c,
                        d,
                        e,
                    ),
            decreases hn,
        {
            let h = hn - 1;
            if h != t {
                let ghost hb = index_without(h as int, t as int);
                proof {
                    lemma_binom_one(hb as nat);
                    assert(index_without(hn as int, t as int) == hb + 1);
                    assert(binom((hb + 1) as nat, 2) == binom(hb as nat, 1) + binom(hb as nat, 2));
                }
                let mut ln: usize = h;
                while ln > 0
                    invariant
                        ln <= h,
                        h < 13,
                        t < 13,
                        h != t,
                        tn == t + 1,
                        hn == h + 1,
                        hb == index_without(h as int, t as int),
                        forall|v: int| 1610 <= v < rank ==> strength_given(v),
                        forall|key: int| held(map@).contains_key(key) ==> held(old(map)@).contains_key(key) || is_class_key(key),
                        rank == 1610 + (12 - t) * 66 + 66 - binom((hb + 1) as nat, 2) + hb
                            - index_without(ln as int, t as int),
                        binom((hb + 1) as nat, 2) == hb + binom(hb as nat, 2),
                        forall|a: int, b: int, c: int, d: int, e: int|
                            sorted5(a, b, c, d, e) && shape_of(a, b, c, d, e) is Trips && (
                            trips_rank(a, b, c, d, e) > t || (trips_rank(a, b, c, d, e) == t && (
                            trips_high(a, b, c, d, e) > h || (trips_high(a, b, c, d, e) == h
                                && trips_low(a, b, c, d, e) >= ln)))) ==> holds_class(
                                held(map@),
                                a,
                                b,
                                c,
                                d,
                                e,
                            ),
                        forall|a: int, b: int, c: int, d: int, e: int|
                            sorted5(a, b, c, d, e) && !(shape_of(a, b, c, d, e) is Trips)
                                ==> same_at(held(map@), held(old(map)@), a, b, c, d, e),
                    decreases ln,
                {
                    let l = ln - 1;
                    if l != t {
                        let key = hand_key(t, t, t, h, l);
                        let ghost before = held(map@);
                        proof {
                            let ti = t as int;
                            let hi = h as int;
                            let li = l as int;
                            lemma_key_orders(ti, hi, li, 0);
                            if t > h {
                                lemma_put_class(before, rank, ti, ti, ti, hi, li);
                            } else if t > l {
                                lemma_put_class(before, rank, hi, ti, ti, ti, li);
                            } else {
                                lemma_put_class(before, rank, hi, li, ti, ti, ti);
                            }
                            assert(rank == trips_strength(ti, hi, li));
                        }
                        store(map, key, rank);
                        rank = rank + 1;
                    }
                    ln = ln - 1;
                }
            }
            hn = hn - 1;
        }
        tn = tn - 1;
    }
    rank
}



/// The higher pair of a hand of the shape two pair.
pub open spec fn two_pair_high(a: int, b: int, c: int, d: int, e: int) -> int {
    if a == b {
        a
    } else {
        b
    }
}

/// The lower pair of a hand of the shape two pair.
pub open spec fn two_pair_low(a: int, b: int, c: int, d: int, e: int) -> int {
    if c == d && a == b {
        c
    } else {
        d
    }
}

/// The kicker of a hand of the shape two pair.
pub open spec fn two_pair_kicker(a: int, b: int, c: int, d: int, e: int) -> int {
    if a != b {
        a
    } else if c == d {
        e
    } else {
        c
    }
}

/// Stores the strengths of all hands with two pair: for each two ranks of the pairs, the
/// highest pairs first, each kicker from the ace down.
fn generate_two_pair(map: &mut HashMap<u32, u16>, rank: u16) -> (r: u16)
    requires
        rank == 2468,
    ensures
        forall|v: int| 2468 <= v < 3326 ==> strength_given(v),
        forall|key: int| held(final(map)@).contains_key(key) ==> held(old(map)@).contains_key(key) || is_class_key(key),
        r == 3326,
        forall|a: int, b: int, c: int, d: int, e: int|
            sorted5(a, b, c, d, e) && shape_of(a, b, c, d, e) is TwoPair ==> holds_class(
                held(final(map)@),
                a,
                b,
                c,
                d,
                e,
            ),
        forall|a: int, b: int, c: int, d: int, e: int|
            sorted5(a, b, c, d, e) && !(shape_of(a, b, c, d, e) is TwoPair) ==> same_at(
                held(final(map)@),
                held(old(map)@),
                a,
                b,
                c,
                d,
                e,
            ),
{
    let mut rank = rank;
    let mut hn: usize = 13;
    proof {
        lemma_binom_values();
    }
    while hn > 0
        invariant
            hn <= 13,
            forall|v: int| 2468 <= v < rank ==> strength_given(v),
            forall|key: int| held(map@).contains_key(key) ==> held(old(map)@).contains_key(key) || is_class_key(key),
            binom(13, 2) == 78,
            rank == 2468 + (78 - binom(hn as nat, 2)) * 11,
            forall|a: int, b: int, c: int, d: int, e: int|
                sorted5(a, b, c, d, e) && shape_of(a, b, c, d, e) is TwoPair && two_pair_high(
                    a,
                    b,
                    c,
                    d,
                    e,
                ) >= hn ==> holds_class(held(map@), a, b, c, d, e),
            forall|a: int, b: int, c: int, d: int, e: int|
                sorted5(a, b, c, d, e) && !(shape_of(a, b, c, d, e) is TwoPair) ==> same_at(
                    held(map@),
                    held(old(map)@),
                    a,
                    b,
                    c,
                    d,
                    e,
                ),
        decreases hn,
    {
        let h = hn - 1;
        proof {
            lemma_binom_one(h as nat);
            assert(binom(hn as nat, 2) == binom(h as nat, 1) + binom(h as nat, 2));
        }
        let mut ln: usize = h;
        while ln > 0
            invariant
                ln <= h,
                h < 13,
                hn == h + 1,
                forall|v: int| 2468 <= v < rank ==> strength_given(v),
                forall|key: int| held(map@).contains_key(key) ==> held(old(map)@).contains_key(key) || is_class_key(key),
                binom(hn as nat, 2) == h + binom(h as nat, 2),
                rank == 2468 + (78 - binom(hn as nat, 2) + (h - ln)) * 11,
                forall|a: int, b: int, c: int, d: int, e: int|
                    sorted5(a, b, c, d, e) && shape_of(a, b, c, d, e) is TwoPair && (two_pair_high(
                        a,
                        b,
                        c,
                        d,
                        e,
                    ) > h || (two_pair_high(a, b, c, d, e) == h && two_pair_low(a, b, c, d, e)
                        >= ln)) ==> holds_class(held(map@), a, b, c, d, e),
                forall|a: int, b: int, c: int, d: int, e: int|
                    sorted5(a, b, c, d, e) && !(shape_of(a, b, c, d, e) is TwoPair) ==> same_at(
                        held(map@),
                        held(old(map)@),
                        a,
                        b,
                        c,
                        d,
                        e,
                    ),
            decreases ln,
        {
            let l = ln - 1;
            let mut kn: usize = 13;
            while kn > 0
                invariant
                    kn <= 13,
                    l < h < 13,
                    hn == h + 1,
                    ln == l + 1,
                    forall|v: int| 2468 <= v < rank ==> strength_given(v),
                    forall|key: int| held(map@).contains_key(key) ==> held(old(map)@).contains_key(key) || is_class_key(key),
                    binom(hn as nat, 2) == h + binom(h as nat, 2),
                    rank == 2468 + (77 - (binom(h as nat, 2) + l)) * 11 + (13 - kn) - (if h >= kn {
                        1int
                    } else {
                        0int
                    }) - (if l >= kn {
                        1int
                    } else {
                        0int
                    }),
                    forall|a: int, b: int, c: int, d: int, e: int|
                        sorted5(a, b, c, d, e) && shape_of(a, b, c, d, e) is TwoPair && (
                        two_pair_high(a, b, c, d, e) > h || (two_pair_high(a, b, c, d, e) == h && (
                        two_pair_low(a, b, c, d, e) > l || (two_pair_low(a, b, c, d, e) == l
                            && two_pair_kicker(a, b, c, d, e) >= kn)))) ==> holds_class(
                            held(map@),
                            a,
                            b,
                            c,
                            d,
                            e,
                        ),
                    forall|a: int, b: int, c: int, d: int, e: int|
                        sorted5(a, b, c, d, e) && !(shape_of(a, b, c, d, e) is TwoPair)
                            ==> same_at(held(map@), held(old(map)@), a, b, c, d, e),
                decreases kn,
            {
                let k = kn - 1;
                if k != h && k != l {
                    let key = hand_key(h, h, l, l, k);
                    let ghost before = held(map@);
                    proof {
                        let hi = h as int;
                        let li = l as int;
                        let ki = k as int;
                        lemma_key_orders(hi, li, ki, 0);
                        if k < l {
                            lemma_put_class(before, rank, hi, hi, li, li, ki);
                        } else if k < h {
                            lemma_put_class(before, rank, hi, hi, ki, li, li);
                        } else {
                            lemma_put_class(before, rank, ki, hi, hi, li, li);
                        }
                        assert(rank == two_pair_strength(hi, li, ki));
                    }
                    store(map, key, rank);
                    rank = rank + 1;
                }
                kn = kn - 1;
            }
            ln = ln - 1;
        }
        hn = hn - 1;
    }
    rank
}

/// The rank of the pair of a hand of the shape one pair.
pub open spec fn pair_rank(a: int, b: int, c: int, d: int, e: int) -> int {
    if a == b {
        a
    } else if b == c {
        b
    } else {
        d
    }
}

/// The highest kicker of a hand of the shape one pair.
pub open spec fn pair_first(a: int, b: int, c: int, d: int, e: int) -> int {
    if a == b {
        c
    } else {
        a
    }
}

/// The middle kicker of a hand of the shape one pair.
pub open spec fn pair_second(a: int, b: int, c: int, d: int, e: int) -> int {
    if a == b || b == c {
        d
    } else {
        b
    }
}

/// The lowest kicker of a hand of the shape one pair.
pub open spec fn pair_third(a: int, b: int, c: int, d: int, e: int) -> int {
    if d == e {
        c
    } else {
        e
    }
}

/// Stores the strengths of all hands with one pair: for each rank of the pair from the ace
/// down, each three kickers, the highest kickers first.
#[verifier::rlimit(60)]
fn generate_one_pair(map: &mut HashMap<u32, u16>, rank: u16) -> (r: u16)
    requires
        rank == 3326,
    ensures
        forall|v: int| 3326 <= v < 6186 ==> strength_given(v),
        forall|key: int| held(final(map)@).contains_key(key) ==> held(old(map)@).contains_key(key) || is_class_key(key),
        r == 6186,
        forall|a: int, b: int, c: int, d: int, e: int|
            sorted5(a, b, c, d, e) && shape_of(a, b, c, d, e) is Pair ==> holds_class(
                held(final(map)@),
                a,
                b,
                c,
                d,
                e,
            ),
        forall|a: int, b: int, c: int, d: int, e: int|
            sorted5(a, b, c, d, e) && !(shape_of(a, b, c, d, e) is Pair) ==> same_at(
                held(final(map)@),
                held(old(map)@),
                a,
                b,
                c,
                d,
                e,
            ),
{
    let mut rank = rank;
    let mut pn: usize = 13;
    proof {
        lemma_binom_values();
    }
    while pn > 0
        invariant
            pn <= 13,
            forall|v: int| 3326 <= v < rank ==> strength_given(v),
            forall|key: int| held(map@).contains_key(key) ==> held(old(map)@).contains_key(key) || is_class_key(key),
            binom(12, 3) == 220,
            rank == 3326 + (13 - pn) * 220,
            forall|a: int, b: int, c: int, d: int, e: int|
                sorted5(a, b, c, d, e) && shape_of(a, b, c, d, e) is Pair && pair_rank(
                    a,
                    b,
                    c,
                    d,
                    e,
                ) >= pn ==> holds_class(held(map@), a, b, c, d, e),
            forall|a: int, b: int, c: int, d: int, e: int|
                sorted5(a, b, c, d, e) && !(shape_of(a, b, c, d, e) is Pair) ==> same_at(
                    held(map@),
                    held(old(map)@),
                    a,
                    b,
                    c,
                    d,
                    e,
                ),
        decreases pn,
    {
        let p = pn - 1;
        let mut xn: usize = 13;
        while xn > 0
            invariant
                xn <= 13,
                p < 13,
                pn == p + 1,
                forall|v: int| 3326 <= v < rank ==> strength_given(v),
                forall|key: int| held(map@).contains_key(key) ==> held(old(map)@).contains_key(key) || is_class_key(key),
                binom(12, 3) == 220,
                rank == 3326 + (12 - p) * 220 + 220 - binom(index_without(xn as int, p as int) as nat, 3),
                forall|a: int, b: int, c: int, d: int, e: int|
                    sorted5(a, b, c, d, e) && shape_of(a, b, c, d, e) is Pair && (pair_rank(
                        a,
                        b,
                        c,
                        d,
                        e,
                    ) > p || (pair_rank(a, b, c, d, e) == p && pair_first(a, b, c, d, e) >= xn))
                        ==> holds_class(held(map@), a, b, c, d, e),
                forall|a: int, b: int, c: int, d: int, e: int|
                    sorted5(a, b, c, d, e) && !(shape_of(a, b, c, d, e) is Pair) ==> same_at(
                        held(map@),
                        held(old(map)@),
                        a,
                        b,
                        c,
                        d,
                        e,
                    ),
            decreases xn,
        {
            let x = xn - 1;
            if x != p {
                let ghost xb = index_without(x as int, p as int);
                proof {
                    assert(index_without(xn as int, p as int) == xb + 1);
                    assert(binom((xb + 1) as nat, 3) == binom(xb as nat, 2) + binom(xb as nat, 3));
                }
                let mut yn: usize = x;
                while yn > 0
                    invariant
                        yn <= x,
                        x < 13,
                        p < 13,
                        x != p,
                        pn == p + 1,
                        xn == x + 1,
                        xb == index_without(x as int, p as int),
                        forall|v: int| 3326 <= v < rank ==> strength_given(v),
                        forall|key: int| held(map@).contains_key(key) ==> held(old(map)@).contains_key(key) || is_class_key(key),
                        binom((xb + 1) as nat, 3) == binom(xb as nat, 2) + binom(xb as nat, 3),
                        rank == 3326 + (12 - p) * 220 + 220 - binom((xb + 1) as nat, 3) + binom(
                            xb as nat,
                            2,
                        ) - binom(index_without(yn as int, p as int) as nat, 2),
                        forall|a: int, b: int, c: int, d: int, e: int|
                            sorted5(a, b, c, d, e) && shape_of(a, b, c, d, e) is Pair && (pair_rank(
                                a,
                                b,
                                c,
                                d,
                                e,
                            ) > p || (pair_rank(a, b, c, d, e) == p && (pair_first(a, b, c, d, e)
                                > x || (pair_first(a, b, c, d, e) == x && pair_second(
                                a,
                                b,
                                c,
                                d,
                                e,
                            ) >= yn)))) ==> holds_class(held(map@), a, b, c, d, e),
                        forall|a: int, b: int, c: int, d: int, e: int|
                            sorted5(a, b, c, d, e) && !(shape_of(a, b, c, d, e) is Pair)
                                ==> same_at(held(map@), held(old(map)@), a, b, c, d, e),
                    decreases yn,
                {
                    let y = yn - 1;
                    if y != p {
                        let ghost yb = index_without(y as int, p as int);
                        proof {
                            lemma_binom_one(yb as nat);
                            assert(index_without(yn as int, p as int) == yb + 1);
                            assert(binom((yb + 1) as nat, 2) == binom(yb as nat, 1) + binom(
                                yb as nat,
                                2,
                            ));
                        }
                        let mut zn: usize = y;
                        while zn > 0
                            invariant
                                zn <= y,
                                y < x < 13,
                                p < 13,
                                x != p,
                                y != p,
                                pn == p + 1,
                                xn == x + 1,
                                yn == y + 1,
                                xb == index_without(x as int, p as int),
                                yb == index_without(y as int, p as int),
                                forall|v: int| 3326 <= v < rank ==> strength_given(v),
                                forall|key: int| held(map@).contains_key(key) ==> held(old(map)@).contains_key(key) || is_class_key(key),
                                binom((yb + 1) as nat, 2) == yb + binom(yb as nat, 2),
                                binom((xb + 1) as nat, 3) == binom(xb as nat, 2) + binom(
                                    xb as nat,
                                    3,
                                ),
                                rank == 3326 + (12 - p) * 220 + 220 - binom((xb + 1) as nat, 3)
                                    + binom(xb as nat, 2) - binom((yb + 1) as nat, 2) + yb
                                    - index_without(zn as int, p as int),
                                forall|a: int, b: int, c: int, d: int, e: int|
                                    sorted5(a, b, c, d, e) && shape_of(a, b, c, d, e) is Pair && (
                                    pair_rank(a, b, c, d, e) > p || (pair_rank(a, b, c, d, e) == p
                                        && (pair_first(a, b, c, d, e) > x || (pair_first(
                                        a,
                                        b,
                                        c,
                                        d,
                                        e,
                                    ) == x && (pair_second(a, b, c, d, e) > y || (pair_second(
                                        a,
                                        b,
                                        c,
                                        d,
                                        e,
                                    ) == y && pair_third(a, b, c, d, e) >= zn))))))
                                        ==> holds_class(held(map@), a, b, c, d, e),
                                forall|a: int, b: int, c: int, d: int, e: int|
                                    sorted5(a, b, c, d, e) && !(shape_of(a, b, c, d, e) is Pair)
                                        ==> same_at(held(map@), held(old(map)@), a, b, c, d, e),
                            decreases zn,
                        {
                            let z = zn - 1;
                            if z != p {
                                let key = hand_key(p, p, x, y, z);
                                let ghost before = held(map@);
                                proof {
                                    let pi = p as int;
                                    let xi = x as int;
                                    let yi = y as int;
                                    let zi = z as int;
                                    lemma_key_orders(pi, xi, yi, zi);
                                    if p > x {
                                        lemma_put_class(before, rank, pi, pi, xi, yi, zi);
                                    } else if p > y {
                                        lemma_put_class(before, rank, xi, pi, pi, yi, zi);
                                    } else if p > z {
                                        lemma_put_class(before, rank, xi, yi, pi, pi, zi);
                                    } else {
                                        lemma_put_class(before, rank, xi, yi, zi, pi, pi);
                                    }
                                    assert(rank == pair_strength(pi, xi, yi, zi));
                                }
                                store(map, key, rank);
                                rank = rank + 1;
                            }
                            zn = zn - 1;
                        }
                    }
                    yn = yn - 1;
                }
            }
            xn = xn - 1;
        }
        pn = pn - 1;
    }
    rank
}



/// For five different ranks, the highest first, the straight test on the list of ranks is
/// the straight test on the five.
pub proof fn lemma_straight_pattern(a: int, b: int, c: int, d: int, e: int, ranks: Seq<usize>)
    requires
        strict5(a, b, c, d, e),
        ranks.len() == 5,
        ranks[0] == e,
        ranks[1] == d,
        ranks[2] == c,
        ranks[3] == b,
        ranks[4] == a,
    ensures
        is_straight_ranks(ranks) == is_straight5(a, b, c, d, e),
{
    if a - e == 4 {
        assert(within_five(ranks, e));
    }
    if is_straight_ranks(ranks) && !is_straight5(a, b, c, d, e) {
        if exists|low: int| #[trigger] within_five(ranks, low) {
            let low = choose|low: int| #[trigger] within_five(ranks, low);
            assert(low <= ranks[0] <= low + 4);
            assert(low <= ranks[4] <= low + 4);
        } else {
            assert(ranks[0] == 0 || ranks[0] == 1 || ranks[0] == 2 || ranks[0] == 3 || ranks[0]
                == 12);
            assert(ranks[1] == 0 || ranks[1] == 1 || ranks[1] == 2 || ranks[1] == 3 || ranks[1]
                == 12);
            assert(ranks[2] == 0 || ranks[2] == 1 || ranks[2] == 2 || ranks[2] == 3 || ranks[2]
                == 12);
            assert(ranks[3] == 0 || ranks[3] == 1 || ranks[3] == 2 || ranks[3] == 3 || ranks[3]
                == 12);
            assert(ranks[4] == 0 || ranks[4] == 1 || ranks[4] == 2 || ranks[4] == 3 || ranks[4]
                == 12);
        }
    }
}

/// The straights among the hands whose highest rank is at least `an`.
pub open spec fn seen_a(an: int) -> int {
    (if an <= 4 {
        9
    } else {
        13 - an
    }) + if an <= 12 {
        1int
    } else {
        0int
    }
}

/// The straights among the hands with the highest rank `a` and a second rank of at least
/// `bn`.
pub open spec fn seen_b(a: int, bn: int) -> int {
    (if a >= 4 && bn <= a - 1 {
        1int
    } else {
        0int
    }) + if a == 12 && bn <= 3 {
        1int
    } else {
        0int
    }
}

/// The straights among the hands that start with `a`, `b` and have a third rank of at least
/// `cn`.
pub open spec fn seen_c(a: int, b: int, cn: int) -> int {
    (if a >= 4 && b == a - 1 && cn <= a - 2 {
        1int
    } else {
        0int
    }) + if a == 12 && b == 3 && cn <= 2 {
        1int
    } else {
        0int
    }
}

/// The straights among the hands that start with `a`, `b`, `c` and have a fourth rank of
/// at least `dn`.
pub open spec fn seen_d(a: int, b: int, c: int, dn: int) -> int {
    (if a >= 4 && b == a - 1 && c == a - 2 && dn <= a - 3 {
        1int
    } else {
        0int
    }) + if a == 12 && b == 3 && c == 2 && dn <= 1 {
        1int
    } else {
        0int
    }
}

/// The straights among the hands that start with `a`, `b`, `c`, `d` and have a last rank
/// of at least `en`.
pub open spec fn seen_e(a: int, b: int, c: int, d: int, en: int) -> int {
    (if a >= 4 && b == a - 1 && c == a - 2 && d == a - 3 && en <= a - 4 {
        1int
    } else {
        0int
    }) + if a == 12 && b == 3 && c == 2 && d == 1 && en <= 0 {
        1int
    } else {
        0int
    }
}

/// The hands of a list up to `len` are hands of five different ranks that are no straights,
/// each at the place of its ordinal.
pub open spec fn listed_in_order(list: Seq<[usize; 5]>, len: int) -> bool {
    forall|i: int|
        0 <= i < len ==> {
            let h = #[trigger] list[i];
            &&& strict5(h[0] as int, h[1] as int, h[2] as int, h[3] as int, h[4] as int)
            &&& !is_straight5(h[0] as int, h[1] as int, h[2] as int, h[3] as int, h[4] as int)
            &&& unpaired_ordinal(h[0] as int, h[1] as int, h[2] as int, h[3] as int, h[4] as int)
                == i
        }
}

/// The list holds the hand of the five given ranks at the place of its ordinal.
pub open spec fn lists(list: Seq<[usize; 5]>, a: int, b: int, c: int, d: int, e: int) -> bool {
    let u = unpaired_ordinal(a, b, c, d, e);
    &&& 0 <= u < list.len()
    &&& list[u][0] == a
    &&& list[u][1] == b
    &&& list[u][2] == c
    &&& list[u][3] == d
    &&& list[u][4] == e
}

/// Lists the 1277 hands of five different ranks that are no straights, each with its
/// highest rank first, from the best (ace, king, queen, jack, nine) to the worst (seven,
/// five, four, three, two).
#[verifier::rlimit(80)]
pub fn unpaired_hands() -> (r: Vec<[usize; 5]>)
    ensures
        r@.len() == 1277,
        listed_in_order(r@, 1277),
        forall|a: int, b: int, c: int, d: int, e: int|
            strict5(a, b, c, d, e) && !is_straight5(a, b, c, d, e) ==> #[trigger] lists(
                r@,
                a,
                b,
                c,
                d,
                e,
            ),
{
    let mut list: Vec<[usize; 5]> = Vec::new();
    proof {
        lemma_binom_values();
    }
    let mut an: usize = 13;
    while an > 0
        invariant
            an <= 13,
            binom(13, 5) == 1287,
            list@.len() == 1287 - binom(an as nat, 5) - seen_a(an as int),
            listed_in_order(list@, list@.len() as int),
            forall|ta: int, tb: int, tc: int, td: int, te: int|
                strict5(ta, tb, tc, td, te) && !is_straight5(ta, tb, tc, td, te) && ta >= an
                    ==> #[trigger] lists(list@, ta, tb, tc, td, te),
        decreases an,
    {
        let a = an - 1;
        assert(binom(an as nat, 5) == binom(a as nat, 4) + binom(a as nat, 5));
        let mut bn: usize = a;
        while bn > 0
            invariant
                bn <= a < 13,
                list@.len() == 1287 - binom(a as nat, 5) - binom(bn as nat, 4) - seen_a(a + 1)
                    - seen_b(a as int, bn as int),
                listed_in_order(list@, list@.len() as int),
                forall|ta: int, tb: int, tc: int, td: int, te: int|
                    strict5(ta, tb, tc, td, te) && !is_straight5(ta, tb, tc, td, te) && (ta > a
                        || (ta == a && tb >= bn)) ==> #[trigger] lists(list@, ta, tb, tc, td, te),
            decreases bn,
        {
            let b = bn - 1;
            assert(binom(bn as nat, 4) == binom(b as nat, 3) + binom(b as nat, 4));
            let mut cn: usize = b;
            while cn > 0
                invariant
                    cn <= b < a < 13,
                    list@.len() == 1287 - binom(a as nat, 5) - binom(b as nat, 4) - binom(
                        cn as nat,
                        3,
                    ) - seen_a(a + 1) - seen_b(a as int, b + 1) - seen_c(a as int, b as int, cn as int),
                    listed_in_order(list@, list@.len() as int),
                    forall|ta: int, tb: int, tc: int, td: int, te: int|
                        strict5(ta, tb, tc, td, te) && !is_straight5(ta, tb, tc, td, te) && (ta > a
                            || (ta == a && (tb > b || (tb == b && tc >= cn)))) ==> #[trigger] lists(
                            list@,
                            ta,
                            tb,
                            tc,
                            td,
                            te,
                        ),
                decreases cn,
            {
                let c = cn - 1;
                assert(binom(cn as nat, 3) == binom(c as nat, 2) + binom(c as nat, 3));
                let mut dn: usize = c;
                while dn > 0
                    invariant
                        dn <= c < b < a < 13,
                        list@.len() == 1287 - binom(a as nat, 5) - binom(b as nat, 4) - binom(
                            c as nat,
                            3,
                        ) - binom(dn as nat, 2) - seen_a(a + 1) - seen_b(a as int, b + 1) - seen_c(
                            a as int,
                            b as int,
                            c + 1,
                        ) - seen_d(a as int, b as int, c as int, dn as int),
                        listed_in_order(list@, list@.len() as int),
                        forall|ta: int, tb: int, tc: int, td: int, te: int|
                            strict5(ta, tb, tc, td, te) && !is_straight5(ta, tb, tc, td, te) && (ta
                                > a || (ta == a && (tb > b || (tb == b && (tc > c || (tc == c && td
                                >= dn)))))) ==> #[trigger] lists(list@, ta, tb, tc, td, te),
                    decreases dn,
                {
                    let d = dn - 1;
                    proof {
                        lemma_binom_one(d as nat);
                        assert(binom(dn as nat, 2) == binom(d as nat, 1) + binom(d as nat, 2));
                    }
                    let mut en: usize = d;
                    while en > 0
                        invariant
                            en <= d < c < b < a < 13,
                            list@.len() == 1287 - binom(a as nat, 5) - binom(b as nat, 4) - binom(
                                c as nat,
                                3,
                            ) - binom(d as nat, 2) - en - seen_a(a + 1) - seen_b(a as int, b + 1)
                                - seen_c(a as int, b as int, c + 1) - seen_d(
                                a as int,
                                b as int,
                                c as int,
                                d + 1,
                            ) - seen_e(a as int, b as int, c as int, d as int, en as int),
                            listed_in_order(list@, list@.len() as int),
                            forall|ta: int, tb: int, tc: int, td: int, te: int|
                                strict5(ta, tb, tc, td, te) && !is_straight5(ta, tb, tc, td, te)
                                    && (ta > a || (ta == a && (tb > b || (tb == b && (tc > c || (tc
                                    == c && (td > d || (td == d && te >= en))))))))
                                    ==> #[trigger] lists(list@, ta, tb, tc, td, te),
                        decreases en,
                    {
                        let e = en - 1;
                        let ranks = [e, d, c, b, a];
                        proof {
                            lemma_straight_pattern(
                                a as int,
                                b as int,
                                c as int,
                                d as int,
                                e as int,
                                ranks@,
                            );
                        }
                        if !is_straight_pattern(ranks.as_slice()) {
                            let ghost before = list@;
                            let hand = [a, b, c, d, e];
                            assert(unpaired_ordinal(a as int, b as int, c as int, d as int, e as int)
                                == list@.len());
                            list.push(hand);
                            proof {
                                assert forall|ta: int, tb: int, tc: int, td: int, te: int|
                                    strict5(ta, tb, tc, td, te) && !is_straight5(ta, tb, tc, td, te)
                                        && (ta > a || (ta == a && (tb > b || (tb == b && (tc > c
                                        || (tc == c && (td > d || (td == d && te >= e))))))))
                                        implies #[trigger] lists(list@, ta, tb, tc, td, te) by {
                                    if ta == a && tb == b && tc == c && td == d && te == e {
                                    } else {
                                        assert(lists(before, ta, tb, tc, td, te));
                                    }
                                }
                            }
                        }
                        en = en - 1;
                    }
                    dn = dn - 1;
                }
                cn = cn - 1;
            }
            bn = bn - 1;
        }
        an = an - 1;
    }
    list
}



/// Stores the strengths of all hands of five different ranks that are no straights, from
/// the best to the worst.
#[verifier::rlimit(40)]
fn generate_high_card(map: &mut HashMap<u32, u16>, rank: u16) -> (r: u16)
    requires
        rank == 6186,
    ensures
        forall|v: int| 6186 <= v < 7463 ==> strength_given(v),
        forall|key: int| held(final(map)@).contains_key(key) ==> held(old(map)@).contains_key(key) || is_class_key(key),
        r == 7463,
        forall|a: int, b: int, c: int, d: int, e: int|
            sorted5(a, b, c, d, e) && shape_of(a, b, c, d, e) is NoPair ==> holds_class(
                held(final(map)@),
                a,
                b,
                c,
                d,
                e,
            ),
        forall|a: int, b: int, c: int, d: int, e: int|
            sorted5(a, b, c, d, e) && !(shape_of(a, b, c, d, e) is NoPair) ==> same_at(
                held(final(map)@),
                held(old(map)@),
                a,
                b,
                c,
                d,
                e,
            ),
{
    let hands = unpaired_hands();
    let mut rank = rank;
    let mut i: usize = 0;
    while i < hands.len()
        invariant
            i <= hands@.len(),
            hands@.len() == 1277,
            listed_in_order(hands@, 1277),
            forall|v: int| 6186 <= v < rank ==> strength_given(v),
            forall|key: int| held(map@).contains_key(key) ==> held(old(map)@).contains_key(key) || is_class_key(key),
            rank == 6186 + i,
            forall|j: int|
                0 <= j < i ==> holds_class(
                    held(map@),
                    (#[trigger] hands@[j])[0] as int,
                    hands@[j][1] as int,
                    hands@[j][2] as int,
                    hands@[j][3] as int,
                    hands@[j][4] as int,
                ),
            forall|a: int, b: int, c: int, d: int, e: int|
                sorted5(a, b, c, d, e) && !(shape_of(a, b, c, d, e) is NoPair) ==> same_at(
                    held(map@),
                    held(old(map)@),
                    a,
                    b,
                    c,
                    d,
                    e,
                ),
        decreases hands@.len() - i,
    {
        let hand = hands[i];
        let ghost w = hands@[i as int];
        assert(strict5(w[0] as int, w[1] as int, w[2] as int, w[3] as int, w[4] as int));
        let key = hand_key(hand[0], hand[1], hand[2], hand[3], hand[4]);
        let ghost before = held(map@);
        proof {
            lemma_put_class(before, rank, w[0] as int, w[1] as int, w[2] as int, w[3] as int, w[4] as int);
            assert(class_strength(w[0] as int, w[1] as int, w[2] as int, w[3] as int, w[4] as int)
                == rank);
        }
        store(map, key, rank);
        proof {
            assert forall|j: int| 0 <= j < i + 1 implies holds_class(
                held(map@),
                (#[trigger] hands@[j])[0] as int,
                hands@[j][1] as int,
                hands@[j][2] as int,
                hands@[j][3] as int,
                hands@[j][4] as int,
            ) by {
                let h = hands@[j];
                assert(strict5(h[0] as int, h[1] as int, h[2] as int, h[3] as int, h[4] as int));
                assert(unpaired_ordinal(h[0] as int, h[1] as int, h[2] as int, h[3] as int, h[4] as int) == j);
                assert(unpaired_ordinal(w[0] as int, w[1] as int, w[2] as int, w[3] as int, w[4] as int) == i);
                if j < i {
                    if key5(h[0] as int, h[1] as int, h[2] as int, h[3] as int, h[4] as int)
                        == key5(w[0] as int, w[1] as int, w[2] as int, w[3] as int, w[4] as int) {
                        lemma_sorted_unique(
                            h[0] as int,
                            h[1] as int,
                            h[2] as int,
                            h[3] as int,
                            h[4] as int,
                            w[0] as int,
                            w[1] as int,
                            w[2] as int,
                            w[3] as int,
                            w[4] as int,
                        );
                    }
                    assert(holds_class(
                        before,
                        h[0] as int,
                        h[1] as int,
                        h[2] as int,
                        h[3] as int,
                        h[4] as int,
                    ));
                } else {
                    assert(h == w);
                }
            }
        }
        rank = rank + 1;
        i = i + 1;
    }
    proof {
        assert forall|a: int, b: int, c: int, d: int, e: int|
            sorted5(a, b, c, d, e) && shape_of(a, b, c, d, e) is NoPair implies holds_class(
            held(map@),
            a,
            b,
            c,
            d,
            e,
        ) by {
            assert(lists(hands@, a, b, c, d, e));
            let u = unpaired_ordinal(a, b, c, d, e);
            let h = hands@[u];
            assert(holds_class(held(map@), h[0] as int, h[1] as int, h[2] as int, h[3] as int, h[4] as int));
        }
    }
    rank
}

/// The set of the five given ranks as a pattern of bits, one bit for each rank.
pub open spec fn mask5(a: int, b: int, c: int, d: int, e: int) -> u32 {
    (1u32 << (a as u32)) | (1u32 << (b as u32)) | (1u32 << (c as u32)) | (1u32 << (d as u32)) | (
    1u32 << (e as u32))
}

/// Two sets of five different ranks with the same pattern of bits are the same set.
proof fn lemma_mask_bits(
    a: u32,
    b: u32,
    c: u32,
    d: u32,
    e: u32,
    a2: u32,
    b2: u32,
    c2: u32,
    d2: u32,
    e2: u32,
)
    by (bit_vector)
    requires
        a < 13,
        a > b,
        b > c,
        c > d,
        d > e,
        a2 < 13,
        a2 > b2,
        b2 > c2,
        c2 > d2,
        d2 > e2,
    ensures
        ((1u32 << a) | (1u32 << b) | (1u32 << c) | (1u32 << d) | (1u32 << e)) < 8192,
        ((1u32 << a) | (1u32 << b) | (1u32 << c) | (1u32 << d) | (1u32 << e)) == ((1u32 << a2) | (
        1u32 << b2) | (1u32 << c2) | (1u32 << d2) | (1u32 << e2)) ==> a == a2 && b == b2 && c
            == c2 && d == d2 && e == e2,
{
}

/// The pattern of a set of five different ranks is below 8192 and belongs to no other set.
pub proof fn lemma_mask_unique(
    a: int,
    b: int,
    c: int,
    d: int,
    e: int,
    a2: int,
    b2: int,
    c2: int,
    d2: int,
    e2: int,
)
    requires
        strict5(a, b, c, d, e),
        strict5(a2, b2, c2, d2, e2),
    ensures
        mask5(a, b, c, d, e) < 8192,
        mask5(a, b, c, d, e) == mask5(a2, b2, c2, d2, e2) ==> a == a2 && b == b2 && c == c2 && d
            == d2 && e == e2,
{
    lemma_mask_bits(
        a as u32,
        b as u32,
        c as u32,
        d as u32,
        e as u32,
        a2 as u32,
        b2 as u32,
        c2 as u32,
        d2 as u32,
        e2 as u32,
    );
}

/// Whether a number is the pattern of some set of five different ranks.
pub open spec fn is_five_mask(index: int) -> bool {
    exists|a: int, b: int, c: int, d: int, e: int|
        strict5(a, b, c, d, e) && #[trigger] mask5(a, b, c, d, e) == index
}

/// The pattern of bits of a hand of five different ranks.
pub fn rank_mask(hand: &[usize; 5]) -> (r: usize)
    requires
        strict5(hand[0] as int, hand[1] as int, hand[2] as int, hand[3] as int, hand[4] as int),
    ensures
        r == mask5(hand[0] as int, hand[1] as int, hand[2] as int, hand[3] as int, hand[4] as int),
        r < 8192,
{
    proof {
        lemma_mask_unique(
            hand[0] as int,
            hand[1] as int,
            hand[2] as int,
            hand[3] as int,
            hand[4] as int,
            hand[0] as int,
            hand[1] as int,
            hand[2] as int,
            hand[3] as int,
            hand[4] as int,
        );
    }
    let a: u32 = hand[0] as u32;
    let b: u32 = hand[1] as u32;
    let c: u32 = hand[2] as u32;
    let d: u32 = hand[3] as u32;
    let e: u32 = hand[4] as u32;
    let bits: u32 = (1u32 << a) | (1u32 << b) | (1u32 << c) | (1u32 << d) | (1u32 << e);
    bits as usize
}

/// Writing the strength of one flush leaves the entries of all other sets of ranks as they
/// were.
proof fn lemma_set_flush(a: int, b: int, c: int, d: int, e: int)
    requires
        strict5(a, b, c, d, e),
    ensures
        mask5(a, b, c, d, e) < 8192,
        is_five_mask(mask5(a, b, c, d, e) as int),
        flush_given(flush_strength(a, b, c, d, e)),
        forall|a2: int, b2: int, c2: int, d2: int, e2: int|
            strict5(a2, b2, c2, d2, e2) ==> (#[trigger] mask5(a2, b2, c2, d2, e2)) < 8192 && (!(a2
                == a && b2 == b && c2 == c && d2 == d && e2 == e) ==> mask5(a2, b2, c2, d2, e2)
                != mask5(a, b, c, d, e)),
{
    lemma_mask_unique(a, b, c, d, e, a, b, c, d, e);
    assert forall|a2: int, b2: int, c2: int, d2: int, e2: int|
        strict5(a2, b2, c2, d2, e2) implies (#[trigger] mask5(a2, b2, c2, d2, e2)) < 8192 && (!(a2
        == a && b2 == b && c2 == c && d2 == d && e2 == e) ==> mask5(a2, b2, c2, d2, e2) != mask5(
        a,
        b,
        c,
        d,
        e,
    )) by {
        lemma_mask_unique(a2, b2, c2, d2, e2, a, b, c, d, e);
    }
}

/// Writes the strengths of the ten straight flushes, from the royal flush down to the
/// wheel, at the patterns of their ranks.
fn generate_straight_flushes(flush_lookup: &mut Vec<u16>, rank: u16) -> (r: u16)
    requires
        old(flush_lookup)@.len() == 8192,
        rank == 1,
    ensures
        final(flush_lookup)@.len() == 8192,
        forall|v: int| 1 <= v < 11 ==> flush_given(v),
        r == 11,
        forall|a: int, b: int, c: int, d: int, e: int|
            strict5(a, b, c, d, e) && is_straight5(a, b, c, d, e) ==> final(flush_lookup)@[mask5(
                a,
                b,
                c,
                d,
                e,
            ) as int] == flush_strength(a, b, c, d, e),
        forall|a: int, b: int, c: int, d: int, e: int|
            strict5(a, b, c, d, e) && !is_straight5(a, b, c, d, e) ==> final(flush_lookup)@[mask5(
                a,
                b,
                c,
                d,
                e,
            ) as int] == old(flush_lookup)@[mask5(a, b, c, d, e) as int],
        forall|index: int|
            0 <= index < 8192 && !is_five_mask(index) ==> final(flush_lookup)@[index] == old(
                flush_lookup,
            )@[index],
{
    let mut rank = rank;
    let mut hn: usize = 13;
    while hn > 4
        invariant
            4 <= hn <= 13,
            flush_lookup@.len() == 8192,
            forall|v: int| 1 <= v < rank ==> flush_given(v),
            rank == 1 + (13 - hn),
            forall|a: int, b: int, c: int, d: int, e: int|
                strict5(a, b, c, d, e) && a - e == 4 && a >= hn ==> flush_lookup@[mask5(
                    a,
                    b,
                    c,
                    d,
                    e,
                ) as int] == flush_strength(a, b, c, d, e),
            forall|a: int, b: int, c: int, d: int, e: int|
                strict5(a, b, c, d, e) && !(a - e == 4 && a >= hn) ==> flush_lookup@[mask5(
                    a,
                    b,
                    c,
                    d,
                    e,
                ) as int] == old(flush_lookup)@[mask5(a, b, c, d, e) as int],
            forall|index: int|
                0 <= index < 8192 && !is_five_mask(index) ==> flush_lookup@[index] == old(
                    flush_lookup,
                )@[index],
        decreases hn,
    {
        let h = hn - 1;
        let hand = [h, h - 1, h - 2, h - 3, h - 4];
        let slot = rank_mask(&hand);
        proof {
            lemma_set_flush(h as int, h - 1, h - 2, h - 3, h - 4);
            assert(flush_strength(h as int, h - 1, h - 2, h - 3, h - 4) == rank);
        }
        flush_lookup.set(slot, rank);
        rank = rank + 1;
        hn = hn - 1;
    }
    let wheel: [usize; 5] = [12, 3, 2, 1, 0];
    let slot = rank_mask(&wheel);
    proof {
        lemma_set_flush(12, 3, 2, 1, 0);
        assert(flush_strength(12, 3, 2, 1, 0) == rank);
    }
    flush_lookup.set(slot, rank);
    rank + 1
}

/// Writes the strengths of the 1277 flushes that are no straights, from the best to the
/// worst, at the patterns of their ranks.
#[verifier::rlimit(40)]
fn generate_flushes(flush_lookup: &mut Vec<u16>, rank: u16) -> (r: u16)
    requires
        old(flush_lookup)@.len() == 8192,
        rank == 323,
    ensures
        final(flush_lookup)@.len() == 8192,
        forall|v: int| 323 <= v < 1600 ==> flush_given(v),
        r == 1600,
        forall|a: int, b: int, c: int, d: int, e: int|
            strict5(a, b, c, d, e) && !is_straight5(a, b, c, d, e) ==> final(flush_lookup)@[mask5(
                a,
                b,
                c,
                d,
                e,
            ) as int] == flush_strength(a, b, c, d, e),
        forall|a: int, b: int, c: int, d: int, e: int|
            strict5(a, b, c, d, e) && is_straight5(a, b, c, d, e) ==> final(flush_lookup)@[mask5(
                a,
                b,
                c,
                d,
                e,
            ) as int] == old(flush_lookup)@[mask5(a, b, c, d, e) as int],
        forall|index: int|
            0 <= index < 8192 && !is_five_mask(index) ==> final(flush_lookup)@[index] == old(
                flush_lookup,
            )@[index],
{
    let hands = unpaired_hands();
    let mut rank = rank;
    let mut i: usize = 0;
    while i < hands.len()
        invariant
            i <= hands@.len(),
            hands@.len() == 1277,
            listed_in_order(hands@, 1277),
            flush_lookup@.len() == 8192,
            forall|v: int| 323 <= v < rank ==> flush_given(v),
            rank == 323 + i,
            forall|j: int|
                0 <= j < i ==> flush_lookup@[mask5(
                    (#[trigger] hands@[j])[0] as int,
                    hands@[j][1] as int,
                    hands@[j][2] as int,
                    hands@[j][3] as int,
                    hands@[j][4] as int,
                ) as int] == 323 + j,
            forall|a: int, b: int, c: int, d: int, e: int|
                strict5(a, b, c, d, e) && is_straight5(a, b, c, d, e) ==> flush_lookup@[mask5(
                    a,
                    b,
                    c,
                    d,
                    e,
                ) as int] == old(flush_lookup)@[mask5(a, b, c, d, e) as int],
            forall|index: int|
                0 <= index < 8192 && !is_five_mask(index) ==> flush_lookup@[index] == old(
                    flush_lookup,
                )@[index],
        decreases hands@.len() - i,
    {
        let hand = hands[i];
        let ghost w = hands@[i as int];
        assert(strict5(w[0] as int, w[1] as int, w[2] as int, w[3] as int, w[4] as int));
        let slot = rank_mask(&hand);
        let ghost before = flush_lookup@;
        proof {
            lemma_set_flush(w[0] as int, w[1] as int, w[2] as int, w[3] as int, w[4] as int);
            assert(flush_strength(w[0] as int, w[1] as int, w[2] as int, w[3] as int, w[4] as int)
                == rank);
        }
        flush_lookup.set(slot, rank);
        proof {
            assert forall|j: int| 0 <= j < i + 1 implies flush_lookup@[mask5(
                (#[trigger] hands@[j])[0] as int,
                hands@[j][1] as int,
                hands@[j][2] as int,
                hands@[j][3] as int,
                hands@[j][4] as int,
            ) as int] == 323 + j by {
                let h = hands@[j];
                assert(strict5(h[0] as int, h[1] as int, h[2] as int, h[3] as int, h[4] as int));
                assert(unpaired_ordinal(h[0] as int, h[1] as int, h[2] as int, h[3] as int, h[4] as int) == j);
                assert(unpaired_ordinal(w[0] as int, w[1] as int, w[2] as int, w[3] as int, w[4] as int) == i);
                let mj = mask5(h[0] as int, h[1] as int, h[2] as int, h[3] as int, h[4] as int);
                assert(mj < 8192);
                if j < i {
                    assert(mj != slot);
                    assert(flush_lookup@[mj as int] == before[mj as int]);
                }
            }
        }
        rank = rank + 1;
        i = i + 1;
    }
    proof {
        assert forall|a: int, b: int, c: int, d: int, e: int|
            strict5(a, b, c, d, e) && !is_straight5(a, b, c, d, e) implies flush_lookup@[mask5(
            a,
            b,
            c,
            d,
            e,
        ) as int] == flush_strength(a, b, c, d, e) by {
            assert(lists(hands@, a, b, c, d, e));
            let u = unpaired_ordinal(a, b, c, d, e);
            let h = hands@[u];
            assert(flush_lookup@[mask5(
                h[0] as int,
                h[1] as int,
                h[2] as int,
                h[3] as int,
                h[4] as int,
            ) as int] == 323 + u);
        }
    }
    rank
}



/// The strength that belongs at a place of the flush table: that of the flush whose ranks
/// have the pattern, and the worst strength at every pattern that is not one of five
/// different ranks.
pub open spec fn flush_entry(index: int) -> int {
    if is_five_mask(index) {
        let (a, b, c, d, e) = choose|a: int, b: int, c: int, d: int, e: int|
            strict5(a, b, c, d, e) && #[trigger] mask5(a, b, c, d, e) == index;
        flush_strength(a, b, c, d, e)
    } else {
        7462
    }
}

/// The strength that belongs to a key of the table of hands that are no flushes: that of
/// the class with the key; none for a number that is the key of no class.
pub open spec fn unique_entry(key: int) -> Option<int> {
    if is_class_key(key) {
        let (a, b, c, d, e) = choose|a: int, b: int, c: int, d: int, e: int|
            sorted5(a, b, c, d, e) && #[trigger] key5(a, b, c, d, e) == key;
        Some(class_strength(a, b, c, d, e))
    } else {
        None
    }
}

/// At the pattern of five different ranks the flush table holds the strength of the flush
/// with those ranks.
pub proof fn lemma_flush_entry(a: int, b: int, c: int, d: int, e: int)
    requires
        strict5(a, b, c, d, e),
    ensures
        0 <= mask5(a, b, c, d, e) < 8192,
        flush_entry(mask5(a, b, c, d, e) as int) == flush_strength(a, b, c, d, e),
{
    let index = mask5(a, b, c, d, e) as int;
    lemma_mask_unique(a, b, c, d, e, a, b, c, d, e);
    assert(is_five_mask(index));
    let (a2, b2, c2, d2, e2) = choose|a2: int, b2: int, c2: int, d2: int, e2: int|
        strict5(a2, b2, c2, d2, e2) && #[trigger] mask5(a2, b2, c2, d2, e2) == index;
    lemma_mask_unique(a, b, c, d, e, a2, b2, c2, d2, e2);
}

/// Under the key of a class the table of hands that are no flushes holds the strength of
/// the class.
pub proof fn lemma_unique_entry(a: int, b: int, c: int, d: int, e: int)
    requires
        sorted5(a, b, c, d, e),
    ensures
        unique_entry(key5(a, b, c, d, e)) == Some(class_strength(a, b, c, d, e)),
{
    let key = key5(a, b, c, d, e);
    assert(is_class_key(key));
    let (a2, b2, c2, d2, e2) = choose|a2: int, b2: int, c2: int, d2: int, e2: int|
        sorted5(a2, b2, c2, d2, e2) && #[trigger] key5(a2, b2, c2, d2, e2) == key;
    lemma_sorted_unique(a, b, c, d, e, a2, b2, c2, d2, e2);
}

/// The strengths of the hands that are no flushes: 11 to 322 and 1600 to 7462.
pub open spec fn unflushed_strengths() -> Set<int> {
    set_int_range(11, 323) + set_int_range(1600, 7463)
}

/// There are 6175 strengths of hands that are no flushes.
pub proof fn lemma_unflushed_strengths()
    ensures
        unflushed_strengths().finite(),
        unflushed_strengths().len() == 6175,
{
    lemma_int_range(11, 323);
    lemma_int_range(1600, 7463);
    assert(set_int_range(11, 323).disjoint(set_int_range(1600, 7463)));
    lemma_set_disjoint_lens(set_int_range(11, 323), set_int_range(1600, 7463));
}

/// A table that holds exactly the keys of the classes of hands that are no flushes, each
/// with the strength of its class, has 6175 keys: the classes and the strengths of hands
/// that are no flushes stand one to one.
pub proof fn lemma_key_count(m: Map<int, u16>)
    requires
        m.dom().finite(),
        forall|key: int| m.contains_key(key) <==> is_class_key(key),
        forall|key: int| is_class_key(key) ==> Some(m[key] as int) == unique_entry(key),
        forall|v: int| 1 <= v <= 7462 ==> strength_given(v) || flush_given(v),
    ensures
        m.dom().len() == 6175,
{
    let strength_at = |key: int| m[key] as int;
    assert(injective_on(strength_at, m.dom())) by {
        assert forall|k1: int, k2: int|
            m.dom().contains(k1) && m.dom().contains(k2) && #[trigger] strength_at(k1)
                == #[trigger] strength_at(k2) implies k1 == k2 by {
            assert(is_class_key(k1) && is_class_key(k2));
            let (a, b, c, d, e) = choose|a: int, b: int, c: int, d: int, e: int|
                sorted5(a, b, c, d, e) && #[trigger] key5(a, b, c, d, e) == k1;
            let (a2, b2, c2, d2, e2) = choose|a2: int, b2: int, c2: int, d2: int, e2: int|
                sorted5(a2, b2, c2, d2, e2) && #[trigger] key5(a2, b2, c2, d2, e2) == k2;
            assert(Some(m[k1] as int) == unique_entry(k1));
            assert(Some(m[k2] as int) == unique_entry(k2));
            lemma_class_strength_unique(a, b, c, d, e, a2, b2, c2, d2, e2);
        }
    }
    assert(m.dom().map(strength_at) =~= unflushed_strengths()) by {
        assert forall|v: int| m.dom().map(strength_at).contains(v) implies unflushed_strengths().contains(
            v,
        ) by {
            let key = choose|key: int| m.dom().contains(key) && v == strength_at(key);
            assert(is_class_key(key));
            let (a, b, c, d, e) = choose|a: int, b: int, c: int, d: int, e: int|
                sorted5(a, b, c, d, e) && #[trigger] key5(a, b, c, d, e) == key;
            assert(Some(m[key] as int) == unique_entry(key));
            lemma_class_strength_range(a, b, c, d, e);
            assert(v == class_strength(a, b, c, d, e));
            assert(HandRank::of_strength(v as u16) == category_of_shape(shape_of(a, b, c, d, e)));
            assert(set_int_range(11, 323).contains(v) || set_int_range(1600, 7463).contains(v));
        }
        assert forall|v: int| unflushed_strengths().contains(v) implies m.dom().map(
            strength_at,
        ).contains(v) by {
            assert(set_int_range(11, 323).contains(v) || set_int_range(1600, 7463).contains(v));
            if flush_given(v) {
                let (a, b, c, d, e) = choose|a: int, b: int, c: int, d: int, e: int|
                    strict5(a, b, c, d, e) && #[trigger] flush_strength(a, b, c, d, e) == v;
                lemma_flush_strength_range(a, b, c, d, e);
            }
            assert(strength_given(v));
            let (a, b, c, d, e) = choose|a: int, b: int, c: int, d: int, e: int|
                sorted5(a, b, c, d, e) && #[trigger] class_strength(a, b, c, d, e) == v;
            let key = key5(a, b, c, d, e);
            lemma_unique_entry(a, b, c, d, e);
            assert(is_class_key(key));
            assert(m.dom().contains(key) && v == strength_at(key));
        }
    }
    lemma_map_size(m.dom(), unflushed_strengths(), strength_at);
    lemma_unflushed_strengths();
}

/// The lookup tables for hand evaluation: the strengths of the flushes by the pattern of
/// their ranks, and the strengths of all other hands by their key.
pub struct HandRankTables {
    flush_lookup: Vec<u16>,
    unique5: StrengthMap,
}

impl HandRankTables {
    /// The tables hold the strength of every class of hands, and nothing else.
    #[verifier::type_invariant]
    pub closed spec fn holds_every_class(self) -> bool {
        &&& self.flush_lookup@.len() == 8192
        &&& forall|index: int| 0 <= index < 8192 ==> self.flush_lookup@[index] == flush_entry(index)
        &&& self.unique5.wf()
        &&& forall|key: int| self.unique5@.contains_key(key) <==> is_class_key(key)
        &&& forall|key: int| is_class_key(key) ==> Some(self.unique5@[key] as int) == unique_entry(key)
        &&& self.unique5.entries_value().len() == 6175
    }

    /// The entries of the table of hands that are no flushes, each a key with its strength,
    /// in the order in which the table holds them.
    pub closed spec fn unique_entries(self) -> Seq<(u32, u16)> {
        self.unique5.entries_value()
    }

    /// The number of keys in the table of hands that are no flushes.
    pub open spec fn unique_count(self) -> nat {
        self.unique_entries().len()
    }

    /// The number of places of the flush table.
    pub closed spec fn flush_count(self) -> nat {
        self.flush_lookup@.len()
    }

    /// What stands at a place of the flush table.
    pub closed spec fn flush_at(self, index: int) -> int {
        self.flush_lookup@[index] as int
    }

    /// What stands under a key in the table of hands that are no flushes; `None` where the
    /// table has no such key.
    pub closed spec fn unique_at(self, key: int) -> Option<int> {
        if self.unique5@.contains_key(key) {
            Some(self.unique5@[key] as int)
        } else {
            None
        }
    }

    /// The tables are complete: the flush table has 8192 places, each of which holds the
    /// strength that belongs there; the other table holds the key of every class of hands
    /// with its strength, and no other key, which makes 6175 entries; and its entries stand
    /// in the strict order of their keys.
    pub open spec fn is_complete(self) -> bool {
        &&& self.flush_count() == 8192
        &&& forall|index: int| 0 <= index < 8192 ==> #[trigger] self.flush_at(index) == flush_entry(index)
        &&& forall|key: int| #[trigger] self.unique_at(key) == unique_entry(key)
        &&& self.unique_count() == 6175
        &&& keys_rise(self.unique_entries())
        &&& forall|i: int|
            0 <= i < self.unique_entries().len() ==> self.unique_at(
                (#[trigger] self.unique_entries()[i]).0 as int,
            ) == Some(self.unique_entries()[i].1 as int)
    }

    /// Builds the tables: the strengths are given out from 1 on, category by category from
    /// the straight flushes down to the hands with no pair, and within a category from the
    /// best hand down. The strengths of the hands that are no flushes are collected in a
    /// hash map and then laid out in the order of their keys.
    pub fn new() -> (r: HandRankTables)
        ensures
            r.is_complete(),
            forall|v: int| 1 <= v <= 7462 ==> strength_given(v) || flush_given(v),
    {
        let mut flush_lookup: Vec<u16> = vec![WORST_RANK; 8192];
        let mut strengths: HashMap<u32, u16> = HashMap::new();
        proof {
            lemma_held_empty();
        }
        let ghost f0 = flush_lookup@;
        let ghost m0 = held(strengths@);
        let mut rank: u16 = 1;
        rank = generate_straight_flushes(&mut flush_lookup, rank);
        let ghost f1 = flush_lookup@;
        rank = generate_four_of_kind(&mut strengths, rank);
        let ghost m1 = held(strengths@);
        rank = generate_full_houses(&mut strengths, rank);
        let ghost m2 = held(strengths@);
        rank = generate_flushes(&mut flush_lookup, rank);
        rank = generate_straights(&mut strengths, rank);
        let ghost m3 = held(strengths@);
        rank = generate_three_of_kind(&mut strengths, rank);
        let ghost m4 = held(strengths@);
        rank = generate_two_pair(&mut strengths, rank);
        let ghost m5 = held(strengths@);
        rank = generate_one_pair(&mut strengths, rank);
        let ghost m6 = held(strengths@);
        rank = generate_high_card(&mut strengths, rank);
        let ghost m7 = held(strengths@);
        let unique5 = sorted_by_key(&strengths);
        proof {
            assert forall|a: int, b: int, c: int, d: int, e: int|
                sorted5(a, b, c, d, e) implies holds_class(m7, a, b, c, d, e) by {
                assert(same_at(m1, m0, a, b, c, d, e) || holds_class(m1, a, b, c, d, e));
                assert(same_at(m2, m1, a, b, c, d, e) || holds_class(m2, a, b, c, d, e));
                assert(same_at(m3, m2, a, b, c, d, e) || holds_class(m3, a, b, c, d, e));
                assert(same_at(m4, m3, a, b, c, d, e) || holds_class(m4, a, b, c, d, e));
                assert(same_at(m5, m4, a, b, c, d, e) || holds_class(m5, a, b, c, d, e));
                assert(same_at(m6, m5, a, b, c, d, e) || holds_class(m6, a, b, c, d, e));
                assert(same_at(m7, m6, a, b, c, d, e) || holds_class(m7, a, b, c, d, e));
            }
            assert forall|key: int| m7.contains_key(key) <==> is_class_key(key) by {
                if is_class_key(key) {
                    let (a, b, c, d, e) = choose|a: int, b: int, c: int, d: int, e: int|
                        sorted5(a, b, c, d, e) && #[trigger] key5(a, b, c, d, e) == key;
                    assert(holds_class(m7, a, b, c, d, e));
                }
                if m7.contains_key(key) && !is_class_key(key) {
                    assert(m6.contains_key(key));
                    assert(m5.contains_key(key));
                    assert(m4.contains_key(key));
                    assert(m3.contains_key(key));
                    assert(m2.contains_key(key));
                    assert(m1.contains_key(key));
                    assert(m0.contains_key(key));
                }
            }
            assert forall|key: int| is_class_key(key) implies Some(m7[key] as int) == unique_entry(
                key,
            ) by {
                let (a, b, c, d, e) = choose|a: int, b: int, c: int, d: int, e: int|
                    sorted5(a, b, c, d, e) && #[trigger] key5(a, b, c, d, e) == key;
                assert(holds_class(m7, a, b, c, d, e));
            }
            assert forall|index: int| 0 <= index < 8192 implies flush_lookup@[index] == flush_entry(
                index,
            ) by {
                if is_five_mask(index) {
                    let (a, b, c, d, e) = choose|a: int, b: int, c: int, d: int, e: int|
                        strict5(a, b, c, d, e) && #[trigger] mask5(a, b, c, d, e) == index;
                    if is_straight5(a, b, c, d, e) {
                        assert(f1[mask5(a, b, c, d, e) as int] == flush_strength(a, b, c, d, e));
                    }
                } else {
                    assert(f1[index] == f0[index]);
                }
            }
        }
        proof {
            unique5.lemma_entries();
            assert forall|v: int| 1 <= v <= 7462 implies strength_given(v) || flush_given(v) by {}
            lemma_key_count(m7);
        }
        let tables = HandRankTables { flush_lookup, unique5 };
        assert(tables.is_complete()) by {
            assert forall|key: int| #[trigger] tables.unique_at(key) == unique_entry(key) by {
                assert(m7.contains_key(key) <==> is_class_key(key));
            }
            tables.unique5.lemma_entries();
            assert forall|i: int| 0 <= i < tables.unique_entries().len() implies tables.unique_at(
                (#[trigger] tables.unique_entries()[i]).0 as int,
            ) == Some(tables.unique_entries()[i].1 as int) by {
                crate::strength_map::lemma_entry_in_map(tables.unique_entries(), i);
            }
        }
        tables
    }

    /// The strength of the flush whose ranks have the given pattern of bits; the worst
    /// strength for a pattern that is not one of five different ranks.
    pub fn lookup_flush(&self, rank_bits: u32) -> (r: u16)
        requires
            rank_bits < 8192,
        ensures
            r == flush_entry(rank_bits as int),
    {
        proof {
            use_type_invariant(self);
        }
        self.flush_lookup[rank_bits as usize]
    }

    /// The strength of the hand that is no flush and has the given key, the product of the
    /// primes of its five ranks; `None` where no hand has the key.
    pub fn lookup_unique(&self, prime_product: u32) -> (r: Option<u16>)
        ensures
            match unique_entry(prime_product as int) {
                Some(strength) => r == Some(strength as u16) && 11 <= strength <= 7462,
                None => r is None,
            },
    {
        proof {
            use_type_invariant(self);
            if is_class_key(prime_product as int) {
                let (a, b, c, d, e) = choose|a: int, b: int, c: int, d: int, e: int|
                    sorted5(a, b, c, d, e) && #[trigger] key5(a, b, c, d, e) == prime_product as int;
                crate::hand_classes::lemma_class_strength_range(a, b, c, d, e);
            }
        }
        self.unique5.get(prime_product)
    }

    /// The number of hands in the table of hands that are no flushes, which is 6175.
    pub fn unique_len(&self) -> (r: usize)
        ensures
            r == self.unique_count(),
            r == 6175,
    {
        proof {
            use_type_invariant(self);
        }
        self.unique5.len()
    }
}

impl Default for HandRankTables {
    fn default() -> (r: HandRankTables) {
        HandRankTables::new()
    }
}

} // verus!
