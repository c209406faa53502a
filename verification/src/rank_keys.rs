//! Keys of five-card hands: the product of the primes of the five ranks.
//!
//! Each rank has a prime number of its own, so the product tells which ranks a hand holds,
//! and how often each, whatever the order of the cards.
use vstd::prelude::*;
use vstd::arithmetic::div_mod::lemma_mod_multiples_basic;
use vstd::arithmetic::div_mod::lemma_mul_mod_noop_general;
use crate::card::prime_of;

verus! {

/// The prime numbers of the thirteen ranks, from two to ace.
pub const PRIMES: [u32; 13] = [2, 3, 5, 7, 11, 13, 17, 19, 23, 29, 31, 37, 41];

/// Whether a number is a rank index: 0 for a two up to 12 for an ace.
pub open spec fn is_rank(r: int) -> bool {
    0 <= r < 13
}

/// The prime number of a rank.
pub open spec fn prime_at(r: int) -> int {
    prime_of(r as u8) as int
}

/// The product of the primes of the given ranks.
pub open spec fn prime_product(ranks: Seq<int>) -> int
    decreases ranks.len(),
{
    if ranks.len() == 0 {
        1
    } else {
        prime_product(ranks.drop_last()) * prime_at(ranks.last())
    }
}

/// How often a rank occurs among the given ranks.
pub open spec fn occurrences(ranks: Seq<int>, x: int) -> int
    decreases ranks.len(),
{
    if ranks.len() == 0 {
        0
    } else {
        occurrences(ranks.drop_last(), x) + if ranks.last() == x {
            1int
        } else {
            0int
        }
    }
}

/// All the numbers of a sequence are rank indexes.
pub open spec fn all_ranks(ranks: Seq<int>) -> bool {
    forall|i: int| 0 <= i < ranks.len() ==> is_rank(#[trigger] ranks[i])
}

/// The key of a hand of five ranks: the product of their primes.
pub open spec fn key5(a: int, b: int, c: int, d: int, e: int) -> int {
    prime_at(a) * prime_at(b) * prime_at(c) * prime_at(d) * prime_at(e)
}

/// How often the rank `x` occurs among five ranks.
pub open spec fn count5(a: int, b: int, c: int, d: int, e: int, x: int) -> int {
    (if a == x {
        1int
    } else {
        0int
    }) + (if b == x {
        1int
    } else {
        0int
    }) + (if c == x {
        1int
    } else {
        0int
    }) + (if d == x {
        1int
    } else {
        0int
    }) + (if e == x {
        1int
    } else {
        0int
    })
}

/// The prime of a rank.
pub fn prime_for(rank: usize) -> (r: u32)
    requires
        rank < 13,
    ensures
        r == prime_at(rank as int),
        2 <= r <= 41,
{
    PRIMES[rank]
}

/// The product of five primes of ranks; it fits 32 bits.
pub fn product5(a: u32, b: u32, c: u32, d: u32, e: u32) -> (r: u32)
    requires
        a <= 41,
        b <= 41,
        c <= 41,
        d <= 41,
        e <= 41,
    ensures
        r == a * b * c * d * e,
{
    assert(a * b <= 1681) by (nonlinear_arith)
        requires
            a <= 41,
            b <= 41,
    ;
    let ab = a * b;
    assert(ab * c <= 68921) by (nonlinear_arith)
        requires
            ab <= 1681,
            c <= 41,
    ;
    let abc = ab * c;
    assert(abc * d <= 2825761) by (nonlinear_arith)
        requires
            abc <= 68921,
            d <= 41,
    ;
    let abcd = abc * d;
    assert(abcd * e <= 115856201) by (nonlinear_arith)
        requires
            abcd <= 2825761,
            e <= 41,
    ;
    abcd * e
}

/// The key of a hand of the five given ranks.
pub fn hand_key(a: usize, b: usize, c: usize, d: usize, e: usize) -> (r: u32)
    requires
        a < 13,
        b < 13,
        c < 13,
        d < 13,
        e < 13,
    ensures
        r == key5(a as int, b as int, c as int, d as int, e as int),
{
    product5(prime_for(a), prime_for(b), prime_for(c), prime_for(d), prime_for(e))
}

/// No product of two numbers below 2 is a multiple of 2.
proof fn lemma_prime_two(x: u32, y: u32)
    by (bit_vector)
    requires
        0 < x < 2,
        0 < y < 2,
    ensures
        (x * y) % 2 != 0,
{
}

/// No product of two numbers below 3 is a multiple of 3.
proof fn lemma_prime_three(x: u32, y: u32)
    by (bit_vector)
    requires
        0 < x < 3,
        0 < y < 3,
    ensures
        (x * y) % 3 != 0,
{
}

/// No product of two numbers below 5 is a multiple of 5.
proof fn lemma_prime_five(x: u32, y: u32)
    by (bit_vector)
    requires
        0 < x < 5,
        0 < y < 5,
    ensures
        (x * y) % 5 != 0,
{
}

/// No product of two numbers below 7 is a multiple of 7.
proof fn lemma_prime_seven(x: u32, y: u32)
    by (bit_vector)
    requires
        0 < x < 7,
        0 < y < 7,
    ensures
        (x * y) % 7 != 0,
{
}

/// No product of two numbers below 11 is a multiple of 11.
proof fn lemma_prime_eleven(x: u32, y: u32)
    by (bit_vector)
    requires
        0 < x < 11,
        0 < y < 11,
    ensures
        (x * y) % 11 != 0,
{
}

/// No product of two numbers below 13 is a multiple of 13.
proof fn lemma_prime_thirteen(x: u32, y: u32)
    by (bit_vector)
    requires
        0 < x < 13,
        0 < y < 13,
    ensures
        (x * y) % 13 != 0,
{
}

/// No product of two numbers below 17 is a multiple of 17.
proof fn lemma_prime_seventeen(x: u32, y: u32)
    by (bit_vector)
    requires
        0 < x < 17,
        0 < y < 17,
    ensures
        (x * y) % 17 != 0,
{
}

/// No product of two numbers below 19 is a multiple of 19.
proof fn lemma_prime_nineteen(x: u32, y: u32)
    by (bit_vector)
    requires
        0 < x < 19,
        0 < y < 19,
    ensures
        (x * y) % 19 != 0,
{
}

/// No product of two numbers below 23 is a multiple of 23.
proof fn lemma_prime_twenty_three(x: u32, y: u32)
    by (bit_vector)
    requires
        0 < x < 23,
        0 < y < 23,
    ensures
        (x * y) % 23 != 0,
{
}

/// No product of two numbers below 29 is a multiple of 29.
proof fn lemma_prime_twenty_nine(x: u32, y: u32)
    by (bit_vector)
    requires
        0 < x < 29,
        0 < y < 29,
    ensures
        (x * y) % 29 != 0,
{
}

/// No product of two numbers below 31 is a multiple of 31.
proof fn lemma_prime_thirty_one(x: u32, y: u32)
    by (bit_vector)
    requires
        0 < x < 31,
        0 < y < 31,
    ensures
        (x * y) % 31 != 0,
{
}

/// No product of two numbers below 37 is a multiple of 37.
proof fn lemma_prime_thirty_seven(x: u32, y: u32)
    by (bit_vector)
    requires
        0 < x < 37,
        0 < y < 37,
    ensures
        (x * y) % 37 != 0,
{
}

/// No product of two numbers below 41 is a multiple of 41.
proof fn lemma_prime_forty_one(x: u32, y: u32)
    by (bit_vector)
    requires
        0 < x < 41,
        0 < y < 41,
    ensures
        (x * y) % 41 != 0,
{
}

/// No product of two positive numbers below the prime of a rank is a multiple of that
/// prime.
proof fn lemma_residues(p: u32, x: u32, y: u32)
    requires
        p == 2 || p == 3 || p == 5 || p == 7 || p == 11 || p == 13 || p == 17 || p == 19 || p == 23 || p == 29 || p == 31 || p == 37 || p == 41,
        0 < x < p,
        0 < y < p,
    ensures
        (x * y) % (p as int) != 0,
{
    if p == 2 {
        lemma_prime_two(x, y);
    }
    if p == 3 {
        lemma_prime_three(x, y);
    }
    if p == 5 {
        lemma_prime_five(x, y);
    }
    if p == 7 {
        lemma_prime_seven(x, y);
    }
    if p == 11 {
        lemma_prime_eleven(x, y);
    }
    if p == 13 {
        lemma_prime_thirteen(x, y);
    }
    if p == 17 {
        lemma_prime_seventeen(x, y);
    }
    if p == 19 {
        lemma_prime_nineteen(x, y);
    }
    if p == 23 {
        lemma_prime_twenty_three(x, y);
    }
    if p == 29 {
        lemma_prime_twenty_nine(x, y);
    }
    if p == 31 {
        lemma_prime_thirty_one(x, y);
    }
    if p == 37 {
        lemma_prime_thirty_seven(x, y);
    }
    if p == 41 {
        lemma_prime_forty_one(x, y);
    }
}

/// The prime of one rank is no multiple of the prime of another.
proof fn lemma_prime_pairs(p: u32, q: u32)
    by (bit_vector)
    requires
        p == 2 || p == 3 || p == 5 || p == 7 || p == 11 || p == 13 || p == 17 || p == 19 || p == 23 || p == 29 || p == 31 || p == 37 || p == 41,
        q == 2 || q == 3 || q == 5 || q == 7 || q == 11 || q == 13 || q == 17 || q == 19 || q == 23 || q == 29 || q == 31 || q == 37 || q == 41,
        p != q,
    ensures
        q % p != 0u32,
{
}

/// Euclid's lemma for the primes of the ranks: a prime that divides a product divides one
/// of the factors.
pub proof fn lemma_euclid(r: int, a: int, b: int)
    requires
        is_rank(r),
        a % prime_at(r) != 0,
        b % prime_at(r) != 0,
    ensures
        (a * b) % prime_at(r) != 0,
{
    let p = prime_at(r);
    lemma_mul_mod_noop_general(a, b, p);
    let x = a % p;
    let y = b % p;
    assert(0 < x < p && 0 < y < p);
    lemma_residues(p as u32, x as u32, y as u32);
    assert(x * y == (x as u32) * (y as u32));
}

/// The prime of one rank does not divide the prime of another.
pub proof fn lemma_distinct_primes(r: int, s: int)
    requires
        is_rank(r),
        is_rank(s),
        r != s,
    ensures
        prime_at(s) % prime_at(r) != 0,
        prime_at(r) != prime_at(s),
{
    lemma_prime_pairs(prime_at(r) as u32, prime_at(s) as u32);
}

/// A prime that divides the product of the primes of some ranks is the prime of one of
/// them.
pub proof fn lemma_divisor_occurs(ranks: Seq<int>, r: int)
    requires
        all_ranks(ranks),
        is_rank(r),
        prime_product(ranks) % prime_at(r) == 0,
    ensures
        occurrences(ranks, r) > 0,
    decreases ranks.len(),
{
    if ranks.len() == 0 {
        assert(1int % prime_at(r) == 1);
    } else {
        let front = ranks.drop_last();
        let last = ranks.last();
        assert(is_rank(ranks[ranks.len() - 1]));
        lemma_occurrences_bounds(front, r);
        if last != r {
            lemma_distinct_primes(r, last);
            if prime_product(front) % prime_at(r) != 0 {
                lemma_euclid(r, prime_product(front), prime_at(last));
            }
            assert(all_ranks(front)) by {
                assert forall|i: int| 0 <= i < front.len() implies is_rank(#[trigger] front[i]) by {
                    assert(front[i] == ranks[i]);
                }
            }
            lemma_divisor_occurs(front, r);
        }
    }
}

/// A rank occurs at most as often as there are ranks, and never a negative number of times.
pub proof fn lemma_occurrences_bounds(ranks: Seq<int>, x: int)
    ensures
        0 <= occurrences(ranks, x) <= ranks.len(),
    decreases ranks.len(),
{
    if ranks.len() > 0 {
        lemma_occurrences_bounds(ranks.drop_last(), x);
    }
}

/// A rank that occurs among some ranks stands at some position.
pub proof fn lemma_occurs_somewhere(ranks: Seq<int>, x: int) -> (j: int)
    requires
        occurrences(ranks, x) > 0,
    ensures
        0 <= j < ranks.len(),
        ranks[j] == x,
    decreases ranks.len(),
{
    if ranks.last() == x {
        ranks.len() - 1
    } else {
        lemma_occurs_somewhere(ranks.drop_last(), x)
    }
}

/// Taking one rank out of a sequence divides the product by its prime and lowers the count
/// of that rank by one.
pub proof fn lemma_remove(ranks: Seq<int>, j: int, x: int)
    requires
        0 <= j < ranks.len(),
    ensures
        prime_product(ranks) == prime_product(ranks.remove(j)) * prime_at(ranks[j]),
        occurrences(ranks, x) == occurrences(ranks.remove(j), x) + if ranks[j] == x {
            1int
        } else {
            0int
        },
    decreases ranks.len(),
{
    if j == ranks.len() - 1 {
        assert(ranks.remove(j) =~= ranks.drop_last());
    } else {
        let front = ranks.drop_last();
        lemma_remove(front, j, x);
        assert(ranks.remove(j).drop_last() =~= front.remove(j));
        assert(ranks.remove(j).last() == ranks.last());
        assert(front[j] == ranks[j]);
        let a = prime_product(front.remove(j));
        let pj = prime_at(ranks[j]);
        let pl = prime_at(ranks.last());
        assert(prime_product(ranks) == (a * pj) * pl);
        assert(prime_product(ranks.remove(j)) == a * pl);
        assert((a * pj) * pl == (a * pl) * pj) by (nonlinear_arith);
    }
}

/// Unique factorisation for hands: two sequences of ranks of one length with the same
/// product of primes hold every rank equally often.
pub proof fn lemma_same_product_same_ranks(s: Seq<int>, u: Seq<int>, x: int)
    requires
        s.len() == u.len(),
        all_ranks(s),
        all_ranks(u),
        prime_product(s) == prime_product(u),
    ensures
        occurrences(s, x) == occurrences(u, x),
    decreases s.len(),
{
    if s.len() > 0 {
        let front = s.drop_last();
        let r = s.last();
        assert(is_rank(s[s.len() - 1]));
        let p = prime_at(r);
        lemma_mod_multiples_basic(prime_product(front), p);
        lemma_divisor_occurs(u, r);
        let j = lemma_occurs_somewhere(u, r);
        lemma_remove(u, j, x);
        let rest = u.remove(j);
        let a = prime_product(front);
        let b = prime_product(rest);
        assert(a == b) by (nonlinear_arith)
            requires
                a * p == b * p,
                p > 0,
        ;
        assert(all_ranks(front)) by {
            assert forall|i: int| 0 <= i < front.len() implies is_rank(#[trigger] front[i]) by {
                assert(front[i] == s[i]);
            }
        }
        assert(all_ranks(rest)) by {
            assert forall|i: int| 0 <= i < rest.len() implies is_rank(#[trigger] rest[i]) by {
                if i < j {
                    assert(rest[i] == u[i]);
                } else {
                    assert(rest[i] == u[i + 1]);
                }
            }
        }
        lemma_same_product_same_ranks(front, rest, x);
    }
}

/// The key and the counts of five ranks are the product and the counts of the sequence
/// that holds them.
pub proof fn lemma_five_as_sequence(a: int, b: int, c: int, d: int, e: int, x: int)
    ensures
        key5(a, b, c, d, e) == prime_product(seq![a, b, c, d, e]),
        count5(a, b, c, d, e, x) == occurrences(seq![a, b, c, d, e], x),
{
    let s5 = seq![a, b, c, d, e];
    let s4 = seq![a, b, c, d];
    let s3 = seq![a, b, c];
    let s2 = seq![a, b];
    let s1 = seq![a];
    let s0 = Seq::<int>::empty();
    assert(s5.drop_last() =~= s4);
    assert(s4.drop_last() =~= s3);
    assert(s3.drop_last() =~= s2);
    assert(s2.drop_last() =~= s1);
    assert(s1.drop_last() =~= s0);
    assert(prime_product(s0) == 1);
    assert(prime_product(s1) == 1 * prime_at(a));
    assert(prime_product(s2) == prime_product(s1) * prime_at(b));
    assert(prime_product(s3) == prime_product(s2) * prime_at(c));
    assert(prime_product(s4) == prime_product(s3) * prime_at(d));
    assert(prime_product(s5) == prime_product(s4) * prime_at(e));
    assert(occurrences(s0, x) == 0);
    assert(occurrences(s1, x) == occurrences(s0, x) + if a == x { 1int } else { 0int });
    assert(occurrences(s2, x) == occurrences(s1, x) + if b == x { 1int } else { 0int });
    assert(occurrences(s3, x) == occurrences(s2, x) + if c == x { 1int } else { 0int });
    assert(occurrences(s4, x) == occurrences(s3, x) + if d == x { 1int } else { 0int });
    assert(occurrences(s5, x) == occurrences(s4, x) + if e == x { 1int } else { 0int });
}

/// Two hands of five ranks with the same key hold every rank equally often.
pub proof fn lemma_same_key_same_ranks(
    a: int,
    b: int,
    c: int,
    d: int,
    e: int,
    a2: int,
    b2: int,
    c2: int,
    d2: int,
    e2: int,
    x: int,
)
    requires
        is_rank(a) && is_rank(b) && is_rank(c) && is_rank(d) && is_rank(e),
        is_rank(a2) && is_rank(b2) && is_rank(c2) && is_rank(d2) && is_rank(e2),
        key5(a, b, c, d, e) == key5(a2, b2, c2, d2, e2),
    ensures
        count5(a, b, c, d, e, x) == count5(a2, b2, c2, d2, e2, x),
{
    lemma_five_as_sequence(a, b, c, d, e, x);
    lemma_five_as_sequence(a2, b2, c2, d2, e2, x);
    lemma_same_product_same_ranks(seq![a, b, c, d, e], seq![a2, b2, c2, d2, e2], x);
}

/// The key of a hand does not depend on the order of its ranks: swapping two neighbours
/// leaves it as it is.
pub proof fn lemma_key_swaps(a: int, b: int, c: int, d: int, e: int)
    ensures
        key5(a, b, c, d, e) == key5(b, a, c, d, e),
        key5(a, b, c, d, e) == key5(a, c, b, d, e),
        key5(a, b, c, d, e) == key5(a, b, d, c, e),
        key5(a, b, c, d, e) == key5(a, b, c, e, d),
{
    let pa = prime_at(a);
    let pb = prime_at(b);
    let pc = prime_at(c);
    let pd = prime_at(d);
    let pe = prime_at(e);
    assert(pa * pb * pc * pd * pe == pb * pa * pc * pd * pe) by (nonlinear_arith);
    assert(pa * pb * pc * pd * pe == pa * pc * pb * pd * pe) by (nonlinear_arith);
    assert(pa * pb * pc * pd * pe == pa * pb * pd * pc * pe) by (nonlinear_arith);
    assert(pa * pb * pc * pd * pe == pa * pb * pc * pe * pd) by (nonlinear_arith);
}

} // verus!
