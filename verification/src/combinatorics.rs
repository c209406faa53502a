//! Counting and listing combinations; straight patterns.
use vstd::prelude::*;

verus! {

/// All 21 ways to choose 5 of 7 positions, each in ascending order.
pub const FIVE_FROM_SEVEN: [[usize; 5]; 21] = [
    [0, 1, 2, 3, 4],
    [0, 1, 2, 3, 5],
    [0, 1, 2, 3, 6],
    [0, 1, 2, 4, 5],
    [0, 1, 2, 4, 6],
    [0, 1, 2, 5, 6],
    [0, 1, 3, 4, 5],
    [0, 1, 3, 4, 6],
    [0, 1, 3, 5, 6],
    [0, 1, 4, 5, 6],
    [0, 2, 3, 4, 5],
    [0, 2, 3, 4, 6],
    [0, 2, 3, 5, 6],
    [0, 2, 4, 5, 6],
    [0, 3, 4, 5, 6],
    [1, 2, 3, 4, 5],
    [1, 2, 3, 4, 6],
    [1, 2, 3, 5, 6],
    [1, 2, 4, 5, 6],
    [1, 3, 4, 5, 6],
    [2, 3, 4, 5, 6],
];

/// The binomial coefficient: the number of ways to choose `k` of `n` things.
pub open spec fn binom(n: nat, k: nat) -> nat
    decreases n,
{
    if k == 0 {
        1
    } else if n == 0 {
        0
    } else {
        binom((n - 1) as nat, (k - 1) as nat) + binom((n - 1) as nat, k)
    }
}

/// There is no way to choose more than `n` of `n` things, and one way to choose all.
pub proof fn lemma_binom_edge(n: nat, k: nat)
    ensures
        k > n ==> binom(n, k) == 0,
        binom(n, n) == 1,
    decreases n,
{
    if n > 0 {
        lemma_binom_edge((n - 1) as nat, k);
        lemma_binom_edge((n - 1) as nat, n);
        if k > 0 {
            lemma_binom_edge((n - 1) as nat, (k - 1) as nat);
        }
    }
}

/// There are `n` ways to choose one of `n` things.
pub proof fn lemma_binom_one(n: nat)
    ensures
        binom(n, 1) == n,
    decreases n,
{
    if n > 0 {
        lemma_binom_one((n - 1) as nat);
        assert(binom((n - 1) as nat, 0) == 1);
    }
}

/// Choosing from more things gives no fewer ways.
pub proof fn lemma_binom_grows(n: nat, m: nat, k: nat)
    requires
        n <= m,
    ensures
        binom(n, k) <= binom(m, k),
    decreases m - n,
{
    if n < m {
        lemma_binom_grows(n, (m - 1) as nat, k);
    }
}

/// The absorption identity: `C(n, k + 1) * (k + 1) == C(n, k) * (n - k)`.
pub proof fn lemma_binom_absorb(n: nat, k: nat)
    ensures
        binom(n, k + 1) * (k + 1) == binom(n, k) * (n - k),
    decreases n,
{
    let up = binom(n, k + 1) as int;
    let here = binom(n, k) as int;
    if n == 0 {
        assert(up == 0);
        if k > 0 {
            assert(here == 0);
        }
        assert(up * (k + 1) == here * (n - k)) by (nonlinear_arith)
            requires
                up == 0,
                here == 0 || n - k == 0,
        ;
    } else {
        let m = (n - 1) as nat;
        lemma_binom_absorb(m, k);
        let a = binom(m, k) as int;
        let b = binom(m, k + 1) as int;
        assert(up == a + b);
        assert(b * (k + 1) == a * (m - k));
        assert(up * (k + 1) == a * n) by (nonlinear_arith)
            requires
                up == a + b,
                b * (k + 1) == a * (m - k),
                m == n - 1,
        ;
        if k == 0 {
            assert(a == 1);
            assert(here == 1);
            assert(here * (n - k) == a * n) by (nonlinear_arith)
                requires
                    here == 1,
                    a == 1,
                    k == 0,
            ;
        } else {
            let j = (k - 1) as nat;
            lemma_binom_absorb(m, j);
            let c = binom(m, j) as int;
            assert(binom(m, j + 1) == a);
            assert(here == c + a);
            assert(a * (j + 1) == c * (m - j));
            assert(here * (n - k) == a * n) by (nonlinear_arith)
                requires
                    here == c + a,
                    a * (j + 1) == c * (m - j),
                    j == k - 1,
                    m == n - 1,
            ;
        }
    }
}

/// One step along a row of Pascal's triangle: from `C(n, k) == value` to `C(n, k + 1)`.
pub proof fn lemma_binom_step(n: nat, k: nat, value: int, next: int)
    requires
        binom(n, k) == value,
        next * (k + 1) == value * (n - k),
    ensures
        binom(n, k + 1) == next,
{
    lemma_binom_absorb(n, k);
    let up = binom(n, k + 1) as int;
    assert(up == next) by (nonlinear_arith)
        requires
            up * (k + 1) == value * (n - k),
            next * (k + 1) == value * (n - k),
            k >= 0,
    ;
}

/// Choosing `k` of `n` things is choosing the `n - k` that are left out.
pub proof fn lemma_binom_symmetric(n: nat, k: nat)
    requires
        k <= n,
    ensures
        binom(n, k) == binom(n, (n - k) as nat),
    decreases n,
{
    lemma_binom_edge(n, k);
    if n > 0 && 0 < k < n {
        let m = (n - 1) as nat;
        lemma_binom_symmetric(m, (k - 1) as nat);
        lemma_binom_symmetric(m, k);
    }
}

/// Up to the middle, the binomial coefficients of a row do not fall.
pub proof fn lemma_binom_rises(n: nat, i: nat, j: nat)
    requires
        i <= j,
        2 * j <= n,
    ensures
        binom(n, i) <= binom(n, j),
    decreases j - i,
{
    if i < j {
        let h = (j - 1) as nat;
        lemma_binom_rises(n, i, h);
        lemma_binom_absorb(n, h);
        let x = binom(n, h) as int;
        let y = binom(n, j) as int;
        assert(x <= y) by (nonlinear_arith)
            requires
                y * (h + 1) == x * (n - h),
                n - h >= h + 1,
                h >= 0,
                x >= 0,
                y >= 0,
        ;
    }
}

/// Computes the binomial coefficient `C(n, k)`; 0 where `k` is greater than `n`.
///
/// The result has to fit the machine word.
pub fn binomial(n: usize, k: usize) -> (r: usize)
    requires
        binom(n as nat, k as nat) <= usize::MAX,
    ensures
        r == binom(n as nat, k as nat),
{
    if k > n {
        proof {
            lemma_binom_edge(n as nat, k as nat);
        }
        return 0;
    }
    let steps = if k < n - k {
        k
    } else {
        n - k
    };
    proof {
        lemma_binom_symmetric(n as nat, k as nat);
    }
    let mut res: usize = 1;
    let mut i: usize = 0;
    while i < steps
        invariant
            i <= steps,
            2 * steps <= n,
            res == binom(n as nat, i as nat),
            binom(n as nat, steps as nat) == binom(n as nat, k as nat),
            binom(n as nat, k as nat) <= usize::MAX,
        decreases steps - i,
    {
        proof {
            lemma_binom_absorb(n as nat, i as nat);
            lemma_binom_rises(n as nat, (i + 1) as nat, steps as nat);
        }
        let ghost next = binom(n as nat, (i + 1) as nat);
        let factor: u128 = (n - i) as u128;
        let divisor: u128 = (i + 1) as u128;
        assert(res as u128 * factor <= u128::MAX) by (nonlinear_arith)
            requires
                res <= 0xFFFF_FFFF_FFFF_FFFF,
                factor <= 0xFFFF_FFFF_FFFF_FFFF,
        ;
        let product: u128 = (res as u128) * factor;
        assert(product == next * divisor);
        assert((next * divisor) / (divisor as int) == next) by (nonlinear_arith)
            requires
                divisor > 0,
                next >= 0,
        ;
        res = (product / divisor) as usize;
        i = i + 1;
    }
    res
}

/// The first rows of Pascal's triangle, as far as hands of five cards from thirteen ranks
/// need them.
pub proof fn lemma_binom_values()
    ensures
        binom(12, 2) == 66,
        binom(12, 3) == 220,
        binom(13, 2) == 78,
        binom(13, 3) == 286,
        binom(13, 5) == 1287,
        binom(12, 5) == 792,
        binom(7, 5) == 21,
{
    lemma_binom_step(12, 0, 1, 12);
    lemma_binom_step(12, 1, 12, 66);
    lemma_binom_step(12, 2, 66, 220);
    lemma_binom_step(12, 3, 220, 495);
    lemma_binom_step(12, 4, 495, 792);
    lemma_binom_step(13, 0, 1, 13);
    lemma_binom_step(13, 1, 13, 78);
    lemma_binom_step(13, 2, 78, 286);
    lemma_binom_step(13, 3, 286, 715);
    lemma_binom_step(13, 4, 715, 1287);
    lemma_binom_step(7, 0, 1, 7);
    lemma_binom_step(7, 1, 7, 21);
    lemma_binom_symmetric(7, 5);
}

/// A combination of `k` of the indexes below `n`: `k` indexes in ascending order.
pub open spec fn is_combination(c: Seq<usize>, n: nat, k: nat) -> bool {
    &&& c.len() == k
    &&& forall|i: int| 0 <= i < k ==> (#[trigger] c[i]) < n
    &&& forall|i: int, j: int| 0 <= i < j < k ==> c[i] < c[j]
}

/// `a` and `b` agree before position `p`, where `a` holds the smaller value.
pub open spec fn lower_at(a: Seq<usize>, b: Seq<usize>, p: int) -> bool {
    &&& 0 <= p < a.len()
    &&& p < b.len()
    &&& a[p] < b[p]
    &&& forall|j: int| 0 <= j < p ==> a[j] == b[j]
}

/// `a` comes before `b` in lexicographic order.
pub open spec fn lex_less(a: Seq<usize>, b: Seq<usize>) -> bool {
    exists|p: int| #[trigger] lower_at(a, b, p)
}

/// `b` is made from the combination `a` by raising the index at position `i` by one and
/// letting the indexes after it follow one by one, where all indexes of `a` after position
/// `i` are as high as they can be.
pub open spec fn steps_at(a: Seq<usize>, b: Seq<usize>, n: nat, k: nat, i: int) -> bool {
    &&& 0 <= i < k
    &&& forall|j: int| 0 <= j < i ==> a[j] == b[j]
    &&& b[i] == a[i] + 1
    &&& forall|j: int| i < j < k ==> a[j] == j + n - k
    &&& forall|j: int| i < j < k ==> b[j] == b[i] + (j - i)
}

/// `b` is the combination that follows `a`.
pub open spec fn follows(a: Seq<usize>, b: Seq<usize>, n: nat, k: nat) -> bool {
    exists|i: int| #[trigger] steps_at(a, b, n, k, i)
}

/// The number of combinations that come after `c`, counted from position `from` on: the sum
/// over the positions `i` of `C(n - 1 - c[i], k - i)`.
pub open spec fn later_count(c: Seq<usize>, n: nat, from: int) -> nat
    decreases c.len() - from,
{
    if from < 0 || from >= c.len() {
        0
    } else {
        binom((n - 1 - c[from]) as nat, (c.len() - from) as nat) + later_count(c, n, from + 1)
    }
}

/// In a combination the indexes rise by at least one from a position to the next.
pub proof fn lemma_combination_rises(x: Seq<usize>, n: nat, k: nat, p: int, j: int)
    requires
        is_combination(x, n, k),
        0 <= p <= j < k,
    ensures
        x[j] >= x[p] + (j - p),
    decreases j - p,
{
    if p < j {
        lemma_combination_rises(x, n, k, p, j - 1);
        assert(x[j - 1] < x[j]);
    }
}

/// In a combination the indexes rise by at least one from a position to the next, so none
/// can be higher than its position allows.
pub proof fn lemma_combination_gap(x: Seq<usize>, n: nat, k: nat, p: int, j: int)
    requires
        is_combination(x, n, k),
        0 <= p <= j < k,
    ensures
        x[j] >= x[p] + (j - p),
        x[p] <= p + n - k,
{
    lemma_combination_rises(x, n, k, p, j);
    lemma_combination_rises(x, n, k, p, k - 1);
    assert(x[k - 1] < n);
}

/// Lexicographic order is transitive on sequences of one length.
pub proof fn lemma_lex_transitive(a: Seq<usize>, b: Seq<usize>, c: Seq<usize>)
    requires
        a.len() == b.len(),
        b.len() == c.len(),
        lex_less(a, b),
        lex_less(b, c),
    ensures
        lex_less(a, c),
{
    let p = choose|p: int| #[trigger] lower_at(a, b, p);
    let q = choose|q: int| #[trigger] lower_at(b, c, q);
    if p <= q {
        assert(lower_at(a, c, p));
    } else {
        assert(lower_at(a, c, q));
    }
}

/// Where `x` is at least `b` at every position from `from` on and agrees with `b` before,
/// `x` is `b` or comes after it.
proof fn lemma_pointwise_above(b: Seq<usize>, x: Seq<usize>, from: int)
    requires
        b.len() == x.len(),
        0 <= from <= b.len(),
        forall|j: int| 0 <= j < from ==> b[j] == x[j],
        forall|j: int| from <= j < b.len() ==> b[j] <= x[j],
    ensures
        x == b || lex_less(b, x),
    decreases b.len() - from,
{
    if from == b.len() {
        assert(x =~= b);
    } else if b[from] < x[from] {
        assert(lower_at(b, x, from));
    } else {
        lemma_pointwise_above(b, x, from + 1);
    }
}

/// Between a combination and the one that follows it there is no other.
pub proof fn lemma_nothing_between(a: Seq<usize>, b: Seq<usize>, x: Seq<usize>, n: nat, k: nat)
    requires
        is_combination(a, n, k),
        is_combination(b, n, k),
        is_combination(x, n, k),
        follows(a, b, n, k),
        lex_less(a, x),
    ensures
        x == b || lex_less(b, x),
{
    let i = choose|i: int| #[trigger] steps_at(a, b, n, k, i);
    let p = choose|p: int| #[trigger] lower_at(a, x, p);
    if p > i {
        lemma_combination_gap(x, n, k, p, p);
        assert(false);
    } else if p < i {
        assert(lower_at(b, x, p));
    } else {
        if x[i] > b[i] {
            assert(lower_at(b, x, i));
        } else {
            assert forall|j: int| i <= j < k implies b[j] <= x[j] by {
                lemma_combination_gap(x, n, k, i, j);
            }
            lemma_pointwise_above(b, x, i);
        }
    }
}

/// The combination of the first `k` indexes comes before every other.
pub proof fn lemma_first_is_least(first: Seq<usize>, x: Seq<usize>, n: nat, k: nat)
    requires
        is_combination(x, n, k),
        first.len() == k,
        forall|j: int| 0 <= j < k ==> first[j] == j,
    ensures
        x == first || lex_less(first, x),
{
    assert forall|j: int| 0 <= j < k implies first[j] <= x[j] by {
        lemma_combination_gap(x, n, k, 0, j);
    }
    lemma_pointwise_above(first, x, 0);
}

/// Nothing comes after the combination of the last `k` indexes.
pub proof fn lemma_last_is_greatest(last: Seq<usize>, x: Seq<usize>, n: nat, k: nat)
    requires
        is_combination(x, n, k),
        last.len() == k,
        forall|j: int| 0 <= j < k ==> last[j] == j + n - k,
    ensures
        !lex_less(last, x),
{
    if lex_less(last, x) {
        let p = choose|p: int| #[trigger] lower_at(last, x, p);
        lemma_combination_gap(x, n, k, p, p);
    }
}

/// A list of combinations that starts at the first, in which each is followed by its
/// successor, holds every combination up to the place it has reached.
proof fn lemma_chain_reaches(
    list: Seq<Seq<usize>>,
    x: Seq<usize>,
    n: nat,
    k: nat,
    m: int,
)
    requires
        0 <= m < list.len(),
        is_combination(x, n, k),
        forall|i: int| 0 <= i < list.len() ==> is_combination(#[trigger] list[i], n, k),
        forall|i: int| 0 <= i < list.len() - 1 ==> follows(#[trigger] list[i], list[i + 1], n, k),
        forall|j: int| 0 <= j < k ==> list[0][j] == j,
        forall|i: int| 0 <= i <= m ==> #[trigger] list[i] != x,
    ensures
        lex_less(list[m], x),
    decreases m,
{
    if m == 0 {
        lemma_first_is_least(list[0], x, n, k);
    } else {
        lemma_chain_reaches(list, x, n, k, m - 1);
        assert(follows(list[m - 1], list[m - 1 + 1], n, k));
        lemma_nothing_between(list[m - 1], list[m], x, n, k);
    }
}

/// Where the indexes from position `from` on rise one by one from `base`, exactly
/// `C(n - base, k - from) - 1` combinations come later, counted from that position.
proof fn lemma_run_count(c: Seq<usize>, n: nat, from: int, base: int)
    requires
        0 <= from <= c.len(),
        0 <= base,
        base + (c.len() - from) <= n,
        forall|j: int| from <= j < c.len() ==> c[j] == base + (j - from),
    ensures
        later_count(c, n, from) + 1 == binom((n - base) as nat, (c.len() - from) as nat),
    decreases c.len() - from,
{
    if from < c.len() {
        lemma_run_count(c, n, from + 1, base + 1);
        assert(c[from] == base);
    }
}

/// Two sequences that agree from `from` up to `upto` count the same there.
proof fn lemma_prefix_count(c: Seq<usize>, d: Seq<usize>, n: nat, from: int, upto: int)
    requires
        c.len() == d.len(),
        0 <= from <= upto <= c.len(),
        forall|j: int| from <= j < upto ==> c[j] == d[j],
    ensures
        later_count(c, n, from) - later_count(c, n, upto) == later_count(d, n, from) - later_count(
            d,
            n,
            upto,
        ),
    decreases upto - from,
{
    if from < upto {
        lemma_prefix_count(c, d, n, from + 1, upto);
    }
}

/// A step from a combination to the one that follows it leaves one combination fewer to
/// come.
proof fn lemma_step_count(a: Seq<usize>, b: Seq<usize>, n: nat, k: nat, i: int)
    requires
        is_combination(a, n, k),
        b.len() == k,
        steps_at(a, b, n, k, i),
        a[i] < i + n - k,
    ensures
        later_count(b, n, 0) + 1 == later_count(a, n, 0),
{
    lemma_run_count(a, n, i + 1, i + 1 + n - k);
    lemma_binom_edge((k - i - 1) as nat, (k - i - 1) as nat);
    assert(later_count(a, n, i + 1) == 0);
    lemma_run_count(b, n, i, a[i] + 1);
    lemma_prefix_count(a, b, n, 0, i);
}

/// The sequences that the vectors of a list hold.
pub open spec fn contents(list: Seq<Vec<usize>>) -> Seq<Seq<usize>> {
    Seq::new(list.len(), |i: int| list[i]@)
}

/// Lists all combinations of `k` of the indexes `0..n`, each in ascending order, in
/// lexicographic order.
///
/// There is none where `k` is greater than `n`, and one, the empty combination, where `k`
/// is 0.
pub fn combinations(n: usize, k: usize) -> (r: Vec<Vec<usize>>)
    ensures
        r@.len() == binom(n as nat, k as nat),
        forall|i: int| 0 <= i < r@.len() ==> is_combination(#[trigger] r@[i]@, n as nat, k as nat),
        forall|i: int, j: int| 0 <= i < j < r@.len() ==> lex_less(#[trigger] r@[i]@, #[trigger] r@[j]@),
        forall|c: Seq<usize>|
            is_combination(c, n as nat, k as nat) ==> exists|i: int|
                0 <= i < r@.len() && #[trigger] r@[i]@ == c,
{
    if k > n {
        proof {
            lemma_binom_edge(n as nat, k as nat);
            assert forall|c: Seq<usize>| !is_combination(c, n as nat, k as nat) by {
                if is_combination(c, n as nat, k as nat) {
                    lemma_combination_gap(c, n as nat, k as nat, 0, 0);
                }
            }
        }
        return Vec::new();
    }
    let mut result: Vec<Vec<usize>> = Vec::new();
    if k == 0 {
        let empty: Vec<usize> = Vec::new();
        result.push(empty);
        proof {
            assert forall|c: Seq<usize>| is_combination(c, n as nat, k as nat) implies exists|
                i: int,
            |
                0 <= i < result@.len() && #[trigger] result@[i]@ == c by {
                assert(c =~= result@[0]@);
            }
        }
        return result;
    }
    let mut indices: Vec<usize> = Vec::new();
    let mut fill: usize = 0;
    while fill < k
        invariant
            fill <= k,
            indices@.len() == fill,
            forall|j: int| 0 <= j < fill ==> indices@[j] == j,
        decreases k - fill,
    {
        indices.push(fill);
        fill = fill + 1;
    }
    let top = n - k;
    proof {
        lemma_run_count(indices@, n as nat, 0, 0);
    }
    loop
        invariant_except_break
            is_combination(indices@, n as nat, k as nat),
            result@.len() + later_count(indices@, n as nat, 0) + 1 == binom(n as nat, k as nat),
            forall|i: int|
                0 <= i < result@.len() ==> is_combination(#[trigger] result@[i]@, n as nat, k as nat),
            forall|i: int, j: int|
                0 <= i < j < result@.len() ==> lex_less(#[trigger] result@[i]@, #[trigger] result@[j]@),
            forall|i: int| 0 <= i < result@.len() ==> lex_less(#[trigger] result@[i]@, indices@),
            forall|i: int|
                0 <= i < result@.len() - 1 ==> follows(
                    #[trigger] contents(result@)[i],
                    contents(result@)[i + 1],
                    n as nat,
                    k as nat,
                ),
            result@.len() > 0 ==> follows(result@[result@.len() - 1]@, indices@, n as nat, k as nat),
            result@.len() > 0 ==> (forall|j: int| 0 <= j < k ==> result@[0]@[j] == j),
            result@.len() == 0 ==> (forall|j: int| 0 <= j < k ==> indices@[j] == j),
        invariant
            1 <= k <= n,
            top == n - k,
        ensures
            result@.len() == binom(n as nat, k as nat),
            result@.len() > 0,
            forall|i: int|
                0 <= i < result@.len() ==> is_combination(#[trigger] result@[i]@, n as nat, k as nat),
            forall|i: int, j: int|
                0 <= i < j < result@.len() ==> lex_less(#[trigger] result@[i]@, #[trigger] result@[j]@),
            forall|i: int|
                0 <= i < result@.len() - 1 ==> follows(
                    #[trigger] contents(result@)[i],
                    contents(result@)[i + 1],
                    n as nat,
                    k as nat,
                ),
            forall|j: int| 0 <= j < k ==> result@[0]@[j] == j,
            forall|j: int| 0 <= j < k ==> (#[trigger] result@[result@.len() - 1]@[j]) == j + n - k,
        decreases later_count(indices@, n as nat, 0),
    {
        let ghost before = result@;
        let copy = indices.clone();
        assert(copy@ =~= indices@);
        result.push(copy);
        proof {
            assert forall|i: int| 0 <= i < result@.len() - 1 implies follows(
                #[trigger] contents(result@)[i],
                contents(result@)[i + 1],
                n as nat,
                k as nat,
            ) by {
                if i < before.len() - 1 {
                    assert(contents(before)[i] == contents(result@)[i]);
                    assert(contents(before)[i + 1] == contents(result@)[i + 1]);
                    assert(follows(contents(before)[i], contents(before)[i + 1], n as nat, k as nat));
                }
            }
        }
        // Find the rightmost index that can still be raised.
        let mut i: usize = k;
        let mut found = false;
        while i > 0 && !found
            invariant
                i <= k,
                1 <= k <= n,
                top == n - k,
                indices@.len() == k,
                forall|j: int| i <= j < k && !(found && j == i) ==> indices@[j] == j + n - k,
                found ==> i < k && indices@[i as int] != i + n - k,
            decreases i,
        {
            i = i - 1;
            if indices[i] != top + i {
                found = true;
            }
        }
        if !found {
            proof {
                lemma_run_count(indices@, n as nat, 0, (n - k) as int);
                lemma_binom_edge(k as nat, k as nat);
            }
            break ;
        }
        let ghost old_indices = indices@;
        proof {
            lemma_combination_gap(old_indices, n as nat, k as nat, i as int, i as int);
        }
        let raised = indices[i] + 1;
        indices.set(i, raised);
        let mut j: usize = i + 1;
        while j < k
            invariant
                i < j <= k,
                k <= n,
                indices@.len() == k,
                old_indices.len() == k,
                raised == old_indices[i as int] + 1,
                raised <= i + n - k,
                forall|m: int| 0 <= m < i ==> indices@[m] == old_indices[m],
                forall|m: int| i <= m < j ==> indices@[m] == raised + (m - i),
            decreases k - j,
        {
            let previous = indices[j - 1];
            indices.set(j, previous + 1);
            j = j + 1;
        }
        proof {
            assert(steps_at(old_indices, indices@, n as nat, k as nat, i as int));
            assert(is_combination(indices@, n as nat, k as nat));
            lemma_step_count(old_indices, indices@, n as nat, k as nat, i as int);
            assert(lower_at(old_indices, indices@, i as int));
            assert forall|m: int| 0 <= m < result@.len() implies lex_less(
                #[trigger] result@[m]@,
                indices@,
            ) by {
                if m < result@.len() - 1 {
                    lemma_lex_transitive(result@[m]@, old_indices, indices@);
                }
            }
        }
    }
    proof {
        let list = contents(result@);
        assert forall|c: Seq<usize>| is_combination(c, n as nat, k as nat) implies exists|i: int|
            0 <= i < result@.len() && #[trigger] result@[i]@ == c by {
            if forall|i: int| 0 <= i < result@.len() ==> #[trigger] result@[i]@ != c {
                assert forall|i: int| 0 <= i < list.len() implies is_combination(
                    #[trigger] list[i],
                    n as nat,
                    k as nat,
                ) by {
                    assert(list[i] == result@[i]@);
                }
                assert forall|i: int| 0 <= i <= list.len() - 1 implies #[trigger] list[i] != c by {
                    assert(list[i] == result@[i]@);
                }
                assert(list[0] == result@[0]@);
                lemma_chain_reaches(list, c, n as nat, k as nat, list.len() - 1);
                assert(list[list.len() - 1] == result@[result@.len() - 1]@);
                lemma_last_is_greatest(list[list.len() - 1], c, n as nat, k as nat);
            }
        }
    }
    result
}

/// Whether all the ranks lie among the five values that start at `low`.
pub open spec fn within_five(ranks: Seq<usize>, low: int) -> bool {
    forall|i: int| 0 <= i < ranks.len() ==> low <= #[trigger] ranks[i] <= low + 4
}

/// Five ranks form a straight pattern when they are pairwise different and either lie
/// within five neighbouring values or are the wheel: 0, 1, 2, 3 and 12.
pub open spec fn is_straight_ranks(ranks: Seq<usize>) -> bool {
    &&& ranks.len() == 5
    &&& forall|i: int, j: int| 0 <= i < j < 5 ==> ranks[i] != ranks[j]
    &&& {
        ||| exists|low: int| #[trigger] within_five(ranks, low)
        ||| forall|i: int|
            0 <= i < 5 ==> {
                let r = #[trigger] ranks[i];
                r == 0 || r == 1 || r == 2 || r == 3 || r == 12
            }
    }
}

/// Whether five rank indexes form a straight, the wheel (ace, two, three, four, five)
/// included. Anything but five ranks is no straight.
pub fn is_straight_pattern(ranks: &[usize]) -> (r: bool)
    ensures
        r == is_straight_ranks(ranks@),
{
    if ranks.len() != 5 {
        return false;
    }
    let mut low = ranks[0];
    let mut high = ranks[0];
    let mut wheel = true;
    let mut i: usize = 0;
    while i < 5
        invariant
            i <= 5,
            ranks@.len() == 5,
            forall|j: int| 0 <= j < i ==> low <= #[trigger] ranks@[j] <= high,
            i == 0 ==> low == ranks@[0] && high == ranks@[0],
            exists|j: int| 0 <= j < 5 && ranks@[j] == low,
            exists|j: int| 0 <= j < 5 && ranks@[j] == high,
            wheel == forall|j: int|
                0 <= j < i ==> {
                    let r = #[trigger] ranks@[j];
                    r == 0 || r == 1 || r == 2 || r == 3 || r == 12
                },
        decreases 5 - i,
    {
        let rank = ranks[i];
        if rank < low {
            low = rank;
        }
        if rank > high {
            high = rank;
        }
        if !(rank == 0 || rank == 1 || rank == 2 || rank == 3 || rank == 12) {
            wheel = false;
        }
        i = i + 1;
    }
    let distinct = ranks[0] != ranks[1] && ranks[0] != ranks[2] && ranks[0] != ranks[3]
        && ranks[0] != ranks[4] && ranks[1] != ranks[2] && ranks[1] != ranks[3] && ranks[1]
        != ranks[4] && ranks[2] != ranks[3] && ranks[2] != ranks[4] && ranks[3] != ranks[4];
    if !distinct {
        return false;
    }
    let within = high - low <= 4;
    proof {
        if within {
            assert(within_five(ranks@, low as int));
        } else {
            assert forall|cand: int| !(#[trigger] within_five(ranks@, cand)) by {
                let jl = choose|j: int| 0 <= j < 5 && ranks@[j] == low;
                let jh = choose|j: int| 0 <= j < 5 && ranks@[j] == high;
                if within_five(ranks@, cand) {
                    assert(cand <= ranks@[jl] <= cand + 4);
                    assert(cand <= ranks@[jh] <= cand + 4);
                }
            }
        }
    }
    within || wheel
}

} // verus!
