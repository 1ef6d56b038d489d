//! The table of hands that pair.
//!
//! Each rank stands for a prime, and a hand for the product of the primes
//! of its five cards. The product tells which ranks the hand holds and how
//! often, whatever the order of the cards, so it can key a table. The
//! table holds the hands in which some rank comes more than once: four of
//! a kind, full houses, three of a kind, two pairs and pairs, each kind
//! numbered from its first score on, best hand first.

use vstd::prelude::*;
use std::collections::HashMap;

verus! {

broadcast use vstd::std_specs::hash::group_hash_axioms;

/// The prime that stands for a rank: 2 for the deuce up to 41 for the ace.
pub open spec fn prime(rank: int) -> int {
    if rank == 0 {
        2
    } else if rank == 1 {
        3
    } else if rank == 2 {
        5
    } else if rank == 3 {
        7
    } else if rank == 4 {
        11
    } else if rank == 5 {
        13
    } else if rank == 6 {
        17
    } else if rank == 7 {
        19
    } else if rank == 8 {
        23
    } else if rank == 9 {
        29
    } else if rank == 10 {
        31
    } else if rank == 11 {
        37
    } else {
        41
    }
}

/// Whether `rank` is one of the thirteen ranks.
pub open spec fn is_rank(rank: int) -> bool {
    0 <= rank < 13
}

/// The product of the primes of five ranks.
pub open spec fn product5(a: int, b: int, c: int, d: int, e: int) -> int {
    prime(a) * (prime(b) * (prime(c) * (prime(d) * prime(e))))
}

/// How many of five ranks are the rank `r`.
pub open spec fn count5(r: int, a: int, b: int, c: int, d: int, e: int) -> int {
    (if r == a { 1int } else { 0 }) + (if r == b { 1int } else { 0 }) + (if r == c { 1int } else { 0 })
        + (if r == d { 1int } else { 0 }) + (if r == e { 1int } else { 0 })
}

/// How many times `p` divides `n`.
pub open spec fn multiplicity(p: int, n: int) -> nat
    decreases n,
{
    if p < 2 || n <= 0 || n % p != 0 {
        0
    } else {
        proof {
            vstd::arithmetic::div_mod::lemma_div_decreases(n, p);
            vstd::arithmetic::div_mod::lemma_div_pos_is_pos(n, p);
        }
        1 + multiplicity(p, n / p)
    }
}

/// A rank's prime that divides the product of another rank's prime and `x`
/// divides `x`.
proof fn lemma_prime_divides_factor(r: int, s: int, x: int)
    requires
        is_rank(r),
        is_rank(s),
        r != s,
        0 <= x,
        (prime(s) * x) % prime(r) == 0,
    ensures
        x % prime(r) == 0,
{
    let p = prime(r);
    let q = prime(s);
    vstd::arithmetic::div_mod::lemma_mul_mod_noop_right(q, x, p);
    let rem: u8 = (x % p) as u8;
    let p_byte: u8 = p as u8;
    let q_byte: u8 = q as u8;
    assert(q * (x % p) == q_byte * rem);
    assert(rem == 0) by (bit_vector)
        requires
            p_byte == 2 || p_byte == 3 || p_byte == 5 || p_byte == 7 || p_byte == 11 || p_byte == 13
                || p_byte == 17 || p_byte == 19 || p_byte == 23 || p_byte == 29 || p_byte == 31
                || p_byte == 37 || p_byte == 41,
            q_byte == 2 || q_byte == 3 || q_byte == 5 || q_byte == 7 || q_byte == 11 || q_byte == 13
                || q_byte == 17 || q_byte == 19 || q_byte == 23 || q_byte == 29 || q_byte == 31
                || q_byte == 37 || q_byte == 41,
            p_byte != q_byte,
            rem < p_byte,
            (q_byte * rem) % (p_byte as int) == 0,
    ;
}

/// Multiplying by a rank's own prime adds one to how often it divides.
proof fn lemma_multiplicity_same(r: int, m: int)
    requires
        is_rank(r),
        1 <= m,
    ensures
        prime(r) * m >= 1,
        multiplicity(prime(r), prime(r) * m) == 1 + multiplicity(prime(r), m),
{
    let p = prime(r);
    vstd::arithmetic::div_mod::lemma_div_multiples_vanish(m, p);
    vstd::arithmetic::div_mod::lemma_mod_multiples_basic(m, p);
    assert(m * p == p * m) by (nonlinear_arith);
    assert(p * m >= 1) by (nonlinear_arith)
        requires
            p >= 2,
            m >= 1,
    ;
}

/// Multiplying by another rank's prime leaves how often a prime divides.
proof fn lemma_multiplicity_other(r: int, s: int, m: int)
    requires
        is_rank(r),
        is_rank(s),
        r != s,
        1 <= m,
    ensures
        prime(s) * m >= 1,
        multiplicity(prime(r), prime(s) * m) == multiplicity(prime(r), m),
    decreases m,
{
    let p = prime(r);
    let q = prime(s);
    assert(q * m >= 1) by (nonlinear_arith)
        requires
            q >= 2,
            m >= 1,
    ;
    if m % p == 0 {
        let t = m / p;
        vstd::arithmetic::div_mod::lemma_fundamental_div_mod(m, p);
        assert(m == p * t);
        assert(t >= 1 && t < m) by (nonlinear_arith)
            requires
                m == p * t,
                m >= 1,
                p >= 2,
        ;
        assert(q * m == p * (q * t)) by (nonlinear_arith)
            requires
                m == p * t,
        ;
        vstd::arithmetic::div_mod::lemma_div_multiples_vanish(q * t, p);
        vstd::arithmetic::div_mod::lemma_mod_multiples_basic(q * t, p);
        assert((q * t) * p == p * (q * t)) by (nonlinear_arith);
        lemma_multiplicity_other(r, s, t);
    } else {
        if (q * m) % p == 0 {
            lemma_prime_divides_factor(r, s, m);
        }
    }
}

/// Multiplying by a rank's prime adds one to how often that prime divides
/// and leaves how often the others do.
proof fn lemma_multiplicity_step(r: int, s: int, m: int)
    requires
        is_rank(r),
        is_rank(s),
        1 <= m,
    ensures
        prime(s) * m >= 1,
        multiplicity(prime(r), prime(s) * m) == multiplicity(prime(r), m) + if r == s {
            1int
        } else {
            0
        },
{
    if r == s {
        lemma_multiplicity_same(r, m);
    } else {
        lemma_multiplicity_other(r, s, m);
    }
}

/// A rank's prime divides the product of five primes as often as the rank
/// is among the five: the product tells the ranks, whatever their order.
pub proof fn lemma_multiplicity_product5(r: int, a: int, b: int, c: int, d: int, e: int)
    requires
        is_rank(r),
        is_rank(a),
        is_rank(b),
        is_rank(c),
        is_rank(d),
        is_rank(e),
    ensures
        multiplicity(prime(r), product5(a, b, c, d, e)) == count5(r, a, b, c, d, e),
        1 <= product5(a, b, c, d, e) <= 115856201,
{
    assert(multiplicity(prime(r), 1) == 0);
    lemma_multiplicity_step(r, e, 1);
    assert(prime(e) * 1 == prime(e));
    let m1 = prime(e);
    lemma_multiplicity_step(r, d, m1);
    let m2 = prime(d) * m1;
    lemma_multiplicity_step(r, c, m2);
    let m3 = prime(c) * m2;
    lemma_multiplicity_step(r, b, m3);
    let m4 = prime(b) * m3;
    lemma_multiplicity_step(r, a, m4);
    assert(m2 <= 41 * 41) by (nonlinear_arith)
        requires
            m2 == prime(d) * m1,
            0 <= prime(d) <= 41,
            0 <= m1 <= 41,
    ;
    assert(m3 <= 41 * 41 * 41) by (nonlinear_arith)
        requires
            m3 == prime(c) * m2,
            0 <= prime(c) <= 41,
            0 <= m2 <= 41 * 41,
    ;
    assert(m4 <= 41 * 41 * 41 * 41) by (nonlinear_arith)
        requires
            m4 == prime(b) * m3,
            0 <= prime(b) <= 41,
            0 <= m3 <= 41 * 41 * 41,
    ;
    assert(prime(a) * m4 <= 41 * 41 * 41 * 41 * 41) by (nonlinear_arith)
        requires
            0 <= prime(a) <= 41,
            0 <= m4 <= 41 * 41 * 41 * 41,
    ;
}

/// Two hands of five ranks with the same product of primes hold each rank
/// equally often.
pub proof fn lemma_same_product_same_counts(
    r: int,
    a: int,
    b: int,
    c: int,
    d: int,
    e: int,
    a2: int,
    b2: int,
    c2: int,
    d2: int,
    e2: int,
)
    requires
        is_rank(a),
        is_rank(b),
        is_rank(c),
        is_rank(d),
        is_rank(e),
        is_rank(a2),
        is_rank(b2),
        is_rank(c2),
        is_rank(d2),
        is_rank(e2),
        product5(a, b, c, d, e) == product5(a2, b2, c2, d2, e2),
    ensures
        count5(r, a, b, c, d, e) == count5(r, a2, b2, c2, d2, e2),
{
    if is_rank(r) {
        lemma_multiplicity_product5(r, a, b, c, d, e);
        lemma_multiplicity_product5(r, a2, b2, c2, d2, e2);
    }
}

/// The number of ways to pick two out of `n`.
pub open spec fn choose2(n: int) -> int
    decreases n,
{
    if n <= 0 {
        0
    } else {
        choose2(n - 1) + (n - 1)
    }
}

/// The number of ways to pick three out of `n`.
pub open spec fn choose3(n: int) -> int
    decreases n,
{
    if n <= 0 {
        0
    } else {
        choose3(n - 1) + choose2(n - 1)
    }
}

/// The number of ranks below `r`, not counting the rank `x`.
pub open spec fn below(r: int, x: int) -> int {
    if x < r {
        r - 1
    } else {
        r
    }
}

/// The number of ranks below `r`, not counting the ranks `x` and `y`.
pub open spec fn below2(r: int, x: int, y: int) -> int {
    r - (if x < r {
        1int
    } else {
        0
    }) - (if y < r {
        1int
    } else {
        0
    })
}

/// The score of four of a kind of rank `q` with the kicker `k`: the hands
/// are numbered from 11 on, the higher four first, then the higher kicker.
pub open spec fn quads_score(q: int, k: int) -> int {
    11 + (12 - q) * 12 + (11 - below(k, q))
}

/// The score of a full house of three `t` and two `p`: numbered from 167
/// on, the higher three first, then the higher pair.
pub open spec fn full_house_score(t: int, p: int) -> int {
    167 + (12 - t) * 12 + (11 - below(p, t))
}

/// The score of three of a kind of rank `t` with the kickers `k1 > k2`:
/// numbered from 1610 on, the higher three first, then the higher first
/// kicker, then the higher second one.
pub open spec fn trips_score(t: int, k1: int, k2: int) -> int {
    1610 + (12 - t) * 66 + (66 - choose2(below(k1, t) + 1)) + (below(k1, t) - 1 - below(k2, t))
}

/// The score of two pairs of ranks `hi > lo` with the kicker `k`: numbered
/// from 2468 on, the higher first pair first, then the higher second pair,
/// then the higher kicker.
pub open spec fn two_pair_score(hi: int, lo: int, k: int) -> int {
    2468 + ((78 - choose2(hi + 1)) + (hi - 1 - lo)) * 11 + (10 - below2(k, hi, lo))
}

/// The score of a pair of rank `p` with the kickers `k1 > k2 > k3`:
/// numbered from 3326 on, the higher pair first, then the higher kickers
/// in their order.
pub open spec fn one_pair_score(p: int, k1: int, k2: int, k3: int) -> int {
    3326 + (12 - p) * 220 + (220 - choose3(below(k1, p) + 1)) + (choose2(below(k1, p)) - choose2(
        below(k2, p) + 1,
    )) + (below(k2, p) - 1 - below(k3, p))
}

/// `p` is the product of four of a kind `q` with the kicker `k`.
pub open spec fn is_quads(p: int, q: int, k: int) -> bool {
    is_rank(q) && is_rank(k) && q != k && p == product5(q, q, q, q, k)
}

/// `p` is the product of a full house of three `t` and two `r`.
pub open spec fn is_full_house(p: int, t: int, r: int) -> bool {
    is_rank(t) && is_rank(r) && t != r && p == product5(t, t, t, r, r)
}

/// `p` is the product of three of a kind `t` with the kickers `k1 > k2`.
pub open spec fn is_trips(p: int, t: int, k1: int, k2: int) -> bool {
    is_rank(t) && is_rank(k1) && is_rank(k2) && k2 < k1 && t != k1 && t != k2 && p == product5(
        t,
        t,
        t,
        k1,
        k2,
    )
}

/// `p` is the product of two pairs `hi > lo` with the kicker `k`.
pub open spec fn is_two_pair(p: int, hi: int, lo: int, k: int) -> bool {
    is_rank(hi) && is_rank(lo) && is_rank(k) && lo < hi && k != hi && k != lo && p == product5(
        hi,
        hi,
        lo,
        lo,
        k,
    )
}

/// `p` is the product of a pair `r` with the kickers `k1 > k2 > k3`.
pub open spec fn is_one_pair(p: int, r: int, k1: int, k2: int, k3: int) -> bool {
    is_rank(r) && is_rank(k1) && is_rank(k2) && is_rank(k3) && k3 < k2 < k1 && r != k1 && r != k2
        && r != k3 && p == product5(r, r, k1, k2, k3)
}

/// The score of the hand of five cards, not all of different ranks, whose
/// primes multiply to `p`; none when `p` is the product of no such hand.
pub open spec fn product_score(p: int) -> Option<int> {
    if exists|q: int, k: int| is_quads(p, q, k) {
        let (q, k) = choose|q: int, k: int| is_quads(p, q, k);
        Some(quads_score(q, k))
    } else if exists|t: int, r: int| is_full_house(p, t, r) {
        let (t, r) = choose|t: int, r: int| is_full_house(p, t, r);
        Some(full_house_score(t, r))
    } else if exists|t: int, k1: int, k2: int| is_trips(p, t, k1, k2) {
        let (t, k1, k2) = choose|t: int, k1: int, k2: int| is_trips(p, t, k1, k2);
        Some(trips_score(t, k1, k2))
    } else if exists|hi: int, lo: int, k: int| is_two_pair(p, hi, lo, k) {
        let (hi, lo, k) = choose|hi: int, lo: int, k: int| is_two_pair(p, hi, lo, k);
        Some(two_pair_score(hi, lo, k))
    } else if exists|r: int, k1: int, k2: int, k3: int| is_one_pair(p, r, k1, k2, k3) {
        let (r, k1, k2, k3) = choose|r: int, k1: int, k2: int, k3: int|
            is_one_pair(p, r, k1, k2, k3);
        Some(one_pair_score(r, k1, k2, k3))
    } else {
        None
    }
}

/// Whether a table maps every product of a hand that pairs to its score
/// and has no other key.
pub open spec fn is_product_table(table: Map<u32, u16>) -> bool {
    forall|key: u32|
        (#[trigger] table.contains_key(key) <==> product_score(key as int) is Some) && (
        table.contains_key(key) ==> table[key] == product_score(key as int)->0)
}

/// The key of a hand of five ranks in the table of products.
pub open spec fn key5(a: int, b: int, c: int, d: int, e: int) -> u32 {
    product5(a, b, c, d, e) as u32
}

/// Every key of the table is the product of a hand that pairs.
pub open spec fn only_paired(table: Map<u32, u16>) -> bool {
    forall|key: u32| #[trigger] table.contains_key(key) ==> product_score(key as int) is Some
}

/// The table holds the fours of a kind from the best down to, and without,
/// the one of rank `qc` with the kicker `kh - 1`.
pub open spec fn quads_part(table: Map<u32, u16>, qc: int, kh: int) -> bool {
    forall|q: int, k: int|
        is_rank(q) && is_rank(k) && q != k && (q > qc || (q == qc && k >= kh)) ==> table.contains_key(
            #[trigger] key5(q, q, q, q, k),
        ) && table[key5(q, q, q, q, k)] == quads_score(q, k)
}

/// The same for the full houses.
pub open spec fn full_house_part(table: Map<u32, u16>, tc: int, ph: int) -> bool {
    forall|t: int, r: int|
        is_rank(t) && is_rank(r) && t != r && (t > tc || (t == tc && r >= ph)) ==> table.contains_key(
            #[trigger] key5(t, t, t, r, r),
        ) && table[key5(t, t, t, r, r)] == full_house_score(t, r)
}

/// The same for the threes of a kind, down to the kickers `k1c`, `k2h - 1`.
pub open spec fn trips_part(table: Map<u32, u16>, tc: int, k1c: int, k2h: int) -> bool {
    forall|t: int, k1: int, k2: int|
        is_rank(t) && is_rank(k1) && is_rank(k2) && k2 < k1 && t != k1 && t != k2 && (t > tc || (t
            == tc && (k1 > k1c || (k1 == k1c && k2 >= k2h)))) ==> table.contains_key(
            #[trigger] key5(t, t, t, k1, k2),
        ) && table[key5(t, t, t, k1, k2)] == trips_score(t, k1, k2)
}

/// The same for the two pairs, down to the pairs `hic`, `loc` and the
/// kicker `kh - 1`.
pub open spec fn two_pair_part(table: Map<u32, u16>, hic: int, loc: int, kh: int) -> bool {
    forall|hi: int, lo: int, k: int|
        is_rank(hi) && is_rank(lo) && is_rank(k) && lo < hi && k != hi && k != lo && (hi > hic || (
        hi == hic && (lo > loc || (lo == loc && k >= kh)))) ==> table.contains_key(
            #[trigger] key5(hi, hi, lo, lo, k),
        ) && table[key5(hi, hi, lo, lo, k)] == two_pair_score(hi, lo, k)
}

/// The same for the pairs, down to the pair `rc`, the kickers `k1c`, `k2c`
/// and the last kicker `k3h - 1`.
pub open spec fn one_pair_part(table: Map<u32, u16>, rc: int, k1c: int, k2c: int, k3h: int) -> bool {
    forall|r: int, k1: int, k2: int, k3: int|
        is_rank(r) && is_rank(k1) && is_rank(k2) && is_rank(k3) && k3 < k2 < k1 && r != k1 && r
            != k2 && r != k3 && (r > rc || (r == rc && (k1 > k1c || (k1 == k1c && (k2 > k2c || (k2
            == k2c && k3 >= k3h)))))) ==> table.contains_key(#[trigger] key5(r, r, k1, k2, k3)) && table[key5(
            r,
            r,
            k1,
            k2,
            k3,
        )] == one_pair_score(r, k1, k2, k3)
}

/// The values of the binomials at the ends of the enumerations.
proof fn lemma_choose_values()
    ensures
        choose2(0) == 0,
        choose2(12) == 66,
        choose2(13) == 78,
        choose3(0) == 0,
        choose3(12) == 220,
{
    assert(choose2(0) == 0);
    assert(choose2(1) == 0);
    assert(choose2(2) == 1);
    assert(choose2(3) == 3);
    assert(choose2(4) == 6);
    assert(choose2(5) == 10);
    assert(choose2(6) == 15);
    assert(choose2(7) == 21);
    assert(choose2(8) == 28);
    assert(choose2(9) == 36);
    assert(choose2(10) == 45);
    assert(choose2(11) == 55);
    assert(choose2(12) == 66);
    assert(choose3(0) == 0);
    assert(choose3(1) == 0);
    assert(choose3(2) == 0);
    assert(choose3(3) == 1);
    assert(choose3(4) == 4);
    assert(choose3(5) == 10);
    assert(choose3(6) == 20);
    assert(choose3(7) == 35);
    assert(choose3(8) == 56);
    assert(choose3(9) == 84);
    assert(choose3(10) == 120);
    assert(choose3(11) == 165);
}

/// Bounds on the binomials of at most thirteen.
proof fn lemma_choose_bounds(n: int)
    requires
        0 <= n <= 13,
    ensures
        0 <= choose2(n) <= 12 * n,
        0 <= choose3(n) <= 156 * n,
    decreases n,
{
    if n > 0 {
        lemma_choose_bounds(n - 1);
    }
}

/// Two hands of five ranks that hold some rank unequally often have
/// different products.
proof fn lemma_products_differ(
    r: int,
    a: int,
    b: int,
    c: int,
    d: int,
    e: int,
    a2: int,
    b2: int,
    c2: int,
    d2: int,
    e2: int,
)
    requires
        is_rank(a),
        is_rank(b),
        is_rank(c),
        is_rank(d),
        is_rank(e),
        is_rank(a2),
        is_rank(b2),
        is_rank(c2),
        is_rank(d2),
        is_rank(e2),
    ensures
        count5(r, a, b, c, d, e) != count5(r, a2, b2, c2, d2, e2) ==> key5(a, b, c, d, e) != key5(
            a2,
            b2,
            c2,
            d2,
            e2,
        ),
        key5(a, b, c, d, e) == product5(a, b, c, d, e),
        key5(a2, b2, c2, d2, e2) == product5(a2, b2, c2, d2, e2),
{
    lemma_multiplicity_product5(0, a, b, c, d, e);
    lemma_multiplicity_product5(0, a2, b2, c2, d2, e2);
    if product5(a, b, c, d, e) == product5(a2, b2, c2, d2, e2) {
        lemma_same_product_same_counts(r, a, b, c, d, e, a2, b2, c2, d2, e2);
    }
}

/// The prime of a rank.
pub(crate) fn prime_of(rank: usize) -> (p: u32)
    requires
        rank < 13,
    ensures
        p == prime(rank as int),
        2 <= p <= 41,
{
    match rank {
        0 => 2,
        1 => 3,
        2 => 5,
        3 => 7,
        4 => 11,
        5 => 13,
        6 => 17,
        7 => 19,
        8 => 23,
        9 => 29,
        10 => 31,
        11 => 37,
        _ => 41,
    }
}

/// Files a score under the product of the primes of five ranks.
fn insert_product(
    table: &mut HashMap<u32, u16>,
    a: usize,
    b: usize,
    c: usize,
    d: usize,
    e: usize,
    score: u16,
)
    requires
        a < 13,
        b < 13,
        c < 13,
        d < 13,
        e < 13,
    ensures
        final(table)@ == old(table)@.insert(
            key5(a as int, b as int, c as int, d as int, e as int),
            score,
        ),
{
    let m1: u32 = prime_of(d) * prime_of(e);
    assert(m1 <= 41 * 41) by (nonlinear_arith)
        requires
            m1 == prime(d as int) * prime(e as int),
            0 <= prime(d as int) <= 41,
            0 <= prime(e as int) <= 41,
    ;
    assert(prime(c as int) * m1 <= 41 * 41 * 41) by (nonlinear_arith)
        requires
            0 <= prime(c as int) <= 41,
            0 <= m1 <= 41 * 41,
    ;
    let m2: u32 = prime_of(c) * m1;
    assert(prime(b as int) * m2 <= 41 * 41 * 41 * 41) by (nonlinear_arith)
        requires
            0 <= prime(b as int) <= 41,
            0 <= m2 <= 41 * 41 * 41,
    ;
    let m3: u32 = prime_of(b) * m2;
    assert(prime(a as int) * m3 <= 41 * 41 * 41 * 41 * 41) by (nonlinear_arith)
        requires
            0 <= prime(a as int) <= 41,
            0 <= m3 <= 41 * 41 * 41 * 41,
    ;
    let product: u32 = prime_of(a) * m3;
    table.insert(product, score);
}

/// Adds the fours of a kind to an empty table.
fn insert_quads(table: &mut HashMap<u32, u16>)
    requires
        old(table)@ == Map::<u32, u16>::empty(),
    ensures
        only_paired(final(table)@),
        quads_part(final(table)@, 0, 0),
{
    let mut rank: u16 = 11;
    let mut q: usize = 13;
    while q > 0
        invariant
            0 <= q <= 13,
            rank == 11 + (13 - q) * 12,
            only_paired(table@),
            quads_part(table@, q - 1, 13),
        decreases q,
    {
        q = q - 1;
        let mut k: usize = 13;
        while k > 0
            invariant
                0 <= q < 13,
                0 <= k <= 13,
                rank == 11 + (12 - q) * 12 + (12 - below(k as int, q as int)),
                only_paired(table@),
                quads_part(table@, q as int, k as int),
            decreases k,
        {
            k = k - 1;
            if k != q {
                let ghost before = table@;
                insert_product(table, q, q, q, q, k, rank);
                proof {
                    let qi = q as int;
                    let ki = k as int;
                    lemma_products_differ(qi, qi, qi, qi, qi, ki, qi, qi, qi, qi, ki);
                    assert(is_quads(key5(qi, qi, qi, qi, ki) as int, qi, ki));
                    assert forall|q2: int, k2: int|
                        is_rank(q2) && is_rank(k2) && q2 != k2 && (q2 > qi || (q2 == qi && k2
                            >= ki)) implies table@.contains_key(
                        #[trigger] key5(q2, q2, q2, q2, k2),
                    ) && table@[key5(q2, q2, q2, q2, k2)] == quads_score(q2, k2) by {
                        if q2 != qi || k2 != ki {
                            lemma_products_differ(q2, q2, q2, q2, q2, k2, qi, qi, qi, qi, ki);
                            lemma_products_differ(k2, q2, q2, q2, q2, k2, qi, qi, qi, qi, ki);
                        }
                    }
                }
                rank = rank + 1;
            }
        }
    }
}

/// A new key under which a paired hand is filed keeps the table one of
/// paired hands only.
proof fn lemma_only_paired_insert(table: Map<u32, u16>, key: u32, score: u16)
    requires
        only_paired(table),
        product_score(key as int) is Some,
    ensures
        only_paired(table.insert(key, score)),
{
}

/// Filing a hand in which no rank comes four times leaves the fours of a
/// kind as they are.
proof fn lemma_keep_quads(
    table: Map<u32, u16>,
    a: int,
    b: int,
    c: int,
    d: int,
    e: int,
    score: u16,
)
    requires
        quads_part(table, 0, 0),
        is_rank(a),
        is_rank(b),
        is_rank(c),
        is_rank(d),
        is_rank(e),
        forall|r: int| #[trigger] count5(r, a, b, c, d, e) <= 3,
    ensures
        quads_part(table.insert(key5(a, b, c, d, e), score), 0, 0),
{
    let after = table.insert(key5(a, b, c, d, e), score);
    assert forall|q: int, k: int| is_rank(q) && is_rank(k) && q != k implies after.contains_key(
        #[trigger] key5(q, q, q, q, k),
    ) && after[key5(q, q, q, q, k)] == quads_score(q, k) by {
        assert(count5(q, a, b, c, d, e) <= 3);
        lemma_products_differ(q, q, q, q, q, k, a, b, c, d, e);
    }
}

/// Filing a hand that does not hold one rank three times and another twice
/// leaves the full houses as they are.
proof fn lemma_keep_full_houses(
    table: Map<u32, u16>,
    a: int,
    b: int,
    c: int,
    d: int,
    e: int,
    score: u16,
)
    requires
        full_house_part(table, 0, 0),
        is_rank(a),
        is_rank(b),
        is_rank(c),
        is_rank(d),
        is_rank(e),
        forall|r: int, s: int|
            !(#[trigger] count5(r, a, b, c, d, e) == 3 && #[trigger] count5(s, a, b, c, d, e) == 2),
    ensures
        full_house_part(table.insert(key5(a, b, c, d, e), score), 0, 0),
{
    let after = table.insert(key5(a, b, c, d, e), score);
    assert forall|t: int, r: int| is_rank(t) && is_rank(r) && t != r implies after.contains_key(
        #[trigger] key5(t, t, t, r, r),
    ) && after[key5(t, t, t, r, r)] == full_house_score(t, r) by {
        assert(!(count5(t, a, b, c, d, e) == 3 && count5(r, a, b, c, d, e) == 2));
        lemma_products_differ(t, t, t, t, r, r, a, b, c, d, e);
        lemma_products_differ(r, t, t, t, r, r, a, b, c, d, e);
    }
}

/// Filing a hand in which no rank comes three times leaves the threes of a
/// kind as they are.
proof fn lemma_keep_trips(
    table: Map<u32, u16>,
    a: int,
    b: int,
    c: int,
    d: int,
    e: int,
    score: u16,
)
    requires
        trips_part(table, 0, 0, 0),
        is_rank(a),
        is_rank(b),
        is_rank(c),
        is_rank(d),
        is_rank(e),
        forall|r: int| #[trigger] count5(r, a, b, c, d, e) <= 2,
    ensures
        trips_part(table.insert(key5(a, b, c, d, e), score), 0, 0, 0),
{
    let after = table.insert(key5(a, b, c, d, e), score);
    assert forall|t: int, k1: int, k2: int|
        is_rank(t) && is_rank(k1) && is_rank(k2) && k2 < k1 && t != k1 && t
            != k2 implies after.contains_key(#[trigger] key5(t, t, t, k1, k2)) && after[key5(
        t,
        t,
        t,
        k1,
        k2,
    )] == trips_score(t, k1, k2) by {
        assert(count5(t, a, b, c, d, e) <= 2);
        lemma_products_differ(t, t, t, t, k1, k2, a, b, c, d, e);
    }
}

/// Filing a hand in which only one rank comes twice leaves the two pairs
/// as they are.
proof fn lemma_keep_two_pairs(
    table: Map<u32, u16>,
    a: int,
    b: int,
    c: int,
    d: int,
    e: int,
    score: u16,
)
    requires
        two_pair_part(table, 0, 0, 0),
        is_rank(a),
        is_rank(b),
        is_rank(c),
        is_rank(d),
        is_rank(e),
        forall|r: int, s: int|
            #[trigger] count5(r, a, b, c, d, e) == 2 && #[trigger] count5(s, a, b, c, d, e) == 2
                ==> r == s,
    ensures
        two_pair_part(table.insert(key5(a, b, c, d, e), score), 0, 0, 0),
{
    let after = table.insert(key5(a, b, c, d, e), score);
    assert forall|hi: int, lo: int, k: int|
        is_rank(hi) && is_rank(lo) && is_rank(k) && lo < hi && k != hi && k
            != lo implies after.contains_key(#[trigger] key5(hi, hi, lo, lo, k)) && after[key5(
        hi,
        hi,
        lo,
        lo,
        k,
    )] == two_pair_score(hi, lo, k) by {
        assert(count5(hi, a, b, c, d, e) == 2 && count5(lo, a, b, c, d, e) == 2 ==> hi == lo);
        lemma_products_differ(hi, hi, hi, lo, lo, k, a, b, c, d, e);
        lemma_products_differ(lo, hi, hi, lo, lo, k, a, b, c, d, e);
    }
}

/// Filing the next full house extends the full houses filed so far.
proof fn lemma_full_house_step(table: Map<u32, u16>, t: int, r: int, score: u16)
    requires
        full_house_part(table, t, r + 1),
        is_rank(t),
        is_rank(r),
        t != r,
        score == full_house_score(t, r),
    ensures
        full_house_part(table.insert(key5(t, t, t, r, r), score), t, r),
{
    let after = table.insert(key5(t, t, t, r, r), score);
    assert forall|t2: int, r2: int|
        is_rank(t2) && is_rank(r2) && t2 != r2 && (t2 > t || (t2 == t && r2
            >= r)) implies after.contains_key(#[trigger] key5(t2, t2, t2, r2, r2)) && after[key5(
        t2,
        t2,
        t2,
        r2,
        r2,
    )] == full_house_score(t2, r2) by {
        if t2 != t || r2 != r {
            lemma_products_differ(t2, t2, t2, t2, r2, r2, t, t, t, r, r);
            lemma_products_differ(r2, t2, t2, t2, r2, r2, t, t, t, r, r);
        }
    }
}

/// Filing the next three of a kind extends those filed so far.
proof fn lemma_trips_step(table: Map<u32, u16>, t: int, k1: int, k2: int, score: u16)
    requires
        trips_part(table, t, k1, k2 + 1),
        is_rank(t),
        is_rank(k1),
        is_rank(k2),
        k2 < k1,
        t != k1,
        t != k2,
        score == trips_score(t, k1, k2),
    ensures
        trips_part(table.insert(key5(t, t, t, k1, k2), score), t, k1, k2),
{
    let after = table.insert(key5(t, t, t, k1, k2), score);
    assert forall|t2: int, j1: int, j2: int|
        is_rank(t2) && is_rank(j1) && is_rank(j2) && j2 < j1 && t2 != j1 && t2 != j2 && (t2 > t
            || (t2 == t && (j1 > k1 || (j1 == k1 && j2 >= k2)))) implies after.contains_key(
        #[trigger] key5(t2, t2, t2, j1, j2),
    ) && after[key5(t2, t2, t2, j1, j2)] == trips_score(t2, j1, j2) by {
        if t2 != t || j1 != k1 || j2 != k2 {
            lemma_products_differ(t2, t2, t2, t2, j1, j2, t, t, t, k1, k2);
            lemma_products_differ(j1, t2, t2, t2, j1, j2, t, t, t, k1, k2);
            lemma_products_differ(j2, t2, t2, t2, j1, j2, t, t, t, k1, k2);
        }
    }
}

/// Filing the next two pairs extends those filed so far.
proof fn lemma_two_pair_step(table: Map<u32, u16>, hi: int, lo: int, k: int, score: u16)
    requires
        two_pair_part(table, hi, lo, k + 1),
        is_rank(hi),
        is_rank(lo),
        is_rank(k),
        lo < hi,
        k != hi,
        k != lo,
        score == two_pair_score(hi, lo, k),
    ensures
        two_pair_part(table.insert(key5(hi, hi, lo, lo, k), score), hi, lo, k),
{
    let after = table.insert(key5(hi, hi, lo, lo, k), score);
    assert forall|q1: int, q2: int, j: int|
        is_rank(q1) && is_rank(q2) && is_rank(j) && q2 < q1 && j != q1 && j != q2 && (q1 > hi || (
        q1 == hi && (q2 > lo || (q2 == lo && j >= k)))) implies after.contains_key(
        #[trigger] key5(q1, q1, q2, q2, j),
    ) && after[key5(q1, q1, q2, q2, j)] == two_pair_score(q1, q2, j) by {
        if q1 != hi || q2 != lo || j != k {
            lemma_products_differ(q1, q1, q1, q2, q2, j, hi, hi, lo, lo, k);
            lemma_products_differ(q2, q1, q1, q2, q2, j, hi, hi, lo, lo, k);
            lemma_products_differ(j, q1, q1, q2, q2, j, hi, hi, lo, lo, k);
        }
    }
}

/// Filing the next pair extends those filed so far.
proof fn lemma_one_pair_step(
    table: Map<u32, u16>,
    r: int,
    k1: int,
    k2: int,
    k3: int,
    score: u16,
)
    requires
        one_pair_part(table, r, k1, k2, k3 + 1),
        is_rank(r),
        is_rank(k1),
        is_rank(k2),
        is_rank(k3),
        k3 < k2 < k1,
        r != k1,
        r != k2,
        r != k3,
        score == one_pair_score(r, k1, k2, k3),
    ensures
        one_pair_part(table.insert(key5(r, r, k1, k2, k3), score), r, k1, k2, k3),
{
    let after = table.insert(key5(r, r, k1, k2, k3), score);
    assert forall|r2: int, j1: int, j2: int, j3: int|
        is_rank(r2) && is_rank(j1) && is_rank(j2) && is_rank(j3) && j3 < j2 < j1 && r2 != j1 && r2
            != j2 && r2 != j3 && (r2 > r || (r2 == r && (j1 > k1 || (j1 == k1 && (j2 > k2 || (j2
            == k2 && j3 >= k3)))))) implies after.contains_key(
        #[trigger] key5(r2, r2, j1, j2, j3),
    ) && after[key5(r2, r2, j1, j2, j3)] == one_pair_score(r2, j1, j2, j3) by {
        if r2 != r || j1 != k1 || j2 != k2 || j3 != k3 {
            lemma_products_differ(r2, r2, r2, j1, j2, j3, r, r, k1, k2, k3);
            lemma_products_differ(j1, r2, r2, j1, j2, j3, r, r, k1, k2, k3);
            lemma_products_differ(j2, r2, r2, j1, j2, j3, r, r, k1, k2, k3);
            lemma_products_differ(j3, r2, r2, j1, j2, j3, r, r, k1, k2, k3);
        }
    }
}

/// Adds the full houses.
fn insert_full_houses(table: &mut HashMap<u32, u16>)
    requires
        only_paired(old(table)@),
        quads_part(old(table)@, 0, 0),
    ensures
        only_paired(final(table)@),
        quads_part(final(table)@, 0, 0),
        full_house_part(final(table)@, 0, 0),
{
    let mut rank: u16 = 167;
    let mut t: usize = 13;
    while t > 0
        invariant
            0 <= t <= 13,
            rank == 167 + (13 - t) * 12,
            only_paired(table@),
            quads_part(table@, 0, 0),
            full_house_part(table@, t - 1, 13),
        decreases t,
    {
        t = t - 1;
        let mut r: usize = 13;
        while r > 0
            invariant
                0 <= t < 13,
                0 <= r <= 13,
                rank == 167 + (12 - t) * 12 + (12 - below(r as int, t as int)),
                only_paired(table@),
                quads_part(table@, 0, 0),
                full_house_part(table@, t as int, r as int),
            decreases r,
        {
            r = r - 1;
            if r != t {
                let ghost before = table@;
                insert_product(table, t, t, t, r, r, rank);
                proof {
                    let ti = t as int;
                    let ri = r as int;
                    lemma_products_differ(ti, ti, ti, ti, ri, ri, ti, ti, ti, ri, ri);
                    assert(is_full_house(key5(ti, ti, ti, ri, ri) as int, ti, ri));
                    lemma_only_paired_insert(before, key5(ti, ti, ti, ri, ri), rank);
                    lemma_keep_quads(before, ti, ti, ti, ri, ri, rank);
                    lemma_full_house_step(before, ti, ri, rank);
                }
                rank = rank + 1;
            }
        }
    }
}

/// Adds the threes of a kind.
fn insert_trips(table: &mut HashMap<u32, u16>)
    requires
        only_paired(old(table)@),
        quads_part(old(table)@, 0, 0),
        full_house_part(old(table)@, 0, 0),
    ensures
        only_paired(final(table)@),
        quads_part(final(table)@, 0, 0),
        full_house_part(final(table)@, 0, 0),
        trips_part(final(table)@, 0, 0, 0),
{
    let mut rank: u16 = 1610;
    let mut t: usize = 13;
    proof {
        lemma_choose_values();
    }
    while t > 0
        invariant
            0 <= t <= 13,
            rank == 1610 + (13 - t) * 66,
            only_paired(table@),
            quads_part(table@, 0, 0),
            full_house_part(table@, 0, 0),
            trips_part(table@, t - 1, 13, 0),
            choose2(12) == 66,
            choose2(0) == 0,
        decreases t,
    {
        t = t - 1;
        let mut k1: usize = 13;
        while k1 > 0
            invariant
                0 <= t < 13,
                0 <= k1 <= 13,
                rank == 1610 + (12 - t) * 66 + (66 - choose2(below(k1 as int, t as int))),
                only_paired(table@),
                quads_part(table@, 0, 0),
                full_house_part(table@, 0, 0),
                trips_part(table@, t as int, k1 - 1, 13),
            decreases k1,
        {
            k1 = k1 - 1;
            if k1 != t {
                let mut k2: usize = k1;
                proof {
                    lemma_choose_bounds(below(k1 as int, t as int) + 1);
                }
                while k2 > 0
                    invariant
                        0 <= t < 13,
                        0 <= k1 < 13,
                        k1 != t,
                        0 <= k2 <= k1,
                        0 <= choose2(below(k1 as int, t as int) + 1) <= 156,
                        rank == 1610 + (12 - t) * 66 + (66 - choose2(below(k1 as int, t as int) + 1))
                            + (below(k1 as int, t as int) - below(k2 as int, t as int)),
                        only_paired(table@),
                        quads_part(table@, 0, 0),
                        full_house_part(table@, 0, 0),
                        trips_part(table@, t as int, k1 as int, k2 as int),
                    decreases k2,
                {
                    k2 = k2 - 1;
                    if k2 != t {
                        let ghost before = table@;
                        insert_product(table, t, t, t, k1, k2, rank);
                        proof {
                            let ti = t as int;
                            let a = k1 as int;
                            let b = k2 as int;
                            lemma_products_differ(ti, ti, ti, ti, a, b, ti, ti, ti, a, b);
                            assert(is_trips(key5(ti, ti, ti, a, b) as int, ti, a, b));
                            lemma_only_paired_insert(before, key5(ti, ti, ti, a, b), rank);
                            lemma_keep_quads(before, ti, ti, ti, a, b, rank);
                            lemma_keep_full_houses(before, ti, ti, ti, a, b, rank);
                            lemma_trips_step(before, ti, a, b, rank);
                        }
                        rank = rank + 1;
                    }
                }
            }
        }
    }
}

/// Adds the two pairs.
fn insert_two_pairs(table: &mut HashMap<u32, u16>)
    requires
        only_paired(old(table)@),
        quads_part(old(table)@, 0, 0),
        full_house_part(old(table)@, 0, 0),
        trips_part(old(table)@, 0, 0, 0),
    ensures
        only_paired(final(table)@),
        quads_part(final(table)@, 0, 0),
        full_house_part(final(table)@, 0, 0),
        trips_part(final(table)@, 0, 0, 0),
        two_pair_part(final(table)@, 0, 0, 0),
{
    let mut rank: u16 = 2468;
    let mut hi: usize = 13;
    proof {
        lemma_choose_values();
    }
    while hi > 0
        invariant
            0 <= hi <= 13,
            rank == 2468 + (78 - choose2(hi as int)) * 11,
            0 <= choose2(hi as int) <= 78,
            only_paired(table@),
            quads_part(table@, 0, 0),
            full_house_part(table@, 0, 0),
            trips_part(table@, 0, 0, 0),
            two_pair_part(table@, hi - 1, 13, 0),
        decreases hi,
    {
        hi = hi - 1;
        let mut lo: usize = hi;
        proof {
            lemma_choose_bounds(hi as int);
        }
        while lo > 0
            invariant
                0 <= hi < 13,
                0 <= lo <= hi,
                0 <= choose2(hi as int),
                choose2(hi + 1) == choose2(hi as int) + hi,
                choose2(hi + 1) <= 78,
                rank == 2468 + ((78 - choose2(hi + 1)) + (hi - lo)) * 11,
                only_paired(table@),
                quads_part(table@, 0, 0),
                full_house_part(table@, 0, 0),
                trips_part(table@, 0, 0, 0),
                two_pair_part(table@, hi as int, lo - 1, 13),
            decreases lo,
        {
            lo = lo - 1;
            let mut k: usize = 13;
            while k > 0
                invariant
                    0 <= lo < hi < 13,
                    0 <= k <= 13,
                    0 <= choose2(hi + 1) <= 78,
                    rank == 2468 + ((78 - choose2(hi + 1)) + (hi - 1 - lo)) * 11 + (11 - below2(
                        k as int,
                        hi as int,
                        lo as int,
                    )),
                    only_paired(table@),
                    quads_part(table@, 0, 0),
                    full_house_part(table@, 0, 0),
                    trips_part(table@, 0, 0, 0),
                    two_pair_part(table@, hi as int, lo as int, k as int),
                decreases k,
            {
                k = k - 1;
                if k != hi && k != lo {
                    let ghost before = table@;
                    insert_product(table, hi, hi, lo, lo, k, rank);
                    proof {
                        let a = hi as int;
                        let b = lo as int;
                        let c = k as int;
                        lemma_products_differ(a, a, a, b, b, c, a, a, b, b, c);
                        assert(is_two_pair(key5(a, a, b, b, c) as int, a, b, c));
                        lemma_only_paired_insert(before, key5(a, a, b, b, c), rank);
                        lemma_keep_quads(before, a, a, b, b, c, rank);
                        lemma_keep_full_houses(before, a, a, b, b, c, rank);
                        lemma_keep_trips(before, a, a, b, b, c, rank);
                        lemma_two_pair_step(before, a, b, c, rank);
                    }
                    rank = rank + 1;
                }
            }
        }
    }
}

/// Adds the pairs.
fn insert_pairs(table: &mut HashMap<u32, u16>)
    requires
        only_paired(old(table)@),
        quads_part(old(table)@, 0, 0),
        full_house_part(old(table)@, 0, 0),
        trips_part(old(table)@, 0, 0, 0),
        two_pair_part(old(table)@, 0, 0, 0),
    ensures
        only_paired(final(table)@),
        quads_part(final(table)@, 0, 0),
        full_house_part(final(table)@, 0, 0),
        trips_part(final(table)@, 0, 0, 0),
        two_pair_part(final(table)@, 0, 0, 0),
        one_pair_part(final(table)@, 0, 0, 0, 0),
{
    let mut rank: u16 = 3326;
    let mut r: usize = 13;
    proof {
        lemma_choose_values();
    }
    while r > 0
        invariant
            0 <= r <= 13,
            rank == 3326 + (13 - r) * 220,
            choose3(12) == 220,
            choose3(0) == 0,
            choose2(0) == 0,
            only_paired(table@),
            quads_part(table@, 0, 0),
            full_house_part(table@, 0, 0),
            trips_part(table@, 0, 0, 0),
            two_pair_part(table@, 0, 0, 0),
            one_pair_part(table@, r - 1, 13, 0, 0),
        decreases r,
    {
        r = r - 1;
        let mut k1: usize = 13;
        while k1 > 0
            invariant
                0 <= r < 13,
                0 <= k1 <= 13,
                choose3(0) == 0,
                choose2(0) == 0,
                rank == 3326 + (12 - r) * 220 + (220 - choose3(below(k1 as int, r as int))),
                only_paired(table@),
                quads_part(table@, 0, 0),
                full_house_part(table@, 0, 0),
                trips_part(table@, 0, 0, 0),
                two_pair_part(table@, 0, 0, 0),
                one_pair_part(table@, r as int, k1 - 1, 13, 0),
            decreases k1,
        {
            k1 = k1 - 1;
            if k1 != r {
                let mut k2: usize = k1;
                proof {
                    lemma_choose_bounds(below(k1 as int, r as int) + 1);
                    lemma_choose_bounds(below(k1 as int, r as int));
                }
                while k2 > 0
                    invariant
                        0 <= r < 13,
                        0 <= k1 < 13,
                        k1 != r,
                        0 <= k2 <= k1,
                        choose2(0) == 0,
                        0 <= choose3(below(k1 as int, r as int) + 1) <= 2028,
                        0 <= choose2(below(k1 as int, r as int)) <= 156,
                        rank == 3326 + (12 - r) * 220 + (220 - choose3(below(k1 as int, r as int) + 1))
                            + (choose2(below(k1 as int, r as int)) - choose2(
                            below(k2 as int, r as int),
                        )),
                        only_paired(table@),
                        quads_part(table@, 0, 0),
                        full_house_part(table@, 0, 0),
                        trips_part(table@, 0, 0, 0),
                        two_pair_part(table@, 0, 0, 0),
                        one_pair_part(table@, r as int, k1 as int, k2 - 1, 13),
                    decreases k2,
                {
                    k2 = k2 - 1;
                    if k2 != r {
                        let mut k3: usize = k2;
                        proof {
                            lemma_choose_bounds(below(k2 as int, r as int) + 1);
                        }
                        while k3 > 0
                            invariant
                                0 <= r < 13,
                                0 <= k2 < k1 < 13,
                                k1 != r,
                                k2 != r,
                                0 <= k3 <= k2,
                                0 <= choose3(below(k1 as int, r as int) + 1) <= 2028,
                                0 <= choose2(below(k1 as int, r as int)) <= 156,
                                0 <= choose2(below(k2 as int, r as int) + 1) <= 156,
                                rank == 3326 + (12 - r) * 220 + (220 - choose3(
                                    below(k1 as int, r as int) + 1,
                                )) + (choose2(below(k1 as int, r as int)) - choose2(
                                    below(k2 as int, r as int) + 1,
                                )) + (below(k2 as int, r as int) - below(k3 as int, r as int)),
                                only_paired(table@),
                                quads_part(table@, 0, 0),
                                full_house_part(table@, 0, 0),
                                trips_part(table@, 0, 0, 0),
                                two_pair_part(table@, 0, 0, 0),
                                one_pair_part(table@, r as int, k1 as int, k2 as int, k3 as int),
                            decreases k3,
                        {
                            k3 = k3 - 1;
                            if k3 != r {
                                let ghost before = table@;
                                insert_product(table, r, r, k1, k2, k3, rank);
                                proof {
                                    let a = r as int;
                                    let b = k1 as int;
                                    let c = k2 as int;
                                    let d = k3 as int;
                                    lemma_products_differ(a, a, a, b, c, d, a, a, b, c, d);
                                    assert(is_one_pair(key5(a, a, b, c, d) as int, a, b, c, d));
                                    lemma_only_paired_insert(before, key5(a, a, b, c, d), rank);
                                    lemma_keep_quads(before, a, a, b, c, d, rank);
                                    lemma_keep_full_houses(before, a, a, b, c, d, rank);
                                    lemma_keep_trips(before, a, a, b, c, d, rank);
                                    lemma_keep_two_pairs(before, a, a, b, c, d, rank);
                                    lemma_one_pair_step(before, a, b, c, d, rank);
                                }
                                rank = rank + 1;
                            }
                        }
                    }
                }
            }
        }
    }
}

/// A table that holds every hand that pairs, and only such hands, is the
/// table of products.
proof fn lemma_product_table(table: Map<u32, u16>)
    requires
        only_paired(table),
        quads_part(table, 0, 0),
        full_house_part(table, 0, 0),
        trips_part(table, 0, 0, 0),
        two_pair_part(table, 0, 0, 0),
        one_pair_part(table, 0, 0, 0, 0),
    ensures
        is_product_table(table),
{
    assert forall|key: u32| product_score(key as int) is Some implies #[trigger] table.contains_key(
        key,
    ) && table[key] == product_score(key as int)->0 by {
        let p = key as int;
        if exists|q: int, k: int| is_quads(p, q, k) {
            let (q, k) = choose|q: int, k: int| is_quads(p, q, k);
            assert(key5(q, q, q, q, k) == key);
        } else if exists|t: int, r: int| is_full_house(p, t, r) {
            let (t, r) = choose|t: int, r: int| is_full_house(p, t, r);
            assert(key5(t, t, t, r, r) == key);
        } else if exists|t: int, k1: int, k2: int| is_trips(p, t, k1, k2) {
            let (t, k1, k2) = choose|t: int, k1: int, k2: int| is_trips(p, t, k1, k2);
            assert(key5(t, t, t, k1, k2) == key);
        } else if exists|hi: int, lo: int, k: int| is_two_pair(p, hi, lo, k) {
            let (hi, lo, k) = choose|hi: int, lo: int, k: int| is_two_pair(p, hi, lo, k);
            assert(key5(hi, hi, lo, lo, k) == key);
        } else {
            let (r, k1, k2, k3) = choose|r: int, k1: int, k2: int, k3: int|
                is_one_pair(p, r, k1, k2, k3);
            assert(key5(r, r, k1, k2, k3) == key);
        }
    }
}

/// Builds the table of products: a score for each hand of five cards that
/// holds some rank more than once.
pub fn generate_prime_product_table() -> (table: HashMap<u32, u16>)
    ensures
        is_product_table(table@),
{
    let mut table: HashMap<u32, u16> = HashMap::new();
    insert_quads(&mut table);
    insert_full_houses(&mut table);
    insert_trips(&mut table);
    insert_two_pairs(&mut table);
    insert_pairs(&mut table);
    proof {
        lemma_product_table(table@);
    }
    table
}

/// The binomials grow with their argument.
proof fn lemma_choose_grows(a: int, b: int)
    requires
        0 <= a <= b,
    ensures
        0 <= choose2(a) <= choose2(b),
        0 <= choose3(a) <= choose3(b),
    decreases b,
{
    if a < b {
        lemma_choose_grows(a, b - 1);
    } else if a > 0 {
        lemma_choose_grows(a - 1, a - 1);
    }
}

/// Each score of a hand that pairs lies in the band of its category: 11 to
/// 166 for four of a kind, 167 to 322 for a full house, 1610 to 2467 for
/// three of a kind, 2468 to 3325 for two pairs and 3326 to 6185 for a pair.
pub proof fn lemma_pattern_bands(a: int, b: int, c: int, d: int)
    requires
        is_rank(a),
        is_rank(b),
        is_rank(c),
        is_rank(d),
    ensures
        a != b ==> 11 <= quads_score(a, b) <= 166,
        a != b ==> 167 <= full_house_score(a, b) <= 322,
        c < b && a != b && a != c ==> 1610 <= trips_score(a, b, c) <= 2467,
        b < a && c != a && c != b ==> 2468 <= two_pair_score(a, b, c) <= 3325,
        d < c < b && a != b && a != c && a != d ==> 3326 <= one_pair_score(a, b, c, d) <= 6185,
{
    lemma_choose_values();
    if c < b && a != b && a != c {
        let b1 = below(b, a);
        let b2 = below(c, a);
        lemma_choose_grows(b1 + 1, 12);
        lemma_choose_grows(0, b1);
        assert(choose2(b1 + 1) == choose2(b1) + b1);
    }
    if b < a && c != a && c != b {
        lemma_choose_grows(a + 1, 13);
        lemma_choose_grows(0, a);
        assert(choose2(a + 1) == choose2(a) + a);
    }
    if d < c < b && a != b && a != c && a != d {
        let b1 = below(b, a);
        let b2 = below(c, a);
        let b3 = below(d, a);
        lemma_choose_grows(b1 + 1, 12);
        lemma_choose_grows(b2 + 1, b1);
        lemma_choose_grows(0, b2);
        lemma_choose_grows(0, b1);
        assert(choose3(b1 + 1) == choose3(b1) + choose2(b1));
        assert(choose2(b2 + 1) == choose2(b2) + b2);
    }
}

/// A score read from the table of products lies between 11 and 6185.
pub proof fn lemma_product_score_range(p: int)
    requires
        product_score(p) is Some,
    ensures
        11 <= product_score(p)->0 <= 6185,
{
    if exists|q: int, k: int| is_quads(p, q, k) {
        let (q, k) = choose|q: int, k: int| is_quads(p, q, k);
        lemma_pattern_bands(q, k, 0, 0);
    } else if exists|t: int, r: int| is_full_house(p, t, r) {
        let (t, r) = choose|t: int, r: int| is_full_house(p, t, r);
        lemma_pattern_bands(t, r, 0, 0);
    } else if exists|t: int, k1: int, k2: int| is_trips(p, t, k1, k2) {
        let (t, k1, k2) = choose|t: int, k1: int, k2: int| is_trips(p, t, k1, k2);
        lemma_pattern_bands(t, k1, k2, 0);
    } else if exists|hi: int, lo: int, k: int| is_two_pair(p, hi, lo, k) {
        let (hi, lo, k) = choose|hi: int, lo: int, k: int| is_two_pair(p, hi, lo, k);
        lemma_pattern_bands(hi, lo, k, 0);
    } else {
        let (r, k1, k2, k3) = choose|r: int, k1: int, k2: int, k3: int|
            is_one_pair(p, r, k1, k2, k3);
        lemma_pattern_bands(r, k1, k2, k3);
    }
}

/// Four of a kind with a kicker scores as [`quads_score`] says.
pub proof fn lemma_quads_scored(q: int, k: int)
    requires
        is_rank(q),
        is_rank(k),
        q != k,
    ensures
        product_score(product5(q, q, q, q, k)) == Some(quads_score(q, k)),
{
    let p = product5(q, q, q, q, k);
    assert(is_quads(p, q, k));
    let (q2, k2) = choose|q2: int, k2: int| is_quads(p, q2, k2);
    lemma_same_product_same_counts(q, q, q, q, q, k, q2, q2, q2, q2, k2);
    lemma_same_product_same_counts(k, q, q, q, q, k, q2, q2, q2, q2, k2);
}

/// A full house scores as [`full_house_score`] says.
pub proof fn lemma_full_house_scored(t: int, r: int)
    requires
        is_rank(t),
        is_rank(r),
        t != r,
    ensures
        product_score(product5(t, t, t, r, r)) == Some(full_house_score(t, r)),
{
    let p = product5(t, t, t, r, r);
    assert(is_full_house(p, t, r));
    assert forall|q: int, k: int| !is_quads(p, q, k) by {
        if is_quads(p, q, k) {
            lemma_same_product_same_counts(q, t, t, t, r, r, q, q, q, q, k);
        }
    }
    let (t2, r2) = choose|t2: int, r2: int| is_full_house(p, t2, r2);
    lemma_same_product_same_counts(t, t, t, t, r, r, t2, t2, t2, r2, r2);
    lemma_same_product_same_counts(r, t, t, t, r, r, t2, t2, t2, r2, r2);
}

/// Three of a kind with two kickers scores as [`trips_score`] says.
pub proof fn lemma_trips_scored(t: int, k1: int, k2: int)
    requires
        is_rank(t),
        is_rank(k1),
        is_rank(k2),
        k2 < k1,
        t != k1,
        t != k2,
    ensures
        product_score(product5(t, t, t, k1, k2)) == Some(trips_score(t, k1, k2)),
{
    let p = product5(t, t, t, k1, k2);
    assert(is_trips(p, t, k1, k2));
    assert forall|q: int, k: int| !is_quads(p, q, k) by {
        if is_quads(p, q, k) {
            lemma_same_product_same_counts(q, t, t, t, k1, k2, q, q, q, q, k);
        }
    }
    assert forall|a: int, b: int| !is_full_house(p, a, b) by {
        if is_full_house(p, a, b) {
            lemma_same_product_same_counts(b, t, t, t, k1, k2, a, a, a, b, b);
        }
    }
    let (t2, j1, j2) = choose|t2: int, j1: int, j2: int| is_trips(p, t2, j1, j2);
    lemma_same_product_same_counts(t, t, t, t, k1, k2, t2, t2, t2, j1, j2);
    lemma_same_product_same_counts(k1, t, t, t, k1, k2, t2, t2, t2, j1, j2);
    lemma_same_product_same_counts(k2, t, t, t, k1, k2, t2, t2, t2, j1, j2);
}

/// Two pairs with a kicker score as [`two_pair_score`] says.
pub proof fn lemma_two_pair_scored(hi: int, lo: int, k: int)
    requires
        is_rank(hi),
        is_rank(lo),
        is_rank(k),
        lo < hi,
        k != hi,
        k != lo,
    ensures
        product_score(product5(hi, hi, lo, lo, k)) == Some(two_pair_score(hi, lo, k)),
{
    let p = product5(hi, hi, lo, lo, k);
    assert(is_two_pair(p, hi, lo, k));
    assert forall|q: int, j: int| !is_quads(p, q, j) by {
        if is_quads(p, q, j) {
            lemma_same_product_same_counts(q, hi, hi, lo, lo, k, q, q, q, q, j);
        }
    }
    assert forall|a: int, b: int| !is_full_house(p, a, b) by {
        if is_full_house(p, a, b) {
            lemma_same_product_same_counts(a, hi, hi, lo, lo, k, a, a, a, b, b);
        }
    }
    assert forall|a: int, b: int, c: int| !is_trips(p, a, b, c) by {
        if is_trips(p, a, b, c) {
            lemma_same_product_same_counts(a, hi, hi, lo, lo, k, a, a, a, b, c);
        }
    }
    let (q1, q2, j) = choose|q1: int, q2: int, j: int| is_two_pair(p, q1, q2, j);
    lemma_same_product_same_counts(hi, hi, hi, lo, lo, k, q1, q1, q2, q2, j);
    lemma_same_product_same_counts(lo, hi, hi, lo, lo, k, q1, q1, q2, q2, j);
    lemma_same_product_same_counts(k, hi, hi, lo, lo, k, q1, q1, q2, q2, j);
}

/// A pair with three kickers scores as [`one_pair_score`] says.
pub proof fn lemma_one_pair_scored(r: int, k1: int, k2: int, k3: int)
    requires
        is_rank(r),
        is_rank(k1),
        is_rank(k2),
        is_rank(k3),
        k3 < k2 < k1,
        r != k1,
        r != k2,
        r != k3,
    ensures
        product_score(product5(r, r, k1, k2, k3)) == Some(one_pair_score(r, k1, k2, k3)),
{
    let p = product5(r, r, k1, k2, k3);
    assert(is_one_pair(p, r, k1, k2, k3));
    assert forall|q: int, j: int| !is_quads(p, q, j) by {
        if is_quads(p, q, j) {
            lemma_same_product_same_counts(q, r, r, k1, k2, k3, q, q, q, q, j);
        }
    }
    assert forall|a: int, b: int| !is_full_house(p, a, b) by {
        if is_full_house(p, a, b) {
            lemma_same_product_same_counts(a, r, r, k1, k2, k3, a, a, a, b, b);
        }
    }
    assert forall|a: int, b: int, c: int| !is_trips(p, a, b, c) by {
        if is_trips(p, a, b, c) {
            lemma_same_product_same_counts(a, r, r, k1, k2, k3, a, a, a, b, c);
        }
    }
    assert forall|a: int, b: int, c: int| !is_two_pair(p, a, b, c) by {
        if is_two_pair(p, a, b, c) {
            lemma_same_product_same_counts(a, r, r, k1, k2, k3, a, a, b, b, c);
            lemma_same_product_same_counts(b, r, r, k1, k2, k3, a, a, b, b, c);
        }
    }
    let (r2, j1, j2, j3) = choose|r2: int, j1: int, j2: int, j3: int| is_one_pair(p, r2, j1, j2, j3);
    lemma_same_product_same_counts(r, r, r, k1, k2, k3, r2, r2, j1, j2, j3);
    lemma_same_product_same_counts(k1, r, r, k1, k2, k3, r2, r2, j1, j2, j3);
    lemma_same_product_same_counts(k2, r, r, k1, k2, k3, r2, r2, j1, j2, j3);
    lemma_same_product_same_counts(k3, r, r, k1, k2, k3, r2, r2, j1, j2, j3);
}

/// Among fours of a kind, and among full houses, the higher first rank
/// scores lower, and with the same first rank the higher second rank.
pub proof fn lemma_quads_order(q: int, k: int, q2: int, k2: int)
    requires
        is_rank(q) && is_rank(k) && q != k,
        is_rank(q2) && is_rank(k2) && q2 != k2,
    ensures
        quads_score(q, k) < quads_score(q2, k2) <==> q > q2 || (q == q2 && k > k2),
        full_house_score(q, k) < full_house_score(q2, k2) <==> q > q2 || (q == q2 && k > k2),
{
}

/// The place of three of a kind among those of the same three: 65 less
/// the pairs of kickers below it.
proof fn lemma_trips_place(t: int, k1: int, k2: int)
    requires
        is_rank(t) && is_rank(k1) && is_rank(k2) && k2 < k1 && t != k1 && t != k2,
    ensures
        trips_score(t, k1, k2) == 1610 + (12 - t) * 66 + (65 - choose2(below(k1, t)) - below(k2, t)),
        0 <= 65 - choose2(below(k1, t)) - below(k2, t) <= 65,
{
    let b1 = below(k1, t);
    lemma_choose_values();
    assert(choose2(b1 + 1) == choose2(b1) + b1);
    lemma_choose_grows(b1 + 1, 12);
    lemma_choose_grows(0, b1);
}

/// Among threes of a kind the higher three scores lower, then the higher
/// first kicker, then the higher second kicker.
pub proof fn lemma_trips_order(t: int, k1: int, k2: int, t2: int, j1: int, j2: int)
    requires
        is_rank(t) && is_rank(k1) && is_rank(k2) && k2 < k1 && t != k1 && t != k2,
        is_rank(t2) && is_rank(j1) && is_rank(j2) && j2 < j1 && t2 != j1 && t2 != j2,
    ensures
        trips_score(t, k1, k2) < trips_score(t2, j1, j2) <==> t > t2 || (t == t2 && (k1 > j1 || (k1
            == j1 && k2 > j2))),
{
    lemma_trips_place(t, k1, k2);
    lemma_trips_place(t2, j1, j2);
    if t == t2 {
        let b1 = below(k1, t);
        let c1 = below(j1, t);
        assert(choose2(b1 + 1) == choose2(b1) + b1);
        assert(choose2(c1 + 1) == choose2(c1) + c1);
        if k1 > j1 {
            lemma_choose_grows(c1 + 1, b1);
        }
        if j1 > k1 {
            lemma_choose_grows(b1 + 1, c1);
        }
    }
}

/// Among two pairs the higher first pair scores lower, then the higher
/// second pair, then the higher kicker.
pub proof fn lemma_two_pair_order(hi: int, lo: int, k: int, hi2: int, lo2: int, k2: int)
    requires
        is_rank(hi) && is_rank(lo) && is_rank(k) && lo < hi && k != hi && k != lo,
        is_rank(hi2) && is_rank(lo2) && is_rank(k2) && lo2 < hi2 && k2 != hi2 && k2 != lo2,
    ensures
        two_pair_score(hi, lo, k) < two_pair_score(hi2, lo2, k2) <==> hi > hi2 || (hi == hi2 && (lo
            > lo2 || (lo == lo2 && k > k2))),
{
    assert(choose2(hi + 1) == choose2(hi) + hi);
    assert(choose2(hi2 + 1) == choose2(hi2) + hi2);
    lemma_choose_grows(0, hi);
    lemma_choose_grows(0, hi2);
    if hi > hi2 {
        lemma_choose_grows(hi2 + 1, hi);
    }
    if hi2 > hi {
        lemma_choose_grows(hi + 1, hi2);
    }
}

/// The place of a pair among those of the same rank: 219 less the triples
/// of kickers below it.
proof fn lemma_one_pair_place(r: int, k1: int, k2: int, k3: int)
    requires
        is_rank(r) && is_rank(k1) && is_rank(k2) && is_rank(k3) && k3 < k2 < k1 && r != k1 && r != k2
            && r != k3,
    ensures
        one_pair_score(r, k1, k2, k3) == 3326 + (12 - r) * 220 + (219 - choose3(below(k1, r))
            - choose2(below(k2, r)) - below(k3, r)),
        0 <= 219 - choose3(below(k1, r)) - choose2(below(k2, r)) - below(k3, r) <= 219,
{
    let b1 = below(k1, r);
    let b2 = below(k2, r);
    lemma_choose_values();
    assert(choose3(b1 + 1) == choose3(b1) + choose2(b1));
    assert(choose2(b2 + 1) == choose2(b2) + b2);
    lemma_choose_grows(b1 + 1, 12);
    lemma_choose_grows(b2 + 1, b1);
    lemma_choose_grows(0, b2);
    lemma_choose_grows(0, b1);
}

/// Among pairs the higher pair scores lower, then the higher kickers in
/// their order.
pub proof fn lemma_one_pair_order(
    r: int,
    k1: int,
    k2: int,
    k3: int,
    r2: int,
    j1: int,
    j2: int,
    j3: int,
)
    requires
        is_rank(r) && is_rank(k1) && is_rank(k2) && is_rank(k3) && k3 < k2 < k1 && r != k1 && r != k2
            && r != k3,
        is_rank(r2) && is_rank(j1) && is_rank(j2) && is_rank(j3) && j3 < j2 < j1 && r2 != j1 && r2
            != j2 && r2 != j3,
    ensures
        one_pair_score(r, k1, k2, k3) < one_pair_score(r2, j1, j2, j3) <==> r > r2 || (r == r2 && (
        k1 > j1 || (k1 == j1 && (k2 > j2 || (k2 == j2 && k3 > j3))))),
{
    lemma_one_pair_place(r, k1, k2, k3);
    lemma_one_pair_place(r2, j1, j2, j3);
    if r == r2 {
        let b1 = below(k1, r);
        let b2 = below(k2, r);
        let c1 = below(j1, r);
        let c2 = below(j2, r);
        assert(choose3(b1 + 1) == choose3(b1) + choose2(b1));
        assert(choose3(c1 + 1) == choose3(c1) + choose2(c1));
        assert(choose2(b2 + 1) == choose2(b2) + b2);
        assert(choose2(c2 + 1) == choose2(c2) + c2);
        lemma_choose_grows(b2 + 1, b1);
        lemma_choose_grows(c2 + 1, c1);
        lemma_choose_grows(0, b2);
        lemma_choose_grows(0, c2);
        if k1 > j1 {
            lemma_choose_grows(c1 + 1, b1);
        }
        if j1 > k1 {
            lemma_choose_grows(b1 + 1, c1);
        }
        if k1 == j1 && k2 > j2 {
            lemma_choose_grows(c2 + 1, b2);
        }
        if k1 == j1 && j2 > k2 {
            lemma_choose_grows(b2 + 1, c2);
        }
    }
}

/// The lower of two ranks first.
pub open spec fn in_order(a: int, b: int) -> (int, int) {
    if a <= b {
        (a, b)
    } else {
        (b, a)
    }
}

/// One pass over five ranks that puts each neighbouring two in order and
/// so carries the highest to the end.
pub open spec fn pass5(t: (int, int, int, int, int)) -> (int, int, int, int, int) {
    let (a, b) = in_order(t.0, t.1);
    let (b, c) = in_order(b, t.2);
    let (c, d) = in_order(c, t.3);
    let (d, e) = in_order(d, t.4);
    (a, b, c, d, e)
}

/// Five ranks from the lowest to the highest.
pub open spec fn sorted5(t: (int, int, int, int, int)) -> (int, int, int, int, int) {
    pass5(pass5(pass5(pass5(t))))
}

/// The product of the primes of five ranks does not depend on the order of
/// two neighbours.
proof fn lemma_product5_neighbours(a: int, b: int, c: int, d: int, e: int)
    ensures
        product5(a, b, c, d, e) == product5(b, a, c, d, e),
        product5(a, b, c, d, e) == product5(a, c, b, d, e),
        product5(a, b, c, d, e) == product5(a, b, d, c, e),
        product5(a, b, c, d, e) == product5(a, b, c, e, d),
{
    let pa = prime(a);
    let pb = prime(b);
    let pc = prime(c);
    let pd = prime(d);
    let pe = prime(e);
    assert(pa * (pb * (pc * (pd * pe))) == pb * (pa * (pc * (pd * pe)))) by (nonlinear_arith);
    assert(pa * (pb * (pc * (pd * pe))) == pa * (pc * (pb * (pd * pe)))) by (nonlinear_arith);
    assert(pa * (pb * (pc * (pd * pe))) == pa * (pb * (pd * (pc * pe)))) by (nonlinear_arith);
    assert(pa * (pb * (pc * (pd * pe))) == pa * (pb * (pc * (pe * pd)))) by (nonlinear_arith);
}

/// A pass keeps the product and the ranks it holds.
proof fn lemma_pass5(t: (int, int, int, int, int))
    ensures
        product5(pass5(t).0, pass5(t).1, pass5(t).2, pass5(t).3, pass5(t).4) == product5(
            t.0,
            t.1,
            t.2,
            t.3,
            t.4,
        ),
        forall|r: int|
            #[trigger] count5(r, pass5(t).0, pass5(t).1, pass5(t).2, pass5(t).3, pass5(t).4)
                == count5(r, t.0, t.1, t.2, t.3, t.4),
        is_rank(t.0) && is_rank(t.1) && is_rank(t.2) && is_rank(t.3) && is_rank(t.4) ==> is_rank(
            pass5(t).0,
        ) && is_rank(pass5(t).1) && is_rank(pass5(t).2) && is_rank(pass5(t).3) && is_rank(
            pass5(t).4,
        ),
{
    let (a, b) = in_order(t.0, t.1);
    lemma_product5_neighbours(t.0, t.1, t.2, t.3, t.4);
    let (b2, c) = in_order(b, t.2);
    lemma_product5_neighbours(a, b, t.2, t.3, t.4);
    let (c2, d) = in_order(c, t.3);
    lemma_product5_neighbours(a, b2, c, t.3, t.4);
    let (d2, e) = in_order(d, t.4);
    lemma_product5_neighbours(a, b2, c2, d, t.4);
}

/// Sorting keeps the product and the ranks, and puts them in order.
pub proof fn lemma_sorted5(t: (int, int, int, int, int))
    ensures
        product5(sorted5(t).0, sorted5(t).1, sorted5(t).2, sorted5(t).3, sorted5(t).4) == product5(
            t.0,
            t.1,
            t.2,
            t.3,
            t.4,
        ),
        forall|r: int|
            #[trigger] count5(r, sorted5(t).0, sorted5(t).1, sorted5(t).2, sorted5(t).3, sorted5(t).4)
                == count5(r, t.0, t.1, t.2, t.3, t.4),
        sorted5(t).0 <= sorted5(t).1 <= sorted5(t).2 <= sorted5(t).3 <= sorted5(t).4,
        is_rank(t.0) && is_rank(t.1) && is_rank(t.2) && is_rank(t.3) && is_rank(t.4) ==> is_rank(
            sorted5(t).0,
        ) && is_rank(sorted5(t).4),
{
    let t1 = pass5(t);
    let t2 = pass5(t1);
    let t3 = pass5(t2);
    lemma_pass5(t);
    lemma_pass5(t1);
    lemma_pass5(t2);
    lemma_pass5(t3);
    assert forall|r: int|
        #[trigger] count5(r, sorted5(t).0, sorted5(t).1, sorted5(t).2, sorted5(t).3, sorted5(t).4)
            == count5(r, t.0, t.1, t.2, t.3, t.4) by {
        assert(count5(r, t1.0, t1.1, t1.2, t1.3, t1.4) == count5(r, t.0, t.1, t.2, t.3, t.4));
        assert(count5(r, t2.0, t2.1, t2.2, t2.3, t2.4) == count5(r, t1.0, t1.1, t1.2, t1.3, t1.4));
        assert(count5(r, t3.0, t3.1, t3.2, t3.3, t3.4) == count5(r, t2.0, t2.1, t2.2, t2.3, t2.4));
    }
}

/// Two sorted hands that hold every rank equally often are the same.
proof fn lemma_sorted_unique(s: (int, int, int, int, int), t: (int, int, int, int, int))
    requires
        s.0 <= s.1 <= s.2 <= s.3 <= s.4,
        t.0 <= t.1 <= t.2 <= t.3 <= t.4,
        forall|r: int|
            #[trigger] count5(r, s.0, s.1, s.2, s.3, s.4) == count5(r, t.0, t.1, t.2, t.3, t.4),
    ensures
        s == t,
{
    assert(count5(s.0, s.0, s.1, s.2, s.3, s.4) == count5(s.0, t.0, t.1, t.2, t.3, t.4));
    assert(count5(s.1, s.0, s.1, s.2, s.3, s.4) == count5(s.1, t.0, t.1, t.2, t.3, t.4));
    assert(count5(s.2, s.0, s.1, s.2, s.3, s.4) == count5(s.2, t.0, t.1, t.2, t.3, t.4));
    assert(count5(s.3, s.0, s.1, s.2, s.3, s.4) == count5(s.3, t.0, t.1, t.2, t.3, t.4));
    assert(count5(s.4, s.0, s.1, s.2, s.3, s.4) == count5(s.4, t.0, t.1, t.2, t.3, t.4));
    assert(count5(t.0, s.0, s.1, s.2, s.3, s.4) == count5(t.0, t.0, t.1, t.2, t.3, t.4));
    assert(count5(t.1, s.0, s.1, s.2, s.3, s.4) == count5(t.1, t.0, t.1, t.2, t.3, t.4));
    assert(count5(t.2, s.0, s.1, s.2, s.3, s.4) == count5(t.2, t.0, t.1, t.2, t.3, t.4));
    assert(count5(t.3, s.0, s.1, s.2, s.3, s.4) == count5(t.3, t.0, t.1, t.2, t.3, t.4));
    assert(count5(t.4, s.0, s.1, s.2, s.3, s.4) == count5(t.4, t.0, t.1, t.2, t.3, t.4));
}

/// Two hands that hold every rank equally often have the same product: the
/// product does not depend on the order of the cards.
pub proof fn lemma_same_counts_same_product(
    s: (int, int, int, int, int),
    t: (int, int, int, int, int),
)
    requires
        forall|r: int|
            #[trigger] count5(r, s.0, s.1, s.2, s.3, s.4) == count5(r, t.0, t.1, t.2, t.3, t.4),
    ensures
        product5(s.0, s.1, s.2, s.3, s.4) == product5(t.0, t.1, t.2, t.3, t.4),
{
    lemma_sorted5(s);
    lemma_sorted5(t);
    let a = sorted5(s);
    let b = sorted5(t);
    assert forall|r: int|
        #[trigger] count5(r, a.0, a.1, a.2, a.3, a.4) == count5(r, b.0, b.1, b.2, b.3, b.4) by {
        assert(count5(r, s.0, s.1, s.2, s.3, s.4) == count5(r, t.0, t.1, t.2, t.3, t.4));
    }
    lemma_sorted_unique(a, b);
}

} // verus!
