//! Tables over sets of ranks.
//!
//! The ranks of five cards of different ranks are a 13-bit mask with five
//! bits set. Ten such masks are straights. A table over the masks gives
//! the straights ten scores in a row, best first, and the other 1277
//! masks the scores that follow, highest mask first.

use vstd::prelude::*;
use vstd::arithmetic::power2::pow2;

verus! {

/// The number of 13-bit rank masks.
pub const MASKS: usize = 8192;

/// The number of bits set in `m`.
pub open spec fn popcount(m: nat) -> nat
    decreases m,
{
    if m == 0 {
        0
    } else {
        (m % 2) + popcount(m / 2)
    }
}

/// The place of a rank mask among the ten straights, best first: 0 for
/// ace-high down to 8 for six-high, and 9 for the wheel, ace to five.
pub open spec fn straight_index(m: int) -> Option<int> {
    if m == 0x1F00 {
        Some(0int)
    } else if m == 0x0F80 {
        Some(1int)
    } else if m == 0x07C0 {
        Some(2int)
    } else if m == 0x03E0 {
        Some(3int)
    } else if m == 0x01F0 {
        Some(4int)
    } else if m == 0x00F8 {
        Some(5int)
    } else if m == 0x007C {
        Some(6int)
    } else if m == 0x003E {
        Some(7int)
    } else if m == 0x001F {
        Some(8int)
    } else if m == 0x100F {
        Some(9int)
    } else {
        None
    }
}

/// A mask of five ranks that form no straight.
pub open spec fn is_plain5(m: int) -> bool {
    0 <= m < MASKS && popcount(m as nat) == 5 && straight_index(m) is None
}

/// The number of plain five-rank masks above `m`.
pub open spec fn plain5_above(m: int) -> nat
    decreases MASKS - m,
{
    if m >= MASKS - 1 {
        0
    } else {
        plain5_above(m + 1) + if is_plain5(m + 1) {
            1nat
        } else {
            0nat
        }
    }
}

/// The entry of a rank mask in a table that gives the straights the scores
/// from `straights` on, best first, and the other five-rank masks the
/// scores from `plain` on, highest mask first. A mask of fewer or more
/// ranks has the entry 0.
pub open spec fn mask_score(m: int, straights: int, plain: int) -> int {
    match straight_index(m) {
        Some(i) => straights + i,
        None => if is_plain5(m) {
            plain + plain5_above(m)
        } else {
            0
        },
    }
}

/// The entry of a rank mask in the flush table: 1 to 10 for the straight
/// flushes, 323 and up for the other flushes.
pub open spec fn flush_score(m: int) -> int {
    mask_score(m, 1, 323)
}

/// The entry of a rank mask in the table of hands of five different ranks:
/// 1600 to 1609 for the straights, 6186 and up for the high-card hands.
pub open spec fn unique5_score(m: int) -> int {
    mask_score(m, 1600, 6186)
}

/// Whether a table holds, for each rank mask, the entry described by
/// [`mask_score`].
pub open spec fn is_mask_table(table: Seq<u16>, straights: int, plain: int) -> bool {
    &&& table.len() == MASKS
    &&& forall|m: int| 0 <= m < MASKS ==> #[trigger] table[m] == mask_score(m, straights, plain)
}

/// A number has no more bits set than its value.
pub proof fn lemma_popcount_small(m: nat)
    ensures
        popcount(m) <= m,
    decreases m,
{
    if m > 0 {
        lemma_popcount_small(m / 2);
    }
}

/// Counts the bits set in a rank mask.
pub fn count_bits(mask: u16) -> (count: u32)
    ensures
        count == popcount(mask as nat),
{
    let mut count: u32 = 0;
    let mut rest: u16 = mask;
    proof {
        lemma_popcount_small(mask as nat);
    }
    while rest > 0
        invariant
            count + popcount(rest as nat) == popcount(mask as nat),
            popcount(mask as nat) <= 0xFFFF,
        decreases rest,
    {
        count = count + (rest % 2) as u32;
        rest = rest / 2;
    }
    count
}

/// The straight at place `i` (see [`straight_index`]).
fn straight_pattern(i: usize) -> (mask: u16)
    requires
        i < 10,
    ensures
        straight_index(mask as int) == Some(i as int),
        mask < MASKS,
{
    match i {
        0 => 0x1F00,
        1 => 0x0F80,
        2 => 0x07C0,
        3 => 0x03E0,
        4 => 0x01F0,
        5 => 0x00F8,
        6 => 0x007C,
        7 => 0x003E,
        8 => 0x001F,
        _ => 0x100F,
    }
}

/// Whether the mask is one of the ten straights.
fn is_straight(mask: u16) -> (b: bool)
    ensures
        b == straight_index(mask as int) is Some,
{
    mask == 0x1F00 || mask == 0x0F80 || mask == 0x07C0 || mask == 0x03E0 || mask == 0x01F0
        || mask == 0x00F8 || mask == 0x007C || mask == 0x003E || mask == 0x001F || mask == 0x100F
}

/// Builds a table over the rank masks: the straights get the scores from
/// `straights` on, the other five-rank masks those from `plain` on.
fn generate_mask_table(straights: u16, plain: u16) -> (table: Vec<u16>)
    requires
        1 <= straights <= 2000,
        1 <= plain <= 8000,
    ensures
        is_mask_table(table@, straights as int, plain as int),
{
    let mut table: Vec<u16> = vec![0u16; 8192];
    let mut rank: u16 = straights;
    let mut i: usize = 0;
    while i < 10
        invariant
            0 <= i <= 10,
            rank == straights + i,
            straights <= 2000,
            table.len() == MASKS,
            forall|m: int|
                0 <= m < MASKS ==> #[trigger] table[m] == match straight_index(m) {
                    Some(j) => if j < i {
                        (straights + j) as u16
                    } else {
                        0u16
                    },
                    None => 0u16,
                },
        decreases 10 - i,
    {
        let pattern: u16 = straight_pattern(i);
        table[pattern as usize] = rank;
        rank = rank + 1;
        i = i + 1;
    }
    rank = plain;
    let mut bits: usize = 8192;
    while bits > 0
        invariant
            0 <= bits <= MASKS,
            plain <= 8000,
            straights <= 2000,
            rank == plain + plain5_above(bits - 1),
            rank <= plain + (MASKS - bits),
            table.len() == MASKS,
            forall|m: int|
                bits <= m < MASKS ==> #[trigger] table[m] == mask_score(
                    m,
                    straights as int,
                    plain as int,
                ),
            forall|m: int|
                0 <= m < bits ==> #[trigger] table[m] == match straight_index(m) {
                    Some(j) => (straights + j) as u16,
                    None => 0u16,
                },
        decreases bits,
    {
        bits = bits - 1;
        if count_bits(bits as u16) == 5 && !is_straight(bits as u16) {
            table[bits] = rank;
            rank = rank + 1;
        }
    }
    table
}

/// Builds the flush table.
pub fn generate_flush_table() -> (table: Vec<u16>)
    ensures
        is_mask_table(table@, 1, 323),
{
    generate_mask_table(1, 323)
}

/// Builds the table of hands of five different ranks.
pub fn generate_unique5_table() -> (table: Vec<u16>)
    ensures
        is_mask_table(table@, 1600, 6186),
{
    generate_mask_table(1600, 6186)
}

/// The binomial coefficient: the number of ways to pick `k` out of `n`.
pub open spec fn binom(n: nat, k: int) -> nat
    decreases n,
{
    if k < 0 {
        0
    } else if n == 0 {
        if k == 0 {
            1
        } else {
            0
        }
    } else {
        binom((n - 1) as nat, k) + binom((n - 1) as nat, k - 1)
    }
}

/// The number of masks below `n` with exactly `k` bits set.
pub open spec fn count_with_bits(n: nat, k: int) -> nat
    decreases n,
{
    if n == 0 {
        0
    } else {
        count_with_bits((n - 1) as nat, k) + if popcount((n - 1) as nat) == k {
            1nat
        } else {
            0nat
        }
    }
}

/// The number of plain five-rank masks below `n`.
pub open spec fn plain5_below(n: int) -> nat
    decreases n,
{
    if n <= 0 {
        0
    } else {
        plain5_below(n - 1) + if is_plain5(n - 1) {
            1nat
        } else {
            0nat
        }
    }
}

/// The number of straights among the masks below `n`.
pub open spec fn straights_below(n: int) -> int {
    one_if(0x001F < n) + one_if(0x003E < n) + one_if(0x007C < n) + one_if(0x00F8 < n) + one_if(
        0x01F0 < n,
    ) + one_if(0x03E0 < n) + one_if(0x07C0 < n) + one_if(0x0F80 < n) + one_if(0x100F < n) + one_if(
        0x1F00 < n,
    )
}

/// One where the condition holds, nothing otherwise.
pub open spec fn one_if(condition: bool) -> int {
    if condition {
        1
    } else {
        0
    }
}

/// Setting a bit above all the bits of `m` adds one to the bits set.
proof fn lemma_popcount_high(b: nat, m: nat)
    requires
        m < pow2(b),
    ensures
        popcount(pow2(b) + m) == 1 + popcount(m),
    decreases b,
{
    vstd::arithmetic::power2::lemma_pow2_pos(b);
    if b == 0 {
        vstd::arithmetic::power2::lemma2_to64();
        assert(popcount(1) == 1 + popcount(0));
    } else {
        vstd::arithmetic::power2::lemma_pow2_unfold(b);
        let half = pow2((b - 1) as nat);
        lemma_popcount_high((b - 1) as nat, m / 2);
        assert((2 * half + m) / 2 == half + m / 2);
        assert((2 * half + m) % 2 == m % 2);
        if m == 0 {
            assert(popcount(0) == 0);
        }
    }
}

/// The masks from `2^b` to below `2^b + n` have as many with `k` bits set
/// as the masks below `n` have with `k - 1`.
proof fn lemma_count_shift(b: nat, n: nat, k: int)
    requires
        n <= pow2(b),
    ensures
        count_with_bits(pow2(b) + n, k) == count_with_bits(pow2(b), k) + count_with_bits(n, k - 1),
    decreases n,
{
    if n > 0 {
        lemma_count_shift(b, (n - 1) as nat, k);
        lemma_popcount_high(b, (n - 1) as nat);
    }
}

/// Among the masks of `b` bits, `b` choose `k` have exactly `k` bits set.
proof fn lemma_count_pow2(b: nat, k: int)
    ensures
        count_with_bits(pow2(b), k) == binom(b, k),
    decreases b,
{
    if b == 0 {
        vstd::arithmetic::power2::lemma2_to64();
        assert(count_with_bits(0, k) == 0);
        assert(popcount(0) == 0);
    } else {
        vstd::arithmetic::power2::lemma_pow2_unfold(b);
        let half = pow2((b - 1) as nat);
        lemma_count_shift((b - 1) as nat, half, k);
        lemma_count_pow2((b - 1) as nat, k);
        lemma_count_pow2((b - 1) as nat, k - 1);
    }
}

/// Each of the ten straights has five bits set.
proof fn lemma_straights_have_five(m: int)
    requires
        straight_index(m) is Some,
    ensures
        popcount(m as nat) == 5,
{
    assert(popcount(0) == 0);
    assert(popcount(1) == 1);
    assert(popcount(3) == 2);
    assert(popcount(7) == 3);
    assert(popcount(15) == 4);
    assert(popcount(0x1F) == 5);
    assert(popcount(0x3E) == popcount(0x1F));
    assert(popcount(0x7C) == popcount(0x3E));
    assert(popcount(0xF8) == popcount(0x7C));
    assert(popcount(0x1F0) == popcount(0xF8));
    assert(popcount(0x3E0) == popcount(0x1F0));
    assert(popcount(0x7C0) == popcount(0x3E0));
    assert(popcount(0xF80) == popcount(0x7C0));
    assert(popcount(0x1F00) == popcount(0xF80));
    vstd::arithmetic::power2::lemma2_to64();
    lemma_popcount_high(12, 15);
}

/// Below `n`, the five-bit masks are the plain ones and the straights.
proof fn lemma_plain5_below(n: int)
    requires
        0 <= n <= MASKS,
    ensures
        plain5_below(n) + straights_below(n) == count_with_bits(n as nat, 5),
    decreases n,
{
    if n > 0 {
        lemma_plain5_below(n - 1);
        if straight_index(n - 1) is Some {
            lemma_straights_have_five(n - 1);
        }
    }
}

/// The plain masks above `m` and those up to `m` are all the plain masks.
proof fn lemma_plain5_split(m: int)
    requires
        -1 <= m < MASKS,
    ensures
        plain5_above(m) + plain5_below(m + 1) == plain5_below(MASKS as int),
    decreases MASKS - m,
{
    if m < MASKS - 1 {
        lemma_plain5_split(m + 1);
    }
}

/// There are 1277 plain five-rank masks, so a plain mask has at most 1276
/// above it.
pub proof fn lemma_plain5_above_bound(m: int)
    requires
        is_plain5(m),
    ensures
        plain5_above(m) <= 1276,
{
    lemma_plain5_split(m);
    lemma_plain5_below(MASKS as int);
    vstd::arithmetic::power2::lemma2_to64();
    lemma_count_pow2(13, 5);
    lemma_binom_13_5();
}

/// Thirteen choose five is 1287.
proof fn lemma_binom_13_5()
    ensures
        binom(13, 5) == 1287,
{
    assert(binom(0, -1) == 0 && binom(0, 0) == 1 && binom(0, 1) == 0 && binom(0, 2) == 0
        && binom(0, 3) == 0 && binom(0, 4) == 0 && binom(0, 5) == 0);
    assert(binom(1, -1) == 0 && binom(1, 0) == 1 && binom(1, 1) == 1 && binom(1, 2) == 0
        && binom(1, 3) == 0 && binom(1, 4) == 0 && binom(1, 5) == 0);
    assert(binom(2, -1) == 0 && binom(2, 0) == 1 && binom(2, 1) == 2 && binom(2, 2) == 1
        && binom(2, 3) == 0 && binom(2, 4) == 0 && binom(2, 5) == 0);
    assert(binom(3, -1) == 0 && binom(3, 0) == 1 && binom(3, 1) == 3 && binom(3, 2) == 3
        && binom(3, 3) == 1 && binom(3, 4) == 0 && binom(3, 5) == 0);
    assert(binom(4, -1) == 0 && binom(4, 0) == 1 && binom(4, 1) == 4 && binom(4, 2) == 6
        && binom(4, 3) == 4 && binom(4, 4) == 1 && binom(4, 5) == 0);
    assert(binom(5, -1) == 0 && binom(5, 0) == 1 && binom(5, 1) == 5 && binom(5, 2) == 10
        && binom(5, 3) == 10 && binom(5, 4) == 5 && binom(5, 5) == 1);
    assert(binom(6, -1) == 0 && binom(6, 0) == 1 && binom(6, 1) == 6 && binom(6, 2) == 15
        && binom(6, 3) == 20 && binom(6, 4) == 15 && binom(6, 5) == 6);
    assert(binom(7, -1) == 0 && binom(7, 0) == 1 && binom(7, 1) == 7 && binom(7, 2) == 21
        && binom(7, 3) == 35 && binom(7, 4) == 35 && binom(7, 5) == 21);
    assert(binom(8, -1) == 0 && binom(8, 0) == 1 && binom(8, 1) == 8 && binom(8, 2) == 28
        && binom(8, 3) == 56 && binom(8, 4) == 70 && binom(8, 5) == 56);
    assert(binom(9, -1) == 0 && binom(9, 0) == 1 && binom(9, 1) == 9 && binom(9, 2) == 36
        && binom(9, 3) == 84 && binom(9, 4) == 126 && binom(9, 5) == 126);
    assert(binom(10, -1) == 0 && binom(10, 0) == 1 && binom(10, 1) == 10 && binom(10, 2) == 45
        && binom(10, 3) == 120 && binom(10, 4) == 210 && binom(10, 5) == 252);
    assert(binom(11, -1) == 0 && binom(11, 0) == 1 && binom(11, 1) == 11 && binom(11, 2) == 55
        && binom(11, 3) == 165 && binom(11, 4) == 330 && binom(11, 5) == 462);
    assert(binom(12, -1) == 0 && binom(12, 0) == 1 && binom(12, 1) == 12 && binom(12, 2) == 66
        && binom(12, 3) == 220 && binom(12, 4) == 495 && binom(12, 5) == 792);
}

/// An entry of a table over the rank masks is 0, the score of a straight,
/// or one of the 1277 scores from `plain` on.
pub proof fn lemma_mask_score_range(m: int, straights: int, plain: int)
    ensures
        mask_score(m, straights, plain) == 0 || straights <= mask_score(m, straights, plain)
            <= straights + 9 || plain <= mask_score(m, straights, plain) <= plain + 1276,
        is_plain5(m) ==> plain <= mask_score(m, straights, plain) <= plain + 1276,
        straight_index(m) is Some ==> straights <= mask_score(m, straights, plain) <= straights + 9,
{
    if straight_index(m) is None && is_plain5(m) {
        lemma_plain5_above_bound(m);
    }
}

/// The lower of two masks has the more plain masks above it: all those
/// above the higher one, and the higher one itself where it is plain.
pub proof fn lemma_plain5_above_grows(low: int, high: int)
    requires
        low < high < MASKS,
    ensures
        plain5_above(low) >= plain5_above(high) + one_if(is_plain5(high)),
    decreases high - low,
{
    if low + 1 < high {
        lemma_plain5_above_grows(low + 1, high);
    }
}

/// Among flushes that are no straight, and among high-card hands, the
/// higher mask scores lower: the hand whose highest card that the other
/// lacks is higher.
pub proof fn lemma_plain5_order(m: int, m2: int, straights: int, plain: int)
    requires
        is_plain5(m),
        is_plain5(m2),
    ensures
        mask_score(m, straights, plain) < mask_score(m2, straights, plain) <==> m > m2,
{
    if m > m2 {
        lemma_plain5_above_grows(m2, m);
    }
    if m2 > m {
        lemma_plain5_above_grows(m, m2);
    }
}

/// The bits set in a rank mask are its thirteen lowest bits, added up.
pub proof fn lemma_popcount_bits(m: u16)
    requires
        m < MASKS,
    ensures
        popcount(m as nat) == (m & 1) + ((m >> 1) & 1) + ((m >> 2) & 1) + ((m >> 3) & 1) + ((m >> 4)
            & 1) + ((m >> 5) & 1) + ((m >> 6) & 1) + ((m >> 7) & 1) + ((m >> 8) & 1) + ((m >> 9) & 1)
            + ((m >> 10) & 1) + ((m >> 11) & 1) + ((m >> 12) & 1),
{
    lemma_popcount_step(m);
    lemma_popcount_step(m >> 1);
    lemma_popcount_step(m >> 2);
    lemma_popcount_step(m >> 3);
    lemma_popcount_step(m >> 4);
    lemma_popcount_step(m >> 5);
    lemma_popcount_step(m >> 6);
    lemma_popcount_step(m >> 7);
    lemma_popcount_step(m >> 8);
    lemma_popcount_step(m >> 9);
    lemma_popcount_step(m >> 10);
    lemma_popcount_step(m >> 11);
    lemma_popcount_step(m >> 12);
    assert((m >> 1) >> 1 == m >> 2 && (m >> 2) >> 1 == m >> 3 && (m >> 3) >> 1 == m >> 4 && (m >> 4)
        >> 1 == m >> 5 && (m >> 5) >> 1 == m >> 6 && (m >> 6) >> 1 == m >> 7 && (m >> 7) >> 1 == m
        >> 8 && (m >> 8) >> 1 == m >> 9 && (m >> 9) >> 1 == m >> 10 && (m >> 10) >> 1 == m >> 11 && (
    m >> 11) >> 1 == m >> 12 && (m >> 12) >> 1 == 0) by (bit_vector)
        requires
            m < 8192,
    ;
    assert(popcount(0) == 0);
}

/// The bits set in a mask are its lowest bit and the bits set in the rest.
proof fn lemma_popcount_step(m: u16)
    ensures
        popcount(m as nat) == (m & 1) + popcount((m >> 1) as nat),
{
    assert(m & 1 == m % 2 && m >> 1 == m / 2) by (bit_vector);
    if m == 0 {
        assert(popcount(0) == 0);
    }
}

/// The mask of five ranks has five bits set exactly where the ranks are
/// all different.
pub proof fn lemma_five_bits(a: u8, b: u8, c: u8, d: u8, e: u8)
    requires
        a < 13,
        b < 13,
        c < 13,
        d < 13,
        e < 13,
    ensures
        (((((0u16 | (1u16 << a)) | (1u16 << b)) | (1u16 << c)) | (1u16 << d)) | (1u16 << e)) < MASKS,
        popcount(
            ((((((0u16 | (1u16 << a)) | (1u16 << b)) | (1u16 << c)) | (1u16 << d)) | (1u16
                << e))) as nat,
        ) == 5 <==> a != b && a != c && a != d && a != e && b != c && b != d && b != e && c != d && c
            != e && d != e,
{
    let m: u16 = ((((0u16 | (1u16 << a)) | (1u16 << b)) | (1u16 << c)) | (1u16 << d)) | (1u16 << e);
    assert(m < 8192) by (bit_vector)
        requires
            m == ((((0u16 | (1u16 << a)) | (1u16 << b)) | (1u16 << c)) | (1u16 << d)) | (1u16 << e),
            a < 13,
            b < 13,
            c < 13,
            d < 13,
            e < 13,
    ;
    lemma_popcount_bits(m);
    assert(((m & 1) + ((m >> 1) & 1) + ((m >> 2) & 1) + ((m >> 3) & 1) + ((m >> 4) & 1) + ((m >> 5)
        & 1) + ((m >> 6) & 1) + ((m >> 7) & 1) + ((m >> 8) & 1) + ((m >> 9) & 1) + ((m >> 10) & 1) + (
    (m >> 11) & 1) + ((m >> 12) & 1) == 5) <==> (a != b && a != c && a != d && a != e && b != c && b
        != d && b != e && c != d && c != e && d != e)) by (bit_vector)
        requires
            m == ((((0u16 | (1u16 << a)) | (1u16 << b)) | (1u16 << c)) | (1u16 << d)) | (1u16 << e),
            a < 13,
            b < 13,
            c < 13,
            d < 13,
            e < 13,
    ;
}

} // verus!
