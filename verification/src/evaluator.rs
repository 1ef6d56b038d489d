//! Hand evaluation.
//!
//! A hand of five cards gets a score between 1 and 7462, lower for the
//! stronger hand: 1 is the royal flush and 7462 the seven-high hand. The
//! score is read from three tables that are built once. Two are indexed by
//! the set of ranks in the hand, written as a 13-bit mask: one for flushes,
//! one for hands of five different ranks. The third is keyed by the product
//! of the primes that stand for the ranks and covers the hands that pair.
//! More than five cards score as their best five.

use vstd::prelude::*;
use std::collections::HashMap;
use crate::card::Card;
use crate::masks::{
    count_bits, flush_score, generate_flush_table, generate_unique5_table, is_mask_table,
    is_plain5, lemma_five_bits, lemma_mask_score_range, popcount, straight_index, unique5_score,
    MASKS,
};
use crate::products::{
    count5, full_house_score, generate_prime_product_table, is_product_table, is_rank,
    lemma_full_house_scored, lemma_one_pair_scored, lemma_pattern_bands,
    lemma_product_score_range, lemma_quads_scored, lemma_same_counts_same_product,
    lemma_trips_scored, lemma_two_pair_scored, one_pair_score, prime, prime_of, product5,
    product_score, quads_score, trips_score, two_pair_score,
};

verus! {

broadcast use vstd::std_specs::hash::group_hash_axioms;

/// The score of the weakest hand, and of any input that is no hand.
pub const WORST_SCORE: u16 = 7462;

/// The categories of poker hands, strongest first.
#[derive(Debug, Clone, Copy, PartialEq, Eq, PartialOrd, Ord, Structural)]
pub enum HandRank {
    StraightFlush,
    FourOfAKind,
    FullHouse,
    Flush,
    Straight,
    ThreeOfAKind,
    TwoPair,
    OnePair,
    HighCard,
}

impl HandRank {
    /// The category whose band of scores holds `score`; everything past
    /// the pairs counts as a high card.
    pub open spec fn of_score(score: u16) -> HandRank {
        if 1 <= score <= 10 {
            HandRank::StraightFlush
        } else if 11 <= score <= 166 {
            HandRank::FourOfAKind
        } else if 167 <= score <= 322 {
            HandRank::FullHouse
        } else if 323 <= score <= 1599 {
            HandRank::Flush
        } else if 1600 <= score <= 1609 {
            HandRank::Straight
        } else if 1610 <= score <= 2467 {
            HandRank::ThreeOfAKind
        } else if 2468 <= score <= 3325 {
            HandRank::TwoPair
        } else if 3326 <= score <= 6185 {
            HandRank::OnePair
        } else {
            HandRank::HighCard
        }
    }

    /// The category of a score.
    pub fn from_score(score: u16) -> (rank: HandRank)
        ensures
            rank == HandRank::of_score(score),
    {
        if score >= 1 && score <= 10 {
            HandRank::StraightFlush
        } else if score >= 11 && score <= 166 {
            HandRank::FourOfAKind
        } else if score >= 167 && score <= 322 {
            HandRank::FullHouse
        } else if score >= 323 && score <= 1599 {
            HandRank::Flush
        } else if score >= 1600 && score <= 1609 {
            HandRank::Straight
        } else if score >= 1610 && score <= 2467 {
            HandRank::ThreeOfAKind
        } else if score >= 2468 && score <= 3325 {
            HandRank::TwoPair
        } else if score >= 3326 && score <= 6185 {
            HandRank::OnePair
        } else {
            HandRank::HighCard
        }
    }

    /// The name of the category.
    pub open spec fn name(self) -> Seq<char> {
        match self {
            HandRank::StraightFlush => "Straight Flush"@,
            HandRank::FourOfAKind => "Four of a Kind"@,
            HandRank::FullHouse => "Full House"@,
            HandRank::Flush => "Flush"@,
            HandRank::Straight => "Straight"@,
            HandRank::ThreeOfAKind => "Three of a Kind"@,
            HandRank::TwoPair => "Two Pair"@,
            HandRank::OnePair => "One Pair"@,
            HandRank::HighCard => "High Card"@,
        }
    }
}

/// The name of the hand with the given score: that of its category, but
/// `Royal Flush` for the best straight flush.
pub open spec fn hand_rank_name(score: u16) -> Seq<char> {
    if score == 1 {
        "Royal Flush"@
    } else {
        HandRank::of_score(score).name()
    }
}

/// The name of the hand with the given score.
pub fn get_hand_rank_name(score: u16) -> (name: &'static str)
    ensures
        name@ == hand_rank_name(score),
{
    if score == 1 {
        "Royal Flush"
    } else {
        match HandRank::from_score(score) {
            HandRank::StraightFlush => "Straight Flush",
            HandRank::FourOfAKind => "Four of a Kind",
            HandRank::FullHouse => "Full House",
            HandRank::Flush => "Flush",
            HandRank::Straight => "Straight",
            HandRank::ThreeOfAKind => "Three of a Kind",
            HandRank::TwoPair => "Two Pair",
            HandRank::OnePair => "One Pair",
            HandRank::HighCard => "High Card",
        }
    }
}

/// The ranks of the cards, one bit for each rank that occurs.
pub open spec fn rank_bits(cards: Seq<Card>) -> u16
    decreases cards.len(),
{
    if cards.len() == 0 {
        0
    } else {
        rank_bits(cards.drop_last()) | (1u16 << cards.last().rank())
    }
}

/// The number of cards of the given suit.
pub open spec fn suit_count(cards: Seq<Card>, suit: u8) -> nat
    decreases cards.len(),
{
    if cards.len() == 0 {
        0
    } else {
        suit_count(cards.drop_last(), suit) + if cards.last().suit() == suit {
            1nat
        } else {
            0nat
        }
    }
}

/// The product of the primes of the cards' ranks.
pub open spec fn hand_product(cards: Seq<Card>) -> int
    decreases cards.len(),
{
    if cards.len() == 0 {
        1
    } else {
        prime(cards.last().rank() as int) * hand_product(cards.drop_last())
    }
}

/// Whether five of the cards are of one suit.
pub open spec fn is_flush(cards: Seq<Card>) -> bool {
    suit_count(cards, 0) == 5 || suit_count(cards, 1) == 5 || suit_count(cards, 2) == 5
        || suit_count(cards, 3) == 5
}

/// The score of a hand of five cards.
///
/// A flush scores by its ranks in the flush table; other hands of five
/// different ranks score by their ranks in the table of such hands; hands
/// that pair score by the product of their primes. Five cards that are no
/// hand, because a card comes twice, may find no score in their table and
/// then score as the weakest hand.
pub open spec fn score5(cards: Seq<Card>) -> int {
    let bits = rank_bits(cards) as int;
    if is_flush(cards) {
        if flush_score(bits) == 0 {
            WORST_SCORE as int
        } else {
            flush_score(bits)
        }
    } else if popcount(bits as nat) == 5 {
        unique5_score(bits)
    } else {
        match product_score(hand_product(cards)) {
            Some(score) => score,
            None => WORST_SCORE as int,
        }
    }
}

/// Whether every card of the sequence is one of the 52.
pub open spec fn all_cards(cards: Seq<Card>) -> bool {
    forall|i: int| 0 <= i < cards.len() ==> (#[trigger] cards[i]).wf()
}

/// The rank mask of cards has only the thirteen rank bits.
pub proof fn lemma_rank_bits_small(cards: Seq<Card>)
    requires
        all_cards(cards),
    ensures
        rank_bits(cards) < MASKS,
    decreases cards.len(),
{
    if cards.len() > 0 {
        lemma_rank_bits_small(cards.drop_last());
        let before: u16 = rank_bits(cards.drop_last());
        let r: u8 = cards.last().rank();
        assert(cards.last().wf());
        assert((before | (1u16 << r)) < 8192) by (bit_vector)
            requires
                before < 8192,
                r < 13,
        ;
    }
}

/// Every hand of five cards scores between 1 and 7462.
pub proof fn lemma_score5_range(cards: Seq<Card>)
    requires
        all_cards(cards),
    ensures
        1 <= score5(cards) <= WORST_SCORE,
{
    let bits = rank_bits(cards) as int;
    lemma_rank_bits_small(cards);
    lemma_mask_score_range(bits, 1, 323);
    lemma_mask_score_range(bits, 1600, 6186);
    if !is_flush(cards) && popcount(bits as nat) == 5 {
        if straight_index(bits) is None {
            assert(is_plain5(bits));
        }
    }
    if product_score(hand_product(cards)) is Some {
        lemma_product_score_range(hand_product(cards));
    }
}

/// The three tables that hands are scored from.
pub struct LookupTables {
    flush: Vec<u16>,
    unique5: Vec<u16>,
    products: HashMap<u32, u16>,
}

impl LookupTables {
    /// The tables hold what their builders put in.
    #[verifier::type_invariant]
    pub closed spec fn wf(&self) -> bool {
        &&& is_mask_table(self.flush@, 1, 323)
        &&& is_mask_table(self.unique5@, 1600, 6186)
        &&& is_product_table(self.products@)
    }

    /// The flush table.
    pub closed spec fn flush_table(&self) -> Seq<u16> {
        self.flush@
    }

    /// The table of hands of five different ranks.
    pub closed spec fn unique5_table(&self) -> Seq<u16> {
        self.unique5@
    }

    /// The table of products.
    pub closed spec fn product_table(&self) -> Map<u32, u16> {
        self.products@
    }

    /// The three tables are complete: each holds the score of every hand
    /// it is for.
    pub open spec fn complete(&self) -> bool {
        &&& is_mask_table(self.flush_table(), 1, 323)
        &&& is_mask_table(self.unique5_table(), 1600, 6186)
        &&& is_product_table(self.product_table())
    }

    /// Builds the three tables.
    pub fn new() -> (tables: LookupTables)
        ensures
            tables.complete(),
    {
        LookupTables {
            flush: generate_flush_table(),
            unique5: generate_unique5_table(),
            products: generate_prime_product_table(),
        }
    }
}

/// Builds the tables that hands are scored from. Build them once and hand
/// them to every evaluation.
pub fn init_lookup_tables() -> (tables: LookupTables)
    ensures
        tables.complete(),
{
    LookupTables::new()
}

/// The largest product of the primes of `n` cards, for `n` up to five.
pub open spec fn product_bound(n: int) -> int {
    if n <= 0 {
        1
    } else if n == 1 {
        41
    } else if n == 2 {
        1681
    } else if n == 3 {
        68921
    } else if n == 4 {
        2825761
    } else {
        115856201
    }
}

/// Scores a hand of five cards: 1 for the royal flush up to 7462 for the
/// weakest hand.
pub fn evaluate_5_cards(tables: &LookupTables, cards: &[Card; 5]) -> (score: u16)
    ensures
        score == score5(cards@),
        1 <= score <= WORST_SCORE,
{
    let mut bits: u16 = 0;
    let mut suit_counts: [u8; 4] = [0, 0, 0, 0];
    let mut product: u32 = 1;
    let mut i: usize = 0;
    while i < 5
        invariant
            0 <= i <= 5,
            cards@.len() == 5,
            bits == rank_bits(cards@.take(i as int)),
            bits < MASKS,
            forall|s: int| 0 <= s < 4 ==> suit_counts[s] == suit_count(cards@.take(i as int), s as u8),
            forall|s: int| 0 <= s < 4 ==> suit_counts[s] <= i,
            product == hand_product(cards@.take(i as int)),
            1 <= product <= product_bound(i as int),
            all_cards(cards@.take(i as int)),
        decreases 5 - i,
    {
        let card: Card = cards[i];
        let rank: u8 = card.rank();
        let suit: u8 = card.suit();
        proof {
            use_type_invariant(&card);
            assert(cards@.take(i + 1).drop_last() =~= cards@.take(i as int));
            assert(cards@.take(i + 1).last() == card);
            assert((bits | (1u16 << rank)) < 8192) by (bit_vector)
                requires
                    bits < 8192,
                    rank < 13,
            ;
            assert(product * prime(rank as int) <= product_bound(i as int) * 41
                && product * prime(rank as int) >= 1 && product * prime(rank as int) == prime(
                rank as int,
            ) * product) by (nonlinear_arith)
                requires
                    1 <= product <= product_bound(i as int),
                    2 <= prime(rank as int) <= 41,
            ;
        }
        bits = bits | (1u16 << rank);
        suit_counts[suit as usize] = suit_counts[suit as usize] + 1;
        product = product * prime_of(rank as usize);
        i = i + 1;
    }
    assert(cards@.take(5) =~= cards@);
    proof {
        use_type_invariant(tables);
        lemma_score5_range(cards@);
    }
    let is_flush: bool = suit_counts[0] == 5 || suit_counts[1] == 5 || suit_counts[2] == 5
        || suit_counts[3] == 5;
    if is_flush {
        let score: u16 = tables.flush[bits as usize];
        if score == 0 {
            WORST_SCORE
        } else {
            score
        }
    } else if count_bits(bits) == 5 {
        tables.unique5[bits as usize]
    } else {
        match tables.products.get(&product) {
            Some(score) => *score,
            None => WORST_SCORE,
        }
    }
}

/// The five cards at the places `i < j < k < l < m`.
pub open spec fn pick5(cards: Seq<Card>, i: int, j: int, k: int, l: int, m: int) -> Seq<Card> {
    seq![cards[i], cards[j], cards[k], cards[l], cards[m]]
}

/// Whether `score` is the score of the best five among the cards: that of
/// some five of them, and no worse than that of any five. Fewer than five
/// cards score as the weakest hand.
pub open spec fn is_best_score(cards: Seq<Card>, score: int) -> bool {
    if cards.len() < 5 {
        score == WORST_SCORE
    } else {
        &&& exists|i: int, j: int, k: int, l: int, m: int|
            0 <= i < j < k < l < m < cards.len() && score == score5(
                #[trigger] pick5(cards, i, j, k, l, m),
            )
        &&& forall|i: int, j: int, k: int, l: int, m: int|
            0 <= i < j < k < l < m < cards.len() ==> score <= score5(
                #[trigger] pick5(cards, i, j, k, l, m),
            )
    }
}

/// The score of the best hand of five among the cards.
pub open spec fn best_score(cards: Seq<Card>) -> int {
    choose|score: int| is_best_score(cards, score)
}

/// The best score is the only one that [`is_best_score`] accepts.
pub proof fn lemma_best_score_unique(cards: Seq<Card>, score: int)
    requires
        is_best_score(cards, score),
    ensures
        best_score(cards) == score,
{
    let other = best_score(cards);
    assert(is_best_score(cards, other));
    if cards.len() >= 5 {
        let (i, j, k, l, m) = choose|i: int, j: int, k: int, l: int, m: int|
            0 <= i < j < k < l < m < cards.len() && score == score5(
                #[trigger] pick5(cards, i, j, k, l, m),
            );
        let (i2, j2, k2, l2, m2) = choose|i: int, j: int, k: int, l: int, m: int|
            0 <= i < j < k < l < m < cards.len() && other == score5(
                #[trigger] pick5(cards, i, j, k, l, m),
            );
        assert(other <= score5(pick5(cards, i, j, k, l, m)));
        assert(score <= score5(pick5(cards, i2, j2, k2, l2, m2)));
    }
}

/// Whether the places `i, j, k, l, m` come before `ic, jc, kc, lc, mh`
/// when the picks of five are gone through in order.
pub open spec fn precedes(
    i: int,
    j: int,
    k: int,
    l: int,
    m: int,
    ic: int,
    jc: int,
    kc: int,
    lc: int,
    mh: int,
) -> bool {
    i < ic || (i == ic && (j < jc || (j == jc && (k < kc || (k == kc && (l < lc || (l == lc && m
        < mh)))))))
}

/// `best` is no worse than the score of any pick of five that comes before
/// the places `ic, jc, kc, lc, mh`.
#[verifier::opaque]
pub open spec fn best_so_far(
    cards: Seq<Card>,
    best: int,
    ic: int,
    jc: int,
    kc: int,
    lc: int,
    mh: int,
) -> bool {
    forall|i: int, j: int, k: int, l: int, m: int|
        0 <= i < j < k < l < m < cards.len() && precedes(i, j, k, l, m, ic, jc, kc, lc, mh)
            ==> best <= score5(#[trigger] pick5(cards, i, j, k, l, m))
}

/// A score no worse than `best` and than the pick at the places
/// `i, j, k, l, m` is no worse than any pick up to and with that one.
proof fn lemma_best_step(
    cards: Seq<Card>,
    best: int,
    lower: int,
    i: int,
    j: int,
    k: int,
    l: int,
    m: int,
)
    requires
        best_so_far(cards, best, i, j, k, l, m),
        lower <= best,
        lower <= score5(pick5(cards, i, j, k, l, m)),
    ensures
        best_so_far(cards, lower, i, j, k, l, m + 1),
{
    reveal(best_so_far);
    assert forall|i2: int, j2: int, k2: int, l2: int, m2: int|
        0 <= i2 < j2 < k2 < l2 < m2 < cards.len() && precedes(
            i2,
            j2,
            k2,
            l2,
            m2,
            i,
            j,
            k,
            l,
            m + 1,
        ) implies lower <= score5(#[trigger] pick5(cards, i2, j2, k2, l2, m2)) by {
        if i2 == i && j2 == j && k2 == k && l2 == l && m2 == m {
        } else {
            assert(precedes(i2, j2, k2, l2, m2, i, j, k, l, m));
        }
    }
}

/// What holds of the picks before one place holds of those before another
/// that no further pick comes before.
proof fn lemma_best_move(
    cards: Seq<Card>,
    best: int,
    from: (int, int, int, int, int),
    to: (int, int, int, int, int),
)
    requires
        best_so_far(cards, best, from.0, from.1, from.2, from.3, from.4),
        forall|i: int, j: int, k: int, l: int, m: int|
            0 <= i < j < k < l < m < cards.len() && #[trigger] precedes(
                i,
                j,
                k,
                l,
                m,
                to.0,
                to.1,
                to.2,
                to.3,
                to.4,
            ) ==> precedes(i, j, k, l, m, from.0, from.1, from.2, from.3, from.4),
    ensures
        best_so_far(cards, best, to.0, to.1, to.2, to.3, to.4),
{
    reveal(best_so_far);
    assert forall|i: int, j: int, k: int, l: int, m: int|
        0 <= i < j < k < l < m < cards.len() && precedes(
            i,
            j,
            k,
            l,
            m,
            to.0,
            to.1,
            to.2,
            to.3,
            to.4,
        ) implies best <= score5(#[trigger] pick5(cards, i, j, k, l, m)) by {
        assert(precedes(i, j, k, l, m, from.0, from.1, from.2, from.3, from.4));
    }
}

/// `best` is the score of the pick at the places `w`, or no pick has been
/// scored yet.
pub open spec fn best_found(cards: Seq<Card>, best: int, w: (int, int, int, int, int)) -> bool {
    best == WORST_SCORE + 1 || (0 <= w.0 < w.1 < w.2 < w.3 < w.4 < cards.len() && best == score5(
        pick5(cards, w.0, w.1, w.2, w.3, w.4),
    ))
}

/// Scores the best hand of five among the cards; fewer than five cards
/// score as the weakest hand.
pub fn evaluate_7_cards(tables: &LookupTables, cards: &[Card]) -> (score: u16)
    ensures
        is_best_score(cards@, score as int),
        score == best_score(cards@),
        1 <= score <= WORST_SCORE,
{
    let n: usize = cards.len();
    if n < 5 {
        proof {
            lemma_best_score_unique(cards@, WORST_SCORE as int);
        }
        return WORST_SCORE;
    }
    if n == 5 {
        let hand: [Card; 5] = [cards[0], cards[1], cards[2], cards[3], cards[4]];
        let score: u16 = evaluate_5_cards(tables, &hand);
        proof {
            assert(hand@ =~= pick5(cards@, 0, 1, 2, 3, 4));
            assert forall|i: int, j: int, k: int, l: int, m: int|
                0 <= i < j < k < l < m < cards@.len() implies score <= score5(
                #[trigger] pick5(cards@, i, j, k, l, m),
            ) by {
                assert(i == 0 && j == 1 && k == 2 && l == 3 && m == 4);
            }
            lemma_best_score_unique(cards@, score as int);
        }
        return score;
    }
    let mut best: u16 = 7463;
    let ghost mut w: (int, int, int, int, int) = (0, 0, 0, 0, 0);
    let ghost len = n as int;
    proof {
        reveal(best_so_far);
    }
    let mut i: usize = 0;
    while i < n
        invariant
            n == cards@.len(),
            len == n,
            n >= 6,
            0 <= i <= n,
            1 <= best <= WORST_SCORE + 1,
            best_found(cards@, best as int, w),
            best_so_far(cards@, best as int, i as int, 0, 0, 0, 0),
            precedes(0, 1, 2, 3, 4, i as int, 0, 0, 0, 0) ==> best <= WORST_SCORE,
        decreases n - i,
    {
        let mut j: usize = i + 1;
        proof {
            lemma_best_move(cards@, best as int, (i as int, 0, 0, 0, 0), (i as int, j as int, 0, 0, 0));
        }
        while j < n
            invariant
                n == cards@.len(),
                len == n,
                n >= 6,
                0 <= i < j <= n,
                1 <= best <= WORST_SCORE + 1,
                best_found(cards@, best as int, w),
                best_so_far(cards@, best as int, i as int, j as int, 0, 0, 0),
                precedes(0, 1, 2, 3, 4, i as int, j as int, 0, 0, 0) ==> best <= WORST_SCORE,
            decreases n - j,
        {
            let mut k: usize = j + 1;
            proof {
                lemma_best_move(
                    cards@,
                    best as int,
                    (i as int, j as int, 0, 0, 0),
                    (i as int, j as int, k as int, 0, 0),
                );
            }
            while k < n
                invariant
                    n == cards@.len(),
                    len == n,
                    n >= 6,
                    0 <= i < j < k <= n,
                    1 <= best <= WORST_SCORE + 1,
                    best_found(cards@, best as int, w),
                    best_so_far(cards@, best as int, i as int, j as int, k as int, 0, 0),
                    precedes(0, 1, 2, 3, 4, i as int, j as int, k as int, 0, 0) ==> best
                        <= WORST_SCORE,
                decreases n - k,
            {
                let mut l: usize = k + 1;
                proof {
                    lemma_best_move(
                        cards@,
                        best as int,
                        (i as int, j as int, k as int, 0, 0),
                        (i as int, j as int, k as int, l as int, 0),
                    );
                }
                while l < n
                    invariant
                        n == cards@.len(),
                        len == n,
                        n >= 6,
                        0 <= i < j < k < l <= n,
                        1 <= best <= WORST_SCORE + 1,
                        best_found(cards@, best as int, w),
                        best_so_far(cards@, best as int, i as int, j as int, k as int, l as int, 0),
                        precedes(0, 1, 2, 3, 4, i as int, j as int, k as int, l as int, 0) ==> best
                            <= WORST_SCORE,
                    decreases n - l,
                {
                    let mut m: usize = l + 1;
                    proof {
                        lemma_best_move(
                            cards@,
                            best as int,
                            (i as int, j as int, k as int, l as int, 0),
                            (i as int, j as int, k as int, l as int, m as int),
                        );
                    }
                    while m < n
                        invariant
                            n == cards@.len(),
                            len == n,
                            n >= 6,
                            0 <= i < j < k < l < m <= n,
                            1 <= best <= WORST_SCORE + 1,
                            best_found(cards@, best as int, w),
                            best_so_far(
                                cards@,
                                best as int,
                                i as int,
                                j as int,
                                k as int,
                                l as int,
                                m as int,
                            ),
                            precedes(0, 1, 2, 3, 4, i as int, j as int, k as int, l as int, m as int)
                                ==> best <= WORST_SCORE,
                        decreases n - m,
                    {
                        let hand: [Card; 5] = [cards[i], cards[j], cards[k], cards[l], cards[m]];
                        let score: u16 = evaluate_5_cards(tables, &hand);
                        let ghost before = best;
                        proof {
                            assert(hand@ =~= pick5(
                                cards@,
                                i as int,
                                j as int,
                                k as int,
                                l as int,
                                m as int,
                            ));
                        }
                        if score < best {
                            best = score;
                            proof {
                                w = (i as int, j as int, k as int, l as int, m as int);
                            }
                        }
                        proof {
                            lemma_best_step(
                                cards@,
                                before as int,
                                best as int,
                                i as int,
                                j as int,
                                k as int,
                                l as int,
                                m as int,
                            );
                        }
                        m = m + 1;
                    }
                    proof {
                        lemma_best_move(
                            cards@,
                            best as int,
                            (i as int, j as int, k as int, l as int, len),
                            (i as int, j as int, k as int, l + 1, 0),
                        );
                    }
                    l = l + 1;
                }
                proof {
                    lemma_best_move(
                        cards@,
                        best as int,
                        (i as int, j as int, k as int, len, 0),
                        (i as int, j as int, k + 1, 0, 0),
                    );
                }
                k = k + 1;
            }
            proof {
                lemma_best_move(
                    cards@,
                    best as int,
                    (i as int, j as int, len, 0, 0),
                    (i as int, j + 1, 0, 0, 0),
                );
            }
            j = j + 1;
        }
        proof {
            lemma_best_move(cards@, best as int, (i as int, len, 0, 0, 0), (i + 1, 0, 0, 0, 0));
        }
        i = i + 1;
    }
    proof {
        reveal(best_so_far);
        assert(precedes(0, 1, 2, 3, 4, n as int, 0, 0, 0, 0));
        assert(precedes(w.0, w.1, w.2, w.3, w.4, n as int, 0, 0, 0, 0));
        assert forall|i2: int, j2: int, k2: int, l2: int, m2: int|
            0 <= i2 < j2 < k2 < l2 < m2 < cards@.len() implies best <= score5(
            #[trigger] pick5(cards@, i2, j2, k2, l2, m2),
        ) by {
            assert(precedes(i2, j2, k2, l2, m2, n as int, 0, 0, 0, 0));
        }
        lemma_best_score_unique(cards@, best as int);
    }
    best
}

/// The categories are ordered: any straight flush scores below any four of
/// a kind, that below any full house, and so on through flush, straight,
/// three of a kind, two pairs and pair down to any high-card hand.
pub proof fn lemma_categories_ordered(
    straight_flush: int,
    quads: (int, int),
    full_house: (int, int),
    flush: int,
    straight: int,
    trips: (int, int, int),
    two_pair: (int, int, int),
    pair: (int, int, int, int),
    high_card: int,
)
    requires
        straight_index(straight_flush) is Some,
        is_rank(quads.0) && is_rank(quads.1) && quads.0 != quads.1,
        is_rank(full_house.0) && is_rank(full_house.1) && full_house.0 != full_house.1,
        is_plain5(flush),
        straight_index(straight) is Some,
        is_rank(trips.0) && is_rank(trips.1) && is_rank(trips.2) && trips.2 < trips.1 && trips.0
            != trips.1 && trips.0 != trips.2,
        is_rank(two_pair.0) && is_rank(two_pair.1) && is_rank(two_pair.2) && two_pair.1
            < two_pair.0 && two_pair.2 != two_pair.0 && two_pair.2 != two_pair.1,
        is_rank(pair.0) && is_rank(pair.1) && is_rank(pair.2) && is_rank(pair.3) && pair.3 < pair.2
            < pair.1 && pair.0 != pair.1 && pair.0 != pair.2 && pair.0 != pair.3,
        is_plain5(high_card),
    ensures
        1 <= flush_score(straight_flush) < quads_score(quads.0, quads.1) < full_house_score(
            full_house.0,
            full_house.1,
        ) < flush_score(flush) < unique5_score(straight) < trips_score(trips.0, trips.1, trips.2)
            < two_pair_score(two_pair.0, two_pair.1, two_pair.2) < one_pair_score(
            pair.0,
            pair.1,
            pair.2,
            pair.3,
        ) < unique5_score(high_card) <= WORST_SCORE,
{
    lemma_mask_score_range(straight_flush, 1, 323);
    lemma_mask_score_range(flush, 1, 323);
    lemma_mask_score_range(straight, 1600, 6186);
    lemma_mask_score_range(high_card, 1600, 6186);
    lemma_pattern_bands(quads.0, quads.1, 0, 0);
    lemma_pattern_bands(full_house.0, full_house.1, 0, 0);
    lemma_pattern_bands(trips.0, trips.1, trips.2, 0);
    lemma_pattern_bands(two_pair.0, two_pair.1, two_pair.2, 0);
    lemma_pattern_bands(pair.0, pair.1, pair.2, pair.3);
}

/// The rank of the card at place `i` of a hand.
pub open spec fn rank_at(cards: Seq<Card>, i: int) -> int {
    cards[i].rank() as int
}

/// How many of the five cards of a hand have the rank `r`.
pub open spec fn rank_count(cards: Seq<Card>, r: int) -> int {
    count5(
        r,
        rank_at(cards, 4),
        rank_at(cards, 3),
        rank_at(cards, 2),
        rank_at(cards, 1),
        rank_at(cards, 0),
    )
}

/// Whether the five cards of a hand are of five ranks.
pub open spec fn ranks_differ(cards: Seq<Card>) -> bool {
    let a = rank_at(cards, 0);
    let b = rank_at(cards, 1);
    let c = rank_at(cards, 2);
    let d = rank_at(cards, 3);
    let e = rank_at(cards, 4);
    a != b && a != c && a != d && a != e && b != c && b != d && b != e && c != d && c != e && d != e
}

/// What the recursions over the five cards of a hand come to: its product
/// is that of its five ranks, and its mask has five bits set exactly where
/// the ranks are all different.
pub proof fn lemma_hand_of_five(cards: Seq<Card>)
    requires
        cards.len() == 5,
        all_cards(cards),
    ensures
        hand_product(cards) == product5(
            rank_at(cards, 4),
            rank_at(cards, 3),
            rank_at(cards, 2),
            rank_at(cards, 1),
            rank_at(cards, 0),
        ),
        popcount(rank_bits(cards) as nat) == 5 <==> ranks_differ(cards),
        is_rank(rank_at(cards, 0)) && is_rank(rank_at(cards, 1)) && is_rank(rank_at(cards, 2))
            && is_rank(rank_at(cards, 3)) && is_rank(rank_at(cards, 4)),
{
    let c1 = cards.take(1);
    let c2 = cards.take(2);
    let c3 = cards.take(3);
    let c4 = cards.take(4);
    assert(cards.drop_last() =~= c4);
    assert(c4.drop_last() =~= c3);
    assert(c3.drop_last() =~= c2);
    assert(c2.drop_last() =~= c1);
    assert(c1.drop_last() =~= Seq::<Card>::empty());
    assert(cards[0].wf() && cards[1].wf() && cards[2].wf() && cards[3].wf() && cards[4].wf());
    assert(hand_product(Seq::<Card>::empty()) == 1);
    assert(rank_bits(Seq::<Card>::empty()) == 0);
    assert(hand_product(c1) == prime(rank_at(cards, 0)) * 1);
    assert(hand_product(c2) == prime(rank_at(cards, 1)) * hand_product(c1));
    assert(hand_product(c3) == prime(rank_at(cards, 2)) * hand_product(c2));
    assert(hand_product(c4) == prime(rank_at(cards, 3)) * hand_product(c3));
    assert(rank_bits(c1) == 0u16 | (1u16 << cards[0].rank()));
    assert(rank_bits(c2) == rank_bits(c1) | (1u16 << cards[1].rank()));
    assert(rank_bits(c3) == rank_bits(c2) | (1u16 << cards[2].rank()));
    assert(rank_bits(c4) == rank_bits(c3) | (1u16 << cards[3].rank()));
    assert(rank_bits(cards) == rank_bits(c4) | (1u16 << cards[4].rank()));
    lemma_five_bits(
        cards[0].rank(),
        cards[1].rank(),
        cards[2].rank(),
        cards[3].rank(),
        cards[4].rank(),
    );
}

/// A hand that holds a rank four times, and is no flush, scores as four of
/// a kind of that rank with the fifth card as kicker, whatever the order
/// of its cards.
pub proof fn lemma_hand_four_of_a_kind(cards: Seq<Card>, q: int, k: int)
    requires
        cards.len() == 5,
        all_cards(cards),
        !is_flush(cards),
        rank_count(cards, q) == 4,
        rank_count(cards, k) == 1,
    ensures
        score5(cards) == quads_score(q, k),
{
    lemma_hand_of_five(cards);
    lemma_same_counts_same_product(
        (
            rank_at(cards, 4),
            rank_at(cards, 3),
            rank_at(cards, 2),
            rank_at(cards, 1),
            rank_at(cards, 0),
        ),
        (q, q, q, q, k),
    );
    lemma_quads_scored(q, k);
}

/// A hand that holds one rank three times and another twice, and is no
/// flush, scores as that full house.
pub proof fn lemma_hand_full_house(cards: Seq<Card>, t: int, r: int)
    requires
        cards.len() == 5,
        all_cards(cards),
        !is_flush(cards),
        rank_count(cards, t) == 3,
        rank_count(cards, r) == 2,
    ensures
        score5(cards) == full_house_score(t, r),
{
    lemma_hand_of_five(cards);
    lemma_same_counts_same_product(
        (
            rank_at(cards, 4),
            rank_at(cards, 3),
            rank_at(cards, 2),
            rank_at(cards, 1),
            rank_at(cards, 0),
        ),
        (t, t, t, r, r),
    );
    lemma_full_house_scored(t, r);
}

/// A hand that holds one rank three times and two others once each, and is
/// no flush, scores as three of a kind with those kickers.
pub proof fn lemma_hand_three_of_a_kind(cards: Seq<Card>, t: int, k1: int, k2: int)
    requires
        cards.len() == 5,
        all_cards(cards),
        !is_flush(cards),
        rank_count(cards, t) == 3,
        rank_count(cards, k1) == 1,
        rank_count(cards, k2) == 1,
        k2 < k1,
    ensures
        score5(cards) == trips_score(t, k1, k2),
{
    lemma_hand_of_five(cards);
    lemma_same_counts_same_product(
        (
            rank_at(cards, 4),
            rank_at(cards, 3),
            rank_at(cards, 2),
            rank_at(cards, 1),
            rank_at(cards, 0),
        ),
        (t, t, t, k1, k2),
    );
    lemma_trips_scored(t, k1, k2);
}

/// A hand that holds two ranks twice each and a third once, and is no
/// flush, scores as those two pairs with that kicker.
pub proof fn lemma_hand_two_pair(cards: Seq<Card>, hi: int, lo: int, k: int)
    requires
        cards.len() == 5,
        all_cards(cards),
        !is_flush(cards),
        rank_count(cards, hi) == 2,
        rank_count(cards, lo) == 2,
        rank_count(cards, k) == 1,
        lo < hi,
    ensures
        score5(cards) == two_pair_score(hi, lo, k),
{
    lemma_hand_of_five(cards);
    lemma_same_counts_same_product(
        (
            rank_at(cards, 4),
            rank_at(cards, 3),
            rank_at(cards, 2),
            rank_at(cards, 1),
            rank_at(cards, 0),
        ),
        (hi, hi, lo, lo, k),
    );
    lemma_two_pair_scored(hi, lo, k);
}

/// A hand that holds one rank twice and three others once each, and is no
/// flush, scores as that pair with those kickers.
pub proof fn lemma_hand_one_pair(cards: Seq<Card>, r: int, k1: int, k2: int, k3: int)
    requires
        cards.len() == 5,
        all_cards(cards),
        !is_flush(cards),
        rank_count(cards, r) == 2,
        rank_count(cards, k1) == 1,
        rank_count(cards, k2) == 1,
        rank_count(cards, k3) == 1,
        k3 < k2 < k1,
    ensures
        score5(cards) == one_pair_score(r, k1, k2, k3),
{
    lemma_hand_of_five(cards);
    lemma_same_counts_same_product(
        (
            rank_at(cards, 4),
            rank_at(cards, 3),
            rank_at(cards, 2),
            rank_at(cards, 1),
            rank_at(cards, 0),
        ),
        (r, r, k1, k2, k3),
    );
    lemma_one_pair_scored(r, k1, k2, k3);
}

/// A hand of five different ranks scores by its mask: in the flush table
/// where it is a flush, in the table of five different ranks where not.
pub proof fn lemma_hand_unpaired(cards: Seq<Card>)
    requires
        cards.len() == 5,
        all_cards(cards),
        ranks_differ(cards),
    ensures
        is_flush(cards) ==> score5(cards) == flush_score(rank_bits(cards) as int),
        !is_flush(cards) ==> score5(cards) == unique5_score(rank_bits(cards) as int),
        straight_index(rank_bits(cards) as int) is Some || is_plain5(rank_bits(cards) as int),
{
    lemma_hand_of_five(cards);
    lemma_rank_bits_small(cards);
}

} // verus!
