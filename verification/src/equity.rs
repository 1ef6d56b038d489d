//! River equity of one hand against another.
//!
//! On a full board a matchup is decided: the first hand wins, loses or ties,
//! unless the two hands and the board share a card, in which case the
//! matchup cannot happen and is blocked. The equity matrix of two ranges
//! holds one entry for each pair of hands, row by row.

use vstd::prelude::*;
use crate::card::Card;
use crate::evaluator::{
    all_cards, best_score, evaluate_7_cards, is_best_score, lemma_best_score_unique,
    lemma_score5_range, pick5, score5, LookupTables,
};

verus! {

/// How the first hand of a matchup fares.
#[derive(Debug, Clone, Copy, PartialEq, Eq, Structural)]
pub enum Equity {
    Loss,
    Tie,
    Win,
}

impl Equity {
    pub open spec fn spec_halves(&self) -> u8 {
        match self {
            Equity::Loss => 0,
            Equity::Tie => 1,
            Equity::Win => 2,
        }
    }

    /// The share of the pot in halves: 0 for a loss, 1 for a tie, 2 for a
    /// win.
    #[verifier::when_used_as_spec(spec_halves)]
    pub fn halves(&self) -> (h: u8)
        ensures
            h == self.spec_halves(),
    {
        match self {
            Equity::Loss => 0,
            Equity::Tie => 1,
            Equity::Win => 2,
        }
    }

    /// How the other hand fares.
    pub open spec fn swap(self) -> Equity {
        match self {
            Equity::Loss => Equity::Win,
            Equity::Tie => Equity::Tie,
            Equity::Win => Equity::Loss,
        }
    }

    /// How a hand of score `mine` fares against one of score `theirs`: the
    /// lower score wins.
    pub open spec fn of_scores(mine: int, theirs: int) -> Equity {
        if mine < theirs {
            Equity::Win
        } else if mine > theirs {
            Equity::Loss
        } else {
            Equity::Tie
        }
    }
}

/// Whether some card is in both sequences.
pub open spec fn shares_card(a: Seq<Card>, b: Seq<Card>) -> bool {
    exists|i: int, j: int| 0 <= i < a.len() && 0 <= j < b.len() && #[trigger] a[i] == #[trigger] b[j]
}

/// Whether the matchup cannot happen: a hand holds a card of the board, or
/// the two hands hold the same card.
pub open spec fn blocked(board: Seq<Card>, hand1: Seq<Card>, hand2: Seq<Card>) -> bool {
    shares_card(hand1, board) || shares_card(hand2, board) || shares_card(hand1, hand2)
}

/// How `hand1` fares against `hand2` on the board; nothing when the matchup
/// is blocked.
pub open spec fn matchup(board: Seq<Card>, hand1: Seq<Card>, hand2: Seq<Card>) -> Option<Equity> {
    if blocked(board, hand1, hand2) {
        None
    } else {
        Some(Equity::of_scores(best_score(hand1 + board), best_score(hand2 + board)))
    }
}

/// Whether `matrix` is the equity matrix of the two ranges on the board:
/// row by row, one entry for each hand of the first range against each
/// hand of the second.
pub open spec fn is_equity_matrix(
    matrix: Seq<Option<Equity>>,
    board: Seq<Card>,
    range1: Seq<Vec<Card>>,
    range2: Seq<Vec<Card>>,
) -> bool {
    &&& matrix.len() == range1.len() * range2.len()
    &&& forall|i: int, j: int|
        0 <= i < range1.len() && 0 <= j < range2.len() ==> #[trigger] matrix[i * range2.len() + j]
            == matchup(board, range1[i]@, range2[j]@)
}

/// Sharing a card does not depend on the order of the two sequences.
pub proof fn lemma_shares_card_symmetric(a: Seq<Card>, b: Seq<Card>)
    ensures
        shares_card(a, b) == shares_card(b, a),
{
    if shares_card(a, b) {
        let (i, j) = choose|i: int, j: int|
            0 <= i < a.len() && 0 <= j < b.len() && #[trigger] a[i] == #[trigger] b[j];
        assert(b[j] == a[i]);
    }
    if shares_card(b, a) {
        let (i, j) = choose|i: int, j: int|
            0 <= i < b.len() && 0 <= j < a.len() && #[trigger] b[i] == #[trigger] a[j];
        assert(a[j] == b[i]);
    }
}

/// Swapping the hands swaps win and loss: where the matchup is not blocked
/// the two hands share the pot, two halves between them, and where it is
/// blocked it is blocked either way.
pub proof fn lemma_matchup_swap(board: Seq<Card>, hand1: Seq<Card>, hand2: Seq<Card>)
    ensures
        matchup(board, hand2, hand1) == match matchup(board, hand1, hand2) {
            Some(equity) => Some(equity.swap()),
            None => None,
        },
        matchup(board, hand1, hand2) is Some ==> matchup(board, hand1, hand2)->0.halves() + matchup(
            board,
            hand2,
            hand1,
        )->0.halves() == 2,
{
    lemma_shares_card_symmetric(hand1, hand2);
}

/// A matchup has no equity exactly when cards are shared.
pub proof fn lemma_blocked_has_no_equity(board: Seq<Card>, hand1: Seq<Card>, hand2: Seq<Card>)
    ensures
        matchup(board, hand1, hand2) is None <==> blocked(board, hand1, hand2),
{
}

/// With the best possible hand on the board every hand plays the board.
pub proof fn lemma_plays_the_board(board: Seq<Card>, hand: Seq<Card>)
    requires
        board.len() == 5,
        score5(board) == 1,
        all_cards(hand),
        all_cards(board),
    ensures
        best_score(hand + board) == 1,
{
    let cards = hand + board;
    let n = hand.len() as int;
    assert(pick5(cards, n, n + 1, n + 2, n + 3, n + 4) =~= board);
    assert forall|i: int, j: int, k: int, l: int, m: int|
        0 <= i < j < k < l < m < cards.len() implies 1 <= score5(
        #[trigger] pick5(cards, i, j, k, l, m),
    ) by {
        let pick = pick5(cards, i, j, k, l, m);
        assert forall|x: int| 0 <= x < pick.len() implies (#[trigger] pick[x]).wf() by {
            assert(forall|y: int| 0 <= y < cards.len() ==> (#[trigger] cards[y]).wf()) by {
                assert forall|y: int| 0 <= y < cards.len() implies (#[trigger] cards[y]).wf() by {
                    if y < n {
                        assert(cards[y] == hand[y]);
                    } else {
                        assert(cards[y] == board[y - n]);
                    }
                }
            }
        }
        lemma_score5_range(pick);
    }
    assert(is_best_score(cards, 1));
    lemma_best_score_unique(cards, 1);
}

/// On a board that holds a royal flush every matchup that is not blocked
/// is a tie.
pub proof fn lemma_royal_board_ties(board: Seq<Card>, hand1: Seq<Card>, hand2: Seq<Card>)
    requires
        board.len() == 5,
        score5(board) == 1,
        all_cards(board),
        all_cards(hand1),
        all_cards(hand2),
    ensures
        matchup(board, hand1, hand2) is Some ==> matchup(board, hand1, hand2) == Some(Equity::Tie),
{
    lemma_plays_the_board(board, hand1);
    lemma_plays_the_board(board, hand2);
}

/// Whether the two sets of cards share a card.
fn has_blocker(cards1: &[Card], cards2: &[Card]) -> (b: bool)
    ensures
        b == shares_card(cards1@, cards2@),
{
    let mut i: usize = 0;
    while i < cards1.len()
        invariant
            0 <= i <= cards1.len(),
            forall|x: int, y: int|
                0 <= x < i && 0 <= y < cards2.len() ==> #[trigger] cards1@[x] != #[trigger] cards2@[y],
        decreases cards1.len() - i,
    {
        let mut j: usize = 0;
        while j < cards2.len()
            invariant
                0 <= i < cards1.len(),
                0 <= j <= cards2.len(),
                forall|x: int, y: int|
                    0 <= x < i && 0 <= y < cards2.len() ==> #[trigger] cards1@[x]
                        != #[trigger] cards2@[y],
                forall|y: int| 0 <= y < j ==> cards1@[i as int] != #[trigger] cards2@[y],
            decreases cards2.len() - j,
        {
            if cards1[i] == cards2[j] {
                return true;
            }
            j = j + 1;
        }
        i = i + 1;
    }
    false
}

/// Whether the hand holds a card of the board.
fn hand_blocked_by_board(hand: &[Card], board: &[Card]) -> (b: bool)
    ensures
        b == shares_card(hand@, board@),
{
    has_blocker(hand, board)
}

/// The cards of the hand followed by those of the board.
fn with_board(hand: &[Card], board: &[Card]) -> (cards: Vec<Card>)
    ensures
        cards@ == hand@ + board@,
{
    let mut cards: Vec<Card> = Vec::new();
    let mut i: usize = 0;
    while i < hand.len()
        invariant
            0 <= i <= hand.len(),
            cards@ == hand@.take(i as int),
        decreases hand.len() - i,
    {
        cards.push(hand[i]);
        assert(hand@.take(i + 1) =~= hand@.take(i as int).push(hand@[i as int]));
        i = i + 1;
    }
    assert(hand@.take(hand@.len() as int) =~= hand@);
    let mut j: usize = 0;
    while j < board.len()
        invariant
            0 <= j <= board.len(),
            cards@ == hand@ + board@.take(j as int),
        decreases board.len() - j,
    {
        cards.push(board[j]);
        assert(hand@ + board@.take(j + 1) =~= (hand@ + board@.take(j as int)).push(board@[j as int]));
        j = j + 1;
    }
    assert(board@.take(board@.len() as int) =~= board@);
    cards
}

/// How a hand of score `score1` fares against one of score `score2`.
fn compare_scores(score1: u16, score2: u16) -> (equity: Equity)
    ensures
        equity == Equity::of_scores(score1 as int, score2 as int),
{
    if score1 < score2 {
        Equity::Win
    } else if score1 > score2 {
        Equity::Loss
    } else {
        Equity::Tie
    }
}

/// The equity of `hand1` against `hand2` on the board, or nothing when the
/// matchup is blocked.
pub fn compute_single_equity(
    tables: &LookupTables,
    board: &[Card],
    hand1: &[Card],
    hand2: &[Card],
) -> (equity: Option<Equity>)
    ensures
        equity == matchup(board@, hand1@, hand2@),
{
    if hand_blocked_by_board(hand1, board) || hand_blocked_by_board(hand2, board) || has_blocker(
        hand1,
        hand2,
    ) {
        return None;
    }
    let cards1 = with_board(hand1, board);
    let cards2 = with_board(hand2, board);
    let score1: u16 = evaluate_7_cards(tables, cards1.as_slice());
    let score2: u16 = evaluate_7_cards(tables, cards2.as_slice());
    Some(compare_scores(score1, score2))
}

/// The cell of hand `i` against hand `j` comes before every cell of a
/// later row and every later cell of its own row.
proof fn lemma_cell_order(a: int, b: int, i: int, j: int, width: int)
    requires
        0 <= a,
        0 <= b < width,
        0 <= j <= width,
        a < i || (a == i && b < j),
    ensures
        0 <= a * width + b < i * width + j,
        (i + 1) * width == i * width + width,
{
    assert(a * width >= 0) by (nonlinear_arith)
        requires
            a >= 0,
            width >= 0,
    ;
    assert((i + 1) * width == i * width + width) by (nonlinear_arith);
    if a < i {
        assert((a + 1) * width <= i * width) by (nonlinear_arith)
            requires
                a + 1 <= i,
                width >= 0,
        ;
        assert((a + 1) * width == a * width + width) by (nonlinear_arith);
    }
}

/// The equity matrix of two ranges on the board, row by row.
pub fn compute_equity_matrix(
    tables: &LookupTables,
    board: &[Card],
    range1: &[Vec<Card>],
    range2: &[Vec<Card>],
) -> (matrix: Vec<Option<Equity>>)
    ensures
        is_equity_matrix(matrix@, board@, range1@, range2@),
{
    let n1: usize = range1.len();
    let n2: usize = range2.len();
    let mut result: Vec<Option<Equity>> = Vec::new();
    let mut i: usize = 0;
    while i < n1
        invariant
            n1 == range1.len(),
            n2 == range2.len(),
            0 <= i <= n1,
            result.len() == i * n2,
            forall|a: int, b: int|
                0 <= a < i && 0 <= b < n2 ==> #[trigger] result[a * n2 + b] == matchup(
                    board@,
                    range1[a]@,
                    range2[b]@,
                ),
        decreases n1 - i,
    {
        let hand1: &Vec<Card> = &range1[i];
        let row_blocked: bool = hand_blocked_by_board(hand1.as_slice(), board);
        let score1: u16 = if row_blocked {
            0
        } else {
            let cards1 = with_board(hand1.as_slice(), board);
            evaluate_7_cards(tables, cards1.as_slice())
        };
        let mut j: usize = 0;
        while j < n2
            invariant
                n1 == range1.len(),
                n2 == range2.len(),
                0 <= i < n1,
                0 <= j <= n2,
                hand1@ == range1[i as int]@,
                row_blocked == shares_card(hand1@, board@),
                !row_blocked ==> score1 == best_score(hand1@ + board@),
                result.len() == i * n2 + j,
                forall|a: int, b: int|
                    0 <= a < n1 && 0 <= b < n2 && (a < i || (a == i && b < j))
                        ==> #[trigger] result[a * n2 + b] == matchup(
                        board@,
                        range1[a]@,
                        range2[b]@,
                    ),
            decreases n2 - j,
        {
            let hand2: &Vec<Card> = &range2[j];
            let ghost before = result@;
            let entry: Option<Equity> = if row_blocked || hand_blocked_by_board(
                hand2.as_slice(),
                board,
            ) || has_blocker(hand1.as_slice(), hand2.as_slice()) {
                None
            } else {
                let cards2 = with_board(hand2.as_slice(), board);
                let score2: u16 = evaluate_7_cards(tables, cards2.as_slice());
                Some(compare_scores(score1, score2))
            };
            result.push(entry);
            proof {
                assert forall|a: int, b: int|
                    0 <= a < n1 && 0 <= b < n2 && (a < i || (a == i && b < j + 1)) implies #[trigger] result[a
                    * n2 + b] == matchup(board@, range1[a]@, range2[b]@) by {
                    if a == i && b == j {
                    } else {
                        lemma_cell_order(a, b, i as int, j as int, n2 as int);
                        assert(result[a * n2 + b] == before[a * n2 + b]);
                    }
                }
            }
            j = j + 1;
        }
        proof {
            assert((i + 1) * n2 == i * n2 + n2) by (nonlinear_arith);
        }
        i = i + 1;
    }
    result
}

} // verus!
