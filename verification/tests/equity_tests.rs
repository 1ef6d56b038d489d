use poker_core::card::Card;
use poker_core::equity::{compute_equity_matrix, compute_single_equity, Equity};
use poker_core::evaluator::init_lookup_tables;

fn cards_from_str(s: &str) -> Vec<Card> {
    s.split_whitespace()
        .map(|cs| Card::from_str(cs).expect(&format!("Invalid card: {}", cs)))
        .collect()
}

fn as_float(equity: Option<Equity>) -> Option<f32> {
    equity.map(|e| e.halves() as f32 / 2.0)
}

fn single(board: &str, hand1: &str, hand2: &str) -> Option<f32> {
    let tables = init_lookup_tables();
    let board = cards_from_str(board);
    let hand1 = cards_from_str(hand1);
    let hand2 = cards_from_str(hand2);
    as_float(compute_single_equity(&tables, &board, &hand1, &hand2))
}

fn matrix(board: &str, range1: &[&str], range2: &[&str]) -> Vec<f32> {
    let tables = init_lookup_tables();
    let board = cards_from_str(board);
    let range1: Vec<Vec<Card>> = range1.iter().map(|h| cards_from_str(h)).collect();
    let range2: Vec<Vec<Card>> = range2.iter().map(|h| cards_from_str(h)).collect();
    compute_equity_matrix(&tables, &board, &range1, &range2)
        .into_iter()
        .map(|e| as_float(e).unwrap_or(f32::NAN))
        .collect()
}

#[test]
fn test_single_equity_win() {
    let equity = single("Kh Qd Jc 2s 3h", "As Ks", "Kd 5c");
    assert_eq!(equity, Some(1.0), "AK should beat K5");
}

#[test]
fn test_single_equity_loss() {
    let equity = single("Kh Qd Jc 2s 3h", "Kd 5c", "As Ks");
    assert_eq!(equity, Some(0.0), "K5 should lose to AK");
}

#[test]
fn test_single_equity_tie() {
    let equity = single("As Ks Qs Js Ts", "2c 3c", "4c 5c");
    assert_eq!(equity, Some(0.5), "Should tie on board royal flush");
}

#[test]
fn test_single_equity_blocked() {
    let equity = single("Kh Qd Jc 2s 3h", "As Kh", "Kd 5c");
    assert_eq!(equity, None, "Should be blocked - Kh on board");
}

#[test]
fn test_single_equity_hand_collision() {
    let equity = single("Kh Qd Jc 2s 3h", "As Ks", "As Kd");
    assert_eq!(equity, None, "Should be blocked - As in both hands");
}

#[test]
fn test_equity_matrix() {
    let matrix = matrix("Kh Qd Jc 2s 3h", &["As Ks", "9c 9d"], &["Kd 5c", "4c 5d"]);

    assert_eq!(matrix.len(), 4);
    assert!(!matrix[0].is_nan());
    assert!(!matrix[1].is_nan());
    assert!(!matrix[2].is_nan());
    assert!(!matrix[3].is_nan());
}

#[test]
fn equity_matrix_is_row_major_with_exact_entries() {
    let m = matrix("Kh Qd Jc 2s 3h", &["As Ks", "9c 9d", "4c 4d"], &["Kd 5c", "4c 5d"]);
    assert_eq!(m.len(), 6);
    // A pair of kings with an ace against one with a five, and against
    // king high.
    assert_eq!(m[0], 1.0);
    assert_eq!(m[1], 1.0);
    // Nines against kings and against king high.
    assert_eq!(m[2], 0.0);
    assert_eq!(m[3], 1.0);
    // Fours against kings; against 4c 5d the four of clubs is shared.
    assert_eq!(m[4], 0.0);
    assert!(m[5].is_nan());
}

#[test]
fn swapping_the_ranges_shares_the_pot() {
    let range1 = ["As Ks", "9c 9d", "Ah Kc", "4c 4d"];
    let range2 = ["Kd 5c", "4c 5d", "Ad Ks", "9c 2d"];
    let m = matrix("Kh Qd Jc 2s 3h", &range1, &range2);
    let swapped = matrix("Kh Qd Jc 2s 3h", &range2, &range1);
    for i in 0..range1.len() {
        for j in 0..range2.len() {
            let a = m[i * range2.len() + j];
            let b = swapped[j * range1.len() + i];
            if a.is_nan() {
                assert!(b.is_nan());
            } else {
                assert_eq!(a + b, 1.0);
            }
        }
    }
    // A tie is among them: ace-king against ace-king.
    assert_eq!(m[2 * 4 + 2], 0.5);
}

#[test]
fn shared_cards_block_the_matchup() {
    // With the board.
    assert_eq!(single("Kh Qd Jc 2s 3h", "As Ks", "Kd 2s"), None);
    // Among the hands, also in another position.
    assert_eq!(single("Kh Qd Jc 2s 3h", "As Ks", "Kd As"), None);
    let m = matrix("Kh Qd Jc 2s 3h", &["As Kh", "As Ks"], &["Kd 5c", "Ks 5c"]);
    assert!(m[0].is_nan());
    assert!(m[1].is_nan());
    assert_eq!(m[2], 1.0);
    assert!(m[3].is_nan());
}

#[test]
fn on_a_royal_board_every_open_matchup_is_a_tie() {
    let hands = ["2c 3c", "4c 5c", "Ah Ad", "9h 9d", "2c 9h"];
    let m = matrix("As Ks Qs Js Ts", &hands, &hands);
    for i in 0..hands.len() {
        for j in 0..hands.len() {
            let entry = m[i * hands.len() + j];
            assert!(entry.is_nan() || entry == 0.5);
        }
    }
    assert_eq!(m[1], 0.5);
    assert!(m[0].is_nan());
    assert!(m[4].is_nan());
}

#[test]
fn empty_ranges_give_an_empty_matrix() {
    assert_eq!(matrix("Kh Qd Jc 2s 3h", &[], &["Kd 5c"]).len(), 0);
    assert_eq!(matrix("Kh Qd Jc 2s 3h", &["Kd 5c"], &[]).len(), 0);
}

#[test]
fn halves_of_each_outcome() {
    assert_eq!(Equity::Loss.halves(), 0);
    assert_eq!(Equity::Tie.halves(), 1);
    assert_eq!(Equity::Win.halves(), 2);
}
