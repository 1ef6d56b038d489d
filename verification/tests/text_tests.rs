use poker_core::card::Card;
use poker_core::equity::Equity;
use poker_core::evaluator::init_lookup_tables;
use poker_core::session::{ErrorKind, SolverError};
use poker_core::text::{
    action_from_word, greet, evaluate_matchup, get_hand_name, is_whitespace, parse_action_string,
    parse_cards, parse_hand, parse_range, session_from_text, split_words, test_evaluation,
};
use poker_core::types::{ActionType, GameConfig};

fn standard() -> GameConfig {
    GameConfig {
        initial_pot: 100,
        stacks: [500, 500],
        bet_sizes: vec![500, 1000],
        raise_sizes: vec![1000],
        raise_limit: 3,
    }
}

fn indices(cards: &[Card]) -> Vec<u8> {
    cards.iter().map(|c| c.index()).collect()
}

#[test]
fn test_evaluation_wasm() {
    let tables = init_lookup_tables();
    let score = test_evaluation(&tables, "As Ks Qs Js Ts");
    assert_eq!(score, 1, "Royal flush should be 1");
}

#[test]
fn test_hand_name() {
    assert_eq!(get_hand_name(1), "Royal Flush");
    assert_eq!(get_hand_name(5), "Straight Flush");
    assert_eq!(get_hand_name(100), "Four of a Kind");
    assert_eq!(get_hand_name(200), "Full House");
}

#[test]
fn evaluation_of_text_passes_over_what_is_no_card() {
    let tables = init_lookup_tables();
    assert_eq!(test_evaluation(&tables, "  As\tKs xx Qs\nJs  Ts 1d "), 1);
    assert_eq!(test_evaluation(&tables, "As Ks Qs Js"), 7462);
    assert_eq!(test_evaluation(&tables, ""), 7462);
    assert_eq!(test_evaluation(&tables, "As Ah Ad Ac Ks 2c 3d"), 11);
}

#[test]
fn matchups_written_as_text() {
    let tables = init_lookup_tables();
    assert_eq!(evaluate_matchup(&tables, "Kh Qd Jc 2s 3h", "As Ks", "Kd 5c"), Some(Equity::Win));
    assert_eq!(evaluate_matchup(&tables, "Kh Qd Jc 2s 3h", "Kd 5c", "As Ks"), Some(Equity::Loss));
    assert_eq!(evaluate_matchup(&tables, "As Ks Qs Js Ts", "2c 3c", "4c 5c"), Some(Equity::Tie));
    assert_eq!(evaluate_matchup(&tables, "Kh Qd Jc 2s 3h", "As Kh", "Kd 5c"), None);
}

#[test]
fn words_are_cut_at_white_space() {
    assert_eq!(split_words("As Kh"), vec!["As", "Kh"]);
    assert_eq!(split_words("  bet \t 75\n"), vec!["bet", "75"]);
    assert_eq!(split_words(""), Vec::<String>::new());
    assert_eq!(split_words(" \u{a0}\u{3000} "), Vec::<String>::new());
    assert_eq!(split_words("a\u{2003}b\u{85}c"), vec!["a", "b", "c"]);
    assert_eq!(split_words("one"), vec!["one"]);
    assert_eq!(split_words("\u{e9}t\u{e9} x"), vec!["\u{e9}t\u{e9}", "x"]);
}

#[test]
fn white_space_is_what_the_standard_library_says() {
    for code in 0..0x3100u32 {
        if let Some(c) = char::from_u32(code) {
            assert_eq!(is_whitespace(c), c.is_whitespace(), "character {:x}", code);
        }
    }
    assert!(!is_whitespace('\u{feff}'));
    assert!(!is_whitespace('\u{200b}'));
}

#[test]
fn cards_of_a_text() {
    assert_eq!(indices(&parse_cards("As 2c Th")), vec![51, 0, 34]);
    assert_eq!(indices(&parse_cards("As nothing 2c")), vec![51, 0]);
    assert_eq!(indices(&parse_cards("")), Vec::<u8>::new());
    assert_eq!(indices(&parse_hand("As 2c Th").unwrap()), vec![51, 0, 34]);
    assert_eq!(indices(&parse_hand("  ").unwrap()), Vec::<u8>::new());
    assert_eq!(parse_hand("As nothing 2c zz").unwrap_err(), SolverError::InvalidCard { word: 1 });
    assert_eq!(parse_hand("Asd").unwrap_err(), SolverError::InvalidCard { word: 0 });
    assert_eq!(SolverError::InvalidCard { word: 1 }.kind(), ErrorKind::Parse);
}

#[test]
fn ranges_written_as_text() {
    let range = parse_range("As Ks, 9c 9d,Kd 5c").unwrap();
    let got: Vec<Vec<u8>> = range.iter().map(|h| indices(h)).collect();
    assert_eq!(got, vec![vec![51, 47], vec![28, 29], vec![45, 12]]);
    assert_eq!(parse_range("").unwrap().len(), 0);
    assert_eq!(parse_range(" , ,").unwrap().len(), 0);
    assert_eq!(parse_range("As Ks,").unwrap().len(), 1);
    assert_eq!(parse_range(",As Ks").unwrap().len(), 1);
    assert_eq!(parse_range("As Ks, 9c").unwrap_err(), SolverError::HandSize);
    assert_eq!(parse_range("As Ks Qs").unwrap_err(), SolverError::HandSize);
    assert_eq!(parse_range("As Ks, 9c 9x").unwrap_err(), SolverError::InvalidCard { word: 1 });
    // The first piece at fault decides.
    assert_eq!(parse_range("As, 9c 9x").unwrap_err(), SolverError::HandSize);
    assert_eq!(parse_range("Ax, 9c").unwrap_err(), SolverError::InvalidCard { word: 0 });
}

#[test]
fn actions_written_as_text() {
    let a = parse_action_string("check").unwrap();
    assert_eq!((a.kind, a.amount), (ActionType::Check, None));
    let a = parse_action_string("bet 75").unwrap();
    assert_eq!((a.kind, a.amount.as_deref()), (ActionType::Bet, Some("75")));
    let a = parse_action_string("  raise \t 150.5 more ").unwrap();
    assert_eq!((a.kind, a.amount.as_deref()), (ActionType::Raise, Some("150.5")));
    assert_eq!(parse_action_string("fold").unwrap().kind, ActionType::Fold);
    assert_eq!(parse_action_string("call").unwrap().kind, ActionType::Call);
    assert_eq!(parse_action_string("").unwrap_err(), SolverError::UnknownAction);
    assert_eq!(parse_action_string("   ").unwrap_err(), SolverError::UnknownAction);
    assert_eq!(parse_action_string("shove 100").unwrap_err(), SolverError::UnknownAction);
    assert_eq!(parse_action_string("Check").unwrap_err(), SolverError::UnknownAction);
    assert_eq!(SolverError::UnknownAction.kind(), ErrorKind::Parse);
    assert_eq!(action_from_word("bet"), Some(ActionType::Bet));
    assert_eq!(action_from_word("bets"), None);
    assert_eq!(action_from_word("be"), None);
}

#[test]
fn sessions_made_of_text() {
    let tables = init_lookup_tables();
    let cfg = standard();
    let make = |board: &str, r0: &str, r1: &str| session_from_text(&tables, &cfg, board, r0, r1);
    let s = make("Kh Qd Jc 2s 3h", "As Ks, 9c 9d", "Kd 5c").unwrap();
    assert_eq!(s.range(0).len(), 2);
    assert_eq!(s.range(1).len(), 1);
    assert_eq!(s.equity_matrix().as_slice(), &[Some(Equity::Win), Some(Equity::Loss)]);
    assert_eq!(s.get_stats().nodes, 57);
    assert_eq!(
        make("Kh Qd Jc 2s 3x", "As Ks", "Kd 5c").err(),
        Some(SolverError::InvalidCard { word: 4 })
    );
    assert_eq!(make("Kh Qd Jc 2s", "As Kx", "Kd 5c").err(), Some(SolverError::BoardSize));
    assert_eq!(make("Kh Qd Jc 2s 3h", "As Kx", "Kd").err(), Some(SolverError::InvalidCard { word: 1 }));
    assert_eq!(make("Kh Qd Jc 2s 3h", "As Ks", "Kd").err(), Some(SolverError::HandSize));
    assert_eq!(make("Kh Qd Jc 2s 3h", "", "Kd 5c").err(), Some(SolverError::EmptyRange));
    assert_eq!(make("Kh Qd Jc 2s 3h", "As Ks", " , ").err(), Some(SolverError::EmptyRange));
}

#[test]
fn test_greet() {
    let result = greet("World");
    assert!(result.contains("Hello, World!"));
}

#[test]
fn the_greeting_in_full() {
    assert_eq!(greet("you"), "Hello, you! Poker Solver Rust Core is ready.");
    assert_eq!(greet(""), "Hello, ! Poker Solver Rust Core is ready.");
}
