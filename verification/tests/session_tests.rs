use poker_core::builder::BuildError;
use poker_core::card::Card;
use poker_core::equity::Equity;
use poker_core::evaluator::init_lookup_tables;
use poker_core::session::{
    action_name, ActionQuery, ErrorKind, SolverError, SolverSession,
};
use poker_core::types::{Action, ActionType, GameConfig};

fn cards(s: &str) -> Vec<Card> {
    s.split_whitespace().map(|c| Card::from_str(c).unwrap()).collect()
}

fn range(hands: &[&str]) -> Vec<Vec<Card>> {
    hands.iter().map(|h| cards(h)).collect()
}

fn standard(limit: u8) -> GameConfig {
    GameConfig {
        initial_pot: 100,
        stacks: [500, 500],
        bet_sizes: vec![500, 1000],
        raise_sizes: vec![1000],
        raise_limit: limit,
    }
}

fn session(limit: u8) -> SolverSession {
    let tables = init_lookup_tables();
    SolverSession::new(
        &tables,
        &standard(limit),
        cards("Kh Qd Jc 2s 3h"),
        range(&["As Ks", "9c 9d"]),
        range(&["Kd 5c", "4c 5d", "As Ks"]),
    )
    .unwrap()
}

fn ask(kind: ActionType) -> ActionQuery {
    ActionQuery { kind, amount: None }
}

fn ask_for(kind: ActionType, amount: u64) -> ActionQuery {
    ActionQuery { kind, amount: Some(amount) }
}

#[test]
fn a_session_holds_tree_ranges_and_equities() {
    let s = session(3);
    let stats = s.get_stats();
    assert_eq!((stats.nodes, stats.infosets), (57, 20));
    assert_eq!(s.get_num_actions(), 4);
    assert_eq!(s.tree().nodes.len(), 57);
    assert_eq!(s.range(0).len(), 2);
    assert_eq!(s.range(1).len(), 3);
    let m = s.equity_matrix();
    assert_eq!(m.len(), 6);
    assert_eq!(m[0], Some(Equity::Win));
    assert_eq!(m[1], Some(Equity::Win));
    assert_eq!(m[2], None);
    assert_eq!(m[3], Some(Equity::Loss));
    assert_eq!(m[4], Some(Equity::Win));
    assert_eq!(m[5], Some(Equity::Loss));
}

#[test]
fn actions_at_the_root_and_elsewhere() {
    let s = session(3);
    let root = vec![
        Action { kind: ActionType::Check, amount: 0 },
        Action { kind: ActionType::Bet, amount: 50 },
        Action { kind: ActionType::Bet, amount: 100 },
        Action { kind: ActionType::Bet, amount: 500 },
    ];
    assert_eq!(s.get_node_actions(), root);
    assert_eq!(s.get_node_actions_at(0), root);
    assert_eq!(
        s.get_node_actions_at(6),
        vec![
            Action { kind: ActionType::Fold, amount: 0 },
            Action { kind: ActionType::Call, amount: 50 },
            Action { kind: ActionType::Raise, amount: 250 },
            Action { kind: ActionType::Raise, amount: 500 },
        ]
    );
    assert_eq!(s.get_node_actions_at(5), vec![]);
    assert_eq!(s.get_node_actions_at(57), vec![]);
    assert_eq!(s.get_node_actions_at(usize::MAX), vec![]);
}

#[test]
fn the_empty_history_is_the_root() {
    let s = session(3);
    let d = s.get_strategy_for_history(&vec![]).unwrap();
    assert_eq!((d.node_idx, d.is_terminal, d.player, d.pot), (0, false, 0, 100));
    assert_eq!((d.infoset_id, d.num_actions), (Some(0), Some(4)));
    assert_eq!(d.actions.len(), 4);
}

#[test]
fn check_check_is_a_showdown_without_a_strategy() {
    let s = session(3);
    let d = s
        .get_strategy_for_history(&vec![ask(ActionType::Check), ask(ActionType::Check)])
        .unwrap();
    assert_eq!(d.node_idx, 5);
    assert!(d.is_terminal);
    assert_eq!((d.player, d.pot), (255, 100));
    assert_eq!((d.infoset_id, d.num_actions), (None, None));
    assert!(d.actions.is_empty());
    let err = s.get_hand_strategy_at_node(&cards("As Ks"), d.node_idx).unwrap_err();
    assert_eq!(err, SolverError::TerminalNode);
    assert_eq!(err.kind(), ErrorKind::State);
}

#[test]
fn a_named_amount_picks_the_nearest_bet_within_tolerance() {
    let s = session(3);
    let at = |history: Vec<ActionQuery>| s.get_strategy_for_history(&history).map(|d| d.node_idx);
    // Without an amount the first bet is meant.
    assert_eq!(at(vec![ask(ActionType::Bet)]), Ok(2));
    assert_eq!(at(vec![ask_for(ActionType::Bet, 50)]), Ok(2));
    assert_eq!(at(vec![ask_for(ActionType::Bet, 100)]), Ok(3));
    assert_eq!(at(vec![ask_for(ActionType::Bet, 500)]), Ok(4));
    // 15 percent of 55 is 8.25: a bet of 50 is within it, one of 100 is not.
    assert_eq!(at(vec![ask_for(ActionType::Bet, 55)]), Ok(2));
    assert_eq!(at(vec![ask_for(ActionType::Bet, 90)]), Ok(3));
    assert_eq!(at(vec![ask_for(ActionType::Bet, 115)]), Ok(3));
    // 15 percent of 60 is 9: the bet of 50 is 10 away.
    assert_eq!(
        at(vec![ask_for(ActionType::Bet, 60)]),
        Err(SolverError::ActionNotFound { step: 0, node: 0 })
    );
    assert_eq!(
        at(vec![ask_for(ActionType::Bet, 75)]),
        Err(SolverError::ActionNotFound { step: 0, node: 0 })
    );
    // An amount with an action that has none is looked for exactly.
    assert_eq!(at(vec![ask_for(ActionType::Check, 0)]), Ok(1));
    assert_eq!(at(vec![ask_for(ActionType::Check, 7)]), Ok(1));
}

#[test]
fn a_history_walks_down_the_tree() {
    let s = session(3);
    let d = s
        .get_strategy_for_history(&vec![
            ask(ActionType::Check),
            ask_for(ActionType::Bet, 50),
            ask_for(ActionType::Raise, 250),
        ])
        .unwrap();
    assert_eq!((d.node_idx, d.player, d.pot), (11, 1, 400));
    assert_eq!((d.infoset_id, d.num_actions), (Some(3), Some(3)));
    assert_eq!(
        d.actions,
        vec![
            Action { kind: ActionType::Fold, amount: 0 },
            Action { kind: ActionType::Call, amount: 200 },
            Action { kind: ActionType::Raise, amount: 450 },
        ]
    );
    let folded = s
        .get_strategy_for_history(&vec![ask(ActionType::Bet), ask(ActionType::Fold)])
        .unwrap();
    assert!(folded.is_terminal);
    assert_eq!((folded.player, folded.pot, folded.infoset_id), (0, 150, None));
}

#[test]
fn a_step_that_nothing_answers_fails_where_it_stands() {
    let s = session(3);
    let err = s
        .get_strategy_for_history(&vec![ask(ActionType::Check), ask(ActionType::Fold)])
        .unwrap_err();
    assert_eq!(err, SolverError::ActionNotFound { step: 1, node: 1 });
    assert_eq!(err.kind(), ErrorKind::Lookup);
    let err = s
        .get_strategy_for_history(&vec![
            ask(ActionType::Check),
            ask(ActionType::Check),
            ask(ActionType::Check),
        ])
        .unwrap_err();
    assert_eq!(err, SolverError::ActionNotFound { step: 2, node: 5 });
    let err = s.get_strategy_for_history(&vec![ask(ActionType::Raise)]).unwrap_err();
    assert_eq!(err, SolverError::ActionNotFound { step: 0, node: 0 });
}

#[test]
fn the_strategy_of_a_hand_at_a_node() {
    let s = session(3);
    let q = s.get_hand_strategy_at_node(&cards("9d 9c"), 0).unwrap();
    assert_eq!((q.node_idx, q.player, q.hand_idx), (0, 0, 1));
    assert_eq!((q.infoset_id, q.num_actions), (0, 4));
    assert_eq!(q.actions.len(), 4);
    let q = s.get_hand_strategy_at_node(&cards("As Ks"), 1).unwrap();
    assert_eq!((q.node_idx, q.player, q.hand_idx), (1, 1, 2));
    assert_eq!((q.infoset_id, q.num_actions), (1, 4));
    let q = s.get_hand_strategy_at_node(&cards("5d 4c"), 2).unwrap();
    assert_eq!((q.player, q.hand_idx, q.infoset_id), (1, 1, 11));
}

#[test]
fn failures_of_the_strategy_of_a_hand_at_a_node() {
    let s = session(3);
    let hand = cards("As Ks");
    assert_eq!(s.get_hand_strategy_at_node(&cards("As"), 0).unwrap_err(), SolverError::HandSize);
    assert_eq!(
        s.get_hand_strategy_at_node(&cards("As Ks Qs"), 99).unwrap_err(),
        SolverError::HandSize
    );
    assert_eq!(s.get_hand_strategy_at_node(&hand, 57).unwrap_err(), SolverError::NodeOutOfRange);
    assert_eq!(s.get_hand_strategy_at_node(&hand, 9).unwrap_err(), SolverError::TerminalNode);
    assert_eq!(
        s.get_hand_strategy_at_node(&cards("Kd 5c"), 0).unwrap_err(),
        SolverError::HandNotInRange
    );
    assert_eq!(
        s.get_hand_strategy_at_node(&cards("9c 9d"), 1).unwrap_err(),
        SolverError::HandNotInRange
    );
}

#[test]
fn the_first_decision_of_the_player_who_holds_a_hand() {
    let s = session(3);
    let q = s.get_hand_strategy(&cards("9c 9d")).unwrap();
    assert_eq!((q.node_idx, q.player, q.hand_idx, q.infoset_id), (0, 0, 1, 0));
    let q = s.get_hand_strategy(&cards("5c Kd")).unwrap();
    assert_eq!((q.node_idx, q.player, q.hand_idx, q.infoset_id), (1, 1, 0, 1));
    assert_eq!(q.num_actions, 4);
    // A hand of both ranges counts for player 0.
    let q = s.get_hand_strategy(&cards("As Ks")).unwrap();
    assert_eq!((q.node_idx, q.player, q.hand_idx), (0, 0, 0));
    assert_eq!(s.get_hand_strategy(&cards("2c 2d")).unwrap_err(), SolverError::HandNotInRange);
    assert_eq!(s.get_hand_strategy(&cards("2c")).unwrap_err(), SolverError::HandSize);
}

#[test]
fn inputs_that_make_no_session() {
    let tables = init_lookup_tables();
    let make = |config: &GameConfig, board: &str, r0: &[&str], r1: &[&str]| {
        SolverSession::new(&tables, config, cards(board), range(r0), range(r1)).err()
    };
    let ok = standard(3);
    assert_eq!(make(&ok, "Kh Qd Jc 2s", &["As Ks"], &["Kd 5c"]), Some(SolverError::BoardSize));
    assert_eq!(
        make(&ok, "Kh Qd Jc 2s 3h 4h", &["As Ks"], &["Kd 5c"]),
        Some(SolverError::BoardSize)
    );
    assert_eq!(make(&ok, "Kh Qd Jc 2s 3h", &[], &["Kd 5c"]), Some(SolverError::EmptyRange));
    assert_eq!(make(&ok, "Kh Qd Jc 2s 3h", &["As Ks"], &[]), Some(SolverError::EmptyRange));
    assert_eq!(make(&ok, "Kh Qd Jc 2s 3h", &["As Ks Qs"], &["Kd 5c"]), Some(SolverError::HandSize));
    assert_eq!(make(&ok, "Kh Qd Jc 2s 3h", &["As Ks"], &["Kd"]), Some(SolverError::HandSize));
    assert_eq!(make(&ok, "Kh Qd Jc 2s", &[], &["Kd"]), Some(SolverError::BoardSize));
    assert_eq!(make(&ok, "Kh Qd Jc 2s 3h", &[], &["Kd"]), Some(SolverError::HandSize));
    let mut broken = standard(3);
    broken.initial_pot = u64::MAX;
    assert_eq!(
        make(&broken, "Kh Qd Jc 2s 3h", &["As Ks"], &["Kd 5c"]),
        Some(SolverError::Config(BuildError::ChipOverflow))
    );
    broken = standard(3);
    broken.raise_sizes = vec![1; 300];
    assert_eq!(
        make(&broken, "Kh Qd Jc 2s 3h", &["As Ks"], &["Kd 5c"]),
        Some(SolverError::Config(BuildError::TooManySizes))
    );
    assert!(make(&ok, "Kh Qd Jc 2s 3h", &["As Ks"], &["Kd 5c"]).is_none());
}

#[test]
fn kinds_and_words_of_failures() {
    let all = [
        (SolverError::Config(BuildError::ChipOverflow), ErrorKind::Parse),
        (SolverError::Config(BuildError::TooManySizes), ErrorKind::Parse),
        (SolverError::Config(BuildError::TreeTooLarge), ErrorKind::Parse),
        (SolverError::BoardSize, ErrorKind::Shape),
        (SolverError::EmptyRange, ErrorKind::Shape),
        (SolverError::HandSize, ErrorKind::Shape),
        (SolverError::NodeOutOfRange, ErrorKind::Shape),
        (SolverError::HandNotInRange, ErrorKind::Lookup),
        (SolverError::ActionNotFound { step: 1, node: 2 }, ErrorKind::Lookup),
        (SolverError::NoCheckAtRoot, ErrorKind::Lookup),
        (SolverError::NoInfoset, ErrorKind::Lookup),
        (SolverError::TerminalNode, ErrorKind::State),
    ];
    for (error, kind) in all {
        assert_eq!(error.kind(), kind);
        assert!(!error.message().is_empty());
    }
    assert_eq!(SolverError::BoardSize.message(), "Board must have 5 cards");
    assert_eq!(SolverError::EmptyRange.message(), "Ranges cannot be empty");
    assert_eq!(SolverError::HandSize.message(), "Hand must have 2 cards");
    assert_eq!(SolverError::TerminalNode.message(), "Cannot get strategy at terminal node");
}

#[test]
fn words_of_actions() {
    assert_eq!(action_name(ActionType::Fold), "fold");
    assert_eq!(action_name(ActionType::Check), "check");
    assert_eq!(action_name(ActionType::Call), "call");
    assert_eq!(action_name(ActionType::Bet), "bet");
    assert_eq!(action_name(ActionType::Raise), "raise");
}

#[test]
fn a_royal_board_gives_ties_only() {
    let tables = init_lookup_tables();
    let s = SolverSession::new(
        &tables,
        &standard(3),
        cards("As Ks Qs Js Ts"),
        range(&["2c 3c"]),
        range(&["4c 5c"]),
    )
    .unwrap();
    assert_eq!(s.equity_matrix().as_slice(), &[Some(Equity::Tie)]);
}
