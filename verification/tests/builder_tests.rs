use poker_core::arena::{GameTree, Node, NodeType, NO_INFOSET, NO_PLAYER};
use poker_core::builder::{build_river_tree, BuildError};
use poker_core::rules::{legal_actions, BetState};
use poker_core::types::{default_raise_limit, Action, ActionType, GameConfig};

fn config(pot: u64, stacks: [u64; 2], bets: &[u32], raises: &[u32], limit: u8) -> GameConfig {
    GameConfig {
        initial_pot: pot,
        stacks,
        bet_sizes: bets.to_vec(),
        raise_sizes: raises.to_vec(),
        raise_limit: limit,
    }
}

fn standard(limit: u8) -> GameConfig {
    config(100, [500, 500], &[500, 1000], &[1000], limit)
}

fn children(tree: &GameTree, node: usize) -> Vec<usize> {
    let n = &tree.nodes[node];
    (0..n.num_actions as usize).map(|k| n.children_start as usize + k).collect()
}

fn kinds_at(tree: &GameTree, node: usize) -> Vec<(ActionType, u64)> {
    children(tree, node)
        .into_iter()
        .map(|c| (tree.nodes[c].action_from_parent.unwrap(), tree.nodes[c].amount_from_parent))
        .collect()
}

fn most_raises(tree: &GameTree, node: usize) -> usize {
    children(tree, node)
        .into_iter()
        .map(|c| {
            let here = if tree.nodes[c].action_from_parent == Some(ActionType::Raise) { 1 } else { 0 };
            here + most_raises(tree, c)
        })
        .max()
        .unwrap_or(0)
}

fn facing_a_bet(tree: &GameTree, node: usize) -> bool {
    matches!(
        tree.nodes[node].action_from_parent,
        Some(ActionType::Bet) | Some(ActionType::Raise)
    )
}

#[test]
fn root_of_the_standard_tree() {
    let tree = build_river_tree(&standard(3)).unwrap();
    let root = &tree.nodes[0];
    assert_eq!(root.node_type, NodeType::Action);
    assert_eq!(root.player, 0);
    assert_eq!(root.pot, 100);
    assert_eq!(root.children_start, 1);
    assert_eq!(root.infoset_id, 0);
    assert_eq!(root.action_from_parent, None);
    assert_eq!(
        kinds_at(&tree, 0),
        vec![
            (ActionType::Check, 0),
            (ActionType::Bet, 50),
            (ActionType::Bet, 100),
            (ActionType::Bet, 500),
        ]
    );
}

#[test]
fn sizes_of_the_standard_tree() {
    let tree = build_river_tree(&standard(3)).unwrap();
    assert_eq!(tree.nodes.len(), 57);
    assert_eq!(tree.infoset_map.len(), 20);
    let widest = tree.nodes.iter().map(|n| n.num_actions).max().unwrap();
    assert_eq!(widest, 4);
}

#[test]
fn layout_of_the_standard_tree() {
    let tree = build_river_tree(&standard(3)).unwrap();
    // The check of player 0 hands the move over without a bet.
    let checked = &tree.nodes[1];
    assert_eq!((checked.node_type, checked.player, checked.pot), (NodeType::Action, 1, 100));
    assert_eq!((checked.children_start, checked.num_actions, checked.infoset_id), (5, 4, 1));
    // The other children of the root are expanded after the subtree of the first.
    assert_eq!((tree.nodes[2].children_start, tree.nodes[2].infoset_id), (33, 11));
    assert_eq!((tree.nodes[3].children_start, tree.nodes[3].infoset_id), (44, 15));
    assert_eq!((tree.nodes[4].children_start, tree.nodes[4].infoset_id), (55, 19));
    assert_eq!(tree.nodes[4].num_actions, 2);
    // A check behind a check is a showdown for the pot as it is.
    let showdown = &tree.nodes[5];
    assert_eq!((showdown.node_type, showdown.player, showdown.pot), (NodeType::Showdown, NO_PLAYER, 100));
    assert_eq!((showdown.num_actions, showdown.infoset_id), (0, NO_INFOSET));
    // Facing the bet of 50 behind a check: fold, call, raise to 250 in all, all-in.
    assert_eq!(
        kinds_at(&tree, 6),
        vec![
            (ActionType::Fold, 0),
            (ActionType::Call, 50),
            (ActionType::Raise, 250),
            (ActionType::Raise, 500),
        ]
    );
    let folded = &tree.nodes[9];
    assert_eq!((folded.node_type, folded.player, folded.pot), (NodeType::Terminal, 1, 150));
    let called = &tree.nodes[10];
    assert_eq!((called.node_type, called.player, called.pot), (NodeType::Showdown, NO_PLAYER, 200));
    let raised = &tree.nodes[11];
    assert_eq!((raised.node_type, raised.player, raised.pot), (NodeType::Action, 1, 400));
    assert_eq!((raised.children_start, raised.num_actions, raised.infoset_id), (13, 3, 3));
}

#[test]
fn odd_sizes_round_down_and_short_stacks_cap() {
    let tree = build_river_tree(&config(75, [1000, 40], &[333, 750], &[500, 2000], 2)).unwrap();
    assert_eq!(tree.nodes.len(), 30);
    assert_eq!(tree.infoset_map.len(), 11);
    assert_eq!(
        kinds_at(&tree, 0),
        vec![
            (ActionType::Check, 0),
            (ActionType::Bet, 24),
            (ActionType::Bet, 56),
            (ActionType::Bet, 1000),
        ]
    );
    // Player 1 has 40 behind: one bet of 24, and the other size is the all-in.
    assert_eq!(
        kinds_at(&tree, 1),
        vec![(ActionType::Check, 0), (ActionType::Bet, 24), (ActionType::Bet, 40)]
    );
    // Facing 24: raises of 24 + 123 / 2 and of 24 + 123 * 2, then the all-in.
    assert_eq!(
        kinds_at(&tree, 6),
        vec![
            (ActionType::Fold, 0),
            (ActionType::Call, 24),
            (ActionType::Raise, 85),
            (ActionType::Raise, 270),
            (ActionType::Raise, 1000),
        ]
    );
    // Facing more than the stack, the call is for the stack.
    assert_eq!(kinds_at(&tree, 3), vec![(ActionType::Fold, 0), (ActionType::Call, 40)]);
    assert_eq!(tree.nodes[tree.nodes[3].children_start as usize + 1].pot, 75 + 56 + 40);
}

#[test]
fn nobody_bets_into_an_empty_stack() {
    let tree = build_river_tree(&config(100, [0, 500], &[500], &[1000], 3)).unwrap();
    assert_eq!(tree.nodes.len(), 3);
    assert_eq!(tree.infoset_map.len(), 2);
    assert_eq!(kinds_at(&tree, 0), vec![(ActionType::Check, 0)]);
    assert_eq!(kinds_at(&tree, 1), vec![(ActionType::Check, 0)]);
    assert_eq!(tree.nodes[2].node_type, NodeType::Showdown);
}

#[test]
fn without_sizes_the_all_in_is_still_offered() {
    let tree = build_river_tree(&config(100, [500, 500], &[], &[], 3)).unwrap();
    assert_eq!(tree.nodes.len(), 9);
    assert_eq!(kinds_at(&tree, 0), vec![(ActionType::Check, 0), (ActionType::Bet, 500)]);
    assert_eq!(kinds_at(&tree, 2), vec![(ActionType::Fold, 0), (ActionType::Call, 500)]);
}

#[test]
fn an_all_in_is_offered_once() {
    let tree = build_river_tree(&config(100, [80, 500], &[1000, 2000, 800], &[], 3)).unwrap();
    assert_eq!(kinds_at(&tree, 0), vec![(ActionType::Check, 0), (ActionType::Bet, 80)]);
    let tree = build_river_tree(&config(100, [80, 500], &[500, 2000, 600, 900], &[], 3)).unwrap();
    assert_eq!(
        kinds_at(&tree, 0),
        vec![
            (ActionType::Check, 0),
            (ActionType::Bet, 50),
            (ActionType::Bet, 80),
            (ActionType::Bet, 60),
        ]
    );
}

#[test]
fn a_size_of_nothing_is_no_bet() {
    let tree = build_river_tree(&config(100, [500, 500], &[0, 5], &[], 3)).unwrap();
    assert_eq!(kinds_at(&tree, 0), vec![(ActionType::Check, 0), (ActionType::Bet, 500)]);
    let tree = build_river_tree(&config(1000, [500, 500], &[5], &[], 3)).unwrap();
    assert_eq!(
        kinds_at(&tree, 0),
        vec![(ActionType::Check, 0), (ActionType::Bet, 5), (ActionType::Bet, 500)]
    );
}

#[test]
fn with_no_raises_allowed_bets_remain() {
    let tree = build_river_tree(&standard(0)).unwrap();
    assert_eq!(tree.nodes.len(), 21);
    assert_eq!(tree.infoset_map.len(), 8);
    for node in &tree.nodes {
        assert_ne!(node.action_from_parent, Some(ActionType::Raise));
    }
    assert_eq!(
        kinds_at(&tree, 0),
        vec![
            (ActionType::Check, 0),
            (ActionType::Bet, 50),
            (ActionType::Bet, 100),
            (ActionType::Bet, 500),
        ]
    );
    assert_eq!(kinds_at(&tree, 2), vec![(ActionType::Fold, 0), (ActionType::Call, 50)]);
}

#[test]
fn raises_on_a_line_stay_within_the_limit() {
    let expected = [(0u8, 21usize, 8usize, 0usize), (1, 21, 8, 0), (2, 45, 16, 1), (3, 69, 24, 2), (5, 105, 36, 4)];
    for (limit, nodes, infosets, raises) in expected {
        let tree = build_river_tree(&config(100, [5000, 5000], &[500, 1000], &[1000], limit)).unwrap();
        assert_eq!(tree.nodes.len(), nodes);
        assert_eq!(tree.infoset_map.len(), infosets);
        assert_eq!(most_raises(&tree, 0), raises);
        assert!(most_raises(&tree, 0) <= limit as usize);
    }
}

#[test]
fn children_are_spans_behind_their_parent() {
    let tree = build_river_tree(&standard(3)).unwrap();
    let mut parent_of = vec![usize::MAX; tree.nodes.len()];
    for (i, node) in tree.nodes.iter().enumerate() {
        if node.node_type == NodeType::Action {
            assert!(node.num_actions >= 1);
            assert!(node.player <= 1);
            assert_ne!(node.infoset_id, NO_INFOSET);
            assert!(node.children_start as usize > i);
            assert!(node.children_start as usize + node.num_actions as usize <= tree.nodes.len());
        } else {
            assert_eq!(node.num_actions, 0);
            assert_eq!(node.infoset_id, NO_INFOSET);
        }
        for c in children(&tree, i) {
            assert_eq!(parent_of[c], usize::MAX);
            parent_of[c] = i;
        }
    }
    assert_eq!(parent_of[0], usize::MAX);
    assert!(parent_of[1..].iter().all(|&p| p != usize::MAX));
}

#[test]
fn fold_is_offered_exactly_when_a_bet_is_faced() {
    let tree = build_river_tree(&standard(3)).unwrap();
    for (i, node) in tree.nodes.iter().enumerate() {
        if node.node_type != NodeType::Action {
            continue;
        }
        let kinds: Vec<ActionType> = kinds_at(&tree, i).into_iter().map(|(k, _)| k).collect();
        let folds = kinds.iter().filter(|&&k| k == ActionType::Fold).count();
        let checks = kinds.iter().filter(|&&k| k == ActionType::Check).count();
        let calls = kinds.iter().filter(|&&k| k == ActionType::Call).count();
        assert_eq!(folds == 1, facing_a_bet(&tree, i));
        assert_eq!(folds, calls);
        assert_eq!(checks + calls, 1);
    }
}

#[test]
fn closing_actions_end_the_hand() {
    let tree = build_river_tree(&standard(3)).unwrap();
    for (i, node) in tree.nodes.iter().enumerate() {
        for c in children(&tree, i) {
            let child = &tree.nodes[c];
            match child.action_from_parent.unwrap() {
                ActionType::Fold => {
                    assert_eq!(child.node_type, NodeType::Terminal);
                    assert_eq!(child.player, 1 - node.player);
                    assert_eq!(child.pot, node.pot);
                }
                ActionType::Call => {
                    assert_eq!(child.node_type, NodeType::Showdown);
                    assert_eq!(child.player, NO_PLAYER);
                    assert_eq!(child.pot, node.pot + child.amount_from_parent);
                }
                ActionType::Check => {
                    if node.player == 1 {
                        assert_eq!(child.node_type, NodeType::Showdown);
                    } else {
                        assert_eq!((child.node_type, child.player), (NodeType::Action, 1));
                    }
                    assert_eq!(child.pot, node.pot);
                }
                ActionType::Bet | ActionType::Raise => {
                    assert_eq!((child.node_type, child.player), (NodeType::Action, 1 - node.player));
                    assert_eq!(child.pot, node.pot + child.amount_from_parent);
                }
            }
        }
    }
}

#[test]
fn information_sets_are_dense_and_filed_by_player_and_node() {
    let tree = build_river_tree(&standard(3)).unwrap();
    let mut seen = vec![false; tree.infoset_map.len()];
    for (i, node) in tree.nodes.iter().enumerate() {
        if node.infoset_id != NO_INFOSET {
            assert!(!seen[node.infoset_id as usize]);
            seen[node.infoset_id as usize] = true;
            let key = ((node.player as u64) << 60) | i as u64;
            assert_eq!(tree.infoset_map.get(&key), Some(&node.infoset_id));
        }
    }
    assert!(seen.iter().all(|&s| s));
}

#[test]
fn decisions_past_the_depth_cap_stay_closed() {
    let tree = build_river_tree(&config(10, [1_000_000_000, 1_000_000_000], &[100], &[100], 200)).unwrap();
    assert_eq!(tree.nodes.len(), 241);
    assert_eq!(tree.infoset_map.len(), 80);
    let stubs: Vec<&Node> = tree
        .nodes
        .iter()
        .filter(|n| n.node_type == NodeType::Action && n.num_actions == 0)
        .collect();
    assert_eq!(stubs.len(), 4);
    assert!(stubs.iter().all(|n| n.infoset_id == NO_INFOSET));
}

#[test]
fn a_raise_limit_below_the_cap_leaves_no_decision_closed() {
    let tree = build_river_tree(&config(10, [1_000_000_000, 1_000_000_000], &[100], &[100], 19)).unwrap();
    assert!(tree.nodes.iter().all(|n| n.node_type != NodeType::Action || n.num_actions >= 1));
}

#[test]
fn chips_that_do_not_fit_are_refused() {
    let res = build_river_tree(&config(u64::MAX, [1, 0], &[500], &[1000], 3));
    assert_eq!(res.err(), Some(BuildError::ChipOverflow));
    let res = build_river_tree(&config(1, [u64::MAX / 2, u64::MAX / 2 + 1], &[500], &[1000], 3));
    assert_eq!(res.err(), Some(BuildError::ChipOverflow));
    assert!(build_river_tree(&config(1, [u64::MAX / 2, u64::MAX / 2], &[500], &[1000], 1)).is_ok());
}

#[test]
fn too_many_sizes_are_refused() {
    let many = vec![500u32; 253];
    let res = build_river_tree(&config(100, [500, 500], &many, &[1000], 3));
    assert_eq!(res.err(), Some(BuildError::TooManySizes));
    let res = build_river_tree(&config(100, [500, 500], &[500], &many, 3));
    assert_eq!(res.err(), Some(BuildError::TooManySizes));
    // Chips are looked at first.
    let res = build_river_tree(&config(u64::MAX, [500, 500], &many, &[1000], 3));
    assert_eq!(res.err(), Some(BuildError::ChipOverflow));
    let most = vec![500u32; 252];
    assert!(build_river_tree(&config(100, [500, 500], &most, &[1000], 0)).is_ok());
}

#[test]
fn many_different_sizes_fill_a_node() {
    let sizes: Vec<u32> = (1..=252u32).map(|k| k * 10).collect();
    let tree = build_river_tree(&config(1000, [100_000, 100_000], &sizes, &[], 0)).unwrap();
    assert_eq!(tree.nodes[0].num_actions, 254);
    assert_eq!(kinds_at(&tree, 0)[252], (ActionType::Bet, 2520));
    assert_eq!(kinds_at(&tree, 0)[253], (ActionType::Bet, 100_000));
}

#[test]
fn legal_actions_at_given_states() {
    let cfg = standard(3);
    let root = BetState { player: 0, bets: [0, 0], stacks: [500, 500], depth: 0, raise_count: 0 };
    assert_eq!(
        legal_actions(&cfg, &root),
        vec![
            Action { kind: ActionType::Check, amount: 0 },
            Action { kind: ActionType::Bet, amount: 50 },
            Action { kind: ActionType::Bet, amount: 100 },
            Action { kind: ActionType::Bet, amount: 500 },
        ]
    );
    let facing = BetState { player: 1, bets: [100, 0], stacks: [400, 500], depth: 1, raise_count: 1 };
    assert_eq!(
        legal_actions(&cfg, &facing),
        vec![
            Action { kind: ActionType::Fold, amount: 0 },
            Action { kind: ActionType::Call, amount: 100 },
            Action { kind: ActionType::Raise, amount: 400 },
            Action { kind: ActionType::Raise, amount: 500 },
        ]
    );
    let capped = BetState { player: 0, bets: [50, 300], stacks: [450, 200], depth: 3, raise_count: 3 };
    assert_eq!(
        legal_actions(&cfg, &capped),
        vec![
            Action { kind: ActionType::Fold, amount: 0 },
            Action { kind: ActionType::Call, amount: 250 },
        ]
    );
}

#[test]
fn arena_operations() {
    let mut tree = GameTree::new();
    assert_eq!(tree.nodes.len(), 0);
    let a = tree.add_node(Node::new(NodeType::Action, 0, 10));
    let b = tree.add_node(Node::new(NodeType::Terminal, 1, 20));
    assert_eq!((a, b), (0, 1));
    assert_eq!(tree.get_node(1).pot, 20);
    assert!(!tree.get_node(0).is_terminal());
    assert!(tree.get_node(1).is_terminal());
    assert!(Node::new(NodeType::Showdown, 255, 0).is_terminal());
    assert!(!Node::new(NodeType::Chance, 255, 0).is_terminal());
    let fresh = tree.get_node(0);
    assert_eq!((fresh.children_start, fresh.num_actions, fresh.infoset_id), (0, 0, NO_INFOSET));
    assert_eq!((fresh.action_from_parent, fresh.amount_from_parent), (None, 0));
    tree.get_node_mut(0).num_actions = 3;
    assert_eq!(tree.get_node(0).num_actions, 3);
    assert_eq!(tree.get_node(1).num_actions, 0);
    assert_eq!(tree.get_infoset_id(77), 0);
    assert_eq!(tree.get_infoset_id(5), 1);
    assert_eq!(tree.get_infoset_id(77), 0);
    assert_eq!(tree.get_infoset_id(1 << 60), 2);
    assert_eq!(tree.infoset_map.len(), 3);
}

#[test]
fn kinds_of_action() {
    assert!(ActionType::Bet.is_aggressive());
    assert!(ActionType::Raise.is_aggressive());
    assert!(!ActionType::Fold.is_aggressive());
    assert!(!ActionType::Check.is_aggressive());
    assert!(!ActionType::Call.is_aggressive());
    assert_eq!(default_raise_limit(), 3);
}
