//! A solving session: the tree of a river subgame, the two ranges and their
//! equity matrix, and the queries that find the place of a strategy.
//!
//! A strategy lives at an information set, for one hand of the player who
//! acts there. The queries of this module walk the tree along a history of
//! actions, look a hand up in the range of the acting player, and say which
//! information set, hand index and actions a caller has to read.

use vstd::prelude::*;
use crate::arena::{GameTree, Node, NO_INFOSET};
use crate::builder::{build_error, build_river_tree, edge_ok, node_ok, BuildError};
use crate::card::Card;
use crate::equity::{compute_equity_matrix, is_equity_matrix, Equity};
use crate::evaluator::LookupTables;
use crate::types::{Action, ActionType, GameConfig};

verus! {

/// The kinds of failure a session reports.
#[derive(Debug, Clone, Copy, PartialEq, Eq, Structural)]
pub enum ErrorKind {
    /// An input could not be read.
    Parse,
    /// An input has the wrong size or lies out of range.
    Shape,
    /// What was asked for is not there.
    Lookup,
    /// The query makes no sense where it was made.
    State,
}

/// Why a session could not be made or a query not answered.
#[derive(Debug, Clone, Copy, PartialEq, Eq, Structural)]
pub enum SolverError {
    /// A word that should be a card is none.
    InvalidCard { word: usize },
    /// A text that should name an action names none.
    UnknownAction,
    /// The configuration describes no tree that can be built.
    Config(BuildError),
    /// The board does not have five cards.
    BoardSize,
    /// A range has no hand.
    EmptyRange,
    /// A hand does not have two cards.
    HandSize,
    /// No node has the index.
    NodeOutOfRange,
    /// The hand is not in the range of the player concerned.
    HandNotInRange,
    /// No action at the node matches the one of the history at `step`.
    ActionNotFound { step: usize, node: usize },
    /// Player 0 cannot check at the root, so player 1 has no first decision.
    NoCheckAtRoot,
    /// The node has no information set.
    NoInfoset,
    /// The hand is over at the node.
    TerminalNode,
}

impl SolverError {
    pub open spec fn spec_kind(&self) -> ErrorKind {
        match self {
            SolverError::InvalidCard { .. } => ErrorKind::Parse,
            SolverError::UnknownAction => ErrorKind::Parse,
            SolverError::Config(_) => ErrorKind::Parse,
            SolverError::BoardSize => ErrorKind::Shape,
            SolverError::EmptyRange => ErrorKind::Shape,
            SolverError::HandSize => ErrorKind::Shape,
            SolverError::NodeOutOfRange => ErrorKind::Shape,
            SolverError::HandNotInRange => ErrorKind::Lookup,
            SolverError::ActionNotFound { .. } => ErrorKind::Lookup,
            SolverError::NoCheckAtRoot => ErrorKind::Lookup,
            SolverError::NoInfoset => ErrorKind::Lookup,
            SolverError::TerminalNode => ErrorKind::State,
        }
    }

    /// The kind of the failure.
    #[verifier::when_used_as_spec(spec_kind)]
    pub fn kind(&self) -> (kind: ErrorKind)
        ensures
            kind == self.spec_kind(),
    {
        match self {
            SolverError::InvalidCard { .. } => ErrorKind::Parse,
            SolverError::UnknownAction => ErrorKind::Parse,
            SolverError::Config(_) => ErrorKind::Parse,
            SolverError::BoardSize => ErrorKind::Shape,
            SolverError::EmptyRange => ErrorKind::Shape,
            SolverError::HandSize => ErrorKind::Shape,
            SolverError::NodeOutOfRange => ErrorKind::Shape,
            SolverError::HandNotInRange => ErrorKind::Lookup,
            SolverError::ActionNotFound { .. } => ErrorKind::Lookup,
            SolverError::NoCheckAtRoot => ErrorKind::Lookup,
            SolverError::NoInfoset => ErrorKind::Lookup,
            SolverError::TerminalNode => ErrorKind::State,
        }
    }

    /// The failure in words.
    pub open spec fn text(&self) -> Seq<char> {
        match self {
            SolverError::InvalidCard { .. } => "Invalid card"@,
            SolverError::UnknownAction => "Unknown action"@,
            SolverError::Config(BuildError::ChipOverflow) => "Invalid config: pot and stacks are too large"@,
            SolverError::Config(BuildError::TooManySizes) => "Invalid config: too many bet or raise sizes"@,
            SolverError::Config(BuildError::TreeTooLarge) => "Invalid config: the tree is too large"@,
            SolverError::BoardSize => "Board must have 5 cards"@,
            SolverError::EmptyRange => "Ranges cannot be empty"@,
            SolverError::HandSize => "Hand must have 2 cards"@,
            SolverError::NodeOutOfRange => "Invalid node index"@,
            SolverError::HandNotInRange => "Hand not found in ranges"@,
            SolverError::ActionNotFound { .. } => "Action not found at node"@,
            SolverError::NoCheckAtRoot => "No check action found for player 0"@,
            SolverError::NoInfoset => "Node has no infoset"@,
            SolverError::TerminalNode => "Cannot get strategy at terminal node"@,
        }
    }

    /// The failure in words.
    pub fn message(&self) -> (text: &'static str)
        ensures
            text@ == self.text(),
    {
        match self {
            SolverError::InvalidCard { .. } => "Invalid card",
            SolverError::UnknownAction => "Unknown action",
            SolverError::Config(BuildError::ChipOverflow) => "Invalid config: pot and stacks are too large",
            SolverError::Config(BuildError::TooManySizes) => "Invalid config: too many bet or raise sizes",
            SolverError::Config(BuildError::TreeTooLarge) => "Invalid config: the tree is too large",
            SolverError::BoardSize => "Board must have 5 cards",
            SolverError::EmptyRange => "Ranges cannot be empty",
            SolverError::HandSize => "Hand must have 2 cards",
            SolverError::NodeOutOfRange => "Invalid node index",
            SolverError::HandNotInRange => "Hand not found in ranges",
            SolverError::ActionNotFound { .. } => "Action not found at node",
            SolverError::NoCheckAtRoot => "No check action found for player 0",
            SolverError::NoInfoset => "Node has no infoset",
            SolverError::TerminalNode => "Cannot get strategy at terminal node",
        }
    }
}

/// The word for an action.
pub open spec fn action_word(kind: ActionType) -> Seq<char> {
    match kind {
        ActionType::Fold => "fold"@,
        ActionType::Check => "check"@,
        ActionType::Call => "call"@,
        ActionType::Bet => "bet"@,
        ActionType::Raise => "raise"@,
    }
}

/// The word for an action.
pub fn action_name(kind: ActionType) -> (word: &'static str)
    ensures
        word@ == action_word(kind),
{
    match kind {
        ActionType::Fold => "fold",
        ActionType::Check => "check",
        ActionType::Call => "call",
        ActionType::Bet => "bet",
        ActionType::Raise => "raise",
    }
}

/// One step of a history: an action and, for a bet or raise, the amount it
/// is meant to have, if the caller names one.
#[derive(Debug, Clone, Copy)]
pub struct ActionQuery {
    pub kind: ActionType,
    pub amount: Option<u64>,
}

/// The size of the window around a named amount, in hundredths of it.
pub const TOLERANCE_PERCENT: u64 = 15;

/// How far the amount of a child is from the one the query names; nothing
/// where the query names none or asks for no bet or raise.
pub open spec fn distance(child: Node, query: ActionQuery) -> int {
    if query.kind.is_aggressive() && query.amount is Some {
        if child.amount_from_parent >= query.amount->0 {
            child.amount_from_parent - query.amount->0
        } else {
            query.amount->0 - child.amount_from_parent
        }
    } else {
        0
    }
}

/// Whether a child can answer the query: it is reached by the action
/// asked for, and where an amount is named its own lies within the
/// tolerance of it.
pub open spec fn answers(child: Node, query: ActionQuery) -> bool {
    &&& child.action_from_parent == Some(query.kind)
    &&& distance(child, query) * 100 <= (match query.amount {
        Some(amount) => amount * TOLERANCE_PERCENT,
        None => 0,
    })
}

/// Whether `c` is the child of node `i` that the query picks: among the
/// children that can answer it, the one nearest to the named amount, and
/// the first of those.
pub open spec fn is_picked(nodes: Seq<Node>, i: int, query: ActionQuery, c: int) -> bool {
    let first = nodes[i].children_start as int;
    let n = nodes[i].num_actions as int;
    &&& first <= c < first + n
    &&& answers(nodes[c], query)
    &&& forall|d: int|
        first <= d < first + n && answers(#[trigger] nodes[d], query) ==> distance(nodes[c], query)
            < distance(nodes[d], query) || (distance(nodes[c], query) == distance(nodes[d], query)
            && c <= d)
}

/// The child of node `i` that the query picks, if any can answer it.
pub open spec fn picked_child(nodes: Seq<Node>, i: int, query: ActionQuery) -> Option<int> {
    if exists|c: int| is_picked(nodes, i, query, c) {
        Some(choose|c: int| is_picked(nodes, i, query, c))
    } else {
        None
    }
}

/// At most one child is picked.
pub proof fn lemma_picked_unique(nodes: Seq<Node>, i: int, query: ActionQuery, c: int)
    requires
        is_picked(nodes, i, query, c),
    ensures
        picked_child(nodes, i, query) == Some(c),
{
    let other = choose|c: int| is_picked(nodes, i, query, c);
    assert(is_picked(nodes, i, query, other));
    assert(answers(nodes[c], query));
    assert(answers(nodes[other], query));
}

/// Where a history of actions leads from node `i`: the node reached, or
/// the step and node at which no action matched.
pub open spec fn follow(nodes: Seq<Node>, i: int, history: Seq<ActionQuery>, step: int) -> Result<
    int,
    (int, int),
>
    decreases history.len() - step,
{
    if step >= history.len() || step < 0 {
        Ok(i)
    } else {
        match picked_child(nodes, i, history[step]) {
            Some(c) => follow(nodes, c, history, step + 1),
            None => Err((step, i)),
        }
    }
}

/// The action that leads to a node, with its amount.
pub open spec fn action_into(child: Node) -> Action {
    Action { kind: child.action_from_parent->0, amount: child.amount_from_parent }
}

/// The actions at node `i`, in the order of its children.
pub open spec fn actions_at(nodes: Seq<Node>, i: int) -> Seq<Action> {
    Seq::new(
        nodes[i].num_actions as nat,
        |k: int| action_into(nodes[nodes[i].children_start + k]),
    )
}

/// Whether the two cards are the hand, in either order.
pub open spec fn same_hand(hand: Seq<Card>, cards: Seq<Card>) -> bool {
    hand.len() == 2 && cards.len() == 2 && ((hand[0] == cards[0] && hand[1] == cards[1]) || (hand[0]
        == cards[1] && hand[1] == cards[0]))
}

/// Whether `at` is the first place of the hand in the range.
pub open spec fn is_first_place(range: Seq<Vec<Card>>, cards: Seq<Card>, at: int) -> bool {
    &&& 0 <= at < range.len()
    &&& same_hand(range[at]@, cards)
    &&& forall|i: int| 0 <= i < at ==> !same_hand((#[trigger] range[i])@, cards)
}

/// Whether the hand is in the range.
pub open spec fn in_range(range: Seq<Vec<Card>>, cards: Seq<Card>) -> bool {
    exists|i: int| 0 <= i < range.len() && same_hand((#[trigger] range[i])@, cards)
}

/// A range a session can hold: it has a hand, and every hand has two
/// cards.
pub open spec fn range_ok(range: Seq<Vec<Card>>) -> bool {
    &&& range.len() >= 1
    &&& forall|i: int| 0 <= i < range.len() ==> (#[trigger] range[i])@.len() == 2
}

/// The largest number of actions at any node.
pub open spec fn is_max_actions(nodes: Seq<Node>, most: int) -> bool {
    &&& forall|i: int| 0 <= i < nodes.len() ==> (#[trigger] nodes[i]).num_actions <= most
    &&& (most == 0 || exists|i: int| 0 <= i < nodes.len() && (#[trigger] nodes[i]).num_actions == most)
}

/// The numbers a session reports of its tree.
#[derive(Debug, Clone, Copy, PartialEq, Eq, Structural)]
pub struct SessionStats {
    pub nodes: usize,
    pub infosets: usize,
}

/// What a history of actions leads to.
#[derive(Debug)]
pub struct NodeDescriptor {
    pub node_idx: usize,
    /// Whether the node has no action.
    pub is_terminal: bool,
    pub player: u8,
    pub pot: u64,
    /// The information set of the node, if it has one.
    pub infoset_id: Option<u32>,
    /// The number of actions, where the node has an information set.
    pub num_actions: Option<u8>,
    /// The actions, where the node has an information set.
    pub actions: Vec<Action>,
}

/// Where the strategy of a hand at a node is kept.
#[derive(Debug)]
pub struct StrategyQuery {
    pub node_idx: usize,
    /// The player who acts at the node.
    pub player: u8,
    /// The index of the hand in that player's range.
    pub hand_idx: usize,
    pub infoset_id: u32,
    pub num_actions: u8,
    /// The actions the probabilities belong to, in their order.
    pub actions: Vec<Action>,
}

/// The tree of a river subgame with the ranges and equities of a session.
pub struct SolverSession {
    tree: GameTree,
    board: Vec<Card>,
    range0: Vec<Vec<Card>>,
    range1: Vec<Vec<Card>>,
    equity_matrix: Vec<Option<Equity>>,
}

/// Whether every hand of the range has two cards.
fn hands_have_two(range: &Vec<Vec<Card>>) -> (b: bool)
    ensures
        b == all_pairs(range@),
{
    let mut i: usize = 0;
    while i < range.len()
        invariant
            0 <= i <= range.len(),
            forall|k: int| 0 <= k < i ==> (#[trigger] range[k])@.len() == 2,
        decreases range.len() - i,
    {
        if range[i].len() != 2 {
            return false;
        }
        i = i + 1;
    }
    true
}

/// The first place of the hand in the range.
fn find_hand(range: &Vec<Vec<Card>>, cards: &[Card]) -> (place: Option<usize>)
    requires
        cards.len() == 2,
        range_ok(range@),
    ensures
        match place {
            Some(at) => is_first_place(range@, cards@, at as int),
            None => !in_range(range@, cards@),
        },
{
    let mut i: usize = 0;
    while i < range.len()
        invariant
            0 <= i <= range.len(),
            cards.len() == 2,
            range_ok(range@),
            forall|k: int| 0 <= k < i ==> !same_hand((#[trigger] range[k])@, cards@),
        decreases range.len() - i,
    {
        let hand: &Vec<Card> = &range[i];
        assert(range@[i as int]@.len() == 2);
        if (hand[0] == cards[0] && hand[1] == cards[1]) || (hand[0] == cards[1] && hand[1]
            == cards[0]) {
            return Some(i);
        }
        i = i + 1;
    }
    None
}

impl SolverSession {
    /// The tree is sound, the board has five cards, the ranges hold hands of
    /// two cards, and the matrix is that of the ranges on the board.
    #[verifier::type_invariant]
    pub closed spec fn wf(&self) -> bool {
        &&& self.tree.sound()
        &&& self.board@.len() == 5
        &&& range_ok(self.range0@)
        &&& range_ok(self.range1@)
        &&& is_equity_matrix(self.equity_matrix@, self.board@, self.range0@, self.range1@)
    }

    /// The nodes of the tree.
    pub closed spec fn nodes(&self) -> Seq<Node> {
        self.tree.nodes@
    }

    /// The information sets of the tree.
    pub closed spec fn infosets(&self) -> Map<u64, u32> {
        self.tree.infoset_map@
    }

    /// The range of a player.
    pub closed spec fn range_of(&self, player: int) -> Seq<Vec<Card>> {
        if player == 0 {
            self.range0@
        } else {
            self.range1@
        }
    }

    /// The board.
    pub closed spec fn board_cards(&self) -> Seq<Card> {
        self.board@
    }

    /// The equity matrix.
    pub closed spec fn equities(&self) -> Seq<Option<Equity>> {
        self.equity_matrix@
    }

    /// What holds of every session.
    pub open spec fn valid(&self) -> bool {
        &&& 1 <= self.nodes().len() <= NO_INFOSET
        &&& forall|i: int| 0 <= i < self.nodes().len() ==> node_ok(self.nodes(), i)
        &&& self.board_cards().len() == 5
        &&& range_ok(self.range_of(0))
        &&& range_ok(self.range_of(1))
        &&& is_equity_matrix(self.equities(), self.board_cards(), self.range_of(0), self.range_of(1))
    }

    /// Makes a session: builds the tree of the configuration and the equity
    /// matrix of the two ranges on the board.
    ///
    /// It fails exactly where [`session_error`] names an error, and with
    /// that error.
    pub fn new(
        tables: &LookupTables,
        config: &GameConfig,
        board: Vec<Card>,
        range0: Vec<Vec<Card>>,
        range1: Vec<Vec<Card>>,
    ) -> (res: Result<SolverSession, SolverError>)
        ensures
            match res {
                Ok(session) => {
                    &&& session_error(config, board@, range0@, range1@) is None
                    &&& session.valid()
                    &&& session.board_cards() == board@
                    &&& session.range_of(0) == range0@
                    &&& session.range_of(1) == range1@
                    &&& tree_of(session.nodes(), session.infosets(), config)
                },
                Err(e) => session_error(config, board@, range0@, range1@) == Some(e),
            },
    {
        if board.len() != 5 {
            return Err(SolverError::BoardSize);
        }
        if !hands_have_two(&range0) || !hands_have_two(&range1) {
            return Err(SolverError::HandSize);
        }
        if range0.len() == 0 || range1.len() == 0 {
            return Err(SolverError::EmptyRange);
        }
        let equity_matrix = compute_equity_matrix(
            tables,
            board.as_slice(),
            range0.as_slice(),
            range1.as_slice(),
        );
        let tree = match build_river_tree(config) {
            Ok(tree) => tree,
            Err(e) => {
                return Err(SolverError::Config(e));
            },
        };
        Ok(SolverSession { tree, board, range0, range1, equity_matrix })
    }
}

/// Whether every hand of the range has two cards.
pub open spec fn all_pairs(range: Seq<Vec<Card>>) -> bool {
    forall|i: int| 0 <= i < range.len() ==> (#[trigger] range[i])@.len() == 2
}

/// Why no session can be made of the inputs, if none can: the board does
/// not have five cards, or else a hand does not have two, or else a range
/// is empty, or else the tree cannot be built.
pub open spec fn session_error(
    config: &GameConfig,
    board: Seq<Card>,
    range0: Seq<Vec<Card>>,
    range1: Seq<Vec<Card>>,
) -> Option<SolverError> {
    if board.len() != 5 {
        Some(SolverError::BoardSize)
    } else if !all_pairs(range0) || !all_pairs(range1) {
        Some(SolverError::HandSize)
    } else if range0.len() == 0 || range1.len() == 0 {
        Some(SolverError::EmptyRange)
    } else {
        match build_error(config) {
            Some(e) => Some(SolverError::Config(e)),
            None => None,
        }
    }
}

/// Whether the nodes and information sets are those of the river tree of
/// the configuration.
pub open spec fn tree_of(nodes: Seq<Node>, ids: Map<u64, u32>, config: &GameConfig) -> bool {
    exists|tree: GameTree| tree.nodes@ == nodes && tree.infoset_map@ == ids && #[trigger] tree.built(config)
}

/// The actions at a node, in the order of its children.
fn actions_of(tree: &GameTree, node_idx: usize) -> (actions: Vec<Action>)
    requires
        tree.sound(),
        node_idx < tree.nodes.len(),
    ensures
        actions@ == actions_at(tree.nodes@, node_idx as int),
{
    let node: &Node = &tree.nodes[node_idx];
    let first: usize = node.children_start as usize;
    let n: usize = node.num_actions as usize;
    let mut actions: Vec<Action> = Vec::new();
    assert(node_ok(tree.nodes@, node_idx as int));
    let mut k: usize = 0;
    while k < n
        invariant
            0 <= k <= n,
            n == tree.nodes[node_idx as int].num_actions,
            first == tree.nodes[node_idx as int].children_start,
            node_ok(tree.nodes@, node_idx as int),
            node_idx < tree.nodes.len(),
            actions.len() == k,
            forall|j: int| 0 <= j < k ==> actions[j] == action_into(#[trigger] tree.nodes[first + j]),
        decreases n - k,
    {
        let child: &Node = &tree.nodes[first + k];
        assert(edge_ok(tree.nodes[node_idx as int], tree.nodes[first + k]));
        match child.action_from_parent {
            Some(kind) => {
                actions.push(Action { kind, amount: child.amount_from_parent });
            },
            None => {},
        }
        k = k + 1;
    }
    assert(actions@ =~= actions_at(tree.nodes@, node_idx as int));
    actions
}

/// How far the amount of a child is from the one the query names.
fn distance_of(child: &Node, query: &ActionQuery) -> (d: u64)
    ensures
        d == distance(*child, *query),
{
    match query.amount {
        Some(amount) => {
            if query.kind.is_aggressive() {
                if child.amount_from_parent >= amount {
                    child.amount_from_parent - amount
                } else {
                    amount - child.amount_from_parent
                }
            } else {
                0
            }
        },
        None => 0,
    }
}

/// Whether a child can answer the query.
fn answers_query(child: &Node, query: &ActionQuery) -> (b: bool)
    ensures
        b == answers(*child, *query),
{
    let same_kind: bool = match child.action_from_parent {
        Some(kind) => kind == query.kind,
        None => false,
    };
    if !same_kind {
        return false;
    }
    let d: u64 = distance_of(child, query);
    let window: u128 = match query.amount {
        Some(amount) => (amount as u128) * (TOLERANCE_PERCENT as u128),
        None => 0,
    };
    (d as u128) * 100 <= window
}

/// The child of a node that the query picks.
fn pick_child(tree: &GameTree, node_idx: usize, query: &ActionQuery) -> (picked: Option<usize>)
    requires
        tree.sound(),
        node_idx < tree.nodes.len(),
    ensures
        match picked {
            Some(c) => picked_child(tree.nodes@, node_idx as int, *query) == Some(c as int) && c
                < tree.nodes.len(),
            None => picked_child(tree.nodes@, node_idx as int, *query) is None,
        },
{
    let node: &Node = &tree.nodes[node_idx];
    let first: usize = node.children_start as usize;
    let n: usize = node.num_actions as usize;
    let ghost nodes = tree.nodes@;
    assert(node_ok(nodes, node_idx as int));
    let mut best: Option<usize> = None;
    let mut best_distance: u64 = 0;
    let mut k: usize = 0;
    while k < n
        invariant
            0 <= k <= n,
            nodes == tree.nodes@,
            n == nodes[node_idx as int].num_actions,
            first == nodes[node_idx as int].children_start,
            n > 0 ==> first + n <= tree.nodes.len(),
            match best {
                Some(c) => {
                    &&& first <= c < first + k
                    &&& answers(nodes[c as int], *query)
                    &&& best_distance == distance(nodes[c as int], *query)
                    &&& forall|d: int|
                        first <= d < first + k && answers(#[trigger] nodes[d], *query)
                            ==> best_distance < distance(nodes[d], *query) || (best_distance
                            == distance(nodes[d], *query) && c <= d)
                },
                None => forall|d: int| first <= d < first + k ==> !answers(#[trigger] nodes[d], *query),
            },
        decreases n - k,
    {
        let child: &Node = &tree.nodes[first + k];
        if answers_query(child, query) {
            let d: u64 = distance_of(child, query);
            let closer: bool = match best {
                Some(_) => d < best_distance,
                None => true,
            };
            if closer {
                best = Some(first + k);
                best_distance = d;
            }
        }
        k = k + 1;
    }
    proof {
        match best {
            Some(c) => {
                assert(is_picked(nodes, node_idx as int, *query, c as int));
                lemma_picked_unique(nodes, node_idx as int, *query, c as int);
            },
            None => {
                assert forall|c: int| !is_picked(nodes, node_idx as int, *query, c) by {
                    if is_picked(nodes, node_idx as int, *query, c) {
                        assert(answers(nodes[c], *query));
                    }
                }
            },
        }
    }
    best
}

/// What a descriptor says of node `i`: its index, player and pot, and
/// where it has an information set, that set and the actions.
pub open spec fn describes(nodes: Seq<Node>, i: int, d: NodeDescriptor) -> bool {
    let node = nodes[i];
    &&& d.node_idx == i
    &&& d.player == node.player
    &&& d.pot == node.pot
    &&& if node.infoset_id == NO_INFOSET {
        &&& d.is_terminal == (node.num_actions == 0)
        &&& d.infoset_id is None
        &&& d.num_actions is None
        &&& d.actions@ == Seq::<Action>::empty()
    } else {
        &&& !d.is_terminal
        &&& d.infoset_id == Some(node.infoset_id)
        &&& d.num_actions == Some(node.num_actions)
        &&& d.actions@ == actions_at(nodes, i)
    }
}

/// Why the strategy of a hand at a node cannot be pointed to, if it cannot:
/// the hand does not have two cards, or else the node does not exist, or
/// else the hand is over there, or else the node has no information set,
/// or else the hand is not in the range of the player who acts.
pub open spec fn strategy_error(
    nodes: Seq<Node>,
    range0: Seq<Vec<Card>>,
    range1: Seq<Vec<Card>>,
    hand: Seq<Card>,
    i: int,
) -> Option<SolverError> {
    if hand.len() != 2 {
        Some(SolverError::HandSize)
    } else if i >= nodes.len() {
        Some(SolverError::NodeOutOfRange)
    } else if nodes[i].num_actions == 0 {
        Some(SolverError::TerminalNode)
    } else if nodes[i].infoset_id == NO_INFOSET {
        Some(SolverError::NoInfoset)
    } else if !in_range(
        if nodes[i].player == 0 {
            range0
        } else {
            range1
        },
        hand,
    ) {
        Some(SolverError::HandNotInRange)
    } else {
        None
    }
}

/// Whether a query points to the strategy of the hand at node `i`: it
/// names the player who acts there, the first place of the hand in that
/// player's range, and the node's information set and actions.
pub open spec fn points_to(
    nodes: Seq<Node>,
    range: Seq<Vec<Card>>,
    hand: Seq<Card>,
    i: int,
    q: StrategyQuery,
) -> bool {
    &&& q.node_idx == i
    &&& is_first_place(range, hand, q.hand_idx as int)
    &&& q.infoset_id == nodes[i].infoset_id
    &&& q.infoset_id != NO_INFOSET
    &&& q.num_actions == nodes[i].num_actions
    &&& q.actions@ == actions_at(nodes, i)
}

impl SolverSession {
    /// The tree of the session.
    pub fn tree(&self) -> (tree: &GameTree)
        ensures
            tree.nodes@ == self.nodes(),
            tree.infoset_map@ == self.infosets(),
            tree.sound(),
    {
        proof {
            use_type_invariant(self);
        }
        &self.tree
    }

    /// The equity matrix of the two ranges, row by row.
    pub fn equity_matrix(&self) -> (matrix: &Vec<Option<Equity>>)
        ensures
            matrix@ == self.equities(),
            is_equity_matrix(matrix@, self.board_cards(), self.range_of(0), self.range_of(1)),
    {
        proof {
            use_type_invariant(self);
        }
        &self.equity_matrix
    }

    /// The range of player 0, or of player 1 for any other number.
    pub fn range(&self, player: usize) -> (range: &Vec<Vec<Card>>)
        ensures
            range@ == self.range_of(player as int),
            range_ok(range@),
    {
        proof {
            use_type_invariant(self);
        }
        if player == 0 {
            &self.range0
        } else {
            &self.range1
        }
    }

    /// The number of nodes and of information sets.
    pub fn get_stats(&self) -> (stats: SessionStats)
        ensures
            stats.nodes == self.nodes().len(),
            stats.infosets == self.infosets().len(),
    {
        broadcast use vstd::std_specs::hash::group_hash_axioms;

        SessionStats { nodes: self.tree.nodes.len(), infosets: self.tree.infoset_map.len() }
    }

    /// The largest number of actions at any node: the width of a row of
    /// the strategy tables.
    pub fn get_num_actions(&self) -> (most: usize)
        ensures
            is_max_actions(self.nodes(), most as int),
    {
        let mut most: usize = 0;
        let mut i: usize = 0;
        while i < self.tree.nodes.len()
            invariant
                0 <= i <= self.tree.nodes.len(),
                is_max_actions(self.tree.nodes@.take(i as int), most as int),
            decreases self.tree.nodes.len() - i,
        {
            let n: usize = self.tree.nodes[i].num_actions as usize;
            let ghost before = self.tree.nodes@.take(i as int);
            let ghost after = self.tree.nodes@.take(i + 1);
            proof {
                assert(forall|k: int| 0 <= k < i ==> after[k] == before[k]);
                assert(after[i as int] == self.tree.nodes[i as int]);
                if most != 0 {
                    let at = choose|at: int|
                        0 <= at < before.len() && (#[trigger] before[at]).num_actions == most;
                    assert(after[at].num_actions == most);
                }
            }
            if n > most {
                most = n;
            }
            i = i + 1;
        }
        assert(self.tree.nodes@.take(self.tree.nodes.len() as int) =~= self.tree.nodes@);
        most
    }

    /// The actions at the root.
    pub fn get_node_actions(&self) -> (actions: Vec<Action>)
        ensures
            actions@ == actions_at(self.nodes(), 0),
    {
        proof {
            use_type_invariant(self);
        }
        actions_of(&self.tree, 0)
    }

    /// The actions at a node; none where the hand is over, and none for an
    /// index that names no node.
    pub fn get_node_actions_at(&self, node_idx: usize) -> (actions: Vec<Action>)
        ensures
            actions@ == if node_idx < self.nodes().len() {
                actions_at(self.nodes(), node_idx as int)
            } else {
                Seq::<Action>::empty()
            },
    {
        proof {
            use_type_invariant(self);
        }
        if node_idx >= self.tree.nodes.len() {
            return Vec::new();
        }
        actions_of(&self.tree, node_idx)
    }

    /// Walks the tree from the root along a history of actions and
    /// describes the node it leads to.
    ///
    /// A step asks for an action and may name an amount for a bet or raise;
    /// it takes the child reached by that action whose amount is nearest to
    /// the named one and within the tolerance of it, the first of several.
    /// The walk fails at the first step that no child answers.
    pub fn get_strategy_for_history(&self, history: &Vec<ActionQuery>) -> (res: Result<
        NodeDescriptor,
        SolverError,
    >)
        ensures
            match res {
                Ok(d) => follow(self.nodes(), 0, history@, 0) == Ok::<int, (int, int)>(
                    d.node_idx as int,
                ) && d.node_idx < self.nodes().len() && describes(self.nodes(), d.node_idx as int, d),
                Err(e) => exists|step: usize, node: usize|
                    e == (SolverError::ActionNotFound { step, node }) && follow(
                        self.nodes(),
                        0,
                        history@,
                        0,
                    ) == Err::<int, (int, int)>((step as int, node as int)),
            },
    {
        proof {
            use_type_invariant(self);
        }
        let mut node_idx: usize = 0;
        let mut step: usize = 0;
        while step < history.len()
            invariant
                0 <= step <= history.len(),
                self.tree.sound(),
                self.tree.nodes@ == self.nodes(),
                node_idx < self.tree.nodes.len(),
                follow(self.nodes(), 0, history@, 0) == follow(
                    self.nodes(),
                    node_idx as int,
                    history@,
                    step as int,
                ),
            decreases history.len() - step,
        {
            match pick_child(&self.tree, node_idx, &history[step]) {
                Some(child) => {
                    node_idx = child;
                },
                None => {
                    return Err(SolverError::ActionNotFound { step, node: node_idx });
                },
            }
            step = step + 1;
        }
        let node: &Node = &self.tree.nodes[node_idx];
        if node.infoset_id == NO_INFOSET {
            return Ok(
                NodeDescriptor {
                    node_idx,
                    is_terminal: node.num_actions == 0,
                    player: node.player,
                    pot: node.pot,
                    infoset_id: None,
                    num_actions: None,
                    actions: Vec::new(),
                },
            );
        }
        let actions = actions_of(&self.tree, node_idx);
        Ok(
            NodeDescriptor {
                node_idx,
                is_terminal: false,
                player: node.player,
                pot: node.pot,
                infoset_id: Some(node.infoset_id),
                num_actions: Some(node.num_actions),
                actions,
            },
        )
    }

    /// Points to the strategy of a hand at a node.
    ///
    /// It fails exactly where [`strategy_error`] names an error, and with
    /// that error.
    pub fn get_hand_strategy_at_node(&self, hand: &[Card], node_idx: usize) -> (res: Result<
        StrategyQuery,
        SolverError,
    >)
        ensures
            match res {
                Ok(q) => {
                    &&& strategy_error(
                        self.nodes(),
                        self.range_of(0),
                        self.range_of(1),
                        hand@,
                        node_idx as int,
                    ) is None
                    &&& q.player == self.nodes()[node_idx as int].player
                    &&& q.player <= 1
                    &&& points_to(
                        self.nodes(),
                        self.range_of(q.player as int),
                        hand@,
                        node_idx as int,
                        q,
                    )
                },
                Err(e) => strategy_error(
                    self.nodes(),
                    self.range_of(0),
                    self.range_of(1),
                    hand@,
                    node_idx as int,
                ) == Some(e),
            },
    {
        proof {
            use_type_invariant(self);
        }
        if hand.len() != 2 {
            return Err(SolverError::HandSize);
        }
        if node_idx >= self.tree.nodes.len() {
            return Err(SolverError::NodeOutOfRange);
        }
        let node: &Node = &self.tree.nodes[node_idx];
        if node.num_actions == 0 {
            return Err(SolverError::TerminalNode);
        }
        if node.infoset_id == NO_INFOSET {
            return Err(SolverError::NoInfoset);
        }
        assert(node_ok(self.tree.nodes@, node_idx as int));
        let range: &Vec<Vec<Card>> = if node.player == 0 {
            &self.range0
        } else {
            &self.range1
        };
        let hand_idx: usize = match find_hand(range, hand) {
            Some(at) => at,
            None => {
                return Err(SolverError::HandNotInRange);
            },
        };
        let actions = actions_of(&self.tree, node_idx);
        Ok(
            StrategyQuery {
                node_idx,
                player: node.player,
                hand_idx,
                infoset_id: node.infoset_id,
                num_actions: node.num_actions,
                actions,
            },
        )
    }

    /// Points to the strategy of a hand at the first decision of the
    /// player who holds it: the root for a hand of player 0, the node
    /// behind a check of player 0 for a hand of player 1. A hand of both
    /// ranges counts as one of player 0.
    ///
    /// It fails exactly where [`first_decision`] names an error, and with
    /// that error.
    pub fn get_hand_strategy(&self, hand: &[Card]) -> (res: Result<StrategyQuery, SolverError>)
        ensures
            match res {
                Ok(q) => {
                    &&& first_decision(self.nodes(), self.range_of(0), self.range_of(1), hand@)
                        == Ok::<(int, int), SolverError>((q.player as int, q.node_idx as int))
                    &&& q.player <= 1
                    &&& q.node_idx < self.nodes().len()
                    &&& points_to(
                        self.nodes(),
                        self.range_of(q.player as int),
                        hand@,
                        q.node_idx as int,
                        q,
                    )
                },
                Err(e) => first_decision(self.nodes(), self.range_of(0), self.range_of(1), hand@)
                    == Err::<(int, int), SolverError>(e),
            },
    {
        proof {
            use_type_invariant(self);
        }
        if hand.len() != 2 {
            return Err(SolverError::HandSize);
        }
        let mut player: u8 = 0;
        let mut place: Option<usize> = find_hand(&self.range0, hand);
        if place.is_none() {
            place = find_hand(&self.range1, hand);
            player = 1;
        }
        let hand_idx: usize = match place {
            Some(at) => at,
            None => {
                return Err(SolverError::HandNotInRange);
            },
        };
        let node_idx: usize = if player == 0 {
            0
        } else {
            let check = ActionQuery { kind: ActionType::Check, amount: None };
            match pick_child(&self.tree, 0, &check) {
                Some(child) => child,
                None => {
                    return Err(SolverError::NoCheckAtRoot);
                },
            }
        };
        let node: &Node = &self.tree.nodes[node_idx];
        if node.infoset_id == NO_INFOSET {
            return Err(SolverError::NoInfoset);
        }
        let actions = actions_of(&self.tree, node_idx);
        Ok(
            StrategyQuery {
                node_idx,
                player,
                hand_idx,
                infoset_id: node.infoset_id,
                num_actions: node.num_actions,
                actions,
            },
        )
    }
}

/// The query for the first check at a node.
pub open spec fn first_check() -> ActionQuery {
    ActionQuery { kind: ActionType::Check, amount: None }
}

/// The player who holds a hand and the node of that player's first
/// decision, or why there is none: the hand does not have two cards, or
/// else it is in neither range, or else it is one of player 1 and player 0
/// cannot check at the root, or else the node has no information set.
pub open spec fn first_decision(
    nodes: Seq<Node>,
    range0: Seq<Vec<Card>>,
    range1: Seq<Vec<Card>>,
    hand: Seq<Card>,
) -> Result<(int, int), SolverError> {
    if hand.len() != 2 {
        Err(SolverError::HandSize)
    } else if in_range(range0, hand) {
        if nodes[0].infoset_id == NO_INFOSET {
            Err(SolverError::NoInfoset)
        } else {
            Ok((0, 0))
        }
    } else if !in_range(range1, hand) {
        Err(SolverError::HandNotInRange)
    } else {
        match picked_child(nodes, 0, first_check()) {
            None => Err(SolverError::NoCheckAtRoot),
            Some(node) => if nodes[node].infoset_id == NO_INFOSET {
                Err(SolverError::NoInfoset)
            } else {
                Ok((1, node))
            },
        }
    }
}

} // verus!
