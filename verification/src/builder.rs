//! The builder that unfolds the betting rules into a game tree.
//!
//! [`build_river_tree`] lays the tree out in the arena: the children of a
//! decision side by side, one for each legal action, then the subtree of
//! each child in turn. [`GameTree::built`] says what the finished tree is.

use vstd::prelude::*;
use crate::arena::{GameTree, Node, NodeType, NO_INFOSET, NO_PLAYER};
use crate::rules::{
    leads_to_action, legal_actions, lemma_raise_limit, make_child, next_state, raises_along,
    BetState, MAX_DEPTH,
};
use crate::types::{Action, ActionType, GameConfig, MAX_SIZES};

verus! {

/// Why a tree could not be built.
#[derive(Debug, Clone, Copy, PartialEq, Eq, Structural)]
pub enum BuildError {
    /// The pot and the two stacks together do not fit a `u64`.
    ChipOverflow,
    /// The configuration lists more bet sizes or more raise sizes than
    /// [`MAX_SIZES`].
    TooManySizes,
    /// The tree has more nodes than a 32-bit index can number.
    TreeTooLarge,
}

/// The key under which the information set of a decision is filed: the
/// player in the top bits, the node's index below.
pub open spec fn infoset_key(player: u8, node_id: u32) -> u64 {
    ((player as u64) << 60) | (node_id as u64)
}

/// The number of nodes below a decision in the given state.
pub open spec fn descendants(config: &GameConfig, state: BetState) -> nat
    decreases MAX_DEPTH + 1 - state.depth, state.legal_actions(config).len() + 1,
{
    if state.depth > MAX_DEPTH {
        0
    } else {
        let n = state.legal_actions(config).len();
        n + descendants_below(config, state, n)
    }
}

/// The number of nodes below the first `n` children of a decision.
pub open spec fn descendants_below(config: &GameConfig, state: BetState, n: nat) -> nat
    decreases MAX_DEPTH + 1 - state.depth, n,
{
    if n == 0 || n > state.legal_actions(config).len() || state.depth > MAX_DEPTH {
        0
    } else {
        let action = state.legal_actions(config)[n - 1];
        descendants_below(config, state, (n - 1) as nat) + if state.leads_to_action(action) {
            descendants(config, state.child_state(action))
        } else {
            0
        }
    }
}

/// The more children, the more nodes below them.
pub proof fn lemma_descendants_below_grows(config: &GameConfig, state: BetState, k: nat, n: nat)
    requires
        k <= n <= state.legal_actions(config).len(),
    ensures
        descendants_below(config, state, k) <= descendants_below(config, state, n),
    decreases n,
{
    if k < n {
        lemma_descendants_below_grows(config, state, k, (n - 1) as nat);
    }
}

/// Whether a node carries what the rules say of the node an action leads
/// to: its kind, player, pot, and the action and amount that lead to it.
pub open spec fn payload_matches(node: Node, made: Node) -> bool {
    &&& node.node_type == made.node_type
    &&& node.player == made.player
    &&& node.pot == made.pot
    &&& node.action_from_parent == made.action_from_parent
    &&& node.amount_from_parent == made.amount_from_parent
}

/// A node that has no children and no information set.
pub open spec fn unexpanded(node: Node) -> bool {
    &&& node.num_actions == 0
    &&& node.children_start == 0
    &&& node.infoset_id == NO_INFOSET
}

/// The arena holds, at node `i`, the subtree of a decision in the given
/// state, laid out as the builder lays it out.
///
/// The node has one child for each legal action, in order and side by side;
/// each child carries what the rules say of it; a child that hands the move
/// over is itself the root of the subtree of the state it leads to, and the
/// subtrees of the children follow the children in the arena, one after the
/// other. The node's information set is the one filed under its key. A
/// decision deeper than [`MAX_DEPTH`] has no children.
#[verifier::opaque]
pub open spec fn subtree_built(
    nodes: Seq<Node>,
    ids: Map<u64, u32>,
    i: int,
    config: &GameConfig,
    state: BetState,
) -> bool
    decreases MAX_DEPTH + 1 - state.depth,
{
    &&& 0 <= i < nodes.len()
    &&& if state.depth > MAX_DEPTH {
        unexpanded(nodes[i])
    } else {
        let acts = state.legal_actions(config);
        let first = nodes[i].children_start as int;
        let n = acts.len() as int;
        &&& nodes[i].num_actions == n
        &&& i < first
        &&& first + n + descendants_below(config, state, n as nat) <= nodes.len()
        &&& nodes[i].infoset_id != NO_INFOSET
        &&& ids.contains_key(infoset_key(state.player, i as u32))
        &&& ids[infoset_key(state.player, i as u32)] == nodes[i].infoset_id
        &&& forall|k: int|
            0 <= k < n ==> {
                let child = first + k;
                &&& payload_matches(nodes[child], state.child_node(config, #[trigger] acts[k]))
                &&& if state.leads_to_action(acts[k]) {
                    &&& subtree_built(nodes, ids, child, config, state.child_state(acts[k]))
                    &&& state.depth < MAX_DEPTH ==> nodes[child].children_start == first + n
                        + descendants_below(config, state, k as nat)
                } else {
                    unexpanded(nodes[child])
                }
            }
    }
}

/// A subtree stays what it is when the arena grows and other nodes change.
pub proof fn lemma_subtree_frame(
    nodes1: Seq<Node>,
    ids1: Map<u64, u32>,
    nodes2: Seq<Node>,
    ids2: Map<u64, u32>,
    i: int,
    config: &GameConfig,
    state: BetState,
)
    requires
        config.wf(),
        state.wf(config),
        subtree_built(nodes1, ids1, i, config, state),
        nodes1.len() <= nodes2.len(),
        nodes2[i] == nodes1[i],
        state.depth <= MAX_DEPTH ==> forall|j: int|
            nodes1[i].children_start <= j < nodes1.len() ==> nodes2[j] == nodes1[j],
        forall|k: u64| #[trigger] ids1.contains_key(k) ==> ids2.contains_key(k) && ids2[k] == ids1[k],
    ensures
        subtree_built(nodes2, ids2, i, config, state),
    decreases MAX_DEPTH + 1 - state.depth,
{
    reveal(subtree_built);
    if state.depth <= MAX_DEPTH {
        let acts = state.legal_actions(config);
        let first = nodes1[i].children_start as int;
        let n = acts.len() as int;
        assert(ids1.contains_key(infoset_key(state.player, i as u32)));
        assert forall|k: int| 0 <= k < n implies {
            let child = first + k;
            &&& payload_matches(nodes2[child], state.child_node(config, #[trigger] acts[k]))
            &&& if state.leads_to_action(acts[k]) {
                &&& subtree_built(nodes2, ids2, child, config, state.child_state(acts[k]))
                &&& state.depth < MAX_DEPTH ==> nodes2[child].children_start == first + n
                    + descendants_below(config, state, k as nat)
            } else {
                unexpanded(nodes2[child])
            }
        } by {
            let child = first + k;
            assert(nodes2[child] == nodes1[child]);
            if state.leads_to_action(acts[k]) {
                state.lemma_child_state(config, k);
                lemma_subtree_frame(
                    nodes1,
                    ids1,
                    nodes2,
                    ids2,
                    child,
                    config,
                    state.child_state(acts[k]),
                );
            }
        }
    }
}

/// Whether a child is what the action that leads to it makes of its
/// parent: a fold ends the hand for the other player, a call and a check by
/// player 1 lead to a showdown, a check by player 0 and every bet or raise
/// hand the move over.
pub open spec fn edge_ok(parent: Node, child: Node) -> bool {
    match child.action_from_parent {
        Some(ActionType::Fold) => child.node_type == NodeType::Terminal && child.player == 1
            - parent.player,
        Some(ActionType::Check) => if parent.player == 1 {
            child.node_type == NodeType::Showdown && child.player == NO_PLAYER
        } else {
            child.node_type == NodeType::Action && child.player == 1
        },
        Some(ActionType::Call) => child.node_type == NodeType::Showdown && child.player
            == NO_PLAYER,
        Some(ActionType::Bet) | Some(ActionType::Raise) => child.node_type == NodeType::Action
            && child.player == 1 - parent.player,
        None => false,
    }
}

/// Node `i` is sound by itself: a decision belongs to player 0 or 1, and
/// once it has children they are a span of the arena behind it, each what
/// its action makes of the decision; any other node has no children.
pub open spec fn node_ok(nodes: Seq<Node>, i: int) -> bool {
    let first = nodes[i].children_start as int;
    let n = nodes[i].num_actions as int;
    if nodes[i].node_type == NodeType::Action {
        &&& nodes[i].player <= 1
        &&& n == 0 ==> unexpanded(nodes[i])
        &&& n > 0 ==> {
            &&& nodes[i].infoset_id != NO_INFOSET
            &&& i < first
            &&& first + n <= nodes.len()
            &&& forall|c: int| first <= c < first + n ==> edge_ok(nodes[i], #[trigger] nodes[c])
        }
    } else {
        &&& nodes[i].node_type != NodeType::Chance
        &&& unexpanded(nodes[i])
    }
}

/// A decision with at least one action, or a node that is no decision.
pub open spec fn no_stub(node: Node) -> bool {
    node.node_type == NodeType::Action ==> node.num_actions >= 1
}

/// A sound node stays sound when the arena grows and other nodes change
/// nothing but their children and information set.
pub proof fn lemma_node_ok_frame(nodes1: Seq<Node>, nodes2: Seq<Node>, i: int)
    requires
        0 <= i < nodes1.len() <= nodes2.len(),
        node_ok(nodes1, i),
        nodes2[i] == nodes1[i],
        forall|c: int| 0 <= c < nodes1.len() ==> payload_matches(#[trigger] nodes2[c], nodes1[c]),
    ensures
        node_ok(nodes2, i),
{
    let first = nodes1[i].children_start as int;
    let n = nodes1[i].num_actions as int;
    if nodes1[i].node_type == NodeType::Action && n > 0 {
        assert forall|c: int| first <= c < first + n implies edge_ok(
            nodes2[i],
            #[trigger] nodes2[c],
        ) by {
            assert(edge_ok(nodes1[i], nodes1[c]));
            assert(payload_matches(nodes2[c], nodes1[c]));
        }
    }
}

impl GameTree {
    /// The tree has a root and every node is sound by itself, so that a
    /// walk from the root down the children stays inside the arena.
    pub open spec fn sound(&self) -> bool {
        &&& 1 <= self.nodes.len() <= NO_INFOSET
        &&& forall|i: int| 0 <= i < self.nodes.len() ==> node_ok(self.nodes@, i)
    }

    /// The tree is the river tree of the configuration: its root is the
    /// opening decision of player 0, the arena holds exactly the subtree of
    /// that decision and nothing else, and every node is sound by itself.
    pub open spec fn built(&self, config: &GameConfig) -> bool {
        let root = BetState::root(config);
        &&& self.wf()
        &&& self.infoset_map@.len() < self.nodes.len()
        &&& self.nodes.len() == 1 + descendants(config, root)
        &&& payload_matches(self.nodes[0], Node::spec_new(NodeType::Action, 0, config.initial_pot))
        &&& subtree_built(self.nodes@, self.infoset_map@, 0, config, root)
        &&& forall|i: int| 0 <= i < self.nodes.len() ==> node_ok(self.nodes@, i)
        &&& config.raise_limit < MAX_DEPTH ==> forall|i: int|
            0 <= i < self.nodes.len() ==> no_stub(#[trigger] self.nodes[i])
    }
}

/// Why the tree of a configuration cannot be built, if it cannot: the
/// chips in play do not fit a `u64`, or else a list of sizes is too long,
/// or else the tree has more nodes than 32 bits can number.
pub open spec fn build_error(config: &GameConfig) -> Option<BuildError> {
    if config.initial_pot + config.stacks[0] + config.stacks[1] > u64::MAX {
        Some(BuildError::ChipOverflow)
    } else if config.bet_sizes.len() > MAX_SIZES || config.raise_sizes.len() > MAX_SIZES {
        Some(BuildError::TooManySizes)
    } else if 1 + descendants(config, BetState::root(config)) > NO_INFOSET {
        Some(BuildError::TreeTooLarge)
    } else {
        None
    }
}

/// Builds the tree of the river subgame that the configuration describes.
///
/// It fails exactly where [`build_error`] names an error, and with that
/// error; otherwise the tree is the one [`GameTree::built`] describes.
pub fn build_river_tree(config: &GameConfig) -> (res: Result<GameTree, BuildError>)
    ensures
        match res {
            Ok(tree) => build_error(config) is None && tree.built(config) && tree.sound(),
            Err(e) => build_error(config) == Some(e),
        },
{
    let chips: u128 = config.initial_pot as u128 + config.stacks[0] as u128
        + config.stacks[1] as u128;
    if chips > u64::MAX as u128 {
        return Err(BuildError::ChipOverflow);
    }
    if config.bet_sizes.len() > MAX_SIZES || config.raise_sizes.len() > MAX_SIZES {
        return Err(BuildError::TooManySizes);
    }
    let mut tree = GameTree::new();
    let root_node = Node::new(NodeType::Action, 0, config.initial_pot);
    let root_id: u32 = tree.add_node(root_node);
    let state = BetState {
        player: 0,
        bets: [0, 0],
        stacks: config.stacks,
        depth: 0,
        raise_count: 0,
    };
    assert(state == BetState::root(config));
    assert(tree.infoset_map@.len() == 0);
    match build_subtree(&mut tree, root_id, config, state) {
        Ok(()) => {
            assert forall|i: int| 0 <= i < tree.nodes.len() implies node_ok(tree.nodes@, i) by {}
            Ok(tree)
        },
        Err(e) => Err(e),
    }
}

/// Expands the decision at `node_id`: gives it its information set and its
/// children, then expands each child that is a decision in turn.
#[verifier::rlimit(60)]
fn build_subtree(tree: &mut GameTree, node_id: u32, config: &GameConfig, state: BetState) -> (res:
    Result<(), BuildError>)
    requires
        config.wf(),
        state.wf(config),
        old(tree).wf(),
        old(tree).infoset_map@.len() < old(tree).nodes.len(),
        node_id < old(tree).nodes.len(),
        old(tree).nodes[node_id as int].node_type == NodeType::Action,
        old(tree).nodes[node_id as int].player == state.player,
        unexpanded(old(tree).nodes[node_id as int]),
    ensures
        res matches Err(e) ==> e == BuildError::TreeTooLarge,
        res is Err <==> old(tree).nodes.len() + descendants(config, state) > NO_INFOSET,
        res is Ok ==> {
            &&& final(tree).wf()
            &&& final(tree).infoset_map@.len() < final(tree).nodes.len()
            &&& final(tree).nodes.len() == old(tree).nodes.len() + descendants(config, state)
            &&& subtree_built(final(tree).nodes@, final(tree).infoset_map@, node_id as int, config, state)
            &&& forall|i: int|
                0 <= i < old(tree).nodes.len() && i != node_id ==> final(tree).nodes[i] == old(tree).nodes[i]
            &&& payload_matches(final(tree).nodes[node_id as int], old(tree).nodes[node_id as int])
            &&& forall|k: u64| #[trigger]
                old(tree).infoset_map@.contains_key(k) ==> final(tree).infoset_map@.contains_key(k)
                    && final(tree).infoset_map@[k] == old(tree).infoset_map@[k]
            &&& state.depth <= MAX_DEPTH ==> final(tree).nodes[node_id as int].children_start == old(tree).nodes.len()
            &&& node_ok(final(tree).nodes@, node_id as int)
            &&& forall|i: int|
                old(tree).nodes.len() <= i < final(tree).nodes.len() ==> node_ok(final(tree).nodes@, i)
            &&& config.raise_limit < MAX_DEPTH ==> no_stub(final(tree).nodes[node_id as int])
            &&& config.raise_limit < MAX_DEPTH ==> forall|i: int|
                old(tree).nodes.len() <= i < final(tree).nodes.len() ==> no_stub(
                    #[trigger] final(tree).nodes[i],
                )
        },
    decreases MAX_DEPTH + 1 - state.depth,
{
    if state.depth > MAX_DEPTH {
        proof {
            reveal(subtree_built);
        }
        return Ok(());
    }
    let actions = legal_actions(config, &state);
    let n: usize = actions.len();
    let ghost acts = state.legal_actions(config);
    let ghost nodes0 = tree.nodes@;
    let ghost ids0 = tree.infoset_map@;
    if tree.nodes.len() as u64 + n as u64 > NO_INFOSET as u64 {
        return Err(BuildError::TreeTooLarge);
    }
    let children_start: u32 = tree.nodes.len() as u32;
    open_node(tree, node_id, config, &state, &actions);
    let ghost first = children_start as int;
    let ghost parent = tree.nodes[node_id as int];
    proof {
        reveal(children_built);
    }
    let mut k: usize = 0;
    while k < n
        invariant
            config.wf(),
            state.wf(config),
            state.depth <= MAX_DEPTH,
            0 <= k <= n,
            n == actions.len(),
            actions@ == acts,
            acts == state.legal_actions(config),
            1 <= n <= 255,
            nodes0 == old(tree).nodes@,
            first == nodes0.len(),
            first == children_start,
            first + n <= NO_INFOSET,
            node_id < first,
            tree.wf(),
            tree.infoset_map@.len() < tree.nodes.len(),
            tree.nodes.len() == first + n + descendants_below(config, state, k as nat),
            forall|i: int| 0 <= i < first && i != node_id ==> tree.nodes[i] == nodes0[i],
            tree.nodes[node_id as int] == parent,
            opened(parent, nodes0[node_id as int], n as int, first),
            parent.player == state.player,
            forall|j: int|
                k <= j < n ==> tree.nodes[first + j] == state.child_node(config, #[trigger] acts[j]),
            children_built(tree.nodes@, tree.infoset_map@, first, n as int, k as int, config, state),
            forall|key: u64| #[trigger]
                ids0.contains_key(key) ==> tree.infoset_map@.contains_key(key)
                    && tree.infoset_map@[key] == ids0[key],
            tree.infoset_map@.contains_key(infoset_key(state.player, node_id)),
            tree.infoset_map@[infoset_key(state.player, node_id)] == parent.infoset_id,
            forall|i: int|
                first <= i < tree.nodes.len() && !(first + k <= i < first + n) ==> node_ok(
                    tree.nodes@,
                    i,
                ),
            config.raise_limit < MAX_DEPTH ==> forall|i: int|
                first <= i < tree.nodes.len() && !(first + k <= i < first + n) ==> no_stub(
                    #[trigger] tree.nodes[i],
                ),
        ensures
            k == n,
        decreases n - k,
    {
        let action: Action = actions[k];
        let ghost before = tree.nodes@;
        let ghost ids_before = tree.infoset_map@;
        proof {
            state.lemma_legal_actions(config);
            assert(action == acts[k as int]);
            assert(tree.nodes[first + k] == state.child_node(config, acts[k as int]));
        }
        if leads_to_action(&state, action) {
            proof {
                state.lemma_child_state(config, k as int);
            }
            let next = next_state(&state, action);
            let child_id: u32 = children_start + k as u32;
            match build_subtree(tree, child_id, config, next) {
                Ok(()) => {},
                Err(e) => {
                    proof {
                        lemma_descendants_below_grows(config, state, (k + 1) as nat, n as nat);
                        assert(descendants_below(config, state, (k + 1) as nat)
                            == descendants_below(config, state, k as nat) + descendants(
                            config,
                            next,
                        ));
                        assert(descendants(config, state) == n + descendants_below(
                            config,
                            state,
                            n as nat,
                        ));
                    }
                    return Err(e);
                },
            }
            proof {
                lemma_children_frame(
                    before,
                    ids_before,
                    tree.nodes@,
                    tree.infoset_map@,
                    first,
                    n as int,
                    k as int,
                    config,
                    state,
                );
                assert forall|i: int|
                    first <= i < before.len() && !(first + k <= i < first + n) implies node_ok(
                    tree.nodes@,
                    i,
                ) by {
                    lemma_node_ok_frame(before, tree.nodes@, i);
                }
            }
        } else {
            assert(node_ok(tree.nodes@, first + k));
        }
        proof {
            lemma_children_step(tree.nodes@, tree.infoset_map@, first, n as int, k as int, config, state);
        }
        k += 1;
    }
    proof {
        assert(descendants(config, state) == n + descendants_below(config, state, n as nat));
        lemma_close_node(
            tree.nodes@,
            tree.infoset_map@,
            node_id as int,
            nodes0[node_id as int],
            config,
            state,
        );
    }
    Ok(())
}

/// A decision whose children are all built is the root of its subtree, and
/// its node is sound.
proof fn lemma_close_node(
    nodes: Seq<Node>,
    ids: Map<u64, u32>,
    i: int,
    old_node: Node,
    config: &GameConfig,
    state: BetState,
)
    requires
        config.wf(),
        state.wf(config),
        state.depth <= MAX_DEPTH,
        0 <= i < nodes[i].children_start,
        i <= NO_INFOSET,
        opened(
            nodes[i],
            old_node,
            state.legal_actions(config).len() as int,
            nodes[i].children_start as int,
        ),
        nodes[i].player == state.player,
        nodes[i].children_start + state.legal_actions(config).len() + descendants_below(
            config,
            state,
            state.legal_actions(config).len(),
        ) <= nodes.len(),
        ids.contains_key(infoset_key(state.player, i as u32)),
        ids[infoset_key(state.player, i as u32)] == nodes[i].infoset_id,
        children_built(
            nodes,
            ids,
            nodes[i].children_start as int,
            state.legal_actions(config).len() as int,
            state.legal_actions(config).len() as int,
            config,
            state,
        ),
    ensures
        subtree_built(nodes, ids, i, config, state),
        node_ok(nodes, i),
        no_stub(nodes[i]),
{
    let acts = state.legal_actions(config);
    let first = nodes[i].children_start as int;
    let n = acts.len() as int;
    state.lemma_legal_actions(config);
    assert(subtree_built(nodes, ids, i, config, state)) by {
        reveal(children_built);
        reveal(subtree_built);
    }
    assert forall|c: int| first <= c < first + n implies edge_ok(nodes[i], #[trigger] nodes[c]) by {
        let j = c - first;
        lemma_child_edge(nodes, ids, first, n, j, nodes[i], config, state);
    }
}

/// A built child is what its action makes of the decision above it.
proof fn lemma_child_edge(
    nodes: Seq<Node>,
    ids: Map<u64, u32>,
    first: int,
    n: int,
    j: int,
    parent: Node,
    config: &GameConfig,
    state: BetState,
)
    requires
        config.wf(),
        state.wf(config),
        0 <= j < n == state.legal_actions(config).len(),
        parent.player == state.player,
        children_built(nodes, ids, first, n, n, config, state),
    ensures
        edge_ok(parent, nodes[first + j]),
{
    reveal(children_built);
    let a = state.legal_actions(config)[j];
    assert(payload_matches(nodes[first + j], state.child_node(config, a)));
}

/// What opening a decision makes of its node: it gets `n` children that
/// start at `first` and an information set, and keeps the rest.
pub open spec fn opened(node: Node, old_node: Node, n: int, first: int) -> bool {
    &&& payload_matches(node, old_node)
    &&& node.node_type == NodeType::Action
    &&& node.num_actions == n
    &&& node.children_start == first
    &&& node.infoset_id != NO_INFOSET
}

/// The first `k` of the `n` children that start at `first` are built: each
/// carries what the rules say of it, and each that is a decision is the
/// root of its subtree, which starts where the subtrees before it end.
#[verifier::opaque]
pub open spec fn children_built(
    nodes: Seq<Node>,
    ids: Map<u64, u32>,
    first: int,
    n: int,
    k: int,
    config: &GameConfig,
    state: BetState,
) -> bool {
    let acts = state.legal_actions(config);
    forall|j: int|
        0 <= j < k ==> {
            let child = first + j;
            &&& payload_matches(nodes[child], state.child_node(config, #[trigger] acts[j]))
            &&& if state.leads_to_action(acts[j]) {
                &&& subtree_built(nodes, ids, child, config, state.child_state(acts[j]))
                &&& state.depth < MAX_DEPTH ==> nodes[child].children_start == first + n
                    + descendants_below(config, state, j as nat)
            } else {
                unexpanded(nodes[child])
            }
        }
}

/// The children built so far stay built while the subtree of child `k` is
/// added behind them.
proof fn lemma_children_frame(
    nodes1: Seq<Node>,
    ids1: Map<u64, u32>,
    nodes2: Seq<Node>,
    ids2: Map<u64, u32>,
    first: int,
    n: int,
    k: int,
    config: &GameConfig,
    state: BetState,
)
    requires
        config.wf(),
        state.wf(config),
        state.depth <= MAX_DEPTH,
        0 <= k < n == state.legal_actions(config).len(),
        0 <= first,
        first + n <= nodes1.len() <= nodes2.len(),
        children_built(nodes1, ids1, first, n, k, config, state),
        forall|i: int| first <= i < nodes1.len() && i != first + k ==> nodes2[i] == nodes1[i],
        forall|key: u64| #[trigger]
            ids1.contains_key(key) ==> ids2.contains_key(key) && ids2[key] == ids1[key],
    ensures
        children_built(nodes2, ids2, first, n, k, config, state),
{
    reveal(children_built);
    let acts = state.legal_actions(config);
    assert forall|j: int| 0 <= j < k implies {
        let child = first + j;
        &&& payload_matches(nodes2[child], state.child_node(config, #[trigger] acts[j]))
        &&& if state.leads_to_action(acts[j]) {
            &&& subtree_built(nodes2, ids2, child, config, state.child_state(acts[j]))
            &&& state.depth < MAX_DEPTH ==> nodes2[child].children_start == first + n
                + descendants_below(config, state, j as nat)
        } else {
            unexpanded(nodes2[child])
        }
    } by {
        let child = first + j;
        assert(nodes2[child] == nodes1[child]);
        if state.leads_to_action(acts[j]) {
            state.lemma_child_state(config, j);
            lemma_subtree_frame(
                nodes1,
                ids1,
                nodes2,
                ids2,
                child,
                config,
                state.child_state(acts[j]),
            );
        }
    }
}

/// With child `k` built, the first `k + 1` children are.
proof fn lemma_children_step(
    nodes: Seq<Node>,
    ids: Map<u64, u32>,
    first: int,
    n: int,
    k: int,
    config: &GameConfig,
    state: BetState,
)
    requires
        0 <= k < n,
        children_built(nodes, ids, first, n, k, config, state),
        ({
            let acts = state.legal_actions(config);
            let child = first + k;
            &&& payload_matches(nodes[child], state.child_node(config, acts[k]))
            &&& if state.leads_to_action(acts[k]) {
                &&& subtree_built(nodes, ids, child, config, state.child_state(acts[k]))
                &&& state.depth < MAX_DEPTH ==> nodes[child].children_start == first + n
                    + descendants_below(config, state, k as nat)
            } else {
                unexpanded(nodes[child])
            }
        }),
    ensures
        children_built(nodes, ids, first, n, k + 1, config, state),
{
    reveal(children_built);
}

/// Gives the decision at `node_id` its information set and appends its
/// children, one for each action.
fn open_node(
    tree: &mut GameTree,
    node_id: u32,
    config: &GameConfig,
    state: &BetState,
    actions: &Vec<Action>,
)
    requires
        config.wf(),
        state.wf(config),
        state.depth <= MAX_DEPTH,
        actions@ == state.legal_actions(config),
        old(tree).wf(),
        old(tree).infoset_map@.len() < old(tree).nodes.len(),
        old(tree).nodes.len() + actions.len() <= NO_INFOSET,
        node_id < old(tree).nodes.len(),
        old(tree).nodes[node_id as int].node_type == NodeType::Action,
    ensures
        final(tree).wf(),
        final(tree).infoset_map@.len() < final(tree).nodes.len(),
        final(tree).nodes.len() == old(tree).nodes.len() + actions.len(),
        forall|i: int|
            0 <= i < old(tree).nodes.len() && i != node_id ==> final(tree).nodes[i] == old(tree).nodes[i],
        opened(
            final(tree).nodes[node_id as int],
            old(tree).nodes[node_id as int],
            actions.len() as int,
            old(tree).nodes.len() as int,
        ),
        forall|k: int|
            0 <= k < actions.len() ==> final(tree).nodes[old(tree).nodes.len() + k]
                == state.child_node(config, #[trigger] actions[k]),
        forall|key: u64| #[trigger]
            old(tree).infoset_map@.contains_key(key) ==> final(tree).infoset_map@.contains_key(key)
                && final(tree).infoset_map@[key] == old(tree).infoset_map@[key],
        final(tree).infoset_map@.contains_key(infoset_key(state.player, node_id)),
        final(tree).infoset_map@[infoset_key(state.player, node_id)] == final(tree).nodes[node_id as int].infoset_id,
{
    proof {
        state.lemma_legal_actions(config);
    }
    let key: u64 = infoset_key_of(state.player, node_id);
    let infoset_id: u32 = tree.get_infoset_id(key);
    let children_start: u32 = tree.nodes.len() as u32;
    let node = tree.get_node_mut(node_id);
    node.num_actions = actions.len() as u8;
    node.children_start = children_start;
    node.infoset_id = infoset_id;
    append_children(tree, config, state, actions);
}

/// Appends the node of each action, in order.
fn append_children(
    tree: &mut GameTree,
    config: &GameConfig,
    state: &BetState,
    actions: &Vec<Action>,
)
    requires
        config.wf(),
        state.wf(config),
        actions@ == state.legal_actions(config),
        old(tree).nodes.len() + actions.len() <= NO_INFOSET,
    ensures
        final(tree).infoset_map == old(tree).infoset_map,
        final(tree).nodes.len() == old(tree).nodes.len() + actions.len(),
        forall|i: int| 0 <= i < old(tree).nodes.len() ==> final(tree).nodes[i] == old(tree).nodes[i],
        forall|k: int|
            0 <= k < actions.len() ==> final(tree).nodes[old(tree).nodes.len() + k]
                == state.child_node(config, #[trigger] actions[k]),
{
    let ghost nodes0 = tree.nodes@;
    proof {
        state.lemma_legal_actions(config);
    }
    let mut k: usize = 0;
    while k < actions.len()
        invariant
            config.wf(),
            state.wf(config),
            actions@ == state.legal_actions(config),
            0 <= k <= actions.len(),
            nodes0.len() + actions.len() <= NO_INFOSET,
            tree.infoset_map == old(tree).infoset_map,
            tree.nodes.len() == nodes0.len() + k,
            forall|i: int| 0 <= i < nodes0.len() ==> tree.nodes[i] == nodes0[i],
            forall|j: int|
                0 <= j < k ==> tree.nodes[nodes0.len() + j] == state.child_node(
                    config,
                    #[trigger] actions[j],
                ),
        decreases actions.len() - k,
    {
        proof {
            state.lemma_legal_actions(config);
        }
        let child = make_child(config, state, actions[k]);
        tree.add_node(child);
        k += 1;
    }
}

/// The key of the information set of the decision of `player` at `node_id`.
fn infoset_key_of(player: u8, node_id: u32) -> (key: u64)
    ensures
        key == infoset_key(player, node_id),
{
    ((player as u64) << 60) | (node_id as u64)
}

/// In the tree of a configuration whose raise limit is below the depth
/// cap, every decision has at least one action, and its children are a
/// span of the arena behind it.
pub proof fn lemma_children_span(tree: GameTree, config: &GameConfig, i: int)
    requires
        tree.built(config),
        config.raise_limit < MAX_DEPTH,
        0 <= i < tree.nodes.len(),
        tree.nodes[i].node_type == NodeType::Action,
    ensures
        tree.nodes[i].num_actions >= 1,
        i < tree.nodes[i].children_start,
        tree.nodes[i].children_start + tree.nodes[i].num_actions <= tree.nodes.len(),
{
    assert(node_ok(tree.nodes@, i));
    assert(no_stub(tree.nodes[i]));
}

/// In the tree of a configuration every fold leads to a terminal node, and
/// every call and every check of player 1 to a showdown.
pub proof fn lemma_closing_actions(tree: GameTree, config: &GameConfig, i: int, c: int)
    requires
        tree.built(config),
        0 <= i < tree.nodes.len(),
        tree.nodes[i].children_start <= c < tree.nodes[i].children_start + tree.nodes[i].num_actions,
    ensures
        0 <= c < tree.nodes.len(),
        tree.nodes[c].action_from_parent is Some,
        tree.nodes[c].action_from_parent == Some(ActionType::Fold) ==> tree.nodes[c].node_type
            == NodeType::Terminal,
        tree.nodes[c].action_from_parent == Some(ActionType::Call) ==> tree.nodes[c].node_type
            == NodeType::Showdown,
        tree.nodes[c].action_from_parent == Some(ActionType::Check) && tree.nodes[i].player == 1
            ==> tree.nodes[c].node_type == NodeType::Showdown,
{
    assert(node_ok(tree.nodes@, i));
    assert(edge_ok(tree.nodes[i], tree.nodes[c]));
}

/// The number of raises among the actions that `path` takes from node `i`
/// down the arena: each entry numbers a child of the node reached.
pub open spec fn raises_in_tree(nodes: Seq<Node>, i: int, path: Seq<int>) -> nat
    decreases path.len(),
{
    if path.len() == 0 || !(0 <= i < nodes.len()) || !(0 <= path[0] < nodes[i].num_actions) {
        0
    } else {
        let child = nodes[i].children_start + path[0];
        let here: nat = if nodes[child].action_from_parent == Some(ActionType::Raise) {
            1
        } else {
            0
        };
        here + raises_in_tree(nodes, child, path.drop_first())
    }
}

/// A walk down a built subtree takes the raises that the same line of
/// play takes by the rules.
pub proof fn lemma_tree_follows_rules(
    nodes: Seq<Node>,
    ids: Map<u64, u32>,
    i: int,
    config: &GameConfig,
    state: BetState,
    path: Seq<int>,
)
    requires
        config.wf(),
        state.wf(config),
        subtree_built(nodes, ids, i, config, state),
    ensures
        raises_in_tree(nodes, i, path) == raises_along(config, state, path),
    decreases path.len(),
{
    reveal(subtree_built);
    let acts = state.legal_actions(config);
    if path.len() == 0 || state.depth > MAX_DEPTH || !(0 <= path[0] < acts.len()) {
    } else {
        let k = path[0];
        let action = acts[k];
        let child = nodes[i].children_start + k;
        state.lemma_legal_actions(config);
        assert(payload_matches(nodes[child], state.child_node(config, action)));
        if state.leads_to_action(action) {
            state.lemma_child_state(config, k);
            lemma_tree_follows_rules(
                nodes,
                ids,
                child,
                config,
                state.child_state(action),
                path.drop_first(),
            );
        } else {
            assert(unexpanded(nodes[child]));
            assert(raises_in_tree(nodes, child, path.drop_first()) == 0);
        }
    }
}

/// In the tree of a configuration no walk from the root takes more raises
/// than the raise limit.
pub proof fn lemma_tree_raise_limit(tree: GameTree, config: &GameConfig, path: Seq<int>)
    requires
        config.wf(),
        tree.built(config),
    ensures
        raises_in_tree(tree.nodes@, 0, path) <= config.raise_limit,
{
    lemma_tree_follows_rules(
        tree.nodes@,
        tree.infoset_map@,
        0,
        config,
        BetState::root(config),
        path,
    );
    lemma_raise_limit(config, path);
}

} // verus!
