//! The game tree as a flat arena.
//!
//! Nodes sit in one vector and name their children by index: the children of
//! a node are the `num_actions` nodes that start at `children_start`. A table
//! beside the vector hands out dense information-set numbers, one for each
//! key the first time it is asked for.

use vstd::prelude::*;
use std::collections::HashMap;
use crate::types::ActionType;

verus! {

broadcast use vstd::std_specs::hash::group_hash_axioms;

/// The information-set number of a node that has none.
pub const NO_INFOSET: u32 = 0xFFFF_FFFF;

/// The player of a node at which nobody acts or wins.
pub const NO_PLAYER: u8 = 255;

/// What happens at a node.
#[derive(Debug, Clone, Copy, PartialEq, Eq, Structural)]
pub enum NodeType {
    /// The hand is over without a showdown: somebody folded.
    Terminal,
    /// The hand is over and the hands are compared.
    Showdown,
    /// A player has to act.
    Action,
    /// A card is dealt. A river subgame has none.
    Chance,
}

/// A node of the game tree.
#[derive(Debug, Clone, Copy)]
pub struct Node {
    pub node_type: NodeType,
    /// Who acts at an action node, who wins at a terminal node, and
    /// [`NO_PLAYER`] at a showdown.
    pub player: u8,
    /// Chips in the pot at this node.
    pub pot: u64,
    /// Index of the first child.
    pub children_start: u32,
    /// Number of children.
    pub num_actions: u8,
    /// The node's information set, or [`NO_INFOSET`].
    pub infoset_id: u32,
    /// The action that leads here from the parent; the root has none.
    pub action_from_parent: Option<ActionType>,
    /// The chips that action put in.
    pub amount_from_parent: u64,
}

impl Node {
    pub open spec fn spec_new(node_type: NodeType, player: u8, pot: u64) -> Node {
        Node {
            node_type,
            player,
            pot,
            children_start: 0,
            num_actions: 0,
            infoset_id: NO_INFOSET,
            action_from_parent: None,
            amount_from_parent: 0,
        }
    }

    /// A node without children, information set or incoming action.
    #[verifier::when_used_as_spec(spec_new)]
    pub fn new(node_type: NodeType, player: u8, pot: u64) -> (node: Node)
        ensures
            node == Node::spec_new(node_type, player, pot),
    {
        Node {
            node_type,
            player,
            pot,
            children_start: 0,
            num_actions: 0,
            infoset_id: NO_INFOSET,
            action_from_parent: None,
            amount_from_parent: 0,
        }
    }

    pub open spec fn spec_is_terminal(&self) -> bool {
        self.node_type == NodeType::Terminal || self.node_type == NodeType::Showdown
    }

    /// Whether the hand is over at this node.
    #[verifier::when_used_as_spec(spec_is_terminal)]
    pub fn is_terminal(&self) -> (b: bool)
        ensures
            b == self.spec_is_terminal(),
    {
        matches!(self.node_type, NodeType::Terminal | NodeType::Showdown)
    }
}

/// Information-set numbers are dense: the `n` keys of the table carry the
/// numbers `0..n`, each once.
pub open spec fn dense_ids(ids: Map<u64, u32>) -> bool {
    &&& ids.dom().finite()
    &&& forall|k: u64| #[trigger] ids.contains_key(k) ==> ids[k] < ids.len()
    &&& forall|j: u64, k: u64|
        #![trigger ids[j], ids[k]]
        ids.contains_key(j) && ids.contains_key(k) && j != k ==> ids[j] != ids[k]
}

/// The nodes of a game tree and its information-set table.
#[derive(Debug)]
pub struct GameTree {
    pub nodes: Vec<Node>,
    pub infoset_map: HashMap<u64, u32>,
}

impl GameTree {
    /// Node indices fit 32 bits and information-set numbers are dense.
    pub open spec fn wf(&self) -> bool {
        &&& self.nodes.len() <= NO_INFOSET
        &&& dense_ids(self.infoset_map@)
    }

    /// A tree with no node and no information set.
    pub fn new() -> (tree: GameTree)
        ensures
            tree.nodes@ == Seq::<Node>::empty(),
            tree.infoset_map@ == Map::<u64, u32>::empty(),
            tree.wf(),
    {
        GameTree { nodes: Vec::with_capacity(10000), infoset_map: HashMap::new() }
    }

    /// Appends a node and returns its index.
    pub fn add_node(&mut self, node: Node) -> (id: u32)
        requires
            old(self).nodes.len() < NO_INFOSET,
        ensures
            id == old(self).nodes.len(),
            final(self).nodes@ == old(self).nodes@.push(node),
            final(self).infoset_map == old(self).infoset_map,
    {
        let id: u32 = self.nodes.len() as u32;
        self.nodes.push(node);
        id
    }

    /// The node with index `id`.
    pub fn get_node(&self, id: u32) -> (node: &Node)
        requires
            id < self.nodes.len(),
        ensures
            *node == self.nodes[id as int],
    {
        &self.nodes[id as usize]
    }

    /// The node with index `id`, to be changed in place.
    pub fn get_node_mut(&mut self, id: u32) -> (node: &mut Node)
        requires
            id < old(self).nodes.len(),
        ensures
            *node == old(self).nodes[id as int],
            final(self).nodes@ == old(self).nodes@.update(id as int, *final(node)),
            final(self).infoset_map == old(self).infoset_map,
    {
        &mut self.nodes[id as usize]
    }

    /// The information-set number of `key`: the one it has, or else the
    /// next free number, which the key then keeps.
    pub fn get_infoset_id(&mut self, key: u64) -> (id: u32)
        requires
            dense_ids(old(self).infoset_map@),
            old(self).infoset_map@.len() < NO_INFOSET,
        ensures
            final(self).nodes == old(self).nodes,
            dense_ids(final(self).infoset_map@),
            id != NO_INFOSET,
            old(self).infoset_map@.contains_key(key) ==> id == old(self).infoset_map@[key]
                && final(self).infoset_map@ == old(self).infoset_map@,
            !old(self).infoset_map@.contains_key(key) ==> id == old(self).infoset_map@.len()
                && final(self).infoset_map@ == old(self).infoset_map@.insert(key, id),
    {
        match self.infoset_map.get(&key) {
            Some(id) => *id,
            None => {
                let id: u32 = self.infoset_map.len() as u32;
                self.infoset_map.insert(key, id);
                id
            },
        }
    }
}

} // verus!
