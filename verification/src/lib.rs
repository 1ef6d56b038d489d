//! Core of a river-subgame poker solver: card encoding, hand evaluation,
//! range-against-range equity, the betting tree the trainer walks, and the
//! queries that find a strategy in it.

pub mod arena;
pub mod builder;
pub mod card;
pub mod equity;
pub mod evaluator;
pub mod masks;
pub mod products;
pub mod rules;
pub mod session;
pub mod tensor;
pub mod text;
pub mod types;

pub use arena::{GameTree, Node, NodeType};
pub use builder::build_river_tree;
pub use card::{card_bitmask, card_rank, card_suit, card_to_string, parse_card, Card};
pub use equity::{compute_equity_matrix, compute_single_equity, Equity};
pub use evaluator::{
    evaluate_5_cards, evaluate_7_cards, get_hand_rank_name, init_lookup_tables, HandRank,
    LookupTables,
};
pub use session::SolverSession;
pub use text::{evaluate_matchup, get_hand_name, test_evaluation};
pub use types::{ActionType, GameConfig};
