//! Configuration of a river subgame and the kinds of action a player takes.
//!
//! Chip amounts are whole numbers of the smallest unit the caller counts in.
//! Bet and raise sizes are thousandths of the pot: 500 is a half-pot bet and
//! 1000 a pot-sized one.

use vstd::prelude::*;

verus! {

/// The denominator of a bet or raise size: a size of `SIZE_UNIT` is one pot.
pub const SIZE_UNIT: u64 = 1000;

/// The most sizes a configuration may list for bets, and for raises, so that
/// the actions at a node can be counted in a byte.
pub const MAX_SIZES: usize = 252;

/// What is needed to build the tree of a river subgame.
#[derive(Debug, Clone)]
pub struct GameConfig {
    /// Chips in the pot when the street starts.
    pub initial_pot: u64,
    /// Chips each player has behind.
    pub stacks: [u64; 2],
    /// Sizes of an opening bet, in thousandths of the pot.
    pub bet_sizes: Vec<u32>,
    /// Sizes of a raise, in thousandths of the pot after a call.
    pub raise_sizes: Vec<u32>,
    /// How many bets and raises may follow one another before only a call
    /// or a fold is left; an opening bet is always allowed.
    pub raise_limit: u8,
}

/// The raise limit of a configuration that names none.
pub fn default_raise_limit() -> (limit: u8)
    ensures
        limit == 3,
{
    3
}

/// An action a player takes.
#[derive(Debug, Clone, Copy, PartialEq, Eq, Structural)]
pub enum ActionType {
    Fold,
    Check,
    Call,
    Bet,
    Raise,
}

impl ActionType {
    pub open spec fn spec_is_aggressive(&self) -> bool {
        *self == ActionType::Bet || *self == ActionType::Raise
    }

    /// Whether the action puts in more chips than a call would.
    #[verifier::when_used_as_spec(spec_is_aggressive)]
    pub fn is_aggressive(&self) -> (b: bool)
        ensures
            b == self.spec_is_aggressive(),
    {
        matches!(self, ActionType::Bet | ActionType::Raise)
    }
}

/// An action together with the chips it puts in.
#[derive(Debug, Clone, Copy, PartialEq, Eq, Structural)]
pub struct Action {
    pub kind: ActionType,
    pub amount: u64,
}

impl GameConfig {
    /// All the chips in play fit a `u64`, and the size lists are short
    /// enough that the actions at a node can be counted in a byte.
    pub open spec fn wf(&self) -> bool {
        &&& self.initial_pot + self.stacks[0] + self.stacks[1] <= u64::MAX
        &&& self.bet_sizes.len() <= MAX_SIZES
        &&& self.raise_sizes.len() <= MAX_SIZES
    }
}

} // verus!
