//! The betting rules of the river.
//!
//! A [`BetState`] is what the rules read at a decision: who acts, what each
//! player has put in and has left, how deep the decision lies and how many
//! bets and raises have followed one another. [`BetState::legal_actions`]
//! lists the actions open there, [`BetState::child_node`] says where each
//! leads, and [`BetState::child_state`] what the next player finds.

use vstd::prelude::*;
use crate::arena::{Node, NodeType, NO_INFOSET, NO_PLAYER};
use crate::types::{Action, ActionType, GameConfig, SIZE_UNIT};

verus! {

/// Decisions deeper than this are left unexpanded.
pub const MAX_DEPTH: u32 = 20;

/// What the betting rules read at a decision.
#[derive(Debug, Clone, Copy)]
pub struct BetState {
    /// Who acts: 0 or 1.
    pub player: u8,
    /// Chips each player has put in on this street.
    pub bets: [u64; 2],
    /// Chips each player has left.
    pub stacks: [u64; 2],
    /// Number of actions taken since the root.
    pub depth: u32,
    /// Number of bets and raises since the last check.
    pub raise_count: u8,
}

impl BetState {
    /// The state at the root: player 0 to act, nothing put in yet.
    pub open spec fn root(config: &GameConfig) -> BetState {
        BetState { player: 0, bets: [0, 0], stacks: config.stacks, depth: 0, raise_count: 0 }
    }

    pub open spec fn me(&self) -> int {
        self.player as int
    }

    pub open spec fn opponent(&self) -> int {
        1 - self.player
    }

    /// What the player to act would have to add to call.
    pub open spec fn facing(&self) -> int {
        self.bets[self.opponent()] - self.bets[self.me()]
    }

    /// What the player to act has left.
    pub open spec fn stack(&self) -> int {
        self.stacks[self.me()] as int
    }

    /// The pot, bets included.
    pub open spec fn pot(&self, config: &GameConfig) -> int {
        config.initial_pot + self.bets[0] + self.bets[1]
    }

    /// The state is one that play from the root can reach: the chips add up
    /// to the configured stacks, nobody faces a negative amount, and the
    /// counters are those of a line of at most one check, then a bet, then
    /// raises within the limit.
    pub open spec fn wf(&self, config: &GameConfig) -> bool {
        &&& self.player <= 1
        &&& self.player as int == self.depth % 2
        &&& self.bets[0] + self.stacks[0] == config.stacks[0]
        &&& self.bets[1] + self.stacks[1] == config.stacks[1]
        &&& self.facing() >= 0
        &&& self.depth <= MAX_DEPTH + 1
        &&& self.raise_count <= self.depth <= self.raise_count + 1
        &&& self.facing() == 0 ==> self.raise_count == 0
        &&& self.raise_count <= 1 || self.raise_count <= config.raise_limit
    }

    /// The chips of a bet or raise of the given size: the fraction of the
    /// pot for a bet, the call plus the fraction of the pot after the call
    /// for a raise, and never more than the stack.
    pub open spec fn sized_amount(&self, config: &GameConfig, size: u32) -> int {
        let raw = if self.facing() == 0 {
            (self.pot(config) * size) / (SIZE_UNIT as int)
        } else {
            self.facing() + ((self.pot(config) + self.facing()) * size) / (SIZE_UNIT as int)
        };
        if raw >= self.stack() {
            self.stack()
        } else {
            raw
        }
    }

    /// Whether a bet or raise is open: the player has more than a call
    /// left, the opponent has chips left, and a raise is within the limit.
    pub open spec fn can_bet(&self, config: &GameConfig) -> bool {
        &&& self.stack() > self.facing()
        &&& self.stacks[self.opponent()] > 0
        &&& (self.facing() == 0 || self.raise_count < config.raise_limit)
    }

    /// Putting chips in is a bet when nothing is faced and a raise otherwise.
    pub open spec fn aggressive_kind(&self) -> ActionType {
        if self.facing() == 0 {
            ActionType::Bet
        } else {
            ActionType::Raise
        }
    }

    /// The sizes on offer: those of a bet or those of a raise.
    pub open spec fn sizes(&self, config: &GameConfig) -> Seq<u32> {
        if self.facing() == 0 {
            config.bet_sizes@
        } else {
            config.raise_sizes@
        }
    }

    /// Whether one of the actions puts the whole stack in.
    pub open spec fn has_all_in(&self, actions: Seq<Action>) -> bool {
        exists|i: int|
            0 <= i < actions.len() && (#[trigger] actions[i]).kind.is_aggressive()
                && actions[i].amount == self.stack()
    }

    /// The bets or raises that the first `n` sizes give, in their order: a
    /// size counts when its amount is more than a call, and an all-in
    /// counts once.
    pub open spec fn sized_actions(&self, config: &GameConfig, n: nat) -> Seq<Action>
        decreases n,
    {
        if n == 0 || n > self.sizes(config).len() {
            Seq::empty()
        } else {
            let before = self.sized_actions(config, (n - 1) as nat);
            let amount = self.sized_amount(config, self.sizes(config)[n - 1]);
            if amount <= self.facing() || (amount == self.stack() && self.has_all_in(before)) {
                before
            } else {
                before.push(Action { kind: self.aggressive_kind(), amount: amount as u64 })
            }
        }
    }

    /// Fold and call when a bet is faced, check when none is.
    pub open spec fn passive_actions(&self) -> Seq<Action> {
        if self.facing() > 0 {
            seq![
                Action { kind: ActionType::Fold, amount: 0 },
                Action {
                    kind: ActionType::Call,
                    amount: if self.facing() <= self.stack() {
                        self.facing() as u64
                    } else {
                        self.stack() as u64
                    },
                },
            ]
        } else {
            seq![Action { kind: ActionType::Check, amount: 0 }]
        }
    }

    /// The bets or raises on offer: those the sizes give, and the all-in
    /// when none of them is one.
    pub open spec fn aggressive_actions(&self, config: &GameConfig) -> Seq<Action> {
        if !self.can_bet(config) {
            Seq::empty()
        } else {
            let sized = self.sized_actions(config, self.sizes(config).len());
            if self.has_all_in(sized) {
                sized
            } else {
                sized.push(Action { kind: self.aggressive_kind(), amount: self.stack() as u64 })
            }
        }
    }

    /// The actions open to the player to act, in the order of the children.
    pub open spec fn legal_actions(&self, config: &GameConfig) -> Seq<Action> {
        self.passive_actions() + self.aggressive_actions(config)
    }

    /// Whether the action hands the move to the other player; otherwise it
    /// ends the hand.
    pub open spec fn leads_to_action(&self, action: Action) -> bool {
        action.kind.is_aggressive() || (action.kind == ActionType::Check && self.player == 0)
    }

    /// The node an action leads to, before it has children of its own.
    pub open spec fn child_node(&self, config: &GameConfig, action: Action) -> Node {
        let pot = self.pot(config);
        let (node_type, player, pot) = match action.kind {
            ActionType::Fold => (NodeType::Terminal, self.opponent() as u8, pot),
            ActionType::Check => if self.player == 1 {
                (NodeType::Showdown, NO_PLAYER, pot)
            } else {
                (NodeType::Action, 1u8, pot)
            },
            ActionType::Call => (NodeType::Showdown, NO_PLAYER, pot + action.amount),
            ActionType::Bet | ActionType::Raise => (
                NodeType::Action,
                self.opponent() as u8,
                pot + action.amount,
            ),
        };
        Node {
            node_type,
            player,
            pot: pot as u64,
            children_start: 0,
            num_actions: 0,
            infoset_id: NO_INFOSET,
            action_from_parent: Some(action.kind),
            amount_from_parent: action.amount,
        }
    }

    /// The state after an action that hands the move over: a check passes
    /// it on with the count of raises at zero; a bet or raise moves its
    /// chips from the stack to the bets and counts as one more.
    pub open spec fn child_state(&self, action: Action) -> BetState {
        if action.kind.is_aggressive() {
            BetState {
                player: self.opponent() as u8,
                bets: if self.player == 0 {
                    [(self.bets[0] + action.amount) as u64, self.bets[1]]
                } else {
                    [self.bets[0], (self.bets[1] + action.amount) as u64]
                },
                stacks: if self.player == 0 {
                    [(self.stacks[0] - action.amount) as u64, self.stacks[1]]
                } else {
                    [self.stacks[0], (self.stacks[1] - action.amount) as u64]
                },
                depth: (self.depth + 1) as u32,
                raise_count: (self.raise_count + 1) as u8,
            }
        } else {
            BetState {
                player: self.opponent() as u8,
                bets: self.bets,
                stacks: self.stacks,
                depth: (self.depth + 1) as u32,
                raise_count: 0,
            }
        }
    }

    /// One more action cannot turn an all-in up where there was none, unless
    /// it is one itself.
    pub proof fn lemma_has_all_in_push(&self, actions: Seq<Action>, action: Action)
        ensures
            self.has_all_in(actions.push(action)) <==> self.has_all_in(actions) || (
            action.kind.is_aggressive() && action.amount == self.stack()),
    {
        let longer = actions.push(action);
        if self.has_all_in(actions) {
            let i = choose|i: int|
                0 <= i < actions.len() && (#[trigger] actions[i]).kind.is_aggressive()
                    && actions[i].amount == self.stack();
            assert(longer[i] == actions[i]);
        }
        if action.kind.is_aggressive() && action.amount == self.stack() {
            assert(longer[actions.len() as int] == action);
        }
        if self.has_all_in(longer) {
            let i = choose|i: int|
                0 <= i < longer.len() && (#[trigger] longer[i]).kind.is_aggressive()
                    && longer[i].amount == self.stack();
            if i < actions.len() {
                assert(actions[i] == longer[i]);
            }
        }
    }

    /// The sizes give bets or raises only, each of more than a call and at
    /// most the stack, and no more of them than there are sizes.
    pub proof fn lemma_sized_actions(&self, config: &GameConfig, n: nat)
        requires
            self.wf(config),
        ensures
            self.sized_actions(config, n).len() <= n,
            self.sized_actions(config, n).len() <= self.sizes(config).len(),
            forall|i: int|
                0 <= i < self.sized_actions(config, n).len() ==> {
                    let a = #[trigger] self.sized_actions(config, n)[i];
                    &&& a.kind == self.aggressive_kind()
                    &&& self.facing() < a.amount <= self.stack()
                },
        decreases n,
    {
        if n == 0 || n > self.sizes(config).len() {
        } else {
            self.lemma_sized_actions(config, (n - 1) as nat);
        }
    }

    /// The shape of the list of legal actions.
    ///
    /// Facing a bet, it starts with a fold and a call and holds no check;
    /// facing none, it starts with a check and holds neither fold nor call.
    /// What follows are bets (facing none) or raises (facing a bet), each of
    /// more than a call and at most the stack, and there are any only where
    /// betting is open. The list has at least one and at most 255 actions.
    pub proof fn lemma_legal_actions(&self, config: &GameConfig)
        requires
            config.wf(),
            self.wf(config),
        ensures
            1 <= self.legal_actions(config).len() <= 255,
            self.facing() > 0 ==> self.legal_actions(config).len() >= 2
                && self.legal_actions(config)[0].kind == ActionType::Fold
                && self.legal_actions(config)[1].kind == ActionType::Call,
            self.facing() == 0 ==> self.legal_actions(config)[0].kind == ActionType::Check,
            forall|i: int|
                0 <= i < self.legal_actions(config).len() ==> {
                    let a = #[trigger] self.legal_actions(config)[i];
                    &&& a.amount <= self.stack()
                    &&& a.kind == ActionType::Fold ==> self.facing() > 0 && i == 0
                    &&& a.kind == ActionType::Call ==> self.facing() > 0 && i == 1
                    &&& a.kind == ActionType::Check ==> self.facing() == 0 && i == 0
                    &&& a.kind.is_aggressive() ==> a.kind == self.aggressive_kind()
                        && self.facing() < a.amount && self.can_bet(config)
                },
    {
        self.lemma_sized_actions(config, self.sizes(config).len());
    }

    /// An action that hands the move over leads to a state that play can
    /// reach, one level deeper.
    pub proof fn lemma_child_state(&self, config: &GameConfig, k: int)
        requires
            config.wf(),
            self.wf(config),
            self.depth <= MAX_DEPTH,
            0 <= k < self.legal_actions(config).len(),
            self.leads_to_action(self.legal_actions(config)[k]),
        ensures
            self.child_state(self.legal_actions(config)[k]).wf(config),
            self.child_state(self.legal_actions(config)[k]).depth == self.depth + 1,
            self.child_state(self.legal_actions(config)[k]).player == self.opponent(),
    {
        self.lemma_legal_actions(config);
        let a = self.legal_actions(config)[k];
        let next = self.child_state(a);
        if a.kind.is_aggressive() {
            assert(next.facing() > 0);
        } else {
            assert(self.depth == 0);
        }
    }
}

/// The actions open in a state, in the order in which the tree lists them.
pub fn legal_actions(config: &GameConfig, state: &BetState) -> (actions: Vec<Action>)
    requires
        config.wf(),
        state.wf(config),
    ensures
        actions@ == state.legal_actions(config),
        1 <= actions.len() <= 255,
{
    let me: usize = state.player as usize;
    let opp: usize = 1 - me;
    let facing: u64 = state.bets[opp] - state.bets[me];
    let stack: u64 = state.stacks[me];
    let mut actions: Vec<Action> = Vec::new();
    if facing > 0 {
        actions.push(Action { kind: ActionType::Fold, amount: 0 });
        let call: u64 = if facing <= stack {
            facing
        } else {
            stack
        };
        actions.push(Action { kind: ActionType::Call, amount: call });
    } else {
        actions.push(Action { kind: ActionType::Check, amount: 0 });
    }
    assert(actions@ =~= state.passive_actions());
    proof {
        state.lemma_legal_actions(config);
    }
    let can_raise: bool = facing == 0 || state.raise_count < config.raise_limit;
    let can_bet: bool = stack > facing && state.stacks[opp] > 0 && can_raise;
    if can_bet {
        let kind: ActionType = if facing == 0 {
            ActionType::Bet
        } else {
            ActionType::Raise
        };
        let sizes: &Vec<u32> = if facing == 0 {
            &config.bet_sizes
        } else {
            &config.raise_sizes
        };
        let mut all_in_queued: bool = false;
        let mut i: usize = 0;
        while i < sizes.len()
            invariant
                config.wf(),
                state.wf(config),
                i <= sizes.len(),
                sizes@ == state.sizes(config),
                facing == state.facing(),
                stack == state.stack(),
                kind == state.aggressive_kind(),
                actions@ == state.passive_actions() + state.sized_actions(config, i as nat),
                all_in_queued == state.has_all_in(state.sized_actions(config, i as nat)),
            decreases sizes.len() - i,
        {
            let amount: u64 = sized_amount(config, state, sizes[i]);
            let ghost before = state.sized_actions(config, i as nat);
            proof {
                state.lemma_sized_actions(config, i as nat);
            }
            if amount > facing && !(amount == stack && all_in_queued) {
                let action = Action { kind, amount };
                proof {
                    state.lemma_has_all_in_push(before, action);
                    assert(state.sized_actions(config, (i + 1) as nat) == before.push(action));
                    assert((state.passive_actions() + before).push(action) =~= state.passive_actions()
                        + before.push(action));
                }
                actions.push(action);
                if amount == stack {
                    all_in_queued = true;
                }
            } else {
                assert(state.sized_actions(config, (i + 1) as nat) == before);
            }
            i += 1;
        }
        let ghost sized = state.sized_actions(config, sizes.len() as nat);
        if !all_in_queued {
            let action = Action { kind, amount: stack };
            proof {
                assert((state.passive_actions() + sized).push(action) =~= state.passive_actions()
                    + sized.push(action));
            }
            actions.push(action);
        }
    } else {
        assert(actions@ =~= state.passive_actions() + Seq::<Action>::empty());
    }
    actions
}

/// The chips of a bet or raise of the given size, capped at the stack.
fn sized_amount(config: &GameConfig, state: &BetState, size: u32) -> (amount: u64)
    requires
        config.wf(),
        state.wf(config),
    ensures
        amount == state.sized_amount(config, size),
{
    let me: usize = state.player as usize;
    let opp: usize = 1 - me;
    let facing: u64 = state.bets[opp] - state.bets[me];
    let stack: u64 = state.stacks[me];
    let pot: u64 = config.initial_pot + state.bets[0] + state.bets[1];
    let base: u128 = pot as u128 + facing as u128;
    assert(base * size <= 0x2_0000_0000_0000_0000 * 0x1_0000_0000) by (nonlinear_arith)
        requires
            0 <= base <= 0x2_0000_0000_0000_0000,
            0 <= size <= 0x1_0000_0000,
    ;
    let raw: u128 = if facing == 0 {
        (base * (size as u128)) / (SIZE_UNIT as u128)
    } else {
        facing as u128 + (base * (size as u128)) / (SIZE_UNIT as u128)
    };
    if raw >= stack as u128 {
        stack
    } else {
        raw as u64
    }
}

/// The node an action leads to.
pub(crate) fn make_child(config: &GameConfig, state: &BetState, action: Action) -> (node: Node)
    requires
        config.wf(),
        state.wf(config),
        action.amount <= state.stack(),
    ensures
        node == state.child_node(config, action),
{
    let opponent: u8 = 1 - state.player;
    let pot: u64 = config.initial_pot + state.bets[0] + state.bets[1];
    let mut node = Node::new(NodeType::Action, opponent, pot);
    node.action_from_parent = Some(action.kind);
    node.amount_from_parent = action.amount;
    match action.kind {
        ActionType::Fold => {
            node.node_type = NodeType::Terminal;
        },
        ActionType::Check => {
            if state.player == 1 {
                node.node_type = NodeType::Showdown;
                node.player = NO_PLAYER;
            } else {
                node.player = 1;
            }
        },
        ActionType::Call => {
            node.pot = pot + action.amount;
            node.node_type = NodeType::Showdown;
            node.player = NO_PLAYER;
        },
        ActionType::Bet | ActionType::Raise => {
            node.pot = pot + action.amount;
        },
    }
    node
}

/// Whether the action hands the move to the other player.
pub(crate) fn leads_to_action(state: &BetState, action: Action) -> (b: bool)
    ensures
        b == state.leads_to_action(action),
{
    action.kind.is_aggressive() || (action.kind == ActionType::Check && state.player == 0)
}

/// The state after an action that hands the move over.
pub(crate) fn next_state(state: &BetState, action: Action) -> (next: BetState)
    requires
        state.player <= 1,
        state.depth <= MAX_DEPTH,
        state.raise_count <= state.depth,
        action.kind.is_aggressive() ==> action.amount <= state.stack() && state.bets[state.me()]
            + action.amount <= u64::MAX,
    ensures
        next == state.child_state(action),
{
    let me: usize = state.player as usize;
    let mut bets: [u64; 2] = state.bets;
    let mut stacks: [u64; 2] = state.stacks;
    let mut raise_count: u8 = 0;
    if action.kind.is_aggressive() {
        bets[me] = bets[me] + action.amount;
        stacks[me] = stacks[me] - action.amount;
        raise_count = state.raise_count + 1;
    }
    let next = BetState {
        player: 1 - state.player,
        bets,
        stacks,
        depth: state.depth + 1,
        raise_count,
    };
    assert(next.bets =~= state.child_state(action).bets);
    assert(next.stacks =~= state.child_state(action).stacks);
    next
}

/// Fold is offered exactly where a bet is faced.
pub proof fn lemma_fold_iff_facing(config: &GameConfig, state: BetState)
    requires
        config.wf(),
        state.wf(config),
    ensures
        (exists|i: int|
            0 <= i < state.legal_actions(config).len() && (#[trigger] state.legal_actions(
                config,
            )[i]).kind == ActionType::Fold) <==> state.facing() > 0,
{
    state.lemma_legal_actions(config);
    if state.facing() > 0 {
        assert(state.legal_actions(config)[0].kind == ActionType::Fold);
    }
}

/// Exactly one of the actions is a check or a call: a check where no bet
/// is faced, a call where one is.
pub proof fn lemma_check_or_call(config: &GameConfig, state: BetState)
    requires
        config.wf(),
        state.wf(config),
    ensures
        exists|i: int|
            {
                &&& 0 <= i < state.legal_actions(config).len()
                &&& (#[trigger] state.legal_actions(config)[i]).kind == (if state.facing() == 0 {
                    ActionType::Check
                } else {
                    ActionType::Call
                })
                &&& forall|j: int|
                    0 <= j < state.legal_actions(config).len() && ((#[trigger] state.legal_actions(
                        config,
                    )[j]).kind == ActionType::Check || state.legal_actions(config)[j].kind
                        == ActionType::Call) ==> j == i
            },
{
    state.lemma_legal_actions(config);
    let acts = state.legal_actions(config);
    let i = if state.facing() == 0 {
        0int
    } else {
        1int
    };
    assert(acts[i].kind == (if state.facing() == 0 {
        ActionType::Check
    } else {
        ActionType::Call
    }));
}

/// The number of raises among the actions that `path` plays from `state`.
///
/// Each entry of `path` numbers one of the actions legal where it is played;
/// play stops at an entry that numbers none, behind an action that ends the
/// hand, and at a decision too deep to have children.
pub open spec fn raises_along(config: &GameConfig, state: BetState, path: Seq<int>) -> nat
    decreases path.len(),
{
    let acts = state.legal_actions(config);
    if path.len() == 0 || state.depth > MAX_DEPTH || !(0 <= path[0] < acts.len()) {
        0
    } else {
        let action = acts[path[0]];
        let here: nat = if action.kind == ActionType::Raise {
            1
        } else {
            0
        };
        if state.leads_to_action(action) {
            here + raises_along(config, state.child_state(action), path.drop_first())
        } else {
            here
        }
    }
}

/// The raises still to come from a state: those the limit leaves room for
/// behind the bets and raises already made.
pub open spec fn raises_left(config: &GameConfig, state: BetState) -> int {
    let made = if state.facing() > 0 {
        state.raise_count as int
    } else {
        1
    };
    if made <= config.raise_limit {
        config.raise_limit - made
    } else {
        0
    }
}

/// From any state that play can reach, no line of play holds more raises
/// than the limit leaves room for.
pub proof fn lemma_raises_bounded(config: &GameConfig, state: BetState, path: Seq<int>)
    requires
        config.wf(),
        state.wf(config),
    ensures
        raises_along(config, state, path) <= raises_left(config, state),
    decreases path.len(),
{
    let acts = state.legal_actions(config);
    if path.len() == 0 || state.depth > MAX_DEPTH || !(0 <= path[0] < acts.len()) {
    } else {
        let action = acts[path[0]];
        state.lemma_legal_actions(config);
        if state.leads_to_action(action) {
            state.lemma_child_state(config, path[0]);
            lemma_raises_bounded(config, state.child_state(action), path.drop_first());
        }
    }
}

/// No line of play from the root holds more raises than the raise limit.
pub proof fn lemma_raise_limit(config: &GameConfig, path: Seq<int>)
    requires
        config.wf(),
    ensures
        raises_along(config, BetState::root(config), path) <= config.raise_limit,
{
    lemma_raises_bounded(config, BetState::root(config), path);
}

} // verus!
