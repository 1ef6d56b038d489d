//! The layout of the strategy tables.
//!
//! The trainer keeps one number for each information set, hand and action
//! in a flat table, row by row: all actions of a hand side by side, all
//! hands of an information set one after the other. A smaller table holds
//! one number for each information set and hand. Rows are as wide as the
//! widest node and as many as the longer range, so that every place is a
//! plain product away.

use vstd::prelude::*;

verus! {

/// The measures of the strategy tables.
#[derive(Debug, Clone, Copy)]
pub struct TensorLayout {
    num_infosets: usize,
    max_hands: usize,
    max_actions: usize,
    num_hands: [usize; 2],
}

/// The larger of two numbers.
pub open spec fn larger(a: int, b: int) -> int {
    if a >= b {
        a
    } else {
        b
    }
}

/// The place of an action in the tables.
pub open spec fn place(max_hands: int, max_actions: int, infoset: int, hand: int, action: int) -> int {
    infoset * max_hands * max_actions + hand * max_actions + action
}

/// Places are inside the table, and different triples have different
/// places.
pub proof fn lemma_place(
    infosets: int,
    max_hands: int,
    max_actions: int,
    infoset: int,
    hand: int,
    action: int,
    infoset2: int,
    hand2: int,
    action2: int,
)
    requires
        0 <= infoset < infosets,
        0 <= hand < max_hands,
        0 <= action < max_actions,
        0 <= infoset2 < infosets,
        0 <= hand2 < max_hands,
        0 <= action2 < max_actions,
    ensures
        0 <= place(max_hands, max_actions, infoset, hand, action) < infosets * max_hands
            * max_actions,
        0 <= infoset * max_hands + hand < infosets * max_hands,
        place(max_hands, max_actions, infoset, hand, action) == (infoset * max_hands + hand)
            * max_actions + action,
        place(max_hands, max_actions, infoset, hand, action) == place(
            max_hands,
            max_actions,
            infoset2,
            hand2,
            action2,
        ) ==> infoset == infoset2 && hand == hand2 && action == action2,
{
    let row = infoset * max_hands + hand;
    let row2 = infoset2 * max_hands + hand2;
    assert(0 <= row < infosets * max_hands) by (nonlinear_arith)
        requires
            0 <= infoset < infosets,
            0 <= hand < max_hands,
            row == infoset * max_hands + hand,
    ;
    assert(0 <= row * max_actions + action < infosets * max_hands * max_actions)
        by (nonlinear_arith)
        requires
            0 <= row < infosets * max_hands,
            0 <= action < max_actions,
    ;
    assert(infoset * max_hands * max_actions + hand * max_actions + action == row * max_actions
        + action) by (nonlinear_arith)
        requires
            row == infoset * max_hands + hand,
    ;
    assert(infoset2 * max_hands * max_actions + hand2 * max_actions + action2 == row2 * max_actions
        + action2) by (nonlinear_arith)
        requires
            row2 == infoset2 * max_hands + hand2,
    ;
    if row * max_actions + action == row2 * max_actions + action2 {
        assert(row == row2 && action == action2) by (nonlinear_arith)
            requires
                row * max_actions + action == row2 * max_actions + action2,
                0 <= action < max_actions,
                0 <= action2 < max_actions,
        ;
        assert(infoset == infoset2 && hand == hand2) by (nonlinear_arith)
            requires
                infoset * max_hands + hand == infoset2 * max_hands + hand2,
                0 <= hand < max_hands,
                0 <= hand2 < max_hands,
        ;
    }
}

impl TensorLayout {
    /// The rows are as many as the longer range, and the tables fit the
    /// memory that can be addressed.
    #[verifier::type_invariant]
    pub closed spec fn wf(&self) -> bool {
        &&& self.max_hands == larger(self.num_hands[0] as int, self.num_hands[1] as int)
        &&& self.num_infosets * self.max_hands * self.max_actions <= usize::MAX
        &&& self.num_infosets * self.max_hands <= usize::MAX
    }

    pub closed spec fn spec_num_infosets(&self) -> usize {
        self.num_infosets
    }

    pub closed spec fn spec_max_hands(&self) -> usize {
        self.max_hands
    }

    pub closed spec fn spec_max_actions(&self) -> usize {
        self.max_actions
    }

    pub closed spec fn spec_num_hands(&self, player: usize) -> usize {
        if player == 0 {
            self.num_hands[0]
        } else {
            self.num_hands[1]
        }
    }

    /// The number of entries of the table of actions.
    pub open spec fn spec_len(&self) -> int {
        self.num_infosets() * self.max_hands() * self.max_actions()
    }

    /// The number of entries of the table of hands.
    pub open spec fn spec_sums_len(&self) -> int {
        self.num_infosets() * self.max_hands()
    }

    /// What holds of every layout.
    pub open spec fn valid(&self) -> bool {
        &&& self.max_hands() == larger(self.num_hands(0) as int, self.num_hands(1) as int)
        &&& self.spec_len() <= usize::MAX
        &&& self.spec_sums_len() <= usize::MAX
    }

    /// The layout for so many information sets, actions at the widest node
    /// and hands of the two players; none where the tables would have more
    /// entries than can be addressed.
    pub fn new(num_infosets: usize, max_actions: usize, num_hands: [usize; 2]) -> (layout: Option<
        TensorLayout,
    >)
        ensures
            layout is Some <==> num_infosets * larger(num_hands[0] as int, num_hands[1] as int)
                * max_actions <= usize::MAX && num_infosets * larger(
                num_hands[0] as int,
                num_hands[1] as int,
            ) <= usize::MAX,
            layout matches Some(l) ==> l.valid() && l.num_infosets() == num_infosets
                && l.max_actions() == max_actions && l.num_hands(0) == num_hands[0] && l.num_hands(
                1,
            ) == num_hands[1],
    {
        let max_hands: usize = if num_hands[0] >= num_hands[1] {
            num_hands[0]
        } else {
            num_hands[1]
        };
        let rows: usize = match num_infosets.checked_mul(max_hands) {
            Some(rows) => rows,
            None => {
                return None;
            },
        };
        match rows.checked_mul(max_actions) {
            Some(_) => Some(TensorLayout { num_infosets, max_hands, max_actions, num_hands }),
            None => None,
        }
    }

    /// The number of information sets.
    #[verifier::when_used_as_spec(spec_num_infosets)]
    pub fn num_infosets(&self) -> (n: usize)
        ensures
            n == self.spec_num_infosets(),
    {
        self.num_infosets
    }

    /// The number of hands of the longer range: the rows of an information
    /// set.
    #[verifier::when_used_as_spec(spec_max_hands)]
    pub fn max_hands(&self) -> (n: usize)
        ensures
            n == self.spec_max_hands(),
    {
        self.max_hands
    }

    /// The number of actions at the widest node: the width of a row.
    #[verifier::when_used_as_spec(spec_max_actions)]
    pub fn max_actions(&self) -> (n: usize)
        ensures
            n == self.spec_max_actions(),
    {
        self.max_actions
    }

    /// The number of hands of player 0, or of player 1 for any other
    /// number.
    #[verifier::when_used_as_spec(spec_num_hands)]
    pub fn num_hands(&self, player: usize) -> (n: usize)
        ensures
            n == self.spec_num_hands(player),
    {
        if player == 0 {
            self.num_hands[0]
        } else {
            self.num_hands[1]
        }
    }

    /// The number of entries of the table of actions.
    pub fn len(&self) -> (n: usize)
        ensures
            n == self.spec_len(),
            self.valid(),
    {
        proof {
            use_type_invariant(self);
        }
        self.num_infosets * self.max_hands * self.max_actions
    }

    /// The number of entries of the table of hands.
    pub fn sums_len(&self) -> (n: usize)
        ensures
            n == self.spec_sums_len(),
            self.valid(),
    {
        proof {
            use_type_invariant(self);
        }
        self.num_infosets * self.max_hands
    }

    /// The place of an action of a hand at an information set in the table
    /// of actions; none where one of the three is out of range.
    pub fn index(&self, infoset: usize, hand: usize, action: usize) -> (at: Option<usize>)
        ensures
            at is Some <==> infoset < self.num_infosets() && hand < self.max_hands() && action
                < self.max_actions(),
            at matches Some(i) ==> i == place(
                self.max_hands() as int,
                self.max_actions() as int,
                infoset as int,
                hand as int,
                action as int,
            ) && i < self.spec_len(),
    {
        proof {
            use_type_invariant(self);
        }
        if infoset >= self.num_infosets || hand >= self.max_hands || action >= self.max_actions {
            return None;
        }
        proof {
            lemma_place(
                self.num_infosets as int,
                self.max_hands as int,
                self.max_actions as int,
                infoset as int,
                hand as int,
                action as int,
                infoset as int,
                hand as int,
                action as int,
            );
            let row = infoset * self.max_hands + hand;
            assert(0 <= infoset * self.max_hands <= row);
            assert(0 <= infoset * self.max_hands * self.max_actions <= row * self.max_actions
                && hand * self.max_actions <= row * self.max_actions) by (nonlinear_arith)
                requires
                    0 <= infoset * self.max_hands <= row,
                    0 <= hand <= row,
                    0 <= self.max_actions,
            ;
        }
        Some(infoset * self.max_hands * self.max_actions + hand * self.max_actions + action)
    }

    /// The place of a hand at an information set in the table of hands;
    /// none where one of the two is out of range.
    pub fn sum_index(&self, infoset: usize, hand: usize) -> (at: Option<usize>)
        ensures
            at is Some <==> infoset < self.num_infosets() && hand < self.max_hands(),
            at matches Some(i) ==> i == infoset * self.max_hands() + hand && i
                < self.spec_sums_len(),
    {
        proof {
            use_type_invariant(self);
        }
        if infoset >= self.num_infosets || hand >= self.max_hands {
            return None;
        }
        proof {
            assert(0 <= infoset * self.max_hands + hand < self.num_infosets * self.max_hands)
                by (nonlinear_arith)
                requires
                    0 <= infoset < self.num_infosets,
                    0 <= hand < self.max_hands,
            ;
            assert(0 <= infoset * self.max_hands) by (nonlinear_arith)
                requires
                    0 <= infoset,
                    0 <= self.max_hands,
            ;
        }
        Some(infoset * self.max_hands + hand)
    }
}

} // verus!
