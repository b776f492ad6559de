//! Changes of resources as values: what they add up to, and how they are
//! applied to a state.

use vstd::prelude::*;
use crate::side::{Nation, Side};
use crate::state::{Board, GameState, StateChange};

verus! {

impl StateChange {
    /// What the Allies lose by this change: the sum of the amounts taken
    /// from them. What they gain does not count.
    pub open spec fn spec_allies_loss(&self) -> int
        decreases self,
    {
        match self {
            StateChange::ChangeResources { side, pr } => if *pr < 0 && *side == Side::Allies {
                -(*pr as int)
            } else {
                0
            },
            StateChange::MoreChanges(changes) => Self::allies_loss_of_first(
                changes@,
                changes@.len(),
            ),
            StateChange::NoChange => 0,
        }
    }

    /// What the Allies lose by the first `count` changes of a list.
    pub open spec fn allies_loss_of_first(changes: Seq<StateChange>, count: nat) -> int
        decreases changes, count,
    {
        if count == 0 || count > changes.len() {
            0
        } else {
            Self::allies_loss_of_first(changes, (count - 1) as nat) + changes[count
                - 1].spec_allies_loss()
        }
    }

    /// What the Empires gain by this change: the sum of the amounts given
    /// to them. What they lose does not count.
    pub open spec fn spec_empires_gain(&self) -> int
        decreases self,
    {
        match self {
            StateChange::ChangeResources { side, pr } => if *pr > 0 && *side == Side::Empires {
                *pr as int
            } else {
                0
            },
            StateChange::MoreChanges(changes) => Self::empires_gain_of_first(
                changes@,
                changes@.len(),
            ),
            StateChange::NoChange => 0,
        }
    }

    /// What the Empires gain by the first `count` changes of a list.
    pub open spec fn empires_gain_of_first(changes: Seq<StateChange>, count: nat) -> int
        decreases changes, count,
    {
        if count == 0 || count > changes.len() {
            0
        } else {
            Self::empires_gain_of_first(changes, (count - 1) as nat) + changes[count
                - 1].spec_empires_gain()
        }
    }

    /// What the Allies lose by this change. The sum must fit in a byte.
    pub fn allies_loss(&self) -> (loss: u8)
        requires
            self.spec_allies_loss() <= u8::MAX,
        ensures
            loss == self.spec_allies_loss(),
        decreases self,
    {
        match self {
            StateChange::ChangeResources { side, pr } => {
                if *pr < 0 && *side == Side::Allies {
                    let amount: i16 = -(*pr as i16);
                    amount as u8
                } else {
                    0
                }
            },
            StateChange::MoreChanges(changes) => {
                let mut loss: u8 = 0;
                let mut i: usize = 0;
                while i < changes.len()
                    invariant
                        i <= changes@.len(),
                        *self == StateChange::MoreChanges(*changes),
                        loss == Self::allies_loss_of_first(changes@, i as nat),
                        Self::allies_loss_of_first(changes@, changes@.len()) <= u8::MAX,
                    decreases changes@.len() - i,
                {
                    proof {
                        lemma_allies_loss_grows(changes@, (i + 1) as nat, changes@.len());
                        lemma_losses_not_negative(changes@[i as int]);
                    }
                    proof {
                        assert(decreases_to!(*self => self->MoreChanges_0));
                        assert(decreases_to!(*self => changes@[i as int]));
                    }
                    let more: u8 = changes[i].allies_loss();
                    loss = loss + more;
                    i += 1;
                }
                loss
            },
            StateChange::NoChange => 0,
        }
    }

    /// What the Empires gain by this change. The sum must fit in a byte.
    pub fn empires_gain(&self) -> (gain: u8)
        requires
            self.spec_empires_gain() <= u8::MAX,
        ensures
            gain == self.spec_empires_gain(),
        decreases self,
    {
        match self {
            StateChange::ChangeResources { side, pr } => {
                if *pr > 0 && *side == Side::Empires {
                    *pr as u8
                } else {
                    0
                }
            },
            StateChange::MoreChanges(changes) => {
                let mut gain: u8 = 0;
                let mut i: usize = 0;
                while i < changes.len()
                    invariant
                        i <= changes@.len(),
                        *self == StateChange::MoreChanges(*changes),
                        gain == Self::empires_gain_of_first(changes@, i as nat),
                        Self::empires_gain_of_first(changes@, changes@.len()) <= u8::MAX,
                    decreases changes@.len() - i,
                {
                    proof {
                        lemma_empires_gain_grows(changes@, (i + 1) as nat, changes@.len());
                        lemma_losses_not_negative(changes@[i as int]);
                    }
                    proof {
                        assert(decreases_to!(*self => self->MoreChanges_0));
                        assert(decreases_to!(*self => changes@[i as int]));
                    }
                    let more: u8 = changes[i].empires_gain();
                    gain = gain + more;
                    i += 1;
                }
                gain
            },
            StateChange::NoChange => 0,
        }
    }
}

/// Neither a loss nor a gain is negative.
pub proof fn lemma_losses_not_negative(change: StateChange)
    ensures
        change.spec_allies_loss() >= 0,
        change.spec_empires_gain() >= 0,
    decreases change,
{
    match change {
        StateChange::MoreChanges(changes) => {
            lemma_sums_not_negative(changes@, changes@.len());
        },
        _ => {},
    }
}

/// Neither the loss nor the gain of a list of changes is negative.
pub proof fn lemma_sums_not_negative(changes: Seq<StateChange>, count: nat)
    ensures
        StateChange::allies_loss_of_first(changes, count) >= 0,
        StateChange::empires_gain_of_first(changes, count) >= 0,
    decreases changes, count,
{
    if count > 0 && count <= changes.len() {
        lemma_sums_not_negative(changes, (count - 1) as nat);
        lemma_losses_not_negative(changes[count - 1]);
    }
}

/// The loss of the Allies grows with the number of changes counted.
pub proof fn lemma_allies_loss_grows(changes: Seq<StateChange>, fewer: nat, more: nat)
    requires
        fewer <= more <= changes.len(),
    ensures
        StateChange::allies_loss_of_first(changes, fewer) <= StateChange::allies_loss_of_first(
            changes,
            more,
        ),
    decreases more,
{
    if fewer < more {
        lemma_allies_loss_grows(changes, fewer, (more - 1) as nat);
        lemma_losses_not_negative(changes[more - 1]);
    }
}

/// The gain of the Empires grows with the number of changes counted.
pub proof fn lemma_empires_gain_grows(changes: Seq<StateChange>, fewer: nat, more: nat)
    requires
        fewer <= more <= changes.len(),
    ensures
        StateChange::empires_gain_of_first(changes, fewer) <= StateChange::empires_gain_of_first(
            changes,
            more,
        ),
    decreases more,
{
    if fewer < more {
        lemma_empires_gain_grows(changes, fewer, (more - 1) as nat);
        lemma_losses_not_negative(changes[more - 1]);
    }
}

impl Board {
    /// The state after a change: resources given are added up to the most a
    /// side can hold, resources taken are taken as far as the side has
    /// any, and a list of changes is applied one after the other.
    pub open spec fn apply_change(self, change: StateChange) -> Board
        decreases change,
    {
        match change {
            StateChange::NoChange => self,
            StateChange::ChangeResources { side, pr } => if pr >= 0 {
                self.increase_pr(side, pr as u8)
            } else {
                self.decrease_pr(side, (-(pr as int)) as u8)
            },
            StateChange::MoreChanges(changes) => self.apply_first(changes@, changes@.len()),
        }
    }

    /// The state after the first `count` changes of a list.
    pub open spec fn apply_first(self, changes: Seq<StateChange>, count: nat) -> Board
        decreases changes, count,
    {
        if count == 0 || count > changes.len() {
            self
        } else {
            self.apply_first(changes, (count - 1) as nat).apply_change(changes[count - 1])
        }
    }
}

/// A change of resources touches nothing but the resources of the sides,
/// and leaves no side with more than it can hold.
pub proof fn lemma_change_keeps_rest(board: Board, change: StateChange)
    ensures
        board.apply_change(change) == board.with_resources(
            Side::Allies,
            board.apply_change(change).resources(Side::Allies),
        ).with_resources(Side::Empires, board.apply_change(change).resources(Side::Empires)),
        board.wf() ==> board.apply_change(change).wf(),
    decreases change,
{
    match change {
        StateChange::MoreChanges(changes) => {
            lemma_changes_keep_rest(board, changes@, changes@.len());
        },
        StateChange::ChangeResources { side, pr } => {
            let after = board.apply_change(change);
            if board.wf() {
                assert(forall|n: Nation| after.nation(n) == board.nation(n));
            }
        },
        StateChange::NoChange => {},
    }
}

/// A list of changes touches nothing but the resources of the sides.
pub proof fn lemma_changes_keep_rest(board: Board, changes: Seq<StateChange>, count: nat)
    ensures
        board.apply_first(changes, count) == board.with_resources(
            Side::Allies,
            board.apply_first(changes, count).resources(Side::Allies),
        ).with_resources(Side::Empires, board.apply_first(changes, count).resources(Side::Empires)),
        board.wf() ==> board.apply_first(changes, count).wf(),
    decreases changes, count,
{
    if count > 0 && count <= changes.len() {
        lemma_changes_keep_rest(board, changes, (count - 1) as nat);
        lemma_change_keeps_rest(board.apply_first(changes, (count - 1) as nat), changes[count - 1]);
    }
}

/// Applying no change leaves the state as it was.
pub proof fn lemma_no_change_is_neutral(board: Board)
    ensures
        board.apply_change(StateChange::NoChange) == board,
{
}

/// Applying a list of two changes is applying the first, then the second.
pub proof fn lemma_two_changes_in_order(board: Board, both: StateChange)
    requires
        both is MoreChanges,
        both->MoreChanges_0@.len() == 2,
    ensures
        board.apply_change(both) == board.apply_change(both->MoreChanges_0@[0]).apply_change(
            both->MoreChanges_0@[1],
        ),
{
    let changes = both->MoreChanges_0@;
    assert(board.apply_first(changes, 2) == board.apply_first(changes, 1).apply_change(changes[1]));
    assert(board.apply_first(changes, 1) == board.apply_first(changes, 0).apply_change(changes[0]));
    assert(board.apply_first(changes, 0) == board);
}

impl GameState {
    /// Applies a change to the resources of the sides.
    pub fn apply_change(&mut self, change: &StateChange)
        ensures
            final(self)@ == old(self)@.apply_change(*change),
            final(self).rng == old(self).rng,
            old(self)@.wf() ==> final(self)@.wf(),
        decreases change,
    {
        proof {
            lemma_change_keeps_rest(self@, *change);
        }
        match change {
            StateChange::NoChange => {},
            StateChange::ChangeResources { side, pr } => {
                if *pr >= 0 {
                    self.increase_pr(*side, *pr as u8);
                } else {
                    let amount: i16 = -(*pr as i16);
                    self.decrease_pr(*side, amount as u8);
                }
            },
            StateChange::MoreChanges(changes) => {
                let mut i: usize = 0;
                while i < changes.len()
                    invariant
                        i <= changes@.len(),
                        *change == StateChange::MoreChanges(*changes),
                        self@ == old(self)@.apply_first(changes@, i as nat),
                        self.rng == old(self).rng,
                    decreases changes@.len() - i,
                {
                    proof {
                        assert(decreases_to!(*change => change->MoreChanges_0));
                        assert(decreases_to!(*change => changes@[i as int]));
                    }
                    self.apply_change(&changes[i]);
                    i += 1;
                }
            },
        }
    }
}

} // verus!
