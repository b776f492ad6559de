//! What holds of every well-formed state, and what every change of
//! resources and every blow to a nation keeps.

use vstd::prelude::*;
use crate::change::lemma_change_keeps_rest;
use crate::combat::{lemma_apply_hits, lemma_reinforce};
use crate::state::lemma_with_war;
use crate::side::{Nation, NationState, Side};
use crate::state::{Board, StateChange, MAX_RESOURCES};

verus! {

/// No side of a well-formed state holds more than 20 resources.
pub proof fn lemma_resources_within_bounds(board: Board, side: Side)
    requires
        board.wf(),
    ensures
        0 <= board.resources(side) <= MAX_RESOURCES,
{
}

/// No nation at war of a well-formed state stands more than one step
/// above its initial breakdown.
pub proof fn lemma_breakdown_within_bounds(board: Board, nation: Nation, breakdown: u8)
    requires
        board.wf(),
        board.nation(nation) == NationState::AtWar(breakdown),
    ensures
        0 <= breakdown <= nation.spec_country().initial_breakdown + 1,
{
    assert(board.nation(nation).spec_breakdown_level() <= nation.spec_maximum_breakdown());
}

/// No event comes twice in the pool of a well-formed state, and no two
/// events of the pool share an id.
pub proof fn lemma_pool_events_unique(board: Board, i: int, j: int)
    requires
        board.wf(),
        0 <= i < board.events_pool.len(),
        0 <= j < board.events_pool.len(),
        i != j,
    ensures
        board.events_pool[i] != board.events_pool[j],
        board.events_pool[i].event_id != board.events_pool[j].event_id,
{
}

impl Board {
    /// Whether `later` can follow `self` in a game without an event that
    /// brings a nation into the war: it is well formed, no nation at peace
    /// has gone to war, and no technology has gone down.
    pub open spec fn leads_to(self, later: Board) -> bool {
        &&& later.wf()
        &&& self.peace_kept(later)
        &&& self.technologies_kept(later)
    }
}

/// Giving a side resources and taking resources from it keep a state
/// within the laws of the game.
pub proof fn lemma_resources_keep_laws(board: Board, side: Side, pr: u8)
    requires
        board.wf(),
    ensures
        board.leads_to(board.increase_pr(side, pr)),
        board.leads_to(board.decrease_pr(side, pr)),
{
    lemma_with_war(board, side, board.increase_pr(side, pr).war(side));
    lemma_with_war(board, side, board.decrease_pr(side, pr).war(side));
    assert(forall|n: Nation| board.increase_pr(side, pr).nation(n) == board.nation(n));
    assert(forall|n: Nation| board.decrease_pr(side, pr).nation(n) == board.nation(n));
}

/// A change of resources keeps a state within the laws of the game.
pub proof fn lemma_change_keeps_laws(board: Board, change: StateChange)
    requires
        board.wf(),
    ensures
        board.leads_to(board.apply_change(change)),
{
    lemma_change_keeps_rest(board, change);
    assert(forall|n: Nation| board.apply_change(change).nation(n) == board.nation(n));
}

/// Hits, and the surrender they may bring, keep a state within the laws
/// of the game: a nation that is at peace, by surrender or otherwise, is
/// not brought back to war.
pub proof fn lemma_hits_keep_laws(board: Board, nation: Nation, hits: u8, die: u8)
    requires
        board.wf(),
    ensures
        board.leads_to(board.apply_hits(nation, hits, die).0),
        board.breaks(nation, hits) ==> !board.apply_hits(nation, hits, die).0.at_war(nation),
{
    lemma_apply_hits(board, nation, hits, die);
    if board.breaks(nation, hits) {
        crate::side::lemma_nation_index_round_trip(nation, 0);
    }
}

/// A reinforcement keeps a state within the laws of the game.
pub proof fn lemma_reinforcement_keeps_laws(board: Board, nation: Nation, pr: u8)
    requires
        board.wf(),
    ensures
        board.leads_to(board.reinforce(nation, pr)),
{
    lemma_reinforce(board, nation, pr);
}

} // verus!
