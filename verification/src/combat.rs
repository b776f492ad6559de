//! Hits, surrenders and reinforcements: what happens to a nation's
//! breakdown.

use vstd::prelude::*;
use crate::side::{Nation, NationState, Side, NATION_COUNT};
use crate::state::{
    lemma_with_nation, lemma_with_war, min, Board, GameState, HitsResult, WarState,
};

verus! {

/// The cost of restoring `k` points of breakdown at once: 1 for the first,
/// 2 for the second, and so on.
pub open spec fn triangle(k: nat) -> nat {
    k * (k + 1) / 2
}

/// The most points of breakdown that a budget restores where there is room
/// for `room` points: the largest number, up to `room`, whose cost the
/// budget covers.
pub open spec fn restored(budget: nat, room: nat) -> nat
    decreases room,
{
    if room == 0 {
        0
    } else if triangle(room) <= budget {
        room
    } else {
        restored(budget, (room - 1) as nat)
    }
}

/// The cost of one point more is the cost so far and the number of the
/// point.
pub proof fn lemma_triangle_step(k: nat)
    ensures
        triangle(k + 1) == triangle(k) + k + 1,
        triangle(0) == 0,
{
    assert(triangle(k + 1) == triangle(k) + k + 1) by (nonlinear_arith)
        requires
            triangle(k + 1) == (k + 1) * (k + 2) / 2,
            triangle(k) == k * (k + 1) / 2,
    ;
}

/// What `restored` gives is within the room, the budget covers it, and it
/// does not cover one point more unless the room is used up.
pub proof fn lemma_restored(budget: nat, room: nat)
    ensures
        restored(budget, room) <= room,
        triangle(restored(budget, room)) <= budget,
        restored(budget, room) < room ==> triangle(restored(budget, room) + 1) > budget,
    decreases room,
{
    lemma_triangle_step(0);
    if room > 0 && triangle(room) > budget {
        lemma_restored(budget, (room - 1) as nat);
        let k = restored(budget, (room - 1) as nat);
        if k == room - 1 {
            assert(triangle(k + 1) == triangle(room));
        }
    }
}

/// `restored` is the only number within the room that the budget covers
/// while it does not cover one point more.
pub proof fn lemma_restored_unique(budget: nat, room: nat, k: nat)
    requires
        k <= room,
        triangle(k) <= budget,
        k < room ==> triangle(k + 1) > budget,
    ensures
        restored(budget, room) == k,
    decreases room,
{
    if room > 0 {
        if triangle(room) <= budget {
            if k < room {
                lemma_triangle_grows(k + 1, room);
            }
        } else {
            assert(k < room);
            lemma_restored_unique(budget, (room - 1) as nat, k);
        }
    }
}

/// The cost grows with the number of points.
pub proof fn lemma_triangle_grows(fewer: nat, more: nat)
    requires
        fewer <= more,
    ensures
        triangle(fewer) <= triangle(more),
    decreases more - fewer,
{
    if fewer < more {
        lemma_triangle_step(fewer);
        lemma_triangle_grows(fewer + 1, more);
    }
}

impl Board {
    /// The state after a nation has surrendered, and what comes of it. The
    /// enemy side receives the nation's victory points, as far as a byte
    /// holds them, and the nation is at peace. Where the die is lower than
    /// the victory points of that side, it has won the game.
    pub open spec fn surrender(self, nation: Nation, die: u8) -> (Board, HitsResult) {
        let side = nation.spec_side().spec_other();
        let vp = min(self.vp(side) + nation.spec_country().vp, u8::MAX as int) as u8;
        let board = self.with_war(side, WarState { vp, ..self.war(side) }).with_nation(
            nation,
            NationState::AtPeace,
        );
        if die < vp {
            (Board { winner: Some(side), ..board }, HitsResult::Winner(side))
        } else {
            (board, HitsResult::Surrenders(nation))
        }
    }

    /// The state after hits on a nation, and what comes of them. A nation
    /// at peace takes no hits. A nation that takes as many hits as it has
    /// breakdown left, or more, surrenders: only then does the die count.
    pub open spec fn apply_hits(self, nation: Nation, hits: u8, die: u8) -> (Board, HitsResult) {
        match self.nation(nation) {
            NationState::AtPeace => (self, HitsResult::NationNotAtWar(nation)),
            NationState::AtWar(breakdown) => if hits == 0 {
                (self, HitsResult::NoResult)
            } else if breakdown <= hits {
                self.surrender(nation, die)
            } else {
                (
                    self.with_nation(nation, NationState::AtWar((breakdown - hits) as u8)),
                    HitsResult::Hits(nation, hits),
                )
            },
        }
    }

    /// Whether hits on a nation make it surrender.
    pub open spec fn breaks(self, nation: Nation, hits: u8) -> bool {
        match self.nation(nation) {
            NationState::AtPeace => false,
            NationState::AtWar(breakdown) => hits > 0 && breakdown <= hits,
        }
    }

    /// The points of breakdown that a nation gains from a reinforcement:
    /// what the budget restores, the budget being no more than its side
    /// holds, and the room being what separates the nation from its
    /// highest breakdown.
    pub open spec fn reinforcement(self, nation: Nation, pr: u8) -> nat {
        match self.nation(nation) {
            NationState::AtPeace => 0,
            NationState::AtWar(breakdown) => restored(
                min(pr as int, self.resources(nation.spec_side()) as int) as nat,
                (nation.spec_maximum_breakdown() - breakdown) as nat,
            ),
        }
    }

    /// The state after a reinforcement: the nation gains the points, and
    /// its side pays their cost. A nation at peace is not reinforced.
    pub open spec fn reinforce(self, nation: Nation, pr: u8) -> Board {
        match self.nation(nation) {
            NationState::AtPeace => self,
            NationState::AtWar(breakdown) => {
                let gained = self.reinforcement(nation, pr);
                self.decrease_pr(nation.spec_side(), triangle(gained) as u8).with_nation(
                    nation,
                    NationState::AtWar((breakdown + gained) as u8),
                )
            },
        }
    }

    /// Whether nothing differs between `self` and `later` but the winner,
    /// the nations and what the sides hold.
    pub open spec fn only_war_differs(self, later: Board) -> bool {
        later == (Board {
            winner: later.winner,
            nations: later.nations,
            allies: later.allies,
            empires: later.empires,
            ..self
        })
    }

    /// Whether every nation at peace in `self` is at peace in `later`.
    pub open spec fn peace_kept(self, later: Board) -> bool {
        forall|n: Nation| !self.at_war(n) ==> !#[trigger] later.at_war(n)
    }

    /// Whether no technology of `self` stands above the same one in
    /// `later`.
    pub open spec fn technologies_kept(self, later: Board) -> bool {
        &&& self.allies.technologies.no_higher_than(&later.allies.technologies)
        &&& self.empires.technologies.no_higher_than(&later.empires.technologies)
    }
}

/// A surrender keeps a state well formed, makes no nation join the war,
/// and touches no technology and no resources.
pub proof fn lemma_surrender(board: Board, nation: Nation, die: u8)
    ensures
        board.wf() ==> {
            &&& board.surrender(nation, die).0.wf()
            &&& board.peace_kept(board.surrender(nation, die).0)
            &&& board.only_war_differs(board.surrender(nation, die).0)
            &&& board.surrender(nation, die).0.allies.technologies == board.allies.technologies
            &&& board.surrender(nation, die).0.empires.technologies == board.empires.technologies
            &&& board.surrender(nation, die).0.allies.resources == board.allies.resources
            &&& board.surrender(nation, die).0.empires.resources == board.empires.resources
            &&& !board.surrender(nation, die).0.at_war(nation)
        },
{
    if board.wf() {
        let after = board.surrender(nation, die).0;
        let side = nation.spec_side().spec_other();
        let vp = min(board.vp(side) + nation.spec_country().vp, u8::MAX as int) as u8;
        let paid = board.with_war(side, WarState { vp, ..board.war(side) });
        lemma_with_war(board, side, WarState { vp, ..board.war(side) });
        lemma_with_nation(paid, nation, NationState::AtPeace);
        let quiet = paid.with_nation(nation, NationState::AtPeace);
        assert(forall|n: Nation| paid.nation(n) == board.nation(n));
        assert forall|n: Nation| !board.at_war(n) implies !#[trigger] after.at_war(n) by {
            if n != nation {
                assert(quiet.nation(n) == paid.nation(n));
            }
            assert(after.nation(n) == quiet.nation(n));
        }
        assert forall|n: Nation| #[trigger]
            after.nation(n).spec_breakdown_level() <= n.spec_maximum_breakdown() by {
            assert(after.nation(n) == quiet.nation(n));
        }
        assert(after.nation(nation) == quiet.nation(nation));
    }
}

/// Hits keep a state well formed, make no nation join the war, and touch no
/// technology and no resources.
pub proof fn lemma_apply_hits(board: Board, nation: Nation, hits: u8, die: u8)
    requires
        board.wf(),
    ensures
        board.apply_hits(nation, hits, die).0.wf(),
        board.peace_kept(board.apply_hits(nation, hits, die).0),
        board.apply_hits(nation, hits, die).0.allies.technologies == board.allies.technologies,
        board.apply_hits(nation, hits, die).0.empires.technologies == board.empires.technologies,
        board.apply_hits(nation, hits, die).0.allies.resources == board.allies.resources,
        board.apply_hits(nation, hits, die).0.empires.resources == board.empires.resources,
        board.only_war_differs(board.apply_hits(nation, hits, die).0),
{
    let after = board.apply_hits(nation, hits, die).0;
    match board.nation(nation) {
        NationState::AtPeace => {},
        NationState::AtWar(breakdown) => {
            if hits == 0 {
            } else if breakdown <= hits {
                lemma_surrender(board, nation, die);
            } else {
                assert(board.nation(nation).spec_breakdown_level()
                    <= nation.spec_maximum_breakdown());
                lemma_with_nation(board, nation, NationState::AtWar((breakdown - hits) as u8));
            }
        },
    }
}

/// A reinforcement keeps a state well formed, makes no nation join the
/// war, touches no technology, and gives no side resources.
pub proof fn lemma_reinforce(board: Board, nation: Nation, pr: u8)
    requires
        board.wf(),
    ensures
        board.reinforce(nation, pr).wf(),
        board.peace_kept(board.reinforce(nation, pr)),
        board.reinforce(nation, pr).allies.technologies == board.allies.technologies,
        board.reinforce(nation, pr).empires.technologies == board.empires.technologies,
        board.reinforce(nation, pr).allies.resources <= board.allies.resources,
        board.reinforce(nation, pr).empires.resources <= board.empires.resources,
        triangle(board.reinforcement(nation, pr)) <= min(
            pr as int,
            board.resources(nation.spec_side()) as int,
        ),
        board.only_war_differs(board.reinforce(nation, pr)),
        board.reinforce(nation, pr).winner == board.winner,
        board.reinforce(nation, pr).allies.vp == board.allies.vp,
        board.reinforce(nation, pr).empires.vp == board.empires.vp,
{
    match board.nation(nation) {
        NationState::AtPeace => {
            lemma_triangle_step(0);
        },
        NationState::AtWar(breakdown) => {
            let side = nation.spec_side();
            let budget = min(pr as int, board.resources(side) as int) as nat;
            let room = (nation.spec_maximum_breakdown() - breakdown) as nat;
            assert(board.nation(nation).spec_breakdown_level() <= nation.spec_maximum_breakdown());
            lemma_restored(budget, room);
            let gained = restored(budget, room);
            let paid = board.decrease_pr(side, triangle(gained) as u8);
            lemma_with_war(
                board,
                side,
                WarState { resources: paid.resources(side), ..board.war(side) },
            );
            lemma_with_nation(paid, nation, NationState::AtWar((breakdown + gained) as u8));
            assert(forall|n: Nation| paid.nation(n) == board.nation(n));
        },
    }
}

impl GameState {
    /// Makes a nation surrender, with the die that decides whether the
    /// enemy wins the game by it.
    pub fn surrenders_with(&mut self, to: &Nation, die: u8) -> (result: HitsResult)
        requires
            old(self)@.nations.len() == NATION_COUNT,
        ensures
            (final(self)@, result) == old(self)@.surrender(*to, die),
            final(self).rng == old(self).rng,
            old(self)@.wf() ==> final(self)@.wf() && old(self)@.peace_kept(final(self)@),
    {
        proof {
            lemma_surrender(self@, *to, die);
        }
        let side = to.side().other();
        let gained: u8 = to.country().vp;
        let vp: u8 = match side {
            Side::Allies => {
                let total: u16 = self.allies.vp as u16 + gained as u16;
                self.allies.vp = if total > 255 {
                    255
                } else {
                    total as u8
                };
                self.allies.vp
            },
            Side::Empires => {
                let total: u16 = self.empires.vp as u16 + gained as u16;
                self.empires.vp = if total > 255 {
                    255
                } else {
                    total as u8
                };
                self.empires.vp
            },
        };
        self.nations[to.index()] = NationState::AtPeace;
        if die < vp {
            self.winner = Some(side);
            HitsResult::Winner(side)
        } else {
            HitsResult::Surrenders(*to)
        }
    }

    /// Makes a nation surrender. A die is rolled to see whether the enemy
    /// wins the game by it.
    pub fn surrenders(&mut self, to: &Nation) -> (result: HitsResult)
        requires
            old(self)@.nations.len() == NATION_COUNT,
        ensures
            exists|die: u8|
                1 <= die <= 6 && #[trigger] old(self)@.surrender(*to, die) == (
                    final(self)@,
                    result,
                ),
            old(self)@.wf() ==> final(self)@.wf() && old(self)@.peace_kept(final(self)@),
    {
        let die: u8 = self.roll();
        let result = self.surrenders_with(to, die);
        proof {
            assert(old(self)@.surrender(*to, die) == (self@, result));
        }
        result
    }

    /// Inflicts hits on a nation, with the die that counts if the nation
    /// surrenders.
    pub fn apply_hits_with(&mut self, nation: &Nation, hits: u8, die: u8) -> (result: HitsResult)
        requires
            old(self)@.nations.len() == NATION_COUNT,
        ensures
            (final(self)@, result) == old(self)@.apply_hits(*nation, hits, die),
            final(self).rng == old(self).rng,
            old(self)@.wf() ==> final(self)@.wf() && old(self)@.peace_kept(final(self)@),
    {
        proof {
            if self@.wf() {
                lemma_apply_hits(self@, *nation, hits, die);
            }
        }
        match self.nation_state(*nation) {
            NationState::AtPeace => HitsResult::NationNotAtWar(*nation),
            NationState::AtWar(breakdown) => {
                if hits == 0 {
                    HitsResult::NoResult
                } else if breakdown <= hits {
                    self.surrenders_with(nation, die)
                } else {
                    self.nations[nation.index()] = NationState::AtWar(breakdown - hits);
                    HitsResult::Hits(*nation, hits)
                }
            },
        }
    }

    /// Inflicts hits on a nation. A die is rolled only if the nation
    /// surrenders.
    pub fn apply_hits(&mut self, nation: &Nation, hits: u8) -> (result: HitsResult)
        requires
            old(self)@.nations.len() == NATION_COUNT,
        ensures
            exists|die: u8|
                1 <= die <= 6 && #[trigger] old(self)@.apply_hits(*nation, hits, die) == (
                    final(self)@,
                    result,
                ),
            !old(self)@.breaks(*nation, hits) ==> final(self).rng == old(self).rng,
            old(self)@.wf() ==> final(self)@.wf(),
            old(self)@.wf() ==> old(self)@.peace_kept(final(self)@),
            old(self)@.wf() ==> old(self)@.only_war_differs(final(self)@),
    {
        let breaks: bool = match self.nation_state(*nation) {
            NationState::AtPeace => false,
            NationState::AtWar(breakdown) => hits > 0 && breakdown <= hits,
        };
        let die: u8 = if breaks {
            self.roll()
        } else {
            1
        };
        let result = self.apply_hits_with(nation, hits, die);
        proof {
            assert(old(self)@.apply_hits(*nation, hits, die) == (self@, result));
            if old(self)@.wf() {
                lemma_apply_hits(old(self)@, *nation, hits, die);
            }
        }
        result
    }

    /// Reinforces a nation at war with resources of its side: as many
    /// points of breakdown as the budget restores, the first for 1
    /// resource, the second for 2 more, and so on, up to the highest
    /// breakdown of the nation. No more is spent than the side holds.
    pub fn reinforce(&mut self, nation: Nation, pr: u8)
        requires
            old(self)@.wf(),
        ensures
            final(self)@ == old(self)@.reinforce(nation, pr),
            final(self).rng == old(self).rng,
            final(self)@.wf(),
    {
        proof {
            lemma_reinforce(self@, nation, pr);
        }
        match self.nation_state(nation) {
            NationState::AtPeace => {},
            NationState::AtWar(breakdown) => {
                let side = nation.side();
                let held: u8 = self.resources_for(&side);
                let budget: u8 = if pr < held {
                    pr
                } else {
                    held
                };
                assert(self@.nation(nation).spec_breakdown_level()
                    <= nation.spec_maximum_breakdown());
                let room: u8 = nation.maximum_breakdown() - breakdown;
                let mut gained: u8 = 0;
                let mut cost: u8 = 0;
                proof {
                    lemma_triangle_step(0);
                }
                while gained < room && cost as u16 + gained as u16 + 1 <= budget as u16
                    invariant
                        gained <= room,
                        cost == triangle(gained as nat),
                        cost <= budget <= 20,
                    decreases room - gained,
                {
                    proof {
                        lemma_triangle_step(gained as nat);
                    }
                    cost = cost + gained + 1;
                    gained = gained + 1;
                }
                proof {
                    lemma_triangle_step(gained as nat);
                    lemma_restored_unique(budget as nat, room as nat, gained as nat);
                }
                self.decrease_pr(side, cost);
                self.nations[nation.index()] = NationState::AtWar(breakdown + gained);
            },
        }
    }
}

} // verus!
