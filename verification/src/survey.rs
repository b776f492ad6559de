//! What can be read from a state: who is at war, who borders whom, which
//! technologies are within reach, what each side is worth, who wins.

use vstd::prelude::*;
use crate::event::LAST_TURN;
use crate::sequences::{lemma_filter_take_ends, lemma_filter_take_step};
use crate::side::{Nation, Side, NATION_COUNT};
use crate::state::{Board, GameState, Phase, FINAL_TURN};
use crate::tech::{all_technology_types, spec_technology, technology, Technology, TechnologyType};

verus! {

/// All nations, in order.
pub open spec fn all_nations() -> Seq<Nation> {
    Seq::new(NATION_COUNT as nat, |i: int| Nation::spec_from_index(i))
}

/// All categories of technology, in order.
pub open spec fn all_categories() -> Seq<TechnologyType> {
    seq![
        TechnologyType::Attack,
        TechnologyType::Defense,
        TechnologyType::Artillery,
        TechnologyType::Air,
    ]
}

impl Board {
    /// The nations of a side that are at war, in order.
    pub open spec fn nations_at_war(self, side: Side) -> Seq<Nation> {
        all_nations().filter(|n: Nation| self.at_war(n) && n.spec_side() == side)
    }

    /// The nations at war that border a nation, in order.
    pub open spec fn neighbours(self, source: Nation) -> Seq<Nation> {
        all_nations().filter(|n: Nation| source.spec_adjacent_to(&n) && self.at_war(n))
    }

    /// The technology next in line in a category, if the catalogue has one
    /// and its year has come. The levels looked at are those of the
    /// Empires, whichever side asks.
    pub open spec fn next_technology(self, side: Side, category: TechnologyType) -> Option<
        Technology,
    > {
        match spec_technology(
            side,
            category,
            (self.empires.technologies.spec_level(category) + 1) as u8,
        ) {
            Some(t) => if t.date <= self.year() {
                Some(t)
            } else {
                None
            },
            None => None,
        }
    }

    /// The technologies next in line, in the order of the categories.
    pub open spec fn available_technologies(self, side: Side) -> Seq<Technology> {
        all_categories().filter_map(|c: TechnologyType| self.next_technology(side, c))
    }

    /// The breakdowns of the first `count` nations, counting only those at
    /// war on a side.
    pub open spec fn breakdowns_of_first(self, side: Side, count: nat) -> int
        decreases count,
    {
        if count == 0 {
            0
        } else {
            let nation = Nation::spec_from_index(count - 1);
            self.breakdowns_of_first(side, (count - 1) as nat) + if nation.spec_side() == side {
                self.nation(nation).spec_breakdown_level() as int
            } else {
                0
            }
        }
    }

    /// What a side is worth: its resources, 3 for each level of
    /// technology, 5 for each point of breakdown of its nations at war, and
    /// 4 for each victory point.
    pub open spec fn side_total(self, side: Side) -> int {
        self.resources(side) + 3 * self.technologies(side).total() + 5 * self.breakdowns_of_first(
            side,
            NATION_COUNT as nat,
        ) + 4 * self.vp(side)
    }

    /// The value of the state for the Allies, as a fraction: what the
    /// Allies are worth less what the Empires are worth, over what both
    /// are worth together.
    pub open spec fn valuation(self) -> (int, int) {
        (
            self.side_total(Side::Allies) - self.side_total(Side::Empires),
            self.side_total(Side::Allies) + self.side_total(Side::Empires),
        )
    }

    /// Whether the game is over.
    pub open spec fn game_ends(self) -> bool {
        self.end_game_this_turn || self.current_turn >= FINAL_TURN || self.winner is Some
    }

    /// The side that wins: the one that a surrender made the winner, else
    /// the one with more victory points, the Empires where both have as
    /// many.
    pub open spec fn winning_side(self) -> Side {
        match self.winner {
            Some(side) => side,
            None => if self.empires.vp >= self.allies.vp {
                Side::Empires
            } else {
                Side::Allies
            },
        }
    }

    /// The side that a phase waits for, if it waits for one.
    pub open spec fn side_to_play(self) -> Option<Side> {
        match self.phase {
            Phase::Initiative(side) => Some(side),
            Phase::ImproveTechnologies(side) => Some(side),
            Phase::LaunchOffensives(side) => Some(side),
            Phase::Reinforcements(side) => Some(side),
            Phase::DrawEvents => None,
            Phase::CollectResources => None,
            Phase::UBoot => Some(Side::Empires),
            Phase::Blockade => Some(Side::Allies),
            Phase::NewTurn => None,
        }
    }
}

/// The breakdowns counted never exceed 255 for each nation.
pub proof fn lemma_breakdowns_bound(board: Board, side: Side, count: nat)
    ensures
        0 <= board.breakdowns_of_first(side, count) <= 255 * count,
    decreases count,
{
    if count > 0 {
        lemma_breakdowns_bound(board, side, (count - 1) as nat);
    }
}

/// What a side is worth is never negative and fits in 32 bits.
pub proof fn lemma_side_total_bounds(board: Board, side: Side)
    ensures
        0 <= board.side_total(side) <= u32::MAX,
{
    lemma_breakdowns_bound(board, side, NATION_COUNT as nat);
}

impl GameState {
    /// The nations of a side that are at war, in order.
    pub fn all_nations_at_war(&self, initiative: Side) -> (nations: Vec<Nation>)
        requires
            self@.nations.len() == NATION_COUNT,
        ensures
            nations@ == self@.nations_at_war(initiative),
    {
        let mut nations: Vec<Nation> = Vec::new();
        let mut i: usize = 0;
        let ghost pred = |n: Nation| self@.at_war(n) && n.spec_side() == initiative;
        proof {
            lemma_filter_take_ends(all_nations(), pred);
        }
        while i < NATION_COUNT
            invariant
                i <= NATION_COUNT,
                self@.nations.len() == NATION_COUNT,
                pred == (|n: Nation| self@.at_war(n) && n.spec_side() == initiative),
                nations@ == all_nations().take(i as int).filter(pred),
            decreases NATION_COUNT - i,
        {
            let nation = Nation::from_index(i);
            proof {
                lemma_filter_take_step(all_nations(), pred, i as int);
            }
            if self.nations[i].is_at_war() && nation.side() == initiative {
                nations.push(nation);
            }
            i += 1;
        }
        nations
    }

    /// The nations at war that border a nation, in order.
    pub fn neighbours(&self, source: &Nation) -> (nations: Vec<Nation>)
        requires
            self@.nations.len() == NATION_COUNT,
        ensures
            nations@ == self@.neighbours(*source),
    {
        let mut nations: Vec<Nation> = Vec::new();
        let mut i: usize = 0;
        let ghost pred = |n: Nation| source.spec_adjacent_to(&n) && self@.at_war(n);
        proof {
            lemma_filter_take_ends(all_nations(), pred);
        }
        while i < NATION_COUNT
            invariant
                i <= NATION_COUNT,
                self@.nations.len() == NATION_COUNT,
                pred == (|n: Nation| source.spec_adjacent_to(&n) && self@.at_war(n)),
                nations@ == all_nations().take(i as int).filter(pred),
            decreases NATION_COUNT - i,
        {
            let nation = Nation::from_index(i);
            proof {
                lemma_filter_take_step(all_nations(), pred, i as int);
            }
            if source.adjacent_to(&nation) && self.nations[i].is_at_war() {
                nations.push(nation);
            }
            i += 1;
        }
        nations
    }

    /// Whether a nation is at war.
    pub fn is_at_war(&self, nation: &Nation) -> (b: bool)
        requires
            self@.nations.len() == NATION_COUNT,
        ensures
            b == self@.at_war(*nation),
    {
        self.nation_state(*nation).is_at_war()
    }

    /// The operational level of a nation; 0 for a nation at peace.
    pub fn operational_level(&self, nation: &Nation) -> (level: u8)
        requires
            self@.nations.len() == NATION_COUNT,
        ensures
            level == self@.nation(*nation).spec_operational_level(),
    {
        self.nation_state(*nation).operational_level()
    }

    /// The breakdown of a nation; 0 for a nation at peace.
    pub fn breakdown_level(&self, nation: &Nation) -> (level: u8)
        requires
            self@.nations.len() == NATION_COUNT,
        ensures
            level == self@.nation(*nation).spec_breakdown_level(),
    {
        self.nation_state(*nation).breakdown_level()
    }

    /// The artillery level of a side.
    pub fn artillery_bonus(&self, initiative: &Side) -> (bonus: u8)
        ensures
            bonus == self@.technologies(*initiative).artillery,
    {
        self.state_of_war(*initiative).technologies.artillery
    }

    /// The attack level of a side.
    pub fn attack_bonus(&self, initiative: &Side) -> (bonus: u8)
        ensures
            bonus == self@.technologies(*initiative).attack,
    {
        self.state_of_war(*initiative).technologies.attack
    }

    /// The defense level of a side.
    pub fn defense_bonus(&self, initiative: &Side) -> (bonus: u8)
        ensures
            bonus == self@.technologies(*initiative).defense,
    {
        self.state_of_war(*initiative).technologies.defense
    }

    /// The technologies next in line, in the order of the categories.
    pub fn available_technologies(&self, side: &Side) -> (available: Vec<Technology>)
        requires
            1 <= self.current_turn <= LAST_TURN,
            self@.empires.technologies.wf(),
        ensures
            available@ == self@.available_technologies(*side),
    {
        let categories = all_technology_types();
        let year: u16 = self.current_year();
        let mut available: Vec<Technology> = Vec::new();
        let ghost pick = |c: TechnologyType| self@.next_technology(*side, c);
        let mut i: usize = 0;
        proof {
            assert(categories@.take(0).filter_map(pick) =~= Seq::<Technology>::empty());
        }
        while i < categories.len()
            invariant
                i <= categories@.len(),
                categories@ == all_categories(),
                year == self@.year(),
                self@.empires.technologies.wf(),
                pick == (|c: TechnologyType| self@.next_technology(*side, c)),
                available@ == categories@.take(i as int).filter_map(pick),
            decreases categories@.len() - i,
        {
            let category = categories[i];
            let level: u8 = self.empires.technologies.level(category);
            proof {
                assert(categories@.take(i + 1).drop_last() =~= categories@.take(i as int));
                assert(categories@.take(i + 1).last() == category);
            }
            match technology(*side, category, level + 1) {
                Some(t) => {
                    if t.date <= year {
                        available.push(t);
                        proof {
                            assert(available@ =~= categories@.take(i as int).filter_map(pick)
                                + seq![t]);
                        }
                    }
                },
                None => {},
            }
            i += 1;
        }
        proof {
            assert(categories@.take(categories@.len() as int) =~= categories@);
        }
        available
    }

    /// What a side is worth.
    pub fn side_total(&self, side: Side) -> (total: u32)
        requires
            self@.nations.len() == NATION_COUNT,
        ensures
            total == self@.side_total(side),
    {
        let war = self.state_of_war(side);
        let t = war.technologies;
        let technologies: u32 = t.attack as u32 + t.defense as u32 + t.artillery as u32
            + t.air as u32;
        let mut breakdowns: u32 = 0;
        let mut i: usize = 0;
        while i < NATION_COUNT
            invariant
                i <= NATION_COUNT,
                self@.nations.len() == NATION_COUNT,
                breakdowns == self@.breakdowns_of_first(side, i as nat),
            decreases NATION_COUNT - i,
        {
            let nation = Nation::from_index(i);
            proof {
                lemma_breakdowns_bound(self@, side, i as nat);
            }
            if nation.side() == side {
                breakdowns = breakdowns + self.nations[i].breakdown_level() as u32;
            }
            i += 1;
        }
        proof {
            lemma_breakdowns_bound(self@, side, NATION_COUNT as nat);
        }
        war.resources as u32 + 3 * technologies + 5 * breakdowns + 4 * (war.vp as u32)
    }

    /// The value of the state, between -1 and 1, as a fraction: its
    /// numerator and its denominator. The higher it is, the better the
    /// Allies stand. Where both sides are worth nothing the denominator is
    /// 0 and the state has no value.
    pub fn valuation(&self) -> (value: (i64, i64))
        requires
            self@.nations.len() == NATION_COUNT,
        ensures
            value.0 == self@.valuation().0,
            value.1 == self@.valuation().1,
            -value.1 <= value.0 <= value.1,
    {
        proof {
            lemma_side_total_bounds(self@, Side::Allies);
            lemma_side_total_bounds(self@, Side::Empires);
        }
        let allies: u32 = self.side_total(Side::Allies);
        let empires: u32 = self.side_total(Side::Empires);
        (allies as i64 - empires as i64, allies as i64 + empires as i64)
    }

    /// Whether the game is over: the turn after the last has come, a side
    /// has won, or the game was told to end with this turn.
    pub fn game_ends(&self) -> (b: bool)
        ensures
            b == self@.game_ends(),
    {
        self.end_game_this_turn || self.current_turn >= FINAL_TURN || self.winner.is_some()
    }

    /// The side that wins.
    pub fn winner(&self) -> (side: Side)
        ensures
            side == self@.winning_side(),
    {
        match self.winner {
            Some(side) => side,
            None => {
                if self.empires.vp >= self.allies.vp {
                    Side::Empires
                } else {
                    Side::Allies
                }
            },
        }
    }

    /// Moves the game to a phase.
    pub fn set_phase(&mut self, phase: Phase)
        ensures
            final(self)@ == old(self)@.in_phase(phase),
            final(self).rng == old(self).rng,
            old(self)@.wf() ==> final(self)@.wf(),
    {
        self.phase = phase;
        proof {
            assert(forall|n: Nation| self@.nation(n) == old(self)@.nation(n));
        }
    }

    /// The side that the current phase waits for, if it waits for one.
    pub fn side_to_play(&self) -> (side: Option<Side>)
        ensures
            side == self@.side_to_play(),
    {
        match self.phase {
            Phase::Initiative(side) => Some(side),
            Phase::ImproveTechnologies(side) => Some(side),
            Phase::LaunchOffensives(side) => Some(side),
            Phase::Reinforcements(side) => Some(side),
            Phase::DrawEvents => None,
            Phase::CollectResources => None,
            Phase::UBoot => Some(Side::Empires),
            Phase::Blockade => Some(Side::Allies),
            Phase::NewTurn => None,
        }
    }
}

} // verus!
