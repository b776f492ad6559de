//! The state of a game: its types, the model of it that the contracts
//! speak of, what makes a state well formed, and the simplest things done
//! to one: giving and taking resources, rolling a die.

use rand::rngs::StdRng;
use vstd::prelude::*;
use crate::dice::{roll_die, seeded};
use crate::event::{
    events_of_year, in_catalogue, lemma_events_of_year, spec_events_of_year, spec_year_of_turn,
    year_of_turn, Event, LAST_TURN,
};

use crate::side::{lemma_nation_index_round_trip, Nation, NationState, Side, NATION_COUNT};
use crate::tech::{spec_zero_technologies, zero_technologies, Technologies, TechnologyType};

verus! {

/// The most resources a side can hold.
pub const MAX_RESOURCES: u8 = 20;

/// The turn at which a game is over.
pub const FINAL_TURN: u8 = 15;

/// What a side holds: resources to spend, victory points won, and the
/// technologies it masters.
#[derive(Clone, Copy, Debug, PartialEq, Eq, Structural)]
pub struct WarState {
    pub resources: u8,
    pub vp: u8,
    pub technologies: Technologies,
}

/// The steps of a turn. A step that waits for a player names the side that
/// is to play, or implies it.
#[derive(Clone, Copy, Debug, PartialEq, Eq, Structural)]
pub enum Phase {
    Initiative(Side),
    DrawEvents,
    CollectResources,
    ImproveTechnologies(Side),
    LaunchOffensives(Side),
    Reinforcements(Side),
    UBoot,
    Blockade,
    NewTurn,
}

/// An offensive: the side that launches it, from where to where, and the
/// resources committed.
#[derive(Clone, Copy, Debug, PartialEq, Eq, Structural)]
pub struct Offensive {
    pub initiative: Side,
    pub from: Nation,
    pub to: Nation,
    pub pr: u8,
}

/// What became of hits inflicted on a nation.
#[derive(Clone, Copy, Debug, PartialEq, Eq, Structural)]
pub enum HitsResult {
    Surrenders(Nation),
    Winner(Side),
    Hits(Nation, u8),
    NationNotAtWar(Nation),
    NoResult,
}

/// What became of an offensive.
#[derive(Clone, Copy, Debug, PartialEq, Eq, Structural)]
pub enum OffensiveOutcome {
    /// Resources asked for, resources at hand.
    NotEnoughResources(u8, u8),
    /// Operational level of the attacker, resources asked for.
    OperationalLevelTooLow(u8, u8),
    Hits(HitsResult),
}

/// What became of an attempt to improve a technology.
#[derive(Clone, Debug, PartialEq, Eq)]
pub enum TechnologyImprovement {
    ImprovedTechnology(TechnologyType, u8),
    FailedTechnology(TechnologyType, u8),
    /// Name of the technology, first year in which it can be researched,
    /// current year.
    TechnologyNotAvailable(String, u16, u16),
    NoMoreTechnologyImprovement(TechnologyType, u8),
}

/// `TechnologyImprovement` with the name as a sequence of characters.
pub enum ImprovementView {
    ImprovedTechnology(TechnologyType, u8),
    FailedTechnology(TechnologyType, u8),
    TechnologyNotAvailable(Seq<char>, u16, u16),
    NoMoreTechnologyImprovement(TechnologyType, u8),
}

impl View for TechnologyImprovement {
    type V = ImprovementView;

    open spec fn view(&self) -> ImprovementView {
        match *self {
            TechnologyImprovement::ImprovedTechnology(t, pr) => ImprovementView::ImprovedTechnology(
                t,
                pr,
            ),
            TechnologyImprovement::FailedTechnology(t, pr) => ImprovementView::FailedTechnology(
                t,
                pr,
            ),
            TechnologyImprovement::TechnologyNotAvailable(name, date, year) => {
                ImprovementView::TechnologyNotAvailable(name@, date, year)
            },
            TechnologyImprovement::NoMoreTechnologyImprovement(t, level) => {
                ImprovementView::NoMoreTechnologyImprovement(t, level)
            },
        }
    }
}

/// An event whose effect lasts: it stays active until the turn in which
/// it was played is over.
#[derive(Clone, Copy, Debug, PartialEq, Eq)]
pub struct ActiveEvent {
    pub event: Event,
    /// The turn in which the event was played.
    pub since_turn: u8,
}

impl ActiveEvent {
    pub open spec fn spec_deactivation(&self, turn: u8) -> bool {
        self.since_turn < turn
    }

    /// Whether the event has ceased to be active at a turn: a turn has
    /// begun since it was played.
    #[verifier::when_used_as_spec(spec_deactivation)]
    pub fn deactivation(&self, turn: u8) -> (over: bool)
        ensures
            over == self.spec_deactivation(turn),
    {
        self.since_turn < turn
    }
}

/// A change to the resources of the sides, which can be kept, combined and
/// applied later.
#[derive(Debug, PartialEq, Eq)]
pub enum StateChange {
    NoChange,
    ChangeResources { side: Side, pr: i8 },
    MoreChanges(Vec<StateChange>),
}

/// The state of a game as the proofs see it: all of `GameState` but the
/// random source, with sequences for the vectors.
pub struct Board {
    pub current_turn: u8,
    pub phase: Phase,
    pub initiative: Side,
    pub winner: Option<Side>,
    pub russian_revolution: u8,
    pub lafayette: Option<u8>,
    pub nations: Seq<NationState>,
    pub allies: WarState,
    pub empires: WarState,
    pub end_game_this_turn: bool,
    pub seed: u64,
    pub events_pool: Seq<Event>,
}

/// The state of a game. The state of each nation is kept in the order of
/// the nations.
#[derive(Clone, Debug, PartialEq, Eq)]
pub struct GameState {
    pub current_turn: u8,
    pub phase: Phase,
    pub initiative: Side,
    pub winner: Option<Side>,
    pub russian_revolution: u8,
    pub lafayette: Option<u8>,
    pub nations: Vec<NationState>,
    pub allies: WarState,
    pub empires: WarState,
    pub end_game_this_turn: bool,
    pub seed: u64,
    pub rng: StdRng,
    pub events_pool: Vec<Event>,
}

impl View for GameState {
    type V = Board;

    open spec fn view(&self) -> Board {
        Board {
            current_turn: self.current_turn,
            phase: self.phase,
            initiative: self.initiative,
            winner: self.winner,
            russian_revolution: self.russian_revolution,
            lafayette: self.lafayette,
            nations: self.nations@,
            allies: self.allies,
            empires: self.empires,
            end_game_this_turn: self.end_game_this_turn,
            seed: self.seed,
            events_pool: self.events_pool@,
        }
    }
}

/// The lesser of two numbers.
pub open spec fn min(a: int, b: int) -> int {
    if a <= b {
        a
    } else {
        b
    }
}

impl Board {
    /// What a side holds.
    pub open spec fn war(self, side: Side) -> WarState {
        match side {
            Side::Allies => self.allies,
            Side::Empires => self.empires,
        }
    }

    /// The state with a side holding something else.
    pub open spec fn with_war(self, side: Side, war: WarState) -> Board {
        match side {
            Side::Allies => Board { allies: war, ..self },
            Side::Empires => Board { empires: war, ..self },
        }
    }

    /// The resources that a side holds.
    pub open spec fn resources(self, side: Side) -> u8 {
        self.war(side).resources
    }

    /// The state with a side holding other resources.
    pub open spec fn with_resources(self, side: Side, resources: u8) -> Board {
        self.with_war(side, WarState { resources, ..self.war(side) })
    }

    /// The victory points that a side has won.
    pub open spec fn vp(self, side: Side) -> u8 {
        self.war(side).vp
    }

    /// The technologies that a side masters.
    pub open spec fn technologies(self, side: Side) -> Technologies {
        self.war(side).technologies
    }

    /// The state of a nation.
    pub open spec fn nation(self, nation: Nation) -> NationState {
        self.nations[nation.spec_index()]
    }

    /// The state with a nation in another state.
    pub open spec fn with_nation(self, nation: Nation, state: NationState) -> Board {
        Board { nations: self.nations.update(nation.spec_index(), state), ..self }
    }

    /// Whether a nation is at war.
    pub open spec fn at_war(self, nation: Nation) -> bool {
        self.nation(nation) is AtWar
    }

    /// The state in another phase.
    pub open spec fn in_phase(self, phase: Phase) -> Board {
        Board { phase, ..self }
    }

    /// The year of the current turn.
    pub open spec fn year(self) -> u16 {
        spec_year_of_turn(self.current_turn)
    }

    /// What holds of every state of a game: the turn is one of the game,
    /// no side holds more than 20 resources, no technology stands above
    /// its highest level, every nation has its state and none stands above its
    /// highest breakdown, and the pool holds events of the catalogue, of
    /// this year or earlier ones, each once.
    pub open spec fn wf(self) -> bool {
        &&& 1 <= self.current_turn <= FINAL_TURN
        &&& self.allies.resources <= MAX_RESOURCES
        &&& self.empires.resources <= MAX_RESOURCES
        &&& self.allies.technologies.wf()
        &&& self.empires.technologies.wf()
        &&& self.nations.len() == NATION_COUNT
        &&& forall|n: Nation| #[trigger]
            self.nation(n).spec_breakdown_level() <= n.spec_maximum_breakdown()
        &&& self.events_pool.no_duplicates()
        &&& forall|i: int|
            0 <= i < self.events_pool.len() ==> in_catalogue(#[trigger] self.events_pool[i])
                && self.events_pool[i].year <= self.year()
    }

    /// The state in which a game begins.
    pub open spec fn initial(seed: u64) -> Board {
        Board {
            current_turn: 1,
            phase: Phase::DrawEvents,
            initiative: Side::Empires,
            winner: None,
            russian_revolution: 0,
            lafayette: None,
            nations: Seq::new(
                NATION_COUNT as nat,
                |i: int| Nation::spec_from_index(i).spec_initial_state(),
            ),
            allies: WarState { resources: 0, vp: 0, technologies: spec_zero_technologies() },
            empires: WarState { resources: 0, vp: 0, technologies: spec_zero_technologies() },
            end_game_this_turn: false,
            seed,
            events_pool: spec_events_of_year(1914),
        }
    }

    /// Resources added to a side, up to the most it can hold.
    pub open spec fn increase_pr(self, side: Side, pr: u8) -> Board {
        self.with_resources(side, min(self.resources(side) + pr, MAX_RESOURCES as int) as u8)
    }

    /// Resources taken from a side, as far as it has any.
    pub open spec fn decrease_pr(self, side: Side, pr: u8) -> Board {
        self.with_resources(side, (self.resources(side) - min(pr as int, self.resources(side) as int)) as u8)
    }

    /// What a nation brings to a side when resources are collected: nothing
    /// unless it is at war on that side; for Russia twice its operational
    /// level; for any other nation its fixed resources.
    pub open spec fn contribution(self, nation: Nation, side: Side) -> int {
        match self.nation(nation) {
            NationState::AtWar(breakdown) => if nation.spec_side() == side {
                if nation == Nation::Russia {
                    crate::side::spec_operational_level(breakdown) * 2
                } else {
                    nation.spec_country().resources as int
                }
            } else {
                0
            },
            NationState::AtPeace => 0,
        }
    }

    /// The contributions of the first `count` nations.
    pub open spec fn tally_of_first(self, side: Side, count: nat) -> int
        decreases count,
    {
        if count == 0 {
            0
        } else {
            self.tally_of_first(side, (count - 1) as nat) + self.contribution(
                Nation::spec_from_index(count - 1),
                side,
            )
        }
    }

    /// What a side collects in a turn: the contributions of all nations.
    pub open spec fn tally(self, side: Side) -> int {
        self.tally_of_first(side, NATION_COUNT as nat)
    }
}

/// A tally never exceeds 6 resources for each nation counted.
pub proof fn lemma_tally_bound(board: Board, side: Side, count: nat)
    ensures
        0 <= board.tally_of_first(side, count) <= 6 * count,
    decreases count,
{
    if count > 0 {
        lemma_tally_bound(board, side, (count - 1) as nat);
    }
}

/// Setting the state of a nation changes that nation and no other, and
/// keeps the state well formed if the nation does not stand above its
/// highest breakdown.
pub proof fn lemma_with_nation(board: Board, nation: Nation, state: NationState)
    requires
        board.nations.len() == NATION_COUNT,
    ensures
        board.with_nation(nation, state).nation(nation) == state,
        forall|n: Nation| n != nation ==> #[trigger] board.with_nation(nation, state).nation(n) == board.nation(n),
        board.wf() && state.spec_breakdown_level() <= nation.spec_maximum_breakdown()
            ==> board.with_nation(nation, state).wf(),
{
    lemma_nation_index_round_trip(nation, 0);
    let after = board.with_nation(nation, state);
    assert forall|n: Nation| n != nation implies #[trigger] after.nation(n) == board.nation(n) by {
        lemma_nation_index_round_trip(n, 0);
    }
    if board.wf() && state.spec_breakdown_level() <= nation.spec_maximum_breakdown() {
        assert forall|n: Nation| #[trigger]
            after.nation(n).spec_breakdown_level() <= n.spec_maximum_breakdown() by {
            if n != nation {
                assert(after.nation(n) == board.nation(n));
            }
        }
    }
}

/// A change of what a side holds keeps the state well formed if the side
/// holds no more than it can and no technology stands above its highest
/// level.
pub proof fn lemma_with_war(board: Board, side: Side, war: WarState)
    requires
        board.wf(),
        war.resources <= MAX_RESOURCES,
        war.technologies.wf(),
    ensures
        board.with_war(side, war).wf(),
{
    let after = board.with_war(side, war);
    assert(forall|n: Nation| after.nation(n) == board.nation(n));
}

/// Giving a side resources and taking resources from it keep a state well
/// formed.
pub proof fn lemma_resources_keep_wf(board: Board, side: Side, pr: u8)
    ensures
        board.wf() ==> board.increase_pr(side, pr).wf() && board.decrease_pr(side, pr).wf(),
{
    if board.wf() {
        lemma_with_war(board, side, board.increase_pr(side, pr).war(side));
        lemma_with_war(board, side, board.decrease_pr(side, pr).war(side));
    }
}

/// The state in which a game begins is well formed.
pub proof fn lemma_initial_wf(seed: u64)
    ensures
        Board::initial(seed).wf(),
{
    let b = Board::initial(seed);
    lemma_events_of_year(1914);
    assert forall|n: Nation| #[trigger]
        b.nation(n).spec_breakdown_level() <= n.spec_maximum_breakdown() by {
        lemma_nation_index_round_trip(n, 0);
    }
}

impl GameState {
    /// A new game: first turn, the Empires have the initiative, no side
    /// holds anything, and the pool holds the events of 1914.
    pub fn new(seed: u64) -> (state: GameState)
        ensures
            state@ == Board::initial(seed),
            state@.wf(),
    {
        let mut nations: Vec<NationState> = Vec::new();
        let mut i: usize = 0;
        while i < NATION_COUNT
            invariant
                i <= NATION_COUNT,
                nations@.len() == i,
                forall|j: int|
                    0 <= j < i ==> nations@[j] == Nation::spec_from_index(j).spec_initial_state(),
            decreases NATION_COUNT - i,
        {
            nations.push(Nation::from_index(i).initial_state());
            i += 1;
        }
        let state = GameState {
            current_turn: 1,
            phase: Phase::DrawEvents,
            initiative: Side::Empires,
            winner: None,
            russian_revolution: 0,
            lafayette: None,
            nations,
            allies: WarState { resources: 0, vp: 0, technologies: zero_technologies() },
            empires: WarState { resources: 0, vp: 0, technologies: zero_technologies() },
            end_game_this_turn: false,
            seed,
            rng: seeded(seed),
            events_pool: events_of_year(1914),
        };
        proof {
            assert(state@.nations =~= Board::initial(seed).nations);
            lemma_initial_wf(seed);
        }
        state
    }

    /// A copy of the state, with a copy of its random source.
    pub fn snapshot(&self) -> (copy: GameState)
        ensures
            copy@ == self@,
            copy.rng == self.rng,
    {
        let copy = GameState {
            current_turn: self.current_turn,
            phase: self.phase,
            initiative: self.initiative,
            winner: self.winner,
            russian_revolution: self.russian_revolution,
            lafayette: self.lafayette,
            nations: self.nations.clone(),
            allies: self.allies,
            empires: self.empires,
            end_game_this_turn: self.end_game_this_turn,
            seed: self.seed,
            rng: self.rng.clone(),
            events_pool: self.events_pool.clone(),
        };
        proof {
            assert(copy.nations@ =~= self.nations@);
            assert(copy.events_pool@ =~= self.events_pool@);
        }
        copy
    }

    /// What a side holds.
    pub fn state_of_war(&self, side: Side) -> (war: WarState)
        ensures
            war == self@.war(side),
    {
        match side {
            Side::Allies => self.allies,
            Side::Empires => self.empires,
        }
    }

    /// The state of a nation.
    pub fn nation_state(&self, nation: Nation) -> (state: NationState)
        requires
            self@.nations.len() == NATION_COUNT,
        ensures
            state == self@.nation(nation),
    {
        self.nations[nation.index()]
    }

    fn set_resources(&mut self, side: Side, resources: u8)
        ensures
            final(self)@ == old(self)@.with_resources(side, resources),
            final(self).rng == old(self).rng,
    {
        match side {
            Side::Allies => {
                self.allies.resources = resources;
            },
            Side::Empires => {
                self.empires.resources = resources;
            },
        }
    }

    /// What a side collects in a turn.
    pub fn tally_resources(&self, pr_for_side: &Side) -> (tally: u8)
        requires
            self@.nations.len() == NATION_COUNT,
        ensures
            tally == self@.tally(*pr_for_side),
    {
        let mut tally: u8 = 0;
        let mut i: usize = 0;
        while i < NATION_COUNT
            invariant
                i <= NATION_COUNT,
                self@.nations.len() == NATION_COUNT,
                tally == self@.tally_of_first(*pr_for_side, i as nat),
            decreases NATION_COUNT - i,
        {
            let nation = Nation::from_index(i);
            proof {
                lemma_tally_bound(self@, *pr_for_side, i as nat);
            }
            let contribution: u8 = match self.nations[i] {
                NationState::AtWar(breakdown) => {
                    if nation.side() == *pr_for_side {
                        if nation == Nation::Russia {
                            crate::side::operational_level(breakdown) * 2
                        } else {
                            nation.country().resources
                        }
                    } else {
                        0
                    }
                },
                NationState::AtPeace => 0,
            };
            assert(contribution == self@.contribution(nation, *pr_for_side));
            tally = tally + contribution;
            i += 1;
        }
        tally
    }

    /// Gives resources to a side; what would bring it above 20 is lost.
    pub fn increase_pr(&mut self, side: Side, pr: u8)
        ensures
            final(self)@ == old(self)@.increase_pr(side, pr),
            final(self).rng == old(self).rng,
            old(self)@.wf() ==> final(self)@.wf(),
    {
        proof {
            lemma_resources_keep_wf(self@, side, pr);
        }
        let held: u8 = self.state_of_war(side).resources;
        let raised: u16 = held as u16 + pr as u16;
        let capped: u8 = if raised > MAX_RESOURCES as u16 {
            MAX_RESOURCES
        } else {
            raised as u8
        };
        self.set_resources(side, capped);
    }

    /// Takes resources from a side; a side that has not enough is left
    /// with none.
    pub fn decrease_pr(&mut self, side: Side, pr: u8)
        ensures
            final(self)@ == old(self)@.decrease_pr(side, pr),
            final(self).rng == old(self).rng,
            old(self)@.wf() ==> final(self)@.wf(),
    {
        proof {
            lemma_resources_keep_wf(self@, side, pr);
        }
        let held: u8 = self.state_of_war(side).resources;
        let left: u8 = if pr > held {
            0
        } else {
            held - pr
        };
        self.set_resources(side, left);
    }

    /// The resources a side holds.
    pub fn resources_for(&self, side: &Side) -> (resources: u8)
        ensures
            resources == self@.resources(*side),
    {
        self.state_of_war(*side).resources
    }

    /// Rolls a die. Nothing of the state changes but the random source.
    pub fn roll(&mut self) -> (die: u8)
        ensures
            1 <= die <= 6,
            final(self)@ == old(self)@,
    {
        roll_die(&mut self.rng)
    }

    /// The year of the current turn.
    pub fn current_year(&self) -> (year: u16)
        requires
            1 <= self.current_turn <= LAST_TURN,
        ensures
            year == self@.year(),
    {
        year_of_turn(self.current_turn)
    }
}

} // verus!
