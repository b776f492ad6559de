//! The engine: a state, the events that are active, and the resolution of
//! everything that a turn is made of.

use vstd::prelude::*;
use crate::change::lemma_change_keeps_rest;
use crate::combat::lemma_apply_hits;
use crate::state::{lemma_with_nation, lemma_with_war};
use crate::event::{lemma_years_follow_turns, spec_year_of_turn, Effect, Event, LAST_TURN};
use crate::pool::lemma_new_year_keeps_pool;
use crate::sequences::{lemma_filter_take_ends, lemma_filter_take_step};
use crate::side::{Nation, NationState, Side, NATION_COUNT};
use crate::state::{
    min, ActiveEvent, Board, GameState, HitsResult, ImprovementView, Offensive, OffensiveOutcome,
    Phase, StateChange, TechnologyImprovement, WarState, MAX_RESOURCES,
};
use crate::tech::{
    lemma_catalogue_entries, research_succeeds, spec_research_succeeds, spec_technology,
    technology, TechnologyType,
};

verus! {

pub open spec fn spec_default_initiative(turn: u8) -> Side {
    if turn == 4 || (6 <= turn <= 10) || turn == 13 || turn == 14 {
        Side::Allies
    } else {
        Side::Empires
    }
}

/// The side that has the initiative in a turn where the bids do not
/// decide: the Empires in turns 1 to 3, 5, 11 and 12, the Allies in the
/// other turns of the game. Past the last turn it falls to the Empires.
#[verifier::when_used_as_spec(spec_default_initiative)]
pub fn default_initiative(turn: u8) -> (side: Side)
    ensures
        side == spec_default_initiative(turn),
{
    if turn == 4 || (6 <= turn && turn <= 10) || turn == 13 || turn == 14 {
        Side::Allies
    } else {
        Side::Empires
    }
}

pub open spec fn spec_uboot_loss(die: u8, bonus: u8) -> u8 {
    let effective = min(die + bonus, 6);
    if effective >= 6 {
        4
    } else if effective == 5 {
        2
    } else {
        0
    }
}

/// What the submarines cost the Allies: nothing unless the die and the
/// bonus reach 5; 2 resources at 5; 4 at 6 or more.
#[verifier::when_used_as_spec(spec_uboot_loss)]
pub fn uboot_loss(die: u8, bonus: u8) -> (loss: u8)
    ensures
        loss == spec_uboot_loss(die, bonus),
{
    let effective: u16 = die as u16 + bonus as u16;
    if effective >= 6 {
        4
    } else if effective == 5 {
        2
    } else {
        0
    }
}

pub open spec fn spec_blockade_gain(die: u8, bonus: u8) -> u8 {
    let effective = min(die + bonus, 6);
    if effective <= 1 {
        3
    } else if effective == 2 {
        1
    } else {
        0
    }
}

/// What a blockade that fails lets through to the Empires: 3 resources
/// where the die and the bonus make 1, 1 resource where they make 2,
/// nothing from 3 on.
#[verifier::when_used_as_spec(spec_blockade_gain)]
pub fn blockade_gain(die: u8, bonus: u8) -> (gain: u8)
    ensures
        gain == spec_blockade_gain(die, bonus),
{
    let effective: u16 = die as u16 + bonus as u16;
    if effective <= 1 {
        3
    } else if effective == 2 {
        1
    } else {
        0
    }
}

/// Whether every die of a list shows 1 to 6.
pub open spec fn valid_dice(dice: Seq<u8>) -> bool {
    forall|i: int| 0 <= i < dice.len() ==> 1 <= #[trigger] dice[i] <= 6
}

/// How many dice of a list hit: those that reach the attack factor once
/// the modifier is added.
pub open spec fn count_hits(dice: Seq<u8>, modifier: int, factor: int) -> nat {
    dice.filter(|die: u8| die + modifier >= factor).len()
}

/// Whether an offensive goes between France and Germany.
pub open spec fn on_western_front(from: Nation, to: Nation) -> bool {
    (from == Nation::France && to == Nation::Germany) || (from == Nation::Germany && to
        == Nation::France)
}

/// The bonus that the active events give the dice of an offensive: 1 for
/// an offensive between France and Germany while the race to the sea is
/// on.
pub open spec fn offensive_bonus(active: Seq<ActiveEvent>, from: Nation, to: Nation) -> int {
    if on_western_front(from, to) && exists|i: int|
        0 <= i < active.len() && (#[trigger] active[i]).event.effect == Effect::RaceToTheSea {
        1
    } else {
        0
    }
}

impl Board {
    /// The state after both sides have collected their resources.
    pub open spec fn collect(self) -> Board {
        self.increase_pr(Side::Allies, self.tally(Side::Allies) as u8).increase_pr(
            Side::Empires,
            self.tally(Side::Empires) as u8,
        )
    }

    /// The state after the sides have bid for the initiative: each pays
    /// its bid as far as it can, and the higher sum of bid and die wins.
    /// The bid counts in full for the sum, also where the side holds less
    /// and pays less. Where the sums are equal the turn decides.
    pub open spec fn bid(self, allies_pr: u8, empires_pr: u8, allies_die: u8, empires_die: u8) -> Board {
        let paid = self.decrease_pr(Side::Allies, allies_pr).decrease_pr(Side::Empires, empires_pr);
        let allies = allies_pr + allies_die;
        let empires = empires_pr + empires_die;
        Board {
            initiative: if allies > empires {
                Side::Allies
            } else if empires > allies {
                Side::Empires
            } else {
                spec_default_initiative(self.current_turn)
            },
            ..paid
        }
    }

    /// The state after an attempt to improve a technology, and what comes
    /// of it. Nothing is paid and no die counts where the catalogue has no
    /// further level or the year of the next level has not come.
    pub open spec fn research(self, side: Side, category: TechnologyType, pr: u8, die: u8) -> (
        Board,
        ImprovementView,
    ) {
        let level = self.technologies(side).spec_level(category);
        match spec_technology(side, category, (level + 1) as u8) {
            None => (self, ImprovementView::NoMoreTechnologyImprovement(category, level)),
            Some(t) => if t.date > self.year() {
                (self, ImprovementView::TechnologyNotAvailable(t.name@, t.date, self.year()))
            } else {
                let paid = self.decrease_pr(side, pr);
                if spec_research_succeeds(die, pr, t.threshold) {
                    (
                        paid.with_war(
                            side,
                            WarState {
                                technologies: paid.technologies(side).spec_with_level(
                                    category,
                                    (level + 1) as u8,
                                ),
                                ..paid.war(side)
                            },
                        ),
                        ImprovementView::ImprovedTechnology(category, pr),
                    )
                } else {
                    (paid, ImprovementView::FailedTechnology(category, pr))
                }
            },
        }
    }

    /// Whether an attempt to improve a technology comes to a roll.
    pub open spec fn research_rolls(self, side: Side, category: TechnologyType) -> bool {
        match spec_technology(
            side,
            category,
            (self.technologies(side).spec_level(category) + 1) as u8,
        ) {
            None => false,
            Some(t) => t.date <= self.year(),
        }
    }

    /// How many dice an offensive rolls: one for each resource committed,
    /// and one for each level of artillery that the attacker can use.
    pub open spec fn dice_of(self, offensive: Offensive) -> int {
        offensive.pr + min(
            self.technologies(offensive.initiative).artillery as int,
            offensive.from.spec_country().max_tech_level as int,
        )
    }

    /// What is added to each die of an offensive: the attack level that
    /// the attacker can use and the bonus of the active events, less the
    /// defense level that the defender can use.
    pub open spec fn modifier(self, offensive: Offensive, bonus: int) -> int {
        min(
            self.technologies(offensive.initiative).attack as int,
            offensive.from.spec_country().max_tech_level as int,
        ) + bonus - min(
            self.technologies(offensive.to.spec_side()).defense as int,
            offensive.to.spec_country().max_tech_level as int,
        )
    }

    /// Whether an offensive is fought: the side has the resources and the
    /// attacker the operational level.
    pub open spec fn fights(self, offensive: Offensive) -> bool {
        offensive.pr <= self.resources(offensive.initiative) && offensive.pr <= self.nation(
            offensive.from,
        ).spec_operational_level()
    }

    /// The state after an offensive, and what comes of it. An offensive
    /// that asks for more resources than the side holds, or than the
    /// operational level of the attacker allows, is not fought. Else the
    /// side pays, and the defender takes a hit for each die that, with the
    /// modifier, reaches the attack factor of the attacker.
    pub open spec fn offensive(self, offensive: Offensive, bonus: int, dice: Seq<u8>, die: u8) -> (
        Board,
        OffensiveOutcome,
    ) {
        let side = offensive.initiative;
        let level = self.nation(offensive.from).spec_operational_level();
        if offensive.pr > self.resources(side) {
            (self, OffensiveOutcome::NotEnoughResources(offensive.pr, self.resources(side)))
        } else if offensive.pr > level {
            (self, OffensiveOutcome::OperationalLevelTooLow(level, offensive.pr))
        } else {
            let hits = count_hits(
                dice,
                self.modifier(offensive, bonus),
                offensive.from.spec_country().attack_factor as int,
            );
            let (after, result) = self.decrease_pr(side, offensive.pr).apply_hits(
                offensive.to,
                hits as u8,
                die,
            );
            (after, OffensiveOutcome::Hits(result))
        }
    }

    /// The state when the next turn begins. Where a year begins with it,
    /// the pool is that of the new year.
    pub open spec fn next_turn(self) -> Board {
        let turn = (self.current_turn + 1) as u8;
        if spec_year_of_turn(turn) != self.year() {
            Board {
                current_turn: turn,
                events_pool: self.pool_of_new_year(spec_year_of_turn(turn)),
                ..self
            }
        } else {
            Board { current_turn: turn, ..self }
        }
    }

    /// The state after an event was played. A nation that enters the war
    /// stands at its initial breakdown; resources are given or taken as a
    /// change of resources is applied; other events leave the state as it
    /// is.
    pub open spec fn play(self, event: Event) -> Board {
        match event.effect {
            Effect::EntersWar(nation) => self.with_nation(
                nation,
                NationState::AtWar(nation.spec_country().initial_breakdown),
            ),
            Effect::Resources(side, pr) => self.apply_change(
                StateChange::ChangeResources { side, pr },
            ),
            _ => self,
        }
    }

    /// Whether every nation at peace in `self` is at peace in `later`,
    /// but for one nation.
    pub open spec fn peace_kept_but_for(self, later: Board, nation: Nation) -> bool {
        forall|n: Nation| n != nation && !self.at_war(n) ==> !#[trigger] later.at_war(n)
    }
}

/// The active events after an event was played: the race to the sea is
/// active from the turn in which it is played.
pub open spec fn activated(active: Seq<ActiveEvent>, event: Event, turn: u8) -> Seq<ActiveEvent> {
    if event.effect == Effect::RaceToTheSea {
        active.push(ActiveEvent { event, since_turn: turn })
    } else {
        active
    }
}

/// The active events that are still active at a turn.
pub open spec fn still_active(active: Seq<ActiveEvent>, turn: u8) -> Seq<ActiveEvent> {
    active.filter(|a: ActiveEvent| !a.spec_deactivation(turn))
}

/// Collecting resources keeps a state well formed and touches nothing but
/// the resources.
pub proof fn lemma_collect(board: Board)
    requires
        board.wf(),
    ensures
        board.collect().wf(),
        board.collect() == board.with_resources(
            Side::Allies,
            board.collect().resources(Side::Allies),
        ).with_resources(Side::Empires, board.collect().resources(Side::Empires)),
        board.collect().resources(Side::Allies) >= board.resources(Side::Allies),
        board.collect().resources(Side::Empires) >= board.resources(Side::Empires),
{
    crate::state::lemma_tally_bound(board, Side::Allies, NATION_COUNT as nat);
    crate::state::lemma_tally_bound(board, Side::Empires, NATION_COUNT as nat);
    let first = board.increase_pr(Side::Allies, board.tally(Side::Allies) as u8);
    lemma_with_war(board, Side::Allies, first.war(Side::Allies));
    lemma_with_war(first, Side::Empires, board.collect().war(Side::Empires));
}

/// A bid keeps a state well formed and touches nothing but the resources
/// and the initiative.
pub proof fn lemma_bid(board: Board, allies_pr: u8, empires_pr: u8, allies_die: u8, empires_die: u8)
    requires
        board.wf(),
    ensures
        board.bid(allies_pr, empires_pr, allies_die, empires_die).wf(),
        board.bid(allies_pr, empires_pr, allies_die, empires_die).nations == board.nations,
        board.bid(allies_pr, empires_pr, allies_die, empires_die).events_pool == board.events_pool,
{
    let first = board.decrease_pr(Side::Allies, allies_pr);
    lemma_with_war(board, Side::Allies, first.war(Side::Allies));
    let second = first.decrease_pr(Side::Empires, empires_pr);
    lemma_with_war(first, Side::Empires, second.war(Side::Empires));
    let after = board.bid(allies_pr, empires_pr, allies_die, empires_die);
    assert(forall|n: Nation| after.nation(n) == second.nation(n));
}

/// Research keeps a state well formed, lowers no technology, raises one
/// level at most by one, gives no resources, and leaves the nations as
/// they are.
pub proof fn lemma_research(board: Board, side: Side, category: TechnologyType, pr: u8, die: u8)
    requires
        board.wf(),
    ensures
        board.research(side, category, pr, die).0.wf(),
        board.technologies_kept(board.research(side, category, pr, die).0),
        board.research(side, category, pr, die).0.nations == board.nations,
        board.research(side, category, pr, die).0.events_pool == board.events_pool,
        board.research(side, category, pr, die).0.current_turn == board.current_turn,
        board.research(side, category, pr, die).0.resources(side) <= board.resources(side),
        board.research(side, category, pr, die).0.war(side.spec_other()) == board.war(
            side.spec_other(),
        ),
        board.research(side, category, pr, die).0.technologies(side) == board.technologies(
            side,
        ).spec_with_level(
            category,
            board.research(side, category, pr, die).0.technologies(side).spec_level(category),
        ),
        board.research(side, category, pr, die).0.technologies(side).spec_level(category)
            <= board.technologies(side).spec_level(category) + 1,
        board.research(side, category, pr, die).1 is TechnologyNotAvailable ==> board.research(
            side,
            category,
            pr,
            die,
        ).0 == board,
{
    let level = board.technologies(side).spec_level(category);
    lemma_catalogue_entries(side, category, (level + 1) as u8);
    let paid = board.decrease_pr(side, pr);
    lemma_with_war(board, side, paid.war(side));
    if board.research_rolls(side, category) {
        let raised = WarState {
            technologies: paid.technologies(side).spec_with_level(category, (level + 1) as u8),
            ..paid.war(side)
        };
        lemma_with_war(paid, side, raised);
    }
}

/// An offensive keeps a state well formed, makes no nation join the war,
/// touches no technology and gives no resources.
pub proof fn lemma_offensive(board: Board, offensive: Offensive, bonus: int, dice: Seq<u8>, die: u8)
    requires
        board.wf(),
    ensures
        board.offensive(offensive, bonus, dice, die).0.wf(),
        board.peace_kept(board.offensive(offensive, bonus, dice, die).0),
        board.offensive(offensive, bonus, dice, die).0.allies.technologies
            == board.allies.technologies,
        board.offensive(offensive, bonus, dice, die).0.empires.technologies
            == board.empires.technologies,
        board.offensive(offensive, bonus, dice, die).0.allies.resources <= board.allies.resources,
        board.offensive(offensive, bonus, dice, die).0.empires.resources
            <= board.empires.resources,
        board.only_war_differs(board.offensive(offensive, bonus, dice, die).0),
{
    if board.fights(offensive) {
        let side = offensive.initiative;
        let paid = board.decrease_pr(side, offensive.pr);
        lemma_with_war(board, side, paid.war(side));
        let hits = count_hits(
            dice,
            board.modifier(offensive, bonus),
            offensive.from.spec_country().attack_factor as int,
        );
        lemma_apply_hits(paid, offensive.to, hits as u8, die);
        assert(forall|n: Nation| paid.nation(n) == board.nation(n));
    }
}

/// The next turn keeps a state well formed, and touches nothing but the
/// turn and the pool.
pub proof fn lemma_next_turn(board: Board)
    requires
        board.wf(),
        board.current_turn <= LAST_TURN,
    ensures
        board.next_turn().wf(),
        board.next_turn() == (Board {
            current_turn: (board.current_turn + 1) as u8,
            events_pool: board.next_turn().events_pool,
            ..board
        }),
{
    let turn = (board.current_turn + 1) as u8;
    let after = board.next_turn();
    lemma_years_follow_turns(board.current_turn);
    assert(forall|n: Nation| after.nation(n) == board.nation(n));
    if spec_year_of_turn(turn) != board.year() {
        lemma_new_year_keeps_pool(board, board.year(), spec_year_of_turn(turn));
    }
}

/// An event that is played keeps a state well formed, touches no
/// technology, and makes no nation join the war but the one that the event
/// brings in.
pub proof fn lemma_play(board: Board, event: Event)
    requires
        board.wf(),
    ensures
        board.play(event).wf(),
        board.play(event).allies.technologies == board.allies.technologies,
        board.play(event).empires.technologies == board.empires.technologies,
        board.play(event).current_turn == board.current_turn,
        board.play(event).events_pool == board.events_pool,
        match event.effect {
            Effect::EntersWar(nation) => board.peace_kept_but_for(board.play(event), nation),
            _ => board.peace_kept(board.play(event)),
        },
{
    match event.effect {
        Effect::EntersWar(nation) => {
            lemma_with_nation(
                board,
                nation,
                NationState::AtWar(nation.spec_country().initial_breakdown),
            );
        },
        Effect::Resources(side, pr) => {
            lemma_change_keeps_rest(board, StateChange::ChangeResources { side, pr });
            let after = board.play(event);
            assert(forall|n: Nation| after.nation(n) == board.nation(n));
        },
        _ => {},
    }
}

/// The engine of a game.
#[derive(Clone, Debug, PartialEq, Eq)]
pub struct GameEngine {
    pub state: GameState,
    /// The events whose effect lasts, in the order in which they were
    /// played.
    pub played_events: Vec<ActiveEvent>,
}

impl GameEngine {
    /// Whether the state of the engine is well formed.
    pub open spec fn wf(&self) -> bool {
        self.state@.wf()
    }

    /// The engine of a new game.
    pub fn new(seed: u64) -> (engine: GameEngine)
        ensures
            engine.state@ == Board::initial(seed),
            engine.played_events@ == Seq::<ActiveEvent>::empty(),
            engine.wf(),
    {
        GameEngine { state: GameState::new(seed), played_events: Vec::new() }
    }

    /// Rolls a die.
    pub fn roll(&mut self) -> (die: u8)
        ensures
            1 <= die <= 6,
            final(self).state@ == old(self).state@,
            final(self).played_events == old(self).played_events,
    {
        self.state.roll()
    }

    /// The year of the current turn.
    pub fn current_year(&self) -> (year: u16)
        requires
            1 <= self.state.current_turn <= LAST_TURN,
        ensures
            year == self.state@.year(),
    {
        self.state.current_year()
    }

    /// Moves the game to a phase.
    pub fn set_phase(&mut self, phase: Phase)
        ensures
            final(self).state@ == old(self).state@.in_phase(phase),
            final(self).state.rng == old(self).state.rng,
            final(self).played_events == old(self).played_events,
            old(self).wf() ==> final(self).wf(),
    {
        self.state.set_phase(phase);
        proof {
            assert(forall|n: Nation| self.state@.nation(n) == old(self).state@.nation(n));
        }
    }

    /// Whether the game is over.
    pub fn game_ends(&self) -> (b: bool)
        ensures
            b == self.state@.game_ends(),
    {
        self.state.game_ends()
    }

    /// The side that wins.
    pub fn winner(&self) -> (side: Side)
        ensures
            side == self.state@.winning_side(),
    {
        self.state.winner()
    }

    /// The nations of a side that are at war, in order.
    pub fn all_nations_at_war(&self, initiative: Side) -> (nations: Vec<Nation>)
        requires
            self.state@.nations.len() == NATION_COUNT,
        ensures
            nations@ == self.state@.nations_at_war(initiative),
    {
        self.state.all_nations_at_war(initiative)
    }

    /// Gives resources to a side; what would bring it above 20 is lost.
    pub fn increase_pr(&mut self, side: Side, pr: u8)
        ensures
            final(self).state@ == old(self).state@.increase_pr(side, pr),
            final(self).state.rng == old(self).state.rng,
            final(self).played_events == old(self).played_events,
            old(self).wf() ==> final(self).wf(),
    {
        self.state.increase_pr(side, pr);
        proof {
            if old(self).wf() {
                lemma_with_war(old(self).state@, side, self.state@.war(side));
            }
        }
    }

    /// Takes resources from a side; a side that has not enough is left
    /// with none.
    pub fn reduce_pr(&mut self, side: Side, pr: u8)
        ensures
            final(self).state@ == old(self).state@.decrease_pr(side, pr),
            final(self).state.rng == old(self).state.rng,
            final(self).played_events == old(self).played_events,
            old(self).wf() ==> final(self).wf(),
    {
        self.state.decrease_pr(side, pr);
        proof {
            if old(self).wf() {
                lemma_with_war(old(self).state@, side, self.state@.war(side));
            }
        }
    }

    /// Applies a change to the resources of the sides.
    pub fn apply_change(&mut self, change: &StateChange)
        ensures
            final(self).state@ == old(self).state@.apply_change(*change),
            final(self).state.rng == old(self).state.rng,
            final(self).played_events == old(self).played_events,
            old(self).wf() ==> final(self).wf(),
    {
        self.state.apply_change(change);
        proof {
            lemma_change_keeps_rest(old(self).state@, *change);
        }
    }

    /// Gives each side what its nations at war bring in, the Allies first.
    pub fn collect_resources(&mut self)
        requires
            old(self).wf(),
        ensures
            final(self).state@ == old(self).state@.collect(),
            final(self).state.rng == old(self).state.rng,
            final(self).played_events == old(self).played_events,
            final(self).wf(),
    {
        let allies: u8 = self.state.tally_resources(&Side::Allies);
        let empires: u8 = self.state.tally_resources(&Side::Empires);
        self.state.increase_pr(Side::Allies, allies);
        proof {
            assert(forall|n: Nation| self.state@.nation(n) == old(self).state@.nation(n));
            assert(self.state@.nations == old(self).state@.nations);
            lemma_same_tally(old(self).state@, self.state@, Side::Empires, NATION_COUNT as nat);
        }
        self.state.increase_pr(Side::Empires, empires);
        proof {
            lemma_collect(old(self).state@);
        }
    }

    /// Draws up to 3 events from the pool.
    pub fn draw_events(&mut self) -> (events: Vec<Event>)
        ensures
            exists|picks: Seq<int>|
                picks.len() == min(
                    crate::pool::EVENTS_PER_TURN as int,
                    old(self).state@.events_pool.len() as int,
                ) && crate::pool::valid_picks(old(self).state@.events_pool.len(), picks)
                    && #[trigger] crate::pool::draw(old(self).state@.events_pool, picks) == (
                    final(self).state@.events_pool,
                    events@,
                ),
            final(self).state@ == (Board {
                events_pool: final(self).state@.events_pool,
                ..old(self).state@
            }),
            old(self).state@.events_pool.len() == 0
                ==> final(self).state.rng == old(self).state.rng,
            final(self).played_events == old(self).played_events,
            old(self).wf() ==> final(self).wf(),
    {
        self.state.draw_events()
    }

    /// Settles the initiative from the bids and the dice of the two sides.
    /// A bid counts in full for the sum, though a side pays no more of it
    /// than it holds.
    pub fn determine_initiative_with(
        &mut self,
        allies_pr: u8,
        empires_pr: u8,
        allies_die: u8,
        empires_die: u8,
    )
        ensures
            final(self).state@ == old(self).state@.bid(
                allies_pr,
                empires_pr,
                allies_die,
                empires_die,
            ),
            final(self).state.rng == old(self).state.rng,
            final(self).played_events == old(self).played_events,
            old(self).wf() ==> final(self).wf(),
    {
        let turn: u8 = self.state.current_turn;
        self.state.decrease_pr(Side::Allies, allies_pr);
        self.state.decrease_pr(Side::Empires, empires_pr);
        let allies: u16 = allies_pr as u16 + allies_die as u16;
        let empires: u16 = empires_pr as u16 + empires_die as u16;
        self.state.initiative = if allies > empires {
            Side::Allies
        } else if empires > allies {
            Side::Empires
        } else {
            default_initiative(turn)
        };
        proof {
            if old(self).wf() {
                lemma_bid(old(self).state@, allies_pr, empires_pr, allies_die, empires_die);
            }
        }
    }

    /// Settles the initiative: each side pays its bid as far as it can and
    /// rolls a die, the Allies first. A bid counts in full for the sum,
    /// though a side pays no more of it than it holds.
    pub fn determine_initiative(&mut self, allies_pr: u8, empires_pr: u8)
        ensures
            exists|allies_die: u8, empires_die: u8|
                1 <= allies_die <= 6 && 1 <= empires_die <= 6 && final(self).state@ == #[trigger] old(
                    self,
                ).state@.bid(allies_pr, empires_pr, allies_die, empires_die),
            final(self).played_events == old(self).played_events,
            old(self).wf() ==> final(self).wf(),
    {
        let allies_die: u8 = self.state.roll();
        let empires_die: u8 = self.state.roll();
        self.determine_initiative_with(allies_pr, empires_pr, allies_die, empires_die);
        proof {
            assert(self.state@ == old(self).state@.bid(
                allies_pr,
                empires_pr,
                allies_die,
                empires_die,
            ));
        }
    }

    /// Attempts to improve a technology with a given die. The die does not
    /// count where the attempt does not come to a roll.
    pub fn try_improve_technology_with(
        &mut self,
        initiative: Side,
        tech: TechnologyType,
        n: u8,
        die: u8,
    ) -> (result: TechnologyImprovement)
        requires
            old(self).wf(),
            old(self).state.current_turn <= LAST_TURN,
        ensures
            (final(self).state@, result@) == old(self).state@.research(initiative, tech, n, die),
            final(self).state.rng == old(self).state.rng,
            final(self).played_events == old(self).played_events,
            final(self).wf(),
    {
        proof {
            lemma_research(self.state@, initiative, tech, n, die);
            lemma_catalogue_entries(
                initiative,
                tech,
                (self.state@.technologies(initiative).spec_level(tech) + 1) as u8,
            );
        }
        let war = self.state.state_of_war(initiative);
        let level: u8 = war.technologies.level(tech);
        let year: u16 = self.state.current_year();
        match technology(initiative, tech, level + 1) {
            None => TechnologyImprovement::NoMoreTechnologyImprovement(tech, level),
            Some(t) => {
                if t.date > year {
                    TechnologyImprovement::TechnologyNotAvailable(t.name.to_owned(), t.date, year)
                } else {
                    self.state.decrease_pr(initiative, n);
                    if research_succeeds(die, n, t.threshold) {
                        let raised = war.technologies.with_level(tech, level + 1);
                        match initiative {
                            Side::Allies => {
                                self.state.allies.technologies = raised;
                            },
                            Side::Empires => {
                                self.state.empires.technologies = raised;
                            },
                        }
                        TechnologyImprovement::ImprovedTechnology(tech, n)
                    } else {
                        TechnologyImprovement::FailedTechnology(tech, n)
                    }
                }
            },
        }
    }

    /// Whether an attempt to improve a technology comes to a roll: the
    /// catalogue has a further level, whose year has come.
    pub fn research_rolls(&self, side: Side, tech: TechnologyType) -> (rolls: bool)
        requires
            self.wf(),
            self.state.current_turn <= LAST_TURN,
        ensures
            rolls == self.state@.research_rolls(side, tech),
    {
        let level: u8 = self.state.state_of_war(side).technologies.level(tech);
        let year: u16 = self.state.current_year();
        match technology(side, tech, level + 1) {
            None => false,
            Some(t) => t.date <= year,
        }
    }

    /// Attempts to improve a technology. A die is rolled only where the
    /// catalogue has a further level whose year has come.
    pub fn try_improve_technology(&mut self, initiative: Side, tech: TechnologyType, n: u8) -> (result:
        TechnologyImprovement)
        requires
            old(self).wf(),
            old(self).state.current_turn <= LAST_TURN,
        ensures
            exists|die: u8|
                1 <= die <= 6 && #[trigger] old(self).state@.research(initiative, tech, n, die) == (
                    final(self).state@,
                    result@,
                ),
            !old(self).state@.research_rolls(initiative, tech) ==> final(self).state.rng
                == old(self).state.rng,
            final(self).played_events == old(self).played_events,
            final(self).wf(),
    {
        let rolls: bool = self.research_rolls(initiative, tech);
        let die: u8 = if rolls {
            self.state.roll()
        } else {
            1
        };
        let result = self.try_improve_technology_with(initiative, tech, n, die);
        proof {
            assert(old(self).state@.research(initiative, tech, n, die) == (self.state@, result@));
        }
        result
    }

    /// The bonus that the active events give the dice of an offensive.
    pub fn offensive_bonus(&self, from: Nation, to: Nation) -> (bonus: u8)
        ensures
            bonus == offensive_bonus(self.played_events@, from, to),
    {
        let front: bool = (from == Nation::France && to == Nation::Germany) || (from
            == Nation::Germany && to == Nation::France);
        if !front {
            return 0;
        }
        let mut i: usize = 0;
        while i < self.played_events.len()
            invariant
                i <= self.played_events@.len(),
                on_western_front(from, to),
                forall|j: int|
                    0 <= j < i ==> self.played_events@[j].event.effect != Effect::RaceToTheSea,
            decreases self.played_events@.len() - i,
        {
            if self.played_events[i].event.effect == Effect::RaceToTheSea {
                assert(self.played_events@[i as int].event.effect == Effect::RaceToTheSea);
                return 1;
            }
            i += 1;
        }
        0
    }

    /// How many dice of an offensive hit.
    pub fn hits_of(&self, offensive: &Offensive, dice: &Vec<u8>) -> (hits: u8)
        requires
            dice@.len() <= u8::MAX,
        ensures
            hits == count_hits(
                dice@,
                self.state@.modifier(
                    *offensive,
                    offensive_bonus(self.played_events@, offensive.from, offensive.to),
                ),
                offensive.from.spec_country().attack_factor as int,
            ),
    {
        let from = offensive.from.country();
        let to = offensive.to.country();
        let bonus: u8 = self.offensive_bonus(offensive.from, offensive.to);
        let attack: u8 = self.state.attack_bonus(&offensive.initiative);
        let defense: u8 = self.state.defense_bonus(&offensive.to.side());
        let plus: u16 = (if attack < from.max_tech_level {
            attack
        } else {
            from.max_tech_level
        }) as u16 + bonus as u16;
        let minus: u16 = (if defense < to.max_tech_level {
            defense
        } else {
            to.max_tech_level
        }) as u16 + from.attack_factor as u16;
        let ghost modifier = self.state@.modifier(*offensive, bonus as int);
        let ghost factor = from.attack_factor as int;
        let ghost pred = |d: u8| d + modifier >= factor;
        let mut hits: u8 = 0;
        let mut i: usize = 0;
        proof {
            lemma_filter_take_ends(dice@, pred);
        }
        while i < dice.len()
            invariant
                i <= dice@.len() <= u8::MAX,
                pred == (|d: u8| d + modifier >= factor),
                plus - minus == modifier - factor,
                plus <= 510,
                hits == dice@.take(i as int).filter(pred).len(),
                hits <= i,
            decreases dice@.len() - i,
        {
            proof {
                lemma_filter_take_step(dice@, pred, i as int);
            }
            if dice[i] as u16 + plus >= minus {
                hits = hits + 1;
            }
            i += 1;
        }
        hits
    }

    /// Resolves an offensive with given dice: those of the attack, and the
    /// one that counts if the defender surrenders.
    pub fn resolve_offensive_with(&mut self, offensive: &Offensive, dice: &Vec<u8>, die: u8) -> (outcome:
        OffensiveOutcome)
        requires
            old(self).wf(),
            dice@.len() <= u8::MAX,
        ensures
            (final(self).state@, outcome) == old(self).state@.offensive(
                *offensive,
                offensive_bonus(old(self).played_events@, offensive.from, offensive.to),
                dice@,
                die,
            ),
            final(self).state.rng == old(self).state.rng,
            final(self).played_events == old(self).played_events,
            final(self).wf(),
    {
        let side = offensive.initiative;
        let held: u8 = self.state.resources_for(&side);
        let level: u8 = self.state.operational_level(&offensive.from);
        proof {
            lemma_offensive(
                self.state@,
                *offensive,
                offensive_bonus(self.played_events@, offensive.from, offensive.to),
                dice@,
                die,
            );
        }
        if offensive.pr > held {
            return OffensiveOutcome::NotEnoughResources(offensive.pr, held);
        }
        if offensive.pr > level {
            return OffensiveOutcome::OperationalLevelTooLow(level, offensive.pr);
        }
        let hits: u8 = self.hits_of(offensive, dice);
        self.state.decrease_pr(side, offensive.pr);
        let result = self.state.apply_hits_with(&offensive.to, hits, die);
        OffensiveOutcome::Hits(result)
    }

    /// Resolves an offensive. The dice of the attack are rolled if the
    /// offensive is fought, and one more if the defender surrenders.
    pub fn resolve_offensive(&mut self, offensive: &Offensive) -> (outcome: OffensiveOutcome)
        requires
            old(self).wf(),
        ensures
            exists|dice: Seq<u8>, die: u8|
                valid_dice(dice) && 1 <= die <= 6 && dice.len() == old(self).state@.dice_of(
                    *offensive,
                ) && #[trigger] old(self).state@.offensive(
                    *offensive,
                    offensive_bonus(old(self).played_events@, offensive.from, offensive.to),
                    dice,
                    die,
                ) == (final(self).state@, outcome),
            !old(self).state@.fights(*offensive) ==> final(self).state.rng == old(self).state.rng,
            final(self).played_events == old(self).played_events,
            final(self).wf(),
            old(self).state@.peace_kept(final(self).state@),
            old(self).state@.technologies_kept(final(self).state@),
            final(self).state@.allies.resources <= old(self).state@.allies.resources,
            final(self).state@.empires.resources <= old(self).state@.empires.resources,
            old(self).state@.only_war_differs(final(self).state@),
    {
        let side = offensive.initiative;
        let from = offensive.from.country();
        let artillery: u8 = self.state.artillery_bonus(&side);
        let extra: u8 = if artillery < from.max_tech_level {
            artillery
        } else {
            from.max_tech_level
        };
        let count: u16 = offensive.pr as u16 + extra as u16;
        let ghost bonus = offensive_bonus(self.played_events@, offensive.from, offensive.to);
        let held: u8 = self.state.resources_for(&side);
        let level: u8 = self.state.operational_level(&offensive.from);
        if offensive.pr > held || offensive.pr > level {
            let ghost ones = Seq::new(count as nat, |i: int| 1u8);
            let none: Vec<u8> = Vec::new();
            let outcome = self.resolve_offensive_with(offensive, &none, 1);
            proof {
                lemma_offensive(old(self).state@, *offensive, bonus, ones, 1);
                assert(old(self).state@.offensive(*offensive, bonus, ones, 1) == (
                    self.state@,
                    outcome,
                ));
            }
            return outcome;
        }
        let mut dice: Vec<u8> = Vec::new();
        let mut i: u16 = 0;
        while i < count
            invariant
                i <= count,
                count <= 24,
                dice@.len() == i,
                valid_dice(dice@),
                self.state@ == old(self).state@,
                self.played_events == old(self).played_events,
            decreases count - i,
        {
            let die: u8 = self.state.roll();
            dice.push(die);
            i += 1;
        }
        let hits: u8 = self.hits_of(offensive, &dice);
        self.state.decrease_pr(side, offensive.pr);
        let ghost paid = self.state@;
        let result = self.state.apply_hits(&offensive.to, hits);
        let outcome = OffensiveOutcome::Hits(result);
        proof {
            let die = choose|die: u8|
                1 <= die <= 6 && #[trigger] paid.apply_hits(offensive.to, hits, die) == (
                    self.state@,
                    result,
                );
            lemma_offensive(old(self).state@, *offensive, bonus, dice@, die);
            assert(old(self).state@.offensive(*offensive, bonus, dice@, die) == (
                self.state@,
                outcome,
            ));
        }
        outcome
    }
}

/// Whether a change is a list of exactly two given changes of resources.
pub open spec fn is_pair(change: StateChange, first: StateChange, second: StateChange) -> bool {
    &&& change is MoreChanges
    &&& change->MoreChanges_0@ == seq![first, second]
}

/// Whether a change is what a roll of the submarines brings: the Allies
/// lose what the table gives, the Empires pay the bonus.
pub open spec fn is_uboot_change(change: StateChange, die: u8, bonus: u8) -> bool {
    is_pair(
        change,
        StateChange::ChangeResources {
            side: Side::Allies,
            pr: (-(spec_uboot_loss(die, bonus) as int)) as i8,
        },
        StateChange::ChangeResources { side: Side::Empires, pr: (-(bonus as int)) as i8 },
    )
}

/// Whether a change is what a roll of the blockade brings: the Empires gain
/// what the table gives, the Allies pay the bonus.
pub open spec fn is_blockade_change(change: StateChange, die: u8, bonus: u8) -> bool {
    is_pair(
        change,
        StateChange::ChangeResources { side: Side::Empires, pr: spec_blockade_gain(die, bonus) as i8 },
        StateChange::ChangeResources { side: Side::Allies, pr: (-(bonus as int)) as i8 },
    )
}

/// What a list of two changes of resources adds up to, and what it does to
/// a state.
pub proof fn lemma_pair(board: Board, change: StateChange, first: StateChange, second: StateChange)
    requires
        is_pair(change, first, second),
    ensures
        change.spec_allies_loss() == first.spec_allies_loss() + second.spec_allies_loss(),
        change.spec_empires_gain() == first.spec_empires_gain() + second.spec_empires_gain(),
        board.apply_change(change) == board.apply_change(first).apply_change(second),
{
    let changes = change->MoreChanges_0@;
    assert(StateChange::allies_loss_of_first(changes, 2) == StateChange::allies_loss_of_first(
        changes,
        1,
    ) + changes[1].spec_allies_loss());
    assert(StateChange::allies_loss_of_first(changes, 1) == StateChange::allies_loss_of_first(
        changes,
        0,
    ) + changes[0].spec_allies_loss());
    assert(StateChange::empires_gain_of_first(changes, 2) == StateChange::empires_gain_of_first(
        changes,
        1,
    ) + changes[1].spec_empires_gain());
    assert(StateChange::empires_gain_of_first(changes, 1) == StateChange::empires_gain_of_first(
        changes,
        0,
    ) + changes[0].spec_empires_gain());
    assert(board.apply_first(changes, 2) == board.apply_first(changes, 1).apply_change(changes[1]));
    assert(board.apply_first(changes, 1) == board.apply_first(changes, 0).apply_change(changes[0]));
}

/// The change that a roll of the submarines brings.
pub fn uboot_change(die: u8, bonus: u8) -> (change: StateChange)
    requires
        bonus <= MAX_RESOURCES,
    ensures
        is_uboot_change(change, die, bonus),
{
    let loss: u8 = uboot_loss(die, bonus);
    let mut changes: Vec<StateChange> = Vec::new();
    changes.push(StateChange::ChangeResources { side: Side::Allies, pr: -(loss as i8) });
    changes.push(StateChange::ChangeResources { side: Side::Empires, pr: -(bonus as i8) });
    proof {
        assert(changes@ =~= seq![
            StateChange::ChangeResources {
                side: Side::Allies,
                pr: (-(spec_uboot_loss(die, bonus) as int)) as i8,
            },
            StateChange::ChangeResources { side: Side::Empires, pr: (-(bonus as int)) as i8 },
        ]);
    }
    StateChange::MoreChanges(changes)
}

/// The change that a roll of the blockade brings.
pub fn blockade_change(die: u8, bonus: u8) -> (change: StateChange)
    requires
        bonus <= MAX_RESOURCES,
    ensures
        is_blockade_change(change, die, bonus),
{
    let gain: u8 = blockade_gain(die, bonus);
    let mut changes: Vec<StateChange> = Vec::new();
    changes.push(StateChange::ChangeResources { side: Side::Empires, pr: gain as i8 });
    changes.push(StateChange::ChangeResources { side: Side::Allies, pr: -(bonus as i8) });
    proof {
        assert(changes@ =~= seq![
            StateChange::ChangeResources {
                side: Side::Empires,
                pr: spec_blockade_gain(die, bonus) as i8,
            },
            StateChange::ChangeResources { side: Side::Allies, pr: (-(bonus as int)) as i8 },
        ]);
    }
    StateChange::MoreChanges(changes)
}

impl GameEngine {
    /// Inflicts hits on a nation. A die is rolled only if the nation
    /// surrenders.
    pub fn apply_hits(&mut self, nation: &Nation, hits: u8) -> (result: HitsResult)
        requires
            old(self).state@.nations.len() == NATION_COUNT,
        ensures
            exists|die: u8|
                1 <= die <= 6 && #[trigger] old(self).state@.apply_hits(*nation, hits, die) == (
                    final(self).state@,
                    result,
                ),
            !old(self).state@.breaks(*nation, hits)
                ==> final(self).state.rng == old(self).state.rng,
            final(self).played_events == old(self).played_events,
            old(self).wf() ==> final(self).wf(),
            old(self).wf() ==> old(self).state@.peace_kept(final(self).state@),
            old(self).wf() ==> old(self).state@.only_war_differs(final(self).state@),
    {
        self.state.apply_hits(nation, hits)
    }

    /// Reinforces a nation at war with resources of its side.
    pub fn reinforce(&mut self, nation: Nation, pr: u8)
        requires
            old(self).wf(),
        ensures
            final(self).state@ == old(self).state@.reinforce(nation, pr),
            final(self).state.rng == old(self).state.rng,
            final(self).played_events == old(self).played_events,
            final(self).wf(),
    {
        self.state.reinforce(nation, pr);
    }

    /// Rolls for the submarines, with a bonus that the Empires pay for: no
    /// more than they hold. The state is left as it is; what the roll
    /// brings is handed back as a change.
    pub fn uboot_losses(&mut self, bonus: u8) -> (change: StateChange)
        requires
            old(self).wf(),
        ensures
            exists|die: u8|
                1 <= die <= 6 && #[trigger] is_uboot_change(
                    change,
                    die,
                    min(bonus as int, old(self).state@.resources(Side::Empires) as int) as u8,
                ),
            final(self).state@ == old(self).state@,
            final(self).played_events == old(self).played_events,
    {
        let held: u8 = self.state.resources_for(&Side::Empires);
        let paid: u8 = if bonus < held {
            bonus
        } else {
            held
        };
        let die: u8 = self.state.roll();
        let change = uboot_change(die, paid);
        proof {
            assert(paid == min(bonus as int, old(self).state@.resources(Side::Empires) as int));
            assert(is_uboot_change(
                change,
                die,
                min(bonus as int, old(self).state@.resources(Side::Empires) as int) as u8,
            ));
        }
        change
    }

    /// Rolls for the blockade, with a bonus that the Allies pay for: no
    /// more than they hold. The state is left as it is; what the roll
    /// brings is handed back as a change.
    pub fn blockade_effect(&mut self, bonus: u8) -> (change: StateChange)
        requires
            old(self).wf(),
        ensures
            exists|die: u8|
                1 <= die <= 6 && #[trigger] is_blockade_change(
                    change,
                    die,
                    min(bonus as int, old(self).state@.resources(Side::Allies) as int) as u8,
                ),
            final(self).state@ == old(self).state@,
            final(self).played_events == old(self).played_events,
    {
        let held: u8 = self.state.resources_for(&Side::Allies);
        let paid: u8 = if bonus < held {
            bonus
        } else {
            held
        };
        let die: u8 = self.state.roll();
        let change = blockade_change(die, paid);
        proof {
            assert(paid == min(bonus as int, old(self).state@.resources(Side::Allies) as int));
            assert(is_blockade_change(
                change,
                die,
                min(bonus as int, old(self).state@.resources(Side::Allies) as int) as u8,
            ));
        }
        change
    }

    /// Begins the next turn. Where a year begins with it, the events that
    /// cannot be drawn any more leave the pool and those of the new year
    /// join it. The events that were active cease to be.
    pub fn new_turn(&mut self)
        requires
            old(self).wf(),
            old(self).state.current_turn <= LAST_TURN,
        ensures
            final(self).state@ == old(self).state@.next_turn(),
            final(self).state.rng == old(self).state.rng,
            final(self).played_events@ == still_active(
                old(self).played_events@,
                final(self).state.current_turn,
            ),
            final(self).wf(),
    {
        proof {
            lemma_next_turn(self.state@);
        }
        let year: u16 = self.state.current_year();
        self.state.current_turn = self.state.current_turn + 1;
        let turn: u8 = self.state.current_turn;
        let next_year: u16 = if turn <= LAST_TURN {
            self.state.current_year()
        } else {
            year
        };
        if next_year != year {
            proof {
                lemma_years_follow_turns(old(self).state.current_turn);
            }
            self.state.new_year(year, next_year);
        }
        let ghost keep = |a: ActiveEvent| !a.spec_deactivation(turn);
        let mut active: Vec<ActiveEvent> = Vec::new();
        let mut i: usize = 0;
        proof {
            lemma_filter_take_ends(self.played_events@, keep);
        }
        while i < self.played_events.len()
            invariant
                i <= self.played_events@.len(),
                self.played_events == old(self).played_events,
                self.state@ == old(self).state@.next_turn(),
                self.state.rng == old(self).state.rng,
                keep == (|a: ActiveEvent| !a.spec_deactivation(turn)),
                active@ == self.played_events@.take(i as int).filter(keep),
            decreases self.played_events@.len() - i,
        {
            proof {
                lemma_filter_take_step(self.played_events@, keep, i as int);
            }
            let event = self.played_events[i];
            if !event.deactivation(turn) {
                active.push(event);
            }
            i += 1;
        }
        self.played_events = active;
    }

    /// Plays an event. A nation that enters the war stands at its initial
    /// breakdown; resources are given or taken; the race to the sea
    /// becomes active. The Schlieffen plan, whose offensive is not played
    /// here, and the events without effect leave all as it is.
    pub fn play_events(&mut self, event: &Event)
        requires
            old(self).wf(),
        ensures
            final(self).state@ == old(self).state@.play(*event),
            final(self).state.rng == old(self).state.rng,
            final(self).played_events@ == activated(
                old(self).played_events@,
                *event,
                old(self).state.current_turn,
            ),
            final(self).wf(),
            old(self).state@.technologies_kept(final(self).state@),
            match event.effect {
                Effect::EntersWar(nation) => old(self).state@.peace_kept_but_for(
                    final(self).state@,
                    nation,
                ),
                _ => old(self).state@.peace_kept(final(self).state@),
            },
    {
        proof {
            lemma_play(self.state@, *event);
        }
        match event.effect {
            Effect::EntersWar(nation) => {
                self.state.nations[nation.index()] = NationState::AtWar(
                    nation.country().initial_breakdown,
                );
            },
            Effect::Resources(side, pr) => {
                self.state.apply_change(&StateChange::ChangeResources { side, pr });
            },
            Effect::RaceToTheSea => {
                self.played_events.push(
                    ActiveEvent { event: *event, since_turn: self.state.current_turn },
                );
            },
            _ => {},
        }
    }
}

/// Two states with the same nations tally the same.
pub proof fn lemma_same_tally(a: Board, b: Board, side: Side, count: nat)
    requires
        a.nations == b.nations,
    ensures
        a.tally_of_first(side, count) == b.tally_of_first(side, count),
    decreases count,
{
    if count > 0 {
        lemma_same_tally(a, b, side, (count - 1) as nat);
    }
}

} // verus!
