//! Builders that set up an engine and its players in a chosen situation.

use vstd::prelude::*;
use crate::state::{lemma_with_nation, lemma_with_war};
use crate::engine::GameEngine;
use crate::io::{Input, Message, Players, PlayersView};
use crate::side::{Nation, NationState, Side};
use crate::state::{ActiveEvent, Board, GameState, WarState, FINAL_TURN, MAX_RESOURCES};
use crate::tech::Technologies;

verus! {

/// Builds an engine from the state of a new game, changed piece by piece.
pub struct EngineBuilder {
    pub state: GameState,
}

impl EngineBuilder {
    /// Whether the state built so far is well formed.
    pub open spec fn wf(&self) -> bool {
        self.state@.wf()
    }

    /// Starts from a new game.
    pub fn new(seed: u64) -> (builder: EngineBuilder)
        ensures
            builder.state@ == Board::initial(seed),
            builder.wf(),
    {
        EngineBuilder { state: GameState::new(seed) }
    }

    /// Gives a side the resources it holds.
    pub fn with_resources(self, side: Side, resources: u8) -> (builder: EngineBuilder)
        requires
            self.wf(),
            resources <= MAX_RESOURCES,
        ensures
            builder.state@ == self.state@.with_resources(side, resources),
            builder.state.rng == self.state.rng,
            builder.wf(),
    {
        let mut state = self.state;
        proof {
            lemma_with_war(state@, side, WarState { resources, ..state@.war(side) });
        }
        match side {
            Side::Allies => {
                state.allies.resources = resources;
            },
            Side::Empires => {
                state.empires.resources = resources;
            },
        }
        EngineBuilder { state }
    }

    /// Puts a nation in a state. A nation at war must not stand above its
    /// highest breakdown.
    pub fn with_nation(self, nation: Nation, status: NationState) -> (builder: EngineBuilder)
        requires
            self.wf(),
            status.spec_breakdown_level() <= nation.spec_maximum_breakdown(),
        ensures
            builder.state@ == self.state@.with_nation(nation, status),
            builder.state.rng == self.state.rng,
            builder.wf(),
    {
        let mut state = self.state;
        proof {
            lemma_with_nation(state@, nation, status);
        }
        state.nations[nation.index()] = status;
        EngineBuilder { state }
    }

    /// Gives a side the technologies it masters.
    pub fn with_technologies(self, side: Side, technologies: Technologies) -> (builder:
        EngineBuilder)
        requires
            self.wf(),
            technologies.wf(),
        ensures
            builder.state@ == self.state@.with_war(
                side,
                WarState { technologies, ..self.state@.war(side) },
            ),
            builder.state.rng == self.state.rng,
            builder.wf(),
    {
        let mut state = self.state;
        proof {
            lemma_with_war(state@, side, WarState { technologies, ..state@.war(side) });
        }
        match side {
            Side::Allies => {
                state.allies.technologies = technologies;
            },
            Side::Empires => {
                state.empires.technologies = technologies;
            },
        }
        EngineBuilder { state }
    }

    /// Gives a side the initiative.
    pub fn with_initiative(self, initiative: Side) -> (builder: EngineBuilder)
        requires
            self.wf(),
        ensures
            builder.state@ == (Board { initiative, ..self.state@ }),
            builder.state.rng == self.state.rng,
            builder.wf(),
    {
        let mut state = self.state;
        state.initiative = initiative;
        proof {
            assert(forall|n: Nation| state@.nation(n) == self.state@.nation(n));
        }
        EngineBuilder { state }
    }

    /// Moves the game to a turn that is not earlier than the one it is at.
    /// The pool is left as it is.
    pub fn on_turn(self, turn: u8) -> (builder: EngineBuilder)
        requires
            self.wf(),
            self.state.current_turn <= turn <= FINAL_TURN,
        ensures
            builder.state@ == (Board { current_turn: turn, ..self.state@ }),
            builder.state.rng == self.state.rng,
            builder.wf(),
    {
        let mut state = self.state;
        state.current_turn = turn;
        proof {
            assert(forall|n: Nation| state@.nation(n) == self.state@.nation(n));
        }
        EngineBuilder { state }
    }

    /// The engine, with no event active.
    pub fn build(self) -> (engine: GameEngine)
        requires
            self.wf(),
        ensures
            engine.state@ == self.state@,
            engine.state.rng == self.state.rng,
            engine.played_events@ == Seq::<ActiveEvent>::empty(),
            engine.wf(),
    {
        GameEngine { state: self.state, played_events: Vec::new() }
    }
}

/// Builds the two players, each with the decisions written for it.
pub struct PlayersBuilder {
    pub allies_input: Vec<Input>,
    pub empires_input: Vec<Input>,
}

impl PlayersBuilder {
    /// Starts with two empty scripts.
    pub fn new() -> (builder: PlayersBuilder)
        ensures
            builder.allies_input@ == Seq::<Input>::empty(),
            builder.empires_input@ == Seq::<Input>::empty(),
    {
        PlayersBuilder { allies_input: Vec::new(), empires_input: Vec::new() }
    }

    /// Writes one more decision at the end of the script of a side.
    pub fn with_input(self, side: Side, input: Input) -> (builder: PlayersBuilder)
        ensures
            builder.allies_input@ == if side == Side::Allies {
                self.allies_input@.push(input)
            } else {
                self.allies_input@
            },
            builder.empires_input@ == if side == Side::Empires {
                self.empires_input@.push(input)
            } else {
                self.empires_input@
            },
    {
        let mut allies_input = self.allies_input;
        let mut empires_input = self.empires_input;
        match side {
            Side::Allies => {
                allies_input.push(input);
            },
            Side::Empires => {
                empires_input.push(input);
            },
        }
        PlayersBuilder { allies_input, empires_input }
    }

    /// The players, which have been shown nothing yet.
    pub fn build(self) -> (players: Players)
        ensures
            players@ == (PlayersView {
                allies: crate::io::PlayerView {
                    side: Side::Allies,
                    script: self.allies_input@,
                    out: Seq::<Message>::empty(),
                },
                empires: crate::io::PlayerView {
                    side: Side::Empires,
                    script: self.empires_input@,
                    out: Seq::<Message>::empty(),
                },
            }),
    {
        crate::turn::initialise_players(self.allies_input, self.empires_input)
    }
}

} // verus!
