//! Rules engine of *Der des Ders*, a two-player strategic game of the First
//! World War: the state of a game, the static tables of nations, technologies
//! and events, and the resolution of every phase of a turn.

pub mod change;
pub mod combat;
pub mod command;
pub mod dice;
pub mod drawing;
pub mod engine;
pub mod event;
pub mod fixtures;
pub mod io;
pub mod laws;
pub mod offensives;
pub mod pool;
pub mod reinforcing;
pub mod research;
pub mod sea;
pub mod sequences;
pub mod side;
pub mod state;
pub mod survey;
pub mod tech;
pub mod turn;

pub use drawing::{apply_event, draw_events};
pub use engine::GameEngine;
pub use event::{all_events, Effect, Event};
pub use fixtures::{EngineBuilder, PlayersBuilder};
pub use io::{Input, Output, Players, Reply, RobotIO};
pub use offensives::launch_offensives;
pub use reinforcing::reinforcements;
pub use research::improve_technologies;
pub use sea::{apply_hits, blocus, sea_control, uboot};
pub use side::{operational_level, Country, Nation, NationState, Side};
pub use state::{
    ActiveEvent, GameState, HitsResult, Offensive, OffensiveOutcome, Phase, StateChange,
    TechnologyImprovement, WarState,
};
pub use tech::{
    all_technology_types, initial_technologies, technology, zero_technologies, Technologies,
    Technology, TechnologyType,
};
pub use turn::{
    collect_resources, determine_initiative, initialise_players, notify_turn, run_player_turn,
    run_turn,
};
