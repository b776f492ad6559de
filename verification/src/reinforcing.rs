//! The phase in which a side reinforces its nations.

use vstd::prelude::*;
use crate::combat::lemma_reinforce;
use crate::engine::GameEngine;
use crate::io::{Input, Message, Output, PlayerView, Players, Reply};
use crate::side::Side;
use crate::state::{Board, Phase};
use crate::turn::{
    lemma_goes_on_reflexive, lemma_goes_on_transitive, lemma_peace_kept_transitive,
    lemma_steps_go_on, same_turn, table, Table,
};

verus! {

/// What comes of a decision in the phase of the reinforcements: the state,
/// and whether the phase is over. A reinforcement is carried out, a pass
/// ends the phase, and any other decision changes nothing.
pub open spec fn reinforce_decision(board: Board, input: Input) -> (Board, bool) {
    match input {
        Input::Reinforce(nation, pr) => (board.reinforce(nation, pr), false),
        Input::Pass => (board, true),
        _ => (board, false),
    }
}

/// Where the phase of the reinforcements stands: the state, the player of
/// the side, and whether the phase is over.
pub struct Levy {
    pub board: Board,
    pub player: PlayerView,
    pub over: bool,
}

/// What is left to wait for in the phase of the reinforcements: the
/// decisions of the script, and the end of the phase.
pub open spec fn levy_measure(s: Levy) -> nat {
    s.player.script.len() + if s.over {
        0nat
    } else {
        1nat
    }
}

/// The phase of the reinforcements from a point to its end. As long as
/// the side holds resources the player is asked for a decision, until it
/// passes.
pub open spec fn reinforce_all(s: Levy, side: Side) -> Levy
    decreases levy_measure(s),
{
    if s.over || s.board.resources(side) == 0 {
        s
    } else {
        let shown = s.player.shown(Message::ReinforceNations);
        let (board, over) = reinforce_decision(s.board, shown.next_input());
        reinforce_all(Levy { board, player: shown.asked(), over }, side)
    }
}

impl GameEngine {
    /// Answers a decision in the phase of the reinforcements.
    pub fn reinforce_on(&mut self, input: Input) -> (reply: Reply)
        requires
            old(self).wf(),
        ensures
            (final(self).state@, reply.over) == reinforce_decision(old(self).state@, input),
            reply.message is None,
            final(self).state.rng == old(self).state.rng,
            final(self).played_events == old(self).played_events,
            final(self).wf(),
    {
        match input {
            Input::Reinforce(nation, pr) => {
                self.reinforce(nation, pr);
                Reply { message: None, over: false }
            },
            Input::Pass => Reply { message: None, over: true },
            _ => Reply { message: None, over: false },
        }
    }
}

/// Whether the phase of the reinforcements of a side leads from one game
/// to another: the state and the player of the side are those that the
/// phase ends with, and the other player and the active events are as
/// they were.
pub open spec fn levies(side: Side, before: Table, after: Table) -> bool {
    let end = reinforce_all(
        Levy {
            board: before.board.in_phase(Phase::Reinforcements(side)),
            player: before.players.player(side),
            over: false,
        },
        side,
    );
    &&& after.board == end.board
    &&& after.players.player(side) == end.player
    &&& after.players.player(side.spec_other()) == before.players.player(side.spec_other())
    &&& after.active == before.active
}

/// The phase in which a side reinforces its nations. As long as the side
/// holds resources, the player names a nation and a budget, until it
/// passes. Any other decision is passed over. No die is rolled.
pub fn reinforcements(initiative: Side, players: &mut Players, game_engine: &mut GameEngine)
    requires
        old(game_engine).wf(),
    ensures
        levies(
            initiative,
            table(*old(game_engine), *old(players)),
            table(*final(game_engine), *final(players)),
        ),
        final(game_engine).state.rng == old(game_engine).state.rng,
        final(players)@.player(initiative.spec_other()) == old(players)@.player(
            initiative.spec_other(),
        ),
        final(game_engine).played_events == old(game_engine).played_events,
        same_turn(old(game_engine).state@, final(game_engine).state@),
        (Board { phase: Phase::Reinforcements(initiative), ..old(game_engine).state@ })
            .only_war_differs(final(game_engine).state@),
        old(game_engine).state@.peace_kept(final(game_engine).state@),
        final(game_engine).state@.winner == old(game_engine).state@.winner,
        final(game_engine).state@.allies.technologies == old(game_engine).state@.allies.technologies,
        final(game_engine).state@.empires.technologies
            == old(game_engine).state@.empires.technologies,
        final(game_engine).state@.allies.vp == old(game_engine).state@.allies.vp,
        final(game_engine).state@.empires.vp == old(game_engine).state@.empires.vp,
        final(game_engine).state@.allies.resources <= old(game_engine).state@.allies.resources,
        final(game_engine).state@.empires.resources <= old(game_engine).state@.empires.resources,
        old(players)@.goes_on_to(final(players)@),
{
    game_engine.set_phase(Phase::Reinforcements(initiative));
    let ghost start = Levy {
        board: game_engine.state@,
        player: players@.player(initiative),
        over: false,
    };
    proof {
        lemma_goes_on_reflexive(players@);
    }
    let mut over: bool = false;
    while game_engine.state.resources_for(&initiative) > 0 && !over
        invariant
            game_engine.wf(),
            game_engine.state.rng == old(game_engine).state.rng,
            reinforce_all(start, initiative) == reinforce_all(
                Levy { board: game_engine.state@, player: players@.player(initiative), over },
                initiative,
            ),
            game_engine.played_events == old(game_engine).played_events,
            players@.player(initiative.spec_other()) == old(players)@.player(
                initiative.spec_other(),
            ),
            same_turn(old(game_engine).state@, game_engine.state@),
            (Board { phase: Phase::Reinforcements(initiative), ..old(game_engine).state@ })
                .only_war_differs(game_engine.state@),
            old(game_engine).state@.peace_kept(game_engine.state@),
            game_engine.state@.winner == old(game_engine).state@.winner,
            game_engine.state@.allies.technologies == old(game_engine).state@.allies.technologies,
            game_engine.state@.empires.technologies
                == old(game_engine).state@.empires.technologies,
            game_engine.state@.allies.vp == old(game_engine).state@.allies.vp,
            game_engine.state@.empires.vp == old(game_engine).state@.empires.vp,
            game_engine.state@.allies.resources <= old(game_engine).state@.allies.resources,
            game_engine.state@.empires.resources <= old(game_engine).state@.empires.resources,
            old(players)@.goes_on_to(players@),
        decreases players@.player(initiative).script.len() + if over { 0int } else { 1int },
    {
        let ghost before = Levy {
            board: game_engine.state@,
            player: players@.player(initiative),
            over,
        };
        let ghost first = players@;
        proof {
            lemma_steps_go_on(first, initiative, Message::ReinforceNations);
        }
        players.output_to(initiative, Output::ReinforceNations);
        let ghost second = players@;
        proof {
            lemma_steps_go_on(second, initiative, Message::ReinforceNations);
            lemma_goes_on_transitive(old(players)@, first, second);
        }
        let input = players.input_from(initiative);
        proof {
            lemma_goes_on_transitive(old(players)@, second, players@);
            match input {
                Input::Reinforce(nation, pr) => {
                    lemma_reinforce(game_engine.state@, nation, pr);
                },
                _ => {},
            }
        }
        let ghost board = game_engine.state@;
        let reply = game_engine.reinforce_on(input);
        over = reply.over;
        proof {
            lemma_peace_kept_transitive(old(game_engine).state@, board, game_engine.state@);
        }
    }
}

} // verus!
