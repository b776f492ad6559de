//! The phase in which events are drawn and applied.

use vstd::prelude::*;
use crate::engine::{activated, lemma_play, offensive_bonus, valid_dice, GameEngine};
use crate::event::{Effect, Event};
use crate::io::{Message, Output, Players, Reply};
use crate::offensives::Roll;
use crate::pool::{draw, lemma_drawn_from_pool, valid_picks, EVENTS_PER_TURN};
use crate::side::{Nation, Side};
use crate::state::{min, ActiveEvent, Board, Offensive, Phase};
use crate::turn::{
    lemma_goes_on_reflexive, lemma_goes_on_transitive, lemma_steps_go_on, same_turn, table, Table,
};

verus! {

/// Whether no nation has joined the war from `earlier` to `later` but the
/// one that an event brings in, if it brings in one.
pub open spec fn joins_only_by(earlier: Board, later: Board, event: Event) -> bool {
    forall|n: Nation|
        !earlier.at_war(n) && #[trigger] later.at_war(n) ==> event.effect == Effect::EntersWar(n)
}

/// Whether no nation has joined the war from `earlier` to `later` but
/// those that an event of a pool brings in.
pub open spec fn joins_only_from(earlier: Board, later: Board, pool: Seq<Event>) -> bool {
    forall|n: Nation|
        !earlier.at_war(n) && #[trigger] later.at_war(n) ==> exists|i: int|
            0 <= i < pool.len() && (#[trigger] pool[i]).effect == Effect::EntersWar(n)
}

/// The offensive of the Schlieffen plan: Germany attacks France with 2
/// resources.
pub open spec fn spec_schlieffen_offensive() -> Offensive {
    Offensive { initiative: Side::Empires, from: Nation::Germany, to: Nation::France, pr: 2 }
}

/// Whether a roll is one that an event can meet with: every die shows 1 to
/// 6, and for the Schlieffen plan the attack has as many dice as its
/// offensive rolls once the Empires have received their 2 resources.
pub open spec fn event_roll_fits(board: Board, event: Event, roll: Roll) -> bool {
    &&& valid_dice(roll.dice)
    &&& 1 <= roll.die <= 6
    &&& event.effect == Effect::SchlieffenPlan ==> roll.dice.len() == board.increase_pr(
        Side::Empires,
        2,
    ).dice_of(spec_schlieffen_offensive())
}

/// What comes of an event that is applied: the state, the active events,
/// and the message to show. The Schlieffen plan gives the Empires 2
/// resources, then launches its offensive, whose outcome is the message.
/// Every other event is played by the engine, and there is no message.
pub open spec fn event_decision(
    board: Board,
    active: Seq<ActiveEvent>,
    event: Event,
    roll: Roll,
) -> (Board, Seq<ActiveEvent>, Option<Message>) {
    if event.effect == Effect::SchlieffenPlan {
        let (after, result) = board.increase_pr(Side::Empires, 2).offensive(
            spec_schlieffen_offensive(),
            offensive_bonus(active, Nation::Germany, Nation::France),
            roll.dice,
            roll.die,
        );
        (
            after,
            active,
            Some(Message::OffensiveResult { from: Nation::Germany, to: Nation::France, result }),
        )
    } else {
        (board.play(event), activated(active, event, board.current_turn), None)
    }
}

/// The game after an event was applied: both players are shown the
/// message, if there is one.
pub open spec fn apply_decision(t: Table, event: Event, roll: Roll) -> Table {
    let (board, active, message) = event_decision(t.board, t.active, event, roll);
    Table {
        board,
        active,
        players: match message {
            Some(m) => t.players.shown(m),
            None => t.players,
        },
    }
}

/// Whether applying an event leads from one game to another, with some
/// roll.
pub open spec fn applies(event: Event, before: Table, after: Table) -> bool {
    exists|roll: Roll|
        event_roll_fits(before.board, event, roll) && #[trigger] apply_decision(
            before,
            event,
            roll,
        ) == after
}

impl GameEngine {
    /// Applies an event that was drawn. Dice are rolled only for the
    /// offensive of the Schlieffen plan.
    pub fn apply(&mut self, event: &Event) -> (reply: Reply)
        requires
            old(self).wf(),
        ensures
            exists|roll: Roll|
                event_roll_fits(old(self).state@, *event, roll) && #[trigger] event_decision(
                    old(self).state@,
                    old(self).played_events@,
                    *event,
                    roll,
                ) == (final(self).state@, final(self).played_events@, reply.shown()),
            event.effect != Effect::SchlieffenPlan ==> final(self).state.rng == old(self).state.rng,
            !reply.over,
            final(self).wf(),
            same_turn(old(self).state@, final(self).state@),
            joins_only_by(old(self).state@, final(self).state@, *event),
            final(self).state@.allies.technologies == old(self).state@.allies.technologies,
            final(self).state@.empires.technologies == old(self).state@.empires.technologies,
            final(self).state@.events_pool == old(self).state@.events_pool,
            final(self).state@.phase == old(self).state@.phase,
            old(self).played_events@.is_prefix_of(final(self).played_events@),
    {
        let ghost board = self.state@;
        let ghost active = self.played_events@;
        match event.effect {
            Effect::SchlieffenPlan => {
                let offensive = Offensive {
                    initiative: Side::Empires,
                    from: Nation::Germany,
                    to: Nation::France,
                    pr: 2,
                };
                self.increase_pr(Side::Empires, 2);
                let ghost raised = self.state@;
                let ghost bonus = offensive_bonus(active, Nation::Germany, Nation::France);
                let result = self.resolve_offensive(&offensive);
                proof {
                    assert(forall|n: Nation| raised.nation(n) == board.nation(n));
                    let (dice, die) = choose|dice: Seq<u8>, die: u8|
                        valid_dice(dice) && 1 <= die <= 6 && dice.len() == raised.dice_of(
                            offensive,
                        ) && #[trigger] raised.offensive(offensive, bonus, dice, die) == (
                            self.state@,
                            result,
                        );
                    let roll = Roll { dice, die };
                    assert(event_roll_fits(board, *event, roll));
                    assert(event_decision(board, active, *event, roll) == (
                        self.state@,
                        self.played_events@,
                        Some(
                            Message::OffensiveResult {
                                from: Nation::Germany,
                                to: Nation::France,
                                result,
                            },
                        ),
                    ));
                }
                Reply {
                    message: Some(
                        Output::OffensiveResult { from: Nation::Germany, to: Nation::France, result },
                    ),
                    over: false,
                }
            },
            _ => {
                proof {
                    lemma_play(self.state@, *event);
                }
                self.play_events(event);
                proof {
                    let roll = Roll { dice: Seq::empty(), die: 1 };
                    assert(event_roll_fits(board, *event, roll));
                    assert(event_decision(board, active, *event, roll) == (
                        self.state@,
                        self.played_events@,
                        None::<Message>,
                    ));
                }
                Reply { message: None, over: false }
            },
        }
    }
}

/// Applies an event that was drawn. The Schlieffen plan gives the Empires
/// 2 resources, then launches its offensive, of which both players are
/// told. Every other event is played by the engine.
pub fn apply_event(players: &mut Players, game_engine: &mut GameEngine, event: &Event)
    requires
        old(game_engine).wf(),
    ensures
        applies(
            *event,
            table(*old(game_engine), *old(players)),
            table(*final(game_engine), *final(players)),
        ),
        event.effect != Effect::SchlieffenPlan 
            ==> final(game_engine).state.rng == old(game_engine).state.rng,
        same_turn(old(game_engine).state@, final(game_engine).state@),
        joins_only_by(old(game_engine).state@, final(game_engine).state@, *event),
        final(game_engine).state@.allies.technologies == old(game_engine).state@.allies.technologies,
        final(game_engine).state@.empires.technologies
            == old(game_engine).state@.empires.technologies,
        final(game_engine).state@.events_pool == old(game_engine).state@.events_pool,
        final(game_engine).state@.phase == old(game_engine).state@.phase,
        old(game_engine).played_events@.is_prefix_of(final(game_engine).played_events@),
        old(players)@.goes_on_to(final(players)@),
{
    let ghost start = table(*game_engine, *players);
    proof {
        lemma_goes_on_reflexive(players@);
    }
    let reply = game_engine.apply(event);
    match reply.message {
        Some(message) => {
            proof {
                lemma_steps_go_on(players@, Side::Allies, message@);
            }
            players.output(&message);
        },
        None => {},
    }
    proof {
        let roll = choose|roll: Roll|
            event_roll_fits(start.board, *event, roll) && #[trigger] event_decision(
                start.board,
                start.active,
                *event,
                roll,
            ) == (game_engine.state@, game_engine.played_events@, reply.shown());
        assert(apply_decision(start, *event, roll) == table(*game_engine, *players));
    }
}

/// One round of the phase of the events: both players are told of an
/// event, and the event is applied.
pub open spec fn drawn_step(t: Table, event: Event, roll: Roll) -> Table {
    apply_decision(
        t.with_players(t.players.shown(Message::EventDrawn(event.event_id, event.title@))),
        event,
        roll,
    )
}

/// The phase of the events after as many of the events drawn were
/// applied, in their order, as there are rolls, each with its roll.
pub open spec fn drawn_run(start: Table, events: Seq<Event>, rolls: Seq<Roll>) -> Table
    decreases rolls.len(),
{
    if rolls.len() == 0 || rolls.len() > events.len() {
        start
    } else {
        drawn_step(
            drawn_run(start, events, rolls.drop_last()),
            events[rolls.len() - 1],
            rolls.last(),
        )
    }
}

/// Whether each roll of a list is one that its event can meet with.
pub open spec fn drawn_rolls_fit(start: Table, events: Seq<Event>, rolls: Seq<Roll>) -> bool
    decreases rolls.len(),
{
    rolls.len() == 0 || (rolls.len() <= events.len() && drawn_rolls_fit(
        start,
        events,
        rolls.drop_last(),
    ) && event_roll_fits(
        drawn_run(start, events, rolls.drop_last()).board,
        events[rolls.len() - 1],
        rolls.last(),
    ))
}

/// Whether the phase of the events leads from one game to another with
/// given picks and rolls: the events are drawn at the places picked, up
/// to 3 of them, and applied one after the other, each with its roll.
pub open spec fn draws_by(before: Table, after: Table, picks: Seq<int>, rolls: Seq<Roll>) -> bool {
    let pool = before.board.events_pool;
    let start = before.with_board(
        Board { events_pool: draw(pool, picks).0, ..before.board.in_phase(Phase::DrawEvents) },
    );
    &&& picks.len() == min(EVENTS_PER_TURN as int, pool.len() as int)
    &&& valid_picks(pool.len(), picks)
    &&& rolls.len() == picks.len()
    &&& drawn_rolls_fit(start, draw(pool, picks).1, rolls)
    &&& after == drawn_run(start, draw(pool, picks).1, rolls)
}

/// Whether the phase of the events leads from one game to another, with
/// some picks and some rolls.
pub open spec fn draws(before: Table, after: Table) -> bool {
    exists|picks: Seq<int>, rolls: Seq<Roll>| #[trigger] draws_by(before, after, picks, rolls)
}

/// The phase in which events are drawn: up to 3 of them. Both players
/// are told of each event, and each is applied before the next is told.
/// Nothing is asked of chance where the pool is empty.
pub fn draw_events(players: &mut Players, game_engine: &mut GameEngine)
    requires
        old(game_engine).wf(),
    ensures
        draws(table(*old(game_engine), *old(players)), table(*final(game_engine), *final(players))),
        old(game_engine).state@.events_pool.len() == 0
            ==> final(game_engine).state.rng == old(game_engine).state.rng,
        same_turn(old(game_engine).state@, final(game_engine).state@),
        final(game_engine).state@.phase == Phase::DrawEvents,
        joins_only_from(
            old(game_engine).state@,
            final(game_engine).state@,
            old(game_engine).state@.events_pool,
        ),
        final(game_engine).state@.allies.technologies == old(game_engine).state@.allies.technologies,
        final(game_engine).state@.empires.technologies
            == old(game_engine).state@.empires.technologies,
        old(game_engine).played_events@.is_prefix_of(final(game_engine).played_events@),
        old(players)@.goes_on_to(final(players)@),
{
    game_engine.set_phase(Phase::DrawEvents);
    let ghost waiting = game_engine.state@;
    let events = game_engine.draw_events();
    let ghost start = table(*game_engine, *players);
    let ghost picks = choose|picks: Seq<int>|
        picks.len() == min(EVENTS_PER_TURN as int, waiting.events_pool.len() as int)
            && valid_picks(waiting.events_pool.len(), picks) && #[trigger] draw(
            waiting.events_pool,
            picks,
        ) == (game_engine.state@.events_pool, events@);
    proof {
        lemma_drawn_from_pool(waiting.events_pool, picks);
        lemma_goes_on_reflexive(players@);
        assert(forall|n: Nation| start.board.nation(n) == old(game_engine).state@.nation(n));
    }
    let ghost mut rolls: Seq<Roll> = Seq::empty();
    let mut i: usize = 0;
    while i < events.len()
        invariant
            i <= events@.len(),
            rolls.len() == i,
            events@.len() == 0 ==> game_engine.state.rng == old(game_engine).state.rng,
            game_engine.wf(),
            drawn_rolls_fit(start, events@, rolls),
            drawn_run(start, events@, rolls) == table(*game_engine, *players),
            same_turn(old(game_engine).state@, game_engine.state@),
            game_engine.state@.phase == Phase::DrawEvents,
            forall|k: int|
                0 <= k < events@.len() ==> old(game_engine).state@.events_pool.contains(
                    #[trigger] events@[k],
                ),
            joins_only_from(
                old(game_engine).state@,
                game_engine.state@,
                old(game_engine).state@.events_pool,
            ),
            game_engine.state@.allies.technologies == old(game_engine).state@.allies.technologies,
            game_engine.state@.empires.technologies
                == old(game_engine).state@.empires.technologies,
            old(game_engine).played_events@.is_prefix_of(game_engine.played_events@),
            old(players)@.goes_on_to(players@),
        decreases events@.len() - i,
    {
        let event = events[i];
        let ghost before = table(*game_engine, *players);
        let message = Output::EventDrawn(event.event_id, event.title.to_owned());
        proof {
            lemma_steps_go_on(players@, Side::Allies, message@);
        }
        players.output(&message);
        let ghost told = table(*game_engine, *players);
        proof {
            lemma_goes_on_transitive(old(players)@, before.players, told.players);
        }
        apply_event(players, game_engine, &event);
        proof {
            lemma_goes_on_transitive(old(players)@, told.players, players@);
            let pool = old(game_engine).state@.events_pool;
            assert(pool.contains(events@[i as int]));
            let at = choose|at: int| 0 <= at < pool.len() && pool[at] == event;
            assert forall|n: Nation|
                !old(game_engine).state@.at_war(n) && #[trigger] game_engine.state@.at_war(
                    n,
                ) implies exists|j: int|
                0 <= j < pool.len() && (#[trigger] pool[j]).effect == Effect::EntersWar(n) by {
                if !before.board.at_war(n) {
                    assert(event.effect == Effect::EntersWar(n));
                    assert(pool[at].effect == Effect::EntersWar(n));
                }
            }
            let roll = choose|roll: Roll|
                event_roll_fits(told.board, event, roll) && #[trigger] apply_decision(
                    told,
                    event,
                    roll,
                ) == table(*game_engine, *players);
            let more = rolls.push(roll);
            assert(more.drop_last() =~= rolls);
            assert(drawn_run(start, events@, more) == drawn_step(before, event, roll));
            rolls = more;
        }
        i += 1;
    }
    proof {
        assert(start == table(*old(game_engine), *old(players)).with_board(
            Board {
                events_pool: draw(old(game_engine).state@.events_pool, picks).0,
                ..old(game_engine).state@.in_phase(Phase::DrawEvents)
            },
        ));
        assert(draws_by(
            table(*old(game_engine), *old(players)),
            table(*game_engine, *players),
            picks,
            rolls,
        ));
    }
}

} // verus!
