//! The course of a turn: what is asked of the players, phase after phase,
//! and what their answers lead to.

use vstd::prelude::*;
use crate::drawing::{draw_events, draws, joins_only_from};
use crate::engine::{lemma_bid, lemma_collect, lemma_next_turn, still_active, GameEngine};
use crate::event::{Effect, LAST_TURN};
use crate::io::{Input, Message, Output, Players, PlayersView, RobotIO};
use crate::offensives::{campaigns, launch_offensives};
use crate::reinforcing::{levies, reinforcements};
use crate::research::{improve_technologies, researches};
use crate::sea::{fights_at_sea, sea_control};
use crate::side::{Nation, Side};
use crate::state::{Board, Phase};

verus! {

/// A game as the proofs see it: the state, the events that are active, and
/// the two players.
pub struct Table {
    pub board: Board,
    pub active: Seq<crate::state::ActiveEvent>,
    pub players: PlayersView,
}

/// The game that an engine and its players make up.
pub open spec fn table(engine: GameEngine, players: Players) -> Table {
    Table { board: engine.state@, active: engine.played_events@, players: players@ }
}

impl Table {
    /// The game with another state.
    pub open spec fn with_board(self, board: Board) -> Table {
        Table { board, ..self }
    }

    /// The game with other players.
    pub open spec fn with_players(self, players: PlayersView) -> Table {
        Table { players, ..self }
    }
}

/// Whether a game that stood at `earlier` can stand at `later` after some
/// phases of one turn: the state is well formed, the turn is the same, no
/// technology has gone down, and nothing has changed but the phase, the
/// initiative, the winner, the nations, what the sides hold and the pool.
pub open spec fn same_turn(earlier: Board, later: Board) -> bool {
    &&& later.wf()
    &&& earlier.technologies_kept(later)
    &&& later == (Board {
        phase: later.phase,
        initiative: later.initiative,
        winner: later.winner,
        nations: later.nations,
        allies: later.allies,
        empires: later.empires,
        events_pool: later.events_pool,
        ..earlier
    })
}

/// The players go on from where they are to where they are.
pub proof fn lemma_goes_on_reflexive(players: PlayersView)
    ensures
        players.goes_on_to(players),
{
    assert(players.allies.out.is_prefix_of(players.allies.out));
    assert(players.allies.script.is_suffix_of(players.allies.script)) by {
        assert(players.allies.script.skip(0) =~= players.allies.script);
    }
    assert(players.empires.script.is_suffix_of(players.empires.script)) by {
        assert(players.empires.script.skip(0) =~= players.empires.script);
    }
}

/// Where the players go on from a first point to a second, and from the
/// second to a third, they go on from the first to the third.
pub proof fn lemma_goes_on_transitive(a: PlayersView, b: PlayersView, c: PlayersView)
    requires
        a.goes_on_to(b),
        b.goes_on_to(c),
    ensures
        a.goes_on_to(c),
{
    lemma_suffix_transitive(c.allies.script, b.allies.script, a.allies.script);
    lemma_suffix_transitive(c.empires.script, b.empires.script, a.empires.script);
}

/// The end of an end of a script is an end of the script.
pub proof fn lemma_suffix_transitive(a: Seq<Input>, b: Seq<Input>, c: Seq<Input>)
    requires
        a.is_suffix_of(b),
        b.is_suffix_of(c),
    ensures
        a.is_suffix_of(c),
{
    assert(a =~= c.skip(c.len() - a.len())) by {
        assert(b =~= c.skip(c.len() - b.len()));
        assert(a =~= b.skip(b.len() - a.len()));
    }
}

/// Showing a message to the players, or asking one of them for a
/// decision, is a way for them to go on.
pub proof fn lemma_steps_go_on(players: PlayersView, side: Side, message: Message)
    ensures
        players.goes_on_to(players.shown(message)),
        players.goes_on_to(players.shown_to(side, message)),
        players.goes_on_to(players.asked(side)),
{
    lemma_goes_on_reflexive(players);
    let script = players.player(side).script;
    if script.len() > 0 {
        assert(script.skip(1) =~= script.skip(script.len() - script.skip(1).len()));
    }
}

/// The players of a game, each with its script.
pub fn initialise_players(allies_script: Vec<Input>, empires_script: Vec<Input>) -> (players:
    Players)
    ensures
        players@.allies.side == Side::Allies,
        players@.allies.script == allies_script@,
        players@.allies.out == Seq::<Message>::empty(),
        players@.empires.side == Side::Empires,
        players@.empires.script == empires_script@,
        players@.empires.out == Seq::<Message>::empty(),
{
    let players = Players {
        allies_player: RobotIO {
            side: Side::Allies,
            inputs: allies_script,
            next: 0,
            out: Vec::new(),
        },
        empires_player: RobotIO {
            side: Side::Empires,
            inputs: empires_script,
            next: 0,
            out: Vec::new(),
        },
    };
    proof {
        assert(players@.allies.script =~= allies_script@);
        assert(players@.empires.script =~= empires_script@);
        assert(players@.allies.out =~= Seq::<Message>::empty());
        assert(players@.empires.out =~= Seq::<Message>::empty());
    }
    players
}

/// Tells both players whose turn it is.
pub fn notify_turn(initiative: Side, players: &mut Players, game_engine: &GameEngine)
    ensures
        final(players)@ == old(players)@.shown(
            Message::TurnFor(initiative, game_engine.state.current_turn),
        ),
{
    players.output(&Output::TurnFor(initiative, game_engine.state.current_turn));
}

/// The phase in which both sides collect their resources: each side
/// receives what its nations at war bring in, the Allies first.
pub fn collect_resources(game_engine: &mut GameEngine)
    requires
        old(game_engine).wf(),
    ensures
        final(game_engine).state@ == old(game_engine).state@.in_phase(
            Phase::CollectResources,
        ).collect(),
        final(game_engine).state.rng == old(game_engine).state.rng,
        final(game_engine).played_events == old(game_engine).played_events,
        final(game_engine).wf(),
{
    game_engine.set_phase(Phase::CollectResources);
    game_engine.collect_resources()
}

/// Where peace is kept from a first state to a second, and from the
/// second to a third, it is kept from the first to the third.
pub proof fn lemma_peace_kept_transitive(a: Board, b: Board, c: Board)
    requires
        a.peace_kept(b),
        b.peace_kept(c),
    ensures
        a.peace_kept(c),
{
    assert forall|n: Nation| !a.at_war(n) implies !#[trigger] c.at_war(n) by {
        assert(!b.at_war(n));
    }
}

/// Where a game can go from a first state to a second within a turn, and
/// from the second to a third, it can go from the first to the third.
pub proof fn lemma_same_turn_transitive(a: Board, b: Board, c: Board)
    requires
        same_turn(a, b),
        same_turn(b, c),
    ensures
        same_turn(a, c),
{
}

pub open spec fn spec_bid_of(input: Input) -> u8 {
    match input {
        Input::Number(pr) => pr,
        _ => 0,
    }
}

/// The resources that a decision bids for the initiative: the number it
/// names, or nothing if it names none.
#[verifier::when_used_as_spec(spec_bid_of)]
pub fn bid_of(input: Input) -> (bid: u8)
    ensures
        bid == spec_bid_of(input),
{
    match input {
        Input::Number(pr) => pr,
        _ => 0,
    }
}

/// Whether the phase of the initiative leads from one game to another
/// with given dice: both players are asked for a bid, the Allies first,
/// and the sides pay and roll.
pub open spec fn settled(before: Table, after: Table, allies_die: u8, empires_die: u8) -> bool {
    &&& 1 <= allies_die <= 6
    &&& 1 <= empires_die <= 6
    &&& after.board == before.board.in_phase(Phase::Initiative(Side::Empires)).bid(
        spec_bid_of(before.players.allies.next_input()),
        spec_bid_of(before.players.empires.next_input()),
        allies_die,
        empires_die,
    )
    &&& after.players == before.players.shown(Message::ChooseInitiative).asked(
        Side::Allies,
    ).asked(Side::Empires)
    &&& after.active == before.active
}

/// Whether the phase of the initiative leads from one game to another. In
/// the first turn the initiative is with the Empires, and nobody is
/// asked. From the second turn on the bids and some dice decide.
pub open spec fn settles(before: Table, after: Table) -> bool {
    if before.board.current_turn <= 1 {
        after == before.with_board(Board { initiative: Side::Empires, ..before.board })
    } else {
        exists|allies_die: u8, empires_die: u8| #[trigger]
            settled(before, after, allies_die, empires_die)
    }
}

/// The phase in which the initiative is settled. In the first turn it is
/// with the Empires: nobody is asked and no die is rolled. From the second
/// turn on both players are asked for a bid, the Allies first, and the
/// sides pay and roll. A bid counts in full for the sum, though a side
/// pays no more of it than it holds.
pub fn determine_initiative(players: &mut Players, game_engine: &mut GameEngine)
    requires
        old(game_engine).wf(),
    ensures
        settles(
            table(*old(game_engine), *old(players)),
            table(*final(game_engine), *final(players)),
        ),
        old(game_engine).state.current_turn <= 1
            ==> final(game_engine).state.rng == old(game_engine).state.rng,
        same_turn(old(game_engine).state@, final(game_engine).state@),
        final(game_engine).state@.nations == old(game_engine).state@.nations,
        final(game_engine).state@.events_pool == old(game_engine).state@.events_pool,
        final(game_engine).played_events == old(game_engine).played_events,
        old(players)@.goes_on_to(final(players)@),
{
    proof {
        lemma_goes_on_reflexive(players@);
    }
    if game_engine.state.current_turn > 1 {
        players.output(&Output::ChooseInitiative);
        let ghost shown = players@;
        game_engine.set_phase(Phase::Initiative(Side::Allies));
        let allies_pr: u8 = bid_of(players.input_from(Side::Allies));
        let ghost asked = players@;
        game_engine.set_phase(Phase::Initiative(Side::Empires));
        let ghost start = game_engine.state@;
        let empires_pr: u8 = bid_of(players.input_from(Side::Empires));
        game_engine.determine_initiative(allies_pr, empires_pr);
        proof {
            lemma_steps_go_on(old(players)@, Side::Allies, Message::ChooseInitiative);
            lemma_steps_go_on(shown, Side::Allies, Message::ChooseInitiative);
            lemma_steps_go_on(asked, Side::Empires, Message::ChooseInitiative);
            lemma_goes_on_transitive(old(players)@, shown, asked);
            lemma_goes_on_transitive(old(players)@, asked, players@);
            let (allies_die, empires_die) = choose|allies_die: u8, empires_die: u8|
                1 <= allies_die <= 6 && 1 <= empires_die <= 6 && game_engine.state@
                    == #[trigger] start.bid(allies_pr, empires_pr, allies_die, empires_die);
            assert(start == old(game_engine).state@.in_phase(Phase::Initiative(Side::Empires)));
            lemma_bid(start, allies_pr, empires_pr, allies_die, empires_die);
            assert(settled(
                table(*old(game_engine), *old(players)),
                table(*game_engine, *players),
                allies_die,
                empires_die,
            ));
        }
    } else {
        game_engine.state.initiative = Side::Empires;
        proof {
            assert(forall|n: Nation|
                game_engine.state@.nation(n) == old(game_engine).state@.nation(n));
        }
    }
}

/// Whether the half of a turn that a side plays leads from one game to
/// another by way of three others: both players are told whose turn it
/// is, then the side improves its technologies, launches its offensives,
/// reinforces its nations and fights for the sea.
pub open spec fn half_by(
    side: Side,
    before: Table,
    improved: Table,
    launched: Table,
    reinforced: Table,
    after: Table,
) -> bool {
    &&& researches(
        side,
        before.with_players(
            before.players.shown(Message::TurnFor(side, before.board.current_turn)),
        ),
        improved,
    )
    &&& campaigns(side, improved, launched)
    &&& levies(side, launched, reinforced)
    &&& fights_at_sea(side, reinforced, after)
}

/// Whether the half of a turn that a side plays leads from one game to
/// another.
pub open spec fn plays_half(side: Side, before: Table, after: Table) -> bool {
    exists|improved: Table, launched: Table, reinforced: Table| #[trigger]
        half_by(side, before, improved, launched, reinforced, after)
}

/// The half of a turn that a side plays: both players are told whose
/// turn it is, then the side improves its technologies, launches its
/// offensives, reinforces its nations and fights for the sea.
pub fn run_player_turn(initiative: Side, players: &mut Players, game_engine: &mut GameEngine)
    requires
        old(game_engine).wf(),
        old(game_engine).state.current_turn <= LAST_TURN,
    ensures
        plays_half(
            initiative,
            table(*old(game_engine), *old(players)),
            table(*final(game_engine), *final(players)),
        ),
        same_turn(old(game_engine).state@, final(game_engine).state@),
        old(game_engine).state@.peace_kept(final(game_engine).state@),
        final(game_engine).state@.events_pool == old(game_engine).state@.events_pool,
        final(game_engine).state@.initiative == old(game_engine).state@.initiative,
        final(game_engine).state@.phase == match initiative {
            Side::Empires => Phase::UBoot,
            Side::Allies => Phase::Blockade,
        },
        final(game_engine).played_events == old(game_engine).played_events,
        old(players)@.goes_on_to(final(players)@),
{
    let ghost start = game_engine.state@;
    proof {
        lemma_steps_go_on(
            players@,
            initiative,
            Message::TurnFor(initiative, game_engine.state.current_turn),
        );
    }
    notify_turn(initiative, players, game_engine);
    let ghost told = players@;
    improve_technologies(initiative, players, game_engine);
    let ghost improved = table(*game_engine, *players);
    proof {
        lemma_goes_on_transitive(old(players)@, told, players@);
        assert(start.peace_kept(improved.board));
    }
    launch_offensives(initiative, players, game_engine);
    let ghost launched = table(*game_engine, *players);
    proof {
        lemma_goes_on_transitive(old(players)@, improved.players, players@);
        lemma_peace_kept_transitive(start, improved.board, launched.board);
    }
    reinforcements(initiative, players, game_engine);
    let ghost reinforced = table(*game_engine, *players);
    proof {
        lemma_goes_on_transitive(old(players)@, launched.players, players@);
        lemma_peace_kept_transitive(start, launched.board, reinforced.board);
    }
    sea_control(initiative, players, game_engine);
    proof {
        lemma_goes_on_transitive(old(players)@, reinforced.players, players@);
        lemma_peace_kept_transitive(start, reinforced.board, game_engine.state@);
        assert(half_by(
            initiative,
            table(*old(game_engine), *old(players)),
            improved,
            launched,
            reinforced,
            table(*game_engine, *players),
        ));
    }
}

/// Whether a turn leads from one game to another by way of four others.
/// Both players are shown the state; the initiative is settled; events
/// are drawn and applied; resources are collected and both players are
/// shown the state again; the side with the initiative plays its half of
/// the turn, then the other side; and the next turn begins, in which no
/// event that was active is active any more.
pub open spec fn turn_by(
    before: Table,
    settled: Table,
    drawn: Table,
    first_half: Table,
    second_half: Table,
    after: Table,
) -> bool {
    let collected = drawn.board.in_phase(Phase::CollectResources).collect();
    &&& settles(
        before.with_players(before.players.shown(Message::CurrentState(before.board))),
        settled,
    )
    &&& draws(settled, drawn)
    &&& plays_half(
        collected.initiative,
        Table {
            board: collected,
            active: drawn.active,
            players: drawn.players.shown(Message::CurrentState(collected)),
        },
        first_half,
    )
    &&& plays_half(first_half.board.initiative.spec_other(), first_half, second_half)
    &&& after.board == second_half.board.in_phase(Phase::NewTurn).next_turn()
    &&& after.active == still_active(second_half.active, after.board.current_turn)
    &&& after.players == second_half.players
}

/// Whether a turn leads from one game to another.
pub open spec fn plays_turn(before: Table, after: Table) -> bool {
    exists|settled: Table, drawn: Table, first_half: Table, second_half: Table| #[trigger]
        turn_by(before, settled, drawn, first_half, second_half, after)
}

/// A whole turn: both players are shown the state, the initiative is
/// settled, events are drawn and applied, resources are collected, both
/// players are shown the state again, the side with the initiative plays
/// its half of the turn, then the other side, and the next turn begins.
pub fn run_turn(players: &mut Players, game_engine: &mut GameEngine)
    requires
        old(game_engine).wf(),
        old(game_engine).state.current_turn <= LAST_TURN,
    ensures
        plays_turn(
            table(*old(game_engine), *old(players)),
            table(*final(game_engine), *final(players)),
        ),
        final(game_engine).wf(),
        final(game_engine).state.current_turn == old(game_engine).state.current_turn + 1,
        final(game_engine).state@.phase == Phase::NewTurn,
        final(game_engine).state@.seed == old(game_engine).state@.seed,
        old(game_engine).state@.technologies_kept(final(game_engine).state@),
        joins_only_from(
            old(game_engine).state@,
            final(game_engine).state@,
            old(game_engine).state@.events_pool,
        ),
        old(players)@.goes_on_to(final(players)@),
{
    let ghost start = game_engine.state@;
    let shown = Output::CurrentState(game_engine.state.snapshot());
    proof {
        lemma_steps_go_on(players@, Side::Allies, shown@);
    }
    players.output(&shown);
    let ghost before = players@;
    determine_initiative(players, game_engine);
    let ghost settled = table(*game_engine, *players);
    proof {
        lemma_goes_on_transitive(old(players)@, before, players@);
    }
    draw_events(players, game_engine);
    let ghost drawn = table(*game_engine, *players);
    proof {
        lemma_goes_on_transitive(old(players)@, settled.players, players@);
        lemma_same_turn_transitive(start, settled.board, drawn.board);
    }
    collect_resources(game_engine);
    let ghost collected = game_engine.state@;
    proof {
        let waiting = drawn.board.in_phase(Phase::CollectResources);
        assert(forall|n: Nation| waiting.nation(n) == drawn.board.nation(n));
        lemma_collect(waiting);
        assert(forall|n: Nation| collected.nation(n) == drawn.board.nation(n));
    }
    let shown = Output::CurrentState(game_engine.state.snapshot());
    proof {
        lemma_steps_go_on(players@, Side::Allies, shown@);
    }
    players.output(&shown);
    let ghost informed = players@;
    proof {
        lemma_goes_on_transitive(old(players)@, drawn.players, informed);
    }
    let first = game_engine.state.initiative;
    run_player_turn(first, players, game_engine);
    let ghost first_half = table(*game_engine, *players);
    proof {
        lemma_goes_on_transitive(old(players)@, informed, players@);
    }
    let second = game_engine.state.initiative.other();
    run_player_turn(second, players, game_engine);
    let ghost second_half = table(*game_engine, *players);
    proof {
        lemma_goes_on_transitive(old(players)@, first_half.players, players@);
        lemma_peace_kept_transitive(collected, first_half.board, second_half.board);
    }
    game_engine.set_phase(Phase::NewTurn);
    proof {
        lemma_next_turn(game_engine.state@);
    }
    game_engine.new_turn();
    proof {
        let pool = start.events_pool;
        assert forall|n: Nation|
            !start.at_war(n) && #[trigger] game_engine.state@.at_war(n) implies exists|i: int|
            0 <= i < pool.len() && (#[trigger] pool[i]).effect == Effect::EntersWar(n) by {
            assert(game_engine.state@.nation(n) == second_half.board.nation(n));
            assert(settled.board.nation(n) == start.nation(n));
            if !drawn.board.at_war(n) {
                assert(collected.nation(n) == drawn.board.nation(n));
                assert(!second_half.board.at_war(n));
            } else {
                assert(!settled.board.at_war(n) && drawn.board.at_war(n));
            }
        }
        assert(turn_by(
            table(*old(game_engine), *old(players)),
            settled,
            drawn,
            first_half,
            second_half,
            table(*game_engine, *players),
        ));
    }
}

} // verus!
