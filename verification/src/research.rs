//! The phase in which a side improves its technologies.

use vstd::prelude::*;
use crate::engine::{lemma_research, valid_dice, GameEngine};
use crate::event::LAST_TURN;
use crate::io::{answered, answered_out, Input, Message, Output, PlayerView, Players, Reply};
use crate::sequences::{lemma_filter_sources, lemma_filter_take_ends, lemma_filter_take_step};
use crate::side::Side;
use crate::state::{Board, Phase, TechnologyImprovement};
use crate::survey::all_categories;
use crate::tech::{all_technology_types, Technologies, TechnologyType};
use crate::turn::{
    lemma_goes_on_reflexive, lemma_goes_on_transitive, lemma_steps_go_on, same_turn, table, Table,
};

verus! {

/// What comes of a decision in the phase of the technologies: the state,
/// the categories still open, the message to show and whether the phase is
/// over. A choice of a category that is open, with a stake, is an attempt
/// to improve it; the category is closed by it unless its next technology
/// is not yet available. A choice of a category already closed, or
/// without a stake, changes nothing. A pass ends the phase. Any other
/// decision is answered as a wrong input.
pub open spec fn improve_decision(
    board: Board,
    side: Side,
    available: Seq<TechnologyType>,
    input: Input,
    die: u8,
) -> (Board, Seq<TechnologyType>, Option<Message>, bool) {
    match input {
        Input::Select(tech, n) => if available.contains(tech) && n != 0 {
            let (after, result) = board.research(side, tech, n, die);
            (
                after,
                if result is TechnologyNotAvailable {
                    available
                } else {
                    available.filter(|t: TechnologyType| t != tech)
                },
                Some(Message::TechnologyResult(result)),
                false,
            )
        } else {
            (board, available, None, false)
        },
        Input::Pass => (board, available, None, true),
        other => (board, available, Some(Message::WrongInput(other)), false),
    }
}

/// Whether a decision in the phase of the technologies comes to a roll: it
/// picks a category that is open, with a stake, and the catalogue has a
/// further level of it whose year has come.
pub open spec fn improve_rolls(
    board: Board,
    side: Side,
    available: Seq<TechnologyType>,
    input: Input,
) -> bool {
    match input {
        Input::Select(tech, n) => available.contains(tech) && n != 0 && board.research_rolls(
            side,
            tech,
        ),
        _ => false,
    }
}

/// Whether a message tells of an attempt that came to a roll.
pub open spec fn tells_of_roll(message: Message) -> bool {
    match message {
        Message::TechnologyResult(result) => result is ImprovedTechnology
            || result is FailedTechnology,
        _ => false,
    }
}

/// Whether any message of a list, from a place on, tells of an attempt
/// that came to a roll.
pub open spec fn rolled_since(out: Seq<Message>, from: int) -> bool {
    exists|i: int| from <= i < out.len() && tells_of_roll(#[trigger] out[i])
}

/// Where a player was told of no roll by the end of a round, it had been
/// told of none before the round, and the answer of the round tells of
/// none.
pub proof fn lemma_roll_is_told(
    earlier: Seq<Message>,
    prompt: Message,
    answer: Option<Message>,
    since: int,
)
    requires
        !rolled_since(answered_out(earlier, prompt, answer), since),
        0 <= since <= earlier.len(),
    ensures
        !rolled_since(earlier, since),
        answer is Some ==> !tells_of_roll(answer->Some_0),
{
    let out = answered_out(earlier, prompt, answer);
    if rolled_since(earlier, since) {
        let i = choose|i: int| since <= i < earlier.len() && tells_of_roll(#[trigger] earlier[i]);
        assert(out[i] == earlier[i]);
    }
    if answer is Some && tells_of_roll(answer->Some_0) {
        assert(out[out.len() - 1] == answer->Some_0);
    }
}

/// Whether every category of a list stands now where it stood earlier.
pub open spec fn untouched(
    available: Seq<TechnologyType>,
    earlier: Technologies,
    now: Technologies,
) -> bool {
    forall|c: TechnologyType| #[trigger]
        available.contains(c) ==> now.spec_level(c) == earlier.spec_level(c)
}

/// A decision raises no category of the side by more than one level above
/// where it stood when the phase began, and leaves the categories still
/// open where they stood: a category is improved once in a phase at most.
pub proof fn lemma_one_level_a_phase(
    board: Board,
    side: Side,
    available: Seq<TechnologyType>,
    input: Input,
    die: u8,
    earlier: Technologies,
)
    requires
        board.wf(),
        untouched(available, earlier, board.technologies(side)),
        board.technologies(side).at_most_one_above(&earlier),
    ensures
        untouched(
            improve_decision(board, side, available, input, die).1,
            earlier,
            improve_decision(board, side, available, input, die).0.technologies(side),
        ),
        improve_decision(board, side, available, input, die).0.technologies(side).at_most_one_above(
            &earlier,
        ),
{
    let (after, open, message, over) = improve_decision(board, side, available, input, die);
    match input {
        Input::Select(tech, n) => {
            if available.contains(tech) && n != 0 {
                lemma_research(board, side, tech, n, die);
                let keep = |t: TechnologyType| t != tech;
                let src = lemma_filter_sources(available, keep);
                assert forall|c: TechnologyType| #[trigger] open.contains(c) implies after.technologies(
                    side,
                ).spec_level(c) == earlier.spec_level(c) by {
                    let k = choose|k: int| 0 <= k < open.len() && open[k] == c;
                    if open == available {
                        assert(available.contains(c));
                    } else {
                        assert(open[k] == available[src[k]]);
                        assert(available.contains(c));
                        assert(c != tech);
                    }
                }
            }
        },
        _ => {},
    }
}

/// Where the phase of the technologies stands: the state, the player of
/// the side, the categories still open, and whether the phase is over.
pub struct Research {
    pub board: Board,
    pub player: PlayerView,
    pub available: Seq<TechnologyType>,
    pub over: bool,
}

/// One round of the phase of the technologies. The phase is over where no
/// category is open. Else the player is shown the open categories, hands
/// in a decision, and is shown the answer if there is one.
pub open spec fn improve_step(s: Research, side: Side, die: u8) -> Research {
    if s.over || s.available.len() == 0 {
        Research { over: true, ..s }
    } else {
        let shown = s.player.shown(Message::ImproveTechnologies(s.available));
        let (board, available, message, over) = improve_decision(
            s.board,
            side,
            s.available,
            shown.next_input(),
            die,
        );
        Research { board, player: answered(shown.asked(), message), available, over }
    }
}

/// The phase of the technologies after as many rounds as there are dice,
/// each round with its die. A round that does not come to a roll leaves
/// its die aside.
pub open spec fn improve_run(start: Research, side: Side, dice: Seq<u8>) -> Research
    decreases dice.len(),
{
    if dice.len() == 0 {
        start
    } else {
        improve_step(improve_run(start, side, dice.drop_last()), side, dice.last())
    }
}

/// Whether a list of categories holds a category.
fn holds_category(available: &Vec<TechnologyType>, tech: TechnologyType) -> (b: bool)
    ensures
        b == available@.contains(tech),
{
    let mut i: usize = 0;
    while i < available.len()
        invariant
            i <= available@.len(),
            forall|j: int| 0 <= j < i ==> available@[j] != tech,
        decreases available@.len() - i,
    {
        if available[i] == tech {
            return true;
        }
        i += 1;
    }
    false
}

/// A list of categories without a category.
fn without_category(available: &Vec<TechnologyType>, tech: TechnologyType) -> (rest: Vec<
    TechnologyType,
>)
    ensures
        rest@ == available@.filter(|t: TechnologyType| t != tech),
{
    let ghost keep = |t: TechnologyType| t != tech;
    let mut rest: Vec<TechnologyType> = Vec::new();
    let mut i: usize = 0;
    proof {
        lemma_filter_take_ends(available@, keep);
    }
    while i < available.len()
        invariant
            i <= available@.len(),
            keep == (|t: TechnologyType| t != tech),
            rest@ == available@.take(i as int).filter(keep),
        decreases available@.len() - i,
    {
        proof {
            lemma_filter_take_step(available@, keep, i as int);
        }
        if available[i] != tech {
            rest.push(available[i]);
        }
        i += 1;
    }
    rest
}

/// A copy of a list of categories.
fn copy_categories(available: &Vec<TechnologyType>) -> (copy: Vec<TechnologyType>)
    ensures
        copy@ == available@,
{
    let copy = available.clone();
    proof {
        assert(copy@ =~= available@);
    }
    copy
}

impl GameEngine {
    /// Answers a decision in the phase of the technologies, with the die
    /// that counts if the decision comes to a roll.
    pub fn improve_with(
        &mut self,
        side: Side,
        available: &mut Vec<TechnologyType>,
        input: Input,
        die: u8,
    ) -> (reply: Reply)
        requires
            old(self).wf(),
            old(self).state.current_turn <= LAST_TURN,
        ensures
            (final(self).state@, final(available)@, reply.shown(), reply.over) == improve_decision(
                old(self).state@,
                side,
                old(available)@,
                input,
                die,
            ),
            final(self).state.rng == old(self).state.rng,
            final(self).played_events == old(self).played_events,
            final(self).wf(),
    {
        match input {
            Input::Select(tech, n) => {
                if holds_category(available, tech) && n != 0 {
                    let result = self.try_improve_technology_with(side, tech, n, die);
                    let stays: bool = match result {
                        TechnologyImprovement::TechnologyNotAvailable(_, _, _) => true,
                        _ => false,
                    };
                    if !stays {
                        *available = without_category(available, tech);
                    }
                    Reply { message: Some(Output::TechnologyResult(result)), over: false }
                } else {
                    Reply { message: None, over: false }
                }
            },
            Input::Pass => Reply { message: None, over: true },
            other => Reply { message: Some(Output::WrongInput(other)), over: false },
        }
    }

    /// Answers a decision in the phase of the technologies. A die is
    /// rolled only if the decision comes to a roll.
    pub fn improve(&mut self, side: Side, available: &mut Vec<TechnologyType>, input: Input) -> (reply:
        Reply)
        requires
            old(self).wf(),
            old(self).state.current_turn <= LAST_TURN,
        ensures
            exists|die: u8|
                1 <= die <= 6 && #[trigger] improve_decision(
                    old(self).state@,
                    side,
                    old(available)@,
                    input,
                    die,
                ) == (final(self).state@, final(available)@, reply.shown(), reply.over),
            !improve_rolls(old(self).state@, side, old(available)@, input) ==> final(self).state.rng
                == old(self).state.rng,
            improve_rolls(old(self).state@, side, old(available)@, input) <==> (reply.shown() is Some
                && tells_of_roll(reply.shown()->Some_0)),
            final(self).played_events == old(self).played_events,
            final(self).wf(),
    {
        let rolls: bool = match input {
            Input::Select(tech, n) => holds_category(available, tech) && n != 0
                && self.research_rolls(side, tech),
            _ => false,
        };
        let die: u8 = if rolls {
            self.state.roll()
        } else {
            1
        };
        let reply = self.improve_with(side, available, input, die);
        proof {
            assert(improve_decision(old(self).state@, side, old(available)@, input, die) == (
                self.state@,
                available@,
                reply.shown(),
                reply.over,
            ));
        }
        reply
    }
}

/// Whether the phase of the technologies leads from one point to another:
/// some dice, one for each round, make the rounds end there, with the
/// phase over.
pub open spec fn improves(side: Side, before: Research, after: Research) -> bool {
    exists|dice: Seq<u8>|
        valid_dice(dice) && #[trigger] improve_run(before, side, dice) == after && (after.over
            || after.available.len() == 0)
}

/// Whether the phase of the technologies of a side leads from one game to
/// another: it begins with all categories open, ends with the phase over,
/// and leaves the other player and the active events as they are.
pub open spec fn researches(side: Side, before: Table, after: Table) -> bool {
    &&& exists|available: Seq<TechnologyType>, over: bool| #[trigger]
        research_ends(side, before, after, available, over)
    &&& after.players.player(side.spec_other()) == before.players.player(side.spec_other())
    &&& after.active == before.active
}

/// Whether the phase of the technologies of a side leads from one game to
/// the state and the player of another, with given categories left open.
pub open spec fn research_ends(
    side: Side,
    before: Table,
    after: Table,
    available: Seq<TechnologyType>,
    over: bool,
) -> bool {
    improves(
        side,
        Research {
            board: before.board.in_phase(Phase::ImproveTechnologies(side)),
            player: before.players.player(side),
            available: all_categories(),
            over: false,
        },
        Research { board: after.board, player: after.players.player(side), available, over },
    )
}

/// The phase in which a side improves its technologies. The player is
/// shown the categories still open and picks one with the resources it
/// stakes, until it passes or no category is left. No category gains
/// more than one level in a phase, and no die is rolled in a phase in
/// which the player is told of no attempt that came to a roll.
pub fn improve_technologies(initiative: Side, players: &mut Players, game_engine: &mut GameEngine)
    requires
        old(game_engine).wf(),
        old(game_engine).state.current_turn <= LAST_TURN,
    ensures
        researches(
            initiative,
            table(*old(game_engine), *old(players)),
            table(*final(game_engine), *final(players)),
        ),
        final(players)@.player(initiative.spec_other()) == old(players)@.player(
            initiative.spec_other(),
        ),
        final(game_engine).played_events == old(game_engine).played_events,
        same_turn(old(game_engine).state@, final(game_engine).state@),
        final(game_engine).state@ == (Board {
            phase: Phase::ImproveTechnologies(initiative),
            allies: final(game_engine).state@.allies,
            empires: final(game_engine).state@.empires,
            ..old(game_engine).state@
        }),
        final(game_engine).state@.war(initiative.spec_other()) == old(game_engine).state@.war(
            initiative.spec_other(),
        ),
        final(game_engine).state@.resources(initiative) <= old(game_engine).state@.resources(
            initiative,
        ),
        final(game_engine).state@.vp(initiative) == old(game_engine).state@.vp(initiative),
        final(game_engine).state@.technologies(initiative).at_most_one_above(
            &old(game_engine).state@.technologies(initiative),
        ),
        !rolled_since(
            final(players)@.player(initiative).out,
            old(players)@.player(initiative).out.len() as int,
        ) ==> final(game_engine).state.rng == old(game_engine).state.rng,
        old(players)@.goes_on_to(final(players)@),
{
    game_engine.set_phase(Phase::ImproveTechnologies(initiative));
    proof {
        lemma_goes_on_reflexive(players@);
    }
    let mut available: Vec<TechnologyType> = all_technology_types();
    let ghost start = Research {
        board: game_engine.state@,
        player: players@.player(initiative),
        available: available@,
        over: false,
    };
    let ghost mut dice: Seq<u8> = Seq::empty();
    let mut over: bool = false;
    while available.len() > 0 && !over
        invariant
            game_engine.wf(),
            game_engine.state.current_turn <= LAST_TURN,
            valid_dice(dice),
            improve_run(start, initiative, dice) == (Research {
                board: game_engine.state@,
                player: players@.player(initiative),
                available: available@,
                over,
            }),
            game_engine.played_events == old(game_engine).played_events,
            players@.player(initiative.spec_other()) == old(players)@.player(
                initiative.spec_other(),
            ),
            same_turn(old(game_engine).state@, game_engine.state@),
            game_engine.state@ == (Board {
                phase: Phase::ImproveTechnologies(initiative),
                allies: game_engine.state@.allies,
                empires: game_engine.state@.empires,
                ..old(game_engine).state@
            }),
            game_engine.state@.war(initiative.spec_other()) == old(game_engine).state@.war(
                initiative.spec_other(),
            ),
            game_engine.state@.resources(initiative) <= old(game_engine).state@.resources(
                initiative,
            ),
            game_engine.state@.vp(initiative) == old(game_engine).state@.vp(initiative),
            untouched(
                available@,
                old(game_engine).state@.technologies(initiative),
                game_engine.state@.technologies(initiative),
            ),
            game_engine.state@.technologies(initiative).at_most_one_above(
                &old(game_engine).state@.technologies(initiative),
            ),
            !rolled_since(
                players@.player(initiative).out,
                old(players)@.player(initiative).out.len() as int,
            ) ==> game_engine.state.rng == old(game_engine).state.rng,
            old(players)@.goes_on_to(players@),
        decreases players@.player(initiative).script.len() + if over { 0int } else { 1int },
    {
        let ghost before = improve_run(start, initiative, dice);
        let ghost first = players@;
        let prompt = Output::ImproveTechnologies(copy_categories(&available));
        proof {
            lemma_steps_go_on(first, initiative, prompt@);
        }
        players.output_to(initiative, prompt);
        let ghost second = players@;
        proof {
            lemma_steps_go_on(second, initiative, Message::ReinforceNations);
            lemma_goes_on_transitive(old(players)@, first, second);
        }
        let input = players.input_from(initiative);
        let ghost third = players@;
        proof {
            lemma_goes_on_transitive(old(players)@, second, third);
        }
        let ghost board = game_engine.state@;
        let ghost open = available@;
        let reply = game_engine.improve(initiative, &mut available, input);
        let ghost asked = players@.player(initiative);
        over = reply.over;
        match reply.message {
            Some(message) => {
                proof {
                    lemma_steps_go_on(third, initiative, message@);
                }
                players.output_to(initiative, message);
                proof {
                    lemma_goes_on_transitive(old(players)@, third, players@);
                }
            },
            None => {},
        }
        proof {
            let die = choose|die: u8|
                1 <= die <= 6 && #[trigger] improve_decision(board, initiative, open, input, die)
                    == (game_engine.state@, available@, reply.shown(), reply.over);
            match input {
                Input::Select(tech, n) => {
                    lemma_research(board, initiative, tech, n, die);
                },
                _ => {},
            }
            let since = old(players)@.player(initiative).out.len() as int;
            let earlier = first.player(initiative).out;
            let out = players@.player(initiative).out;
            assert(out == answered_out(earlier, Message::ImproveTechnologies(open), reply.shown()));
            if !rolled_since(out, since) {
                lemma_roll_is_told(earlier, Message::ImproveTechnologies(open), reply.shown(), since);
            }
            lemma_one_level_a_phase(
                board,
                initiative,
                open,
                input,
                die,
                old(game_engine).state@.technologies(initiative),
            );
            let more = dice.push(die);
            assert(more.drop_last() =~= dice);
            assert(improve_run(start, initiative, more) == improve_step(before, initiative, die));
            dice = more;
        }
    }
    proof {
        assert(improves(
            initiative,
            start,
            Research {
                board: game_engine.state@,
                player: players@.player(initiative),
                available: available@,
                over,
            },
        ));
        assert(research_ends(
            initiative,
            table(*old(game_engine), *old(players)),
            table(*game_engine, *players),
            available@,
            over,
        ));
    }
}

} // verus!
