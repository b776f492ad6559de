//! The phase in which a side launches its offensives.

use vstd::prelude::*;
use crate::engine::{offensive_bonus, valid_dice, GameEngine};
use crate::io::{answered, answered_out, Input, Message, Output, PlayerView, Players, Reply};
use crate::sequences::{lemma_filter_take_ends, lemma_filter_take_step};
use crate::side::{Nation, Side};
use crate::state::{ActiveEvent, Board, Offensive, OffensiveOutcome, Phase};
use crate::turn::{
    lemma_goes_on_reflexive, lemma_goes_on_transitive, lemma_peace_kept_transitive,
    lemma_steps_go_on, same_turn, table, Table,
};

verus! {

/// The dice of one round of a phase: those of an attack, and the one that
/// counts if a nation surrenders.
pub struct Roll {
    pub dice: Seq<u8>,
    pub die: u8,
}

/// The offensive that a decision names, if it names one.
pub open spec fn offensive_of(side: Side, input: Input) -> Option<Offensive> {
    match input {
        Input::Offensive(from, to, pr) => Some(Offensive { initiative: side, from, to, pr }),
        _ => None,
    }
}

/// Whether a roll is one that a decision can meet with: every die shows 1
/// to 6, and where the decision names an offensive, the attack has as many
/// dice as that offensive rolls.
pub open spec fn roll_fits(board: Board, side: Side, input: Input, roll: Roll) -> bool {
    &&& valid_dice(roll.dice)
    &&& 1 <= roll.die <= 6
    &&& match offensive_of(side, input) {
        Some(offensive) => roll.dice.len() == board.dice_of(offensive),
        None => true,
    }
}

/// What comes of a decision in the phase of the offensives: the state, the
/// nations that can still attack, the message to show and whether the
/// phase is over. An offensive from a nation that cannot attack any more,
/// or against a nation that the attacker does not border, is answered as
/// such. Any other offensive is resolved; if it was fought, the attacker
/// cannot attack again. A pass ends the phase. Any other decision changes
/// nothing.
pub open spec fn launch_decision(
    board: Board,
    active: Seq<ActiveEvent>,
    side: Side,
    nations: Seq<Nation>,
    input: Input,
    roll: Roll,
) -> (Board, Seq<Nation>, Option<Message>, bool) {
    match input {
        Input::Offensive(from, to, pr) => if !nations.contains(from) {
            (board, nations, Some(Message::CountryAlreadyAttacked(from)), false)
        } else if !from.spec_adjacent_to(&to) {
            (board, nations, Some(Message::AttackingNonAdjacentCountry(from, to)), false)
        } else {
            let (after, result) = board.offensive(
                Offensive { initiative: side, from, to, pr },
                offensive_bonus(active, from, to),
                roll.dice,
                roll.die,
            );
            (
                after,
                if result is Hits {
                    nations.filter(|n: Nation| n != from)
                } else {
                    nations
                },
                Some(Message::OffensiveResult { from, to, result }),
                false,
            )
        },
        Input::Pass => (board, nations, None, true),
        _ => (board, nations, None, false),
    }
}

/// Whether a decision in the phase of the offensives comes to an offensive
/// that is fought: it names an attacker that can still attack and a target
/// that the attacker borders, and the side has the resources and the
/// attacker the operational level.
pub open spec fn launch_fights(board: Board, side: Side, nations: Seq<Nation>, input: Input) -> bool {
    match input {
        Input::Offensive(from, to, pr) => nations.contains(from) && from.spec_adjacent_to(&to)
            && board.fights(Offensive { initiative: side, from, to, pr }),
        _ => false,
    }
}

/// Whether a message tells of an offensive that was fought.
pub open spec fn tells_of_fight(message: Message) -> bool {
    match message {
        Message::OffensiveResult { from, to, result } => result is Hits,
        _ => false,
    }
}

/// Whether any message of a list, from a place on, tells of an offensive
/// that was fought.
pub open spec fn fought_since(out: Seq<Message>, from: int) -> bool {
    exists|i: int| from <= i < out.len() && tells_of_fight(#[trigger] out[i])
}

/// Where a player was told of no fight by the end of a round, it had been
/// told of none before the round, and the answer of the round tells of
/// none.
pub proof fn lemma_fight_is_told(
    earlier: Seq<Message>,
    prompt: Message,
    answer: Option<Message>,
    since: int,
)
    requires
        !fought_since(answered_out(earlier, prompt, answer), since),
        0 <= since <= earlier.len(),
    ensures
        !fought_since(earlier, since),
        answer is Some ==> !tells_of_fight(answer->Some_0),
{
    let out = answered_out(earlier, prompt, answer);
    if fought_since(earlier, since) {
        let i = choose|i: int| since <= i < earlier.len() && tells_of_fight(#[trigger] earlier[i]);
        assert(out[i] == earlier[i]);
    }
    if answer is Some && tells_of_fight(answer->Some_0) {
        assert(out[out.len() - 1] == answer->Some_0);
    }
}

/// Where the phase of the offensives stands: the state, the player of the
/// side, the nations that can still attack, and whether the phase is
/// over.
pub struct Campaign {
    pub board: Board,
    pub player: PlayerView,
    pub nations: Seq<Nation>,
    pub over: bool,
}

/// The decision that the player hands in in the next round of the phase
/// of the offensives.
pub open spec fn launch_input(s: Campaign) -> Input {
    s.player.shown(Message::LaunchOffensive(s.nations)).next_input()
}

/// One round of the phase of the offensives. The phase is over where no
/// nation can attack. Else the player is shown the nations that can,
/// hands in a decision, and is shown the answer if there is one.
pub open spec fn launch_step(s: Campaign, active: Seq<ActiveEvent>, side: Side, roll: Roll) -> Campaign {
    if s.over || s.nations.len() == 0 {
        Campaign { over: true, ..s }
    } else {
        let shown = s.player.shown(Message::LaunchOffensive(s.nations));
        let (board, nations, message, over) = launch_decision(
            s.board,
            active,
            side,
            s.nations,
            shown.next_input(),
            roll,
        );
        Campaign { board, player: answered(shown.asked(), message), nations, over }
    }
}

/// The phase of the offensives after as many rounds as there are rolls,
/// each round with its roll.
pub open spec fn launch_run(
    start: Campaign,
    active: Seq<ActiveEvent>,
    side: Side,
    rolls: Seq<Roll>,
) -> Campaign
    decreases rolls.len(),
{
    if rolls.len() == 0 {
        start
    } else {
        launch_step(launch_run(start, active, side, rolls.drop_last()), active, side, rolls.last())
    }
}

/// Whether each roll of a list is one that its round can meet with.
pub open spec fn launch_rolls_fit(
    start: Campaign,
    active: Seq<ActiveEvent>,
    side: Side,
    rolls: Seq<Roll>,
) -> bool
    decreases rolls.len(),
{
    rolls.len() == 0 || (launch_rolls_fit(start, active, side, rolls.drop_last()) && roll_fits(
        launch_run(start, active, side, rolls.drop_last()).board,
        side,
        launch_input(launch_run(start, active, side, rolls.drop_last())),
        rolls.last(),
    ))
}

/// Whether the phase of the offensives leads from one point to another:
/// some rolls, one for each round, make the rounds end there, with the
/// phase over.
pub open spec fn launches(
    side: Side,
    active: Seq<ActiveEvent>,
    before: Campaign,
    after: Campaign,
) -> bool {
    exists|rolls: Seq<Roll>|
        launch_rolls_fit(before, active, side, rolls) && #[trigger] launch_run(
            before,
            active,
            side,
            rolls,
        ) == after && (after.over || after.nations.len() == 0)
}

/// Whether a list of nations holds a nation.
fn holds_nation(nations: &Vec<Nation>, nation: Nation) -> (b: bool)
    ensures
        b == nations@.contains(nation),
{
    let mut i: usize = 0;
    while i < nations.len()
        invariant
            i <= nations@.len(),
            forall|j: int| 0 <= j < i ==> nations@[j] != nation,
        decreases nations@.len() - i,
    {
        if nations[i] == nation {
            return true;
        }
        i += 1;
    }
    false
}

/// A list of nations without a nation.
fn without_nation(nations: &Vec<Nation>, nation: Nation) -> (rest: Vec<Nation>)
    ensures
        rest@ == nations@.filter(|n: Nation| n != nation),
{
    let ghost keep = |n: Nation| n != nation;
    let mut rest: Vec<Nation> = Vec::new();
    let mut i: usize = 0;
    proof {
        lemma_filter_take_ends(nations@, keep);
    }
    while i < nations.len()
        invariant
            i <= nations@.len(),
            keep == (|n: Nation| n != nation),
            rest@ == nations@.take(i as int).filter(keep),
        decreases nations@.len() - i,
    {
        proof {
            lemma_filter_take_step(nations@, keep, i as int);
        }
        if nations[i] != nation {
            rest.push(nations[i]);
        }
        i += 1;
    }
    rest
}

/// A copy of a list of nations.
fn copy_nations(nations: &Vec<Nation>) -> (copy: Vec<Nation>)
    ensures
        copy@ == nations@,
{
    let copy = nations.clone();
    proof {
        assert(copy@ =~= nations@);
    }
    copy
}

impl GameEngine {
    /// Answers a decision in the phase of the offensives, with the dice
    /// that count if the decision comes to an offensive that is fought.
    pub fn launch_with(
        &mut self,
        side: Side,
        nations: &mut Vec<Nation>,
        input: Input,
        dice: &Vec<u8>,
        die: u8,
    ) -> (reply: Reply)
        requires
            old(self).wf(),
            dice@.len() <= u8::MAX,
        ensures
            (final(self).state@, final(nations)@, reply.shown(), reply.over) == launch_decision(
                old(self).state@,
                old(self).played_events@,
                side,
                old(nations)@,
                input,
                Roll { dice: dice@, die },
            ),
            final(self).state.rng == old(self).state.rng,
            final(self).played_events == old(self).played_events,
            final(self).wf(),
    {
        match input {
            Input::Offensive(from, to, pr) => {
                if !holds_nation(nations, from) {
                    Reply { message: Some(Output::CountryAlreadyAttacked(from)), over: false }
                } else if !from.adjacent_to(&to) {
                    Reply {
                        message: Some(Output::AttackingNonAdjacentCountry(from, to)),
                        over: false,
                    }
                } else {
                    let offensive = Offensive { initiative: side, from, to, pr };
                    let result = self.resolve_offensive_with(&offensive, dice, die);
                    match result {
                        OffensiveOutcome::Hits(_) => {
                            *nations = without_nation(nations, from);
                        },
                        _ => {},
                    }
                    Reply { message: Some(Output::OffensiveResult { from, to, result }), over: false }
                }
            },
            Input::Pass => Reply { message: None, over: true },
            _ => Reply { message: None, over: false },
        }
    }

    /// Answers a decision in the phase of the offensives. Dice are rolled
    /// only for an offensive that is fought.
    pub fn launch(&mut self, side: Side, nations: &mut Vec<Nation>, input: Input) -> (reply: Reply)
        requires
            old(self).wf(),
        ensures
            exists|roll: Roll|
                roll_fits(old(self).state@, side, input, roll) && #[trigger] launch_decision(
                    old(self).state@,
                    old(self).played_events@,
                    side,
                    old(nations)@,
                    input,
                    roll,
                ) == (final(self).state@, final(nations)@, reply.shown(), reply.over),
            !launch_fights(old(self).state@, side, old(nations)@, input) ==> final(self).state.rng
                == old(self).state.rng,
            launch_fights(old(self).state@, side, old(nations)@, input) <==> (reply.shown() is Some
                && tells_of_fight(reply.shown()->Some_0)),
            final(self).played_events == old(self).played_events,
            final(self).wf(),
            old(self).state@.peace_kept(final(self).state@),
            old(self).state@.technologies_kept(final(self).state@),
            old(self).state@.only_war_differs(final(self).state@),
            final(self).state@.allies.resources <= old(self).state@.allies.resources,
            final(self).state@.empires.resources <= old(self).state@.empires.resources,
    {
        let ghost board = self.state@;
        let ghost active = self.played_events@;
        let ghost able = nations@;
        match input {
            Input::Offensive(from, to, pr) => {
                let offensive = Offensive { initiative: side, from, to, pr };
                if !holds_nation(nations, from) {
                    proof {
                        let roll = Roll {
                            dice: Seq::new(board.dice_of(offensive) as nat, |i: int| 1u8),
                            die: 1,
                        };
                        assert(roll_fits(board, side, input, roll));
                        assert(launch_decision(board, active, side, able, input, roll) == (
                            board,
                            able,
                            Some(Message::CountryAlreadyAttacked(from)),
                            false,
                        ));
                    }
                    Reply { message: Some(Output::CountryAlreadyAttacked(from)), over: false }
                } else if !from.adjacent_to(&to) {
                    proof {
                        let roll = Roll {
                            dice: Seq::new(board.dice_of(offensive) as nat, |i: int| 1u8),
                            die: 1,
                        };
                        assert(roll_fits(board, side, input, roll));
                        assert(launch_decision(board, active, side, able, input, roll) == (
                            board,
                            able,
                            Some(Message::AttackingNonAdjacentCountry(from, to)),
                            false,
                        ));
                    }
                    Reply {
                        message: Some(Output::AttackingNonAdjacentCountry(from, to)),
                        over: false,
                    }
                } else {
                    let result = self.resolve_offensive(&offensive);
                    match result {
                        OffensiveOutcome::Hits(_) => {
                            *nations = without_nation(nations, from);
                        },
                        _ => {},
                    }
                    proof {
                        let bonus = offensive_bonus(active, from, to);
                        let (dice, die) = choose|dice: Seq<u8>, die: u8|
                            valid_dice(dice) && 1 <= die <= 6 && dice.len() == board.dice_of(
                                offensive,
                            ) && #[trigger] board.offensive(offensive, bonus, dice, die) == (
                                self.state@,
                                result,
                            );
                        let roll = Roll { dice, die };
                        assert(roll_fits(board, side, input, roll));
                        assert(launch_decision(board, active, side, able, input, roll) == (
                            self.state@,
                            nations@,
                            Some(Message::OffensiveResult { from, to, result }),
                            false,
                        ));
                    }
                    Reply { message: Some(Output::OffensiveResult { from, to, result }), over: false }
                }
            },
            Input::Pass => {
                proof {
                    let roll = Roll { dice: Seq::empty(), die: 1 };
                    assert(roll_fits(board, side, input, roll));
                    assert(launch_decision(board, active, side, able, input, roll) == (
                        board,
                        able,
                        None::<Message>,
                        true,
                    ));
                }
                Reply { message: None, over: true }
            },
            _ => {
                proof {
                    let roll = Roll { dice: Seq::empty(), die: 1 };
                    assert(roll_fits(board, side, input, roll));
                    assert(launch_decision(board, active, side, able, input, roll) == (
                        board,
                        able,
                        None::<Message>,
                        false,
                    ));
                }
                Reply { message: None, over: false }
            },
        }
    }
}

/// Whether the phase of the offensives of a side leads from one game to
/// another: it begins with the nations of the side that are at war, ends
/// with the phase over, and leaves the other player and the active events
/// as they are.
pub open spec fn campaigns(side: Side, before: Table, after: Table) -> bool {
    &&& exists|nations: Seq<Nation>, over: bool| #[trigger]
        campaign_ends(side, before, after, nations, over)
    &&& after.players.player(side.spec_other()) == before.players.player(side.spec_other())
    &&& after.active == before.active
}

/// Whether the phase of the offensives of a side leads from one game to
/// the state and the player of another, with given nations left that can
/// attack.
pub open spec fn campaign_ends(
    side: Side,
    before: Table,
    after: Table,
    nations: Seq<Nation>,
    over: bool,
) -> bool {
    launches(
        side,
        before.active,
        Campaign {
            board: before.board.in_phase(Phase::LaunchOffensives(side)),
            player: before.players.player(side),
            nations: before.board.nations_at_war(side),
            over: false,
        },
        Campaign { board: after.board, player: after.players.player(side), nations, over },
    )
}

/// The phase in which a side launches its offensives. The player is shown
/// the nations that can still attack and names an offensive, until it
/// passes or no nation is left. No die is rolled in a phase in which the
/// player is told of no offensive that was fought.
#[verifier::rlimit(30)]
pub fn launch_offensives(initiative: Side, players: &mut Players, game_engine: &mut GameEngine)
    requires
        old(game_engine).wf(),
    ensures
        campaigns(
            initiative,
            table(*old(game_engine), *old(players)),
            table(*final(game_engine), *final(players)),
        ),
        !fought_since(
            final(players)@.player(initiative).out,
            old(players)@.player(initiative).out.len() as int,
        ) ==> final(game_engine).state.rng == old(game_engine).state.rng,
        final(players)@.player(initiative.spec_other()) == old(players)@.player(
            initiative.spec_other(),
        ),
        final(game_engine).played_events == old(game_engine).played_events,
        same_turn(old(game_engine).state@, final(game_engine).state@),
        (Board { phase: Phase::LaunchOffensives(initiative), ..old(game_engine).state@ })
            .only_war_differs(final(game_engine).state@),
        old(game_engine).state@.peace_kept(final(game_engine).state@),
        final(game_engine).state@.allies.technologies == old(game_engine).state@.allies.technologies,
        final(game_engine).state@.empires.technologies
            == old(game_engine).state@.empires.technologies,
        final(game_engine).state@.allies.resources <= old(game_engine).state@.allies.resources,
        final(game_engine).state@.empires.resources <= old(game_engine).state@.empires.resources,
        old(players)@.goes_on_to(final(players)@),
{
    game_engine.set_phase(Phase::LaunchOffensives(initiative));
    let mut nations: Vec<Nation> = game_engine.all_nations_at_war(initiative);
    let ghost active = game_engine.played_events@;
    let ghost start = Campaign {
        board: game_engine.state@,
        player: players@.player(initiative),
        nations: nations@,
        over: false,
    };
    proof {
        lemma_goes_on_reflexive(players@);
        assert(nations@ =~= old(game_engine).state@.nations_at_war(initiative)) by {
            assert(forall|n: Nation|
                game_engine.state@.at_war(n) == old(game_engine).state@.at_war(n));
            assert((|n: Nation| game_engine.state@.at_war(n) && n.spec_side() == initiative)
                =~= (|n: Nation|
                old(game_engine).state@.at_war(n) && n.spec_side() == initiative));
        }
    }
    let ghost mut rolls: Seq<Roll> = Seq::empty();
    let mut over: bool = false;
    while nations.len() > 0 && !over
        invariant
            game_engine.wf(),
            launch_rolls_fit(start, active, initiative, rolls),
            launch_run(start, active, initiative, rolls) == (Campaign {
                board: game_engine.state@,
                player: players@.player(initiative),
                nations: nations@,
                over,
            }),
            game_engine.played_events@ == active,
            !fought_since(
                players@.player(initiative).out,
                old(players)@.player(initiative).out.len() as int,
            ) ==> game_engine.state.rng == old(game_engine).state.rng,
            game_engine.played_events == old(game_engine).played_events,
            players@.player(initiative.spec_other()) == old(players)@.player(
                initiative.spec_other(),
            ),
            same_turn(old(game_engine).state@, game_engine.state@),
            (Board { phase: Phase::LaunchOffensives(initiative), ..old(game_engine).state@ })
                .only_war_differs(game_engine.state@),
            old(game_engine).state@.peace_kept(game_engine.state@),
            game_engine.state@.allies.technologies == old(game_engine).state@.allies.technologies,
            game_engine.state@.empires.technologies
                == old(game_engine).state@.empires.technologies,
            game_engine.state@.allies.resources <= old(game_engine).state@.allies.resources,
            game_engine.state@.empires.resources <= old(game_engine).state@.empires.resources,
            old(players)@.goes_on_to(players@),
        decreases players@.player(initiative).script.len() + if over { 0int } else { 1int },
    {
        let ghost before = launch_run(start, active, initiative, rolls);
        let ghost first = players@;
        let prompt = Output::LaunchOffensive(copy_nations(&nations));
        proof {
            lemma_steps_go_on(first, initiative, prompt@);
        }
        players.output_to(initiative, prompt);
        let ghost second = players@;
        proof {
            lemma_steps_go_on(second, initiative, Message::ReinforceNations);
            lemma_goes_on_transitive(old(players)@, first, second);
        }
        let input = players.input_from(initiative);
        let ghost third = players@;
        proof {
            lemma_goes_on_transitive(old(players)@, second, third);
        }
        let ghost board = game_engine.state@;
        let ghost able = nations@;
        let reply = game_engine.launch(initiative, &mut nations, input);
        over = reply.over;
        match reply.message {
            Some(message) => {
                proof {
                    lemma_steps_go_on(third, initiative, message@);
                }
                players.output_to(initiative, message);
                proof {
                    lemma_goes_on_transitive(old(players)@, third, players@);
                }
            },
            None => {},
        }
        proof {
            let roll = choose|roll: Roll|
                roll_fits(board, initiative, input, roll) && #[trigger] launch_decision(
                    board,
                    active,
                    initiative,
                    able,
                    input,
                    roll,
                ) == (game_engine.state@, nations@, reply.shown(), reply.over);
            lemma_peace_kept_transitive(old(game_engine).state@, board, game_engine.state@);
            let since = old(players)@.player(initiative).out.len() as int;
            let earlier = first.player(initiative).out;
            let out = players@.player(initiative).out;
            assert(out == answered_out(earlier, Message::LaunchOffensive(able), reply.shown()));
            if !fought_since(out, since) {
                lemma_fight_is_told(earlier, Message::LaunchOffensive(able), reply.shown(), since);
            }
            let more = rolls.push(roll);
            assert(more.drop_last() =~= rolls);
            assert(launch_run(start, active, initiative, more) == launch_step(
                before,
                active,
                initiative,
                roll,
            ));
            rolls = more;
        }
    }
    proof {
        assert(start == (Campaign {
            board: old(game_engine).state@.in_phase(Phase::LaunchOffensives(initiative)),
            player: old(players)@.player(initiative),
            nations: old(game_engine).state@.nations_at_war(initiative),
            over: false,
        }));
        assert(active == old(game_engine).played_events@);
        assert(launches(
            initiative,
            old(game_engine).played_events@,
            Campaign {
                board: old(game_engine).state@.in_phase(Phase::LaunchOffensives(initiative)),
                player: old(players)@.player(initiative),
                nations: old(game_engine).state@.nations_at_war(initiative),
                over: false,
            },
            Campaign {
                board: game_engine.state@,
                player: players@.player(initiative),
                nations: nations@,
                over,
            },
        ));
        assert(campaign_ends(
            initiative,
            table(*old(game_engine), *old(players)),
            table(*game_engine, *players),
            nations@,
            over,
        ));
    }
}

} // verus!
