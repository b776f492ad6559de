//! The phases in which the sides fight for the sea: the submarines of the
//! Empires and the blockade of the Allies.

use vstd::prelude::*;
use crate::combat::lemma_apply_hits;
use crate::engine::{
    is_blockade_change, is_uboot_change, lemma_pair, spec_blockade_gain, spec_uboot_loss,
    valid_dice, GameEngine,
};
use crate::io::{Input, Message, Output, PlayerView, Players, PlayersView};
use crate::side::{Nation, Side};
use crate::state::{Board, Phase, StateChange};
use crate::turn::{
    lemma_goes_on_transitive, lemma_peace_kept_transitive, lemma_steps_go_on, same_turn, table,
    Table,
};

verus! {

/// Where the allocation of hits stands: the state, the player of the
/// Allies, and the hits still to allocate.
pub struct Allocation {
    pub board: Board,
    pub player: PlayerView,
    pub hits: u8,
}

/// What comes of a decision in the allocation of hits: the state, and
/// whether a hit was allocated. A nation that is named takes a hit; any
/// other decision changes nothing.
pub open spec fn hit_decision(board: Board, input: Input, die: u8) -> (Board, bool) {
    match input {
        Input::ApplyHit(nation) => (board.apply_hits(nation, 1, die).0, true),
        _ => (board, false),
    }
}

/// One round of the allocation of hits. Nothing happens where no hit is
/// left or the script of the player has run out. Else the player is asked
/// for a nation; a nation that it names takes a hit, and any other
/// decision is passed over.
pub open spec fn hit_step(s: Allocation, die: u8) -> Allocation {
    if s.hits == 0 || s.player.script.len() == 0 {
        s
    } else {
        let shown = s.player.shown(Message::SelectNationForHit);
        let (board, taken) = hit_decision(s.board, shown.next_input(), die);
        Allocation {
            board,
            player: shown.asked(),
            hits: if taken {
                (s.hits - 1) as u8
            } else {
                s.hits
            },
        }
    }
}

impl GameEngine {
    /// Answers a decision in the allocation of hits, and tells whether a
    /// hit was allocated. A die is rolled only if a nation surrenders.
    pub fn take_hit(&mut self, input: Input) -> (taken: bool)
        requires
            old(self).wf(),
        ensures
            exists|die: u8|
                1 <= die <= 6 && #[trigger] hit_decision(old(self).state@, input, die) == (
                    final(self).state@,
                    taken,
                ),
            still_at_war(old(self).state@, final(self).state@)
                ==> final(self).state.rng == old(self).state.rng,
            final(self).played_events == old(self).played_events,
            final(self).wf(),
            old(self).state@.peace_kept(final(self).state@),
            old(self).state@.only_war_differs(final(self).state@),
            final(self).state@.allies.technologies == old(self).state@.allies.technologies,
            final(self).state@.empires.technologies == old(self).state@.empires.technologies,
            final(self).state@.allies.resources == old(self).state@.allies.resources,
            final(self).state@.empires.resources == old(self).state@.empires.resources,
    {
        let ghost board = self.state@;
        match input {
            Input::ApplyHit(nation) => {
                let result = self.apply_hits(&nation, 1);
                proof {
                    let die = choose|die: u8|
                        1 <= die <= 6 && #[trigger] board.apply_hits(nation, 1, die) == (
                            self.state@,
                            result,
                        );
                    lemma_apply_hits(board, nation, 1, die);
                    assert(hit_decision(board, input, die) == (self.state@, true));
                    if board.breaks(nation, 1) {
                        crate::combat::lemma_surrender(board, nation, die);
                        assert(board.at_war(nation));
                        assert(!self.state@.at_war(nation));
                    }
                }
                true
            },
            _ => {
                proof {
                    assert(hit_decision(board, input, 1) == (self.state@, false));
                }
                false
            },
        }
    }
}

/// The allocation of hits after as many rounds as there are dice, each
/// round with the die that counts if a nation surrenders in it.
pub open spec fn hit_run(start: Allocation, dice: Seq<u8>) -> Allocation
    decreases dice.len(),
{
    if dice.len() == 0 {
        start
    } else {
        hit_step(hit_run(start, dice.drop_last()), dice.last())
    }
}

/// Whether the allocation of hits leads from one point to another: some
/// dice, one for each round, make the rounds end there, with no hit left
/// or the script of the player run out.
pub open spec fn allocates(before: Allocation, after: Allocation) -> bool {
    exists|dice: Seq<u8>|
        valid_dice(dice) && #[trigger] hit_run(before, dice) == after && (after.hits == 0
            || after.player.script.len() == 0)
}

/// Whether every nation at war in `earlier` is at war in `later`: none has
/// surrendered in between.
pub open spec fn still_at_war(earlier: Board, later: Board) -> bool {
    forall|n: Nation| earlier.at_war(n) ==> #[trigger] later.at_war(n)
}

/// The hits that the Allies take for a loss that they cannot pay: one for
/// each resource missing.
pub open spec fn hits_for(held: u8, loss: u8) -> u8 {
    if loss > held {
        (loss - held) as u8
    } else {
        0
    }
}

/// What the Allies hold after they have paid a loss as far as they can.
pub open spec fn after_loss(held: u8, loss: u8) -> u8 {
    if loss > held {
        0
    } else {
        (held - loss) as u8
    }
}

/// Tells both players what the submarines cost the Allies. What the
/// Allies cannot pay with the resources they hold, they pay with hits: for
/// each resource missing their player names a nation, which takes a hit.
/// A decision that names no nation is passed over; where the script of
/// the player runs out, the hits left are not inflicted. Hands back the
/// change that makes up for the resources missing, which must fit in a
/// change of resources: no more than 127. No die is rolled unless a nation
/// surrenders.
pub fn apply_hits(players: &mut Players, game_engine: &mut GameEngine, loss: u8) -> (change:
    StateChange)
    requires
        old(game_engine).wf(),
        hits_for(old(game_engine).state@.resources(Side::Allies), loss) <= i8::MAX,
    ensures
        change == if loss > old(game_engine).state@.resources(Side::Allies) {
            StateChange::ChangeResources {
                side: Side::Allies,
                pr: (loss - old(game_engine).state@.resources(Side::Allies)) as i8,
            }
        } else {
            StateChange::NoChange
        },
        exists|left: u8|
            #[trigger] allocates(
                Allocation {
                    board: old(game_engine).state@,
                    player: old(players)@.allies.shown(Message::UBootResult(loss)),
                    hits: hits_for(old(game_engine).state@.resources(Side::Allies), loss),
                },
                Allocation {
                    board: final(game_engine).state@,
                    player: final(players)@.allies,
                    hits: left,
                },
            ),
        final(players)@.empires == old(players)@.empires.shown(Message::UBootResult(loss)),
        still_at_war(old(game_engine).state@, final(game_engine).state@)
            ==> final(game_engine).state.rng == old(game_engine).state.rng,
        final(game_engine).played_events == old(game_engine).played_events,
        same_turn(old(game_engine).state@, final(game_engine).state@),
        old(game_engine).state@.only_war_differs(final(game_engine).state@),
        old(game_engine).state@.peace_kept(final(game_engine).state@),
        final(game_engine).state@.allies.technologies == old(game_engine).state@.allies.technologies,
        final(game_engine).state@.empires.technologies
            == old(game_engine).state@.empires.technologies,
        final(game_engine).state@.allies.resources == old(game_engine).state@.allies.resources,
        final(game_engine).state@.empires.resources == old(game_engine).state@.empires.resources,
        old(players)@.goes_on_to(final(players)@),
{
    proof {
        lemma_steps_go_on(players@, Side::Allies, Message::UBootResult(loss));
    }
    players.output(&Output::UBootResult(loss));
    let pr: u8 = game_engine.state.resources_for(&Side::Allies);
    let mut hits: u8 = if loss > pr {
        loss - pr
    } else {
        0
    };
    let ghost start = Allocation { board: game_engine.state@, player: players@.allies, hits };
    let ghost mut dice: Seq<u8> = Seq::empty();
    while hits > 0 && players.has_input(Side::Allies)
        invariant
            game_engine.wf(),
            valid_dice(dice),
            still_at_war(old(game_engine).state@, game_engine.state@) ==> game_engine.state.rng
                == old(game_engine).state.rng,
            hit_run(start, dice) == (Allocation {
                board: game_engine.state@,
                player: players@.allies,
                hits,
            }),
            same_turn(old(game_engine).state@, game_engine.state@),
            old(game_engine).state@.only_war_differs(game_engine.state@),
            old(game_engine).state@.peace_kept(game_engine.state@),
            game_engine.state@.allies.technologies == old(game_engine).state@.allies.technologies,
            game_engine.state@.empires.technologies
                == old(game_engine).state@.empires.technologies,
            game_engine.state@.allies.resources == old(game_engine).state@.allies.resources,
            game_engine.state@.empires.resources == old(game_engine).state@.empires.resources,
            game_engine.played_events == old(game_engine).played_events,
            old(players)@.goes_on_to(players@),
            players@.empires == old(players)@.empires.shown(Message::UBootResult(loss)),
        decreases players@.allies.script.len(),
    {
        let ghost before = hit_run(start, dice);
        let ghost first = players@;
        let ghost board = game_engine.state@;
        proof {
            lemma_steps_go_on(first, Side::Allies, Message::SelectNationForHit);
        }
        players.output_to(Side::Allies, Output::SelectNationForHit);
        let ghost second = players@;
        proof {
            lemma_steps_go_on(second, Side::Allies, Message::SelectNationForHit);
            lemma_goes_on_transitive(old(players)@, first, second);
        }
        let input = players.input_from(Side::Allies);
        proof {
            lemma_goes_on_transitive(old(players)@, second, players@);
        }
        let taken: bool = game_engine.take_hit(input);
        if taken {
            hits = hits - 1;
        }
        proof {
            let die = choose|die: u8|
                1 <= die <= 6 && #[trigger] hit_decision(board, input, die) == (
                    game_engine.state@,
                    taken,
                );
            lemma_peace_kept_transitive(old(game_engine).state@, board, game_engine.state@);
            if still_at_war(old(game_engine).state@, game_engine.state@) {
                let earlier = old(game_engine).state@;
                let later = game_engine.state@;
                assert forall|n: Nation| earlier.at_war(n) implies #[trigger] board.at_war(n) by {
                    assert(later.at_war(n));
                }
                assert forall|n: Nation| board.at_war(n) implies #[trigger] later.at_war(n) by {
                    assert(earlier.at_war(n));
                }
            }
            let more = dice.push(die);
            assert(more.drop_last() =~= dice);
            assert(hit_run(start, more) == hit_step(before, die));
            dice = more;
        }
    }
    proof {
        assert(allocates(
            start,
            Allocation { board: game_engine.state@, player: players@.allies, hits },
        ));
    }
    if loss > pr {
        StateChange::ChangeResources { side: Side::Allies, pr: (loss - pr) as i8 }
    } else {
        StateChange::NoChange
    }
}

pub open spec fn spec_bonus_of(input: Input, held: u8) -> u8 {
    match input {
        Input::Number(n) => if n < held {
            n
        } else {
            held
        },
        _ => 0,
    }
}

/// The bonus that a decision buys for a roll at sea, for a side that holds
/// some resources: the number that the decision names, or what the side
/// holds if that is less; nothing if the decision names no number.
#[verifier::when_used_as_spec(spec_bonus_of)]
pub fn bonus_of(input: Input, held: u8) -> (bonus: u8)
    ensures
        bonus == spec_bonus_of(input, held),
        bonus <= held,
{
    match input {
        Input::Number(n) => if n < held {
            n
        } else {
            held
        },
        _ => 0,
    }
}

/// The bonus that counts for a roll of the submarines: what the decision
/// that the player of the Empires hands in next buys.
pub open spec fn uboot_bonus(players: PlayersView, board: Board) -> u8 {
    spec_bonus_of(players.empires.next_input(), board.empires.resources)
}

/// The bonus that counts for a roll of the blockade: what the decision
/// that the player of the Allies hands in next buys.
pub open spec fn blockade_bonus(players: PlayersView, board: Board) -> u8 {
    spec_bonus_of(players.allies.next_input(), board.allies.resources)
}

/// Whether the phase of the submarines leads from one point to another
/// with a given die, by way of a given allocation of hits. The player of
/// the Empires is asked for a bonus and the die is rolled; both players
/// are told what the Allies lose; the hits for what the Allies cannot pay
/// are allocated; then the Allies pay what they can and the Empires pay
/// the bonus.
pub open spec fn torpedoed(
    board: Board,
    players: PlayersView,
    after: Board,
    later: PlayersView,
    die: u8,
    hit: Board,
    left: u8,
) -> bool {
    let bonus = uboot_bonus(players, board);
    let loss = spec_uboot_loss(die, bonus);
    &&& 1 <= die <= 6
    &&& allocates(
        Allocation {
            board: board.in_phase(Phase::UBoot),
            player: players.allies.shown(Message::UBootResult(loss)),
            hits: hits_for(board.allies.resources, loss),
        },
        Allocation { board: hit, player: later.allies, hits: left },
    )
    &&& after == hit.with_resources(
        Side::Allies,
        after_loss(board.allies.resources, loss),
    ).with_resources(Side::Empires, (board.empires.resources - bonus) as u8)
    &&& later.empires == players.empires.shown(Message::IncreaseUBoot).asked().shown(
        Message::UBootResult(loss),
    )
}

/// Whether the phase of the submarines leads from one point to another,
/// with some die and some allocation of hits.
pub open spec fn torpedoes(
    board: Board,
    players: PlayersView,
    after: Board,
    later: PlayersView,
) -> bool {
    exists|die: u8, hit: Board, left: u8| #[trigger]
        torpedoed(board, players, after, later, die, hit, left)
}

/// The phase of the submarines. The player of the Empires names a bonus,
/// of which no more counts than the Empires hold; anything but a number
/// is no bonus. A die is rolled; the Empires pay the bonus, and the
/// Allies pay what the table gives, with resources as far as they have
/// them and with hits beyond.
pub fn uboot(players: &mut Players, game_engine: &mut GameEngine)
    requires
        old(game_engine).wf(),
    ensures
        torpedoes(
            old(game_engine).state@,
            old(players)@,
            final(game_engine).state@,
            final(players)@,
        ),
        final(game_engine).played_events == old(game_engine).played_events,
        same_turn(old(game_engine).state@, final(game_engine).state@),
        (Board { phase: Phase::UBoot, ..old(game_engine).state@ }).only_war_differs(
            final(game_engine).state@,
        ),
        old(game_engine).state@.peace_kept(final(game_engine).state@),
        final(game_engine).state@.allies.technologies == old(game_engine).state@.allies.technologies,
        final(game_engine).state@.empires.technologies
            == old(game_engine).state@.empires.technologies,
        final(game_engine).state@.allies.resources <= old(game_engine).state@.allies.resources,
        final(game_engine).state@.empires.resources <= old(game_engine).state@.empires.resources,
        old(players)@.goes_on_to(final(players)@),
{
    game_engine.set_phase(Phase::UBoot);
    let ghost start = game_engine.state@;
    proof {
        lemma_steps_go_on(players@, Side::Empires, Message::IncreaseUBoot);
    }
    players.output_to(Side::Empires, Output::IncreaseUBoot);
    let ghost shown = players@;
    proof {
        lemma_steps_go_on(players@, Side::Empires, Message::IncreaseUBoot);
    }
    let held: u8 = game_engine.state.resources_for(&Side::Empires);
    let bonus: u8 = bonus_of(players.input_from(Side::Empires), held);
    let ghost asked = players@;
    proof {
        lemma_goes_on_transitive(old(players)@, shown, asked);
        assert(bonus == uboot_bonus(old(players)@, old(game_engine).state@));
    }
    let change = game_engine.uboot_losses(bonus);
    let ghost die = choose|die: u8| 1 <= die <= 6 && #[trigger] is_uboot_change(change, die, bonus);
    let ghost taken = StateChange::ChangeResources {
        side: Side::Allies,
        pr: (-(spec_uboot_loss(die, bonus) as int)) as i8,
    };
    let ghost paid = StateChange::ChangeResources {
        side: Side::Empires,
        pr: (-(bonus as int)) as i8,
    };
    proof {
        lemma_pair(start, change, taken, paid);
    }
    let loss: u8 = change.allies_loss();
    let pr_lost = apply_hits(players, game_engine, loss);
    proof {
        lemma_goes_on_transitive(old(players)@, asked, players@);
    }
    let ghost hit = game_engine.state@;
    let mut changes: Vec<StateChange> = Vec::new();
    changes.push(pr_lost);
    changes.push(change);
    let both = StateChange::MoreChanges(changes);
    game_engine.apply_change(&both);
    proof {
        let first = both->MoreChanges_0@[0];
        assert(both->MoreChanges_0@ =~= seq![first, change]);
        lemma_pair(hit, both, first, change);
        lemma_pair(hit.apply_change(first), change, taken, paid);
        crate::change::lemma_change_keeps_rest(hit, both);
        assert(forall|n: Nation| game_engine.state@.nation(n) == hit.nation(n));
        assert forall|n: Nation| !old(game_engine).state@.at_war(n) implies !#[trigger] game_engine.state@.at_war(
            n,
        ) by {
            assert(start.nation(n) == old(game_engine).state@.nation(n));
            assert(!hit.at_war(n));
            assert(game_engine.state@.nation(n) == hit.nation(n));
        }
        let left = choose|left: u8|
            #[trigger] allocates(
                Allocation {
                    board: start,
                    player: asked.allies.shown(Message::UBootResult(loss)),
                    hits: hits_for(start.resources(Side::Allies), loss),
                },
                Allocation { board: hit, player: players@.allies, hits: left },
            );
        assert(allocates(
            Allocation {
                board: old(game_engine).state@.in_phase(Phase::UBoot),
                player: old(players)@.allies.shown(
                    Message::UBootResult(
                        spec_uboot_loss(die, uboot_bonus(old(players)@, old(game_engine).state@)),
                    ),
                ),
                hits: hits_for(old(game_engine).state@.allies.resources, loss),
            },
            Allocation { board: hit, player: players@.allies, hits: left },
        ));
        assert(game_engine.state@ == hit.with_resources(
            Side::Allies,
            after_loss(old(game_engine).state@.allies.resources, loss),
        ).with_resources(
            Side::Empires,
            (old(game_engine).state@.empires.resources - bonus) as u8,
        ));
        assert(torpedoed(
            old(game_engine).state@,
            old(players)@,
            game_engine.state@,
            players@,
            die,
            hit,
            left,
        ));
    }
}

/// Whether the phase of the blockade leads from one point to another with
/// a given die. The player of the Allies is asked for a bonus and the die
/// is rolled; the Empires receive what the table gives, the Allies pay
/// the bonus, and both players are told what the Empires received.
pub open spec fn blockaded(
    board: Board,
    players: PlayersView,
    after: Board,
    later: PlayersView,
    die: u8,
) -> bool {
    let bonus = blockade_bonus(players, board);
    let gain = spec_blockade_gain(die, bonus);
    &&& 1 <= die <= 6
    &&& after == board.in_phase(Phase::Blockade).increase_pr(Side::Empires, gain).decrease_pr(
        Side::Allies,
        bonus,
    )
    &&& later == players.shown_to(Side::Allies, Message::IncreaseBlockade).asked(
        Side::Allies,
    ).shown(Message::BlockadeResult(gain))
}

/// Whether the phase of the blockade leads from one point to another,
/// with some die.
pub open spec fn blockades(
    board: Board,
    players: PlayersView,
    after: Board,
    later: PlayersView,
) -> bool {
    exists|die: u8| #[trigger] blockaded(board, players, after, later, die)
}

/// The phase of the blockade. The player of the Allies names a bonus, of
/// which no more counts than the Allies hold; anything but a number is no
/// bonus. A die is rolled; the Empires receive what the table gives, the
/// Allies pay the bonus, and both players are told what the Empires
/// received.
pub fn blocus(players: &mut Players, game_engine: &mut GameEngine)
    requires
        old(game_engine).wf(),
    ensures
        blockades(
            old(game_engine).state@,
            old(players)@,
            final(game_engine).state@,
            final(players)@,
        ),
        final(game_engine).played_events == old(game_engine).played_events,
        same_turn(old(game_engine).state@, final(game_engine).state@),
        (Board { phase: Phase::Blockade, ..old(game_engine).state@ }).only_war_differs(
            final(game_engine).state@,
        ),
        final(game_engine).state@.nations == old(game_engine).state@.nations,
        old(game_engine).state@.peace_kept(final(game_engine).state@),
        old(players)@.goes_on_to(final(players)@),
{
    game_engine.set_phase(Phase::Blockade);
    let ghost start = game_engine.state@;
    players.output_to(Side::Allies, Output::IncreaseBlockade);
    let ghost shown = players@;
    let held: u8 = game_engine.state.resources_for(&Side::Allies);
    let bonus: u8 = bonus_of(players.input_from(Side::Allies), held);
    let ghost asked = players@;
    let change = game_engine.blockade_effect(bonus);
    let ghost die = choose|die: u8|
        1 <= die <= 6 && #[trigger] is_blockade_change(change, die, bonus);
    let ghost gained = StateChange::ChangeResources {
        side: Side::Empires,
        pr: spec_blockade_gain(die, bonus) as i8,
    };
    let ghost paid = StateChange::ChangeResources {
        side: Side::Allies,
        pr: (-(bonus as int)) as i8,
    };
    proof {
        lemma_pair(start, change, gained, paid);
        crate::change::lemma_change_keeps_rest(start, change);
        assert(bonus == blockade_bonus(old(players)@, old(game_engine).state@));
    }
    game_engine.apply_change(&change);
    let gain: u8 = change.empires_gain();
    players.output(&Output::BlockadeResult(gain));
    proof {
        lemma_steps_go_on(old(players)@, Side::Allies, Message::IncreaseBlockade);
        lemma_steps_go_on(shown, Side::Allies, Message::IncreaseBlockade);
        lemma_steps_go_on(asked, Side::Allies, Message::BlockadeResult(gain));
        lemma_goes_on_transitive(old(players)@, shown, asked);
        lemma_goes_on_transitive(old(players)@, asked, players@);
        assert(forall|n: Nation| game_engine.state@.nation(n) == old(game_engine).state@.nation(n));
        assert(spec_blockade_gain(die, blockade_bonus(old(players)@, old(game_engine).state@))
            == gain);
        assert(blockaded(
            old(game_engine).state@,
            old(players)@,
            game_engine.state@,
            players@,
            die,
        ));
    }
}

/// Whether the fight of a side for the sea leads from one game to
/// another: the submarines for the Empires, the blockade for the Allies.
/// The active events are left as they are.
pub open spec fn fights_at_sea(side: Side, before: Table, after: Table) -> bool {
    &&& match side {
        Side::Empires => torpedoes(before.board, before.players, after.board, after.players),
        Side::Allies => blockades(before.board, before.players, after.board, after.players),
    }
    &&& after.active == before.active
}

/// The phase in which a side fights for the sea: the Empires with their
/// submarines, the Allies with their blockade.
pub fn sea_control(initiative: Side, players: &mut Players, game_engine: &mut GameEngine)
    requires
        old(game_engine).wf(),
    ensures
        fights_at_sea(
            initiative,
            table(*old(game_engine), *old(players)),
            table(*final(game_engine), *final(players)),
        ),
        final(game_engine).played_events == old(game_engine).played_events,
        same_turn(old(game_engine).state@, final(game_engine).state@),
        old(game_engine).state@.peace_kept(final(game_engine).state@),
        final(game_engine).state@.phase == match initiative {
            Side::Empires => Phase::UBoot,
            Side::Allies => Phase::Blockade,
        },
        final(game_engine).state@.events_pool == old(game_engine).state@.events_pool,
        final(game_engine).state@.initiative == old(game_engine).state@.initiative,
        old(players)@.goes_on_to(final(players)@),
{
    match initiative {
        Side::Empires => uboot(players, game_engine),
        Side::Allies => blocus(players, game_engine),
    }
}

} // verus!
