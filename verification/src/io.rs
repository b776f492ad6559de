//! What passes between the engine and the players: the decisions players
//! hand in, the messages they are shown, and a player that follows a
//! script.

use vstd::prelude::*;
use crate::side::{Nation, Side};
use crate::state::{Board, GameState, ImprovementView, OffensiveOutcome, TechnologyImprovement};
use crate::tech::TechnologyType;

verus! {

/// A decision of a player.
#[derive(Clone, Copy, Debug, PartialEq, Eq, Structural)]
pub enum Input {
    Number(u8),
    Select(TechnologyType, u8),
    Offensive(Nation, Nation, u8),
    Reinforce(Nation, u8),
    ApplyHit(Nation),
    Pass,
}

/// A message to a player.
#[derive(Clone, Debug, PartialEq, Eq)]
pub enum Output {
    CurrentState(GameState),
    TurnFor(Side, u8),
    ImproveTechnologies(Vec<TechnologyType>),
    LaunchOffensive(Vec<Nation>),
    ReinforceNations,
    IncreaseUBoot,
    IncreaseBlockade,
    UBootResult(u8),
    BlockadeResult(u8),
    OffensiveResult { from: Nation, to: Nation, result: OffensiveOutcome },
    TechnologyResult(TechnologyImprovement),
    EventDrawn(u8, String),
    SelectNationForHit,
    ChooseInitiative,
    CountryAlreadyAttacked(Nation),
    AttackingNonAdjacentCountry(Nation, Nation),
    WrongInput(Input),
}

/// A message as the proofs see it.
pub enum Message {
    CurrentState(Board),
    TurnFor(Side, u8),
    ImproveTechnologies(Seq<TechnologyType>),
    LaunchOffensive(Seq<Nation>),
    ReinforceNations,
    IncreaseUBoot,
    IncreaseBlockade,
    UBootResult(u8),
    BlockadeResult(u8),
    OffensiveResult { from: Nation, to: Nation, result: OffensiveOutcome },
    TechnologyResult(ImprovementView),
    EventDrawn(u8, Seq<char>),
    SelectNationForHit,
    ChooseInitiative,
    CountryAlreadyAttacked(Nation),
    AttackingNonAdjacentCountry(Nation, Nation),
    WrongInput(Input),
}

impl View for Output {
    type V = Message;

    open spec fn view(&self) -> Message {
        match *self {
            Output::CurrentState(state) => Message::CurrentState(state@),
            Output::TurnFor(side, turn) => Message::TurnFor(side, turn),
            Output::ImproveTechnologies(available) => Message::ImproveTechnologies(available@),
            Output::LaunchOffensive(nations) => Message::LaunchOffensive(nations@),
            Output::ReinforceNations => Message::ReinforceNations,
            Output::IncreaseUBoot => Message::IncreaseUBoot,
            Output::IncreaseBlockade => Message::IncreaseBlockade,
            Output::UBootResult(loss) => Message::UBootResult(loss),
            Output::BlockadeResult(gain) => Message::BlockadeResult(gain),
            Output::OffensiveResult { from, to, result } => Message::OffensiveResult {
                from,
                to,
                result,
            },
            Output::TechnologyResult(result) => Message::TechnologyResult(result@),
            Output::EventDrawn(id, title) => Message::EventDrawn(id, title@),
            Output::SelectNationForHit => Message::SelectNationForHit,
            Output::ChooseInitiative => Message::ChooseInitiative,
            Output::CountryAlreadyAttacked(nation) => Message::CountryAlreadyAttacked(nation),
            Output::AttackingNonAdjacentCountry(from, to) => Message::AttackingNonAdjacentCountry(
                from,
                to,
            ),
            Output::WrongInput(input) => Message::WrongInput(input),
        }
    }
}

impl TechnologyImprovement {
    /// A copy of the result.
    pub fn duplicate(&self) -> (copy: TechnologyImprovement)
        ensures
            copy@ == self@,
    {
        match self {
            TechnologyImprovement::ImprovedTechnology(t, pr) => {
                TechnologyImprovement::ImprovedTechnology(*t, *pr)
            },
            TechnologyImprovement::FailedTechnology(t, pr) => {
                TechnologyImprovement::FailedTechnology(*t, *pr)
            },
            TechnologyImprovement::TechnologyNotAvailable(name, date, year) => {
                TechnologyImprovement::TechnologyNotAvailable(name.clone(), *date, *year)
            },
            TechnologyImprovement::NoMoreTechnologyImprovement(t, level) => {
                TechnologyImprovement::NoMoreTechnologyImprovement(*t, *level)
            },
        }
    }
}

impl Output {
    /// A copy of the message.
    pub fn duplicate(&self) -> (copy: Output)
        ensures
            copy@ == self@,
    {
        match self {
            Output::CurrentState(state) => Output::CurrentState(state.snapshot()),
            Output::TurnFor(side, turn) => Output::TurnFor(*side, *turn),
            Output::ImproveTechnologies(available) => {
                let copy = available.clone();
                proof {
                    assert(copy@ =~= available@);
                }
                Output::ImproveTechnologies(copy)
            },
            Output::LaunchOffensive(nations) => {
                let copy = nations.clone();
                proof {
                    assert(copy@ =~= nations@);
                }
                Output::LaunchOffensive(copy)
            },
            Output::ReinforceNations => Output::ReinforceNations,
            Output::IncreaseUBoot => Output::IncreaseUBoot,
            Output::IncreaseBlockade => Output::IncreaseBlockade,
            Output::UBootResult(loss) => Output::UBootResult(*loss),
            Output::BlockadeResult(gain) => Output::BlockadeResult(*gain),
            Output::OffensiveResult { from, to, result } => Output::OffensiveResult {
                from: *from,
                to: *to,
                result: *result,
            },
            Output::TechnologyResult(result) => Output::TechnologyResult(result.duplicate()),
            Output::EventDrawn(id, title) => Output::EventDrawn(*id, title.clone()),
            Output::SelectNationForHit => Output::SelectNationForHit,
            Output::ChooseInitiative => Output::ChooseInitiative,
            Output::CountryAlreadyAttacked(nation) => Output::CountryAlreadyAttacked(*nation),
            Output::AttackingNonAdjacentCountry(from, to) => Output::AttackingNonAdjacentCountry(
                *from,
                *to,
            ),
            Output::WrongInput(input) => Output::WrongInput(*input),
        }
    }
}

/// The messages of a list, as the proofs see them.
pub open spec fn messages(out: Seq<Output>) -> Seq<Message> {
    out.map_values(|o: Output| o@)
}

/// A player that follows a script: it hands in the decisions written for
/// it, one after the other, and keeps every message it is shown.
#[derive(Clone, Debug, PartialEq, Eq)]
pub struct RobotIO {
    pub side: Side,
    /// The whole script; the decisions before `next` have been handed in.
    pub inputs: Vec<Input>,
    pub next: usize,
    pub out: Vec<Output>,
}

/// A scripted player as the proofs see it: the decisions it has yet to hand
/// in and the messages it has been shown.
pub struct PlayerView {
    pub side: Side,
    pub script: Seq<Input>,
    pub out: Seq<Message>,
}

impl View for RobotIO {
    type V = PlayerView;

    open spec fn view(&self) -> PlayerView {
        PlayerView {
            side: self.side,
            script: if self.next <= self.inputs@.len() {
                self.inputs@.skip(self.next as int)
            } else {
                Seq::empty()
            },
            out: messages(self.out@),
        }
    }
}

impl PlayerView {
    /// The player after it was shown a message.
    pub open spec fn shown(self, message: Message) -> PlayerView {
        PlayerView { out: self.out.push(message), ..self }
    }

    /// The decision that the player hands in next: the next one of its
    /// script, or a pass where the script has run out.
    pub open spec fn next_input(self) -> Input {
        if self.script.len() > 0 {
            self.script[0]
        } else {
            Input::Pass
        }
    }

    /// The player after it has handed in a decision.
    pub open spec fn asked(self) -> PlayerView {
        if self.script.len() > 0 {
            PlayerView { script: self.script.skip(1), ..self }
        } else {
            self
        }
    }
}

impl RobotIO {
    /// A player with an empty script.
    pub fn new(side: &Side) -> (player: RobotIO)
        ensures
            player@ == (PlayerView { side: *side, script: Seq::empty(), out: Seq::empty() }),
    {
        let player = RobotIO { side: *side, inputs: Vec::new(), next: 0, out: Vec::new() };
        proof {
            assert(player@.script =~= Seq::empty());
            assert(player@.out =~= Seq::empty());
        }
        player
    }

    /// Writes one more decision at the end of the script.
    pub fn add_input(&mut self, input: Input)
        ensures
            final(self)@ == (PlayerView { script: old(self)@.script.push(input), ..old(self)@ }),
    {
        if self.next > self.inputs.len() {
            self.next = self.inputs.len();
        }
        self.inputs.push(input);
        proof {
            assert(self@.script =~= old(self)@.script.push(input));
        }
    }

    /// Whether the script holds a decision that was not handed in yet.
    pub fn has_input(&self) -> (b: bool)
        ensures
            b == (self@.script.len() > 0),
    {
        self.next < self.inputs.len()
    }

    /// Shows the player a message.
    pub fn output(&mut self, message: Output)
        ensures
            final(self)@ == old(self)@.shown(message@),
    {
        self.out.push(message);
        proof {
            assert(messages(self.out@) =~= messages(old(self).out@).push(message@));
        }
    }

    /// The next decision of the player: the next one of its script, or a
    /// pass where the script has run out.
    pub fn input(&mut self) -> (input: Input)
        ensures
            input == old(self)@.next_input(),
            final(self)@ == old(self)@.asked(),
    {
        if self.next < self.inputs.len() {
            let input = self.inputs[self.next];
            self.next = self.next + 1;
            proof {
                assert(self@.script =~= old(self)@.script.skip(1));
            }
            input
        } else {
            Input::Pass
        }
    }

    /// The messages that the player was shown, in order.
    pub fn out(&self) -> (copy: Vec<Output>)
        ensures
            messages(copy@) == self@.out,
    {
        let mut copy: Vec<Output> = Vec::new();
        let mut i: usize = 0;
        while i < self.out.len()
            invariant
                i <= self.out@.len(),
                copy@.len() == i,
                forall|j: int| 0 <= j < i ==> copy@[j]@ == self.out@[j]@,
            decreases self.out@.len() - i,
        {
            copy.push(self.out[i].duplicate());
            i += 1;
        }
        proof {
            assert(messages(copy@) =~= messages(self.out@));
        }
        copy
    }
}

/// What the engine answers to a decision of a player: a message, if there
/// is one to show, and whether the phase is over.
pub struct Reply {
    pub message: Option<Output>,
    pub over: bool,
}

impl Reply {
    /// The message of the reply as the proofs see it.
    pub open spec fn shown(&self) -> Option<Message> {
        match self.message {
            Some(m) => Some(m@),
            None => None,
        }
    }
}

/// A player after it was shown a message, if there is one.
pub open spec fn answered(player: PlayerView, message: Option<Message>) -> PlayerView {
    match message {
        Some(m) => player.shown(m),
        None => player,
    }
}

/// What a player has been shown after a round: what it had been shown, the
/// prompt of the round, and the answer if there was one.
pub open spec fn answered_out(
    earlier: Seq<Message>,
    prompt: Message,
    answer: Option<Message>,
) -> Seq<Message> {
    match answer {
        Some(m) => earlier.push(prompt).push(m),
        None => earlier.push(prompt),
    }
}

/// The two players of a game.
#[derive(Clone, Debug, PartialEq, Eq)]
pub struct Players {
    pub allies_player: RobotIO,
    pub empires_player: RobotIO,
}

/// The two players as the proofs see them.
pub struct PlayersView {
    pub allies: PlayerView,
    pub empires: PlayerView,
}

impl View for Players {
    type V = PlayersView;

    open spec fn view(&self) -> PlayersView {
        PlayersView { allies: self.allies_player@, empires: self.empires_player@ }
    }
}

impl PlayersView {
    /// The player of a side.
    pub open spec fn player(self, side: Side) -> PlayerView {
        match side {
            Side::Allies => self.allies,
            Side::Empires => self.empires,
        }
    }

    /// The players with another player for a side.
    pub open spec fn with_player(self, side: Side, player: PlayerView) -> PlayersView {
        match side {
            Side::Allies => PlayersView { allies: player, ..self },
            Side::Empires => PlayersView { empires: player, ..self },
        }
    }

    /// The players after both were shown a message.
    pub open spec fn shown(self, message: Message) -> PlayersView {
        PlayersView { allies: self.allies.shown(message), empires: self.empires.shown(message) }
    }

    /// The players after one of them was shown a message.
    pub open spec fn shown_to(self, side: Side, message: Message) -> PlayersView {
        self.with_player(side, self.player(side).shown(message))
    }

    /// The players after one of them has handed in a decision.
    pub open spec fn asked(self, side: Side) -> PlayersView {
        self.with_player(side, self.player(side).asked())
    }

    /// Whether `later` can come of `self` in the course of a game: no
    /// message is taken back, and what is left of each script is the end
    /// of what was left.
    pub open spec fn goes_on_to(self, later: PlayersView) -> bool {
        &&& self.allies.out.is_prefix_of(later.allies.out)
        &&& self.empires.out.is_prefix_of(later.empires.out)
        &&& later.allies.script.is_suffix_of(self.allies.script)
        &&& later.empires.script.is_suffix_of(self.empires.script)
        &&& later.allies.side == self.allies.side
        &&& later.empires.side == self.empires.side
    }
}

impl Players {
    /// Shows both players a message.
    pub fn output(&mut self, message: &Output)
        ensures
            final(self)@ == old(self)@.shown(message@),
    {
        self.allies_player.output(message.duplicate());
        self.empires_player.output(message.duplicate());
    }

    /// Shows the player of a side a message.
    pub fn output_to(&mut self, side: Side, message: Output)
        ensures
            final(self)@ == old(self)@.shown_to(side, message@),
    {
        match side {
            Side::Allies => self.allies_player.output(message),
            Side::Empires => self.empires_player.output(message),
        }
    }

    /// The next decision of the player of a side.
    pub fn input_from(&mut self, side: Side) -> (input: Input)
        ensures
            input == old(self)@.player(side).next_input(),
            final(self)@ == old(self)@.asked(side),
    {
        match side {
            Side::Allies => self.allies_player.input(),
            Side::Empires => self.empires_player.input(),
        }
    }

    /// Whether the script of the player of a side holds a decision that
    /// was not handed in yet.
    pub fn has_input(&self, side: Side) -> (b: bool)
        ensures
            b == (self@.player(side).script.len() > 0),
    {
        match side {
            Side::Allies => self.allies_player.has_input(),
            Side::Empires => self.empires_player.has_input(),
        }
    }

    /// The messages that both players were shown: those of the Allies,
    /// then those of the Empires.
    pub fn out(&self) -> (all: Vec<Output>)
        ensures
            messages(all@) == self@.allies.out + self@.empires.out,
    {
        let mut all = self.allies_player.out();
        let mut more = self.empires_player.out();
        let ghost first = all@;
        let ghost second = more@;
        all.append(&mut more);
        proof {
            assert(messages(all@) =~= messages(first) + messages(second));
        }
        all
    }
}

} // verus!
