//! The events that chance brings into a game: a catalogue, and the year in
//! which each turn is played.

use vstd::prelude::*;
use crate::sequences::{
    lemma_filter_no_duplicates, lemma_filter_sources, lemma_filter_take_ends,
    lemma_filter_take_step,
};
use crate::side::{Nation, Side};

verus! {

/// What an event does when it is played.
#[derive(Clone, Copy, Debug, PartialEq, Eq, Structural)]
pub enum Effect {
    /// Nothing happens.
    Nothing,
    /// The Empires receive 2 resources and Germany at once attacks France
    /// with them.
    SchlieffenPlan,
    /// Until the turn ends, offensives between France and Germany roll
    /// with a bonus.
    RaceToTheSea,
    /// A nation joins the war at its initial breakdown.
    EntersWar(Nation),
    /// A side gains resources, or loses them where the amount is negative.
    Resources(Side, i8),
}

/// An event of the catalogue.
#[derive(Clone, Copy, Debug, PartialEq, Eq)]
pub struct Event {
    pub event_id: u8,
    pub title: &'static str,
    /// The year at whose start the event joins the pool.
    pub year: u16,
    /// The last year in which the event can still be drawn. An event that
    /// has none stays in the pool until it is drawn.
    pub not_after: Option<u16>,
    pub effect: Effect,
}

/// How many events the catalogue holds. Their ids run from 1 to this number.
pub const EVENT_COUNT: u8 = 21;

/// The first and last year of the war.
pub const FIRST_YEAR: u16 = 1914;

pub const LAST_YEAR: u16 = 1919;

/// The last turn that is played.
pub const LAST_TURN: u8 = 14;

pub open spec fn spec_event(id: u8) -> Option<Event> {
    match id {
        1 => Some(
            Event { event_id: 1, title: "All is quiet", year: 1914, not_after: Some(1914), effect: Effect::Nothing },
        ),
        2 => Some(
            Event { event_id: 2, title: "All is quiet", year: 1914, not_after: Some(1914), effect: Effect::Nothing },
        ),
        3 => Some(
            Event { event_id: 3, title: "Schlieffen plan", year: 1914, not_after: Some(1914), effect: Effect::SchlieffenPlan },
        ),
        4 => Some(
            Event { event_id: 4, title: "Race to the sea", year: 1914, not_after: Some(1914), effect: Effect::RaceToTheSea },
        ),
        5 => Some(
            Event { event_id: 5, title: "Shells crisis", year: 1915, not_after: Some(1915), effect: Effect::Resources(Side::Allies, -1i8) },
        ),
        6 => Some(
            Event { event_id: 6, title: "Gas!", year: 1915, not_after: Some(1915), effect: Effect::Nothing },
        ),
        7 => Some(
            Event { event_id: 7, title: "Von Lettow in Africa", year: 1915, not_after: None, effect: Effect::Nothing },
        ),
        8 => Some(
            Event { event_id: 8, title: "Gallipoli", year: 1915, not_after: Some(1915), effect: Effect::Resources(Side::Allies, -2i8) },
        ),
        9 => Some(
            Event { event_id: 9, title: "Towards separated peace?", year: 1915, not_after: None, effect: Effect::Nothing },
        ),
        10 => Some(
            Event { event_id: 10, title: "Italy enters war!", year: 1915, not_after: None, effect: Effect::EntersWar(Nation::Italy) },
        ),
        11 => Some(
            Event { event_id: 11, title: "Bulgaria enters war!", year: 1915, not_after: None, effect: Effect::EntersWar(Nation::Bulgaria) },
        ),
        12 => Some(
            Event { event_id: 12, title: "Lusitania sunk", year: 1915, not_after: Some(1915), effect: Effect::Nothing },
        ),
        13 => Some(
            Event { event_id: 13, title: "All is quiet", year: 1915, not_after: None, effect: Effect::Nothing },
        ),
        14 => Some(
            Event { event_id: 14, title: "Verdun", year: 1916, not_after: Some(1916), effect: Effect::Nothing },
        ),
        15 => Some(
            Event { event_id: 15, title: "Battle of Jutland", year: 1916, not_after: Some(1916), effect: Effect::Resources(Side::Empires, -1i8) },
        ),
        16 => Some(
            Event { event_id: 16, title: "Romania enters war!", year: 1916, not_after: None, effect: Effect::EntersWar(Nation::Romania) },
        ),
        17 => Some(
            Event { event_id: 17, title: "Unrestricted submarine warfare", year: 1917, not_after: Some(1917), effect: Effect::Resources(Side::Allies, -1i8) },
        ),
        18 => Some(
            Event { event_id: 18, title: "Greece enters war!", year: 1917, not_after: None, effect: Effect::EntersWar(Nation::Greece) },
        ),
        19 => Some(
            Event { event_id: 19, title: "Mutinies", year: 1917, not_after: Some(1917), effect: Effect::Resources(Side::Allies, -1i8) },
        ),
        20 => Some(
            Event { event_id: 20, title: "Spanish flu", year: 1918, not_after: Some(1918), effect: Effect::Resources(Side::Empires, -1i8) },
        ),
        21 => Some(
            Event { event_id: 21, title: "All is quiet", year: 1918, not_after: None, effect: Effect::Nothing },
        ),
        _ => None,
    }
}

/// The event of the catalogue with a given id.
#[verifier::when_used_as_spec(spec_event)]
pub fn event(id: u8) -> (e: Option<Event>)
    ensures
        e == spec_event(id),
{
    match id {
        1 => Some(
            Event { event_id: 1, title: "All is quiet", year: 1914, not_after: Some(1914), effect: Effect::Nothing },
        ),
        2 => Some(
            Event { event_id: 2, title: "All is quiet", year: 1914, not_after: Some(1914), effect: Effect::Nothing },
        ),
        3 => Some(
            Event { event_id: 3, title: "Schlieffen plan", year: 1914, not_after: Some(1914), effect: Effect::SchlieffenPlan },
        ),
        4 => Some(
            Event { event_id: 4, title: "Race to the sea", year: 1914, not_after: Some(1914), effect: Effect::RaceToTheSea },
        ),
        5 => Some(
            Event { event_id: 5, title: "Shells crisis", year: 1915, not_after: Some(1915), effect: Effect::Resources(Side::Allies, -1i8) },
        ),
        6 => Some(
            Event { event_id: 6, title: "Gas!", year: 1915, not_after: Some(1915), effect: Effect::Nothing },
        ),
        7 => Some(
            Event { event_id: 7, title: "Von Lettow in Africa", year: 1915, not_after: None, effect: Effect::Nothing },
        ),
        8 => Some(
            Event { event_id: 8, title: "Gallipoli", year: 1915, not_after: Some(1915), effect: Effect::Resources(Side::Allies, -2i8) },
        ),
        9 => Some(
            Event { event_id: 9, title: "Towards separated peace?", year: 1915, not_after: None, effect: Effect::Nothing },
        ),
        10 => Some(
            Event { event_id: 10, title: "Italy enters war!", year: 1915, not_after: None, effect: Effect::EntersWar(Nation::Italy) },
        ),
        11 => Some(
            Event { event_id: 11, title: "Bulgaria enters war!", year: 1915, not_after: None, effect: Effect::EntersWar(Nation::Bulgaria) },
        ),
        12 => Some(
            Event { event_id: 12, title: "Lusitania sunk", year: 1915, not_after: Some(1915), effect: Effect::Nothing },
        ),
        13 => Some(
            Event { event_id: 13, title: "All is quiet", year: 1915, not_after: None, effect: Effect::Nothing },
        ),
        14 => Some(
            Event { event_id: 14, title: "Verdun", year: 1916, not_after: Some(1916), effect: Effect::Nothing },
        ),
        15 => Some(
            Event { event_id: 15, title: "Battle of Jutland", year: 1916, not_after: Some(1916), effect: Effect::Resources(Side::Empires, -1i8) },
        ),
        16 => Some(
            Event { event_id: 16, title: "Romania enters war!", year: 1916, not_after: None, effect: Effect::EntersWar(Nation::Romania) },
        ),
        17 => Some(
            Event { event_id: 17, title: "Unrestricted submarine warfare", year: 1917, not_after: Some(1917), effect: Effect::Resources(Side::Allies, -1i8) },
        ),
        18 => Some(
            Event { event_id: 18, title: "Greece enters war!", year: 1917, not_after: None, effect: Effect::EntersWar(Nation::Greece) },
        ),
        19 => Some(
            Event { event_id: 19, title: "Mutinies", year: 1917, not_after: Some(1917), effect: Effect::Resources(Side::Allies, -1i8) },
        ),
        20 => Some(
            Event { event_id: 20, title: "Spanish flu", year: 1918, not_after: Some(1918), effect: Effect::Resources(Side::Empires, -1i8) },
        ),
        21 => Some(
            Event { event_id: 21, title: "All is quiet", year: 1918, not_after: None, effect: Effect::Nothing },
        ),
        _ => None,
    }
}

/// Whether an event is one of the catalogue.
pub open spec fn in_catalogue(e: Event) -> bool {
    spec_event(e.event_id) == Some(e)
}

/// The catalogue holds an event for each id from 1 to `EVENT_COUNT` and for
/// no other; each event carries its own id, joins the pool in a year of the
/// war, and cannot expire before it joins.
pub proof fn lemma_catalogue(id: u8)
    ensures
        spec_event(id) is Some <==> 1 <= id <= EVENT_COUNT,
        match spec_event(id) {
            Some(e) => {
                &&& e.event_id == id
                &&& in_catalogue(e)
                &&& FIRST_YEAR <= e.year < LAST_YEAR
                &&& match e.not_after {
                    Some(last) => e.year <= last,
                    None => true,
                }
            },
            None => true,
        },
{
}

/// The catalogue as a sequence, in the order of the ids.
pub open spec fn catalogue() -> Seq<Event> {
    Seq::new(EVENT_COUNT as nat, |i: int| spec_event((i + 1) as u8).unwrap())
}

/// The catalogue lists every event once.
pub proof fn lemma_catalogue_no_duplicates()
    ensures
        catalogue().no_duplicates(),
        forall|i: int| 0 <= i < catalogue().len() ==> in_catalogue(#[trigger] catalogue()[i]),
        forall|e: Event| in_catalogue(e) ==> catalogue().contains(e),
{
    assert forall|i: int| 0 <= i < catalogue().len() implies in_catalogue(
        #[trigger] catalogue()[i],
    ) && catalogue()[i].event_id == i + 1 by {
        lemma_catalogue((i + 1) as u8);
    }
    assert forall|e: Event| in_catalogue(e) implies catalogue().contains(e) by {
        lemma_catalogue(e.event_id);
        assert(catalogue()[e.event_id - 1] == e);
    }
}

/// The whole catalogue, in the order of the ids.
pub fn all_events() -> (all: Vec<Event>)
    ensures
        all@ == catalogue(),
{
    let mut all: Vec<Event> = Vec::new();
    let mut id: u8 = 1;
    while id <= EVENT_COUNT
        invariant
            1 <= id <= EVENT_COUNT + 1,
            all@.len() == id - 1,
            forall|i: int| 0 <= i < id - 1 ==> spec_event((i + 1) as u8) == Some(#[trigger] all@[i]),
        decreases EVENT_COUNT + 1 - id,
    {
        proof {
            lemma_catalogue(id);
        }
        match event(id) {
            Some(e) => {
                all.push(e);
            },
            None => {},
        }
        id += 1;
    }
    proof {
        assert(all@ =~= catalogue());
    }
    all
}

pub open spec fn spec_events_of_year(year: u16) -> Seq<Event> {
    catalogue().filter(|e: Event| e.year == year)
}

/// The events that join the pool when a year begins, in the order of the
/// catalogue.
pub fn events_of_year(year: u16) -> (events: Vec<Event>)
    ensures
        events@ == spec_events_of_year(year),
{
    let all = all_events();
    let mut events: Vec<Event> = Vec::new();
    let mut i: usize = 0;
    let ghost pred = |e: Event| e.year == year;
    proof {
        lemma_filter_take_ends(all@, pred);
    }
    while i < all.len()
        invariant
            i <= all@.len(),
            all@ == catalogue(),
            all@.len() == EVENT_COUNT,
            pred == (|e: Event| e.year == year),
            events@ == all@.take(i as int).filter(pred),
        decreases all@.len() - i,
    {
        proof {
            lemma_filter_take_step(all@, pred, i as int);
        }
        if all[i].year == year {
            events.push(all[i]);
        }
        i += 1;
    }
    proof {
        lemma_filter_take_ends(all@, pred);
    }
    events
}

/// The events of a year are events of the catalogue, of that year, and
/// none of them comes twice.
pub proof fn lemma_events_of_year(year: u16)
    ensures
        spec_events_of_year(year).no_duplicates(),
        forall|i: int|
            0 <= i < spec_events_of_year(year).len() ==> in_catalogue(
                #[trigger] spec_events_of_year(year)[i],
            ) && spec_events_of_year(year)[i].year == year,
{
    let pred = |e: Event| e.year == year;
    lemma_catalogue_no_duplicates();
    lemma_filter_no_duplicates(catalogue(), pred);
    let src = lemma_filter_sources(catalogue(), pred);
    assert forall|i: int| 0 <= i < spec_events_of_year(year).len() implies in_catalogue(
        #[trigger] spec_events_of_year(year)[i],
    ) && spec_events_of_year(year)[i].year == year by {
        assert(spec_events_of_year(year)[i] == catalogue()[src[i]]);
    }
}

pub open spec fn spec_year_of_turn(turn: u8) -> u16 {
    if turn <= 1 {
        1914
    } else if turn <= 4 {
        1915
    } else if turn <= 7 {
        1916
    } else if turn <= 10 {
        1917
    } else if turn <= 13 {
        1918
    } else {
        1919
    }
}

/// The year in which a turn is played: the first turn in 1914, then three
/// turns a year from 1915 to 1918, and the last turn in 1919.
#[verifier::when_used_as_spec(spec_year_of_turn)]
pub fn year_of_turn(turn: u8) -> (year: u16)
    requires
        1 <= turn <= LAST_TURN,
    ensures
        year == spec_year_of_turn(turn),
        FIRST_YEAR <= year <= LAST_YEAR,
{
    if turn <= 1 {
        1914
    } else if turn <= 4 {
        1915
    } else if turn <= 7 {
        1916
    } else if turn <= 10 {
        1917
    } else if turn <= 13 {
        1918
    } else {
        1919
    }
}

/// The year never goes back as the turns go by, and moves by one year at
/// most from a turn to the next.
pub proof fn lemma_years_follow_turns(turn: u8)
    requires
        turn < u8::MAX,
    ensures
        spec_year_of_turn(turn) <= spec_year_of_turn((turn + 1) as u8) <= spec_year_of_turn(turn)
            + 1,
{
}

} // verus!
