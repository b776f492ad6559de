//! The pool of events: what is drawn from it, what joins it and what leaves
//! it when a year begins.

use vstd::prelude::*;
use crate::dice::pick_index;
use crate::event::{
    events_of_year, in_catalogue, lemma_events_of_year, spec_events_of_year, Event,
};
use crate::sequences::{lemma_filter_no_duplicates, lemma_filter_sources, lemma_filter_take_ends, lemma_filter_take_step};
use crate::state::{min, Board, GameState};

verus! {

/// The most events drawn in a turn.
pub const EVENTS_PER_TURN: usize = 3;

/// What is left of a pool, and what was drawn from it, after events were
/// taken out one after the other, each at a place of what was left.
pub open spec fn draw(pool: Seq<Event>, picks: Seq<int>) -> (Seq<Event>, Seq<Event>)
    decreases picks.len(),
{
    if picks.len() == 0 {
        (pool, Seq::empty())
    } else {
        let (left, drawn) = draw(pool, picks.drop_last());
        (left.remove(picks.last()), drawn.push(left[picks.last()]))
    }
}

/// Whether each pick is a place of what is left of a pool of `len` events
/// when its turn comes.
pub open spec fn valid_picks(len: nat, picks: Seq<int>) -> bool {
    forall|k: int| 0 <= k < picks.len() ==> 0 <= #[trigger] picks[k] < len - k
}

/// Whether a pool is fit for a state of a given year: its events are of the
/// catalogue, none joined later than that year, and none comes twice.
pub open spec fn pool_wf(pool: Seq<Event>, year: u16) -> bool {
    &&& pool.no_duplicates()
    &&& forall|i: int|
        0 <= i < pool.len() ==> in_catalogue(#[trigger] pool[i]) && pool[i].year <= year
}

/// Whether an event stays in the pool when a year begins.
pub open spec fn stays(e: Event, next_year: u16) -> bool {
    match e.not_after {
        Some(last) => last >= next_year,
        None => true,
    }
}

/// Taking an event out of a pool leaves a pool that is fit for the same
/// year, and that does not hold the event any more.
pub proof fn lemma_remove_keeps_pool(pool: Seq<Event>, year: u16, i: int)
    requires
        pool_wf(pool, year),
        0 <= i < pool.len(),
    ensures
        pool_wf(pool.remove(i), year),
        !pool.remove(i).contains(pool[i]),
{
    let left = pool.remove(i);
    assert forall|j: int| 0 <= j < left.len() implies in_catalogue(#[trigger] left[j])
        && left[j].year <= year && left[j] != pool[i] by {
        if j < i {
            assert(left[j] == pool[j]);
        } else {
            assert(left[j] == pool[j + 1]);
        }
    }
    assert forall|j: int, k: int| 0 <= j < left.len() && 0 <= k < left.len() && j != k implies left[j]
        != left[k] by {
        let sj = if j < i {
            j
        } else {
            j + 1
        };
        let sk = if k < i {
            k
        } else {
            k + 1
        };
        assert(left[j] == pool[sj]);
        assert(left[k] == pool[sk]);
    }
}

/// What is drawn from a pool was in the pool, there is as much of it as
/// there were picks, and what is left has as many events fewer.
pub proof fn lemma_drawn_from_pool(pool: Seq<Event>, picks: Seq<int>)
    requires
        valid_picks(pool.len(), picks),
    ensures
        draw(pool, picks).1.len() == picks.len(),
        draw(pool, picks).0.len() + picks.len() == pool.len(),
        forall|k: int|
            0 <= k < picks.len() ==> pool.contains(#[trigger] draw(pool, picks).1[k]),
        forall|k: int|
            0 <= k < draw(pool, picks).0.len() ==> pool.contains(#[trigger] draw(pool, picks).0[k]),
    decreases picks.len(),
{
    if picks.len() > 0 {
        let fewer = picks.drop_last();
        assert(valid_picks(pool.len(), fewer)) by {
            assert forall|k: int| 0 <= k < fewer.len() implies 0 <= #[trigger] fewer[k] < pool.len()
                - k by {
                assert(fewer[k] == picks[k]);
            }
        }
        lemma_drawn_from_pool(pool, fewer);
        let (left, drawn) = draw(pool, fewer);
        let last = picks.last();
        assert(0 <= picks[picks.len() - 1] < pool.len() - (picks.len() - 1));
        assert(pool.contains(left[last]));
        assert forall|k: int| 0 <= k < picks.len() implies pool.contains(
            #[trigger] draw(pool, picks).1[k],
        ) by {
            if k < fewer.len() {
                assert(draw(pool, picks).1[k] == drawn[k]);
            }
        }
        assert forall|k: int| 0 <= k < draw(pool, picks).0.len() implies pool.contains(
            #[trigger] draw(pool, picks).0[k],
        ) by {
            if k < last {
                assert(draw(pool, picks).0[k] == left[k]);
            } else {
                assert(draw(pool, picks).0[k] == left[k + 1]);
            }
        }
    }
}

/// Whether a pool holds an event with a given id.
pub open spec fn holds_id(pool: Seq<Event>, id: u8) -> bool {
    exists|i: int| 0 <= i < pool.len() && (#[trigger] pool[i]).event_id == id
}

impl Board {
    /// Whether the pool holds an event with the id of a given event.
    pub open spec fn can_draw(self, event: Event) -> bool {
        holds_id(self.events_pool, event.event_id)
    }

    /// The events of the pool that stay when a year begins, in their order.
    pub open spec fn pool_kept(self, next_year: u16) -> Seq<Event> {
        self.events_pool.filter(|e: Event| stays(e, next_year))
    }

    /// The pool after a year has begun: the events that stay, in their
    /// order, then the events of the new year, but for those whose id an
    /// event that stays already has.
    pub open spec fn pool_of_new_year(self, next_year: u16) -> Seq<Event> {
        self.pool_kept(next_year) + spec_events_of_year(next_year).filter(
            |e: Event| !holds_id(self.pool_kept(next_year), e.event_id),
        )
    }

    /// The pool after an event was put in: the event stands at its end,
    /// unless the pool held an event with its id.
    pub open spec fn pool_with(self, event: Event) -> Seq<Event> {
        if self.can_draw(event) {
            self.events_pool
        } else {
            self.events_pool.push(event)
        }
    }
}

/// Where no event comes twice in a pool, none comes twice in the pool of
/// a new year, whatever the year.
pub proof fn lemma_new_year_no_duplicates(board: Board, next_year: u16)
    requires
        board.events_pool.no_duplicates(),
    ensures
        board.pool_of_new_year(next_year).no_duplicates(),
{
    let keep = |e: Event| stays(e, next_year);
    let kept = board.pool_kept(next_year);
    let fresh = |e: Event| !holds_id(kept, e.event_id);
    let added = spec_events_of_year(next_year).filter(fresh);
    let pool = board.pool_of_new_year(next_year);
    lemma_filter_no_duplicates(board.events_pool, keep);
    lemma_events_of_year(next_year);
    lemma_filter_no_duplicates(spec_events_of_year(next_year), fresh);
    let src = lemma_filter_sources(spec_events_of_year(next_year), fresh);
    assert forall|i: int, j: int| 0 <= i < pool.len() && 0 <= j < pool.len() && i != j implies pool[i]
        != pool[j] by {
        if i < kept.len() {
            assert(pool[i] == kept[i]);
        } else {
            assert(pool[i] == added[i - kept.len()]);
            assert(fresh(added[i - kept.len()]));
        }
        if j < kept.len() {
            assert(pool[j] == kept[j]);
        } else {
            assert(pool[j] == added[j - kept.len()]);
            assert(fresh(added[j - kept.len()]));
        }
    }
}

/// The pool of a new year is fit for that year if the old pool was fit for
/// that year or an earlier one.
pub proof fn lemma_new_year_keeps_pool(board: Board, year: u16, next_year: u16)
    requires
        pool_wf(board.events_pool, year),
        year <= next_year,
    ensures
        pool_wf(board.pool_of_new_year(next_year), next_year),
{
    let keep = |e: Event| stays(e, next_year);
    let kept = board.pool_kept(next_year);
    let fresh = |e: Event| !holds_id(kept, e.event_id);
    let added = spec_events_of_year(next_year).filter(fresh);
    let pool = board.pool_of_new_year(next_year);
    lemma_new_year_no_duplicates(board, next_year);
    let src = lemma_filter_sources(board.events_pool, keep);
    let from = lemma_filter_sources(spec_events_of_year(next_year), fresh);
    lemma_events_of_year(next_year);
    assert forall|i: int| 0 <= i < pool.len() implies in_catalogue(#[trigger] pool[i])
        && pool[i].year <= next_year by {
        if i < kept.len() {
            assert(pool[i] == kept[i]);
            assert(kept[i] == board.events_pool[src[i]]);
        } else {
            assert(pool[i] == added[i - kept.len()]);
            assert(added[i - kept.len()] == spec_events_of_year(next_year)[from[i - kept.len()]]);
        }
    }
}

/// Putting an event into a pool in which no event comes twice leaves a
/// pool in which none comes twice.
pub proof fn lemma_pool_with_no_duplicates(board: Board, event: Event)
    requires
        board.events_pool.no_duplicates(),
    ensures
        board.pool_with(event).no_duplicates(),
{
    if !board.can_draw(event) {
        let pool = board.events_pool.push(event);
        assert forall|i: int, j: int| 0 <= i < pool.len() && 0 <= j < pool.len() && i != j implies pool[i]
            != pool[j] by {
            if i < pool.len() - 1 {
                assert(pool[i] == board.events_pool[i]);
            }
            if j < pool.len() - 1 {
                assert(pool[j] == board.events_pool[j]);
            }
        }
    }
}

/// Whether a list of events holds an event with a given id.
fn holds_event_id(pool: &Vec<Event>, id: u8) -> (holds: bool)
    ensures
        holds == holds_id(pool@, id),
{
    let mut i: usize = 0;
    while i < pool.len()
        invariant
            i <= pool@.len(),
            forall|j: int| 0 <= j < i ==> pool@[j].event_id != id,
        decreases pool@.len() - i,
    {
        if pool[i].event_id == id {
            return true;
        }
        i += 1;
    }
    false
}

impl GameState {
    /// Takes the event at a place out of the pool.
    pub fn draw_event_at(&mut self, index: usize) -> (event: Event)
        requires
            index < old(self)@.events_pool.len(),
        ensures
            event == old(self)@.events_pool[index as int],
            final(self)@ == (Board {
                events_pool: old(self)@.events_pool.remove(index as int),
                ..old(self)@
            }),
            final(self).rng == old(self).rng,
            old(self)@.wf() ==> final(self)@.wf(),
    {
        proof {
            if self@.wf() {
                lemma_remove_keeps_pool(self@.events_pool, self@.year(), index as int);
            }
        }
        let event = self.events_pool.remove(index);
        proof {
            if old(self)@.wf() {
                assert(forall|n: crate::side::Nation| self@.nation(n) == old(self)@.nation(n));
            }
        }
        event
    }

    /// Draws up to 3 events from the pool, each at a place that chance
    /// picks among those left. Fewer are drawn only where the pool runs
    /// out. Nothing is asked of chance where the pool is empty.
    pub fn draw_events(&mut self) -> (events: Vec<Event>)
        ensures
            exists|picks: Seq<int>|
                picks.len() == min(EVENTS_PER_TURN as int, old(self)@.events_pool.len() as int)
                    && valid_picks(old(self)@.events_pool.len(), picks) && #[trigger] draw(
                    old(self)@.events_pool,
                    picks,
                ) == (final(self)@.events_pool, events@),
            final(self)@ == (Board { events_pool: final(self)@.events_pool, ..old(self)@ }),
            old(self)@.events_pool.len() == 0 ==> final(self).rng == old(self).rng,
            old(self)@.wf() ==> final(self)@.wf(),
    {
        let mut events: Vec<Event> = Vec::new();
        let ghost mut picks: Seq<int> = Seq::empty();
        let mut count: usize = 0;
        while count < EVENTS_PER_TURN && self.events_pool.len() > 0
            invariant
                count <= EVENTS_PER_TURN,
                picks.len() == count,
                self@.events_pool.len() + count == old(self)@.events_pool.len(),
                valid_picks(old(self)@.events_pool.len(), picks),
                draw(old(self)@.events_pool, picks) == (self@.events_pool, events@),
                self@ == (Board { events_pool: self@.events_pool, ..old(self)@ }),
                count == 0 ==> self.rng == old(self).rng,
                old(self)@.wf() ==> self@.wf(),
            decreases EVENTS_PER_TURN - count,
        {
            let index: usize = pick_index(&mut self.rng, self.events_pool.len());
            let ghost before = picks;
            let event = self.draw_event_at(index);
            events.push(event);
            proof {
                picks = picks.push(index as int);
                assert(picks.drop_last() =~= before);
            }
            count += 1;
        }
        events
    }

    /// Whether an event can still be drawn: the pool holds an event with
    /// its id.
    pub fn can_draw_event(&self, event: &Event) -> (b: bool)
        ensures
            b == self@.can_draw(*event),
    {
        holds_event_id(&self.events_pool, event.event_id)
    }

    /// Puts an event at the end of the pool, unless the pool holds an event
    /// with its id: then nothing changes. No event comes twice in the pool
    /// if none did. The state stays well formed where the event is one of
    /// the catalogue, of this year or an earlier one.
    pub fn add_event(&mut self, event: Event)
        ensures
            final(self)@ == (Board { events_pool: old(self)@.pool_with(event), ..old(self)@ }),
            final(self).rng == old(self).rng,
            old(self)@.events_pool.no_duplicates() ==> final(self)@.events_pool.no_duplicates(),
            old(self)@.wf() && in_catalogue(event) && event.year <= old(self)@.year()
                ==> final(self)@.wf(),
    {
        proof {
            if self@.events_pool.no_duplicates() {
                lemma_pool_with_no_duplicates(self@, event);
            }
        }
        if !holds_event_id(&self.events_pool, event.event_id) {
            self.events_pool.push(event);
        }
        proof {
            if old(self)@.wf() {
                assert(forall|n: crate::side::Nation| self@.nation(n) == old(self)@.nation(n));
            }
        }
    }

    /// Begins a year: the events whose last year is over leave the pool,
    /// and the events of the year that begins join it, but for those that
    /// the pool already holds. Only the year that begins decides; the year
    /// that ends is not looked at. No event comes twice in the pool if
    /// none did.
    pub fn new_year(&mut self, current_turn_year: u16, next_year: u16)
        ensures
            final(self)@ == (Board {
                events_pool: old(self)@.pool_of_new_year(next_year),
                ..old(self)@
            }),
            final(self).rng == old(self).rng,
            old(self)@.events_pool.no_duplicates() ==> final(self)@.events_pool.no_duplicates(),
            pool_wf(old(self)@.events_pool, current_turn_year) && current_turn_year <= next_year
                ==> pool_wf(final(self)@.events_pool, next_year),
    {
        let ghost keep = |e: Event| stays(e, next_year);
        let mut pool: Vec<Event> = Vec::new();
        let mut i: usize = 0;
        proof {
            lemma_filter_take_ends(self@.events_pool, keep);
        }
        while i < self.events_pool.len()
            invariant
                i <= self@.events_pool.len(),
                self == old(self),
                keep == (|e: Event| stays(e, next_year)),
                pool@ == self@.events_pool.take(i as int).filter(keep),
            decreases self@.events_pool.len() - i,
        {
            proof {
                lemma_filter_take_step(self@.events_pool, keep, i as int);
            }
            let event = self.events_pool[i];
            let stays: bool = match event.not_after {
                Some(last) => last >= next_year,
                None => true,
            };
            if stays {
                pool.push(event);
            }
            i += 1;
        }
        proof {
            lemma_filter_take_ends(self@.events_pool, keep);
        }
        let entering = events_of_year(next_year);
        let ghost fresh = |e: Event| !holds_id(pool@, e.event_id);
        let mut added: Vec<Event> = Vec::new();
        let mut j: usize = 0;
        proof {
            lemma_filter_take_ends(entering@, fresh);
        }
        while j < entering.len()
            invariant
                j <= entering@.len(),
                self == old(self),
                pool@ == old(self)@.pool_kept(next_year),
                entering@ == spec_events_of_year(next_year),
                fresh == (|e: Event| !holds_id(pool@, e.event_id)),
                added@ == entering@.take(j as int).filter(fresh),
            decreases entering@.len() - j,
        {
            proof {
                lemma_filter_take_step(entering@, fresh, j as int);
            }
            let event = entering[j];
            if !holds_event_id(&pool, event.event_id) {
                added.push(event);
            }
            j += 1;
        }
        proof {
            lemma_filter_take_ends(entering@, fresh);
        }
        pool.append(&mut added);
        self.events_pool = pool;
        proof {
            if old(self)@.events_pool.no_duplicates() {
                lemma_new_year_no_duplicates(old(self)@, next_year);
            }
            if pool_wf(old(self)@.events_pool, current_turn_year) && current_turn_year
                <= next_year {
                lemma_new_year_keeps_pool(old(self)@, current_turn_year, next_year);
            }
        }
    }
}

} // verus!
