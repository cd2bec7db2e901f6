//! Rings that remember what was seen, so that nothing is handled twice.
//!
//! A ring has one slot for each Lamport time modulo its length. A slot belongs to
//! the time that wrote it last; a later time takes it over.

use crate::clock::LamportTime;
use crate::octets;
use crate::typed;
use crate::typed::{UserEvent, UserEvents};
use vstd::prelude::*;

verus! {

/// How many user events are remembered for one Lamport time.
pub const MAX_EVENTS_PER_LTIME: usize = 256;

/// How many queries are remembered for one Lamport time.
pub const MAX_QUERY_IDS_PER_LTIME: usize = 2048;

/// Whether a time is neither below the floor nor older than a ring of the given
/// length, where the clock reads `cur_time`.
pub open spec fn is_recent(min_time: u64, ring_len: nat, cur_time: u64, ltime: u64) -> bool {
    &&& ltime >= min_time
    &&& !(cur_time > ring_len && ltime < cur_time - ring_len)
}

/// The user events of one Lamport time.
#[verifier::ext_equal]
pub struct EventSlot {
    /// The time.
    pub ltime: u64,
    /// The events.
    pub events: Seq<UserEvent>,
}

/// What an [`EventBuffer`] remembers.
#[verifier::ext_equal]
pub struct EventRing {
    /// The slots.
    pub slots: Seq<Option<EventSlot>>,
    /// The floor: older events are dropped.
    pub min_time: u64,
}

/// Whether an event with the same name and payload is among `events`.
pub open spec fn has_event(events: Seq<UserEvent>, ev: UserEvent) -> bool {
    exists|i: int| 0 <= i < events.len() && typed::same_event(#[trigger] events[i], ev)
}

/// Whether no two events have the same name and payload.
pub open spec fn all_differ(events: Seq<UserEvent>) -> bool {
    forall|i: int, j: int|
        0 <= i < j < events.len() ==> !typed::same_event(#[trigger] events[i], #[trigger] events[j])
}

impl EventRing {
    /// The events that are remembered for a time.
    pub open spec fn events_at(self, ltime: u64) -> Seq<UserEvent> {
        let i = ltime as int % self.slots.len() as int;
        if self.slots[i] is Some && self.slots[i]->0.ltime == ltime {
            self.slots[i]->0.events
        } else {
            Seq::empty()
        }
    }

    /// Whether an event is new: recent, not remembered, and with room left for its
    /// time.
    pub open spec fn admits(self, cur_time: u64, ltime: u64, ev: UserEvent) -> bool {
        &&& self.slots.len() > 0
        &&& is_recent(self.min_time, self.slots.len(), cur_time, ltime)
        &&& !has_event(self.events_at(ltime), ev)
        &&& self.events_at(ltime).len() < MAX_EVENTS_PER_LTIME
    }

    /// The ring that remembers one more event.
    pub open spec fn recorded(self, ltime: u64, ev: UserEvent) -> Self {
        let slot = EventSlot { ltime, events: self.events_at(ltime).push(ev) };
        EventRing {
            slots: self.slots.update(ltime as int % self.slots.len() as int, Some(slot)),
            ..self
        }
    }

    /// Whether every slot holds a time that belongs to it, no more than it may, and
    /// nothing twice.
    pub open spec fn orderly(self) -> bool {
        forall|i: int|
            0 <= i < self.slots.len() ==> ((#[trigger] self.slots[i]) matches Some(s) ==> {
                &&& s.ltime as int % self.slots.len() as int == i
                &&& s.events.len() <= MAX_EVENTS_PER_LTIME
                &&& all_differ(s.events)
            })
    }
}

/// The user events that were seen.
pub struct EventBuffer {
    /// The slots; the events of a time stand at the time modulo their number.
    pub buffer: Vec<Option<UserEvents>>,
    /// Events of an earlier time are dropped.
    pub min_time: u64,
}

/// What one slot of an [`EventBuffer`] remembers.
pub open spec fn event_slot(slot: Option<UserEvents>) -> Option<EventSlot> {
    match slot {
        Some(s) => Some(EventSlot { ltime: s.ltime.0, events: s.events@ }),
        None => None,
    }
}

impl View for EventBuffer {
    type V = EventRing;

    open spec fn view(&self) -> EventRing {
        EventRing {
            slots: Seq::new(self.buffer@.len(), |i: int| event_slot(self.buffer@[i])),
            min_time: self.min_time,
        }
    }
}

/// A ring of `size` empty slots, of one at least.
pub open spec fn empty_event_ring(size: usize) -> EventRing {
    EventRing {
        slots: Seq::new(
            if size == 0 {
                1
            } else {
                size as nat
            },
            |i: int| None,
        ),
        min_time: 0,
    }
}

/// Tells whether an event with the same name and payload is among `events`.
fn remembers(events: &Vec<UserEvent>, ev: &UserEvent) -> (r: bool)
    ensures
        r == has_event(events@, *ev),
{
    let mut i: usize = 0;
    while i < events.len()
        invariant
            i <= events@.len(),
            forall|j: int| 0 <= j < i ==> !typed::same_event(#[trigger] events@[j], *ev),
        decreases events@.len() - i,
    {
        if events[i].same(ev) {
            return true;
        }
        i += 1;
    }
    false
}

/// Tells whether a number is among `ids`.
fn holds_id(ids: &Vec<u32>, id: u32) -> (r: bool)
    ensures
        r == ids@.contains(id),
{
    let mut i: usize = 0;
    while i < ids.len()
        invariant
            i <= ids@.len(),
            forall|j: int| 0 <= j < i ==> #[trigger] ids@[j] != id,
        decreases ids@.len() - i,
    {
        if ids[i] == id {
            return true;
        }
        i += 1;
    }
    false
}

impl EventBuffer {
    /// Returns a ring of `size` empty slots, of one at least.
    pub fn new(size: usize) -> (r: Self)
        ensures
            r@ == empty_event_ring(size),
    {
        let n: usize = if size == 0 {
            1
        } else {
            size
        };
        let mut buffer: Vec<Option<UserEvents>> = Vec::new();
        while buffer.len() < n
            invariant
                buffer@.len() <= n,
                forall|i: int| 0 <= i < buffer@.len() ==> (#[trigger] buffer@[i]) is None,
            decreases n - buffer@.len(),
        {
            buffer.push(None);
        }
        let r = EventBuffer { buffer, min_time: 0 };
        assert(r@ =~= empty_event_ring(size));
        r
    }

    /// Remembers a user event.
    ///
    /// Returns `true` at the first sight of it, where `cur_time` is what the event
    /// clock reads after it has seen `ltime`.
    pub fn witness_event(&mut self, cur_time: u64, ltime: u64, ev: UserEvent) -> (r: bool)
        ensures
            r == old(self)@.admits(cur_time, ltime, ev),
            final(self)@ == (if r {
                old(self)@.recorded(ltime, ev)
            } else {
                old(self)@
            }),
    {
        if self.buffer.len() == 0 || ltime < self.min_time {
            return false;
        }
        let len: u64 = self.buffer.len() as u64;
        if cur_time > len && ltime < cur_time - len {
            return false;
        }
        let idx: usize = (ltime % len) as usize;
        let ghost ring = self@;
        assert(ring.slots[idx as int] == event_slot(self.buffer@[idx as int]));
        let mut events: Vec<UserEvent> = Vec::new();
        let mut taken: Option<UserEvents> = None;
        let owned = match &self.buffer[idx] {
            Some(slot) => slot.ltime.0 == ltime,
            None => false,
        };
        if owned {
            match &self.buffer[idx] {
                Some(slot) => {
                    if remembers(&slot.events, &ev) {
                        return false;
                    }
                    if slot.events.len() >= MAX_EVENTS_PER_LTIME {
                        return false;
                    }
                },
                None => {},
            }
            core::mem::swap(&mut taken, &mut self.buffer[idx]);
            match taken {
                Some(slot) => {
                    events = slot.events;
                },
                None => {},
            }
        }
        events.push(ev);
        self.buffer.set(idx, Some(UserEvents { ltime: LamportTime(ltime), events }));
        assert(self@ =~= ring.recorded(ltime, ev));
        true
    }
}

/// The queries of one Lamport time.
#[verifier::ext_equal]
pub struct QuerySlot {
    /// The time.
    pub ltime: u64,
    /// Their numbers.
    pub ids: Seq<u32>,
}

/// What a [`QueryBuffer`] remembers.
#[verifier::ext_equal]
pub struct QueryRing {
    /// The slots.
    pub slots: Seq<Option<QuerySlot>>,
    /// The floor: older queries are dropped.
    pub min_time: u64,
}

impl QueryRing {
    /// The queries that are remembered for a time.
    pub open spec fn ids_at(self, ltime: u64) -> Seq<u32> {
        let i = ltime as int % self.slots.len() as int;
        if self.slots[i] is Some && self.slots[i]->0.ltime == ltime {
            self.slots[i]->0.ids
        } else {
            Seq::empty()
        }
    }

    /// Whether a query is new: recent, not remembered, and with room left for its
    /// time.
    pub open spec fn admits(self, cur_time: u64, ltime: u64, id: u32) -> bool {
        &&& self.slots.len() > 0
        &&& is_recent(self.min_time, self.slots.len(), cur_time, ltime)
        &&& !self.ids_at(ltime).contains(id)
        &&& self.ids_at(ltime).len() < MAX_QUERY_IDS_PER_LTIME
    }

    /// The ring that remembers one more query.
    pub open spec fn recorded(self, ltime: u64, id: u32) -> Self {
        let slot = QuerySlot { ltime, ids: self.ids_at(ltime).push(id) };
        QueryRing {
            slots: self.slots.update(ltime as int % self.slots.len() as int, Some(slot)),
            ..self
        }
    }

    /// Whether every slot holds a time that belongs to it, no more than it may, and
    /// nothing twice.
    pub open spec fn orderly(self) -> bool {
        forall|i: int|
            0 <= i < self.slots.len() ==> ((#[trigger] self.slots[i]) matches Some(s) ==> {
                &&& s.ltime as int % self.slots.len() as int == i
                &&& s.ids.len() <= MAX_QUERY_IDS_PER_LTIME
                &&& s.ids.no_duplicates()
            })
    }
}

/// The queries of one Lamport time.
#[derive(Debug)]
pub struct Queries {
    /// The time.
    pub ltime: LamportTime,
    /// Their numbers.
    pub query_ids: Vec<u32>,
}

/// The queries that were seen.
pub struct QueryBuffer {
    /// The slots; the queries of a time stand at the time modulo their number.
    pub buffer: Vec<Option<Queries>>,
    /// Queries of an earlier time are dropped.
    pub min_time: u64,
}

/// What one slot of a [`QueryBuffer`] remembers.
pub open spec fn query_slot(slot: Option<Queries>) -> Option<QuerySlot> {
    match slot {
        Some(s) => Some(QuerySlot { ltime: s.ltime.0, ids: s.query_ids@ }),
        None => None,
    }
}

impl View for QueryBuffer {
    type V = QueryRing;

    open spec fn view(&self) -> QueryRing {
        QueryRing {
            slots: Seq::new(self.buffer@.len(), |i: int| query_slot(self.buffer@[i])),
            min_time: self.min_time,
        }
    }
}

/// A ring of `size` empty slots, of one at least.
pub open spec fn empty_query_ring(size: usize) -> QueryRing {
    QueryRing {
        slots: Seq::new(
            if size == 0 {
                1
            } else {
                size as nat
            },
            |i: int| None,
        ),
        min_time: 0,
    }
}

impl QueryBuffer {
    /// Returns a ring of `size` empty slots, of one at least.
    pub fn new(size: usize) -> (r: Self)
        ensures
            r@ == empty_query_ring(size),
    {
        let n: usize = if size == 0 {
            1
        } else {
            size
        };
        let mut buffer: Vec<Option<Queries>> = Vec::new();
        while buffer.len() < n
            invariant
                buffer@.len() <= n,
                forall|i: int| 0 <= i < buffer@.len() ==> (#[trigger] buffer@[i]) is None,
            decreases n - buffer@.len(),
        {
            buffer.push(None);
        }
        let r = QueryBuffer { buffer, min_time: 0 };
        assert(r@ =~= empty_query_ring(size));
        r
    }

    /// Remembers a query by its time and its number.
    ///
    /// Returns `true` at the first sight of it, where `cur_time` is what the query
    /// clock reads after it has seen `ltime`.
    pub fn witness_query(&mut self, cur_time: u64, ltime: u64, id: u32) -> (r: bool)
        ensures
            r == old(self)@.admits(cur_time, ltime, id),
            final(self)@ == (if r {
                old(self)@.recorded(ltime, id)
            } else {
                old(self)@
            }),
    {
        if self.buffer.len() == 0 || ltime < self.min_time {
            return false;
        }
        let len: u64 = self.buffer.len() as u64;
        if cur_time > len && ltime < cur_time - len {
            return false;
        }
        let idx: usize = (ltime % len) as usize;
        let ghost ring = self@;
        assert(ring.slots[idx as int] == query_slot(self.buffer@[idx as int]));
        let mut query_ids: Vec<u32> = Vec::new();
        let mut taken: Option<Queries> = None;
        let owned = match &self.buffer[idx] {
            Some(slot) => slot.ltime.0 == ltime,
            None => false,
        };
        if owned {
            match &self.buffer[idx] {
                Some(slot) => {
                    if holds_id(&slot.query_ids, id) {
                        return false;
                    }
                    if slot.query_ids.len() >= MAX_QUERY_IDS_PER_LTIME {
                        return false;
                    }
                },
                None => {},
            }
            core::mem::swap(&mut taken, &mut self.buffer[idx]);
            match taken {
                Some(slot) => {
                    query_ids = slot.query_ids;
                },
                None => {},
            }
        }
        query_ids.push(id);
        self.buffer.set(idx, Some(Queries { ltime: LamportTime(ltime), query_ids }));
        assert(self@ =~= ring.recorded(ltime, id));
        true
    }
}

/// A user event that was remembered is not admitted again, whatever the clock
/// reads.
pub proof fn event_is_seen_once(ring: EventRing, ltime: u64, ev: UserEvent, cur_time: u64)
    requires
        ring.slots.len() > 0,
    ensures
        !ring.recorded(ltime, ev).admits(cur_time, ltime, ev),
{
    let after = ring.recorded(ltime, ev);
    let i = ltime as int % ring.slots.len() as int;
    assert(0 <= i < ring.slots.len());
    let events = after.events_at(ltime);
    assert(events == ring.events_at(ltime).push(ev));
    assert(typed::same_event(events[events.len() - 1], ev));
}

/// A query that was remembered is not admitted again, whatever the clock reads.
pub proof fn query_is_seen_once(ring: QueryRing, ltime: u64, id: u32, cur_time: u64)
    requires
        ring.slots.len() > 0,
    ensures
        !ring.recorded(ltime, id).admits(cur_time, ltime, id),
{
    let after = ring.recorded(ltime, id);
    let i = ltime as int % ring.slots.len() as int;
    assert(0 <= i < ring.slots.len());
    let ids = after.ids_at(ltime);
    assert(ids == ring.ids_at(ltime).push(id));
    assert(ids[ids.len() - 1] == id);
}

/// An admitted user event leaves the ring orderly: every slot holds a time that belongs
/// to it, no more than it may, and nothing twice.
pub proof fn event_ring_stays_orderly(ring: EventRing, cur_time: u64, ltime: u64, ev: UserEvent)
    requires
        ring.orderly(),
        ring.admits(cur_time, ltime, ev),
    ensures
        ring.recorded(ltime, ev).orderly(),
        ring.recorded(ltime, ev).slots.len() == ring.slots.len(),
{
    let before = ring.events_at(ltime);
    let after = before.push(ev);
    let slot = ltime as int % ring.slots.len() as int;
    assert(0 <= slot < ring.slots.len());
    assert(all_differ(before));
    assert forall|i: int, j: int| 0 <= i < j < after.len() implies !typed::same_event(
        #[trigger] after[i],
        #[trigger] after[j],
    ) by {
        assert(after[i] == before[i]);
        if j == before.len() {
            assert(!typed::same_event(before[i], ev));
        } else {
            assert(after[j] == before[j]);
        }
    }
}

/// An admitted query leaves the ring orderly: every slot holds a time that belongs to it,
/// no more than it may, and nothing twice.
pub proof fn query_ring_stays_orderly(ring: QueryRing, cur_time: u64, ltime: u64, id: u32)
    requires
        ring.orderly(),
        ring.admits(cur_time, ltime, id),
    ensures
        ring.recorded(ltime, id).orderly(),
        ring.recorded(ltime, id).slots.len() == ring.slots.len(),
{
    let before = ring.ids_at(ltime);
    let slot = ltime as int % ring.slots.len() as int;
    assert(0 <= slot < ring.slots.len());
    assert(before.no_duplicates());
    assert(before.push(id).no_duplicates());
}

/// A ring that has seen nothing is orderly.
pub proof fn empty_rings_are_orderly(size: usize)
    ensures
        empty_event_ring(size).orderly(),
        empty_query_ring(size).orderly(),
{
}

/// Two queries of one time with different numbers are told apart: to remember
/// one does not drop the other, as long as there is room.
pub proof fn concurrent_queries_are_told_apart(
    ring: QueryRing,
    cur_time: u64,
    ltime: u64,
    id: u32,
    other: u32,
)
    requires
        id != other,
        ring.admits(cur_time, ltime, other),
        ring.ids_at(ltime).len() + 1 < MAX_QUERY_IDS_PER_LTIME,
    ensures
        ring.recorded(ltime, id).admits(cur_time, ltime, other),
{
    let after = ring.recorded(ltime, id);
    let i = ltime as int % ring.slots.len() as int;
    assert(0 <= i < ring.slots.len());
    let ids = after.ids_at(ltime);
    assert(ids == ring.ids_at(ltime).push(id));
    if ids.contains(other) {
        let j = choose|j: int| 0 <= j < ids.len() && ids[j] == other;
        assert(ring.ids_at(ltime)[j] == other);
    }
}

/// A time is recent if it is not below the floor and no further behind the clock than the
/// ring is long.
pub proof fn recent_times_are_near(min_time: u64, ring_len: nat, cur_time: u64, ltime: u64)
    ensures
        is_recent(min_time, ring_len, cur_time, ltime) <==> min_time <= ltime && cur_time <= ltime
            + ring_len,
{
}

/// To remember a user event adds it to those of its time. Events of another time that stood
/// in the same slot give way; all other slots, and the floor, stay.
pub proof fn events_are_remembered_by_time(ring: EventRing, ltime: u64, ev: UserEvent)
    requires
        ring.slots.len() > 0,
    ensures
        ({
            let after = ring.recorded(ltime, ev);
            let at = ltime as int % ring.slots.len() as int;
            &&& after.min_time == ring.min_time
            &&& after.slots.len() == ring.slots.len()
            &&& forall|i: int|
                0 <= i < ring.slots.len() && i != at ==> #[trigger] after.slots[i] == ring.slots[i]
            &&& after.slots[at] matches Some(s) && s.ltime == ltime
            &&& ring.slots[at] matches Some(s) ==> {
                &&& s.ltime == ltime ==> after.slots[at]->0.events == s.events.push(ev)
                &&& s.ltime != ltime ==> after.slots[at]->0.events == seq![ev]
            }
            &&& ring.slots[at] is None ==> after.slots[at]->0.events == seq![ev]
        }),
{
    let at = ltime as int % ring.slots.len() as int;
    assert(0 <= at < ring.slots.len());
    assert(Seq::<UserEvent>::empty().push(ev) =~= seq![ev]);
}

/// To remember a query adds it to those of its time. Queries of another time that stood in
/// the same slot give way; all other slots, and the floor, stay.
pub proof fn queries_are_remembered_by_time(ring: QueryRing, ltime: u64, id: u32)
    requires
        ring.slots.len() > 0,
    ensures
        ({
            let after = ring.recorded(ltime, id);
            let at = ltime as int % ring.slots.len() as int;
            &&& after.min_time == ring.min_time
            &&& after.slots.len() == ring.slots.len()
            &&& forall|i: int|
                0 <= i < ring.slots.len() && i != at ==> #[trigger] after.slots[i] == ring.slots[i]
            &&& after.slots[at] matches Some(s) && s.ltime == ltime
            &&& ring.slots[at] matches Some(s) ==> {
                &&& s.ltime == ltime ==> after.slots[at]->0.ids == s.ids.push(id)
                &&& s.ltime != ltime ==> after.slots[at]->0.ids == seq![id]
            }
            &&& ring.slots[at] is None ==> after.slots[at]->0.ids == seq![id]
        }),
{
    let at = ltime as int % ring.slots.len() as int;
    assert(0 <= at < ring.slots.len());
    assert(Seq::<u32>::empty().push(id) =~= seq![id]);
}

/// A user event of a recent time is new where nothing stands in the slot of its time, or only
/// events of another time do. Where events of its time do, it is new if none of them has its
/// name and its payload, and they are fewer than 256. One that is not recent never is.
pub proof fn new_events_are_admitted(ring: EventRing, cur_time: u64, ltime: u64, ev: UserEvent)
    requires
        ring.slots.len() > 0,
    ensures
        ({
            let at = ltime as int % ring.slots.len() as int;
            let recent = ring.min_time <= ltime && cur_time <= ltime + ring.slots.len();
            &&& !recent ==> !ring.admits(cur_time, ltime, ev)
            &&& recent && ring.slots[at] is None ==> ring.admits(cur_time, ltime, ev)
            &&& recent ==> (ring.slots[at] matches Some(s) ==> {
                &&& s.ltime != ltime ==> ring.admits(cur_time, ltime, ev)
                &&& s.ltime == ltime ==> (ring.admits(cur_time, ltime, ev) <==> s.events.len() < 256
                    && forall|i: int|
                    0 <= i < s.events.len() ==> !((#[trigger] s.events[i]).name@ == ev.name@
                        && octets::octets(s.events[i].payload) == octets::octets(ev.payload)))
            })
        }),
{
    let at = ltime as int % ring.slots.len() as int;
    if let Some(s) = ring.slots[at] {
        if s.ltime == ltime && !has_event(s.events, ev) {
            assert forall|i: int| 0 <= i < s.events.len() implies !((
            #[trigger] s.events[i]).name@ == ev.name@ && octets::octets(s.events[i].payload)
                == octets::octets(ev.payload)) by {
                assert(!typed::same_event(s.events[i], ev));
            }
        }
    }
}

/// A query of a recent time is new where nothing stands in the slot of its time, or only
/// queries of another time do. Where queries of its time do, it is new if none of them has
/// its number, and they are fewer than 2048. One that is not recent never is.
pub proof fn new_queries_are_admitted(ring: QueryRing, cur_time: u64, ltime: u64, id: u32)
    requires
        ring.slots.len() > 0,
    ensures
        ({
            let at = ltime as int % ring.slots.len() as int;
            let recent = ring.min_time <= ltime && cur_time <= ltime + ring.slots.len();
            &&& !recent ==> !ring.admits(cur_time, ltime, id)
            &&& recent && ring.slots[at] is None ==> ring.admits(cur_time, ltime, id)
            &&& recent ==> (ring.slots[at] matches Some(s) ==> {
                &&& s.ltime != ltime ==> ring.admits(cur_time, ltime, id)
                &&& s.ltime == ltime ==> (ring.admits(cur_time, ltime, id) <==> s.ids.len() < 2048
                    && !s.ids.contains(id))
            })
        }),
{
}

/// A ring starts with nothing in any of its slots and no floor. It has as many slots as it
/// was asked for, and one where it was asked for none.
pub proof fn rings_start_empty(size: usize)
    ensures
        size > 0 ==> empty_event_ring(size).slots.len() == size,
        size > 0 ==> empty_query_ring(size).slots.len() == size,
        empty_event_ring(0).slots.len() == 1,
        empty_query_ring(0).slots.len() == 1,
        empty_event_ring(size).min_time == 0,
        empty_query_ring(size).min_time == 0,
        forall|i: int|
            0 <= i < empty_event_ring(size).slots.len() ==> #[trigger] empty_event_ring(
                size,
            ).slots[i] is None,
        forall|i: int|
            0 <= i < empty_query_ring(size).slots.len() ==> #[trigger] empty_query_ring(
                size,
            ).slots[i] is None,
{
}

} // verus!
