//! The exchange of state with a peer: what is told, and how what a peer tells is
//! merged.

use crate::action::Coordinator;
use crate::buffers;
use crate::buffers::{EventRing, EventSlot};
use crate::clock;
use crate::clock::{ltime_is_acceptable, witness, LamportTime};
use crate::endpoint::{Endpoint, Machine};
use crate::event::StreamId;
use crate::id::{Id, Value};
use crate::members::{list_contains, MemberState};
use crate::time::Instant;
use crate::typed::{AnyMessage, PushPullMessage, UserEvent, UserEventMessage, UserEvents};
use crate::vecmap;
use vstd::prelude::*;

verus! {

/// The ids in a list that are members.
pub open spec fn members_among<I, A>(list: Seq<I>, states: Map<I, MemberState<I, A>>) -> Seq<I>
    decreases list.len(),
{
    if list.len() == 0 {
        Seq::empty()
    } else if states.dom().contains(list.last()) {
        members_among(list.drop_last(), states).push(list.last())
    } else {
        members_among(list.drop_last(), states)
    }
}

/// The slots of a ring that hold something.
pub open spec fn filled(slots: Seq<Option<EventSlot>>) -> Seq<EventSlot>
    decreases slots.len(),
{
    if slots.len() == 0 {
        Seq::empty()
    } else {
        match slots.last() {
            Some(s) => filled(slots.drop_last()).push(s),
            None => filled(slots.drop_last()),
        }
    }
}

/// What lists of user events say.
pub open spec fn slots_of(events: Seq<UserEvents>) -> Seq<EventSlot> {
    Seq::new(
        events.len(),
        |i: int| EventSlot { ltime: events[i].ltime.0, events: events[i].events@ },
    )
}

/// What a clock reads after a peer said what its own reads: the clock has seen
/// everything before that time, and not that time itself.
pub open spec fn heard(clock: u64, told: LamportTime) -> u64 {
    if told.0 > 0 {
        clock::witnessed(clock, (told.0 - 1) as u64)
    } else {
        clock
    }
}

/// The status time of a node in a list: the last one in range.
pub open spec fn status_in<I>(list: Seq<(I, LamportTime)>, id: I) -> Option<LamportTime>
    decreases list.len(),
{
    if list.len() == 0 {
        None
    } else if list.last().0 == id && clock::acceptable(list.last().1.0) {
        Some(list.last().1)
    } else {
        status_in(list.drop_last(), id)
    }
}

/// The user event that a peer remembered at a time.
pub open spec fn replayed(ltime: LamportTime, ev: UserEvent) -> UserEventMessage {
    UserEventMessage { ltime, cc: false, name: ev.name, payload: ev.payload }
}

impl<I: Id, A, G> Machine<I, A, G> {
    /// Whether a message tells the state of the machine.
    pub open spec fn tells(self, pp: PushPullMessage<I>) -> bool {
        let order = vecmap::in_wire_order(self.states.dom());
        &&& pp.ltime == LamportTime(self.clock)
        &&& pp.event_ltime == LamportTime(self.event_clock)
        &&& pp.query_ltime == LamportTime(self.query_clock)
        &&& pp.status_ltimes@ == Seq::new(
            order.len(),
            |i: int| (order[i], self.states[order[i]].status_time),
        )
        &&& pp.left_members@ == members_among(self.left, self.states)
        &&& slots_of(pp.events@) == filled(self.seen_events.slots)
    }
}

impl<I, A, G> Machine<I, A, G> {
    /// The machine whose clocks heard those of a peer.
    pub open spec fn hearing(self, pp: PushPullMessage<I>) -> Self {
        let m = Machine {
            clock: heard(self.clock, pp.ltime),
            event_clock: heard(self.event_clock, pp.event_ltime),
            query_clock: heard(self.query_clock, pp.query_ltime),
            ..self
        };
        Machine {
            dirty: self.dirty || m.clock != self.clock || m.event_clock != self.event_clock
                || m.query_clock != self.query_clock,
            ..m
        }
    }

    /// The machine after the leave intents that stand for the members that left
    /// according to a peer. Each is stamped one past the status time of the member.
    pub open spec fn told_left(
        self,
        local: I,
        left: Seq<I>,
        status: Seq<(I, LamportTime)>,
        now: Instant,
    ) -> Self
        decreases left.len(),
    {
        if left.len() == 0 {
            self
        } else {
            let m = self.told_left(local, left.drop_last(), status, now);
            match status_in(status, left.last()) {
                Some(t) => m.after_leave_intent(
                    local,
                    LamportTime(clock::ticked(t.0)),
                    left.last(),
                    false,
                    now,
                ),
                None => m,
            }
        }
    }

    /// The machine after the join intents that stand for the other members of a peer.
    pub open spec fn told_joined(
        self,
        left: Seq<I>,
        status: Seq<(I, LamportTime)>,
        now: Instant,
    ) -> Self
        decreases status.len(),
    {
        if status.len() == 0 {
            self
        } else {
            let m = self.told_joined(left, status.drop_last(), now);
            if left.contains(status.last().0) {
                m
            } else {
                m.after_join_intent(status.last().1, status.last().0, now)
            }
        }
    }

    /// The machine that does not replay what a peer remembers from before a time.
    pub open spec fn ignoring_before(self, ltime: LamportTime) -> Self {
        if ltime.0 > self.seen_events.min_time {
            Machine {
                seen_events: EventRing { min_time: ltime.0, ..self.seen_events },
                dirty: true,
                ..self
            }
        } else {
            self
        }
    }

    /// The machine after the user events that a peer remembers of one time.
    pub open spec fn replaying_slot(self, ltime: LamportTime, events: Seq<UserEvent>) -> Self
        decreases events.len(),
    {
        if events.len() == 0 {
            self
        } else {
            self.replaying_slot(ltime, events.drop_last()).after_user_event(
                replayed(ltime, events.last()),
            )
        }
    }

    /// The machine after all user events that a peer remembers.
    pub open spec fn replaying(self, slots: Seq<UserEvents>) -> Self
        decreases slots.len(),
    {
        if slots.len() == 0 {
            self
        } else {
            self.replaying(slots.drop_last()).replaying_slot(
                slots.last().ltime,
                slots.last().events@,
            )
        }
    }

    /// Whether the clocks of a peer are in range.
    pub open spec fn plausible_peer(pp: PushPullMessage<I>) -> bool {
        clock::acceptable(pp.ltime.0) && clock::acceptable(pp.event_ltime.0) && clock::acceptable(
            pp.query_ltime.0,
        )
    }

    /// The machine after it merged the state of a peer: first the members that left,
    /// then the others, then the user events. A clock out of range drops it all.
    pub open spec fn merging(self, local: I, pp: PushPullMessage<I>, suppress: bool) -> Self {
        if !Self::plausible_peer(pp) {
            self
        } else {
            let m = self.hearing(pp).told_left(
                local,
                pp.left_members@,
                pp.status_ltimes@,
                self.drain_now,
            ).told_joined(pp.left_members@, pp.status_ltimes@, self.drain_now);
            let floored = if suppress {
                m.ignoring_before(pp.event_ltime)
            } else {
                m
            };
            floored.replaying(pp.events@)
        }
    }

    /// The machine after bytes from a peer, where `decoded` is the message at their
    /// head and how many bytes it takes. The message must be the state of a peer and
    /// take all of the bytes.
    pub open spec fn merging_bytes(
        self,
        local: I,
        decoded: Option<(AnyMessage<I, A>, usize)>,
        len: usize,
        suppress: bool,
    ) -> Self {
        match decoded {
            Some((AnyMessage::PushPull(pp), consumed)) if consumed == len => self.merging(
                local,
                pp,
                suppress,
            ),
            _ => self,
        }
    }

    /// The machine that ignores the user events of an exchange.
    pub open spec fn noting(self, id: StreamId) -> Self {
        if self.ignored.contains(id) {
            self
        } else {
            Machine { ignored: self.ignored.push(id), ..self }
        }
    }

    /// The machine that no longer ignores the user events of an exchange.
    pub open spec fn consuming(self, id: StreamId) -> Self {
        if self.ignored.contains(id) {
            Machine {
                ignored: crate::endpoint::membership::swap_removed(
                    self.ignored,
                    self.ignored.index_of_first(id)->0,
                ),
                ..self
            }
        } else {
            self
        }
    }
}

proof fn told_left_draws_nothing<I, A, G>(
    m: Machine<I, A, G>,
    local: I,
    left: Seq<I>,
    status: Seq<(I, LamportTime)>,
    now: Instant,
)
    ensures
        m.told_left(local, left, status, now).rng == m.rng,
    decreases left.len(),
{
    if left.len() > 0 {
        told_left_draws_nothing(m, local, left.drop_last(), status, now);
    }
}

proof fn told_joined_draws_nothing<I, A, G>(
    m: Machine<I, A, G>,
    left: Seq<I>,
    status: Seq<(I, LamportTime)>,
    now: Instant,
)
    ensures
        m.told_joined(left, status, now).rng == m.rng,
    decreases status.len(),
{
    if status.len() > 0 {
        told_joined_draws_nothing(m, left, status.drop_last(), now);
    }
}

proof fn replaying_slot_draws_nothing<I, A, G>(
    m: Machine<I, A, G>,
    ltime: LamportTime,
    events: Seq<UserEvent>,
)
    ensures
        m.replaying_slot(ltime, events).rng == m.rng,
    decreases events.len(),
{
    if events.len() > 0 {
        replaying_slot_draws_nothing(m, ltime, events.drop_last());
    }
}

proof fn replaying_draws_nothing<I, A, G>(m: Machine<I, A, G>, slots: Seq<UserEvents>)
    ensures
        m.replaying(slots).rng == m.rng,
    decreases slots.len(),
{
    if slots.len() > 0 {
        replaying_draws_nothing(m, slots.drop_last());
        replaying_slot_draws_nothing(
            m.replaying(slots.drop_last()),
            slots.last().ltime,
            slots.last().events@,
        );
    }
}

proof fn merging_draws_nothing<I, A, G>(
    m: Machine<I, A, G>,
    local: I,
    pp: PushPullMessage<I>,
    suppress: bool,
)
    ensures
        m.merging(local, pp, suppress).rng == m.rng,
{
    let now = m.drain_now;
    let a = m.hearing(pp);
    let b = a.told_left(local, pp.left_members@, pp.status_ltimes@, now);
    let c = b.told_joined(pp.left_members@, pp.status_ltimes@, now);
    told_left_draws_nothing(a, local, pp.left_members@, pp.status_ltimes@, now);
    told_joined_draws_nothing(b, pp.left_members@, pp.status_ltimes@, now);
    replaying_draws_nothing(c, pp.events@);
    replaying_draws_nothing(c.ignoring_before(pp.event_ltime), pp.events@);
}

/// To merge the state of a peer draws nothing.
pub proof fn merge_draws_nothing<I, A, G>(
    m: Machine<I, A, G>,
    local: I,
    decoded: Option<(AnyMessage<I, A>, usize)>,
    len: usize,
    suppress: bool,
)
    ensures
        m.merging_bytes(local, decoded, len, suppress).rng == m.rng,
{
    if let Some((AnyMessage::PushPull(pp), _)) = decoded {
        merging_draws_nothing(m, local, pp, suppress);
    }
}

fn status_time_in<I: Value>(list: &Vec<(I, LamportTime)>, id: &I) -> (r: Option<LamportTime>)
    ensures
        r == status_in(list@, *id),
{
    let mut n: usize = list.len();
    assert(list@.take(n as int) =~= list@);
    while n > 0
        invariant
            n <= list@.len(),
            status_in(list@, *id) == status_in(list@.take(n as int), *id),
        decreases n,
    {
        assert(list@.take(n as int).drop_last() =~= list@.take(n - 1));
        let entry = &list[n - 1];
        if entry.0.same(id) && ltime_is_acceptable(entry.1.0) {
            return Some(entry.1);
        }
        n -= 1;
    }
    None
}

fn copy_events(events: &Vec<UserEvent>) -> (r: Vec<UserEvent>)
    ensures
        r@ == events@,
{
    let mut r: Vec<UserEvent> = Vec::new();
    let mut i: usize = 0;
    while i < events.len()
        invariant
            i <= events@.len(),
            r@ == events@.take(i as int),
        decreases events@.len() - i,
    {
        r.push(events[i].dup());
        i += 1;
        assert(r@ =~= events@.take(i as int));
    }
    assert(events@.take(i as int) =~= events@);
    r
}

impl<I: Id, A: Value, G> Endpoint<I, A, G> {
    fn status_list(&self) -> (r: Vec<(I, LamportTime)>)
        ensures
            r@ == Seq::new(
                vecmap::in_wire_order(self@.states.dom()).len(),
                |i: int|
                    (
                        vecmap::in_wire_order(self@.states.dom())[i],
                        self@.states[vecmap::in_wire_order(self@.states.dom())[i]].status_time,
                    ),
            ),
    {
        let ghost order = vecmap::in_wire_order(self@.states.dom());
        let mut r: Vec<(I, LamportTime)> = Vec::new();
        let n: usize = self.members.states.len();
        let mut i: usize = 0;
        while i < n
            invariant
                i <= n,
                n == order.len(),
                order == self.members.states.keys(),
                r@.len() == i,
                forall|j: int|
                    0 <= j < i ==> #[trigger] r@[j] == (
                        order[j],
                        self@.states[order[j]].status_time,
                    ),
            decreases n - i,
        {
            let entry = self.members.states.entry_at(i);
            r.push((entry.0.dup(), entry.1.status_time));
            i += 1;
        }
        r
    }

    fn left_list(&self) -> (r: Vec<I>)
        ensures
            r@ == members_among(self@.left, self@.states),
    {
        let mut r: Vec<I> = Vec::new();
        let mut i: usize = 0;
        while i < self.members.left_members.len()
            invariant
                i <= self.members.left_members@.len(),
                r@ == members_among(self@.left.take(i as int), self@.states),
            decreases self.members.left_members@.len() - i,
        {
            assert(self@.left.take(i + 1).drop_last() =~= self@.left.take(i as int));
            if self.members.states.contains_key(&self.members.left_members[i]) {
                r.push(self.members.left_members[i].dup());
            }
            i += 1;
        }
        assert(self@.left.take(i as int) =~= self@.left);
        r
    }

    fn remembered_events(&self) -> (r: Vec<UserEvents>)
        ensures
            slots_of(r@) == filled(self@.seen_events.slots),
    {
        let ghost slots = self@.seen_events.slots;
        let mut r: Vec<UserEvents> = Vec::new();
        let mut i: usize = 0;
        assert(slots_of(r@) =~= filled(slots.take(0)));
        while i < self.event_buffer.buffer.len()
            invariant
                i <= self.event_buffer.buffer@.len(),
                slots == self@.seen_events.slots,
                slots_of(r@) == filled(slots.take(i as int)),
            decreases self.event_buffer.buffer@.len() - i,
        {
            assert(slots.take(i + 1).drop_last() =~= slots.take(i as int));
            assert(slots[i as int] == buffers::event_slot(self.event_buffer.buffer@[i as int]));
            let ghost so_far = slots_of(r@);
            match &self.event_buffer.buffer[i] {
                Some(slot) => {
                    r.push(UserEvents { ltime: slot.ltime, events: copy_events(&slot.events) });
                    assert(slots_of(r@) =~= so_far.push(slots[i as int]->0));
                },
                None => {},
            }
            i += 1;
        }
        assert(slots.take(i as int) =~= slots);
        r
    }

    /// Returns the state that peers are to be told; nothing after a shutdown. The driver
    /// hands it to the coordinator, and the outcome to
    /// [`Endpoint::local_state_accepted`].
    pub fn resync_local_state(&self) -> (r: Option<PushPullMessage<I>>)
        ensures
            r is None == self@.is_down(),
            r matches Some(pp) ==> self@.tells(pp),
    {
        if self.state.is_shutdown() {
            return None;
        }
        Some(
            PushPullMessage {
                ltime: LamportTime(self.clock),
                status_ltimes: self.status_list(),
                left_members: self.left_list(),
                event_ltime: LamportTime(self.event_clock),
                events: self.remembered_events(),
                query_ltime: LamportTime(self.query_clock),
            },
        )
    }

    /// Returns the state that peers are to be told, if what they are told is out of
    /// date.
    pub fn stale_local_state(&self) -> (r: Option<PushPullMessage<I>>)
        ensures
            r is None == (self@.is_down() || !self@.dirty),
            r matches Some(pp) ==> self@.tells(pp),
    {
        if self.local_state_dirty {
            self.resync_local_state()
        } else {
            None
        }
    }

    /// Takes in whether the coordinator accepted the state that peers are to be told.
    /// What it refused stays out of date, and is tried again.
    pub fn local_state_accepted(&mut self, accepted: bool)
        ensures
            final(self)@ == (Machine { dirty: old(self)@.dirty && !accepted, ..old(self)@ }),
    {
        if accepted {
            self.local_state_dirty = false;
        }
    }

    /// Takes note that the merge of an exchange is not to replay earlier user events.
    pub fn note_ignore_join_stream(&mut self, id: StreamId)
        ensures
            final(self)@ == old(self)@.noting(id),
    {
        if self.ignored_at(id).is_none() {
            self.ignore_join_streams.push(id);
        }
    }

    fn ignored_at(&self, id: StreamId) -> (r: Option<usize>)
        ensures
            match r {
                Some(i) => i < self@.ignored.len() && self@.ignored.contains(id)
                    && self@.ignored.index_of_first(id) == Some(i as int),
                None => !self@.ignored.contains(id),
            },
    {
        let mut i: usize = 0;
        while i < self.ignore_join_streams.len()
            invariant
                i <= self.ignore_join_streams@.len(),
                forall|j: int| 0 <= j < i ==> #[trigger] self.ignore_join_streams@[j] != id,
            decreases self.ignore_join_streams@.len() - i,
        {
            if self.ignore_join_streams[i] == id {
                proof {
                    let s = self@.ignored;
                    assert(s[i as int] == id);
                    s.index_of_first_ensures(id);
                    let k = s.index_of_first(id)->0;
                    if k < i {
                        assert(s[k] != id);
                    }
                    if i < k {
                        assert(s[i as int] != id);
                    }
                }
                return Some(i);
            }
            i += 1;
        }
        None
    }

    /// Forgets that the merge of an exchange is not to replay earlier user events, and
    /// tells whether that was noted.
    pub fn consume_ignore_join_stream(&mut self, id: StreamId) -> (r: bool)
        ensures
            r == old(self)@.ignored.contains(id),
            final(self)@ == old(self)@.consuming(id),
    {
        let ghost before = self@;
        match self.ignored_at(id) {
            Some(i) => {
                self.ignore_join_streams.swap_remove(i);
                assert(self@ =~= before.consuming(id));
                true
            },
            None => false,
        }
    }

    /// Forgets an exchange that ended without a merge.
    pub fn clear_ignore_join_stream(&mut self, id: StreamId)
        ensures
            final(self)@ == old(self)@.consuming(id),
    {
        self.consume_ignore_join_stream(id);
    }

    fn hear(&mut self, pp: &PushPullMessage<I>)
        requires
            Machine::<I, A, G>::plausible_peer(*pp),
        ensures
            final(self)@ == old(self)@.hearing(*pp),
    {
        let clock_before: u64 = self.clock;
        let event_clock_before: u64 = self.event_clock;
        let query_clock_before: u64 = self.query_clock;
        if pp.ltime.0 > 0 {
            witness(&mut self.clock, pp.ltime.0 - 1);
        }
        if pp.event_ltime.0 > 0 {
            witness(&mut self.event_clock, pp.event_ltime.0 - 1);
        }
        if pp.query_ltime.0 > 0 {
            witness(&mut self.query_clock, pp.query_ltime.0 - 1);
        }
        if self.clock != clock_before || self.event_clock != event_clock_before || self.query_clock
            != query_clock_before {
            self.mark_local_state_dirty();
        }
    }

    fn replay_slot(&mut self, slot: &UserEvents)
        ensures
            final(self)@ == old(self)@.replaying_slot(slot.ltime, slot.events@),
    {
        let ghost before = self@;
        let mut i: usize = 0;
        while i < slot.events.len()
            invariant
                i <= slot.events@.len(),
                self@ == before.replaying_slot(slot.ltime, slot.events@.take(i as int)),
            decreases slot.events@.len() - i,
        {
            assert(slot.events@.take(i + 1).drop_last() =~= slot.events@.take(i as int));
            let ev = slot.events[i].dup();
            self.handle_user_event(
                UserEventMessage {
                    ltime: slot.ltime,
                    cc: false,
                    name: ev.name,
                    payload: ev.payload,
                },
            );
            i += 1;
        }
        assert(slot.events@.take(i as int) =~= slot.events@);
    }

    /// Merges the state of a peer. Its user events from before this exchange are not
    /// replayed where `suppress` says so.
    pub fn merge_push_pull(&mut self, c: &Coordinator<I, A>, pp: &PushPullMessage<I>, suppress: bool)
        ensures
            final(self)@ == old(self)@.merging(c.local.id, *pp, suppress),
    {
        if !ltime_is_acceptable(pp.ltime.0) || !ltime_is_acceptable(pp.event_ltime.0)
            || !ltime_is_acceptable(pp.query_ltime.0) {
            return;
        }
        let now: Instant = self.drain_now;
        self.hear(pp);
        let ghost m0 = self@;
        let ghost left = pp.left_members@;
        let ghost status = pp.status_ltimes@;
        let mut i: usize = 0;
        while i < pp.left_members.len()
            invariant
                i <= left.len(),
                left == pp.left_members@,
                status == pp.status_ltimes@,
                self@ == m0.told_left(c.local.id, left.take(i as int), status, now),
            decreases left.len() - i,
        {
            assert(left.take(i + 1).drop_last() =~= left.take(i as int));
            let id = &pp.left_members[i];
            if let Some(t) = status_time_in(&pp.status_ltimes, id) {
                let leave_ltime = LamportTime(t.0.saturating_add(1));
                self.handle_node_leave_intent(&c.local.id, leave_ltime, id, false, now);
            }
            i += 1;
        }
        assert(left.take(i as int) =~= left);
        let ghost m1 = self@;
        let mut i: usize = 0;
        while i < pp.status_ltimes.len()
            invariant
                i <= status.len(),
                left == pp.left_members@,
                status == pp.status_ltimes@,
                self@ == m1.told_joined(left, status.take(i as int), now),
            decreases status.len() - i,
        {
            assert(status.take(i + 1).drop_last() =~= status.take(i as int));
            let entry = &pp.status_ltimes[i];
            if !list_contains(&pp.left_members, &entry.0) {
                self.handle_node_join_intent(entry.1, &entry.0, now);
            }
            i += 1;
        }
        assert(status.take(i as int) =~= status);
        if suppress && pp.event_ltime.0 > self.event_buffer.min_time {
            let ghost m2 = self@;
            self.event_buffer.min_time = pp.event_ltime.0;
            self.mark_local_state_dirty();
            assert(self@ =~= m2.ignoring_before(pp.event_ltime));
        }
        let ghost m3 = self@;
        let ghost events = pp.events@;
        let mut i: usize = 0;
        while i < pp.events.len()
            invariant
                i <= events.len(),
                events == pp.events@,
                self@ == m3.replaying(events.take(i as int)),
            decreases events.len() - i,
        {
            assert(events.take(i + 1).drop_last() =~= events.take(i as int));
            self.replay_slot(&pp.events[i]);
            i += 1;
        }
        assert(events.take(i as int) =~= events);
    }

    /// Merges bytes from a peer, where `decoded` is the message at their head and how
    /// many bytes it takes, and `len` is the number of bytes.
    pub fn merge_remote_state(
        &mut self,
        c: &Coordinator<I, A>,
        decoded: Option<(AnyMessage<I, A>, usize)>,
        len: usize,
        suppress: bool,
    )
        ensures
            final(self)@ == old(self)@.merging_bytes(c.local.id, decoded, len, suppress),
    {
        match decoded {
            Some((AnyMessage::PushPull(pp), consumed)) => {
                if consumed == len {
                    self.merge_push_pull(c, &pp, suppress);
                }
            },
            _ => {},
        }
    }
}

} // verus!
