//! What peers tell each other reaches them: what a told state holds, what merging it does,
//! and what becomes of a user event.

use crate::action::{Action, Frame};
use crate::buffers;
use crate::buffers::{EventRing, EventSlot};
use crate::clock;
use crate::clock::LamportTime;
use crate::endpoint::{bounds, changes, exchange, Machine};
use crate::event::Report;
use crate::id::Id;
use crate::members::{MemberState, MemberStatus};
use crate::octets;
use crate::query::Error;
use crate::time::Instant;
use crate::typed;
use crate::typed::{PushPullMessage, UserEvent, UserEventMessage, UserEvents};
use crate::vecmap;
use bytes::Bytes;
use vstd::prelude::*;

verus! {

proof fn filled_slots_stand(slots: Seq<Option<EventSlot>>)
    ensures
        exchange::filled(slots) == slots.filter(|s: Option<EventSlot>| s is Some).map_values(
            |s: Option<EventSlot>| s->0,
        ),
        forall|i: int|
            0 <= i < slots.len() && (#[trigger] slots[i]) is Some ==> exchange::filled(
                slots,
            ).contains(slots[i]->0),
        forall|j: int|
            0 <= j < exchange::filled(slots).len() ==> slots.contains(
                Some(#[trigger] exchange::filled(slots)[j]),
            ),
    decreases slots.len(),
{
    reveal(Seq::filter);
    if slots.len() > 0 {
        let rest = slots.drop_last();
        let before = exchange::filled(rest);
        let after = exchange::filled(slots);
        filled_slots_stand(rest);
        assert forall|i: int| 0 <= i < slots.len() && (
        #[trigger] slots[i]) is Some implies after.contains(slots[i]->0) by {
            if i < rest.len() {
                assert(rest[i] == slots[i]);
                let j = choose|j: int| 0 <= j < before.len() && before[j] == slots[i]->0;
                assert(after[j] == slots[i]->0);
            } else {
                assert(after[before.len() as int] == slots[i]->0);
            }
        }
        assert forall|j: int| 0 <= j < after.len() implies slots.contains(
            Some(#[trigger] after[j]),
        ) by {
            if j < before.len() {
                assert(after[j] == before[j]);
                let i = choose|i: int| 0 <= i < rest.len() && rest[i] == Some(before[j]);
                assert(slots[i] == Some(after[j]));
            } else {
                assert(slots[slots.len() - 1] == Some(after[j]));
            }
        }
    }
}

proof fn members_among_stand<I, A>(list: Seq<I>, states: Map<I, MemberState<I, A>>)
    ensures
        exchange::members_among(list, states) == list.filter(|id: I| states.dom().contains(id)),
    decreases list.len(),
{
    reveal(Seq::filter);
    if list.len() > 0 {
        members_among_stand(list.drop_last(), states);
    }
}

/// Told state leaves nothing out and adds nothing. It gives what the three clocks read, each
/// member once with the time of its last intent, the members that left, and the user events
/// of every slot that remembers some, with their time.
pub proof fn the_told_state_is_complete<I: Id, A, G>(m: Machine<I, A, G>, pp: PushPullMessage<I>)
    requires
        m.tells(pp),
        m.states.dom().finite(),
    ensures
        pp.ltime.0 == m.clock,
        pp.event_ltime.0 == m.event_clock,
        pp.query_ltime.0 == m.query_clock,
        forall|id: I, t: LamportTime| #[trigger]
            pp.status_ltimes@.contains((id, t)) <==> m.states.dom().contains(id)
                && m.states[id].status_time == t,
        pp.status_ltimes@.no_duplicates(),
        forall|i: int, j: int|
            0 <= i < j < pp.status_ltimes@.len() ==> vecmap::lex_below(
                (#[trigger] pp.status_ltimes@[i]).0.wire(),
                (#[trigger] pp.status_ltimes@[j]).0.wire(),
            ),
        pp.left_members@ == m.left.filter(|id: I| m.states.dom().contains(id)),
        forall|i: int|
            0 <= i < m.seen_events.slots.len() ==> (
            #[trigger] m.seen_events.slots[i] matches Some(s) ==> exists|j: int|
                0 <= j < pp.events@.len() && (#[trigger] pp.events@[j]).ltime.0 == s.ltime
                    && pp.events@[j].events@ == s.events),
        forall|j: int|
            0 <= j < pp.events@.len() ==> m.seen_events.slots.contains(
                Some(
                    EventSlot {
                        ltime: (#[trigger] pp.events@[j]).ltime.0,
                        events: pp.events@[j].events@,
                    },
                ),
            ),
        pp.events@.len() == m.seen_events.slots.filter(
            |s: Option<EventSlot>| s is Some,
        ).len(),
        forall|j: int|
            0 <= j < pp.events@.len() ==> m.seen_events.slots.filter(
                |s: Option<EventSlot>| s is Some,
            )[j]->0 == (EventSlot {
                ltime: (#[trigger] pp.events@[j]).ltime.0,
                events: pp.events@[j].events@,
            }),
{
    let order = vecmap::in_wire_order(m.states.dom());
    vecmap::wire_order_exists(m.states.dom());
    members_among_stand(m.left, m.states);
    let slots = m.seen_events.slots;
    let kept = exchange::filled(slots);
    filled_slots_stand(slots);
    assert(kept.len() == pp.events@.len());
    assert forall|j: int| 0 <= j < pp.events@.len() implies slots.filter(
        |s: Option<EventSlot>| s is Some,
    )[j]->0 == (EventSlot {
        ltime: (#[trigger] pp.events@[j]).ltime.0,
        events: pp.events@[j].events@,
    }) by {
        assert(exchange::slots_of(pp.events@)[j] == kept[j]);
    }
    assert forall|i: int, j: int| 0 <= i < j < pp.status_ltimes@.len() implies vecmap::lex_below(
        (#[trigger] pp.status_ltimes@[i]).0.wire(),
        (#[trigger] pp.status_ltimes@[j]).0.wire(),
    ) by {
        assert(pp.status_ltimes@[i].0 == order[i]);
        assert(pp.status_ltimes@[j].0 == order[j]);
    }
    assert forall|i: int| 0 <= i < slots.len() implies (#[trigger] slots[i] matches Some(s)
        ==> exists|j: int|
        0 <= j < pp.events@.len() && (#[trigger] pp.events@[j]).ltime.0 == s.ltime
            && pp.events@[j].events@ == s.events) by {
        if let Some(s) = slots[i] {
            let j = choose|j: int| 0 <= j < kept.len() && kept[j] == s;
            assert(exchange::slots_of(pp.events@)[j] == s);
            assert(pp.events@[j].ltime.0 == s.ltime);
        }
    }
    assert forall|j: int| 0 <= j < pp.events@.len() implies slots.contains(
        Some(
            EventSlot { ltime: (#[trigger] pp.events@[j]).ltime.0, events: pp.events@[j].events@ },
        ),
    ) by {
        assert(exchange::slots_of(pp.events@)[j] == kept[j]);
    }
    assert forall|id: I, t: LamportTime| #[trigger]
        pp.status_ltimes@.contains((id, t)) <==> m.states.dom().contains(id)
            && m.states[id].status_time == t by {
        if m.states.dom().contains(id) {
            assert(order.contains(id));
            let i = choose|i: int| 0 <= i < order.len() && order[i] == id;
            assert(pp.status_ltimes@[i] == (id, m.states[id].status_time));
        }
        if pp.status_ltimes@.contains((id, t)) {
            let i = choose|i: int|
                0 <= i < pp.status_ltimes@.len() && pp.status_ltimes@[i] == (id, t);
            assert(order[i] == id);
            assert(order.contains(id));
        }
    }
    assert forall|i: int, j: int|
        0 <= i < pp.status_ltimes@.len() && 0 <= j < pp.status_ltimes@.len() && i
            != j implies pp.status_ltimes@[i] != pp.status_ltimes@[j] by {
        wire_order_tells_apart(order, i, j);
    }
}

proof fn wire_order_tells_apart<I: Id>(order: Seq<I>, i: int, j: int)
    requires
        vecmap::wire_sorted(order),
        0 <= i < order.len(),
        0 <= j < order.len(),
        i != j,
    ensures
        order[i] != order[j],
{
}

/// A clock that hears a peer whose clock reads a time in range reads at least as much: the
/// later of the two times, and nothing past it.
pub proof fn clocks_catch_up(clock: u64, told: LamportTime)
    requires
        told.0 < 0x8000_0000_0000_0000,
    ensures
        exchange::heard(clock, told) >= clock,
        exchange::heard(clock, told) >= told.0,
        exchange::heard(clock, told) == clock || exchange::heard(clock, told) == told.0,
{
}

/// A machine that hears the clocks of a peer moves each of its own by the clock of the same
/// kind, and notes that its state changed exactly if one of them moved.
pub proof fn heard_clocks_are_told_apart<I, A, G>(m: Machine<I, A, G>, pp: PushPullMessage<I>)
    requires
        pp.ltime.0 < 0x8000_0000_0000_0000,
        pp.event_ltime.0 < 0x8000_0000_0000_0000,
        pp.query_ltime.0 < 0x8000_0000_0000_0000,
    ensures
        ({
            let after = m.hearing(pp);
            &&& pp.ltime.0 >= m.clock ==> after.clock == pp.ltime.0
            &&& pp.ltime.0 <= m.clock ==> after.clock == m.clock
            &&& pp.event_ltime.0 >= m.event_clock ==> after.event_clock == pp.event_ltime.0
            &&& pp.event_ltime.0 <= m.event_clock ==> after.event_clock == m.event_clock
            &&& pp.query_ltime.0 >= m.query_clock ==> after.query_clock == pp.query_ltime.0
            &&& pp.query_ltime.0 <= m.query_clock ==> after.query_clock == m.query_clock
            &&& after == (Machine {
                clock: after.clock,
                event_clock: after.event_clock,
                query_clock: after.query_clock,
                dirty: after.dirty,
                ..m
            })
            &&& after.dirty <==> m.dirty || pp.ltime.0 > m.clock || pp.event_ltime.0
                > m.event_clock || pp.query_ltime.0 > m.query_clock
        }),
{
}

/// Of the times that a peer gives for a node the last one in range counts, and one counts
/// wherever one is in range.
pub proof fn the_last_status_counts<I>(list: Seq<(I, LamportTime)>, id: I)
    ensures
        match exchange::status_in(list, id) {
            Some(t) => {
                &&& t.0 < 0x8000_0000_0000_0000
                &&& exists|i: int|
                    0 <= i < list.len() && #[trigger] list[i] == (id, t) && forall|j: int|
                        i < j < list.len() && (#[trigger] list[j]).0 == id ==> list[j].1.0
                            >= 0x8000_0000_0000_0000
            },
            None => forall|j: int|
                0 <= j < list.len() && (#[trigger] list[j]).0 == id ==> list[j].1.0
                    >= 0x8000_0000_0000_0000,
        },
    decreases list.len(),
{
    if list.len() > 0 {
        let rest = list.drop_last();
        the_last_status_counts(rest, id);
        if list.last().0 == id && clock::acceptable(list.last().1.0) {
            assert(list[list.len() - 1] == (id, list.last().1));
        } else {
            match exchange::status_in(rest, id) {
                Some(t) => {
                    let i = choose|i: int|
                        0 <= i < rest.len() && #[trigger] rest[i] == (id, t) && forall|j: int|
                            i < j < rest.len() && (#[trigger] rest[j]).0 == id ==> rest[j].1.0
                                >= 0x8000_0000_0000_0000;
                    assert(list[i] == (id, t));
                    assert forall|j: int|
                        i < j < list.len() && (#[trigger] list[j]).0 == id implies list[j].1.0
                        >= 0x8000_0000_0000_0000 by {
                        if j < rest.len() {
                            assert(rest[j] == list[j]);
                        }
                    }
                },
                None => {
                    assert forall|j: int|
                        0 <= j < list.len() && (#[trigger] list[j]).0 == id implies list[j].1.0
                        >= 0x8000_0000_0000_0000 by {
                        if j < rest.len() {
                            assert(rest[j] == list[j]);
                        }
                    }
                },
            }
        }
    }
}

proof fn last_or_before<T>(s: Seq<T>, x: T)
    requires
        s.len() > 0,
    ensures
        s.contains(x) <==> s.last() == x || s.drop_last().contains(x),
{
    if s.contains(x) && s.last() != x {
        let i = choose|i: int| 0 <= i < s.len() && s[i] == x;
        assert(s.drop_last()[i] == x);
    }
    if s.drop_last().contains(x) {
        let i = choose|i: int| 0 <= i < s.drop_last().len() && s.drop_last()[i] == x;
        assert(s[i] == x);
    }
    assert(s[s.len() - 1] == s.last());
}

/// The status of a member after an announced leave.
pub open spec fn status_after_leave(status: MemberStatus) -> MemberStatus {
    match status {
        MemberStatus::Alive => MemberStatus::Leaving,
        MemberStatus::Failed => MemberStatus::Left,
        other => other,
    }
}

/// A member that a peer lists as left counts as announced to leave, one past the time that
/// the peer gives for it, where that is news. A node that the peer does not list stays what
/// it is.
pub proof fn a_peer_tells_who_left<I, A, G>(
    m: Machine<I, A, G>,
    local: I,
    left: Seq<I>,
    status: Seq<(I, LamportTime)>,
    now: Instant,
    id: I,
)
    ensures
        ({
            let after = m.told_left(local, left, status, now);
            let was = m.states[id];
            let ms = after.states[id];
            &&& after.state == m.state
            &&& !left.contains(id) ==> {
                &&& after.states.dom().contains(id) == m.states.dom().contains(id)
                &&& ms == was
                &&& after.intents.dom().contains(id) == m.intents.dom().contains(id)
                &&& after.intents[id] == m.intents[id]
            }
            &&& left.contains(id) && m.states.dom().contains(id) && !(id == local
                && m.state is Alive) ==> {
                &&& after.states.dom().contains(id)
                &&& ms.member.node == was.member.node
                &&& ms.member.tags == was.member.tags
                &&& ms.leave_time == was.leave_time
                &&& exchange::status_in(status, id) is None ==> ms == was
                &&& exchange::status_in(status, id) matches Some(t) ==> {
                    &&& t.0 + 1 < 0x8000_0000_0000_0000 && t.0 + 1 > was.status_time.0 ==> {
                        &&& ms.status_time.0 == t.0 + 1
                        &&& ms.member.status == status_after_leave(was.member.status)
                    }
                    &&& t.0 + 1 <= was.status_time.0 || t.0 + 1 >= 0x8000_0000_0000_0000 ==> ms
                        == was
                }
            }
        }),
    decreases left.len(),
{
    if left.len() > 0 {
        a_peer_tells_who_left(m, local, left.drop_last(), status, now, id);
        last_or_before(left, id);
        the_last_status_counts(status, id);
    }
}

/// A member that a peer knows and does not list as left counts as announced to have joined,
/// at the time that the peer gives for it, where that is news. One of which the peer has
/// nothing later to tell stays what it is.
pub proof fn a_peer_tells_who_joined<I, A, G>(
    m: Machine<I, A, G>,
    left: Seq<I>,
    status: Seq<(I, LamportTime)>,
    now: Instant,
    id: I,
)
    requires
        m.states.dom().contains(id),
        !left.contains(id),
    ensures
        ({
            let after = m.told_joined(left, status, now);
            let was = m.states[id];
            let ms = after.states[id];
            &&& after.states.dom().contains(id)
            &&& ms.member.node == was.member.node
            &&& ms.member.tags == was.member.tags
            &&& ms.leave_time == was.leave_time
            &&& ms.status_time.0 >= was.status_time.0
            &&& forall|i: int|
                0 <= i < status.len() && (#[trigger] status[i]).0 == id && status[i].1.0
                    < 0x8000_0000_0000_0000 ==> ms.status_time.0 >= status[i].1.0
            &&& ms.status_time.0 > was.status_time.0 ==> {
                &&& status.contains((id, ms.status_time))
                &&& was.member.status is Leaving ==> ms.member.status is Alive
                &&& !(was.member.status is Leaving) ==> ms.member.status == was.member.status
            }
            &&& ms.status_time.0 == was.status_time.0 ==> ms == was
        }),
    decreases status.len(),
{
    if status.len() > 0 {
        let rest = status.drop_last();
        a_peer_tells_who_joined(m, left, rest, now, id);
        let mid = m.told_joined(left, rest, now);
        let after = m.told_joined(left, status, now);
        let ms = after.states[id];
        last_or_before(status, (id, ms.status_time));
        assert forall|i: int|
            0 <= i < status.len() && (#[trigger] status[i]).0 == id && status[i].1.0
                < 0x8000_0000_0000_0000 implies ms.status_time.0 >= status[i].1.0 by {
            if i < rest.len() {
                assert(rest[i] == status[i]);
            }
        }
    }
}

proof fn intents_leave_the_rest<I, A, G>(
    m: Machine<I, A, G>,
    local: I,
    left: Seq<I>,
    status: Seq<(I, LamportTime)>,
    now: Instant,
)
    ensures
        intents_only(m, m.told_left(local, left, status, now)),
    decreases left.len(),
{
    if left.len() > 0 {
        intents_leave_the_rest(m, local, left.drop_last(), status, now);
        let mid = m.told_left(local, left.drop_last(), status, now);
        if let Some(t) = exchange::status_in(status, left.last()) {
            let ltime = LamportTime(clock::ticked(t.0));
            assert(intents_only(mid, mid.after_leave_intent(local, ltime, left.last(), false, now)));
        }
    }
}

proof fn joins_leave_the_rest<I, A, G>(
    m: Machine<I, A, G>,
    left: Seq<I>,
    status: Seq<(I, LamportTime)>,
    now: Instant,
)
    ensures
        intents_only(m, m.told_joined(left, status, now)),
        m.told_joined(left, status, now).reports == m.reports,
        m.told_joined(left, status, now).actions == m.actions,
    decreases status.len(),
{
    if status.len() > 0 {
        joins_leave_the_rest(m, left, status.drop_last(), now);
    }
}

/// Whether at most what intents may change differs: the members, the intents that are kept,
/// the member clock, and what is reported and asked of them.
pub open spec fn intents_only<I, A, G>(
    before: Machine<I, A, G>,
    after: Machine<I, A, G>,
) -> bool {
    after == (Machine {
        clock: after.clock,
        states: after.states,
        failed: after.failed,
        left: after.left,
        intents: after.intents,
        dirty: after.dirty,
        reports: after.reports,
        batch: after.batch,
        member_drop: after.member_drop,
        coalesce_now: after.coalesce_now,
        actions: after.actions,
        ..before
    })
}

/// A user event counts if its time is in the lower half of the integers, its name and its
/// payload together are no longer than allowed, and the ring takes it at the time that the
/// clock then reads.
pub proof fn plausible_new_events_count<I, A, G>(m: Machine<I, A, G>, msg: UserEventMessage)
    ensures
        m.plausible_event(msg) <==> msg.ltime.0 < 0x8000_0000_0000_0000 && (octets::name_len(
            msg.name@,
        ) + octets::octets(msg.payload).len() <= m.opts.max_user_event_size || (
        m.opts.max_user_event_size == usize::MAX)),
        ({
            let ev = UserEvent { name: msg.name, payload: msg.payload };
            let cur = if msg.ltime.0 >= m.event_clock {
                (msg.ltime.0 + 1) as u64
            } else {
                m.event_clock
            };
            m.takes_user_event(msg) <==> m.plausible_event(msg) && m.seen_events.admits(
                cur,
                msg.ltime.0,
                ev,
            )
        }),
{
}

/// A user event that counts is remembered under its time with its name and its payload, and
/// reported as it came or held back. The clock stands past it. One that does not count is
/// neither remembered nor reported; if it is plausible the clock still stands past it, and if
/// not nothing changes.
pub proof fn a_user_event_is_taken<I, A, G>(m: Machine<I, A, G>, msg: UserEventMessage)
    ensures
        ({
            let after = m.after_user_event(msg);
            let ev = UserEvent { name: msg.name, payload: msg.payload };
            &&& !m.plausible_event(msg) ==> after == m
            &&& m.plausible_event(msg) ==> {
                &&& msg.ltime.0 >= m.event_clock ==> after.event_clock == msg.ltime.0 + 1
                &&& msg.ltime.0 < m.event_clock ==> after.event_clock == m.event_clock
            }
            &&& m.plausible_event(msg) && !m.takes_user_event(msg) ==> after == (Machine {
                event_clock: after.event_clock,
                ..m
            })
            &&& m.takes_user_event(msg) ==> {
                &&& after.seen_events == m.seen_events.recorded(msg.ltime.0, ev)
                &&& after.dirty
                &&& m.backlog is None || !msg.cc ==> after.reports == m.reports.push(
                    Report::User(msg),
                )
                &&& m.backlog is Some && msg.cc ==> after.backlog is Some
                    && m.reports.is_prefix_of(after.reports)
                &&& after == (Machine {
                    event_clock: after.event_clock,
                    seen_events: after.seen_events,
                    dirty: after.dirty,
                    reports: after.reports,
                    backlog: after.backlog,
                    user_drop: after.user_drop,
                    coalesce_now: after.coalesce_now,
                    ..m
                })
            }
        }),
{
    if m.takes_user_event(msg) {
        let ev = UserEvent { name: msg.name, payload: msg.payload };
        let base = Machine {
            event_clock: clock::witnessed(m.event_clock, msg.ltime.0),
            seen_events: m.seen_events.recorded(msg.ltime.0, ev),
            dirty: true,
            ..m
        };
        changes::user_events_are_told(base, msg);
    }
}

/// A node that fires a user event hands its frame to gossip at the last rank, ticks its event
/// clock, and takes the event in as it takes those of others.
pub proof fn a_fired_event_is_gossiped<I, A, G>(
    m: Machine<I, A, G>,
    msg: UserEventMessage,
    frame: Bytes,
)
    requires
        msg.ltime.0 == m.event_clock,
        m.event_clock < 0x7fff_ffff_ffff_ffff,
    ensures
        ({
            let after = m.firing(msg, frame);
            &&& after.actions == m.actions.push(
                Action::Broadcast { rank: 2, frame: Frame::Ready(frame) },
            )
            &&& after.event_clock == m.event_clock + 1
            &&& after.dirty
            &&& m.plausible_event(msg) && m.seen_events.admits(
                (m.event_clock + 1) as u64,
                m.event_clock,
                UserEvent { name: msg.name, payload: msg.payload },
            ) && (m.backlog is None || !msg.cc) ==> {
                &&& after.reports == m.reports.push(Report::User(msg))
                &&& after.seen_events == m.seen_events.recorded(
                    msg.ltime.0,
                    UserEvent { name: msg.name, payload: msg.payload },
                )
            }
            &&& after == (Machine {
                event_clock: after.event_clock,
                seen_events: after.seen_events,
                dirty: after.dirty,
                reports: after.reports,
                backlog: after.backlog,
                user_drop: after.user_drop,
                coalesce_now: after.coalesce_now,
                actions: after.actions,
                ..m
            })
        }),
{
    let ready = Machine { event_clock: clock::ticked(m.event_clock), dirty: true, ..m };
    a_user_event_is_taken(ready, msg);
}

/// A user event is refused by a node that was shut down, and where its name and its payload,
/// or later its frame, are longer than allowed. The size that is named is the one that was
/// too large. One that cannot be encoded is refused too.
pub proof fn large_events_are_refused<I, A, G>(
    m: Machine<I, A, G>,
    name: Seq<char>,
    payload: Bytes,
    frame: Bytes,
)
    requires
        octets::name_len(name) + octets::octets(payload).len() <= usize::MAX,
        octets::octets(frame).len() <= usize::MAX,
    ensures
        ({
            let size = octets::name_len(name) + octets::octets(payload).len();
            let most = m.opts.max_user_event_size;
            &&& m.state is Shutdown ==> m.event_verdict(name, payload) == Err::<(), Error>(
                Error::Shutdown,
            )
            &&& !(m.state is Shutdown) && size <= most ==> m.event_verdict(name, payload) is Ok
            &&& !(m.state is Shutdown) && size > most ==> (m.event_verdict(
                name,
                payload,
            ) matches Err(Error::UserEventTooLarge(n, limit)) && n == size && limit == most)
            &&& m.encoded_verdict(None) == Err::<(), Error>(Error::UserEventEncode)
            &&& octets::octets(frame).len() <= most ==> m.encoded_verdict(Some(frame)) is Ok
            &&& octets::octets(frame).len() > most ==> (m.encoded_verdict(
                Some(frame),
            ) matches Err(Error::UserEventTooLarge(n, limit)) && n == octets::octets(frame).len()
                && limit == most)
        }),
{
}

/// A floor of the user events only rises, and to no less than what was asked for.
pub proof fn event_floors_rise<I, A, G>(m: Machine<I, A, G>, ltime: LamportTime)
    ensures
        ({
            let after = m.ignoring_before(ltime);
            &&& ltime.0 > m.seen_events.min_time ==> after.seen_events.min_time == ltime.0
                && after.dirty
            &&& ltime.0 <= m.seen_events.min_time ==> after == m
            &&& after.seen_events.slots == m.seen_events.slots
            &&& after == (Machine { seen_events: after.seen_events, dirty: after.dirty, ..m })
        }),
{
}

/// An event that a peer remembered comes with the time under which it was remembered, with
/// its name and payload, and is not held back.
pub proof fn replayed_events_are_not_held_back(ltime: LamportTime, ev: UserEvent)
    ensures
        exchange::replayed(ltime, ev).ltime == ltime,
        exchange::replayed(ltime, ev).name == ev.name,
        exchange::replayed(ltime, ev).payload == ev.payload,
        !exchange::replayed(ltime, ev).cc,
{
}

/// Whether a list of user events has a place in a ring that nothing else takes.
spec fn replayable(ring: EventRing, clock: u64, most: usize, slot: UserEvents) -> bool {
    let n = ring.slots.len();
    &&& n > 0
    &&& slot.ltime.0 < clock
    &&& clock <= slot.ltime.0 + n
    &&& clock < 0x8000_0000_0000_0000
    &&& ring.min_time <= slot.ltime.0
    &&& slot.events@.len() <= 256
    &&& buffers::all_differ(slot.events@)
    &&& forall|k: int|
        0 <= k < slot.events@.len() ==> octets::name_len((#[trigger] slot.events@[k]).name@)
            + octets::octets(slot.events@[k].payload).len() <= most
}

/// Whether at most what user events may change differs.
pub open spec fn events_only<I, A, G>(before: Machine<I, A, G>, after: Machine<I, A, G>) -> bool {
    &&& before.reports.is_prefix_of(after.reports)
    &&& after.event_clock >= before.event_clock
    &&& after == (Machine {
        event_clock: after.event_clock,
        seen_events: after.seen_events,
        dirty: after.dirty,
        reports: after.reports,
        coalesce_now: after.coalesce_now,
        ..before
    })
}

proof fn a_slot_is_replayed<I, A, G>(m: Machine<I, A, G>, slot: UserEvents, k: int)
    requires
        0 <= k <= slot.events@.len(),
        replayable(m.seen_events, m.event_clock, m.opts.max_user_event_size, slot),
        m.seen_events.slots[slot.ltime.0 as int % m.seen_events.slots.len() as int] is None,
    ensures
        ({
            let after = m.replaying_slot(slot.ltime, slot.events@.take(k));
            let at = slot.ltime.0 as int % m.seen_events.slots.len() as int;
            &&& events_only(m, after)
            &&& after.event_clock == m.event_clock
            &&& after.seen_events.min_time == m.seen_events.min_time
            &&& after.seen_events.slots == m.seen_events.slots.update(
                at,
                if k == 0 {
                    None
                } else {
                    Some(EventSlot { ltime: slot.ltime.0, events: slot.events@.take(k) })
                },
            )
            &&& forall|j: int|
                0 <= j < k ==> after.reports.contains(
                    Report::User(exchange::replayed(slot.ltime, #[trigger] slot.events@[j])),
                )
        }),
    decreases k,
{
    let n = m.seen_events.slots.len();
    let at = slot.ltime.0 as int % n as int;
    assert(0 <= at < n);
    if k == 0 {
        assert(slot.events@.take(0).len() == 0);
        assert(m.seen_events.slots.update(at, None) =~= m.seen_events.slots);
    } else {
        a_slot_is_replayed(m, slot, k - 1);
        let before = slot.events@.take(k - 1);
        let mid = m.replaying_slot(slot.ltime, before);
        let ev = slot.events@[k - 1];
        let msg = exchange::replayed(slot.ltime, ev);
        assert(slot.events@.take(k).drop_last() =~= before);
        assert(slot.events@.take(k).last() == ev);
        buffers::new_events_are_admitted(mid.seen_events, m.event_clock, slot.ltime.0, ev);
        assert(!(k > 1) || forall|i: int|
            0 <= i < before.len() ==> !((#[trigger] before[i]).name@ == ev.name@
                && octets::octets(before[i].payload) == octets::octets(ev.payload))) by {
            assert forall|i: int| 0 <= i < before.len() implies !((
            #[trigger] before[i]).name@ == ev.name@ && octets::octets(before[i].payload)
                == octets::octets(ev.payload)) by {
                assert(before[i] == slot.events@[i]);
                assert(!typed::same_event(slot.events@[i], slot.events@[k - 1]));
            }
        }
        assert(mid.plausible_event(msg));
        assert(mid.takes_user_event(msg));
        buffers::events_are_remembered_by_time(mid.seen_events, slot.ltime.0, ev);
        a_user_event_is_taken(mid, msg);
        changes::user_events_are_told(
            Machine {
                seen_events: mid.seen_events.recorded(slot.ltime.0, ev),
                dirty: true,
                ..mid
            },
            msg,
        );
        let after = m.replaying_slot(slot.ltime, slot.events@.take(k));
        assert(after == mid.after_user_event(msg));
        assert(before.push(ev) =~= slot.events@.take(k));
        assert(seq![ev] =~= Seq::<UserEvent>::empty().push(ev));
        let put = EventSlot { ltime: slot.ltime.0, events: slot.events@.take(k) };
        assert(after.seen_events.slots[at]->0 =~= put) by {
            if k == 1 {
                assert(before =~= Seq::<UserEvent>::empty());
            }
        }
        assert(after.seen_events.slots =~= m.seen_events.slots.update(at, Some(put)));
        assert forall|j: int| 0 <= j < k implies after.reports.contains(
            Report::User(exchange::replayed(slot.ltime, #[trigger] slot.events@[j])),
        ) by {
            let r = Report::<I, A>::User(exchange::replayed(slot.ltime, slot.events@[j]));
            if j < k - 1 {
                let i = choose|i: int| 0 <= i < mid.reports.len() && mid.reports[i] == r;
                assert(after.reports[i] == r);
            } else {
                assert(after.reports[mid.reports.len() as int] == r);
            }
        }
    }
}

proof fn a_stale_slot_is_not_replayed<I, A, G>(
    m: Machine<I, A, G>,
    ltime: LamportTime,
    events: Seq<UserEvent>,
)
    requires
        m.seen_events.slots.len() > 0,
        ltime.0 + m.seen_events.slots.len() < m.event_clock,
    ensures
        m.replaying_slot(ltime, events) == m,
    decreases events.len(),
{
    if events.len() > 0 {
        a_stale_slot_is_not_replayed(m, ltime, events.drop_last());
        let msg = exchange::replayed(ltime, events.last());
        assert(m.after_user_event(msg) =~= m);
    }
}

/// Whether a list of user events is as a ring gives it: behind the clock,
/// no longer than it may be, with nothing twice, and of a size that is let through.
spec fn from_ring(clock: u64, most: usize, slot: UserEvents) -> bool {
    &&& slot.ltime.0 < clock
    &&& slot.events@.len() <= 256
    &&& buffers::all_differ(slot.events@)
    &&& forall|k: int|
        0 <= k < slot.events@.len() ==> octets::name_len((#[trigger] slot.events@[k]).name@)
            + octets::octets(slot.events@[k].payload).len() <= most
}

proof fn slots_are_replayed<I, A, G>(m: Machine<I, A, G>, slots: Seq<UserEvents>, k: int)
    requires
        0 <= k <= slots.len(),
        m.seen_events.slots.len() > 0,
        m.seen_events.min_time == 0,
        m.event_clock < 0x8000_0000_0000_0000,
        forall|i: int|
            0 <= i < m.seen_events.slots.len() ==> #[trigger] m.seen_events.slots[i] is None,
        forall|j: int|
            0 <= j < slots.len() ==> from_ring(
                m.event_clock,
                m.opts.max_user_event_size,
                #[trigger] slots[j],
            ),
        forall|i: int, j: int|
            0 <= i < j < slots.len() ==> (#[trigger] slots[i]).ltime.0 as int
                % m.seen_events.slots.len() as int != (#[trigger] slots[j]).ltime.0 as int
                % m.seen_events.slots.len() as int,
    ensures
        ({
            let n = m.seen_events.slots.len();
            let after = m.replaying(slots.take(k));
            &&& events_only(m, after)
            &&& after.event_clock == m.event_clock
            &&& after.seen_events.min_time == 0
            &&& after.seen_events.slots.len() == n
            &&& forall|j: int|
                0 <= j < k && m.event_clock <= (#[trigger] slots[j]).ltime.0 + n
                    && slots[j].events@.len() > 0 ==> after.seen_events.slots[slots[j].ltime.0 as int
                    % n as int] == Some(
                    EventSlot { ltime: slots[j].ltime.0, events: slots[j].events@ },
                )
            &&& forall|i: int|
                #![trigger after.seen_events.slots[i]]
                0 <= i < n && (forall|j: int|
                    0 <= j < k ==> (#[trigger] slots[j]).ltime.0 as int % n as int != i)
                    ==> after.seen_events.slots[i] is None
            &&& forall|j: int, q: int|
                0 <= j < k && m.event_clock <= slots[j].ltime.0 + n && 0 <= q
                    < slots[j].events@.len() ==> after.reports.contains(
                    Report::User(
                        exchange::replayed(slots[j].ltime, #[trigger] slots[j].events@[q]),
                    ),
                )
        }),
    decreases k,
{
    let n = m.seen_events.slots.len();
    if k == 0 {
        assert(slots.take(0).len() == 0);
    } else {
        slots_are_replayed(m, slots, k - 1);
        let mid = m.replaying(slots.take(k - 1));
        let after = m.replaying(slots.take(k));
        let slot = slots[k - 1];
        let at = slot.ltime.0 as int % n as int;
        assert(0 <= at < n);
        assert(slots.take(k).drop_last() =~= slots.take(k - 1));
        assert(after == mid.replaying_slot(slot.ltime, slot.events@));
        assert(from_ring(m.event_clock, m.opts.max_user_event_size, slot));
        assert(mid.seen_events.slots[at] is None);
        if m.event_clock <= slot.ltime.0 + n {
            assert(slot.events@.take(slot.events@.len() as int) =~= slot.events@);
            a_slot_is_replayed(mid, slot, slot.events@.len() as int);
        } else {
            a_stale_slot_is_not_replayed(mid, slot.ltime, slot.events@);
        }
        assert forall|j: int|
            0 <= j < k && m.event_clock <= (#[trigger] slots[j]).ltime.0 + n
                && slots[j].events@.len() > 0 implies after.seen_events.slots[slots[j].ltime.0 as int
            % n as int] == Some(
            EventSlot { ltime: slots[j].ltime.0, events: slots[j].events@ },
        ) by {
            if j < k - 1 {
                let other = slots[j].ltime.0 as int % n as int;
                assert(other != at);
                assert(0 <= other < n);
            }
        }
        assert forall|i: int|
            #![trigger after.seen_events.slots[i]]
            0 <= i < n && (forall|j: int|
                0 <= j < k ==> (#[trigger] slots[j]).ltime.0 as int % n as int
                    != i) implies after.seen_events.slots[i] is None by {
            assert(slots[k - 1].ltime.0 as int % n as int != i);
            assert(mid.seen_events.slots[i] is None);
        }
        assert forall|j: int, q: int|
            0 <= j < k && m.event_clock <= slots[j].ltime.0 + n && 0 <= q
                < slots[j].events@.len() implies after.reports.contains(
            Report::User(exchange::replayed(slots[j].ltime, #[trigger] slots[j].events@[q])),
        ) by {
            let r = Report::<I, A>::User(exchange::replayed(slots[j].ltime, slots[j].events@[q]));
            if j < k - 1 {
                assert(mid.reports.contains(r));
                let i = choose|i: int| 0 <= i < mid.reports.len() && mid.reports[i] == r;
                assert(after.reports[i] == r);
            }
        }
    }
}

proof fn filled_slots_are_apart(slots: Seq<Option<EventSlot>>, n: nat)
    requires
        slots.len() <= n,
        forall|i: int|
            0 <= i < slots.len() ==> ((#[trigger] slots[i]) matches Some(s) ==> s.ltime as int
                % n as int == i),
    ensures
        forall|j: int|
            0 <= j < exchange::filled(slots).len() ==> (#[trigger] exchange::filled(
                slots,
            )[j]).ltime as int % (n as int) < slots.len(),
        forall|i: int, j: int|
            0 <= i < j < exchange::filled(slots).len() ==> (#[trigger] exchange::filled(
                slots,
            )[i]).ltime as int % n as int != (#[trigger] exchange::filled(slots)[j]).ltime as int
                % n as int,
    decreases slots.len(),
{
    if slots.len() > 0 {
        let rest = slots.drop_last();
        assert forall|i: int| 0 <= i < rest.len() implies ((#[trigger] rest[i]) matches Some(s)
            ==> s.ltime as int % n as int == i) by {
            assert(rest[i] == slots[i]);
        }
        filled_slots_are_apart(rest, n);
        let before = exchange::filled(rest);
        let after = exchange::filled(slots);
        assert(slots[slots.len() - 1] == slots.last());
        assert forall|j: int| 0 <= j < after.len() implies (#[trigger] after[j]).ltime as int
            % (n as int) < slots.len() by {
            if j < before.len() {
                assert(after[j] == before[j]);
            }
        }
        assert forall|i: int, j: int| 0 <= i < j < after.len() implies (
        #[trigger] after[i]).ltime as int % n as int != (#[trigger] after[j]).ltime as int
            % n as int by {
            assert(after[i] == before[i]);
            if j < before.len() {
                assert(after[j] == before[j]);
            }
        }
    }
}

/// A peer that remembers no user event yet and merges told state remembers after it what the
/// teller remembers, slot by slot, and has every one of these events reported. Only times
/// that lie further behind the clock of the teller than the ring is long are left out.
pub proof fn a_fresh_peer_learns_the_events<I: Id, A, G>(
    m: Machine<I, A, G>,
    pp: PushPullMessage<I>,
    p: Machine<I, A, G>,
    local: I,
)
    requires
        m.tells(pp),
        m.states.dom().finite(),
        m.seen_events.orderly(),
        bounds::events_behind(m.seen_events, m.event_clock),
        m.clock < 0x8000_0000_0000_0000,
        m.event_clock < 0x8000_0000_0000_0000,
        m.query_clock < 0x8000_0000_0000_0000,
        p.event_clock <= m.event_clock,
        p.seen_events.slots.len() == m.seen_events.slots.len(),
        p.seen_events.min_time == 0,
        forall|i: int|
            0 <= i < p.seen_events.slots.len() ==> #[trigger] p.seen_events.slots[i] is None,
        forall|i: int, q: int|
            0 <= i < m.seen_events.slots.len() && m.seen_events.slots[i] is Some && 0 <= q
                < m.seen_events.slots[i]->0.events.len() ==> octets::name_len(
                (#[trigger] m.seen_events.slots[i]->0.events[q]).name@,
            ) + octets::octets(m.seen_events.slots[i]->0.events[q].payload).len()
                <= p.opts.max_user_event_size,
    ensures
        forall|i: int|
            0 <= i < m.seen_events.slots.len() ==> (
            #[trigger] m.seen_events.slots[i] matches Some(s) ==> m.event_clock <= s.ltime
                + m.seen_events.slots.len() && s.events.len() > 0 ==> p.merging(
                local,
                pp,
                false,
            ).seen_events.slots[i] == Some(s)),
        forall|i: int, q: int|
            0 <= i < m.seen_events.slots.len() && m.seen_events.slots[i] is Some && 0 <= q
                < m.seen_events.slots[i]->0.events.len() && m.event_clock
                <= m.seen_events.slots[i]->0.ltime + m.seen_events.slots.len() ==> p.merging(
                local,
                pp,
                false,
            ).reports.contains(
                Report::User(
                    UserEventMessage {
                        ltime: LamportTime(m.seen_events.slots[i]->0.ltime),
                        cc: false,
                        name: (#[trigger] m.seen_events.slots[i]->0.events[q]).name,
                        payload: m.seen_events.slots[i]->0.events[q].payload,
                    },
                ),
            ),
{
    the_told_state_is_complete(m, pp);
    let n = m.seen_events.slots.len();
    let now = p.drain_now;
    let a = p.hearing(pp);
    clocks_catch_up(p.event_clock, pp.event_ltime);
    let b = a.told_left(local, pp.left_members@, pp.status_ltimes@, now);
    intents_leave_the_rest(a, local, pp.left_members@, pp.status_ltimes@, now);
    let c = b.told_joined(pp.left_members@, pp.status_ltimes@, now);
    joins_leave_the_rest(b, pp.left_members@, pp.status_ltimes@, now);
    let events = pp.events@;
    filled_slots_are_apart(m.seen_events.slots, n);
    let kept = exchange::filled(m.seen_events.slots);
    assert(exchange::slots_of(events) == kept);
    assert(c.event_clock == m.event_clock);
    assert forall|j: int| 0 <= j < events.len() implies from_ring(
        m.event_clock,
        p.opts.max_user_event_size,
        #[trigger] events[j],
    ) by {
        let slot = EventSlot { ltime: events[j].ltime.0, events: events[j].events@ };
        let i = choose|i: int|
            0 <= i < m.seen_events.slots.len() && m.seen_events.slots[i] == Some(slot);
        assert(m.seen_events.slots[i] == Some(slot));
        assert forall|k: int| 0 <= k < events[j].events@.len() implies octets::name_len(
            (#[trigger] events[j].events@[k]).name@,
        ) + octets::octets(events[j].events@[k].payload).len() <= p.opts.max_user_event_size by {
            assert(m.seen_events.slots[i]->0.events[k] == events[j].events@[k]);
        }
    }
    assert forall|i: int, j: int| 0 <= i < j < events.len() implies (
    #[trigger] events[i]).ltime.0 as int % n as int != (#[trigger] events[j]).ltime.0 as int
        % n as int by {
        assert(exchange::slots_of(events)[i].ltime == kept[i].ltime);
        assert(exchange::slots_of(events)[j].ltime == kept[j].ltime);
    }
    slots_are_replayed(c, events, events.len() as int);
    assert(events.take(events.len() as int) =~= events);
    let after = p.merging(local, pp, false);
    assert(after == c.replaying(events));
    assert forall|i: int| 0 <= i < n implies (#[trigger] m.seen_events.slots[i] matches Some(s)
        ==> m.event_clock <= s.ltime + n && s.events.len() > 0 ==> after.seen_events.slots[i]
        == Some(s)) by {
        if let Some(s) = m.seen_events.slots[i] {
            let j = choose|j: int|
                0 <= j < events.len() && (#[trigger] events[j]).ltime.0 == s.ltime
                    && events[j].events@ == s.events;
            assert(events[j].ltime.0 as int % n as int == i);
            if m.event_clock <= s.ltime + n && s.events.len() > 0 {
                assert(after.seen_events.slots[i] == Some(
                    EventSlot { ltime: events[j].ltime.0, events: events[j].events@ },
                ));
                assert(s =~= EventSlot { ltime: events[j].ltime.0, events: events[j].events@ });
            }
        }
    }
    assert forall|i: int, q: int|
        0 <= i < n && m.seen_events.slots[i] is Some && 0 <= q
            < m.seen_events.slots[i]->0.events.len() && m.event_clock
            <= m.seen_events.slots[i]->0.ltime + n implies after.reports.contains(
        Report::User(
            UserEventMessage {
                ltime: LamportTime(m.seen_events.slots[i]->0.ltime),
                cc: false,
                name: (#[trigger] m.seen_events.slots[i]->0.events[q]).name,
                payload: m.seen_events.slots[i]->0.events[q].payload,
            },
        ),
    ) by {
        let s = m.seen_events.slots[i]->0;
        let j = choose|j: int|
            0 <= j < events.len() && (#[trigger] events[j]).ltime.0 == s.ltime && events[j].events@
                == s.events;
        let ev = events[j].events@[q];
        assert(after.reports.contains(Report::User(exchange::replayed(events[j].ltime, ev))));
        assert(events[j].ltime == LamportTime(s.ltime));
    }
}

/// To merge the state of a peer brings each clock up to the one of the peer, and each member
/// to what the peer tells of it: those that it lists as left count as leaving, the others as
/// joined. With the wish to ignore what was, events from before the clock of the peer are
/// ignored from then on.
pub proof fn a_merge_takes_over<I, A, G>(
    m: Machine<I, A, G>,
    local: I,
    pp: PushPullMessage<I>,
    suppress: bool,
    id: I,
)
    requires
        pp.ltime.0 < 0x8000_0000_0000_0000,
        pp.event_ltime.0 < 0x8000_0000_0000_0000,
        pp.query_ltime.0 < 0x8000_0000_0000_0000,
        m.states.dom().contains(id),
        !(id == local && m.state is Alive),
    ensures
        ({
            let after = m.merging(local, pp, suppress);
            let was = m.states[id];
            let ms = after.states[id];
            &&& after.clock >= m.clock && after.clock >= pp.ltime.0
            &&& after.event_clock >= m.event_clock && after.event_clock >= pp.event_ltime.0
            &&& pp.query_ltime.0 >= m.query_clock ==> after.query_clock == pp.query_ltime.0
            &&& pp.query_ltime.0 <= m.query_clock ==> after.query_clock == m.query_clock
            &&& after.states.dom().contains(id)
            &&& ms.member.node == was.member.node
            &&& ms.member.tags == was.member.tags
            &&& pp.left_members@.contains(id) ==> {
                &&& exchange::status_in(pp.status_ltimes@, id) is None ==> ms == was
                &&& exchange::status_in(pp.status_ltimes@, id) matches Some(t) ==> {
                    &&& t.0 + 1 < 0x8000_0000_0000_0000 && t.0 + 1 > was.status_time.0 ==> {
                        &&& ms.status_time.0 == t.0 + 1
                        &&& ms.member.status == status_after_leave(was.member.status)
                    }
                    &&& t.0 + 1 <= was.status_time.0 ==> ms == was
                }
            }
            &&& !pp.left_members@.contains(id) ==> {
                &&& forall|i: int|
                    0 <= i < pp.status_ltimes@.len() && (#[trigger] pp.status_ltimes@[i]).0 == id
                        && pp.status_ltimes@[i].1.0 < 0x8000_0000_0000_0000 ==> ms.status_time.0
                        >= pp.status_ltimes@[i].1.0
                &&& ms.status_time.0 > was.status_time.0 ==> {
                    &&& pp.status_ltimes@.contains((id, ms.status_time))
                    &&& was.member.status is Leaving ==> ms.member.status is Alive
                    &&& !(was.member.status is Leaving) ==> ms.member.status == was.member.status
                }
                &&& ms.status_time.0 <= was.status_time.0 ==> ms == was
            }
            &&& suppress ==> after.seen_events.min_time >= pp.event_ltime.0
            &&& !suppress || pp.event_ltime.0 <= m.seen_events.min_time
                ==> after.seen_events.min_time == m.seen_events.min_time
            &&& suppress && pp.event_ltime.0 > m.seen_events.min_time
                ==> after.seen_events.min_time == pp.event_ltime.0
            &&& after.seen_queries == m.seen_queries
            &&& after.pending == m.pending
            &&& after.received == m.received
            &&& after.state == m.state
            &&& after.opts == m.opts
        }),
{
    let now = m.drain_now;
    let left = pp.left_members@;
    let status = pp.status_ltimes@;
    let a = m.hearing(pp);
    heard_clocks_are_told_apart(m, pp);
    let b = a.told_left(local, left, status, now);
    a_peer_tells_who_left(a, local, left, status, now, id);
    intents_leave_the_rest(a, local, left, status, now);
    leave_clocks_rise(a, local, left, status, now);
    let c = b.told_joined(left, status, now);
    joins_leave_the_rest(b, left, status, now);
    join_clocks_rise(b, left, status, now);
    if left.contains(id) {
        joins_pass_over(b, left, status, now, id);
    } else {
        a_peer_tells_who_joined(b, left, status, now, id);
    }
    let d = if suppress {
        c.ignoring_before(pp.event_ltime)
    } else {
        c
    };
    replay_leaves_the_rest(d, pp.events@);
}

proof fn joins_pass_over<I, A, G>(
    m: Machine<I, A, G>,
    left: Seq<I>,
    status: Seq<(I, LamportTime)>,
    now: Instant,
    id: I,
)
    requires
        left.contains(id),
    ensures
        m.told_joined(left, status, now).states.dom().contains(id) == m.states.dom().contains(id),
        m.told_joined(left, status, now).states[id] == m.states[id],
    decreases status.len(),
{
    if status.len() > 0 {
        joins_pass_over(m, left, status.drop_last(), now, id);
    }
}

proof fn leave_clocks_rise<I, A, G>(
    m: Machine<I, A, G>,
    local: I,
    left: Seq<I>,
    status: Seq<(I, LamportTime)>,
    now: Instant,
)
    ensures
        m.told_left(local, left, status, now).clock >= m.clock,
    decreases left.len(),
{
    if left.len() > 0 {
        leave_clocks_rise(m, local, left.drop_last(), status, now);
    }
}

proof fn join_clocks_rise<I, A, G>(
    m: Machine<I, A, G>,
    left: Seq<I>,
    status: Seq<(I, LamportTime)>,
    now: Instant,
)
    ensures
        m.told_joined(left, status, now).clock >= m.clock,
    decreases status.len(),
{
    if status.len() > 0 {
        join_clocks_rise(m, left, status.drop_last(), now);
    }
}

proof fn slot_leaves_the_rest<I, A, G>(
    m: Machine<I, A, G>,
    ltime: LamportTime,
    events: Seq<UserEvent>,
)
    ensures
        events_only(m, m.replaying_slot(ltime, events)),
        m.replaying_slot(ltime, events).seen_events.min_time == m.seen_events.min_time,
    decreases events.len(),
{
    if events.len() > 0 {
        slot_leaves_the_rest(m, ltime, events.drop_last());
        let mid = m.replaying_slot(ltime, events.drop_last());
        let msg = exchange::replayed(ltime, events.last());
        a_user_event_is_taken(mid, msg);
        if mid.takes_user_event(msg) {
            changes::user_events_are_told(
                Machine {
                    event_clock: clock::witnessed(mid.event_clock, ltime.0),
                    seen_events: mid.seen_events.recorded(ltime.0, events.last()),
                    dirty: true,
                    ..mid
                },
                msg,
            );
        }
    }
}

proof fn replay_leaves_the_rest<I, A, G>(m: Machine<I, A, G>, slots: Seq<UserEvents>)
    ensures
        events_only(m, m.replaying(slots)),
        m.replaying(slots).seen_events.min_time == m.seen_events.min_time,
    decreases slots.len(),
{
    if slots.len() > 0 {
        replay_leaves_the_rest(m, slots.drop_last());
        slot_leaves_the_rest(
            m.replaying(slots.drop_last()),
            slots.last().ltime,
            slots.last().events@,
        );
    }
}

/// Of a node that is no member, what a peer knows of it is kept as an announced join, with the
/// latest time in range, unless there is no room; an intent that was kept and is later stays.
pub proof fn a_peer_tells_of_the_unknown<I, A, G>(
    m: Machine<I, A, G>,
    left: Seq<I>,
    status: Seq<(I, LamportTime)>,
    now: Instant,
    id: I,
)
    requires
        !m.states.dom().contains(id),
        !left.contains(id),
        m.intents.dom().finite(),
    ensures
        ({
            let after = m.told_joined(left, status, now);
            let was = m.intents[id];
            let kept = after.intents[id];
            let here = after.intents.dom().contains(id);
            &&& !after.states.dom().contains(id)
            &&& after.intents.dom().finite()
            &&& after.intents.dom().len() >= m.intents.dom().len()
            &&& m.intents.dom().contains(id) ==> here && kept.ltime.0 >= was.ltime.0
            &&& forall|i: int|
                0 <= i < status.len() && (#[trigger] status[i]).0 == id && status[i].1.0
                    < 0x8000_0000_0000_0000 ==> after.intents.dom().len() >= 4096 || (here
                    && kept.ltime.0 >= status[i].1.0)
            &&& here && (!m.intents.dom().contains(id) || kept != was) ==> {
                &&& kept.kind is Join
                &&& kept.wall_time == now
                &&& status.contains((id, kept.ltime))
            }
        }),
    decreases status.len(),
{
    if status.len() > 0 {
        let rest = status.drop_last();
        a_peer_tells_of_the_unknown(m, left, rest, now, id);
        let mid = m.told_joined(left, rest, now);
        let after = m.told_joined(left, status, now);
        let (x, t) = status.last();
        assert(after.intents == mid.intents || after.intents.dom() == mid.intents.dom().insert(x));
        last_or_before(status, (id, after.intents[id].ltime));
        assert forall|i: int|
            0 <= i < status.len() && (#[trigger] status[i]).0 == id && status[i].1.0
                < 0x8000_0000_0000_0000 implies after.intents.dom().len() >= 4096 || (
        after.intents.dom().contains(id) && after.intents[id].ltime.0 >= status[i].1.0) by {
            if i < rest.len() {
                assert(rest[i] == status[i]);
            }
        }
    }
}

/// Of a node that is no member and that a peer lists as left, an announced leave is kept one
/// past the time that the peer gives for it, where there is room and it is news.
pub proof fn a_peer_tells_of_leaves_of_the_unknown<I, A, G>(
    m: Machine<I, A, G>,
    local: I,
    left: Seq<I>,
    status: Seq<(I, LamportTime)>,
    now: Instant,
    id: I,
    t: LamportTime,
)
    requires
        !m.states.dom().contains(id),
        left.contains(id),
        exchange::status_in(status, id) == Some(t),
        t.0 + 1 < 0x8000_0000_0000_0000,
        m.intents.dom().finite(),
    ensures
        ({
            let after = m.told_left(local, left, status, now);
            let was = m.intents[id];
            let kept = after.intents[id];
            &&& !after.states.dom().contains(id)
            &&& after.intents.dom().finite()
            &&& m.intents.dom().contains(id) && was.ltime.0 > t.0 ==> after.intents.dom().contains(
                id,
            ) && kept == was
            &&& !m.intents.dom().contains(id) || was.ltime.0 <= t.0 ==> {
                ||| after.intents.dom().len() >= 4096 && !m.intents.dom().contains(id)
                ||| after.intents.dom().contains(id) && kept.kind is Leave && kept.ltime.0 == t.0
                    + 1 && kept.wall_time == now
            }
        }),
    decreases left.len(),
{
    let rest = left.drop_last();
    let mid = m.told_left(local, rest, status, now);
    last_or_before(left, id);
    leaves_only_add_intents(m, local, rest, status, now);
    leaves_only_add_intents(m, local, left, status, now);
    if rest.contains(id) {
        a_peer_tells_of_leaves_of_the_unknown(m, local, rest, status, now, id, t);
        assert(m.told_left(local, left, status, now).intents == mid.intents
            || m.told_left(local, left, status, now).intents.dom() == mid.intents.dom().insert(
            left.last(),
        ));
    } else {
        a_peer_tells_who_left(m, local, rest, status, now, id);
    }
}

proof fn leaves_only_add_intents<I, A, G>(
    m: Machine<I, A, G>,
    local: I,
    left: Seq<I>,
    status: Seq<(I, LamportTime)>,
    now: Instant,
)
    requires
        m.intents.dom().finite(),
    ensures
        m.told_left(local, left, status, now).intents.dom().finite(),
    decreases left.len(),
{
    if left.len() > 0 {
        leaves_only_add_intents(m, local, left.drop_last(), status, now);
    }
}

/// A user event that is fired carries the name and the payload that were handed in and says
/// whether it may be held back. Its time is what the event clock reads.
pub proof fn fired_events_say_what_was_handed_in<I, A, G>(
    m: Machine<I, A, G>,
    name: String,
    payload: Bytes,
    coalesce: bool,
)
    ensures
        m.stamping_event(name, payload, coalesce).name == name,
        m.stamping_event(name, payload, coalesce).payload == payload,
        m.stamping_event(name, payload, coalesce).cc == coalesce,
        m.stamping_event(name, payload, coalesce).ltime.0 == m.event_clock,
{
}

} // verus!
