//! What the machine remembers stays within bounds, in order and behind its clocks, whatever
//! it is told.

use crate::action::Coordinator;
use crate::buffers;
use crate::buffers::{EventRing, QueryRing};
use crate::clock;
use crate::clock::LamportTime;
use crate::coalesce;
use crate::coalesce::MAX_COALESCED_MEMBERS;
use crate::endpoint::ingress::{InnerEvent, Packet};
use crate::endpoint::queries::Request;
use crate::endpoint::{exchange, membership, queries, user_events};
use crate::endpoint::{Machine, ReconnectDelegate};
use crate::event::MemberEventKind;
use crate::id::Id;
use crate::members::{Member, MAX_RECENT_INTENTS};
use crate::octets;
use crate::options::Options;
use crate::pattern;
use crate::query::{QueryOrigin, MAX_RECEIVED_QUERIES};
use crate::time::Instant;
use crate::typed::{
    AnyMessage, Node, PushPullMessage, QueryMessage, ReplayResult, UserEvent, UserEventMessage,
    UserEvents,
};
use bytes::Bytes;
use rand::rngs::SmallRng;
use vstd::prelude::*;

verus! {

/// Whether what a ring of user events holds, and its floor, lie behind a clock.
pub open spec fn events_behind(ring: EventRing, clock: u64) -> bool {
    &&& ring.slots.len() > 0
    &&& ring.min_time <= clock
    &&& forall|i: int|
        0 <= i < ring.slots.len() ==> ((#[trigger] ring.slots[i]) matches Some(s) ==> s.ltime
            < clock)
}

/// Whether what a ring of queries holds, and its floor, lie behind a clock.
pub open spec fn queries_behind(ring: QueryRing, clock: u64) -> bool {
    &&& ring.slots.len() > 0
    &&& ring.min_time <= clock
    &&& forall|i: int|
        0 <= i < ring.slots.len() ==> ((#[trigger] ring.slots[i]) matches Some(s) ==> s.ltime
            < clock)
}

impl<I, A, G> Machine<I, A, G> {
    /// Whether what the machine remembers is within bounds, in order and behind its clocks.
    pub open spec fn sound(self) -> bool {
        &&& self.seen_events.orderly()
        &&& self.seen_queries.orderly()
        &&& events_behind(self.seen_events, self.event_clock)
        &&& queries_behind(self.seen_queries, self.query_clock)
        &&& self.intents.dom().finite()
        &&& self.intents.dom().len() <= MAX_RECENT_INTENTS
        &&& self.batch matches Some(b) ==> b.changes.len() <= MAX_COALESCED_MEMBERS
        &&& self.backlog matches Some(b) ==> b.events.len() <= b.limit
    }

    /// Whether two machines remember the same.
    pub open spec fn same_memory(self, other: Self) -> bool {
        &&& self.seen_events == other.seen_events
        &&& self.seen_queries == other.seen_queries
        &&& self.event_clock == other.event_clock
        &&& self.query_clock == other.query_clock
        &&& self.intents == other.intents
        &&& self.batch == other.batch
        &&& self.backlog == other.backlog
    }
}

/// A machine that has seen nothing is sound.
pub proof fn initial_is_sound<I, A, G>(
    opts: Options,
    rng: SmallRng,
    user_drop: u64,
    member_drop: u64,
)
    ensures
        Machine::<I, A, G>::initial(opts, rng, user_drop, member_drop).sound(),
{
}

/// Draws leave the machine sound.
pub proof fn draws_keep_sound<I, A, G>(m: Machine<I, A, G>, rng: SmallRng)
    requires
        m.sound(),
    ensures
        m.drawing(rng).sound(),
{
}

/// A report about a member leaves the machine sound.
pub proof fn member_report_keeps_sound<I, A, G>(
    m: Machine<I, A, G>,
    kind: MemberEventKind,
    member: Member<I, A>,
)
    requires
        m.sound(),
    ensures
        m.emitting_member(kind, member).sound(),
{
}

proof fn survivors_are_fewer(events: Seq<UserEventMessage>, msg: UserEventMessage)
    ensures
        coalesce::survivors(events, msg).len() <= events.len(),
    decreases events.len(),
{
    if events.len() > 0 {
        survivors_are_fewer(events.drop_last(), msg);
    }
}

/// A report about a user event leaves the machine sound.
pub proof fn user_report_keeps_sound<I, A, G>(m: Machine<I, A, G>, msg: UserEventMessage)
    requires
        m.sound(),
    ensures
        m.emitting_user(msg).sound(),
{
    if let Some(b) = m.backlog {
        survivors_are_fewer(b.events, msg);
        survivors_are_fewer(Seq::empty(), msg);
    }
}

/// A join intent leaves the machine sound.
pub proof fn join_intent_keeps_sound<I, A, G>(
    m: Machine<I, A, G>,
    ltime: LamportTime,
    id: I,
    now: Instant,
)
    requires
        m.sound(),
    ensures
        m.after_join_intent(ltime, id, now).sound(),
{
    let after = m.after_join_intent(ltime, id, now);
    assert(after.intents.dom() =~= m.intents.dom() || after.intents.dom()
        =~= m.intents.dom().insert(id));
}

/// To announce a join leaves the machine sound.
pub proof fn join_announcement_keeps_sound<I, A, G>(m: Machine<I, A, G>, local: I, ltime: LamportTime)
    requires
        m.sound(),
    ensures
        m.announcing_join(local, ltime).sound(),
{
    join_intent_keeps_sound(m.witnessing(ltime), ltime, local, m.drain_now);
}

/// To forget a node leaves the machine sound.
pub proof fn prune_keeps_sound<I, A, G>(m: Machine<I, A, G>, id: I)
    requires
        m.sound(),
    ensures
        m.pruning(id).sound(),
{
    let after = m.pruning(id);
    assert(after.intents.dom() =~= m.intents.dom().remove(id));
}

/// A leave intent leaves the machine sound.
pub proof fn leave_intent_keeps_sound<I, A, G>(
    m: Machine<I, A, G>,
    local: I,
    ltime: LamportTime,
    id: I,
    prune: bool,
    now: Instant,
)
    requires
        m.sound(),
    ensures
        m.after_leave_intent(local, ltime, id, prune, now).sound(),
{
    let seen = m.witnessing(ltime);
    if m.knows(id) && m.is_news(ltime, id) && m.refutes(local, id) {
        join_announcement_keeps_sound(seen, local, LamportTime(seen.clock));
    } else if m.knows(id) {
        let mid = m.after_leave_intent(local, ltime, id, false, now);
        assert(mid.sound());
        prune_keeps_sound(mid, id);
    } else {
        let after = m.after_leave_intent(local, ltime, id, prune, now);
        assert(after.intents.dom() =~= m.intents.dom() || after.intents.dom()
            =~= m.intents.dom().insert(id));
    }
}

/// A user event leaves the machine sound.
pub proof fn user_event_keeps_sound<I, A, G>(m: Machine<I, A, G>, msg: UserEventMessage)
    requires
        m.sound(),
    ensures
        m.after_user_event(msg).sound(),
{
    let ltime = msg.ltime.0;
    let clock = clock::witnessed(m.event_clock, ltime);
    assert(events_behind(m.seen_events, clock));
    if m.takes_user_event(msg) {
        let ev = user_events::remembered(msg);
        buffers::event_ring_stays_orderly(m.seen_events, clock, ltime, ev);
        let ring = m.seen_events.recorded(ltime, ev);
        assert(events_behind(ring, clock));
        let mid = Machine { event_clock: clock, seen_events: ring, dirty: true, ..m };
        user_report_keeps_sound(mid, msg);
    }
}

proof fn told_left_keeps_sound<I, A, G>(
    m: Machine<I, A, G>,
    local: I,
    left: Seq<I>,
    status: Seq<(I, LamportTime)>,
    now: Instant,
)
    requires
        m.sound(),
    ensures
        m.told_left(local, left, status, now).sound(),
        m.told_left(local, left, status, now).event_clock == m.event_clock,
    decreases left.len(),
{
    if left.len() > 0 {
        told_left_keeps_sound(m, local, left.drop_last(), status, now);
        let mid = m.told_left(local, left.drop_last(), status, now);
        if let Some(t) = exchange::status_in(status, left.last()) {
            leave_intent_keeps_sound(
                mid,
                local,
                LamportTime(clock::ticked(t.0)),
                left.last(),
                false,
                now,
            );
        }
    }
}

proof fn told_joined_keeps_sound<I, A, G>(
    m: Machine<I, A, G>,
    left: Seq<I>,
    status: Seq<(I, LamportTime)>,
    now: Instant,
)
    requires
        m.sound(),
    ensures
        m.told_joined(left, status, now).sound(),
        m.told_joined(left, status, now).event_clock == m.event_clock,
    decreases status.len(),
{
    if status.len() > 0 {
        told_joined_keeps_sound(m, left, status.drop_last(), now);
        let mid = m.told_joined(left, status.drop_last(), now);
        join_intent_keeps_sound(mid, status.last().1, status.last().0, now);
    }
}

proof fn replaying_slot_keeps_sound<I, A, G>(
    m: Machine<I, A, G>,
    ltime: LamportTime,
    events: Seq<UserEvent>,
)
    requires
        m.sound(),
    ensures
        m.replaying_slot(ltime, events).sound(),
    decreases events.len(),
{
    if events.len() > 0 {
        replaying_slot_keeps_sound(m, ltime, events.drop_last());
        user_event_keeps_sound(
            m.replaying_slot(ltime, events.drop_last()),
            exchange::replayed(ltime, events.last()),
        );
    }
}

proof fn replaying_keeps_sound<I, A, G>(m: Machine<I, A, G>, slots: Seq<UserEvents>)
    requires
        m.sound(),
    ensures
        m.replaying(slots).sound(),
    decreases slots.len(),
{
    if slots.len() > 0 {
        replaying_keeps_sound(m, slots.drop_last());
        replaying_slot_keeps_sound(
            m.replaying(slots.drop_last()),
            slots.last().ltime,
            slots.last().events@,
        );
    }
}

/// To merge the state of a peer leaves the machine sound.
pub proof fn merge_keeps_sound<I, A, G>(
    m: Machine<I, A, G>,
    local: I,
    pp: PushPullMessage<I>,
    suppress: bool,
)
    requires
        m.sound(),
    ensures
        m.merging(local, pp, suppress).sound(),
{
    if Machine::<I, A, G>::plausible_peer(pp) {
        let now = m.drain_now;
        let a = m.hearing(pp);
        assert(events_behind(a.seen_events, a.event_clock));
        assert(queries_behind(a.seen_queries, a.query_clock));
        assert(a.event_clock >= pp.event_ltime.0);
        let b = a.told_left(local, pp.left_members@, pp.status_ltimes@, now);
        told_left_keeps_sound(a, local, pp.left_members@, pp.status_ltimes@, now);
        let c = b.told_joined(pp.left_members@, pp.status_ltimes@, now);
        told_joined_keeps_sound(b, pp.left_members@, pp.status_ltimes@, now);
        let d = if suppress {
            c.ignoring_before(pp.event_ltime)
        } else {
            c
        };
        assert(d.seen_events.slots == c.seen_events.slots);
        assert(d.sound());
        replaying_keeps_sound(d, pp.events@);
    }
}

/// A query leaves the machine sound.
pub proof fn query_keeps_sound<I: Id, A, G>(
    m: Machine<I, A, G>,
    local: Node<I, A>,
    msg: QueryMessage<I, A>,
    origin: QueryOrigin,
    request: Request<I>,
    accepted: bool,
    targeted: bool,
    ack_frame: Option<Bytes>,
    draws: Seq<usize>,
)
    requires
        m.sound(),
    ensures
        m.after_query(
            local,
            msg,
            origin,
            request,
            accepted,
            targeted,
            ack_frame,
            draws,
        ).sound(),
{
    let ltime = msg.ltime.0;
    let clock = clock::witnessed(m.query_clock, ltime);
    assert(queries_behind(m.seen_queries, clock));
    if m.understands(msg, request, accepted) && m.is_new_query(msg) {
        buffers::query_ring_stays_orderly(m.seen_queries, clock, ltime, msg.id);
        let ring = m.seen_queries.recorded(ltime, msg.id);
        assert(queries_behind(ring, clock));
    }
}

/// A packet leaves the machine sound.
pub proof fn packet_keeps_sound<I: Id, A, G>(
    m: Machine<I, A, G>,
    c: Coordinator<I, A>,
    packet: Packet<I, A>,
    now: Instant,
    draws: Seq<usize>,
)
    requires
        m.sound(),
    ensures
        m.after_packet(c, packet, now, draws).sound(),
{
    reveal(Machine::after_packet);
    let after = m.after_packet(c, packet, now, draws);
    if let Some((msg, consumed)) = packet.decoded {
        match msg {
            AnyMessage::UserEvent(ue) => {
                user_event_keeps_sound(m, ue);
            },
            AnyMessage::Join(join) => {
                join_intent_keeps_sound(m, join.ltime, join.id, now);
            },
            AnyMessage::Leave(leave) => {
                leave_intent_keeps_sound(m, c.local.id, leave.ltime, leave.id, leave.prune, now);
            },
            AnyMessage::Query(q) => {
                query_keeps_sound(
                    m,
                    c.local,
                    q,
                    QueryOrigin::Inbound,
                    queries::request_of(q.name@, octets::octets(q.payload), packet.nested),
                    pattern::all_compile(q.filters@),
                    m.targeted(c.local.id, q.filters@),
                    packet.ack_frame,
                    draws,
                );
            },
            _ => {
                assert(after.same_memory(m));
            },
        }
    }
}

/// An event of the membership layer leaves the machine sound.
pub proof fn inner_event_keeps_sound<I: Id, A, G>(
    m: Machine<I, A, G>,
    c: Coordinator<I, A>,
    ev: InnerEvent<I, A>,
    draws: Seq<usize>,
)
    requires
        m.sound(),
    ensures
        m.after_inner_event(c, ev, draws).sound(),
{
    match ev {
        InnerEvent::UserPacket(packet) => {
            packet_keeps_sound(m, c, packet, m.drain_now, draws);
        },
        InnerEvent::RemoteStateReceived { stream, is_join, decoded, len } => {
            let forgot = m.consuming(stream);
            assert(forgot.same_memory(m));
            if let Some((AnyMessage::PushPull(pp), consumed)) = decoded {
                merge_keeps_sound(m, c.local.id, pp, false);
                merge_keeps_sound(forgot, c.local.id, pp, m.ignored.contains(stream));
            }
        },
        _ => {},
    }
}

proof fn closing_keeps_sound<I, A, G>(m: Machine<I, A, G>, i: int, now: Instant)
    requires
        m.sound(),
        0 <= i,
    ensures
        m.closing_due(i, now).sound(),
    decreases m.pending.len() - i,
{
    if i < m.pending.len() {
        if now >= m.pending[i].deadline {
            let next = Machine {
                pending: membership::swap_removed(m.pending, i),
                ..m
            }.closing(m.pending[i]);
            if !next.is_down() {
                closing_keeps_sound(next, i, now);
            }
        } else {
            closing_keeps_sound(m, i + 1, now);
        }
    }
}

/// A redial and the end of a tick leave the machine sound.
pub proof fn deadlines_keep_sound<I, A, G>(m: Machine<I, A, G>, now: Instant, dial: bool, i: int)
    requires
        m.sound(),
    ensures
        m.after_redial(now, dial, i).sound(),
        m.after_deadlines(now).sound(),
{
    assert(m.after_redial(now, dial, i).same_memory(m));
    if !m.is_down() {
        let b = m.after_queue_check(now);
        assert(b.same_memory(m));
        closing_keeps_sound(b, 0, now);
    }
}

proof fn reaping_failed_keeps_sound<I, A, G: ReconnectDelegate<I, A>>(
    m: Machine<I, A, G>,
    i: int,
    now: Instant,
)
    requires
        m.sound(),
        0 <= i,
    ensures
        m.reaping_failed(i, now).sound(),
    decreases m.failed.len() - i,
{
    if i < m.failed.len() {
        if m.expired(m.failed[i], m.opts.reconnect_timeout, now) {
            let next = Machine {
                failed: membership::swap_removed(m.failed, i),
                ..m.erasing(m.failed[i])
            };
            reaping_failed_keeps_sound(next, i, now);
        } else {
            reaping_failed_keeps_sound(m, i + 1, now);
        }
    }
}

proof fn reaping_left_keeps_sound<I, A, G: ReconnectDelegate<I, A>>(
    m: Machine<I, A, G>,
    i: int,
    now: Instant,
)
    requires
        m.sound(),
        0 <= i,
    ensures
        m.reaping_left(i, now).sound(),
    decreases m.left.len() - i,
{
    if i < m.left.len() {
        if m.expired(m.left[i], m.opts.tombstone_timeout, now) {
            let next = Machine {
                left: membership::swap_removed(m.left, i),
                ..m.erasing(m.left[i])
            };
            reaping_left_keeps_sound(next, i, now);
        } else {
            reaping_left_keeps_sound(m, i + 1, now);
        }
    }
}

/// The reaper leaves the machine sound.
pub proof fn reap_keeps_sound<I, A, G: ReconnectDelegate<I, A>>(m: Machine<I, A, G>, now: Instant)
    requires
        m.sound(),
    ensures
        m.reaped(now).sound(),
        m.after_reap(now).sound(),
{
    reaped_is_sound(m, now);
    reaped_is_sound(m.at(now), now);
}

proof fn reaped_is_sound<I, A, G: ReconnectDelegate<I, A>>(m: Machine<I, A, G>, now: Instant)
    requires
        m.sound(),
    ensures
        m.reaped(now).sound(),
{
    reaping_failed_keeps_sound(m, 0, now);
    let half = m.reaping_failed(0, now);
    reaping_left_keeps_sound(half, 0, now);
    let done = half.reaping_left(0, now);
    let kept = m.reaped(now).intents.dom();
    assert(kept.subset_of(done.intents.dom()));
    vstd::set_lib::lemma_len_subset(kept, done.intents.dom());
}

/// To leave, to make another leave and to start again leave the machine sound.
pub proof fn commands_keep_sound<I, A, G>(
    m: Machine<I, A, G>,
    local: I,
    id: I,
    prune: bool,
    now: Instant,
    replay: ReplayResult<I, A>,
)
    requires
        m.sound(),
    ensures
        m.leaving(local, now).sound(),
        m.force_leaving(local, id, prune, now).sound(),
        m.restored(local, replay).sound(),
{
    let t = m.at(now);
    let a = t.set_to_leave();
    leave_intent_keeps_sound(a, local, LamportTime(a.clock), local, false, now);
    let s = t.stamped();
    leave_intent_keeps_sound(s, local, LamportTime(s.clock), id, prune, now);
    let r = m.restored(local, replay);
    assert(r.seen_events.slots == m.seen_events.slots);
    assert(r.seen_queries.slots == m.seen_queries.slots);
}

/// Queries of peers never fill the list of those that wait for a response beyond its
/// bound.
pub proof fn peers_cannot_flood<I: Id, A, G>(
    m: Machine<I, A, G>,
    local: Node<I, A>,
    msg: QueryMessage<I, A>,
    request: Request<I>,
    accepted: bool,
    targeted: bool,
    ack_frame: Option<Bytes>,
    draws: Seq<usize>,
)
    requires
        m.received.dom().finite(),
        m.received.dom().len() <= MAX_RECEIVED_QUERIES,
    ensures
        m.after_query(
            local,
            msg,
            QueryOrigin::Inbound,
            request,
            accepted,
            targeted,
            ack_frame,
            draws,
        ).received.dom().finite(),
        m.after_query(
            local,
            msg,
            QueryOrigin::Inbound,
            request,
            accepted,
            targeted,
            ack_frame,
            draws,
        ).received.dom().len() <= MAX_RECEIVED_QUERIES,
{
    let live = queries::live_only(m.received, m.drain_now).dom();
    assert(live.subset_of(m.received.dom()));
    vstd::set_lib::lemma_len_subset(live, m.received.dom());
    let after = m.after_query(
        local,
        msg,
        QueryOrigin::Inbound,
        request,
        accepted,
        targeted,
        ack_frame,
        draws,
    );
    let q = queries::query_id_of(msg);
    assert(after.received.dom() =~= m.received.dom() || after.received.dom() =~= live
        || after.received.dom() =~= live.insert(q) || after.received.dom() =~= live.insert(
        q,
    ).remove(q));
}

/// A user event that this node fires is always taken by the node itself: it is stamped
/// past everything that was seen.
pub proof fn own_events_are_taken<I, A, G>(m: Machine<I, A, G>, msg: UserEventMessage)
    requires
        m.sound(),
        msg.ltime.0 == m.event_clock,
        clock::acceptable(m.event_clock),
        user_events::event_size(msg.name@, msg.payload) <= m.opts.max_user_event_size,
    ensures
        m.takes_user_event(msg),
        (Machine {
            event_clock: clock::ticked(m.event_clock),
            ..m
        }).dirtied().takes_user_event(msg),
{
    let ring = m.seen_events;
    let t = m.event_clock;
    let i = t as int % ring.slots.len() as int;
    assert(0 <= i < ring.slots.len());
    assert(ring.events_at(t).len() == 0);
    assert(!buffers::has_event(ring.events_at(t), user_events::remembered(msg)));
}

/// A query that this node asks is always taken by the node itself, however many queries
/// of peers wait.
pub proof fn own_queries_are_taken<I: Id, A, G>(
    m: Machine<I, A, G>,
    msg: QueryMessage<I, A>,
    request: Request<I>,
)
    requires
        m.sound(),
        msg.ltime.0 == m.query_clock,
        clock::acceptable(m.query_clock),
        !(request is Malformed),
    ensures
        m.is_new_query(msg),
        m.has_room(QueryOrigin::Local),
        m.understands(msg, request, true),
        !msg.flags.no_broadcast ==> m.passes_query_on(msg, QueryOrigin::Local, request, true),
{
    let ring = m.seen_queries;
    let t = m.query_clock;
    let i = t as int % ring.slots.len() as int;
    assert(0 <= i < ring.slots.len());
    assert(ring.ids_at(t).len() == 0);
}

} // verus!
