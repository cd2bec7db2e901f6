//! Whatever the machine is told, it goes one way only: clocks do not run backwards,
//! floors do not sink, reports and actions are added behind those that wait, and a node
//! that left or was shut down does not come back.

use crate::action::{Action, Coordinator, Frame};
use crate::clock;
use crate::clock::LamportTime;
use crate::endpoint::ingress::{InnerEvent, Packet};
use crate::endpoint::queries::Request;
use crate::endpoint::{commands, exchange, membership, queries, tick, user_events};
use crate::endpoint::{Machine, ReconnectDelegate};
use crate::event::{MemberEventKind, Report, StreamId};
use crate::id::Id;
use crate::members::{Member, SerfState};
use crate::octets;
use crate::pattern;
use crate::query::{QueryOrigin, ReceivedQuery};
use crate::time::Instant;
use crate::typed::{
    AnyMessage, MessageType, Node, PushPullMessage, QueryMessage, QueryResponseMessage,
    ReplayResult, Tags, UserEvent, UserEventMessage, UserEvents,
};
use bytes::Bytes;
use rand::rngs::SmallRng;
use std::sync::Arc;
use vstd::prelude::*;

verus! {

/// How far a node is on its way out.
pub open spec fn way_out(state: SerfState) -> int {
    match state {
        SerfState::Alive => 0,
        SerfState::Leaving => 1,
        SerfState::Left => 2,
        SerfState::Shutdown => 3,
    }
}

/// Whether a list begins with another.
pub open spec fn begins_with<T>(list: Seq<T>, head: Seq<T>) -> bool {
    head.len() <= list.len() && list.take(head.len() as int) == head
}

impl<I, A, G> Machine<I, A, G> {
    /// Whether a machine can become another.
    pub open spec fn leads_to(self, next: Self) -> bool {
        &&& next.opts == self.opts
        &&& next.clock >= self.clock
        &&& next.event_clock >= self.event_clock
        &&& next.query_clock >= self.query_clock
        &&& next.seen_events.min_time >= self.seen_events.min_time
        &&& next.seen_queries.min_time >= self.seen_queries.min_time
        &&& next.seen_events.slots.len() == self.seen_events.slots.len()
        &&& next.seen_queries.slots.len() == self.seen_queries.slots.len()
        &&& next.user_drop >= self.user_drop
        &&& next.member_drop >= self.member_drop
        &&& next.coalesce_now >= self.coalesce_now
        &&& begins_with(next.reports, self.reports)
        &&& begins_with(next.actions, self.actions)
        &&& way_out(next.state) >= way_out(self.state)
    }
}

/// What leads on from where something led leads there too.
pub proof fn progress_is_transitive<I, A, G>(
    a: Machine<I, A, G>,
    b: Machine<I, A, G>,
    c: Machine<I, A, G>,
)
    requires
        a.leads_to(b),
        b.leads_to(c),
    ensures
        a.leads_to(c),
{
    assert(c.reports.take(a.reports.len() as int) =~= b.reports.take(a.reports.len() as int)) by {
        assert(forall|i: int|
            0 <= i < a.reports.len() ==> c.reports[i] == #[trigger] c.reports.take(
                b.reports.len() as int,
            )[i]);
    }
    assert(c.actions.take(a.actions.len() as int) =~= b.actions.take(a.actions.len() as int)) by {
        assert(forall|i: int|
            0 <= i < a.actions.len() ==> c.actions[i] == #[trigger] c.actions.take(
                b.actions.len() as int,
            )[i]);
    }
}

/// To stay where it is is progress.
pub proof fn progress_is_reflexive<I, A, G>(m: Machine<I, A, G>)
    ensures
        m.leads_to(m),
{
    assert(m.reports.take(m.reports.len() as int) =~= m.reports);
    assert(m.actions.take(m.actions.len() as int) =~= m.actions);
}

/// A draw is progress.
pub proof fn draw_is_progress<I, A, G>(m: Machine<I, A, G>, rng: SmallRng)
    ensures
        m.leads_to(m.drawing(rng)),
{
    progress_is_reflexive(m);
}

/// A report about a member is progress, held back or not.
pub proof fn member_report_is_progress<I, A, G>(
    m: Machine<I, A, G>,
    kind: MemberEventKind,
    member: Member<I, A>,
)
    ensures
        m.leads_to(m.emitting_member(kind, member)),
{
    let after = m.emitting_member(kind, member);
    progress_is_reflexive(m);
    assert(begins_with(after.reports, m.reports)) by {
        assert(after.reports.take(m.reports.len() as int) =~= m.reports);
    }
}

/// A report about a user event is progress, held back or not.
pub proof fn user_report_is_progress<I, A, G>(m: Machine<I, A, G>, msg: UserEventMessage)
    ensures
        m.leads_to(m.emitting_user(msg)),
{
    let after = m.emitting_user(msg);
    progress_is_reflexive(m);
    assert(begins_with(after.reports, m.reports)) by {
        assert(after.reports.take(m.reports.len() as int) =~= m.reports);
    }
}

proof fn same_queues_are_progress<I, A, G>(m: Machine<I, A, G>, next: Machine<I, A, G>)
    requires
        next.opts == m.opts,
        next.clock >= m.clock,
        next.event_clock >= m.event_clock,
        next.query_clock >= m.query_clock,
        next.seen_events.min_time >= m.seen_events.min_time,
        next.seen_queries.min_time >= m.seen_queries.min_time,
        next.seen_events.slots.len() == m.seen_events.slots.len(),
        next.seen_queries.slots.len() == m.seen_queries.slots.len(),
        next.user_drop >= m.user_drop,
        next.member_drop >= m.member_drop,
        next.coalesce_now >= m.coalesce_now,
        next.reports == m.reports,
        next.actions == m.actions,
        way_out(next.state) >= way_out(m.state),
    ensures
        m.leads_to(next),
{
    progress_is_reflexive(m);
}

/// A node that joined is progress.
pub proof fn join_is_progress<I, A, G>(m: Machine<I, A, G>, node: Node<I, A>, tags: Arc<Tags>)
    ensures
        m.leads_to(m.joined(node, tags)),
{
    let ms = m.joined_state(node, tags);
    let mid = Machine {
        states: m.states.insert(node.id, ms),
        failed: m.joined(node, tags).failed,
        left: m.joined(node, tags).left,
        dirty: true,
        ..m
    };
    same_queues_are_progress(m, mid);
    member_report_is_progress(mid, MemberEventKind::Join, ms.member);
    progress_is_transitive(m, mid, m.joined(node, tags));
}

/// A node that is gone is progress.
pub proof fn departure_is_progress<I, A, G>(m: Machine<I, A, G>, id: I, now: Instant)
    ensures
        m.leads_to(m.departing(id, now)),
{
    let after = m.departing(id, now);
    progress_is_reflexive(m);
    assert(begins_with(after.reports, m.reports)) by {
        assert(after.reports.take(m.reports.len() as int) =~= m.reports);
    }
}

/// A node that changed is progress.
pub proof fn update_is_progress<I, A, G>(m: Machine<I, A, G>, node: Node<I, A>, tags: Arc<Tags>)
    ensures
        m.leads_to(m.updating(node, tags)),
{
    let after = m.updating(node, tags);
    progress_is_reflexive(m);
    assert(begins_with(after.reports, m.reports)) by {
        assert(after.reports.take(m.reports.len() as int) =~= m.reports);
    }
}

/// A join intent is progress.
pub proof fn join_intent_is_progress<I, A, G>(
    m: Machine<I, A, G>,
    ltime: LamportTime,
    id: I,
    now: Instant,
)
    ensures
        m.leads_to(m.after_join_intent(ltime, id, now)),
{
    same_queues_are_progress(m, m.after_join_intent(ltime, id, now));
}

/// To announce a join is progress.
pub proof fn join_announcement_is_progress<I, A, G>(m: Machine<I, A, G>, local: I, ltime: LamportTime)
    ensures
        m.leads_to(m.announcing_join(local, ltime)),
{
    let seen = m.witnessing(ltime);
    let mid = seen.after_join_intent(ltime, local, m.drain_now);
    same_queues_are_progress(m, mid);
    let after = m.announcing_join(local, ltime);
    assert(begins_with(after.actions, mid.actions)) by {
        assert(after.actions.take(mid.actions.len() as int) =~= mid.actions);
    }
    progress_is_reflexive(mid);
    progress_is_transitive(m, mid, after);
}

/// To forget a node is progress.
pub proof fn prune_is_progress<I, A, G>(m: Machine<I, A, G>, id: I)
    ensures
        m.leads_to(m.pruning(id)),
{
    let after = m.pruning(id);
    progress_is_reflexive(m);
    assert(begins_with(after.reports, m.reports)) by {
        assert(after.reports.take(m.reports.len() as int) =~= m.reports);
    }
    assert(begins_with(after.actions, m.actions)) by {
        assert(after.actions.take(m.actions.len() as int) =~= m.actions);
    }
}

/// A leave intent is progress.
pub proof fn leave_intent_is_progress<I, A, G>(
    m: Machine<I, A, G>,
    local: I,
    ltime: LamportTime,
    id: I,
    prune: bool,
    now: Instant,
)
    ensures
        m.leads_to(m.after_leave_intent(local, ltime, id, prune, now)),
{
    let after = m.after_leave_intent(local, ltime, id, prune, now);
    let seen = m.witnessing(ltime);
    same_queues_are_progress(m, seen);
    if m.knows(id) && m.is_news(ltime, id) && m.refutes(local, id) {
        join_announcement_is_progress(seen, local, LamportTime(seen.clock));
        progress_is_transitive(m, seen, seen.announcing_join(local, LamportTime(seen.clock)));
        progress_is_reflexive(m);
    } else {
        let mid = m.after_leave_intent(local, ltime, id, false, now);
        progress_is_reflexive(m);
        assert(begins_with(mid.reports, m.reports)) by {
            assert(mid.reports.take(m.reports.len() as int) =~= m.reports);
        }
        assert(m.leads_to(mid));
        prune_is_progress(mid, id);
        progress_is_transitive(m, mid, mid.pruning(id));
    }
}

/// A user event is progress.
pub proof fn user_event_is_progress<I, A, G>(m: Machine<I, A, G>, msg: UserEventMessage)
    ensures
        m.leads_to(m.after_user_event(msg)),
{
    progress_is_reflexive(m);
    if m.takes_user_event(msg) {
        let mid = Machine {
            event_clock: clock::witnessed(m.event_clock, msg.ltime.0),
            seen_events: m.seen_events.recorded(
                msg.ltime.0,
                user_events::remembered(msg),
            ),
            dirty: true,
            ..m
        };
        same_queues_are_progress(m, mid);
        user_report_is_progress(mid, msg);
        progress_is_transitive(m, mid, mid.emitting_user(msg));
    } else {
        same_queues_are_progress(m, m.after_user_event(msg));
    }
}

proof fn told_left_is_progress<I, A, G>(
    m: Machine<I, A, G>,
    local: I,
    left: Seq<I>,
    status: Seq<(I, LamportTime)>,
    now: Instant,
)
    ensures
        m.leads_to(m.told_left(local, left, status, now)),
    decreases left.len(),
{
    progress_is_reflexive(m);
    if left.len() > 0 {
        told_left_is_progress(m, local, left.drop_last(), status, now);
        let mid = m.told_left(local, left.drop_last(), status, now);
        if let Some(t) = exchange::status_in(status, left.last()) {
            let ltime = LamportTime(clock::ticked(t.0));
            leave_intent_is_progress(mid, local, ltime, left.last(), false, now);
            progress_is_transitive(
                m,
                mid,
                mid.after_leave_intent(local, ltime, left.last(), false, now),
            );
        }
    }
}

proof fn told_joined_is_progress<I, A, G>(
    m: Machine<I, A, G>,
    left: Seq<I>,
    status: Seq<(I, LamportTime)>,
    now: Instant,
)
    ensures
        m.leads_to(m.told_joined(left, status, now)),
    decreases status.len(),
{
    progress_is_reflexive(m);
    if status.len() > 0 {
        told_joined_is_progress(m, left, status.drop_last(), now);
        let mid = m.told_joined(left, status.drop_last(), now);
        join_intent_is_progress(mid, status.last().1, status.last().0, now);
        progress_is_transitive(
            m,
            mid,
            mid.after_join_intent(status.last().1, status.last().0, now),
        );
    }
}

proof fn replaying_slot_is_progress<I, A, G>(
    m: Machine<I, A, G>,
    ltime: LamportTime,
    events: Seq<UserEvent>,
)
    ensures
        m.leads_to(m.replaying_slot(ltime, events)),
    decreases events.len(),
{
    progress_is_reflexive(m);
    if events.len() > 0 {
        replaying_slot_is_progress(m, ltime, events.drop_last());
        let mid = m.replaying_slot(ltime, events.drop_last());
        let msg = exchange::replayed(ltime, events.last());
        user_event_is_progress(mid, msg);
        progress_is_transitive(m, mid, mid.after_user_event(msg));
    }
}

proof fn replaying_is_progress<I, A, G>(m: Machine<I, A, G>, slots: Seq<UserEvents>)
    ensures
        m.leads_to(m.replaying(slots)),
    decreases slots.len(),
{
    progress_is_reflexive(m);
    if slots.len() > 0 {
        replaying_is_progress(m, slots.drop_last());
        let mid = m.replaying(slots.drop_last());
        replaying_slot_is_progress(mid, slots.last().ltime, slots.last().events@);
        progress_is_transitive(
            m,
            mid,
            mid.replaying_slot(slots.last().ltime, slots.last().events@),
        );
    }
}

/// To merge the state of a peer is progress.
pub proof fn merge_is_progress<I, A, G>(
    m: Machine<I, A, G>,
    local: I,
    pp: PushPullMessage<I>,
    suppress: bool,
)
    ensures
        m.leads_to(m.merging(local, pp, suppress)),
{
    progress_is_reflexive(m);
    if Machine::<I, A, G>::plausible_peer(pp) {
        let now = m.drain_now;
        let a = m.hearing(pp);
        same_queues_are_progress(m, a);
        let b = a.told_left(local, pp.left_members@, pp.status_ltimes@, now);
        told_left_is_progress(a, local, pp.left_members@, pp.status_ltimes@, now);
        progress_is_transitive(m, a, b);
        let c = b.told_joined(pp.left_members@, pp.status_ltimes@, now);
        told_joined_is_progress(b, pp.left_members@, pp.status_ltimes@, now);
        progress_is_transitive(m, b, c);
        let d = if suppress {
            c.ignoring_before(pp.event_ltime)
        } else {
            c
        };
        same_queues_are_progress(c, d);
        progress_is_transitive(m, c, d);
        replaying_is_progress(d, pp.events@);
        progress_is_transitive(m, d, d.replaying(pp.events@));
    }
}

proof fn more_queues_are_progress<I, A, G>(m: Machine<I, A, G>, next: Machine<I, A, G>)
    requires
        next.opts == m.opts,
        next.clock >= m.clock,
        next.event_clock >= m.event_clock,
        next.query_clock >= m.query_clock,
        next.seen_events.min_time >= m.seen_events.min_time,
        next.seen_queries.min_time >= m.seen_queries.min_time,
        next.seen_events.slots.len() == m.seen_events.slots.len(),
        next.seen_queries.slots.len() == m.seen_queries.slots.len(),
        next.user_drop >= m.user_drop,
        next.member_drop >= m.member_drop,
        next.coalesce_now >= m.coalesce_now,
        next.reports.len() >= m.reports.len(),
        next.actions.len() >= m.actions.len(),
        forall|i: int| 0 <= i < m.reports.len() ==> #[trigger] next.reports[i] == m.reports[i],
        forall|i: int| 0 <= i < m.actions.len() ==> #[trigger] next.actions[i] == m.actions[i],
        way_out(next.state) >= way_out(m.state),
    ensures
        m.leads_to(next),
{
    assert(next.reports.take(m.reports.len() as int) =~= m.reports);
    assert(next.actions.take(m.actions.len() as int) =~= m.actions);
}

/// To have a response relayed is progress.
pub proof fn relay_is_progress<I: Id, A, G>(
    m: Machine<I, A, G>,
    local: I,
    querier: Node<I, A>,
    frame: Bytes,
    factor: u8,
    draws: Seq<usize>,
)
    ensures
        m.leads_to(m.relaying(local, querier, frame, factor, draws)),
{
    more_queues_are_progress(m, m.relaying(local, querier, frame, factor, draws));
}

/// A query is progress.
pub proof fn query_is_progress<I: Id, A, G>(
    m: Machine<I, A, G>,
    local: Node<I, A>,
    msg: QueryMessage<I, A>,
    origin: QueryOrigin,
    request: Request<I>,
    accepted: bool,
    targeted: bool,
    ack_frame: Option<Bytes>,
    draws: Seq<usize>,
)
    ensures
        m.leads_to(
            m.after_query(local, msg, origin, request, accepted, targeted, ack_frame, draws),
        ),
{
    let after = m.after_query(local, msg, origin, request, accepted, targeted, ack_frame, draws);
    if !targeted || !m.understands(msg, request, accepted) || !m.has_room(origin)
        || !m.is_new_query(msg) {
        same_queues_are_progress(m, after);
    } else {
        let kept = m.after_query(
            local,
            msg,
            origin,
            request,
            accepted,
            false,
            ack_frame,
            draws,
        );
        same_queues_are_progress(m, kept);
        let deadline = kept.response_deadline(msg);
        let registered = Machine {
            received: kept.received.insert(
                queries::query_id_of(msg),
                ReceivedQuery { from: msg.from.addr, deadline },
            ),
            ..kept
        };
        same_queues_are_progress(kept, registered);
        progress_is_transitive(m, kept, registered);
        let acked = registered.acknowledging(local, msg, ack_frame, draws);
        if let Some(frame) = ack_frame {
            if msg.flags.ack {
                let sent = registered.asking(
                    Action::Send {
                        to: msg.from.addr,
                        frame: Frame::Ready(frame),
                    },
                );
                more_queues_are_progress(registered, sent);
                relay_is_progress(sent, local.id, msg.from, frame, msg.relay_factor, draws);
                progress_is_transitive(registered, sent, acked);
            } else {
                progress_is_reflexive(registered);
            }
        } else {
            progress_is_reflexive(registered);
        }
        progress_is_transitive(m, registered, acked);
        more_queues_are_progress(acked, after);
        progress_is_transitive(m, acked, after);
    }
}

/// A response is progress.
pub proof fn response_is_progress<I, A, G>(
    m: Machine<I, A, G>,
    local: Node<I, A>,
    msg: QueryResponseMessage<I, A>,
    nested: Option<(AnyMessage<I, A>, usize)>,
)
    ensures
        m.leads_to(m.after_response(local, msg, nested)),
{
    more_queues_are_progress(m, m.after_response(local, msg, nested));
}

proof fn closing_is_progress<I, A, G>(m: Machine<I, A, G>, i: int, now: Instant)
    requires
        0 <= i,
    ensures
        m.leads_to(m.closing_due(i, now)),
    decreases m.pending.len() - i,
{
    progress_is_reflexive(m);
    if i < m.pending.len() {
        if now >= m.pending[i].deadline {
            let taken = Machine { pending: membership::swap_removed(m.pending, i), ..m };
            let next = taken.closing(m.pending[i]);
            more_queues_are_progress(m, next);
            if !next.is_down() {
                closing_is_progress(next, i, now);
                progress_is_transitive(m, next, next.closing_due(i, now));
            }
        } else {
            closing_is_progress(m, i + 1, now);
        }
    }
}

/// To deliver what was held back is progress.
pub proof fn flush_is_progress<I, A, G>(m: Machine<I, A, G>, now: Instant)
    ensures
        m.leads_to(m.flushed(now)),
{
    more_queues_are_progress(m, m.flushed(now));
}

/// A redial and the end of a tick are progress.
pub proof fn deadlines_are_progress<I, A, G>(m: Machine<I, A, G>, now: Instant, dial: bool, i: int)
    ensures
        m.leads_to(m.after_redial(now, dial, i)),
        m.leads_to(m.after_deadlines(now)),
{
    progress_is_reflexive(m);
    more_queues_are_progress(m, m.after_redial(now, dial, i));
    if !m.is_down() {
        let b = m.after_queue_check(now);
        same_queues_are_progress(m, b);
        let c = b.closing_due(0, now);
        closing_is_progress(b, 0, now);
        progress_is_transitive(m, b, c);
        if !c.is_down() {
            let d = c.pruned(now);
            same_queues_are_progress(c, d);
            progress_is_transitive(m, c, d);
            let e = d.after_leave_deadlines(now);
            more_queues_are_progress(d, e);
            progress_is_transitive(m, d, e);
            flush_is_progress(e, now);
            progress_is_transitive(m, e, e.flushed(now));
        }
    }
}

proof fn erase_is_progress<I, A, G>(m: Machine<I, A, G>, id: I)
    ensures
        m.leads_to(m.erasing(id)),
{
    progress_is_reflexive(m);
    if m.knows(id) {
        let mid = Machine { states: m.states.remove(id), ..m.forgetting(id) };
        more_queues_are_progress(m, mid);
        member_report_is_progress(mid, MemberEventKind::Reap, m.states[id].member);
        progress_is_transitive(m, mid, m.erasing(id));
    }
}

proof fn reaping_failed_is_progress<I, A, G: ReconnectDelegate<I, A>>(
    m: Machine<I, A, G>,
    i: int,
    now: Instant,
)
    requires
        0 <= i,
    ensures
        m.leads_to(m.reaping_failed(i, now)),
    decreases m.failed.len() - i,
{
    progress_is_reflexive(m);
    if i < m.failed.len() {
        if m.expired(m.failed[i], m.opts.reconnect_timeout, now) {
            let erased = m.erasing(m.failed[i]);
            let next = Machine { failed: membership::swap_removed(m.failed, i), ..erased };
            erase_is_progress(m, m.failed[i]);
            same_queues_are_progress(erased, next);
            progress_is_transitive(m, erased, next);
            reaping_failed_is_progress(next, i, now);
            progress_is_transitive(m, next, next.reaping_failed(i, now));
        } else {
            reaping_failed_is_progress(m, i + 1, now);
        }
    }
}

proof fn reaping_left_is_progress<I, A, G: ReconnectDelegate<I, A>>(
    m: Machine<I, A, G>,
    i: int,
    now: Instant,
)
    requires
        0 <= i,
    ensures
        m.leads_to(m.reaping_left(i, now)),
    decreases m.left.len() - i,
{
    progress_is_reflexive(m);
    if i < m.left.len() {
        if m.expired(m.left[i], m.opts.tombstone_timeout, now) {
            let erased = m.erasing(m.left[i]);
            let next = Machine { left: membership::swap_removed(m.left, i), ..erased };
            erase_is_progress(m, m.left[i]);
            same_queues_are_progress(erased, next);
            progress_is_transitive(m, erased, next);
            reaping_left_is_progress(next, i, now);
            progress_is_transitive(m, next, next.reaping_left(i, now));
        } else {
            reaping_left_is_progress(m, i + 1, now);
        }
    }
}

/// The reaper is progress.
pub proof fn reap_is_progress<I, A, G: ReconnectDelegate<I, A>>(m: Machine<I, A, G>, now: Instant)
    ensures
        m.leads_to(m.reaped(now)),
        m.leads_to(m.after_reap(now)),
{
    let a = m.reaping_failed(0, now);
    reaping_failed_is_progress(m, 0, now);
    let b = a.reaping_left(0, now);
    reaping_left_is_progress(a, 0, now);
    progress_is_transitive(m, a, b);
    same_queues_are_progress(b, m.reaped(now));
    progress_is_transitive(m, b, m.reaped(now));
    let t = m.at(now);
    same_queues_are_progress(m, t);
    let a = t.reaping_failed(0, now);
    reaping_failed_is_progress(t, 0, now);
    let b = a.reaping_left(0, now);
    reaping_left_is_progress(a, 0, now);
    progress_is_transitive(t, a, b);
    same_queues_are_progress(b, t.reaped(now));
    progress_is_transitive(t, b, t.reaped(now));
    progress_is_transitive(m, t, t.reaped(now));
    progress_is_reflexive(m);
    if !m.is_down() {
        same_queues_are_progress(
            if tick::due(m.next_reap, now) {
                t.reaped(now)
            } else {
                t
            },
            m.after_reap(now),
        );
        if tick::due(m.next_reap, now) {
            progress_is_transitive(m, t.reaped(now), m.after_reap(now));
        }
    }
}

proof fn pass_on_is_progress<I, A, G>(
    m: Machine<I, A, G>,
    wanted: bool,
    queue_len: usize,
    ty: MessageType,
    data: Bytes,
)
    ensures
        m.leads_to(m.passing_packet_on_if(wanted, queue_len, ty, data)),
{
    more_queues_are_progress(m, m.passing_packet_on_if(wanted, queue_len, ty, data));
}

/// A packet is progress.
pub proof fn packet_is_progress<I: Id, A, G>(
    m: Machine<I, A, G>,
    c: Coordinator<I, A>,
    packet: Packet<I, A>,
    now: Instant,
    draws: Seq<usize>,
)
    ensures
        m.leads_to(m.after_packet(c, packet, now, draws)),
{
    reveal(Machine::after_packet);
    progress_is_reflexive(m);
    if let Some((msg, consumed)) = packet.decoded {
        let after = m.dispatching(c, msg, packet, now, draws);
        match msg {
            AnyMessage::UserEvent(ue) => {
                let mid = m.after_user_event(ue);
                user_event_is_progress(m, ue);
                pass_on_is_progress(
                    mid,
                    m.takes_user_event(ue),
                    c.queue_len,
                    MessageType::UserEvent,
                    packet.data,
                );
                progress_is_transitive(m, mid, after);
            },
            AnyMessage::Join(join) => {
                let mid = m.after_join_intent(join.ltime, join.id, now);
                join_intent_is_progress(m, join.ltime, join.id, now);
                pass_on_is_progress(
                    mid,
                    m.takes_join_intent(join.ltime, join.id),
                    c.queue_len,
                    MessageType::Join,
                    packet.data,
                );
                progress_is_transitive(m, mid, after);
            },
            AnyMessage::Leave(leave) => {
                let mid = m.after_leave_intent(c.local.id, leave.ltime, leave.id, leave.prune, now);
                leave_intent_is_progress(m, c.local.id, leave.ltime, leave.id, leave.prune, now);
                pass_on_is_progress(
                    mid,
                    m.takes_leave_intent(c.local.id, leave.ltime, leave.id),
                    c.queue_len,
                    MessageType::Leave,
                    packet.data,
                );
                progress_is_transitive(m, mid, after);
            },
            AnyMessage::Query(q) => {
                let request = queries::request_of(
                    q.name@,
                    octets::octets(q.payload),
                    packet.nested,
                );
                let accepted = pattern::all_compile(q.filters@);
                let targeted = m.targeted(c.local.id, q.filters@);
                let mid = m.after_query(
                    c.local,
                    q,
                    QueryOrigin::Inbound,
                    request,
                    accepted,
                    targeted,
                    packet.ack_frame,
                    draws,
                );
                query_is_progress(
                    m,
                    c.local,
                    q,
                    QueryOrigin::Inbound,
                    request,
                    accepted,
                    targeted,
                    packet.ack_frame,
                    draws,
                );
                let wanted = m.passes_query_on(q, QueryOrigin::Inbound, request, accepted);
                pass_on_is_progress(
                    mid,
                    wanted,
                    c.queue_len,
                    MessageType::Query,
                    packet.data,
                );
                progress_is_transitive(
                    m,
                    mid,
                    mid.passing_packet_on_if(
                        wanted,
                        c.queue_len,
                        MessageType::Query,
                        packet.data,
                    ),
                );
            },
            AnyMessage::QueryResponse(resp) => {
                response_is_progress(m, c.local, resp, packet.nested);
            },
            AnyMessage::Relay(relay) => {
                more_queues_are_progress(m, m.passing_on(c.local.id, relay));
            },
            _ => {},
        }
    }
}

/// An event of the membership layer is progress.
pub proof fn inner_event_is_progress<I: Id, A, G>(
    m: Machine<I, A, G>,
    c: Coordinator<I, A>,
    ev: InnerEvent<I, A>,
    draws: Seq<usize>,
)
    ensures
        m.leads_to(m.after_inner_event(c, ev, draws)),
{
    progress_is_reflexive(m);
    match ev {
        InnerEvent::NodeJoined { node, tags } => {
            join_is_progress(m, node, tags);
        },
        InnerEvent::NodeLeft { id } => {
            departure_is_progress(m, id, m.drain_now);
        },
        InnerEvent::NodeUpdated { node, tags } => {
            update_is_progress(m, node, tags);
        },
        InnerEvent::UserPacket(packet) => {
            packet_is_progress(m, c, packet, m.drain_now, draws);
        },
        InnerEvent::RemoteStateReceived { stream, is_join, decoded, len } => {
            state_is_progress(m, c.local.id, stream, is_join, decoded, len);
        },
        InnerEvent::LeftCluster => {
            same_queues_are_progress(m, m.inner_left());
        },
        InnerEvent::PingCompleted { id, rtt, payload } => {
            more_queues_are_progress(m, m.pinged(id, rtt, payload));
        },
        InnerEvent::ExchangeCompleted(e) => {
            more_queues_are_progress(
                m,
                m.reporting(Report::ExchangeCompleted(e)),
            );
        },
        InnerEvent::DialRequested { stream, peer } => {
            more_queues_are_progress(
                m,
                m.reporting(Report::DialRequested(stream, peer)),
            );
        },
        _ => {},
    }
}

proof fn state_is_progress<I, A, G>(
    m: Machine<I, A, G>,
    local: I,
    stream: StreamId,
    is_join: bool,
    decoded: Option<(AnyMessage<I, A>, usize)>,
    len: usize,
)
    ensures
        m.leads_to(m.hearing_state(local, stream, is_join, decoded, len)),
{
    progress_is_reflexive(m);
    let forgot = m.consuming(stream);
    same_queues_are_progress(m, forgot);
    if let Some((AnyMessage::PushPull(pp), consumed)) = decoded {
        merge_is_progress(m, local, pp, false);
        merge_is_progress(forgot, local, pp, m.ignored.contains(stream));
        progress_is_transitive(m, forgot, forgot.merging(local, pp, m.ignored.contains(stream)));
    }
}

/// To leave, and to make another leave, is progress.
pub proof fn leave_is_progress<I, A, G>(
    m: Machine<I, A, G>,
    local: I,
    id: I,
    prune: bool,
    now: Instant,
)
    ensures
        m.leads_to(m.leaving(local, now)),
        m.leads_to(m.force_leaving(local, id, prune, now)),
{
    let t = m.at(now);
    same_queues_are_progress(m, t);
    if m.state is Alive {
        let a = t.set_to_leave();
        same_queues_are_progress(m, a);
        let ltime = LamportTime(a.clock);
        leave_intent_is_progress(a, local, ltime, local, false, now);
        let b = a.after_leave_intent(local, ltime, local, false, now);
        progress_is_transitive(m, a, b);
        progress_is_reflexive(b);
        let asked = b.asking(commands::leave_broadcast(ltime, local, false));
        more_queues_are_progress(b, asked);
        progress_is_transitive(m, b, asked);
    }
    let s = t.stamped();
    same_queues_are_progress(m, s);
    leave_intent_is_progress(s, local, LamportTime(s.clock), id, prune, now);
    let told = s.after_leave_intent(local, LamportTime(s.clock), id, prune, now);
    progress_is_transitive(m, s, told);
    let asked = told.asking(
        commands::leave_broadcast(LamportTime(s.clock), id, prune),
    );
    more_queues_are_progress(told, asked);
    progress_is_transitive(m, told, asked);
}

/// To start where the node stopped is progress.
pub proof fn restart_is_progress<I, A, G>(
    m: Machine<I, A, G>,
    local: I,
    replay: ReplayResult<I, A>,
)
    ensures
        m.leads_to(m.restored(local, replay)),
{
    more_queues_are_progress(m, m.restored(local, replay));
}

} // verus!
