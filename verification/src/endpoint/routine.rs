//! What ticks, commands and the events of the membership layer do.

use crate::action::{Action, Coordinator, Frame};
use crate::clock::LamportTime;
use crate::coalesce;
use crate::endpoint::ingress::{InnerEvent, Packet};
use crate::endpoint::{
    answers, changes, commands, gossip, queries, Machine, ReconnectDelegate,
};
use crate::event::{ExchangeCompleted, Report, StreamId};
use crate::id::Id;
use crate::members::SerfState;
use crate::octets;
use crate::options::Options;
use crate::pattern;
use crate::query::{Error, QueryId, QueryOrigin};
use crate::time::{Duration, Instant};
use crate::typed::{
    AnyMessage, JoinMessage, LeaveMessage, MessageType, Node, QueryMessage, ReplayResult, Tags,
    UserEventMessage,
};
use bytes::Bytes;
use rand::rngs::SmallRng;
use std::sync::Arc;
use vstd::prelude::*;

verus! {

/// Whether a deadline moved on to one interval from now, where an interval takes a
/// millisecond at least.
pub open spec fn moved_on(next: Option<Instant>, now: Instant, interval: Duration) -> bool {
    next matches Some(t) && t == now + if interval >= 1_000_000 {
        interval as int
    } else {
        1_000_000
    }
}

/// The reaper runs exactly when its deadline has come, and is then armed again. It sees the
/// time that the tick brought.
pub proof fn the_reaper_keeps_its_pace<I, A, G: ReconnectDelegate<I, A>>(
    m: Machine<I, A, G>,
    now: Instant,
)
    requires
        !(m.state is Shutdown),
        now + m.opts.reap_interval + 1_000_000 <= u64::MAX,
    ensures
        ({
            let after = m.after_reap(now);
            let due = m.next_reap matches Some(t) && t <= now;
            &&& after.drain_now == now
            &&& due ==> moved_on(after.next_reap, now, m.opts.reap_interval)
            &&& due ==> after == (Machine {
                next_reap: after.next_reap,
                ..Machine { drain_now: now, ..m }.reaped(now)
            })
            &&& !due ==> after == (Machine { drain_now: now, ..m })
        }),
{
    changes::the_reaped_are_told(Machine { drain_now: now, ..m }, now);
}

/// A failed member is dialled again only when the deadline for it has come, at the address
/// under which it is known, and the deadline is then armed again. No one is dialled where no
/// member failed, or where it was decided not to.
pub proof fn a_failed_member_is_dialled<I, A, G>(
    m: Machine<I, A, G>,
    now: Instant,
    dial: bool,
    i: int,
)
    requires
        !(m.state is Shutdown),
        now + m.opts.reconnect_interval + 1_000_000 <= u64::MAX,
    ensures
        ({
            let after = m.after_redial(now, dial, i);
            let due = m.next_reconnect matches Some(t) && t <= now;
            &&& !due ==> after == m
            &&& due ==> moved_on(after.next_reconnect, now, m.opts.reconnect_interval)
            &&& due && dial && 0 <= i < m.failed.len() && m.states.dom().contains(m.failed[i])
                ==> after.actions == m.actions.push(
                Action::PushPull { peer: m.states[m.failed[i]].member.node.addr },
            )
            &&& !dial || m.failed.len() == 0 ==> after.actions == m.actions
            &&& after == (Machine {
                next_reconnect: after.next_reconnect,
                actions: after.actions,
                ..m
            })
            &&& m.may_redial(now) <==> due && m.failed.len() > 0
        }),
{
}

/// The members that are alive are all but those that failed or left, and one at least.
pub proof fn the_departed_are_not_alive<I, A, G>(m: Machine<I, A, G>)
    ensures
        m.num_alive() >= 1,
        m.num_alive() >= m.states.dom().len() - m.failed.len() - m.left.len(),
        m.num_alive() > 1 ==> m.num_alive() + m.failed.len() + m.left.len() == m.states.dom().len(),
{
}

/// The look at the queue happens when its deadline has come, and is then armed again.
pub proof fn the_queue_is_looked_at_in_time<I, A, G>(m: Machine<I, A, G>, now: Instant)
    requires
        now + m.opts.queue_check_interval + 1_000_000 <= u64::MAX,
    ensures
        ({
            let after = m.after_queue_check(now);
            let due = m.next_queue_check matches Some(t) && t <= now;
            &&& !due ==> after == m
            &&& due ==> moved_on(after.next_queue_check, now, m.opts.queue_check_interval)
            &&& after == (Machine { next_queue_check: after.next_queue_check, ..m })
        }),
{
}

/// A deadline of a leave is given up once it has come, and not before. When the one at the
/// end of a leave has, the node has left and says so; a node that does not leave says
/// nothing.
pub proof fn leaves_end_in_time<I, A, G>(m: Machine<I, A, G>, now: Instant)
    ensures
        ({
            let after = m.after_leave_deadlines(now);
            let sent = m.leave_broadcast_deadline matches Some(t) && t <= now;
            let done = m.leave_complete_deadline matches Some(t) && t <= now;
            &&& sent ==> after.leave_broadcast_deadline is None
            &&& !sent ==> after.leave_broadcast_deadline == m.leave_broadcast_deadline
            &&& done ==> after.leave_complete_deadline is None
            &&& !done ==> after.leave_complete_deadline == m.leave_complete_deadline
            &&& done && m.state is Leaving ==> after.state is Left && after.reports
                == m.reports.push(Report::LeftCluster)
            &&& !(done && m.state is Leaving) ==> after.state == m.state && after.reports
                == m.reports
            &&& after == (Machine {
                leave_broadcast_deadline: after.leave_broadcast_deadline,
                leave_complete_deadline: after.leave_complete_deadline,
                state: after.state,
                reports: after.reports,
                ..m
            })
        }),
{
}

/// Once the membership layer has left, a node that leaves has left as soon as its farewell had
/// its time to spread, or earlier if that was agreed. A node that does not leave pays no heed.
pub proof fn farewells_have_their_time<I, A, G>(m: Machine<I, A, G>)
    requires
        m.drain_now + m.opts.leave_propagate_delay <= u64::MAX,
    ensures
        ({
            let after = m.inner_left();
            let end = m.drain_now + m.opts.leave_propagate_delay;
            &&& !(m.state is Leaving) ==> after == m
            &&& m.state is Leaving ==> {
                &&& m.leave_complete_deadline is None ==> (
                after.leave_complete_deadline matches Some(t) && t == end)
                &&& m.leave_complete_deadline matches Some(u) ==> {
                    &&& u <= end ==> after.leave_complete_deadline == Some(u)
                    &&& u > end ==> (after.leave_complete_deadline matches Some(t) && t == end)
                }
            }
            &&& after == (Machine { leave_complete_deadline: after.leave_complete_deadline, ..m })
        }),
{
}

/// What was held back is delivered once its window is due: all of the changes of members,
/// then all of the user events, and both windows are shut. What is not due stays.
pub proof fn due_reports_are_delivered<I, A, G>(m: Machine<I, A, G>, at: Instant)
    ensures
        ({
            let after = m.flushed(at);
            let now = after.coalesce_now;
            &&& now >= at && now >= m.coalesce_now
            &&& now == at || now == m.coalesce_now
            &&& m.batch is None && m.backlog is None ==> after.reports == m.reports
            &&& m.batch is None ==> after.batch is None
            &&& m.backlog is None ==> after.backlog is None
            &&& m.batch matches Some(b) ==> {
                let due = (b.window.cap matches Some(t) && t <= now) || (
                b.window.quiet matches Some(t) && t <= now);
                &&& !due ==> after.batch == m.batch
                &&& due ==> after.batch->0.changes.len() == 0
                &&& due ==> after.batch->0.window.cap is None && after.batch->0.window.quiet is None
                &&& !due && m.backlog is None ==> after.reports == m.reports
                &&& due && m.backlog is None ==> changes::delivered(m, after)
            }
            &&& m.backlog matches Some(b) ==> {
                let due = (b.window.cap matches Some(t) && t <= now) || (
                b.window.quiet matches Some(t) && t <= now);
                &&& !due ==> after.backlog == m.backlog
                &&& due ==> after.backlog->0.events.len() == 0
                &&& due ==> after.backlog->0.window.cap is None
                    && after.backlog->0.window.quiet is None
                &&& !due && m.batch is None ==> after.reports == m.reports
                &&& due && m.batch is None ==> after.reports == m.reports + b.events.map_values(
                    |e: UserEventMessage| Report::<I, A>::User(e),
                )
            }
            &&& m.reports.is_prefix_of(after.reports)
            &&& m.batch is Some && m.backlog is Some && m.batch->0.window.is_due(now)
                && m.backlog->0.window.is_due(now) ==> {
                let e = m.backlog->0;
                let events = e.events.map_values(|x: UserEventMessage| Report::<I, A>::User(x));
                let n = after.reports.len() - events.len();
                &&& m.reports.len() <= n
                &&& after.reports.skip(n) == events
                &&& changes::delivered(m, Machine { reports: after.reports.take(n), ..after })
            }
            &&& after == (Machine {
                coalesce_now: after.coalesce_now,
                batch: after.batch,
                backlog: after.backlog,
                reports: after.reports,
                ..m
            })
        }),
{
    let after = m.flushed(at);
    let now = after.coalesce_now;
    if m.batch is Some && m.backlog is Some && m.batch->0.window.is_due(now)
        && m.backlog->0.window.is_due(now) {
        let b = m.batch->0;
        let e = m.backlog->0;
        let events = e.events.map_values(|x: UserEventMessage| Report::<I, A>::User(x));
        let n = after.reports.len() - events.len();
        assert(e.reports::<I, A>() =~= events);
        assert(after.reports.skip(n) =~= events);
        assert(after.reports.take(n) =~= m.reports + coalesce::all_reports(b.changes));
        assert(after.reports.take(n).skip(m.reports.len() as int) =~= coalesce::all_reports(
            b.changes,
        ));
    }
    if let Some(b) = m.batch {
        coalesce::held_changes_are_delivered(b.changes);
        if m.backlog is None && b.window.is_due(now) {
            assert(after.reports.skip(m.reports.len() as int) =~= coalesce::all_reports(
                b.changes,
            ));
        }
    }
    if let Some(b) = m.backlog {
        assert(b.reports::<I, A>() =~= b.events.map_values(
            |e: UserEventMessage| Report::<I, A>::User(e),
        ));
    }
}

/// At the end of a tick the queries that others asked and that are late are given up, the
/// due queries of this node have ended, and the members are what they were.
pub proof fn a_tick_ends_what_is_due<I, A, G>(m: Machine<I, A, G>, now: Instant)
    requires
        !(m.state is Shutdown),
        !(m.after_queue_check(now).closing_due(0, now).state is Shutdown),
    ensures
        ({
            let after = m.after_deadlines(now);
            &&& forall|q: QueryId| #[trigger]
                after.received.dom().contains(q) <==> m.received.dom().contains(q) && now
                    <= m.received[q].deadline
            &&& forall|q: QueryId| #[trigger]
                after.received.dom().contains(q) ==> after.received[q] == m.received[q]
            &&& after.pending == m.after_queue_check(now).closing_due(0, now).pending
            &&& after.next_queue_check == m.after_queue_check(now).next_queue_check
            &&& after.states == m.states
            &&& after.failed == m.failed
            &&& after.left == m.left
            &&& after.intents == m.intents
            &&& after.actions == m.actions
            &&& after.clock == m.clock
            &&& after.leave_broadcast_deadline == m.after_leave_deadlines(
                now,
            ).leave_broadcast_deadline
            &&& after.leave_complete_deadline == m.after_leave_deadlines(
                now,
            ).leave_complete_deadline
            &&& after.state == m.after_leave_deadlines(now).state
            &&& m.batch is Some && m.batch->0.window.is_due(now) ==> after.batch is Some
                && after.batch->0.changes.len() == 0
            &&& m.backlog is Some && m.backlog->0.window.is_due(now) ==> after.backlog is Some
                && after.backlog->0.events.len() == 0
            &&& m.batch is None && m.backlog is None ==> after.reports
                == m.after_queue_check(now).closing_due(0, now).after_leave_deadlines(now).reports
        }),
{
    answers::due_queries_end(m.after_queue_check(now), now);
}

/// The answer to a probe is handed on with who answered and how long that took, where there
/// are coordinates and it begins with the byte one.
pub proof fn probes_are_handed_on<I, A, G>(
    m: Machine<I, A, G>,
    id: I,
    rtt: Duration,
    payload: Bytes,
)
    ensures
        ({
            let after = m.pinged(id, rtt, payload);
            let bytes = octets::octets(payload);
            let read = !m.opts.disable_coordinates && bytes.len() > 0 && bytes[0] == 1;
            &&& read ==> after == (Machine {
                actions: m.actions.push(Action::UpdateCoordinate { id, rtt, payload }),
                ..m
            })
            &&& !read ==> after == m
        }),
{
}

/// Intents are passed on first, then queries, then user events; nothing else is. Nothing is
/// passed on once as much is queued as allowed: what was configured or, where a least depth
/// is set, twice the number of members and that depth at least.
pub proof fn packets_are_passed_on_by_tier<I, A, G>(
    m: Machine<I, A, G>,
    queue_len: usize,
    ty: MessageType,
    data: Bytes,
)
    ensures
        ({
            let after = m.passing_packet_on(queue_len, ty, data);
            let most = m.queue_max();
            let goes = queue_len < most && (ty is Join || ty is Leave || ty is Query
                || ty is UserEvent);
            let rank: u8 = if ty is Query {
                1
            } else if ty is UserEvent {
                2
            } else {
                0
            };
            &&& goes ==> after == (Machine {
                actions: m.actions.push(Action::Broadcast { rank, frame: Frame::Ready(data) }),
                ..m
            })
            &&& !goes ==> after == m
            &&& m.opts.min_queue_depth == 0 ==> most == m.opts.max_queue_depth
            &&& m.opts.min_queue_depth > 0 && 2 * m.states.dom().len() <= usize::MAX ==> {
                &&& most >= m.opts.min_queue_depth
                &&& most >= 2 * m.states.dom().len()
                &&& most == m.opts.min_queue_depth || most == 2 * m.states.dom().len()
            }
            &&& m.passing_packet_on_if(true, queue_len, ty, data) == after
            &&& m.passing_packet_on_if(false, queue_len, ty, data) == m
        }),
{
}

/// A packet that says that it is a user event or a query and is longer than such a thing may
/// be is dropped unread, and so is one that is not one message from end to end.
pub proof fn oversized_packets_are_dropped<I: Id, A, G>(
    m: Machine<I, A, G>,
    c: Coordinator<I, A>,
    packet: Packet<I, A>,
    now: Instant,
    draws: Seq<usize>,
)
    ensures
        ({
            let len = octets::octets(packet.data).len();
            let large = (packet.header == Some(MessageType::UserEvent) && len
                > m.opts.max_user_event_size) || (packet.header == Some(MessageType::Query) && len
                > m.opts.query_size_limit);
            let after = m.after_packet(c, packet, now, draws);
            &&& large ==> after == m
            &&& packet.decoded is None ==> after == m
            &&& packet.decoded matches Some((_, n)) ==> n != len ==> after == m
            &&& packet.decoded matches Some((msg, n)) ==> !large && n == len ==> after
                == m.dispatching(c, msg, packet, now, draws)
        }),
{
    reveal(Machine::after_packet);
}

/// Whether at most one action was added to those that there are: the packet, as it came, on a
/// tier. It was if it was to be passed on and the queue has room.
pub open spec fn passed_on_if<I, A, G>(
    alone: Machine<I, A, G>,
    after: Machine<I, A, G>,
    taken: bool,
    room: bool,
    rank: u8,
    data: Bytes,
) -> bool {
    &&& after == (Machine { actions: after.actions, ..alone })
    &&& taken && room ==> after.actions == alone.actions.push(
        Action::Broadcast { rank, frame: Frame::Ready(data) },
    )
    &&& !(taken && room) ==> after.actions == alone.actions
}

/// A message in a packet does what it does alone, at the time of the packet. A user event, a
/// join and a leave are passed on besides if they count, as the packet came.
pub proof fn messages_are_passed_on_if_they_count<I: Id, A, G>(
    m: Machine<I, A, G>,
    c: Coordinator<I, A>,
    packet: Packet<I, A>,
    event: UserEventMessage,
    join: JoinMessage<I>,
    leave: LeaveMessage<I>,
    now: Instant,
    draws: Seq<usize>,
)
    ensures
        ({
            let alone = m.after_user_event(event);
            passed_on_if(
                alone,
                m.dispatching(c, AnyMessage::UserEvent(event), packet, now, draws),
                m.takes_user_event(event),
                c.queue_len < alone.queue_max(),
                2,
                packet.data,
            )
        }),
        ({
            let alone = m.after_join_intent(join.ltime, join.id, now);
            passed_on_if(
                alone,
                m.dispatching(c, AnyMessage::Join(join), packet, now, draws),
                m.takes_join_intent(join.ltime, join.id),
                c.queue_len < alone.queue_max(),
                0,
                packet.data,
            )
        }),
        ({
            let alone = m.after_leave_intent(
                c.local.id,
                leave.ltime,
                leave.id,
                leave.prune,
                now,
            );
            passed_on_if(
                alone,
                m.dispatching(c, AnyMessage::Leave(leave), packet, now, draws),
                m.takes_leave_intent(c.local.id, leave.ltime, leave.id),
                c.queue_len < alone.queue_max(),
                0,
                packet.data,
            )
        }),
{
}

/// A query in a packet is dropped where the packet is longer than a query may be. Otherwise
/// it does what it does alone, as one of a peer, and is passed on besides, as the packet
/// came, exactly if it is to be. Responses and relays do what they do alone, and other
/// messages do nothing.
pub proof fn queries_in_packets_are_taken<I: Id, A, G>(
    m: Machine<I, A, G>,
    c: Coordinator<I, A>,
    packet: Packet<I, A>,
    q: QueryMessage<I, A>,
    msg: AnyMessage<I, A>,
    now: Instant,
    draws: Seq<usize>,
)
    ensures
        ({
            let after = m.dispatching(c, AnyMessage::Query(q), packet, now, draws);
            let request = queries::request_of(
                q.name@,
                octets::octets(q.payload),
                packet.nested,
            );
            let accepted = pattern::all_compile(q.filters@);
            let alone = m.after_query(
                c.local,
                q,
                QueryOrigin::Inbound,
                request,
                accepted,
                m.targeted(c.local.id, q.filters@),
                packet.ack_frame,
                draws,
            );
            let fits = octets::octets(packet.data).len() <= m.opts.query_size_limit;
            &&& !fits ==> after == m
            &&& fits ==> passed_on_if(
                alone,
                after,
                m.passes_query_on(q, QueryOrigin::Inbound, request, accepted),
                c.queue_len < alone.queue_max(),
                1,
                packet.data,
            )
        }),
        match msg {
            AnyMessage::QueryResponse(r) => m.dispatching(c, msg, packet, now, draws)
                == m.after_response(c.local, r, packet.nested),
            AnyMessage::Relay(r) => m.dispatching(c, msg, packet, now, draws) == m.passing_on(
                c.local.id,
                r,
            ),
            AnyMessage::UserEvent(_) | AnyMessage::Join(_) | AnyMessage::Leave(_)
            | AnyMessage::Query(_) => true,
            _ => m.dispatching(c, msg, packet, now, draws) == m,
        },
{
}

/// The state of a peer is merged once, as it was told, with earlier events ignored exactly if
/// the exchange is a join that was noted; the note is then used. No bytes tell nothing.
pub proof fn told_state_is_merged<I, A, G>(
    m: Machine<I, A, G>,
    local: I,
    stream: StreamId,
    is_join: bool,
    decoded: Option<(AnyMessage<I, A>, usize)>,
    len: usize,
)
    ensures
        ({
            let after = m.hearing_state(local, stream, is_join, decoded, len);
            let noted = is_join && m.ignored.contains(stream);
            &&& len == 0 ==> after == m
            &&& len > 0 ==> match decoded {
                Some((AnyMessage::PushPull(pp), n)) => {
                    &&& n == len && !noted ==> after == m.merging(local, pp, false)
                    &&& n == len && noted ==> after == m.consuming(stream).merging(local, pp, true)
                    &&& n != len && !noted ==> after == m
                    &&& n != len && noted ==> after == m.consuming(stream)
                },
                _ => {
                    &&& !noted ==> after == m
                    &&& noted ==> after == m.consuming(stream)
                },
            }
        }),
{
}

/// What the membership layer tells of its nodes is taken in at the time that the last tick
/// brought.
pub proof fn events_of_nodes_are_taken_in<I: Id, A, G>(
    m: Machine<I, A, G>,
    c: Coordinator<I, A>,
    ev: InnerEvent<I, A>,
    draws: Seq<usize>,
)
    requires
        !(m.state is Shutdown),
    ensures
        match ev {
            InnerEvent::NodeJoined { node, tags } => m.after_inner_event(c, ev, draws) == m.joined(
                node,
                tags,
            ),
            InnerEvent::NodeLeft { id } => m.after_inner_event(c, ev, draws) == m.departing(
                id,
                m.drain_now,
            ),
            InnerEvent::NodeUpdated { node, tags } => m.after_inner_event(c, ev, draws)
                == m.updating(node, tags),
            _ => true,
        },
{
}

/// What goes to the application is reported as it came, and what is of no use changes nothing.
/// A conflict about the id of this node is put to the vote where that is configured.
pub proof fn other_events_are_handed_on<I: Id, A, G>(
    m: Machine<I, A, G>,
    c: Coordinator<I, A>,
    ev: InnerEvent<I, A>,
    draws: Seq<usize>,
)
    requires
        !(m.state is Shutdown),
    ensures
        match ev {
            InnerEvent::ExchangeCompleted(done) => m.after_inner_event(c, ev, draws).reports
                == m.reports.push(Report::ExchangeCompleted(done)) && m.after_inner_event(
                c,
                ev,
                draws,
            ).actions == m.actions,
            InnerEvent::DialRequested { stream, peer } => m.after_inner_event(c, ev, draws).reports
                == m.reports.push(Report::DialRequested(stream, peer)) && m.after_inner_event(
                c,
                ev,
                draws,
            ).actions == m.actions,
            InnerEvent::LeftCluster => m.after_inner_event(c, ev, draws).leave_complete_deadline
                == m.inner_left().leave_complete_deadline,
            InnerEvent::PingCompleted { id, rtt, payload } => m.after_inner_event(
                c,
                ev,
                draws,
            ).actions == m.pinged(id, rtt, payload).actions,
            InnerEvent::NodeConflict | InnerEvent::PingFailed | InnerEvent::DecodeError =>
                m.after_inner_event(c, ev, draws) == m,
            _ => true,
        },
        m.calls_vote(ev) <==> ev is NodeConflict && m.opts.enable_id_conflict_resolution,
{
}

/// A packet is taken in as a whole, at the time that the last tick brought.
pub proof fn packets_are_taken_in<I: Id, A, G>(
    m: Machine<I, A, G>,
    c: Coordinator<I, A>,
    packet: Packet<I, A>,
    draws: Seq<usize>,
)
    requires
        !(m.state is Shutdown),
    ensures
        m.after_inner_event(c, InnerEvent::UserPacket(packet), draws) == m.after_packet(
            c,
            packet,
            m.drain_now,
            draws,
        ),
{
}

/// The state of a peer is taken in as a whole.
pub proof fn states_are_taken_in<I: Id, A, G>(
    m: Machine<I, A, G>,
    c: Coordinator<I, A>,
    stream: StreamId,
    is_join: bool,
    decoded: Option<(AnyMessage<I, A>, usize)>,
    len: usize,
    draws: Seq<usize>,
)
    requires
        !(m.state is Shutdown),
    ensures
        ({
            let ev = InnerEvent::RemoteStateReceived { stream, is_join, decoded, len };
            let after = m.after_inner_event(c, ev, draws);
            let heard = m.hearing_state(c.local.id, stream, is_join, decoded, len);
            &&& after.states == heard.states
            &&& after.seen_events == heard.seen_events
            &&& after.ignored == heard.ignored
        }),
{
}

/// A machine starts alive, knows no one, waits for nothing but its own periodic work, and
/// holds reports of a kind back exactly if both periods for it are set.
pub proof fn machines_start_empty<I, A, G>(
    opts: Options,
    rng: SmallRng,
    user_drop: u64,
    member_drop: u64,
)
    requires
        opts.reap_interval < u64::MAX - 1_000_000,
        opts.reconnect_interval < u64::MAX - 1_000_000,
        opts.queue_check_interval < u64::MAX - 1_000_000,
    ensures
        ({
            let m = Machine::<I, A, G>::initial(opts, rng, user_drop, member_drop);
            &&& m.opts == opts
            &&& m.state is Alive
            &&& m.clock == 0 && m.event_clock == 0 && m.query_clock == 0
            &&& m.states.dom().len() == 0 && m.states.dom() == Set::<I>::empty()
            &&& m.failed.len() == 0 && m.left.len() == 0
            &&& m.intents.dom() == Set::<I>::empty()
            &&& m.pending.len() == 0
            &&& m.received.dom() == Set::<QueryId>::empty()
            &&& m.reports.len() == 0 && m.actions.len() == 0 && m.ignored.len() == 0
            &&& moved_on(m.next_reap, 0, opts.reap_interval)
            &&& moved_on(m.next_reconnect, 0, opts.reconnect_interval)
            &&& moved_on(m.next_queue_check, 0, opts.queue_check_interval)
            &&& m.leave_broadcast_deadline is None && m.leave_complete_deadline is None
            &&& opts.event_buffer_size > 0 ==> m.seen_events.slots.len()
                == opts.event_buffer_size
            &&& opts.query_buffer_size > 0 ==> m.seen_queries.slots.len()
                == opts.query_buffer_size
            &&& m.seen_events.min_time == 0 && m.seen_queries.min_time == 0
            &&& m.batch is Some <==> opts.coalesce_period > 0 && opts.quiescent_period > 0
            &&& m.batch matches Some(b) ==> {
                &&& b.changes.len() == 0
                &&& b.window.coalesce_period == opts.coalesce_period
                &&& b.window.quiescent_period == opts.quiescent_period
                &&& b.window.cap is None && b.window.quiet is None
            }
            &&& m.backlog is Some <==> opts.user_coalesce_period > 0
                && opts.user_quiescent_period > 0
            &&& m.backlog matches Some(b) ==> {
                &&& b.events.len() == 0
                &&& b.limit == opts.max_coalesced_user_events
                &&& b.window.coalesce_period == opts.user_coalesce_period
                &&& b.window.quiescent_period == opts.user_quiescent_period
                &&& b.window.cap is None && b.window.quiet is None
            }
            &&& m.user_drop == user_drop && m.member_drop == member_drop
            &&& m.delegate is None
            &&& m.drain_now == 0 && m.coalesce_now == 0
            &&& m.dirty
        }),
{
}

/// A node that leaves announces it one past its clock, to all and to itself: it is leaving,
/// and so is it as a member. The announcement has the configured time to go out. A node that
/// left before is told so, and one that leaves already or was shut down is refused.
pub proof fn a_leave_is_announced<I, A, G>(m: Machine<I, A, G>, local: I, now: Instant)
    requires
        m.state is Alive,
        m.clock + 1 < 0x8000_0000_0000_0000,
        m.states.dom().contains(local),
        m.states[local].status_time.0 <= m.clock,
        m.states[local].member.status is Alive,
        now + m.opts.broadcast_timeout <= u64::MAX,
    ensures
        ({
            let after = m.leaving(local, now);
            let msg = LeaveMessage {
                ltime: LamportTime((m.clock + 1) as u64),
                id: local,
                prune: false,
            };
            &&& m.leave_reply(local) == Ok::<Option<LeaveMessage<I>>, Error>(Some(msg))
            &&& after.state is Leaving
            &&& after.clock == m.clock + 2
            &&& after.actions == m.actions.push(
                Action::Broadcast { rank: 0, frame: Frame::Message(AnyMessage::Leave(msg)) },
            )
            &&& after.leave_broadcast_deadline matches Some(t) && t == now
                + m.opts.broadcast_timeout
            &&& after.leave_complete_deadline == m.leave_complete_deadline
            &&& after.states == m.states.insert(local, after.states[local])
            &&& after.states[local].member.status is Leaving
            &&& after.states[local].member.node == m.states[local].member.node
            &&& after.states[local].member.tags == m.states[local].member.tags
            &&& after.states[local].status_time.0 == m.clock + 1
            &&& after.reports == m.reports
            &&& after.failed == m.failed && after.left == m.left
            &&& after.drain_now == now
            &&& after.dirty
        }),
{
}

/// A wish to leave is refused by a node that leaves already or was shut down, granted at once
/// by one that left, and refused where the announcement would not count, in which case the
/// node stays alive.
pub proof fn leaves_are_refused_by_state<I, A, G>(m: Machine<I, A, G>, local: I, now: Instant)
    ensures
        m.state is Leaving || m.state is Shutdown ==> {
            &&& m.leave_reply(local) == Err::<Option<LeaveMessage<I>>, Error>(
                Error::BadLeaveState(m.state),
            )
            &&& m.leaving(local, now) == (Machine { drain_now: now, ..m })
        },
        m.state is Left ==> {
            &&& m.leave_reply(local) == Ok::<Option<LeaveMessage<I>>, Error>(None)
            &&& m.leaving(local, now) == (Machine { drain_now: now, ..m })
        },
        m.state is Alive && m.clock + 1 >= 0x8000_0000_0000_0000 ==> {
            &&& m.leave_reply(local) == Err::<Option<LeaveMessage<I>>, Error>(
                Error::LeaveClockExhausted,
            )
            &&& m.leaving(local, now) == (Machine { drain_now: now, ..m })
        },
        m.state is Alive && m.clock + 1 < 0x8000_0000_0000_0000 && m.states.dom().contains(local)
            && m.states[local].status_time.0 > m.clock ==> {
            &&& m.leave_reply(local) == Err::<Option<LeaveMessage<I>>, Error>(
                Error::LeaveClockExhausted,
            )
            &&& m.leaving(local, now).state is Alive
            &&& m.leaving(local, now).states == m.states
            &&& m.leaving(local, now).actions == m.actions
        },
{
}

/// A node that makes another leave announces it one past its clock, to all and to itself.
/// With the wish to prune nothing of the node is left; without, it is leaving, or has left if
/// it had failed. What is told carries the wish.
pub proof fn a_forced_leave_is_announced<I, A, G>(
    m: Machine<I, A, G>,
    local: I,
    id: I,
    prune: bool,
    now: Instant,
)
    requires
        !(m.state is Shutdown),
        m.clock + 1 < 0x8000_0000_0000_0000,
        m.states.dom().contains(id),
        m.states[id].status_time.0 <= m.clock,
        !(id == local && m.state is Alive),
        !(m.states[id].member.status is Unknown),
    ensures
        ({
            let after = m.force_leaving(local, id, prune, now);
            let was = m.states[id];
            &&& m.force_leave_reply() is Ok
            &&& after.actions.len() > 0 && after.actions.last() == (Action::<I, A>::Broadcast {
                rank: 0,
                frame: Frame::Message(
                    AnyMessage::Leave(
                        LeaveMessage { ltime: LamportTime((m.clock + 1) as u64), id, prune },
                    ),
                ),
            })
            &&& after.clock == m.clock + 2
            &&& after.state == m.state
            &&& after.drain_now == now
            &&& after.dirty
            &&& changes::others_as_before(m, after, id)
            &&& prune ==> {
                &&& !after.states.dom().contains(id)
                &&& !after.failed.contains(id)
                &&& !after.left.contains(id)
                &&& !after.intents.dom().contains(id)
            }
            &&& !prune ==> {
                &&& after.states.dom().contains(id)
                &&& after.states[id].status_time.0 == m.clock + 1
                &&& after.states[id].member.status == gossip::status_after_leave(
                    was.member.status,
                )
                &&& after.states[id].member.node == was.member.node
                &&& after.states[id].member.tags == was.member.tags
                &&& after.states[id].leave_time == was.leave_time
            }
        }),
{
    let stamped = Machine { clock: (m.clock + 1) as u64, dirty: true, drain_now: now, ..m };
    let ltime = LamportTime((m.clock + 1) as u64);
    if prune {
        changes::a_pruning_leave_forgets(stamped, local, ltime, id, now);
    }
    changes::a_leave_intent_is_kept(stamped, local, ltime, id, now);
    changes::later_intents_count(stamped, local, ltime, id);
    assert(m.at(now).stamped() == stamped);
}

/// A wish to make another node leave is refused by one that was shut down and by one whose
/// clock is at its end; nothing changes but the time.
pub proof fn forced_leaves_are_refused<I, A, G>(
    m: Machine<I, A, G>,
    local: I,
    id: I,
    prune: bool,
    now: Instant,
)
    requires
        m.state is Shutdown || m.clock + 1 >= 0x8000_0000_0000_0000,
    ensures
        m.state is Shutdown ==> m.force_leave_reply() == Err::<(), Error>(
            Error::BadLeaveState(SerfState::Shutdown),
        ),
        !(m.state is Shutdown) ==> m.force_leave_reply() == Err::<(), Error>(
            Error::LeaveClockExhausted,
        ),
        m.force_leaving(local, id, prune, now) == (Machine { drain_now: now, ..m }),
{
}

/// New tags of this node are kept, and nothing else of it changes, nor anyone else.
pub proof fn new_tags_are_kept<I, A, G>(m: Machine<I, A, G>, local: I, tags: Arc<Tags>)
    ensures
        ({
            let after = m.retagged(local, tags);
            &&& !m.states.dom().contains(local) ==> after == m
            &&& m.states.dom().contains(local) ==> {
                let was = m.states[local];
                let ms = after.states[local];
                &&& after == (Machine { states: m.states.insert(local, ms), ..m })
                &&& ms.member.tags == tags
                &&& ms.member.node == was.member.node
                &&& ms.member.status == was.member.status
                &&& ms.status_time == was.status_time
                &&& ms.leave_time == was.leave_time
            }
        }),
{
}

proof fn dials_are_picked<I, A>(nodes: Seq<Node<I, A>>, local: I)
    ensures
        commands::dials(nodes, local) == nodes.filter(
            |n: Node<I, A>| n.id != local,
        ).map_values(|n: Node<I, A>| Action::<I, A>::PushPull { peer: n.addr }),
    decreases nodes.len(),
{
    reveal(Seq::filter);
    if nodes.len() > 0 {
        dials_are_picked(nodes.drop_last(), local);
        assert(commands::dials(nodes, local) =~= nodes.filter(
            |n: Node<I, A>| n.id != local,
        ).map_values(|n: Node<I, A>| Action::<I, A>::PushPull { peer: n.addr }));
    }
}

/// A node that starts again from what it wrote down has each clock past the last time of its
/// kind, takes no user event and no query from before its floors, and dials everyone that was
/// alive but itself, in order.
pub proof fn a_restart_takes_up_the_thread<I, A, G>(
    m: Machine<I, A, G>,
    local: I,
    replay: ReplayResult<I, A>,
)
    requires
        replay.last_clock.0 < 0x8000_0000_0000_0000,
        replay.last_event_clock.0 < 0x8000_0000_0000_0000,
        replay.last_query_clock.0 < 0x8000_0000_0000_0000,
    ensures
        ({
            let after = m.restored(local, replay);
            &&& after.clock > replay.last_clock.0 && after.clock >= m.clock
            &&& after.clock == m.clock || after.clock == replay.last_clock.0 + 1
            &&& after.event_clock > replay.last_event_clock.0 && after.event_clock
                >= m.event_clock
            &&& after.event_clock == m.event_clock || after.event_clock
                == replay.last_event_clock.0 + 1
            &&& after.query_clock > replay.last_query_clock.0 && after.query_clock
                >= m.query_clock
            &&& after.query_clock == m.query_clock || after.query_clock
                == replay.last_query_clock.0 + 1
            &&& after.seen_events.min_time > replay.last_event_clock.0
            &&& after.seen_events.min_time >= m.seen_events.min_time
            &&& after.seen_events.min_time == m.seen_events.min_time
                || after.seen_events.min_time == replay.last_event_clock.0 + 1
            &&& after.seen_events.slots == m.seen_events.slots
            &&& after.seen_queries.min_time > replay.last_query_clock.0
            &&& after.seen_queries.min_time >= m.seen_queries.min_time
            &&& after.seen_queries.min_time == m.seen_queries.min_time
                || after.seen_queries.min_time == replay.last_query_clock.0 + 1
            &&& after.seen_queries.slots == m.seen_queries.slots
            &&& after.dirty
            &&& after.actions == m.actions + replay.alive_nodes@.filter(
                |n: Node<I, A>| n.id != local,
            ).map_values(|n: Node<I, A>| Action::<I, A>::PushPull { peer: n.addr })
            &&& after == (Machine {
                clock: after.clock,
                event_clock: after.event_clock,
                query_clock: after.query_clock,
                seen_events: after.seen_events,
                seen_queries: after.seen_queries,
                dirty: after.dirty,
                actions: after.actions,
                ..m
            })
        }),
{
    dials_are_picked(replay.alive_nodes@, local);
}

/// A leave is announced by a node that is no member yet just as well, and kept for when it is
/// one. So is that of another node that is unknown, with the wish to prune or without.
pub proof fn leaves_of_the_unknown_are_announced<I, A, G>(
    m: Machine<I, A, G>,
    local: I,
    id: I,
    prune: bool,
    now: Instant,
)
    requires
        m.clock + 1 < 0x8000_0000_0000_0000,
        m.intents.dom().len() < 4096,
        now + m.opts.broadcast_timeout <= u64::MAX,
    ensures
        m.state is Alive && !m.states.dom().contains(local) && !m.intents.dom().contains(local) ==> {
            let after = m.leaving(local, now);
            let msg = LeaveMessage {
                ltime: LamportTime((m.clock + 1) as u64),
                id: local,
                prune: false,
            };
            &&& m.leave_reply(local) == Ok::<Option<LeaveMessage<I>>, Error>(Some(msg))
            &&& after.state is Leaving
            &&& after.actions == m.actions.push(
                Action::Broadcast { rank: 0, frame: Frame::Message(AnyMessage::Leave(msg)) },
            )
            &&& after.intents.dom().contains(local)
            &&& after.intents[local].kind is Leave
            &&& after.intents[local].ltime == msg.ltime
            &&& after.states == m.states
        },
        !(m.state is Shutdown) && !m.states.dom().contains(id) && !m.intents.dom().contains(id) ==> {
            let after = m.force_leaving(local, id, prune, now);
            let msg = LeaveMessage { ltime: LamportTime((m.clock + 1) as u64), id, prune };
            &&& m.force_leave_reply() is Ok
            &&& after.actions == m.actions.push(
                Action::Broadcast { rank: 0, frame: Frame::Message(AnyMessage::Leave(msg)) },
            )
            &&& after.intents.dom().contains(id)
            &&& after.intents[id].kind is Leave
            &&& after.intents[id].ltime == msg.ltime
            &&& after.intents[id].wall_time == now
            &&& after.states == m.states
            &&& after.reports == m.reports
            &&& after.state == m.state
        },
{
}

/// Reports and actions are taken in the order in which they were made: one that is made goes
/// to the end, and the one that waits longest comes out, alone.
pub proof fn first_come_first_served<I, A, G>(
    m: Machine<I, A, G>,
    report: Report<I, A>,
    action: Action<I, A>,
)
    ensures
        m.oldest_report() is None <==> m.reports.len() == 0,
        m.reports.len() == 0 ==> m.reporting(report).oldest_report() == Some(report),
        m.reports.len() > 0 ==> m.reporting(report).oldest_report() == m.oldest_report(),
        m.reports.len() > 0 ==> m.reporting(report).without_oldest_report()
            == m.without_oldest_report().reporting(report),
        m.reports.len() == 0 ==> m.reporting(report).without_oldest_report() == m,
        m.reporting(report).reports.len() == m.reports.len() + 1,
        m.oldest_action() is None <==> m.actions.len() == 0,
        m.actions.len() == 0 ==> m.asking(action).oldest_action() == Some(action),
        m.actions.len() > 0 ==> m.asking(action).oldest_action() == m.oldest_action(),
        m.actions.len() > 0 ==> m.asking(action).without_oldest_action()
            == m.without_oldest_action().asking(action),
        m.actions.len() == 0 ==> m.asking(action).without_oldest_action() == m,
        m.asking(action).actions.len() == m.actions.len() + 1,
{
}

/// A node that is alive announces its join with the time that its clock reads, and the clock
/// moves past it. A node that leaves, left or was shut down is refused.
pub proof fn a_join_is_announced<I, A, G>(m: Machine<I, A, G>, local: I)
    requires
        m.clock < 0x8000_0000_0000_0000,
    ensures
        ({
            let after = m.joining(local);
            &&& m.state is Alive ==> {
                &&& m.join_reply() is Ok
                &&& after.actions == m.actions.push(
                    Action::Broadcast {
                        rank: 0,
                        frame: Frame::Message(
                            AnyMessage::Join(
                                JoinMessage { ltime: LamportTime(m.clock), id: local },
                            ),
                        ),
                    },
                )
                &&& after.clock == m.clock + 1
                &&& after.reports == m.reports
                &&& after.state is Alive
            }
            &&& !(m.state is Alive) ==> m.join_reply() == Err::<(), Error>(
                Error::BadJoinState(m.state),
            ) && after == m
        }),
{
}

/// Tags can be changed unless the machine was shut down or they take more bytes than metadata
/// may; the refusal names both numbers.
pub proof fn large_tags_are_refused<I, A, G>(m: Machine<I, A, G>, size: usize, limit: usize)
    ensures
        m.state is Shutdown ==> m.tags_verdict(size, limit) == Err::<(), Error>(Error::Shutdown),
        !(m.state is Shutdown) && size <= limit ==> m.tags_verdict(size, limit) is Ok,
        !(m.state is Shutdown) && size > limit ==> m.tags_verdict(size, limit) == Err::<(), Error>(
            Error::SetTagsMeta(size, limit),
        ),
{
}

} // verus!
