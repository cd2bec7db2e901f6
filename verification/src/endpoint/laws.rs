//! What holds of the machine, whatever it is told.

use crate::action::{Action, Coordinator, Frame, INTENT_RANK};
use crate::buffers;
use crate::clock;
use crate::clock::{LamportTime, LTIME_MAX};
use crate::endpoint::ingress::{InnerEvent, Packet};
use crate::endpoint::queries::Request;
use crate::endpoint::{exchange, membership, queries, responses, tick, user_events};
use crate::endpoint::{Machine, ReconnectDelegate};
use crate::event::{QueryAck, QueryResponse, Report, StreamId};
use crate::id::Id;
use crate::members::{MemberState, SerfState};
use crate::octets;
use crate::query::{Error, Pending, QueryId, QueryOrigin, QueryPurpose};
use crate::time;
use crate::time::Instant;
use crate::typed::{
    AnyMessage, JoinMessage, LeaveMessage, Node, PushPullMessage, QueryFlag, QueryMessage,
    QueryResponseMessage, ReplayResult, Tags, UserEventMessage,
};
use crate::vecmap;
use bytes::Bytes;
use std::sync::Arc;
use vstd::prelude::*;

verus! {

/// A message with a time out of range is dropped whole: it changes nothing and is not
/// passed on.
pub proof fn times_out_of_range_change_nothing<I: Id, A, G>(
    m: Machine<I, A, G>,
    local: Node<I, A>,
    id: I,
    ltime: LamportTime,
    prune: bool,
    now: Instant,
    event: UserEventMessage,
    q: QueryMessage<I, A>,
    origin: QueryOrigin,
    request: Request<I>,
    accepted: bool,
    targeted: bool,
    ack_frame: Option<Bytes>,
    draws: Seq<usize>,
)
    requires
        ltime.0 >= LTIME_MAX,
        event.ltime == ltime,
        q.ltime == ltime,
    ensures
        m.after_join_intent(ltime, id, now) == m,
        !m.takes_join_intent(ltime, id),
        m.after_leave_intent(local.id, ltime, id, prune, now) == m,
        !m.takes_leave_intent(local.id, ltime, id),
        m.after_user_event(event) == m,
        !m.takes_user_event(event),
        m.after_query(local, q, origin, request, accepted, targeted, ack_frame, draws) == m,
        !m.passes_query_on(q, origin, request, accepted),
{
}

/// The state of a peer with any clock out of range is dropped whole.
pub proof fn peers_out_of_range_change_nothing<I, A, G>(
    m: Machine<I, A, G>,
    local: I,
    pp: PushPullMessage<I>,
    suppress: bool,
)
    requires
        pp.ltime.0 >= LTIME_MAX || pp.event_ltime.0 >= LTIME_MAX || pp.query_ltime.0 >= LTIME_MAX,
    ensures
        m.merging(local, pp, suppress) == m,
{
}

/// A packet, or the state of a peer, with bytes behind the message is dropped whole.
pub proof fn trailing_bytes_change_nothing<I: Id, A, G>(
    m: Machine<I, A, G>,
    c: Coordinator<I, A>,
    packet: Packet<I, A>,
    now: Instant,
    draws: Seq<usize>,
    decoded: Option<(AnyMessage<I, A>, usize)>,
    len: usize,
    suppress: bool,
)
    requires
        packet.decoded matches Some(d) ==> d.1 != octets::octets(packet.data).len(),
        decoded matches Some(d) ==> d.1 != len,
    ensures
        m.after_packet(c, packet, now, draws) == m,
        m.merging_bytes(c.local.id, decoded, len, suppress) == m,
{
    reveal(Machine::after_packet);
}

/// What cannot be understood of a query is dropped whole: a payload that is malformed, or
/// a filter that is not accepted.
pub proof fn malformed_queries_change_nothing<I: Id, A, G>(
    m: Machine<I, A, G>,
    local: Node<I, A>,
    q: QueryMessage<I, A>,
    origin: QueryOrigin,
    request: Request<I>,
    accepted: bool,
    targeted: bool,
    ack_frame: Option<Bytes>,
    draws: Seq<usize>,
)
    requires
        request is Malformed || !accepted,
    ensures
        m.after_query(local, q, origin, request, accepted, targeted, ack_frame, draws) == m,
        !m.passes_query_on(q, origin, request, accepted),
{
}

/// A query that is not for the local node is passed on all the same, and is not reported
/// or acknowledged.
pub proof fn filtered_queries_are_passed_on<I: Id, A, G>(
    m: Machine<I, A, G>,
    local: Node<I, A>,
    q: QueryMessage<I, A>,
    origin: QueryOrigin,
    request: Request<I>,
    ack_frame: Option<Bytes>,
    draws: Seq<usize>,
)
    requires
        m.understands(q, request, true),
        m.has_room(origin),
        m.is_new_query(q),
        !q.flags.no_broadcast,
    ensures
        m.passes_query_on(q, origin, request, true),
        m.after_query(local, q, origin, request, true, false, ack_frame, draws).reports
            == m.reports,
        m.after_query(local, q, origin, request, true, false, ack_frame, draws).actions
            == m.actions,
{
}

/// A user event that was taken is not taken again, nor reported again.
pub proof fn user_events_are_taken_once<I, A, G>(m: Machine<I, A, G>, msg: UserEventMessage)
    requires
        m.seen_events.slots.len() > 0,
        m.takes_user_event(msg),
    ensures
        !m.after_user_event(msg).takes_user_event(msg),
        m.after_user_event(msg).after_user_event(msg) == m.after_user_event(msg),
{
    let after = m.after_user_event(msg);
    buffers::event_is_seen_once(
        m.seen_events,
        msg.ltime.0,
        user_events::remembered(msg),
        clock::witnessed(after.event_clock, msg.ltime.0),
    );
    clock::witness_is_idempotent(m.event_clock, msg.ltime.0);
    assert(after.after_user_event(msg) =~= after);
}

/// A query that was taken is not passed on again, nor reported again.
pub proof fn queries_are_taken_once<I: Id, A, G>(
    m: Machine<I, A, G>,
    local: Node<I, A>,
    q: QueryMessage<I, A>,
    origin: QueryOrigin,
    request: Request<I>,
    accepted: bool,
    targeted: bool,
    ack_frame: Option<Bytes>,
    draws: Seq<usize>,
    again: QueryOrigin,
)
    requires
        m.seen_queries.slots.len() > 0,
        m.understands(q, request, accepted),
        m.has_room(origin),
        m.is_new_query(q),
    ensures
        ({
            let after = m.after_query(
                local,
                q,
                origin,
                request,
                accepted,
                targeted,
                ack_frame,
                draws,
            );
            let twice = after.after_query(
                local,
                q,
                again,
                request,
                accepted,
                targeted,
                ack_frame,
                draws,
            );
            &&& !after.passes_query_on(q, again, request, accepted)
            &&& twice.reports == after.reports
            &&& twice.actions == after.actions
        }),
{
    let after = m.after_query(
        local,
        q,
        origin,
        request,
        accepted,
        targeted,
        ack_frame,
        draws,
    );
    assert(after.seen_queries == m.seen_queries.recorded(q.ltime.0, q.id));
    buffers::query_is_seen_once(
        m.seen_queries,
        q.ltime.0,
        q.id,
        clock::witnessed(after.query_clock, q.ltime.0),
    );
}

/// A join intent that was taken is not taken again.
pub proof fn join_intents_are_taken_once<I, A, G>(
    m: Machine<I, A, G>,
    ltime: LamportTime,
    id: I,
    now: Instant,
)
    requires
        m.takes_join_intent(ltime, id),
    ensures
        !m.after_join_intent(ltime, id, now).takes_join_intent(ltime, id),
{
}

/// A leave intent that was taken is not taken again, so that it is not passed on for ever.
/// One that had its node forgotten is left out: the node is unknown again.
pub proof fn leave_intents_are_taken_once<I, A, G>(
    m: Machine<I, A, G>,
    local: I,
    ltime: LamportTime,
    id: I,
    prune: bool,
    now: Instant,
)
    requires
        m.takes_leave_intent(local, ltime, id),
        !(prune && m.knows(id)),
    ensures
        !m.after_leave_intent(local, ltime, id, prune, now).takes_leave_intent(local, ltime, id),
{
    let after = m.after_leave_intent(local, ltime, id, prune, now);
    if m.knows(id) {
        assert(after.knows(id));
        assert(after.states[id].status_time == ltime);
    } else {
        assert(after.intents[id].ltime == ltime);
    }
}

/// A leave intent about this node, which does not leave, is not passed on. The node stays
/// as it is, and announces its join with a later time.
pub proof fn refuted_leaves_are_outranked<I, A, G>(
    m: Machine<I, A, G>,
    local: I,
    ltime: LamportTime,
    prune: bool,
    now: Instant,
)
    requires
        m.state is Alive,
        m.knows(local),
        clock::acceptable(ltime.0),
        ltime.0 > m.states[local].status_time.0,
        !(m.states[local].member.status is Leaving),
    ensures
        ({
            let after = m.after_leave_intent(local, ltime, local, prune, now);
            let stamp = LamportTime(clock::witnessed(m.clock, ltime.0));
            &&& !m.takes_leave_intent(local, ltime, local)
            &&& after.knows(local)
            &&& after.states[local].member == m.states[local].member
            &&& after.actions == m.actions.push(
                Action::Broadcast {
                    rank: INTENT_RANK,
                    frame: Frame::Message(
                        AnyMessage::Join(JoinMessage { ltime: stamp, id: local }),
                    ),
                },
            )
            &&& stamp.0 > ltime.0
        }),
{
}

/// A later join intent undoes an earlier leave intent.
pub proof fn later_joins_undo_leaves<I, A, G>(
    m: Machine<I, A, G>,
    local: I,
    id: I,
    leave: LamportTime,
    join: LamportTime,
    now: Instant,
)
    requires
        m.knows(id),
        m.states[id].member.status is Alive,
        m.takes_leave_intent(local, leave, id),
        clock::acceptable(join.0),
        join.0 > leave.0,
    ensures
        m.after_leave_intent(local, leave, id, false, now).states[id].member.status is Leaving,
        m.after_leave_intent(local, leave, id, false, now).after_join_intent(
            join,
            id,
            now,
        ).states[id].member == m.states[id].member,
{
}

/// A stale intent changes no member.
pub proof fn stale_intents_change_no_member<I, A, G>(
    m: Machine<I, A, G>,
    local: I,
    ltime: LamportTime,
    id: I,
    prune: bool,
    now: Instant,
)
    requires
        m.knows(id),
        ltime.0 <= m.states[id].status_time.0,
    ensures
        m.after_join_intent(ltime, id, now).states == m.states,
        m.after_leave_intent(local, ltime, id, prune, now).states == m.states,
        m.after_leave_intent(local, ltime, id, prune, now).reports == m.reports,
{
}

/// That an unknown node changed is not reported, so that no change comes before the join.
pub proof fn unknown_nodes_have_no_updates<I, A, G>(
    m: Machine<I, A, G>,
    node: Node<I, A>,
    tags: Arc<Tags>,
)
    requires
        !m.knows(node.id),
    ensures
        m.updating(node, tags) == m,
{
}

/// When the state of a peer is merged, a node that it lists as left is not touched by the
/// join intents that follow.
pub proof fn joins_spare_the_left<I, A, G>(
    m: Machine<I, A, G>,
    left: Seq<I>,
    status: Seq<(I, LamportTime)>,
    id: I,
    now: Instant,
)
    requires
        left.contains(id),
    ensures
        m.told_joined(left, status, now).knows(id) == m.knows(id),
        m.told_joined(left, status, now).states[id] == m.states[id],
    decreases status.len(),
{
    if status.len() > 0 {
        joins_spare_the_left(m, left, status.drop_last(), id, now);
    }
}

proof fn members_alike<I, A>(
    list: Seq<I>,
    states: Map<I, MemberState<I, A>>,
    others: Map<I, MemberState<I, A>>,
)
    requires
        states.dom() == others.dom(),
    ensures
        exchange::members_among(list, states) == exchange::members_among(list, others),
    decreases list.len(),
{
    if list.len() > 0 {
        members_alike(list.drop_last(), states, others);
    }
}

/// Two machines whose clocks, members and status times, lists of those that left, and
/// remembered user events agree tell the same of their state, whatever else they hold.
pub proof fn told_state_is_determined<I: Id, A, G>(
    m: Machine<I, A, G>,
    other: Machine<I, A, G>,
    a: PushPullMessage<I>,
    b: PushPullMessage<I>,
)
    requires
        other.clock == m.clock,
        other.event_clock == m.event_clock,
        other.query_clock == m.query_clock,
        other.states.dom() == m.states.dom(),
        forall|id: I| #[trigger]
            m.knows(id) ==> other.states[id].status_time == m.states[id].status_time,
        other.left == m.left,
        other.seen_events.slots == m.seen_events.slots,
        m.states.dom().finite(),
        m.tells(a),
        other.tells(b),
    ensures
        a.ltime == b.ltime,
        a.event_ltime == b.event_ltime,
        a.query_ltime == b.query_ltime,
        a.status_ltimes@ == b.status_ltimes@,
        a.left_members@ == b.left_members@,
        exchange::slots_of(a.events@) == exchange::slots_of(b.events@),
{
    let order = vecmap::in_wire_order(m.states.dom());
    vecmap::wire_order_exists(m.states.dom());
    assert forall|i: int| 0 <= i < order.len() implies #[trigger] other.states[order[i]].status_time
        == m.states[order[i]].status_time by {
        assert(order.contains(order[i]));
        assert(m.knows(order[i]));
    }
    assert(a.status_ltimes@ =~= b.status_ltimes@);
    members_alike(m.left, m.states, other.states);
}

/// What peers hand in carries no clock past [`LTIME_MAX`] that was not past it before.
pub proof fn peers_cannot_exhaust_the_clocks<I: Id, A, G>(
    m: Machine<I, A, G>,
    local: Node<I, A>,
    id: I,
    ltime: LamportTime,
    now: Instant,
    event: UserEventMessage,
    q: QueryMessage<I, A>,
    origin: QueryOrigin,
    request: Request<I>,
    accepted: bool,
    targeted: bool,
    ack_frame: Option<Bytes>,
    draws: Seq<usize>,
)
    requires
        m.clock <= LTIME_MAX,
        m.event_clock <= LTIME_MAX,
        m.query_clock <= LTIME_MAX,
    ensures
        m.after_join_intent(ltime, id, now).clock <= LTIME_MAX,
        m.after_user_event(event).event_clock <= LTIME_MAX,
        m.after_query(
            local,
            q,
            origin,
            request,
            accepted,
            targeted,
            ack_frame,
            draws,
        ).query_clock <= LTIME_MAX,
{
}

/// A machine that was shut down does nothing: no event, no tick and no command changes
/// more than the time it is told, and there is nothing to wake it for.
pub proof fn a_shut_down_machine_is_inert<I: Id, A, G: ReconnectDelegate<I, A>>(
    m: Machine<I, A, G>,
    c: Coordinator<I, A>,
    ev: InnerEvent<I, A>,
    draws: Seq<usize>,
    now: Instant,
    dial: bool,
    i: int,
    id: I,
    prune: bool,
)
    requires
        m.is_down(),
    ensures
        m.after_inner_event(c, ev, draws) == m,
        m.after_reap(now) == m,
        m.after_redial(now, dial, i) == m,
        m.after_deadlines(now) == m,
        m.wakeup() is None,
        m.leaving(c.local.id, now) == m.at(now),
        m.force_leaving(c.local.id, id, prune, now) == m.at(now),
        !m.calls_vote(ev),
{
}

/// A machine that was shut down refuses every command.
pub proof fn a_shut_down_machine_refuses<I: Id, A, G>(
    m: Machine<I, A, G>,
    local: I,
    name: Seq<char>,
    payload: Bytes,
    accepted: bool,
    id: QueryId,
    encoded: Option<Bytes>,
    now: Instant,
)
    requires
        m.is_down(),
    ensures
        m.event_verdict(name, payload) == Err::<(), Error>(Error::Shutdown),
        m.query_verdict(accepted) == Err::<(), Error>(Error::Shutdown),
        m.respond_verdict(id, encoded) == Err::<(), Error>(Error::Shutdown),
        m.send_verdict(id, encoded, now) == Err::<A, Error>(Error::Shutdown),
        m.leave_reply(local) == Err::<Option<LeaveMessage<I>>, Error>(
            Error::BadLeaveState(SerfState::Shutdown),
        ),
        m.force_leave_reply() == Err::<(), Error>(Error::BadLeaveState(SerfState::Shutdown)),
{
}

/// Whether a query that was lost is among the pending ones.
pub open spec fn has_lost_vote<I>(pending: Seq<Pending<I>>) -> bool {
    exists|i: int|
        0 <= i < pending.len() && (#[trigger] pending[i]).kind is Conflict && pending[i].is_lost()
}

proof fn closing_shuts_down_last<I, A, G>(m: Machine<I, A, G>, i: int, now: Instant)
    requires
        !m.is_down(),
        0 <= i,
    ensures
        m.closing_due(i, now).is_down() ==> {
            &&& m.closing_due(i, now).reports.len() > 0
            &&& m.closing_due(i, now).reports.last() is Shutdown
            &&& has_lost_vote(m.pending)
        },
        !m.closing_due(i, now).is_down() ==> m.closing_due(i, now).state == m.state,
    decreases m.pending.len() - i,
{
    if i < m.pending.len() {
        if now >= m.pending[i].deadline {
            let p = m.pending[i];
            let next = Machine {
                pending: membership::swap_removed(m.pending, i),
                ..m
            }.closing(p);
            if !next.is_down() {
                closing_shuts_down_last(next, i, now);
                if has_lost_vote(next.pending) {
                    let j = choose|j: int|
                        0 <= j < next.pending.len() && (#[trigger] next.pending[j]).kind is Conflict
                            && next.pending[j].is_lost();
                    if j == i {
                        assert(m.pending[m.pending.len() - 1] == next.pending[j]);
                    } else {
                        assert(m.pending[j] == next.pending[j]);
                    }
                }
            }
        } else {
            closing_shuts_down_last(m, i + 1, now);
        }
    }
}

/// Only a lost vote shuts a machine down, and the shutdown is then the last report.
pub proof fn shutdown_is_the_last_report<I, A, G>(m: Machine<I, A, G>, now: Instant)
    requires
        !m.is_down(),
        m.after_deadlines(now).is_down(),
    ensures
        m.after_deadlines(now).reports.last() is Shutdown,
        has_lost_vote(m.pending),
{
    let b = m.after_queue_check(now);
    assert(b.pending == m.pending);
    closing_shuts_down_last(b, 0, now);
}

/// A vote without responses is not lost. Otherwise it is lost exactly if no majority of
/// the responses was for this node.
pub proof fn votes_need_a_majority<I>(p: Pending<I>)
    ensures
        p.responses.len() == 0 ==> !p.is_lost(),
        p.responses.len() > 0 ==> (p.is_lost() <==> 2 * p.conflict_matching <= p.responses.len()),
{
}

proof fn a_new_query_is_found<I>(pending: Seq<Pending<I>>, p: Pending<I>)
    requires
        forall|i: int|
            0 <= i < pending.len() ==> (#[trigger] pending[i]).query_id != p.query_id,
    ensures
        responses::query_at(pending.push(p), p.query_id) == Some(pending.len() as int),
{
    let all = pending.push(p);
    let i = pending.len() as int;
    assert(responses::is_query_at(all, p.query_id, i)) by {
        assert(forall|j: int| 0 <= j < i ==> (#[trigger] all[j]) == pending[j]);
    }
    let k = responses::query_at(all, p.query_id)->0;
    assert(responses::is_query_at(all, p.query_id, k));
    if k < i {
        assert(all[k].query_id != p.query_id);
    }
    if i < k {
        assert(all[i].query_id != p.query_id);
    }
}

/// A query that a peer takes is put to its application as it was asked, and what the
/// application responds in time is reported to the one that asked.
pub proof fn a_response_finds_its_query<I: Id, A, G>(
    asker: Machine<I, A, G>,
    local: Node<I, A>,
    receiver: Machine<I, A, G>,
    peer: Node<I, A>,
    q: QueryMessage<I, A>,
    ack_frame: Option<Bytes>,
    draws: Seq<usize>,
    payload: Bytes,
    nested: Option<(AnyMessage<I, A>, usize)>,
    asked: Instant,
    now: Instant,
)
    requires
        forall|i: int|
            0 <= i < asker.pending.len() ==> (#[trigger] asker.pending[i]).query_id
                != queries::query_id_of(q),
        now <= time::later(asked, q.timeout),
        !receiver.is_down(),
        receiver.understands(q, Request::Plain, true),
        receiver.has_room(QueryOrigin::Inbound),
        receiver.is_new_query(q),
        octets::octets(payload).len() <= receiver.opts.query_response_size_limit,
    ensures
        ({
            let heard = receiver.after_query(
                peer,
                q,
                QueryOrigin::Inbound,
                Request::Plain,
                true,
                true,
                ack_frame,
                draws,
            );
            let waiting = asker.awaiting(q, QueryPurpose::App, asked).at(now);
            let i = asker.pending.len() as int;
            &&& heard.reports.last() matches Report::Query(token)
            &&& token.name == q.name
            &&& token.payload == q.payload
            &&& heard.response_made(peer, token.ltime, token.id, Some(payload)) matches Ok(resp)
            &&& waiting.after_response(local, resp, nested) == waiting.with_pending(i, waiting.pending[i].with_response(peer.id)).reporting(
                Report::QueryResponse(QueryResponse { id: q.id, from: peer, payload }),
            )
        }),
{
    a_new_query_is_found(asker.pending, asker.awaiting(q, QueryPurpose::App, asked).pending.last());
}

/// A query that a peer takes and that asks for acknowledgements is acknowledged to the
/// one that asked, and an acknowledgement that comes back in time is reported there.
pub proof fn an_acknowledgement_finds_its_query<I: Id, A, G>(
    asker: Machine<I, A, G>,
    local: Node<I, A>,
    receiver: Machine<I, A, G>,
    peer: Node<I, A>,
    q: QueryMessage<I, A>,
    ack_frame: Bytes,
    draws: Seq<usize>,
    ack: QueryResponseMessage<I, A>,
    nested: Option<(AnyMessage<I, A>, usize)>,
    asked: Instant,
    now: Instant,
)
    requires
        forall|i: int|
            0 <= i < asker.pending.len() ==> (#[trigger] asker.pending[i]).query_id
                != queries::query_id_of(q),
        now <= time::later(asked, q.timeout),
        q.flags.ack,
        receiver.understands(q, Request::Plain, true),
        receiver.has_room(QueryOrigin::Inbound),
        receiver.is_new_query(q),
        responses::response_to(ack) == queries::query_id_of(q),
        ack.from == peer,
        ack.flags == QueryFlag::spec_ack(),
    ensures
        ({
            let heard = receiver.after_query(
                peer,
                q,
                QueryOrigin::Inbound,
                Request::Plain,
                true,
                true,
                Some(ack_frame),
                draws,
            );
            let waiting = asker.awaiting(q, QueryPurpose::App, asked).at(now);
            let i = asker.pending.len() as int;
            &&& heard.actions.len() > receiver.actions.len()
            &&& heard.actions[receiver.actions.len() as int] == (Action::Send {
                to: q.from.addr,
                frame: Frame::<I, A>::Ready(ack_frame),
            })
            &&& waiting.after_response(local, ack, nested) == waiting.with_pending(
                i,
                (Pending {
                    acks: waiting.pending[i].acks.push(peer.id),
                    ..waiting.pending[i]
                }),
            ).reporting(Report::QueryAck(QueryAck { id: q.id, from: peer }))
        }),
{
    a_new_query_is_found(asker.pending, asker.awaiting(q, QueryPurpose::App, asked).pending.last());
}

/// A response that was counted is not counted again.
pub proof fn responses_are_counted_once<I, A, G>(
    m: Machine<I, A, G>,
    local: Node<I, A>,
    msg: QueryResponseMessage<I, A>,
    nested: Option<(AnyMessage<I, A>, usize)>,
)
    ensures
        m.after_response(local, msg, nested).after_response(local, msg, nested)
            == m.after_response(local, msg, nested),
{
    let after = m.after_response(local, msg, nested);
    let id = responses::response_to(msg);
    if let Some(i) = responses::query_at(m.pending, id) {
        assert(responses::is_query_at(m.pending, id, i));
        assert(after.pending.len() == m.pending.len());
        assert(forall|j: int|
            0 <= j < m.pending.len() ==> (#[trigger] after.pending[j]).query_id
                == m.pending[j].query_id);
        assert(responses::is_query_at(after.pending, id, i)) by {
            assert(forall|j: int|
                0 <= j < i ==> (#[trigger] after.pending[j]).query_id == m.pending[j].query_id);
        }
        let k = responses::query_at(after.pending, id)->0;
        assert(responses::is_query_at(after.pending, id, k));
        if k < i {
            assert(after.pending[k].query_id != id);
        }
        if i < k {
            assert(after.pending[i].query_id != id);
        }
        let p = m.pending[i];
        let q = after.pending[i];
        if q.responses == p.responses.push(msg.from.id) {
            assert(q.responses[p.responses.len() as int] == msg.from.id);
            assert(q.responses.contains(msg.from.id));
        }
        if q.acks == p.acks.push(msg.from.id) {
            assert(q.acks[p.acks.len() as int] == msg.from.id);
            assert(q.acks.contains(msg.from.id));
        }
    }
}

/// A query can be responded to once.
pub proof fn responses_are_given_once<I, A, G>(m: Machine<I, A, G>, id: QueryId, bytes: Bytes)
    requires
        !m.is_down(),
    ensures
        m.answered(id).respond_verdict(id, Some(bytes)) is Err,
        octets::octets(bytes).len() <= m.opts.query_response_size_limit ==> m.answered(
            id,
        ).respond_verdict(id, Some(bytes)) == Err::<(), Error>(Error::AlreadyResponded),
{
}

/// A response that is too large is refused for that, whether or not the query still waits
/// and however late it comes; one that was given is refused for that, however late.
pub proof fn responses_are_refused_in_order<I, A, G>(
    m: Machine<I, A, G>,
    id: QueryId,
    bytes: Bytes,
    now: Instant,
)
    requires
        !m.is_down(),
    ensures
        ({
            let n = octets::octets(bytes).len();
            let limit = m.opts.query_response_size_limit;
            &&& n > limit ==> {
                &&& m.respond_verdict(id, Some(bytes)) == Err::<(), Error>(
                    Error::RespondTooLarge(n as usize, limit),
                )
                &&& m.send_verdict(id, Some(bytes), now) == Err::<A, Error>(
                    Error::RespondTooLarge(n as usize, limit),
                )
            }
            &&& n <= limit && !m.received.dom().contains(id) ==> {
                &&& m.respond_verdict(id, Some(bytes)) == Err::<(), Error>(Error::AlreadyResponded)
                &&& m.send_verdict(id, Some(bytes), now) == Err::<A, Error>(
                    Error::AlreadyResponded,
                )
            }
            &&& n <= limit && m.received.dom().contains(id) ==> {
                &&& m.respond_verdict(id, Some(bytes)) == Ok::<(), Error>(())
                &&& m.send_verdict(id, Some(bytes), now) == if now > m.received[id].deadline {
                    Err::<A, Error>(Error::RespondAfterDeadline)
                } else {
                    Ok(m.received[id].from)
                }
            }
        }),
{
}

/// A received query is forgotten exactly when a response to it would come too late.
pub proof fn only_unanswerable_queries_are_forgotten<I, A, G>(
    m: Machine<I, A, G>,
    id: QueryId,
    frame: Bytes,
    now: Instant,
)
    requires
        !m.is_down(),
        m.received.dom().contains(id),
        octets::octets(frame).len() <= m.opts.query_response_size_limit,
    ensures
        m.pruned(now).received.dom().contains(id) <==> m.send_verdict(id, Some(frame), now)
            != Err::<A, Error>(Error::RespondAfterDeadline),
{
}

/// The machine is woken at the earliest of its deadlines.
pub proof fn wakeup_is_the_earliest_deadline<I, A, G>(m: Machine<I, A, G>)
    requires
        !m.is_down(),
    ensures
        match m.wakeup() {
            Some(t) => {
                &&& m.next_reap matches Some(d) ==> t <= d
                &&& m.next_reconnect matches Some(d) ==> t <= d
                &&& m.next_queue_check matches Some(d) ==> t <= d
                &&& m.leave_broadcast_deadline matches Some(d) ==> t <= d
                &&& m.leave_complete_deadline matches Some(d) ==> t <= d
                &&& m.batch matches Some(b) ==> (b.window.deadline() matches Some(d) ==> t <= d)
                &&& m.backlog matches Some(b) ==> (b.window.deadline() matches Some(d) ==> t <= d)
                &&& forall|i: int|
                    0 <= i < m.pending.len() ==> t <= (#[trigger] m.pending[i]).deadline
                &&& ({
                    ||| m.next_reap == Some(t)
                    ||| m.next_reconnect == Some(t)
                    ||| m.next_queue_check == Some(t)
                    ||| m.leave_broadcast_deadline == Some(t)
                    ||| m.leave_complete_deadline == Some(t)
                    ||| m.batch is Some && m.batch->0.window.deadline() == Some(t)
                    ||| m.backlog is Some && m.backlog->0.window.deadline() == Some(t)
                    ||| exists|i: int|
                        0 <= i < m.pending.len() && (#[trigger] m.pending[i]).deadline == t
                })
            },
            None => {
                &&& m.next_reap is None
                &&& m.next_reconnect is None
                &&& m.next_queue_check is None
                &&& m.leave_broadcast_deadline is None
                &&& m.leave_complete_deadline is None
                &&& m.batch matches Some(b) ==> b.window.deadline() is None
                &&& m.backlog matches Some(b) ==> b.window.deadline() is None
                &&& m.pending.len() == 0
            },
        },
{
    earliest_close_is_earliest::<I, A, G>(m.pending);
}

proof fn earliest_close_is_earliest<I, A, G>(pending: Seq<Pending<I>>)
    ensures
        match Machine::<I, A, G>::earliest_close(pending) {
            Some(t) => {
                &&& forall|i: int| 0 <= i < pending.len() ==> t <= (#[trigger] pending[i]).deadline
                &&& exists|i: int| 0 <= i < pending.len() && (#[trigger] pending[i]).deadline == t
            },
            None => pending.len() == 0,
        },
    decreases pending.len(),
{
    if pending.len() > 0 {
        let rest = pending.drop_last();
        earliest_close_is_earliest::<I, A, G>(rest);
        let last = pending.last();
        let t = Machine::<I, A, G>::earliest_close(pending)->0;
        assert(pending[pending.len() - 1] == last);
        assert forall|i: int| 0 <= i < pending.len() implies t <= (
        #[trigger] pending[i]).deadline by {
            if i < rest.len() {
                assert(rest[i] == pending[i]);
            }
        }
        if t != last.deadline {
            let i = choose|i: int| 0 <= i < rest.len() && (#[trigger] rest[i]).deadline == t;
            assert(pending[i].deadline == t);
        }
    }
}

proof fn closing_leaves_nothing_due<I, A, G>(m: Machine<I, A, G>, i: int, now: Instant)
    requires
        !m.is_down(),
        0 <= i <= m.pending.len(),
        forall|j: int| 0 <= j < i ==> now < (#[trigger] m.pending[j]).deadline,
    ensures
        !m.closing_due(i, now).is_down() ==> {
            let r = m.closing_due(i, now);
            &&& forall|j: int| 0 <= j < r.pending.len() ==> now < (#[trigger] r.pending[j]).deadline
            &&& r == (Machine { pending: r.pending, reports: r.reports, ..m })
        },
    decreases m.pending.len() - i,
{
    if i < m.pending.len() {
        if now >= m.pending[i].deadline {
            let next = Machine {
                pending: membership::swap_removed(m.pending, i),
                ..m
            }.closing(m.pending[i]);
            if !next.is_down() {
                assert forall|j: int| 0 <= j < i implies now < (
                #[trigger] next.pending[j]).deadline by {
                    assert(next.pending[j] == m.pending[j]);
                }
                closing_leaves_nothing_due(next, i, now);
            }
        } else {
            closing_leaves_nothing_due(m, i + 1, now);
        }
    }
}

/// Whether no deadline has come.
pub open spec fn nothing_due<I, A, G>(m: Machine<I, A, G>, now: Instant) -> bool {
    &&& !tick::due(m.next_reap, now)
    &&& !tick::due(m.next_reconnect, now)
    &&& !tick::due(m.next_queue_check, now)
    &&& !tick::due(m.leave_broadcast_deadline, now)
    &&& !tick::due(m.leave_complete_deadline, now)
    &&& m.batch matches Some(b) ==> !tick::due(b.window.deadline(), now)
    &&& m.backlog matches Some(b) ==> !tick::due(b.window.deadline(), now)
    &&& forall|j: int| 0 <= j < m.pending.len() ==> now < (#[trigger] m.pending[j]).deadline
}

proof fn flushing_leaves_nothing_due<I, A, G>(m: Machine<I, A, G>, now: Instant)
    requires
        !tick::due(m.next_reap, now),
        !tick::due(m.next_reconnect, now),
        !tick::due(m.next_queue_check, now),
        forall|j: int| 0 <= j < m.pending.len() ==> now < (#[trigger] m.pending[j]).deadline,
    ensures
        nothing_due(m.pruned(now).after_leave_deadlines(now).flushed(now), now),
{
    let b = m.pruned(now).after_leave_deadlines(now);
    assert(b.pending == m.pending);
    let c = b.flushed(now);
    assert(c.pending == b.pending);
    assert(c.next_reap == m.next_reap);
    assert(c.next_reconnect == m.next_reconnect);
    assert(c.next_queue_check == m.next_queue_check);
    assert(c.leave_broadcast_deadline == b.leave_broadcast_deadline);
    assert(c.leave_complete_deadline == b.leave_complete_deadline);
}

proof fn wakeup_lies_ahead<I, A, G>(m: Machine<I, A, G>, now: Instant)
    requires
        nothing_due(m, now),
    ensures
        m.wakeup() matches Some(t) ==> now < t,
{
    earliest_close_is_earliest::<I, A, G>(m.pending);
}

/// The end of a tick leaves nothing due, where the reaper and the redials had their turn.
pub proof fn the_end_of_a_tick_leaves_nothing_due<I, A, G>(m: Machine<I, A, G>, now: Instant)
    requires
        now < Instant::MAX,
        !m.is_down() ==> !tick::due(m.next_reap, now) && !tick::due(m.next_reconnect, now),
    ensures
        m.after_deadlines(now).wakeup() matches Some(t) ==> now < t,
{
    if !m.is_down() {
        let b = m.after_queue_check(now);
        closing_leaves_nothing_due(b, 0, now);
        let c = b.closing_due(0, now);
        if !c.is_down() {
            flushing_leaves_nothing_due(c, now);
            wakeup_lies_ahead(c.pruned(now).after_leave_deadlines(now).flushed(now), now);
        }
    }
}

/// After a tick no deadline is due any more, so that a driver that sleeps until the next
/// one does not spin. At the last instant of all nothing lies ahead.
pub proof fn a_tick_leaves_nothing_due<I, A, G: ReconnectDelegate<I, A>>(
    m: Machine<I, A, G>,
    now: Instant,
    dial: bool,
    i: int,
)
    requires
        now < Instant::MAX,
    ensures
        m.after_reap(now).after_redial(now, dial, i).after_deadlines(now).wakeup() matches Some(t)
            ==> now < t,
{
    let a = m.after_reap(now).after_redial(now, dial, i);
    if !m.is_down() {
        assert(!tick::due(m.after_reap(now).next_reap, now));
    }
    the_end_of_a_tick_leaves_nothing_due(a, now);
}

/// A node that left answers a further wish to leave without doing anything.
pub proof fn leave_is_idempotent<I, A, G>(m: Machine<I, A, G>, local: I, now: Instant)
    requires
        m.state is Left,
    ensures
        m.leave_reply(local) == Ok::<Option<LeaveMessage<I>>, Error>(None),
        m.leaving(local, now) == m.at(now),
{
}

/// A leave that begins makes the local member a leaving one, where it is known as alive.
pub proof fn leave_marks_the_local_member<I, A, G>(m: Machine<I, A, G>, local: I, now: Instant)
    requires
        m.leave_begins(local),
        m.knows(local),
        m.states[local].member.status is Alive,
    ensures
        m.leaving(local, now).state is Leaving,
        m.leaving(local, now).states[local].member.status is Leaving,
        m.leaving(local, now).leave_broadcast_deadline == Some(
            time::later(now, m.opts.broadcast_timeout),
        ),
{
}

/// A node near the end of its member clock refuses to leave and stays as it is.
pub proof fn exhausted_clocks_refuse_leaves<I, A, G>(
    m: Machine<I, A, G>,
    local: I,
    id: I,
    prune: bool,
    now: Instant,
)
    requires
        m.state is Alive,
        m.clock >= LTIME_MAX - 1,
    ensures
        m.leave_reply(local) == Err::<Option<LeaveMessage<I>>, Error>(Error::LeaveClockExhausted),
        m.leaving(local, now) == m.at(now),
        m.force_leave_reply() == Err::<(), Error>(Error::LeaveClockExhausted),
        m.force_leaving(local, id, prune, now) == m.at(now),
{
}

/// To be told again that the membership layer has left does not put off the end of a
/// leave.
pub proof fn a_leave_is_not_put_off<I, A, G>(m: Machine<I, A, G>)
    requires
        m.state is Leaving,
    ensures
        m.inner_left().leave_complete_deadline is Some,
        m.leave_complete_deadline matches Some(t) ==> m.inner_left().leave_complete_deadline->0
            <= t,
{
}

/// A leave is complete exactly when its deadline has come, and is then reported once.
pub proof fn a_leave_is_completed_once<I, A, G>(m: Machine<I, A, G>, now: Instant, later: Instant)
    requires
        m.state is Leaving,
    ensures
        tick::due(m.leave_complete_deadline, now) ==> {
            &&& m.after_leave_deadlines(now).state is Left
            &&& m.after_leave_deadlines(now).reports == m.reports.push(Report::LeftCluster)
            &&& m.after_leave_deadlines(now).after_leave_deadlines(later).reports
                == m.after_leave_deadlines(now).reports
        },
        !tick::due(m.leave_complete_deadline, now) ==> {
            &&& m.after_leave_deadlines(now).state is Leaving
            &&& m.after_leave_deadlines(now).reports == m.reports
        },
{
}

/// An exchange that was noted is ignored once: to note it again changes nothing, and once
/// its note is used it is gone.
pub proof fn exchanges_are_ignored_once<I, A, G>(m: Machine<I, A, G>, id: StreamId)
    requires
        m.ignored.no_duplicates(),
    ensures
        m.noting(id).ignored.contains(id),
        m.noting(id).ignored.no_duplicates(),
        m.noting(id).noting(id) == m.noting(id),
        !m.consuming(id).ignored.contains(id),
        m.consuming(id).ignored.no_duplicates(),
        m.consuming(id).consuming(id) == m.consuming(id),
        forall|other: StreamId|
            other != id ==> (#[trigger] m.consuming(id).ignored.contains(other)
                == m.ignored.contains(other)),
{
    let noted = m.noting(id).ignored;
    if !m.ignored.contains(id) {
        assert(noted[m.ignored.len() as int] == id);
        assert forall|i: int, j: int|
            0 <= i < noted.len() && 0 <= j < noted.len() && i != j implies noted[i]
            != noted[j] by {
            if i == m.ignored.len() {
                assert(m.ignored.contains(m.ignored[j]));
            }
            if j == m.ignored.len() {
                assert(m.ignored.contains(m.ignored[i]));
            }
        }
    } else {
        m.ignored.index_of_first_ensures(id);
        let i = m.ignored.index_of_first(id)->0;
        let rest = m.consuming(id).ignored;
        assert forall|other: StreamId|
            #[trigger] rest.contains(other) == (m.ignored.contains(other) && other != id) by {
            if rest.contains(other) {
                let j = choose|j: int| 0 <= j < rest.len() && rest[j] == other;
                if j == i {
                    assert(m.ignored[m.ignored.len() - 1] == other);
                } else {
                    assert(m.ignored[j] == other);
                }
            }
            if m.ignored.contains(other) && other != id {
                let j = choose|j: int| 0 <= j < m.ignored.len() && m.ignored[j] == other;
                if j == m.ignored.len() - 1 {
                    assert(rest[i] == other);
                } else {
                    assert(rest[j] == other);
                }
            }
        }
    }
}

/// A merge whose earlier user events are ignored raises the floor to the time of the peer:
/// no user event from before is taken any more.
pub proof fn ignored_events_stay_out<I, A, G>(
    m: Machine<I, A, G>,
    ltime: LamportTime,
    msg: UserEventMessage,
)
    requires
        msg.ltime.0 < ltime.0,
    ensures
        !m.ignoring_before(ltime).takes_user_event(msg),
{
}

/// After a restart no user event and no query from before it is taken again.
pub proof fn restarts_replay_nothing<I, A, G>(
    m: Machine<I, A, G>,
    local: I,
    replay: ReplayResult<I, A>,
    msg: UserEventMessage,
    q: QueryMessage<I, A>,
)
    requires
        clock::acceptable(replay.last_event_clock.0),
        clock::acceptable(replay.last_query_clock.0),
        msg.ltime.0 <= replay.last_event_clock.0,
        q.ltime.0 <= replay.last_query_clock.0,
    ensures
        !m.restored(local, replay).takes_user_event(msg),
        !m.restored(local, replay).is_new_query(q),
{
}

/// After a restart the clocks are past what was seen before it.
pub proof fn restarts_recover_the_clocks<I, A, G>(
    m: Machine<I, A, G>,
    local: I,
    replay: ReplayResult<I, A>,
)
    requires
        clock::acceptable(replay.last_clock.0),
        clock::acceptable(replay.last_event_clock.0),
        clock::acceptable(replay.last_query_clock.0),
    ensures
        m.restored(local, replay).clock > replay.last_clock.0,
        m.restored(local, replay).event_clock > replay.last_event_clock.0,
        m.restored(local, replay).query_clock > replay.last_query_clock.0,
{
}

} // verus!
