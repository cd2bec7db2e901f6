//! What a query does: whom it is for, what is kept of it, and what is reported, sent and
//! relayed.

use crate::action::{Action, Coordinator, Frame};
use crate::endpoint::ingress::Packet;
use crate::endpoint::queries::Request;
use crate::endpoint::{queries, relay, Machine};
use crate::event::{KeyRequest, KeyRequestOperation, QueryEvent, Report};
use crate::filter::{Filter, TagFilter};
use crate::id::Id;
use crate::members::MemberState;
use crate::octets;
use crate::pattern;
use crate::query::{
    Error, QueryId, QueryOrigin, QueryParams, QueryPurpose, ReceivedQuery, Tally,
};
use crate::time::Instant;
use crate::typed;
use crate::typed::{
    AnyMessage, ConflictResponseMessage, MessageType, Node, QueryMessage, RelayMessage,
};
use crate::vecmap;
use bytes::Bytes;
use vstd::prelude::*;

verus! {

/// Whether the first tag of a name has a value that a tag filter lets through.
pub open spec fn tag_lets_through(entries: Seq<(String, String)>, f: TagFilter) -> bool {
    exists|i: int|
        {
            &&& 0 <= i < entries.len()
            &&& (#[trigger] entries[i]).0@ == f.tag@
            &&& forall|j: int| 0 <= j < i ==> (#[trigger] entries[j]).0@ != f.tag@
            &&& f.expr matches Some(e) ==> pattern::compiles(e@) && pattern::finds(
                e@,
                entries[i].1@,
            )
        }
}

/// Whether a filter lets a node through: one by id if it names the node, one by tag if the
/// node is a member with that tag and the value fits.
pub open spec fn lets_through<I, A, G>(
    m: Machine<I, A, G>,
    local: I,
    filter: Filter<I>,
) -> bool {
    match filter {
        Filter::Id(ids) => ids@.contains(local),
        Filter::Tag(f) => m.states.dom().contains(local) && tag_lets_through(
            m.states[local].member.tags.entries@,
            f,
        ),
    }
}

proof fn tag_values_are_found(entries: Seq<(String, String)>, key: Seq<char>)
    ensures
        match typed::tag_value(entries, key) {
            Some(v) => exists|i: int| #[trigger] typed::tagged(entries, key, i) && entries[i].1@ == v,
            None => forall|i: int| 0 <= i < entries.len() ==> (#[trigger] entries[i]).0@ != key,
        },
{
    if typed::tag_value(entries, key) is None {
        assert forall|i: int| 0 <= i < entries.len() implies (#[trigger] entries[i]).0@ != key by {
            if entries[i].0@ == key {
                first_tag_exists(entries, key, i);
            }
        }
    }
}

proof fn first_tag_exists(entries: Seq<(String, String)>, key: Seq<char>, i: int)
    requires
        0 <= i < entries.len(),
        entries[i].0@ == key,
    ensures
        exists|k: int| #[trigger] typed::tagged(entries, key, k),
    decreases i,
{
    if forall|j: int| 0 <= j < i ==> (#[trigger] entries[j]).0@ != key {
        assert(typed::tagged(entries, key, i));
    } else {
        let j = choose|j: int| 0 <= j < i && (#[trigger] entries[j]).0@ == key;
        first_tag_exists(entries, key, j);
    }
}

/// A node passes a filter exactly if the filter lets it through.
pub proof fn filters_let_through<I, A, G>(m: Machine<I, A, G>, local: I, filter: Filter<I>)
    ensures
        m.passes(local, filter) <==> lets_through(m, local, filter),
{
    if let Filter::Tag(f) = filter {
        let entries = m.local_tags(local);
        tag_values_are_found(entries, f.tag@);
        if m.passes(local, filter) {
            let i = choose|i: int|
                #[trigger] typed::tagged(entries, f.tag@, i) && entries[i].1@
                    == typed::tag_value(entries, f.tag@)->0;
            assert(entries[i].0@ == f.tag@);
        }
        if lets_through(m, local, filter) {
            let i = choose|i: int|
                {
                    &&& 0 <= i < entries.len()
                    &&& (#[trigger] entries[i]).0@ == f.tag@
                    &&& forall|j: int| 0 <= j < i ==> (#[trigger] entries[j]).0@ != f.tag@
                    &&& f.expr matches Some(e) ==> pattern::compiles(e@) && pattern::finds(
                        e@,
                        entries[i].1@,
                    )
                };
            assert(entries[i].0@ == f.tag@);
            let k = choose|k: int|
                #[trigger] typed::tagged(entries, f.tag@, k) && entries[k].1@
                    == typed::tag_value(entries, f.tag@)->0;
            assert(k == i) by {
                if k < i {
                    assert(entries[k].0@ != f.tag@);
                }
                if i < k {
                    assert(entries[i].0@ != f.tag@);
                }
            }
        }
    }
}

/// A query is for a node exactly if every one of its filters lets the node through. One more
/// filter lets through no one whom the others shut out, and no one whom it shuts out itself.
/// A query without filters is for everyone.
pub proof fn every_filter_must_pass<I, A, G>(
    m: Machine<I, A, G>,
    local: I,
    filters: Seq<Filter<I>>,
    f: Filter<I>,
)
    ensures
        m.targeted(local, Seq::empty()),
        m.targeted(local, filters.push(f)) <==> m.targeted(local, filters) && lets_through(
            m,
            local,
            f,
        ),
        m.targeted(local, filters) <==> forall|i: int|
            0 <= i < filters.len() ==> lets_through(m, local, #[trigger] filters[i]),
        forall|i: int|
            0 <= i < filters.len() && !lets_through(m, local, #[trigger] filters[i])
                ==> !m.targeted(local, filters),
{
    let more = filters.push(f);
    filters_let_through(m, local, f);
    assert forall|i: int| 0 <= i < filters.len() implies m.passes(local, #[trigger] filters[i])
        == lets_through(m, local, filters[i]) by {
        filters_let_through(m, local, filters[i]);
    }
    if m.targeted(local, more) {
        assert(more[filters.len() as int] == f);
        assert forall|i: int| 0 <= i < filters.len() implies m.passes(
            local,
            #[trigger] filters[i],
        ) by {
            assert(more[i] == filters[i]);
        }
    }
}

/// Whether nothing that waits for a response is new.
pub open spec fn nothing_more_waits<A>(
    before: Map<QueryId, ReceivedQuery<A>>,
    after: Map<QueryId, ReceivedQuery<A>>,
) -> bool {
    forall|q: QueryId| #[trigger]
        after.dom().contains(q) ==> before.dom().contains(q) && after[q] == before[q]
}

/// A query of which some filter shuts the local node out is neither reported nor acknowledged
/// nor kept for a response, whatever the other filters say. All that may come of it is that
/// its packet is passed on.
pub proof fn shut_out_nodes_stay_silent<I: Id, A, G>(
    m: Machine<I, A, G>,
    c: Coordinator<I, A>,
    q: QueryMessage<I, A>,
    packet: Packet<I, A>,
    draws: Seq<usize>,
    i: int,
)
    requires
        0 <= i < q.filters@.len(),
        !lets_through(m, c.local.id, q.filters@[i]),
    ensures
        ({
            let after = m.taking_query(c, q, packet, draws);
            &&& after.reports == m.reports
            &&& nothing_more_waits(m.received, after.received)
            &&& after.actions == m.actions || after.actions == m.actions.push(
                Action::Broadcast { rank: 1, frame: Frame::Ready(packet.data) },
            )
            &&& after == (Machine {
                received: after.received,
                query_clock: after.query_clock,
                seen_queries: after.seen_queries,
                dirty: after.dirty,
                actions: after.actions,
                ..m
            })
        }),
{
    filters_let_through(m, c.local.id, q.filters@[i]);
    assert(!m.targeted(c.local.id, q.filters@));
}

/// The same holds of a query of this node whose filters shut the node out: it goes out and
/// waits for the responses of others, and that is all.
pub proof fn a_shut_out_asker_stays_silent<I: Id, A, G>(
    m: Machine<I, A, G>,
    local: Node<I, A>,
    q: QueryMessage<I, A>,
    purpose: QueryPurpose,
    request: Request<I>,
    accepted: bool,
    frame: Bytes,
    ack_frame: Option<Bytes>,
    draws: Seq<usize>,
    now: Instant,
    i: int,
)
    requires
        0 <= i < q.filters@.len(),
        !lets_through(m, local.id, q.filters@[i]),
    ensures
        ({
            let after = m.issuing(
                local,
                q,
                purpose,
                request,
                accepted,
                m.targeted(local.id, q.filters@),
                frame,
                ack_frame,
                draws,
                now,
            );
            &&& after.reports == m.reports
            &&& after.received == m.received
            &&& after.actions == m.actions.push(
                Action::Broadcast { rank: 1, frame: Frame::Ready(frame) },
            )
            &&& after.pending.len() == m.pending.len() + 1
        }),
{
    filters_let_through(m, local.id, q.filters@[i]);
    assert(!m.targeted(local.id, q.filters@));
}

/// The names that begin with an underscore and are known have a meaning of their own, and
/// every other name is for the application. A question about an id must be an id from end to
/// end. An operation on keys must be one message from end to end; to install, use or remove a
/// key it must name one, and to list them it must not.
pub proof fn reserved_names_are_understood<I: Id, A>(
    name: Seq<char>,
    payload: Seq<u8>,
    nested: Option<(AnyMessage<I, A>, usize)>,
)
    ensures
        name == "_serf_conflict"@ ==> match I::unwire(payload) {
            Ok(v) => v.0 == payload.len() ==> queries::request_of(name, payload, nested)
                == Request::Conflict(v.1),
            Err(_) => queries::request_of(name, payload, nested) is Malformed,
        },
        name == "_serf_conflict"@ && (I::unwire(payload) matches Ok(v) && v.0 != payload.len())
            ==> queries::request_of(name, payload, nested) is Malformed,
        name == "_serf_install_key"@ ==> key_request(
            name,
            payload,
            nested,
            KeyRequestOperation::Install,
            true,
        ),
        name == "_serf_use_key"@ ==> key_request(
            name,
            payload,
            nested,
            KeyRequestOperation::Use,
            true,
        ),
        name == "_serf_remove_key"@ ==> key_request(
            name,
            payload,
            nested,
            KeyRequestOperation::Remove,
            true,
        ),
        name == "_serf_list_keys"@ ==> key_request(
            name,
            payload,
            nested,
            KeyRequestOperation::List,
            false,
        ),
        name != "_serf_conflict"@ && name != "_serf_install_key"@ && name != "_serf_use_key"@ && name
            != "_serf_remove_key"@ && name != "_serf_list_keys"@ ==> queries::request_of(
            name,
            payload,
            nested,
        ) is Plain,
        queries::key_query_name(KeyRequestOperation::Install) == "_serf_install_key"@,
        queries::key_query_name(KeyRequestOperation::Use) == "_serf_use_key"@,
        queries::key_query_name(KeyRequestOperation::Remove) == "_serf_remove_key"@,
        queries::key_query_name(KeyRequestOperation::List) == "_serf_list_keys"@,
{
    reveal_strlit("_serf_install_key");
    reveal_strlit("_serf_use_key");
    reveal_strlit("_serf_remove_key");
    reveal_strlit("_serf_list_keys");
    reveal_strlit("_serf_conflict");
    assert("_serf_install_key"@[6] == 'i');
    assert("_serf_use_key"@[6] == 'u');
    assert("_serf_remove_key"@[6] == 'r');
    assert("_serf_list_keys"@[6] == 'l');
    assert("_serf_conflict"@[6] == 'c');
}

/// Whether a query asks for an operation on keys if its payload is one request from end to
/// end that names a key or none, as the operation needs, and cannot be understood otherwise.
pub open spec fn key_request<I: Id, A>(
    name: Seq<char>,
    payload: Seq<u8>,
    nested: Option<(AnyMessage<I, A>, usize)>,
    op: KeyRequestOperation,
    needs_key: bool,
) -> bool {
    let request = queries::request_of(name, payload, nested);
    match nested {
        Some((AnyMessage::KeyRequest(k), n)) => {
            &&& n == payload.len() && (k.key is Some <==> needs_key) ==> request == Request::<
                I,
            >::Key(op, k.key)
            &&& !(n == payload.len() && (k.key is Some <==> needs_key)) ==> request is Malformed
        },
        _ => request is Malformed,
    }
}

/// A query is understood if its time is in the lower half of the integers, what it asks of
/// the machine is well formed and its filters are accepted. Of those of peers, 2048 may wait
/// whose deadline has not passed; those of this node are not limited. One is passed on if it
/// is understood, has room, is new, and does not say otherwise.
pub proof fn new_queries_are_passed_on<I, A, G>(
    m: Machine<I, A, G>,
    q: QueryMessage<I, A>,
    request: Request<I>,
    accepted: bool,
    origin: QueryOrigin,
)
    ensures
        m.understands(q, request, accepted) <==> q.ltime.0 < 0x8000_0000_0000_0000 && !(
        request is Malformed) && accepted,
        m.has_room(QueryOrigin::Local),
        m.has_room(QueryOrigin::Inbound) <==> m.received.dom().filter(
            |id: QueryId| m.drain_now <= m.received[id].deadline,
        ).len() < 2048,
        m.passes_query_on(q, origin, request, accepted) <==> m.understands(q, request, accepted)
            && m.has_room(origin) && m.is_new_query(q) && !q.flags.no_broadcast,
        q.ltime.0 < 0x8000_0000_0000_0000 ==> (m.is_new_query(q) <==> m.seen_queries.admits(
            if q.ltime.0 >= m.query_clock {
                (q.ltime.0 + 1) as u64
            } else {
                m.query_clock
            },
            q.ltime.0,
            q.id,
        )),
{
    assert(queries::live_only(m.received, m.drain_now).dom() =~= m.received.dom().filter(
        |id: QueryId| m.drain_now <= m.received[id].deadline,
    ));
}

/// The queries whose deadline has passed are given up, and no others.
pub proof fn only_late_queries_are_given_up<I, A, G>(m: Machine<I, A, G>, now: Instant)
    ensures
        forall|q: QueryId| #[trigger]
            m.pruned(now).received.dom().contains(q) <==> m.received.dom().contains(q) && now
                <= m.received[q].deadline,
        forall|q: QueryId| #[trigger]
            m.pruned(now).received.dom().contains(q) ==> m.pruned(now).received[q] == m.received[q],
        m.pruned(now) == (Machine { received: m.pruned(now).received, ..m }),
{
}

/// Whether the received queries are those from before, without the late ones where the query
/// came from a peer.
pub open spec fn room_made<I, A, G>(
    before: Machine<I, A, G>,
    after: Map<QueryId, ReceivedQuery<A>>,
    origin: QueryOrigin,
) -> bool {
    &&& origin is Local ==> after == before.received
    &&& origin is Inbound ==> {
        &&& forall|x: QueryId| #[trigger]
            after.dom().contains(x) <==> before.received.dom().contains(x) && before.drain_now
                <= before.received[x].deadline
        &&& forall|x: QueryId| #[trigger]
            after.dom().contains(x) ==> after[x] == before.received[x]
    }
}

/// A query that is not understood changes nothing. One without room only makes the late ones
/// give way. One that was seen advances the clock past its time besides, and one that is new
/// is remembered besides. A query that is not for the local node ends there.
pub proof fn a_query_is_noted<I: Id, A, G>(
    m: Machine<I, A, G>,
    local: Node<I, A>,
    q: QueryMessage<I, A>,
    origin: QueryOrigin,
    request: Request<I>,
    accepted: bool,
    targeted: bool,
    ack_frame: Option<Bytes>,
    draws: Seq<usize>,
)
    ensures
        ({
            let after = m.after_query(
                local,
                q,
                origin,
                request,
                accepted,
                targeted,
                ack_frame,
                draws,
            );
            let understood = m.understands(q, request, accepted);
            &&& !understood ==> after == m
            &&& understood && !m.has_room(origin) ==> {
                &&& room_made(m, after.received, origin)
                &&& after == (Machine { received: after.received, ..m })
            }
            &&& understood && m.has_room(origin) ==> {
                &&& q.ltime.0 >= m.query_clock ==> after.query_clock == q.ltime.0 + 1
                &&& q.ltime.0 < m.query_clock ==> after.query_clock == m.query_clock
            }
            &&& understood && m.has_room(origin) && !m.is_new_query(q) ==> {
                &&& room_made(m, after.received, origin)
                &&& after == (Machine {
                    received: after.received,
                    query_clock: after.query_clock,
                    ..m
                })
            }
            &&& understood && m.has_room(origin) && m.is_new_query(q) ==> {
                &&& after.seen_queries == m.seen_queries.recorded(q.ltime.0, q.id)
                &&& after.dirty
            }
            &&& understood && m.has_room(origin) && m.is_new_query(q) && !targeted ==> {
                &&& room_made(m, after.received, origin)
                &&& after == (Machine {
                    received: after.received,
                    query_clock: after.query_clock,
                    seen_queries: after.seen_queries,
                    dirty: true,
                    ..m
                })
            }
        }),
{
}

/// What a new query for the local node does. It waits for a response until its timeout, of
/// ten minutes at most, has passed; a question about an id does not wait. It is reported with
/// all that it says, or as the operation on keys that it is. Who is known under another id is
/// told to the node that asks. An acknowledgement goes to that node first, where one is asked
/// for and could be made.
pub proof fn a_query_is_accepted<I: Id, A, G>(
    m: Machine<I, A, G>,
    local: Node<I, A>,
    q: QueryMessage<I, A>,
    origin: QueryOrigin,
    request: Request<I>,
    ack_frame: Option<Bytes>,
    draws: Seq<usize>,
)
    requires
        m.understands(q, request, true),
        m.has_room(origin),
        m.is_new_query(q),
        m.drain_now + 600_000_000_000 <= u64::MAX,
    ensures
        ({
            let after = m.after_query(local, q, origin, request, true, true, ack_frame, draws);
            let id = QueryId { ltime: q.ltime, id: q.id };
            let wait = if q.timeout <= 600_000_000_000 {
                q.timeout as int
            } else {
                600_000_000_000
            };
            let deadline = (m.drain_now + wait) as u64;
            let acked = q.flags.ack && ack_frame is Some;
            &&& !(request is Conflict) ==> {
                &&& after.received.dom().contains(id)
                &&& after.received[id] == (ReceivedQuery { from: q.from.addr, deadline })
                &&& nothing_more_waits(m.received, after.received.remove(id))
            }
            &&& request is Conflict ==> {
                &&& !after.received.dom().contains(id)
                &&& nothing_more_waits(m.received, after.received)
            }
            &&& request is Plain ==> after.reports.len() > 0 && after.reports.last() == Report::<
                I,
                A,
            >::Query(
                QueryEvent {
                    id: q.id,
                    ltime: q.ltime,
                    from: q.from,
                    name: q.name,
                    payload: q.payload,
                    relay_factor: q.relay_factor,
                    deadline,
                },
            )
            &&& request matches Request::Key(op, key) ==> after.reports.len() > 0
                && after.reports.last() == Report::<I, A>::KeyRequest(
                KeyRequest {
                    op,
                    key,
                    id: q.id,
                    ltime: q.ltime,
                    from: q.from,
                    relay_factor: q.relay_factor,
                    deadline,
                },
            )
            &&& !acked ==> {
                &&& request is Conflict ==> after.reports == m.reports
                &&& !(request is Conflict) ==> after.reports == m.reports.push(
                    after.reports.last(),
                )
                &&& !(request is Conflict) ==> after.actions == m.actions
            }
            &&& m.actions.is_prefix_of(after.actions)
            &&& acked ==> after.actions.len() > m.actions.len()
                && after.actions[m.actions.len() as int] == (Action::<I, A>::Send {
                to: q.from.addr,
                frame: Frame::Ready(ack_frame->0),
            })
            &&& request matches Request::Conflict(x) ==> {
                let answer = Action::<I, A>::Send {
                    to: q.from.addr,
                    frame: Frame::Answer {
                        ltime: q.ltime,
                        id: q.id,
                        from: local,
                        message: AnyMessage::ConflictResponse(
                            ConflictResponseMessage { member: m.states[x].member.node },
                        ),
                    },
                };
                let told = x != local.id && m.states.dom().contains(x);
                &&& told ==> after.actions.len() > 0 && after.actions.last() == answer
                &&& told && !acked ==> after.actions == m.actions.push(answer)
                &&& !told && !acked ==> after.actions == m.actions
            }
            &&& after == (Machine {
                received: after.received,
                query_clock: after.query_clock,
                seen_queries: after.seen_queries,
                dirty: true,
                actions: after.actions,
                reports: after.reports,
                ..m
            })
        }),
{
}

/// An acknowledgement and a response are relayed by as many members as are asked for, where
/// there are more members than that. Each is alive, none is the local node, and none is asked
/// twice; fewer than asked for relay only where all that could do. Each gets the frame and
/// the node that asks. A frame that is too large goes to none, which is reported.
pub proof fn frames_are_relayed<I: Id, A, G>(
    m: Machine<I, A, G>,
    local: I,
    querier: Node<I, A>,
    frame: Bytes,
    factor: u8,
    draws: Seq<usize>,
) -> (peers: Seq<I>)
    requires
        m.states.dom().finite(),
    ensures
        ({
            let after = m.relaying(local, querier, frame, factor, draws);
            let wanted = factor > 0 && m.states.dom().len() > factor;
            let fits = octets::octets(frame).len() <= m.opts.query_response_size_limit;
            &&& !wanted ==> after == m
            &&& wanted && !fits ==> after == (Machine {
                reports: m.reports.push(Report::RelayDropped(querier.addr)),
                ..m
            })
            &&& wanted && fits ==> after == (Machine {
                actions: m.actions + peers.map_values(
                    |id: I|
                        Action::Relay {
                            to: m.states[id].member.node.addr,
                            message: RelayMessage { destination: querier, payload: frame },
                        },
                ),
                ..m
            })
            &&& m.draws_relays(frame, factor) <==> wanted && fits
        }),
        peers.no_duplicates(),
        peers.len() <= factor,
        forall|id: I| #[trigger]
            peers.contains(id) ==> m.states.dom().contains(id) && id != local
                && m.states[id].member.status is Alive,
        peers.len() < factor ==> forall|id: I| #[trigger]
            m.states.dom().contains(id) && id != local && m.states[id].member.status is Alive
                ==> peers.contains(id),
{
    let peers = m.relay_peers(local, factor, draws);
    relay::relay_peers_are_distinct(m, local, factor, draws);
    let after = m.relaying(local, querier, frame, factor, draws);
    if m.relays(factor) && m.relay_fits(frame) {
        assert(after.actions =~= m.actions + peers.map_values(
            |id: I|
                Action::Relay {
                    to: m.states[id].member.node.addr,
                    message: RelayMessage { destination: querier, payload: frame },
                },
        ));
    }
    if peers.len() < factor {
        let order = vecmap::in_wire_order(m.states.dom());
        vecmap::wire_order_exists(m.states.dom());
        let all = m.relay_candidates(local);
        let k = m.relay_count(local, factor);
        relay::shuffle_keeps(all, draws, k);
        assert(peers =~= relay::shuffled(all, draws, k));
        assert forall|id: I| #[trigger]
            m.states.dom().contains(id) && id != local
                && m.states[id].member.status is Alive implies peers.contains(id) by {
            relay::the_able_are_found(order, m.states, local, id);
            assert(order.contains(id));
            assert(all.contains(id));
        }
    }
    peers
}

/// A frame that is to be passed on goes unchanged to the address that was given. One that
/// came back to the node that it names is reported as dropped.
pub proof fn frames_are_passed_on<I, A, G>(
    m: Machine<I, A, G>,
    local: I,
    r: RelayMessage<I, A>,
)
    ensures
        r.destination.id != local ==> m.passing_on(local, r) == (Machine {
            actions: m.actions.push(
                Action::Forward { to: r.destination.addr, payload: r.payload },
            ),
            ..m
        }),
        r.destination.id == local ==> m.passing_on(local, r) == (Machine {
            reports: m.reports.push(Report::RelayDropped(r.destination.addr)),
            ..m
        }),
{
}

proof fn tens_are_powers(k: nat)
    ensures
        queries::tens(k) == vstd::arithmetic::power::pow(10, k),
    decreases k,
{
    reveal(vstd::arithmetic::power::pow);
    if k > 0 {
        tens_are_powers((k - 1) as nat);
    }
}

/// A query waits, where nothing else was said, 200 milliseconds times the configured factor
/// for each digit that it takes to count the members and one more from zero: once up to nine
/// members, twice up to 99, and so on.
pub proof fn timeouts_grow_with_the_digits(members: nat, mult: u32, digits: nat)
    requires
        digits >= 1,
        members < vstd::arithmetic::power::pow(10, digits),
        digits > 1 ==> members >= vstd::arithmetic::power::pow(10, (digits - 1) as nat),
    ensures
        queries::default_timeout(members, mult) == 200_000_000 * mult * digits,
{
    tens_are_powers(digits);
    tens_are_powers((digits - 1) as nat);
    queries::ceil_log10_is_least(members + 1, digits);
    queries::ceil_log10_is_least(members + 1, (digits - 1) as nat);
    let least = queries::ceil_log10(members + 1);
    assert(least <= digits);
    assert(digits > 1 ==> least > digits - 1);
}

/// The message of a query says what it was asked to say: the name, the payload, the filters,
/// how many are to relay and whether to acknowledge. It comes from this node and may be
/// passed on. Its time is what the query clock reads. A timeout of zero stands for the
/// default.
pub proof fn queries_say_what_was_asked<I, A, G>(
    m: Machine<I, A, G>,
    local: Node<I, A>,
    name: String,
    payload: Bytes,
    params: QueryParams<I>,
    id: u32,
)
    ensures
        ({
            let msg = m.asked(local, name, payload, params, id);
            &&& msg.ltime.0 == m.query_clock
            &&& msg.id == id
            &&& msg.from == local
            &&& msg.filters == params.filters
            &&& msg.flags.ack == params.request_ack
            &&& !msg.flags.no_broadcast
            &&& msg.relay_factor == params.relay_factor
            &&& msg.name == name
            &&& msg.payload == payload
            &&& params.timeout > 0 ==> msg.timeout == params.timeout
            &&& params.timeout == 0 ==> msg.timeout == queries::default_timeout(
                m.states.dom().len(),
                m.opts.query_timeout_mult,
            ) as u64
        }),
        m.state is Shutdown ==> m.query_verdict(true) == Err::<(), Error>(Error::Shutdown),
        !(m.state is Shutdown) ==> m.query_verdict(true) is Ok,
        !(m.state is Shutdown) ==> m.query_verdict(false) == Err::<(), Error>(
            Error::InvalidQueryFilter,
        ),
{
}

/// A query that the machine asks by itself goes to everyone, asks for no acknowledgement and
/// no relay, and waits for the default time.
pub proof fn own_queries_go_to_everyone<I, A, G>(
    m: Machine<I, A, G>,
    local: Node<I, A>,
    q: QueryMessage<I, A>,
    op: KeyRequestOperation,
    payload: Bytes,
)
    requires
        m.answers_key_query(local, op, Some(payload), Ok(q)),
    ensures
        !(m.state is Shutdown),
        q.ltime.0 == m.query_clock,
        q.from == local,
        q.filters@.len() == 0,
        !q.flags.ack,
        !q.flags.no_broadcast,
        q.relay_factor == 0,
        q.timeout == queries::default_timeout(
            m.states.dom().len(),
            m.opts.query_timeout_mult,
        ) as u64,
        q.name@ == queries::key_query_name(op),
        octets::octets(q.payload) == octets::octets(payload),
{
}

/// A wish for an operation on keys is refused if the request could not be encoded, and by a
/// machine that was shut down; otherwise it is granted.
pub proof fn key_queries_are_answered<I, A, G>(
    m: Machine<I, A, G>,
    local: Node<I, A>,
    op: KeyRequestOperation,
    payload: Bytes,
    answer: Result<QueryMessage<I, A>, Error>,
)
    ensures
        m.answers_key_query(local, op, None, answer) <==> answer == Err::<
            QueryMessage<I, A>,
            Error,
        >(Error::UserEventEncode),
        m.state is Shutdown ==> (m.answers_key_query(local, op, Some(payload), answer) <==> answer
            == Err::<QueryMessage<I, A>, Error>(Error::Shutdown)),
        !(m.state is Shutdown) && m.answers_key_query(local, op, Some(payload), answer)
            ==> answer is Ok,
{
}

/// A query that goes out is put on the second tier and waits for responses until its timeout
/// has passed, last among those that wait, with nothing counted yet. One about keys notes how
/// many members there are. A frame that could not be made, or is too large, is refused.
pub proof fn issued_queries_wait<I: Id, A, G>(
    m: Machine<I, A, G>,
    local: Node<I, A>,
    q: QueryMessage<I, A>,
    purpose: QueryPurpose,
    request: Request<I>,
    accepted: bool,
    targeted: bool,
    frame: Bytes,
    ack_frame: Option<Bytes>,
    draws: Seq<usize>,
    now: Instant,
)
    requires
        now + q.timeout <= u64::MAX,
        m.states.dom().len() <= usize::MAX,
        octets::octets(frame).len() <= usize::MAX,
    ensures
        ({
            let after = m.issuing(
                local,
                q,
                purpose,
                request,
                accepted,
                targeted,
                frame,
                ack_frame,
                draws,
                now,
            );
            let p = after.pending.last();
            let waiting = Machine { pending: m.pending.push(p), drain_now: now, ..m };
            let alone = waiting.after_query(
                local,
                q,
                QueryOrigin::Local,
                request,
                accepted,
                targeted,
                ack_frame,
                draws,
            );
            &&& after == (Machine { actions: after.actions, ..alone })
            &&& after.pending == m.pending.push(p)
            &&& p.kind == purpose
            &&& p.deadline == now + q.timeout
            &&& p.query_id == (QueryId { ltime: q.ltime, id: q.id })
            &&& p.request_ack == q.flags.ack
            &&& p.responses.len() == 0
            &&& p.acks.len() == 0
            &&& p.conflict_matching == 0
            &&& purpose is Key ==> p.num_nodes == m.states.dom().len()
            &&& purpose is Key ==> (p.tally matches Some(t) && t == Tally::<I>::empty())
            &&& !(purpose is Key) ==> p.tally is None
            &&& after.drain_now == now
            &&& after.actions == alone.actions.push(
                Action::Broadcast { rank: 1, frame: Frame::Ready(frame) },
            )
            &&& m.issue_verdict(q, None) == Err::<QueryId, Error>(Error::UserEventEncode)
            &&& octets::octets(frame).len() <= m.opts.query_size_limit ==> m.issue_verdict(
                q,
                Some(frame),
            ) == Ok::<QueryId, Error>(QueryId { ltime: q.ltime, id: q.id })
            &&& octets::octets(frame).len() > m.opts.query_size_limit ==> (m.issue_verdict(
                q,
                Some(frame),
            ) matches Err(Error::QueryTooLarge(n, limit)) && n == octets::octets(frame).len()
                && limit == m.opts.query_size_limit)
        }),
{
}

/// Who relays is drawn for a query exactly if it is new and for this node, asks for an
/// acknowledgement that could be made and fits, and for relays of which there are enough. For
/// a packet nothing is drawn unless it is such a query from end to end.
pub proof fn relays_are_drawn_if_asked_for<I: Id, A, G>(
    m: Machine<I, A, G>,
    c: Coordinator<I, A>,
    q: QueryMessage<I, A>,
    packet: Packet<I, A>,
    origin: QueryOrigin,
    request: Request<I>,
    targeted: bool,
    frame: Bytes,
)
    ensures
        m.draws_for_query(q, origin, request, true, targeted, Some(frame)) <==> {
            &&& m.understands(q, request, true)
            &&& m.has_room(origin)
            &&& m.is_new_query(q)
            &&& targeted
            &&& q.flags.ack
            &&& q.relay_factor > 0
            &&& m.states.dom().len() > q.relay_factor
            &&& octets::octets(frame).len() <= m.opts.query_response_size_limit
        },
        !m.draws_for_query(q, origin, request, true, targeted, None),
        m.draws_for_packet(c, packet) <==> {
            let len = octets::octets(packet.data).len();
            &&& packet.decoded matches Some((AnyMessage::Query(x), n))
            &&& n == len
            &&& len <= m.opts.query_size_limit
            &&& !(packet.header == Some(MessageType::UserEvent) && len
                > m.opts.max_user_event_size)
            &&& forall|i: int|
                0 <= i < x.filters@.len() ==> lets_through(m, c.local.id, #[trigger] x.filters@[i])
            &&& m.draws_for_query(
                x,
                QueryOrigin::Inbound,
                queries::request_of(x.name@, octets::octets(x.payload), packet.nested),
                pattern::all_compile(x.filters@),
                true,
                packet.ack_frame,
            )
        },
        !m.draws_for_query(q, origin, request, false, targeted, Some(frame)),
{
    if let Some((AnyMessage::Query(x), _)) = packet.decoded {
        if x.filters@.len() > 0 {
            every_filter_must_pass(m, c.local.id, x.filters@, x.filters@[0]);
        }
    }
}

/// Each draw decides who comes next: the node that then stands at the drawn place. Those that
/// were drawn before stay. Those that can relay are drawn from in the order of their ids.
pub proof fn draws_decide_who_relays<I: Id, A, G>(
    m: Machine<I, A, G>,
    local: I,
    draws: Seq<usize>,
    k: nat,
    i: int,
)
    requires
        k < draws.len(),
        k <= draws[k as int],
        draws[k as int] < m.relay_candidates(local).len(),
        0 <= i < k,
    ensures
        ({
            let all = m.relay_candidates(local);
            let before = relay::shuffled(all, draws, k);
            let after = relay::shuffled(all, draws, k + 1);
            &&& after[k as int] == before[draws[k as int] as int]
            &&& after[i] == before[i]
            &&& relay::shuffled(all, draws, 0) == all
        }),
        m.relay_candidates(local) == vecmap::in_wire_order(m.states.dom()).filter(
            |id: I| id != local && m.states[id].member.status is Alive,
        ),
{
    relay::shuffle_keeps(m.relay_candidates(local), draws, k);
    able_are_picked(vecmap::in_wire_order(m.states.dom()), m.states, local);
}

proof fn able_are_picked<I, A>(list: Seq<I>, states: Map<I, MemberState<I, A>>, local: I)
    ensures
        relay::able(list, states, local) == list.filter(
            |id: I| id != local && states[id].member.status is Alive,
        ),
    decreases list.len(),
{
    reveal(Seq::filter);
    if list.len() > 0 {
        able_are_picked(list.drop_last(), states, local);
    }
}

} // verus!
