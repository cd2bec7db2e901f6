//! Queries: how they are asked, and how those of others are taken in.

use crate::action::{Action, Coordinator, Frame};
use crate::clock;
use crate::clock::{ltime_is_acceptable, witness};
use crate::endpoint::relay;
use crate::endpoint::{Endpoint, Machine};
use crate::event::{Event, KeyRequest, KeyRequestOperation, QueryEvent, Report};
use crate::filter::{Filter, TagFilter};
use crate::id::{Id, Value};
use crate::members::list_contains;
use crate::octets;
use crate::octets::{as_slice, bytes_len, from_vec, share, str_eq};
use crate::pattern;
use crate::pattern::{filters_compile, search};
use crate::query::{QueryId, QueryOrigin, ReceivedQuery, MAX_QUERY_TIMEOUT, MAX_RECEIVED_QUERIES};
use crate::time;
use crate::time::{add_duration, Duration, Instant};
use crate::typed;
use crate::typed::{
    AnyMessage, ConflictResponseMessage, Node, QueryFlag, QueryMessage, QueryResponseMessage,
    SecretKey,
};
use crate::vecmap::VecMap;
use bytes::Bytes;
use vstd::prelude::*;

verus! {

/// How many digits it takes to count to `m`: the least power of ten that is not
/// below it.
pub open spec fn ceil_log10(m: nat) -> nat
    decreases m,
{
    if m <= 1 {
        0
    } else {
        1 + ceil_log10((m + 9) / 10)
    }
}

/// A power of ten.
pub open spec fn tens(k: nat) -> nat
    decreases k,
{
    if k == 0 {
        1
    } else {
        10 * tens((k - 1) as nat)
    }
}

/// [`ceil_log10`] is the least exponent of a power of ten that is not below `m`.
pub proof fn ceil_log10_is_least(m: nat, k: nat)
    ensures
        m <= tens(k) <==> ceil_log10(m) <= k,
    decreases m,
{
    if m <= 1 {
        tens_is_positive(k);
    } else if k > 0 {
        ceil_log10_is_least((m + 9) / 10, (k - 1) as nat);
        assert(m <= 10 * tens((k - 1) as nat) <==> (m + 9) / 10 <= tens((k - 1) as nat));
    }
}

proof fn tens_is_positive(k: nat)
    ensures
        tens(k) >= 1,
    decreases k,
{
    if k > 0 {
        tens_is_positive((k - 1) as nat);
    }
}

/// How long a response is of use where nothing else was said: it grows with the
/// logarithm of the number of members.
pub open spec fn default_timeout(members: nat, mult: u32) -> nat {
    let digits = ceil_log10(members + 1);
    200_000_000 * (mult as nat) * if digits > 1 {
        digits
    } else {
        1
    }
}

/// The queries whose deadline has not passed.
pub open spec fn live_only<A>(
    received: Map<QueryId, ReceivedQuery<A>>,
    now: Instant,
) -> Map<QueryId, ReceivedQuery<A>> {
    Map::new(
        |q: QueryId| received.dom().contains(q) && now <= received[q].deadline,
        |q: QueryId| received[q],
    )
}

/// What a query asks of the machine itself.
pub enum Request<I> {
    /// Nothing: it is for the application.
    Plain,
    /// Whom it knows under an id.
    Conflict(I),
    /// An operation on keys.
    Key(KeyRequestOperation, Option<SecretKey>),
    /// Nothing that can be understood.
    Malformed,
}

/// The operation on keys that the name of a query stands for.
pub open spec fn key_operation(name: Seq<char>) -> Option<KeyRequestOperation> {
    if name == "_serf_install_key"@ {
        Some(KeyRequestOperation::Install)
    } else if name == "_serf_use_key"@ {
        Some(KeyRequestOperation::Use)
    } else if name == "_serf_remove_key"@ {
        Some(KeyRequestOperation::Remove)
    } else if name == "_serf_list_keys"@ {
        Some(KeyRequestOperation::List)
    } else {
        None
    }
}

/// The name of the query for an operation on keys.
pub open spec fn key_query_name(op: KeyRequestOperation) -> Seq<char> {
    match op {
        KeyRequestOperation::Install => "_serf_install_key"@,
        KeyRequestOperation::Use => "_serf_use_key"@,
        KeyRequestOperation::Remove => "_serf_remove_key"@,
        KeyRequestOperation::List => "_serf_list_keys"@,
    }
}

/// The name of a query for an operation on keys stands for that operation.
pub proof fn key_query_names_stand_for_operations(op: KeyRequestOperation)
    ensures
        key_operation(key_query_name(op)) == Some(op),
        key_query_name(op) != "_serf_conflict"@,
{
    reveal_strlit("_serf_install_key");
    reveal_strlit("_serf_use_key");
    reveal_strlit("_serf_remove_key");
    reveal_strlit("_serf_list_keys");
    reveal_strlit("_serf_conflict");
    assert("_serf_install_key"@[6] == 'i');
    assert("_serf_use_key"@[6] == 'u');
    assert("_serf_remove_key"@[6] == 'r');
    assert("_serf_list_keys"@[6] == 'l');
    assert("_serf_conflict"@[6] == 'c');
}

/// What a query asks of the machine itself, where `nested` is the message at the head
/// of its payload and how many bytes it takes. It must take all of the payload.
pub open spec fn request_of<I: Id, A>(
    name: Seq<char>,
    payload: Seq<u8>,
    nested: Option<(AnyMessage<I, A>, usize)>,
) -> Request<I> {
    if name == "_serf_conflict"@ {
        match I::unwire(payload) {
            Ok(v) => if v.0 == payload.len() {
                Request::Conflict(v.1)
            } else {
                Request::Malformed
            },
            Err(_) => Request::Malformed,
        }
    } else {
        match key_operation(name) {
            Some(op) => match nested {
                Some((AnyMessage::KeyRequest(m), consumed)) => if consumed == payload.len()
                    && op.spec_has_key() == m.key is Some {
                    Request::Key(op, m.key)
                } else {
                    Request::Malformed
                },
                _ => Request::Malformed,
            },
            None => Request::Plain,
        }
    }
}

/// Which query a message is.
pub open spec fn query_id_of<I, A>(msg: QueryMessage<I, A>) -> QueryId {
    QueryId { ltime: msg.ltime, id: msg.id }
}

impl<I, A, G> Machine<I, A, G> {
    /// The tags of the local node; none before it is a member.
    pub open spec fn local_tags(self, local: I) -> Seq<(String, String)> {
        if self.knows(local) {
            self.states[local].member.tags.entries@
        } else {
            Seq::empty()
        }
    }

    /// Whether the local node passes a tag filter: it has the tag and, where there is
    /// an expression, the value of the tag matches it.
    pub open spec fn passes_tag(self, local: I, f: TagFilter) -> bool {
        match typed::tag_value(self.local_tags(local), f.tag@) {
            Some(value) => f.expr matches Some(e) ==> pattern::compiles(e@) && pattern::finds(
                e@,
                value,
            ),
            None => false,
        }
    }

    /// Whether the local node passes a filter.
    pub open spec fn passes(self, local: I, filter: Filter<I>) -> bool {
        match filter {
            Filter::Id(ids) => ids@.contains(local),
            Filter::Tag(f) => self.passes_tag(local, f),
        }
    }

    /// Whether a query with these filters is for the local node.
    pub open spec fn targeted(self, local: I, filters: Seq<Filter<I>>) -> bool {
        forall|i: int| 0 <= i < filters.len() ==> self.passes(local, #[trigger] filters[i])
    }

    /// The machine without the received queries whose deadline has passed.
    pub open spec fn pruned(self, now: Instant) -> Self {
        Machine { received: live_only(self.received, now), ..self }
    }

    /// The machine that made room for a query from a peer.
    pub open spec fn making_room(self, origin: QueryOrigin) -> Self {
        if origin is Inbound {
            self.pruned(self.drain_now)
        } else {
            self
        }
    }

    /// Whether there is room for a query. Queries of this node are not limited.
    pub open spec fn has_room(self, origin: QueryOrigin) -> bool {
        origin is Inbound ==> live_only(self.received, self.drain_now).dom().len()
            < MAX_RECEIVED_QUERIES
    }

    /// Whether a query can be understood: its time is in range, what it asks of the
    /// machine is well formed, and the expressions in its filters are accepted.
    pub open spec fn understands(
        self,
        msg: QueryMessage<I, A>,
        request: Request<I>,
        accepted: bool,
    ) -> bool {
        clock::acceptable(msg.ltime.0) && !(request is Malformed) && accepted
    }

    /// Whether a query was not seen before.
    pub open spec fn is_new_query(self, msg: QueryMessage<I, A>) -> bool {
        self.seen_queries.admits(
            clock::witnessed(self.query_clock, msg.ltime.0),
            msg.ltime.0,
            msg.id,
        )
    }

    /// Whether a query is to be passed on. That it is not for the local node is no
    /// reason not to.
    pub open spec fn passes_query_on(
        self,
        msg: QueryMessage<I, A>,
        origin: QueryOrigin,
        request: Request<I>,
        accepted: bool,
    ) -> bool {
        &&& self.understands(msg, request, accepted)
        &&& self.has_room(origin)
        &&& self.is_new_query(msg)
        &&& !msg.flags.no_broadcast
    }

    /// Until when a response to a query is of use.
    pub open spec fn response_deadline(self, msg: QueryMessage<I, A>) -> Instant {
        time::later(
            self.drain_now,
            if msg.timeout <= MAX_QUERY_TIMEOUT {
                msg.timeout
            } else {
                MAX_QUERY_TIMEOUT
            },
        )
    }

    /// The machine that tells whom it knows under an id. The local node does not vote
    /// on itself.
    pub open spec fn answering_conflict(
        self,
        local: Node<I, A>,
        msg: QueryMessage<I, A>,
        id: I,
    ) -> Self {
        if id == local.id || !self.knows(id) {
            self
        } else {
            self.asking(
                Action::Send {
                    to: msg.from.addr,
                    frame: Frame::Answer {
                        ltime: msg.ltime,
                        id: msg.id,
                        from: local,
                        message: AnyMessage::ConflictResponse(
                            ConflictResponseMessage { member: self.states[id].member.node },
                        ),
                    },
                },
            )
        }
    }
}

impl<I: Id, A, G> Machine<I, A, G> {
    /// The machine that acknowledges a query, where that is asked for, and
    /// `ack_frame` is the encoded acknowledgement.
    pub open spec fn acknowledging(
        self,
        local: Node<I, A>,
        msg: QueryMessage<I, A>,
        ack_frame: Option<Bytes>,
        draws: Seq<usize>,
    ) -> Self {
        match ack_frame {
            Some(frame) if msg.flags.ack => self.asking(
                Action::Send { to: msg.from.addr, frame: Frame::Ready(frame) },
            ).relaying(local.id, msg.from, frame, msg.relay_factor, draws),
            _ => self,
        }
    }

    /// The machine after a new query that is for the local node.
    pub open spec fn accepting(
        self,
        local: Node<I, A>,
        msg: QueryMessage<I, A>,
        request: Request<I>,
        ack_frame: Option<Bytes>,
        draws: Seq<usize>,
    ) -> Self {
        let deadline = self.response_deadline(msg);
        let kept = Machine {
            received: self.received.insert(
                query_id_of(msg),
                ReceivedQuery { from: msg.from.addr, deadline },
            ),
            ..self
        }.acknowledging(local, msg, ack_frame, draws);
        match request {
            Request::Conflict(id) => Machine {
                received: kept.received.remove(query_id_of(msg)),
                ..kept
            }.answering_conflict(local, msg, id),
            Request::Key(op, key) => kept.reporting(
                Report::KeyRequest(
                    KeyRequest {
                        op,
                        key,
                        id: msg.id,
                        ltime: msg.ltime,
                        from: msg.from,
                        relay_factor: msg.relay_factor,
                        deadline,
                    },
                ),
            ),
            _ => kept.reporting(
                Report::Query(
                    QueryEvent {
                        id: msg.id,
                        ltime: msg.ltime,
                        from: msg.from,
                        name: msg.name,
                        payload: msg.payload,
                        relay_factor: msg.relay_factor,
                        deadline,
                    },
                ),
            ),
        }
    }

    /// Whether a query is taken: it is understood, there is room for it, and it is new.
    pub open spec fn admits_query(
        self,
        msg: QueryMessage<I, A>,
        origin: QueryOrigin,
        understood: bool,
    ) -> bool {
        understood && self.has_room(origin) && self.is_new_query(msg)
    }

    /// The machine after it decided whether to take a query.
    pub open spec fn admitting(
        self,
        msg: QueryMessage<I, A>,
        origin: QueryOrigin,
        understood: bool,
    ) -> Self {
        let roomy = self.making_room(origin);
        let seen = Machine {
            query_clock: clock::witnessed(self.query_clock, msg.ltime.0),
            ..roomy
        };
        if !understood {
            self
        } else if !self.has_room(origin) {
            roomy
        } else if !self.is_new_query(msg) {
            seen
        } else {
            Machine {
                seen_queries: self.seen_queries.recorded(msg.ltime.0, msg.id),
                dirty: true,
                ..seen
            }
        }
    }

    /// Whether it is drawn who relays the acknowledgement of a query: one that is taken,
    /// is for the local node, and asks for that.
    pub open spec fn draws_for_query(
        self,
        msg: QueryMessage<I, A>,
        origin: QueryOrigin,
        request: Request<I>,
        accepted: bool,
        targeted: bool,
        ack_frame: Option<Bytes>,
    ) -> bool {
        &&& self.admits_query(msg, origin, self.understands(msg, request, accepted))
        &&& targeted
        &&& msg.flags.ack
        &&& ack_frame matches Some(frame) && self.draws_relays(frame, msg.relay_factor)
    }

    /// The machine after a query. One that cannot be understood changes nothing; one
    /// for which there is no room is dropped; one that was seen advances the query
    /// clock only; one that is not for the local node is remembered only.
    pub open spec fn after_query(
        self,
        local: Node<I, A>,
        msg: QueryMessage<I, A>,
        origin: QueryOrigin,
        request: Request<I>,
        accepted: bool,
        targeted: bool,
        ack_frame: Option<Bytes>,
        draws: Seq<usize>,
    ) -> Self {
        let understood = self.understands(msg, request, accepted);
        let m = self.admitting(msg, origin, understood);
        if targeted && self.admits_query(msg, origin, understood) {
            m.accepting(local, msg, request, ack_frame, draws)
        } else {
            m
        }
    }
}

fn request_in<I: Id, A>(
    name: &String,
    payload: &Bytes,
    nested: Option<(AnyMessage<I, A>, usize)>,
) -> (r: Request<I>)
    ensures
        r == request_of(name@, octets::octets(*payload), nested),
{
    let n = name.as_str();
    if str_eq(n, "_serf_conflict") {
        return match I::decode(as_slice(payload)) {
            Ok(v) => if v.0 == bytes_len(payload) {
                Request::Conflict(v.1)
            } else {
                Request::Malformed
            },
            Err(_) => Request::Malformed,
        };
    }
    let op = if str_eq(n, "_serf_install_key") {
        KeyRequestOperation::Install
    } else if str_eq(n, "_serf_use_key") {
        KeyRequestOperation::Use
    } else if str_eq(n, "_serf_remove_key") {
        KeyRequestOperation::Remove
    } else if str_eq(n, "_serf_list_keys") {
        KeyRequestOperation::List
    } else {
        return Request::Plain;
    };
    match nested {
        Some((AnyMessage::KeyRequest(m), consumed)) => if consumed == bytes_len(payload)
            && op.has_key() == m.key.is_some() {
            Request::Key(op, m.key)
        } else {
            Request::Malformed
        },
        _ => Request::Malformed,
    }
}

/// Returns how long a response is of use where nothing else was said.
pub fn default_query_timeout(members: usize, mult: u32) -> (r: Duration)
    ensures
        r == default_timeout(members as nat, mult),
{
    let mut m: u128 = members as u128 + 1;
    let mut digits: u64 = 0;
    proof {
        reveal_with_fuel(tens, 21);
        ceil_log10_is_least((members + 1) as nat, 20);
    }
    while m > 1
        invariant
            1 <= m <= 0x1_0000_0000_0000_0000,
            digits + ceil_log10(m as nat) == ceil_log10((members + 1) as nat),
            ceil_log10((members + 1) as nat) <= 20,
        decreases m,
    {
        m = (m + 9) / 10;
        digits += 1;
    }
    let factor: u64 = if digits > 1 {
        digits
    } else {
        1
    };
    assert(200_000_000 * mult <= 858_993_459_000_000_000);
    assert(200_000_000 * mult * factor <= 858_993_459_000_000_000 * 20) by (nonlinear_arith)
        requires
            0 <= 200_000_000 * mult <= 858_993_459_000_000_000,
            0 <= factor <= 20,
    ;
    200_000_000 * mult as u64 * factor
}

fn drop_expired<A>(received: &mut VecMap<QueryId, ReceivedQuery<A>>, now: Instant)
    ensures
        final(received)@ == live_only(old(received)@, now),
{
    let ghost all = received@;
    let mut i: usize = 0;
    while i < received.len()
        invariant
            i <= received.keys().len(),
            all == old(received)@,
            forall|q: QueryId|
                #[trigger] received@.dom().contains(q) ==> all.dom().contains(q) && received@[q]
                    == all[q],
            forall|q: QueryId|
                #[trigger] all.dom().contains(q) && !received@.dom().contains(q) ==> now
                    > all[q].deadline,
            forall|j: int|
                0 <= j < i ==> now <= received@[#[trigger] received.keys()[j]].deadline,
        decreases received.keys().len() - i,
    {
        let ghost keys = received.keys();
        let expired = {
            let entry = received.entry_at(i);
            now > entry.1.deadline
        };
        if expired {
            received.remove_at(i);
            assert forall|j: int| 0 <= j < i implies now <= received@[#[trigger] received.keys()[
            j]].deadline by {
                assert(received.keys()[j] == keys[j]);
            }
        } else {
            i += 1;
        }
    }
    proof {
        assert forall|q: QueryId| #[trigger] received@.dom().contains(q) implies now
            <= received@[q].deadline by {
            let j = choose|j: int| 0 <= j < received.keys().len() && received.keys()[j] == q;
            assert(received.keys()[j] == q);
        }
    }
    assert(received@ =~= live_only(all, now));
}

impl<I: Id, A: Value, G> Endpoint<I, A, G> {
    /// Forgets the received queries whose deadline has passed.
    pub fn prune_expired_received_queries(&mut self, now: Instant)
        ensures
            final(self)@ == old(self)@.pruned(now),
    {
        drop_expired(&mut self.received_queries, now);
    }

    fn passes_tag(&self, local: &I, f: &TagFilter) -> (r: bool)
        ensures
            r == self@.passes_tag(*local, *f),
    {
        let value = match self.members.states.get(local) {
            Some(ms) => match ms.member.tags.get(f.tag.as_str()) {
                Some(v) => v,
                None => return false,
            },
            None => {
                assert(typed::tag_value(Seq::empty(), f.tag@) is None) by {
                    assert(forall|i: int| !typed::tagged(Seq::empty(), f.tag@, i));
                }
                return false;
            },
        };
        match &f.expr {
            Some(e) => match search(e.as_str(), value.as_str()) {
                Some(found) => found,
                None => false,
            },
            None => true,
        }
    }

    /// Returns `true` if a query with these filters is for the local node.
    pub fn should_process_query(&self, c: &Coordinator<I, A>, filters: &Vec<Filter<I>>) -> (r: bool)
        ensures
            r == self@.targeted(c.local.id, filters@),
    {
        let mut i: usize = 0;
        while i < filters.len()
            invariant
                i <= filters@.len(),
                forall|j: int|
                    0 <= j < i ==> self@.passes(c.local.id, #[trigger] filters@[j]),
            decreases filters@.len() - i,
        {
            let passed = match &filters[i] {
                Filter::Id(ids) => list_contains(ids, &c.local.id),
                Filter::Tag(f) => self.passes_tag(&c.local.id, f),
            };
            if !passed {
                assert(!self@.passes(c.local.id, filters@[i as int]));
                return false;
            }
            i += 1;
        }
        true
    }

    fn handle_conflict_query(&mut self, c: &Coordinator<I, A>, msg: &QueryMessage<I, A>, id: &I)
        ensures
            final(self)@ == old(self)@.answering_conflict(c.local, *msg, *id),
    {
        if id.same(&c.local.id) {
            return;
        }
        let member = match self.members.states.get(id) {
            Some(ms) => ms.member.node.dup(),
            None => return,
        };
        self.ask(
            Action::Send {
                to: msg.from.addr.dup(),
                frame: Frame::Answer {
                    ltime: msg.ltime,
                    id: msg.id,
                    from: c.local.dup(),
                    message: AnyMessage::ConflictResponse(ConflictResponseMessage { member }),
                },
            },
        );
    }

    fn accept_query(
        &mut self,
        c: &Coordinator<I, A>,
        msg: QueryMessage<I, A>,
        request: Request<I>,
        ack_frame: Option<Bytes>,
        draws: &Vec<usize>,
    )
        ensures
            final(self)@ == old(self)@.accepting(c.local, msg, request, ack_frame, draws@),
    {
        let timeout: Duration = if msg.timeout <= MAX_QUERY_TIMEOUT {
            msg.timeout
        } else {
            MAX_QUERY_TIMEOUT
        };
        let deadline: Instant = add_duration(self.drain_now, timeout);
        let query_id = QueryId { ltime: msg.ltime, id: msg.id };
        self.received_queries.insert(
            query_id,
            ReceivedQuery { from: msg.from.addr.dup(), deadline },
        );
        let ghost kept = self@;
        if msg.flags.ack {
            if let Some(frame) = &ack_frame {
                self.ask(
                    Action::Send { to: msg.from.addr.dup(), frame: Frame::Ready(share(frame)) },
                );
                self.relay_response(c, &msg.from, frame, msg.relay_factor, draws);
            }
        }
        assert(self@ =~= kept.acknowledging(c.local, msg, ack_frame, draws@));
        match request {
            Request::Conflict(id) => {
                let ghost acked = self@;
                self.received_queries.remove(&query_id);
                assert(self@ =~= Machine { received: acked.received.remove(query_id), ..acked });
                self.handle_conflict_query(c, &msg, &id);
            },
            Request::Key(op, key) => {
                self.report(
                    Event::KeyRequest(
                        KeyRequest {
                            op,
                            key,
                            id: msg.id,
                            ltime: msg.ltime,
                            from: msg.from,
                            relay_factor: msg.relay_factor,
                            deadline,
                        },
                    ),
                );
            },
            _ => {
                self.report(
                    Event::Query(
                        QueryEvent {
                            id: msg.id,
                            ltime: msg.ltime,
                            from: msg.from,
                            name: msg.name,
                            payload: msg.payload,
                            relay_factor: msg.relay_factor,
                            deadline,
                        },
                    ),
                );
            },
        }
    }

    fn admit_query(
        &mut self,
        msg: &QueryMessage<I, A>,
        origin: QueryOrigin,
        understood: bool,
    ) -> (r: bool)
        requires
            understood ==> clock::acceptable(msg.ltime.0),
        ensures
            r == old(self)@.admits_query(*msg, origin, understood),
            final(self)@ == old(self)@.admitting(*msg, origin, understood),
    {
        if !understood {
            return false;
        }
        if matches!(origin, QueryOrigin::Inbound) {
            let now: Instant = self.drain_now;
            self.prune_expired_received_queries(now);
            if self.received_queries.len() >= MAX_RECEIVED_QUERIES {
                return false;
            }
        }
        witness(&mut self.query_clock, msg.ltime.0);
        let cur_time: u64 = self.query_clock;
        if !self.query_buffer.witness_query(cur_time, msg.ltime.0, msg.id) {
            return false;
        }
        self.mark_local_state_dirty();
        true
    }

    /// Takes in a query, where it is known what it asks of the machine, whether the
    /// expressions in its filters are accepted, whether it is for the local node, what
    /// the encoded acknowledgement is, and what was drawn for relays. Returns `true`
    /// if it is to be passed on.
    pub fn handle_query_given(
        &mut self,
        c: &Coordinator<I, A>,
        msg: QueryMessage<I, A>,
        origin: QueryOrigin,
        request: Request<I>,
        accepted: bool,
        targeted: bool,
        ack_frame: Option<Bytes>,
        draws: &Vec<usize>,
    ) -> (r: bool)
        ensures
            r == old(self)@.passes_query_on(msg, origin, request, accepted),
            final(self)@ == old(self)@.after_query(
                c.local,
                msg,
                origin,
                request,
                accepted,
                targeted,
                ack_frame,
                draws@,
            ),
    {
        let understood = ltime_is_acceptable(msg.ltime.0) && !matches!(request, Request::Malformed)
            && accepted;
        if !self.admit_query(&msg, origin, understood) {
            return false;
        }
        let rebroadcast = !msg.flags.no_broadcast;
        if targeted {
            self.accept_query(c, msg, request, ack_frame, draws);
        }
        rebroadcast
    }

    /// Takes in a query, where `nested` is the message at the head of its payload and
    /// how many bytes it takes, and `ack_frame` is the encoded acknowledgement.
    /// Returns `true` if it is to be passed on. Which nodes are to relay the
    /// acknowledgement is drawn, where it is relayed.
    pub fn handle_query(
        &mut self,
        c: &Coordinator<I, A>,
        msg: QueryMessage<I, A>,
        origin: QueryOrigin,
        nested: Option<(AnyMessage<I, A>, usize)>,
        ack_frame: Option<Bytes>,
    ) -> (r: bool)
        ensures
            r == old(self)@.passes_query_on(
                msg,
                origin,
                request_of(msg.name@, octets::octets(msg.payload), nested),
                pattern::all_compile(msg.filters@),
            ),
            exists|draws: Seq<usize>|
                (msg.flags.ack ==> old(self)@.may_draw(c.local.id, msg.relay_factor, draws))
                    && final(self)@ == (#[trigger] old(self)@.after_query(
                    c.local,
                    msg,
                    origin,
                    request_of(msg.name@, octets::octets(msg.payload), nested),
                    pattern::all_compile(msg.filters@),
                    old(self)@.targeted(c.local.id, msg.filters@),
                    ack_frame,
                    draws,
                )).drawing(final(self)@.rng),
            !old(self)@.draws_for_query(
                msg,
                origin,
                request_of(msg.name@, octets::octets(msg.payload), nested),
                pattern::all_compile(msg.filters@),
                old(self)@.targeted(c.local.id, msg.filters@),
                ack_frame,
            ) ==> final(self)@.rng == old(self)@.rng,
    {
        let ghost before = self@;
        let ghost whole = msg;
        let request = request_in(&msg.name, &msg.payload, nested);
        let ghost asked = request;
        let accepted = filters_compile(&msg.filters);
        let targeted = self.should_process_query(c, &msg.filters);
        let understood = ltime_is_acceptable(msg.ltime.0) && !matches!(request, Request::Malformed)
            && accepted;
        let ghost none = relay::draws_exist(before, c.local.id, msg.relay_factor);
        if !self.admit_query(&msg, origin, understood) {
            assert(self@ == before.after_query(
                c.local,
                whole,
                origin,
                asked,
                accepted,
                targeted,
                ack_frame,
                none,
            ));
            return false;
        }
        let rebroadcast = !msg.flags.no_broadcast;
        let ghost admitted = self@;
        let ghost mut drawn = none;
        if targeted {
            let draws = match &ack_frame {
                Some(frame) if msg.flags.ack => self.draw_relays(c, frame, msg.relay_factor),
                _ => Vec::new(),
            };
            proof {
                if msg.flags.ack && ack_frame is Some && admitted.relay_fits(ack_frame->0) {
                    drawn = draws@;
                }
                assert(admitted.may_draw(c.local.id, msg.relay_factor, drawn) == before.may_draw(
                    c.local.id,
                    msg.relay_factor,
                    drawn,
                ));
                assert(admitted.accepting(c.local, whole, asked, ack_frame, draws@)
                    == admitted.accepting(c.local, whole, asked, ack_frame, drawn));
                assert(self@.accepting(c.local, whole, asked, ack_frame, draws@)
                    == admitted.accepting(c.local, whole, asked, ack_frame, draws@).drawing(
                    self@.rng,
                ));
            }
            self.accept_query(c, msg, request, ack_frame, &draws);
        }
        assert(self@ == before.after_query(
            c.local,
            whole,
            origin,
            asked,
            accepted,
            targeted,
            ack_frame,
            drawn,
        ).drawing(self@.rng));
        rebroadcast
    }

    /// Returns the acknowledgement of a query, for the driver to encode.
    pub fn acknowledgement(c: &Coordinator<I, A>, msg: &QueryMessage<I, A>) -> (r:
        QueryResponseMessage<I, A>)
        ensures
            r.ltime == msg.ltime,
            r.id == msg.id,
            r.from == c.local,
            r.flags == QueryFlag::spec_ack(),
            octets::octets(r.payload) == Seq::<u8>::empty(),
    {
        QueryResponseMessage {
            ltime: msg.ltime,
            id: msg.id,
            from: c.local.dup(),
            flags: QueryFlag::ack_only(),
            payload: from_vec(Vec::new()),
        }
    }
}

} // verus!
