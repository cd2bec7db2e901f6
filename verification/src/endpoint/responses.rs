//! Responses: how this node responds, how it takes in the responses of others, and
//! what becomes of a query when its deadline passes.
//!
//! To respond takes three steps. The first makes the response, the driver encodes it;
//! the second says whether and where it may be sent, the driver sends it; the third
//! takes in whether it was sent. A response is refused first for its size, then because
//! one was given, then because it comes too late.

use crate::action::Coordinator;
use crate::clock::LamportTime;
use crate::endpoint::{membership, relay};
use crate::endpoint::{Endpoint, Machine};
use crate::event::{
    Event, KeyOutcome, KeyRequest, KeyResponse, QueryAck, QueryEvent,
    QueryResponse, Report,
};
use crate::id::{Id, Value};
use crate::members::{list_contains, SerfState};
use crate::octets;
use crate::octets::bytes_len;
use crate::query;
use crate::query::{
    Error, KeyResponseTally, Pending, PendingQuery, QueryId, QueryPurpose, Tally,
};
use crate::time::Instant;
use crate::typed::{
    AnyMessage, ConflictResponseMessage, KeyResponseMessage, Node, QueryFlag, QueryResponseMessage,
    SecretKey,
};
use crate::vecmap::VecMap;
use bytes::Bytes;
use vstd::prelude::*;

verus! {

/// Counts with one more for a key.
pub open spec fn counting(counts: Map<SecretKey, usize>, key: SecretKey) -> Map<SecretKey, usize> {
    counts.insert(
        key,
        if counts.dom().contains(key) {
            query::one_more(counts[key])
        } else {
            1
        },
    )
}

/// Counts with one more for each key in a list.
pub open spec fn counting_all(counts: Map<SecretKey, usize>, keys: Seq<SecretKey>) -> Map<
    SecretKey,
    usize,
>
    decreases keys.len(),
{
    if keys.len() == 0 {
        counts
    } else {
        counting(counting_all(counts, keys.drop_last()), keys.last())
    }
}

impl<I> Tally<I> {
    /// The tally with one more response about keys.
    pub open spec fn adding(self, from: I, msg: KeyResponseMessage) -> Self {
        Tally {
            num_err: if msg.result {
                self.num_err
            } else {
                query::one_more(self.num_err)
            },
            messages: if !msg.result && msg.message@.len() > 0 {
                self.messages.insert(from, msg.message)
            } else {
                self.messages
            },
            keys: counting_all(self.keys, msg.keys@),
            primary_keys: match msg.primary_key {
                Some(k) => counting(self.primary_keys, k),
                None => self.primary_keys,
            },
        }
    }
}

impl<I> Pending<I> {
    /// The query with one more response.
    pub open spec fn with_response(self, from: I) -> Self {
        Pending { responses: self.responses.push(from), ..self }
    }

    /// The query with one more vote, for this node or against it.
    pub open spec fn with_vote(self, from: I, agrees: bool) -> Self {
        Pending {
            conflict_matching: if agrees {
                query::one_more(self.conflict_matching)
            } else {
                self.conflict_matching
            },
            ..self.with_response(from)
        }
    }

    /// The query with one more response about keys.
    pub open spec fn with_keys(self, from: I, msg: KeyResponseMessage) -> Self {
        Pending {
            tally: match self.tally {
                Some(t) => Some(t.adding(from, msg)),
                None => None,
            },
            ..self.with_response(from)
        }
    }

    /// Whether the vote on the id of this node is lost: there were votes, and no
    /// majority of them was for this node.
    pub open spec fn is_lost(self) -> bool {
        self.responses.len() > 0 && self.conflict_matching < self.responses.len() / 2 + 1
    }

    /// What the responses about keys came to.
    pub open spec fn key_outcome(self) -> KeyOutcome<I> {
        let tally = match self.tally {
            Some(t) => t,
            None => Tally::empty(),
        };
        KeyOutcome {
            num_nodes: self.num_nodes as nat,
            num_resp: self.responses.len(),
            num_err: tally.num_err as nat,
            keys: tally.keys,
            primary_keys: tally.primary_keys,
            messages: tally.messages,
        }
    }
}

/// Whether the first query with the given id stands at `i`.
pub open spec fn is_query_at<I>(pending: Seq<Pending<I>>, id: QueryId, i: int) -> bool {
    &&& 0 <= i < pending.len()
    &&& pending[i].query_id == id
    &&& forall|j: int| 0 <= j < i ==> (#[trigger] pending[j]).query_id != id
}

/// Where the first query with the given id stands.
pub open spec fn query_at<I>(pending: Seq<Pending<I>>, id: QueryId) -> Option<int> {
    if exists|i: int| #[trigger] is_query_at(pending, id, i) {
        Some(choose|i: int| #[trigger] is_query_at(pending, id, i))
    } else {
        None
    }
}

/// Which query a response is to.
pub open spec fn response_to<I, A>(msg: QueryResponseMessage<I, A>) -> QueryId {
    QueryId { ltime: msg.ltime, id: msg.id }
}

impl<I, A, G> Machine<I, A, G> {
    /// What is answered to the wish to respond to a query with some bytes, if there are
    /// any: they may be the payload of the response, or all of its frame. First comes
    /// their size, then whether the query still waits.
    pub open spec fn respond_verdict(self, id: QueryId, bytes: Option<Bytes>) -> Result<(), Error> {
        let limit = self.opts.query_response_size_limit;
        if self.is_down() {
            Err(Error::Shutdown)
        } else if bytes matches Some(b) && octets::octets(b).len() > limit {
            Err(Error::RespondTooLarge(octets::octets(bytes->0).len() as usize, limit))
        } else if !self.received.dom().contains(id) {
            Err(Error::AlreadyResponded)
        } else if bytes is None {
            Err(Error::RespondEncode)
        } else {
            Ok(())
        }
    }

    /// The response to a query with the given payload, if there is one, or why there can
    /// be none.
    pub open spec fn response_made(
        self,
        local: Node<I, A>,
        ltime: LamportTime,
        id: u32,
        payload: Option<Bytes>,
    ) -> Result<QueryResponseMessage<I, A>, Error> {
        match self.respond_verdict(QueryId { ltime, id }, payload) {
            Err(e) => Err(e),
            Ok(_) => Ok(
                QueryResponseMessage {
                    ltime,
                    id,
                    from: local,
                    flags: QueryFlag::spec_empty(),
                    payload: payload->0,
                },
            ),
        }
    }

    /// Where a response may be sent, where `encoded` is its frame, if it could be
    /// encoded. The deadline comes last.
    pub open spec fn send_verdict(
        self,
        id: QueryId,
        encoded: Option<Bytes>,
        now: Instant,
    ) -> Result<A, Error> {
        match self.respond_verdict(id, encoded) {
            Err(e) => Err(e),
            Ok(_) => if now > self.received[id].deadline {
                Err(Error::RespondAfterDeadline)
            } else {
                Ok(self.received[id].from)
            },
        }
    }

    /// The machine that has responded to a query.
    pub open spec fn answered(self, id: QueryId) -> Self {
        Machine { received: self.received.remove(id), ..self }
    }

    /// The machine with a query that it asked changed.
    pub open spec fn with_pending(self, i: int, p: Pending<I>) -> Self {
        Machine { pending: self.pending.update(i, p), ..self }
    }

    /// The machine after a response to its query at `i`, where `nested` is the message
    /// at the head of the payload and how many bytes it takes. It must take all of the
    /// payload of a response to a query that the machine asked by itself.
    pub open spec fn counting_response(
        self,
        i: int,
        local: Node<I, A>,
        msg: QueryResponseMessage<I, A>,
        nested: Option<(AnyMessage<I, A>, usize)>,
    ) -> Self {
        let p = self.pending[i];
        match p.kind {
            QueryPurpose::App => self.with_pending(i, p.with_response(msg.from.id)).reporting(
                Report::QueryResponse(
                    QueryResponse { id: msg.id, from: msg.from, payload: msg.payload },
                ),
            ),
            QueryPurpose::Conflict => match nested {
                Some((AnyMessage::ConflictResponse(m), consumed)) if consumed == octets::octets(
                    msg.payload,
                ).len() => self.with_pending(
                    i,
                    p.with_vote(msg.from.id, m.member.addr == local.addr),
                ),
                _ => self,
            },
            QueryPurpose::Key => match nested {
                Some((AnyMessage::KeyResponse(m), consumed)) if consumed == octets::octets(
                    msg.payload,
                ).len() => self.with_pending(i, p.with_keys(msg.from.id, m)),
                _ => self,
            },
        }
    }

    /// The machine after a response or an acknowledgement. It counts once for each
    /// node, before the deadline only, and of members only where the machine asked by
    /// itself. Acknowledgements count where they were asked for.
    pub open spec fn after_response(
        self,
        local: Node<I, A>,
        msg: QueryResponseMessage<I, A>,
        nested: Option<(AnyMessage<I, A>, usize)>,
    ) -> Self {
        match query_at(self.pending, response_to(msg)) {
            None => self,
            Some(i) => {
                let p = self.pending[i];
                if self.drain_now > p.deadline {
                    self
                } else if msg.flags.ack {
                    if !p.request_ack || p.acks.contains(msg.from.id) {
                        self
                    } else {
                        self.with_pending(
                            i,
                            Pending { acks: p.acks.push(msg.from.id), ..p },
                        ).reporting(Report::QueryAck(QueryAck { id: msg.id, from: msg.from }))
                    }
                } else if !(p.kind is App) && !self.knows(msg.from.id) {
                    self
                } else if p.responses.contains(msg.from.id) {
                    self
                } else {
                    self.counting_response(i, local, msg, nested)
                }
            },
        }
    }

    /// The machine after it shut down: what was held back is dropped, and the shutdown
    /// is the last report.
    pub open spec fn shutting_down(self) -> Self {
        Machine {
            state: SerfState::Shutdown,
            batch: match self.batch {
                Some(b) => Some(b.emptied()),
                None => None,
            },
            backlog: match self.backlog {
                Some(b) => Some(b.emptied()),
                None => None,
            },
            ..self
        }.reporting(Report::Shutdown)
    }

    /// The machine after the deadline of a query passed.
    pub open spec fn closing(self, p: Pending<I>) -> Self {
        match p.kind {
            QueryPurpose::App => self,
            QueryPurpose::Conflict => if p.is_lost() {
                self.shutting_down()
            } else {
                self
            },
            QueryPurpose::Key => self.reporting(Report::KeyResponse(p.key_outcome())),
        }
    }

    /// The machine after the due queries from `i` on were closed. A shutdown ends it:
    /// nothing follows.
    pub open spec fn closing_due(self, i: int, now: Instant) -> Self
        decreases self.pending.len() - i,
        when 0 <= i
    {
        if i >= self.pending.len() {
            self
        } else if now >= self.pending[i].deadline {
            let m = Machine {
                pending: membership::swap_removed(self.pending, i),
                ..self
            }.closing(self.pending[i]);
            if m.is_down() {
                m
            } else {
                m.closing_due(i, now)
            }
        } else {
            self.closing_due(i + 1, now)
        }
    }
}

fn count_key(counts: &mut VecMap<SecretKey, usize>, key: SecretKey)
    ensures
        final(counts)@ == counting(old(counts)@, key),
{
    let n: usize = match counts.get(&key) {
        Some(n) => n.saturating_add(1),
        None => 1,
    };
    counts.insert(key, n);
}

impl<I: Value> KeyResponseTally<I> {
    fn add_response(&mut self, from: &I, msg: KeyResponseMessage)
        ensures
            final(self)@ == old(self)@.adding(*from, msg),
    {
        let ghost before = self@;
        let mut i: usize = 0;
        while i < msg.keys.len()
            invariant
                i <= msg.keys@.len(),
                self@ == (Tally {
                    keys: counting_all(before.keys, msg.keys@.take(i as int)),
                    ..before
                }),
            decreases msg.keys@.len() - i,
        {
            assert(msg.keys@.take(i + 1).drop_last() =~= msg.keys@.take(i as int));
            count_key(&mut self.keys, msg.keys[i]);
            i += 1;
        }
        assert(msg.keys@.take(i as int) =~= msg.keys@);
        if let Some(k) = msg.primary_key {
            count_key(&mut self.primary_keys, k);
        }
        if !msg.result {
            self.num_err = self.num_err.saturating_add(1);
            if msg.message.as_str().unicode_len() > 0 {
                self.messages.insert(from.dup(), msg.message);
            }
        }
    }
}

impl<I: Id, A: Value, G> Endpoint<I, A, G> {
    fn may_respond(&self, id: &QueryId, bytes: &Option<Bytes>) -> (r: Result<(), Error>)
        ensures
            r == self@.respond_verdict(*id, *bytes),
    {
        if let Err(e) = self.ensure_not_shutdown() {
            return Err(e);
        }
        if let Some(b) = bytes {
            let limit: usize = self.opts.query_response_size_limit;
            let n: usize = bytes_len(b);
            if n > limit {
                return Err(Error::RespondTooLarge(n, limit));
            }
        }
        if !self.received_queries.contains_key(id) {
            return Err(Error::AlreadyResponded);
        }
        match bytes {
            None => Err(Error::RespondEncode),
            Some(_) => Ok(()),
        }
    }

    fn response(
        &self,
        c: &Coordinator<I, A>,
        ltime: LamportTime,
        id: u32,
        payload: Option<Bytes>,
    ) -> (r: Result<QueryResponseMessage<I, A>, Error>)
        ensures
            r == self@.response_made(c.local, ltime, id, payload),
    {
        if let Err(e) = self.may_respond(&QueryId { ltime, id }, &payload) {
            return Err(e);
        }
        match payload {
            Some(payload) => Ok(
                QueryResponseMessage {
                    ltime,
                    id,
                    from: c.local.dup(),
                    flags: QueryFlag::empty(),
                    payload,
                },
            ),
            None => Err(Error::RespondEncode),
        }
    }

    /// Begins to respond to a query: makes the response, for the driver to encode and to
    /// hand to [`Endpoint::respond_inner`]. A payload that is too large is refused before
    /// anything else is looked at.
    pub fn respond(&self, c: &Coordinator<I, A>, token: &QueryEvent<I, A>, payload: Bytes) -> (r:
        Result<QueryResponseMessage<I, A>, Error>)
        ensures
            r == self@.response_made(c.local, token.ltime, token.id, Some(payload)),
    {
        self.response(c, token.ltime, token.id, Some(payload))
    }

    /// Begins to respond to a request about keys, where `payload` is the encoded message
    /// about keys, if it could be encoded. It goes the way of every other response.
    pub fn respond_key(
        &self,
        c: &Coordinator<I, A>,
        req: &KeyRequest<I, A>,
        payload: Option<Bytes>,
    ) -> (r: Result<QueryResponseMessage<I, A>, Error>)
        ensures
            r == self@.response_made(c.local, req.ltime, req.id, payload),
    {
        self.response(c, req.ltime, req.id, payload)
    }

    /// Says whether and where a response may be sent, where `encoded` is its frame, if it
    /// could be encoded.
    pub fn respond_inner(&self, query_id: &QueryId, encoded: &Option<Bytes>, now: Instant) -> (r:
        Result<A, Error>)
        ensures
            r == self@.send_verdict(*query_id, *encoded, now),
    {
        if let Err(e) = self.may_respond(query_id, encoded) {
            return Err(e);
        }
        match self.received_queries.get(query_id) {
            None => Err(Error::AlreadyResponded),
            Some(entry) => if now > entry.deadline {
                Err(Error::RespondAfterDeadline)
            } else {
                Ok(entry.from.dup())
            },
        }
    }

    /// Takes in whether a response was sent, where the draws for relays are given. One
    /// that was not may be tried again.
    pub fn response_sent_given(
        &mut self,
        c: &Coordinator<I, A>,
        query_id: &QueryId,
        querier: &Node<I, A>,
        relay_factor: u8,
        frame: &Bytes,
        sent: bool,
        draws: &Vec<usize>,
    ) -> (r: Result<(), Error>)
        ensures
            !sent ==> r == Err::<(), Error>(Error::RespondSend) && final(self)@ == old(self)@,
            sent ==> r is Ok && final(self)@ == old(self)@.answered(*query_id).relaying(
                c.local.id,
                *querier,
                *frame,
                relay_factor,
                draws@,
            ),
    {
        let ghost before = self@;
        if !sent {
            return Err(Error::RespondSend);
        }
        self.received_queries.remove(query_id);
        assert(self@ =~= before.answered(*query_id));
        self.relay_response(c, querier, frame, relay_factor, draws);
        Ok(())
    }

    /// Takes in whether a response was sent. Which nodes are to relay it is drawn.
    pub fn response_sent(
        &mut self,
        c: &Coordinator<I, A>,
        query_id: &QueryId,
        querier: &Node<I, A>,
        relay_factor: u8,
        frame: &Bytes,
        sent: bool,
    ) -> (r: Result<(), Error>)
        ensures
            !sent ==> r == Err::<(), Error>(Error::RespondSend) && final(self)@ == old(self)@,
            sent ==> r is Ok && exists|draws: Seq<usize>|
                old(self)@.may_draw(c.local.id, relay_factor, draws) && final(self)@ == (
                #[trigger] old(self)@.answered(*query_id).relaying(
                    c.local.id,
                    *querier,
                    *frame,
                    relay_factor,
                    draws,
                )).drawing(final(self)@.rng),
            !sent || !old(self)@.draws_relays(*frame, relay_factor) ==> final(self)@.rng
                == old(self)@.rng,
    {
        if !sent {
            return Err(Error::RespondSend);
        }
        let ghost before = self@;
        let draws = self.draw_relays(c, frame, relay_factor);
        let ghost drawn = if before.relay_fits(*frame) {
            draws@
        } else {
            relay::draws_exist(before, c.local.id, relay_factor)
        };
        let r = self.response_sent_given(c, query_id, querier, relay_factor, frame, sent, &draws);
        assert(self@ == before.answered(*query_id).relaying(
            c.local.id,
            *querier,
            *frame,
            relay_factor,
            drawn,
        ).drawing(self@.rng));
        r
    }

    fn find_pending(&self, id: &QueryId) -> (r: Option<usize>)
        ensures
            match r {
                Some(i) => i < self@.pending.len() && query_at(self@.pending, *id) == Some(
                    i as int,
                ),
                None => query_at(self@.pending, *id) is None,
            },
    {
        let mut i: usize = 0;
        while i < self.pending_queries.len()
            invariant
                i <= self.pending_queries@.len(),
                forall|j: int| 0 <= j < i ==> (#[trigger] self@.pending[j]).query_id != *id,
            decreases self.pending_queries@.len() - i,
        {
            if self.pending_queries[i].query_id.same(id) {
                proof {
                    let pending = self@.pending;
                    assert(is_query_at(pending, *id, i as int));
                    let k = choose|k: int| #[trigger] is_query_at(pending, *id, k);
                    if k < i {
                        assert(pending[k].query_id != *id);
                    }
                    if i < k {
                        assert(pending[i as int].query_id != *id);
                    }
                }
                return Some(i);
            }
            i += 1;
        }
        None
    }

    fn take_pending(&mut self, i: usize) -> (r: PendingQuery<I>)
        requires
            i < old(self)@.pending.len(),
        ensures
            r@ == old(self)@.pending[i as int],
            final(self)@ == (Machine {
                pending: membership::swap_removed(old(self)@.pending, i as int),
                ..old(self)@
            }),
    {
        let ghost before = self@;
        let r = self.pending_queries.swap_remove(i);
        assert(self@.pending =~= membership::swap_removed(before.pending, i as int));
        r
    }

    fn handle_conflict_response_fold(
        &mut self,
        c: &Coordinator<I, A>,
        i: usize,
        from: &I,
        msg: &ConflictResponseMessage<I, A>,
    )
        requires
            i < old(self)@.pending.len(),
        ensures
            final(self)@ == old(self)@.with_pending(
                i as int,
                old(self)@.pending[i as int].with_vote(*from, msg.member.addr == c.local.addr),
            ),
    {
        let ghost before = self@;
        let agrees = msg.member.addr.same(&c.local.addr);
        let p = &mut self.pending_queries[i];
        p.responses.push(from.dup());
        if agrees {
            p.conflict_matching = p.conflict_matching.saturating_add(1);
        }
        assert(self@ =~= before.with_pending(
            i as int,
            before.pending[i as int].with_vote(*from, agrees),
        ));
    }

    fn handle_key_response_fold(&mut self, i: usize, from: &I, msg: KeyResponseMessage)
        requires
            i < old(self)@.pending.len(),
        ensures
            final(self)@ == old(self)@.with_pending(
                i as int,
                old(self)@.pending[i as int].with_keys(*from, msg),
            ),
    {
        let ghost before = self@;
        let p = &mut self.pending_queries[i];
        p.responses.push(from.dup());
        if let Some(t) = &mut p.key_tally {
            t.add_response(from, msg);
        }
        assert(self@ =~= before.with_pending(
            i as int,
            before.pending[i as int].with_keys(*from, msg),
        ));
    }

    /// Takes in a response or an acknowledgement, where `nested` is the message at the
    /// head of the payload and how many bytes it takes.
    pub fn handle_query_response(
        &mut self,
        c: &Coordinator<I, A>,
        msg: QueryResponseMessage<I, A>,
        nested: Option<(AnyMessage<I, A>, usize)>,
    )
        ensures
            final(self)@ == old(self)@.after_response(c.local, msg, nested),
    {
        let ghost before = self@;
        let query_id = QueryId { ltime: msg.ltime, id: msg.id };
        let i: usize = match self.find_pending(&query_id) {
            Some(i) => i,
            None => return,
        };
        assert(self@.pending[i as int] == self.pending_queries@[i as int]@);
        if self.drain_now > self.pending_queries[i].deadline {
            return;
        }
        if msg.flags.ack {
            if !self.pending_queries[i].request_ack {
                return;
            }
            if list_contains(&self.pending_queries[i].acks, &msg.from.id) {
                return;
            }
            self.pending_queries[i].acks.push(msg.from.id.dup());
            assert(self@ =~= before.with_pending(
                i as int,
                Pending {
                    acks: before.pending[i as int].acks.push(msg.from.id),
                    ..before.pending[i as int]
                },
            ));
            self.report(Event::QueryAck(QueryAck { id: msg.id, from: msg.from }));
            return;
        }
        let kind = self.pending_queries[i].kind;
        if !matches!(kind, QueryPurpose::App) && !self.members.states.contains_key(&msg.from.id) {
            return;
        }
        if list_contains(&self.pending_queries[i].responses, &msg.from.id) {
            return;
        }
        match kind {
            QueryPurpose::App => {
                self.pending_queries[i].responses.push(msg.from.id.dup());
                assert(self@ =~= before.with_pending(
                    i as int,
                    before.pending[i as int].with_response(msg.from.id),
                ));
                self.report(
                    Event::QueryResponse(
                        QueryResponse { id: msg.id, from: msg.from, payload: msg.payload },
                    ),
                );
            },
            QueryPurpose::Conflict => match nested {
                Some((AnyMessage::ConflictResponse(m), consumed)) => {
                    if consumed == bytes_len(&msg.payload) {
                        self.handle_conflict_response_fold(c, i, &msg.from.id, &m);
                    }
                },
                _ => {},
            },
            QueryPurpose::Key => match nested {
                Some((AnyMessage::KeyResponse(m), consumed)) => {
                    if consumed == bytes_len(&msg.payload) {
                        self.handle_key_response_fold(i, &msg.from.id, m);
                    }
                },
                _ => {},
            },
        }
    }

    fn shut_down(&mut self)
        ensures
            final(self)@ == old(self)@.shutting_down(),
    {
        let ghost before = self@;
        if let Some(c) = &mut self.member_coalescer {
            c.reset();
        }
        if let Some(c) = &mut self.user_coalescer {
            c.reset();
        }
        self.state = SerfState::Shutdown;
        self.report(Event::Shutdown);
        assert(self@ =~= before.shutting_down());
    }

    fn close_conflict_query(&mut self, pq: &PendingQuery<I>)
        ensures
            final(self)@ == (if pq@.is_lost() {
                old(self)@.shutting_down()
            } else {
                old(self)@
            }),
    {
        let num_resp: usize = pq.responses.len();
        if num_resp == 0 {
            return;
        }
        let majority: usize = num_resp / 2 + 1;
        if pq.conflict_matching >= majority {
            return;
        }
        self.shut_down();
    }

    fn close_key_query(&mut self, pq: PendingQuery<I>)
        ensures
            final(self)@ == old(self)@.reporting(Report::KeyResponse(pq@.key_outcome())),
    {
        let num_resp: usize = pq.responses.len();
        let tally = match pq.key_tally {
            Some(t) => t,
            None => KeyResponseTally::new(),
        };
        self.report(
            Event::KeyResponse(
                KeyResponse {
                    num_nodes: pq.num_nodes,
                    num_resp,
                    num_err: tally.num_err,
                    keys: tally.keys,
                    primary_keys: tally.primary_keys,
                    messages: tally.messages,
                },
            ),
        );
    }

    /// Closes the queries whose deadline has passed.
    pub fn fire_due_query_closes(&mut self, now: Instant)
        ensures
            final(self)@ == old(self)@.closing_due(0, now),
    {
        let ghost before = self@;
        let mut i: usize = 0;
        while i < self.pending_queries.len()
            invariant_except_break
                i <= self.pending_queries@.len(),
                self@.closing_due(i as int, now) == before.closing_due(0, now),
            ensures
                self@ == before.closing_due(0, now),
            decreases self.pending_queries@.len() - i,
        {
            let ghost now_at = self@;
            assert(now_at.pending[i as int] == self.pending_queries@[i as int]@);
            if now >= self.pending_queries[i].deadline {
                let pq = self.take_pending(i);
                match pq.kind {
                    QueryPurpose::App => {},
                    QueryPurpose::Conflict => {
                        self.close_conflict_query(&pq);
                    },
                    QueryPurpose::Key => {
                        self.close_key_query(pq);
                    },
                }
                if self.state.is_shutdown() {
                    break;
                }
            } else {
                i += 1;
            }
        }
    }
}

} // verus!
