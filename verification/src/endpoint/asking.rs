//! How this node asks queries: those of the application, and its own about ids in
//! conflict and about keys.
//!
//! To ask takes two steps. The first makes the message, the driver encodes it, and
//! the second puts it on its way.

use crate::action::{Action, Coordinator, Frame, QUERY_RANK};
use crate::clock::LamportTime;
use crate::endpoint::queries;
use crate::endpoint::queries::default_query_timeout;
use crate::endpoint::{Endpoint, Machine};
use crate::entropy::draw_u32;
use crate::event::KeyRequestOperation;
use crate::filter::Filter;
use crate::id::{Id, Value};
use crate::octets;
use crate::octets::{bytes_len, from_vec};
use crate::pattern;
use crate::pattern::filters_compile;
use crate::query::{Error, Pending, PendingQuery, QueryId, QueryOrigin, QueryParams, QueryPurpose};
use crate::time;
use crate::time::{add_duration, Duration, Instant};
use crate::typed::{AnyMessage, Node, QueryFlag, QueryMessage};
use bytes::Bytes;
use vstd::prelude::*;

verus! {

impl<I, A, G> Machine<I, A, G> {
    /// How long a response is of use, where zero stands for nothing said.
    pub open spec fn timeout_or_default(self, timeout: Duration) -> Duration {
        if timeout == 0 {
            queries::default_timeout(self.states.dom().len(), self.opts.query_timeout_mult) as u64
        } else {
            timeout
        }
    }

    /// The message of a query of the application, with the given number. The query clock
    /// is read and not advanced.
    pub open spec fn asked(
        self,
        local: Node<I, A>,
        name: String,
        payload: Bytes,
        params: QueryParams<I>,
        id: u32,
    ) -> QueryMessage<I, A> {
        QueryMessage {
            ltime: LamportTime(self.query_clock),
            id,
            from: local,
            filters: params.filters,
            flags: QueryFlag { ack: params.request_ack, no_broadcast: false },
            relay_factor: params.relay_factor,
            timeout: self.timeout_or_default(params.timeout),
            name,
            payload,
        }
    }

    /// What is answered to the wish to ask a query, where it is known whether the
    /// expressions in its filters are accepted.
    pub open spec fn query_verdict(self, accepted: bool) -> Result<(), Error> {
        if self.is_down() {
            Err(Error::Shutdown)
        } else if !accepted {
            Err(Error::InvalidQueryFilter)
        } else {
            Ok(())
        }
    }

    /// Whether a message is a query that the machine asks by itself: of everyone,
    /// without acknowledgements and relays.
    pub open spec fn asks_itself(
        self,
        msg: QueryMessage<I, A>,
        local: Node<I, A>,
        name: Seq<char>,
        payload: Seq<u8>,
    ) -> bool {
        &&& msg.ltime == LamportTime(self.query_clock)
        &&& msg.from == local
        &&& msg.filters@.len() == 0
        &&& msg.flags == QueryFlag::spec_empty()
        &&& msg.relay_factor == 0
        &&& msg.timeout == self.timeout_or_default(0)
        &&& msg.name@ == name
        &&& octets::octets(msg.payload) == payload
    }

    /// Whether this is the answer to the wish for an operation on keys, where `payload`
    /// is the encoded request.
    pub open spec fn answers_key_query(
        self,
        local: Node<I, A>,
        op: KeyRequestOperation,
        payload: Option<Bytes>,
        answer: Result<QueryMessage<I, A>, Error>,
    ) -> bool {
        match payload {
            None => answer == Err::<QueryMessage<I, A>, Error>(Error::UserEventEncode),
            Some(p) => if self.is_down() {
                answer == Err::<QueryMessage<I, A>, Error>(Error::Shutdown)
            } else {
                answer matches Ok(msg) && self.asks_itself(
                    msg,
                    local,
                    queries::key_query_name(op),
                    octets::octets(p),
                )
            },
        }
    }
}

impl<I: Id, A, G> Machine<I, A, G> {
    /// What is answered once a query was encoded.
    pub open spec fn issue_verdict(self, msg: QueryMessage<I, A>, encoded: Option<Bytes>) -> Result<
        QueryId,
        Error,
    > {
        match encoded {
            None => Err(Error::UserEventEncode),
            Some(frame) => if octets::octets(frame).len() > self.opts.query_size_limit {
                Err(
                    Error::QueryTooLarge(
                        octets::octets(frame).len() as usize,
                        self.opts.query_size_limit,
                    ),
                )
            } else {
                Ok(queries::query_id_of(msg))
            },
        }
    }

    /// The machine that waits for responses to a query of its own.
    pub open spec fn awaiting(
        self,
        msg: QueryMessage<I, A>,
        purpose: QueryPurpose,
        now: Instant,
    ) -> Self {
        Machine {
            pending: self.pending.push(
                Pending::asked(
                    purpose,
                    time::later(now, msg.timeout),
                    queries::query_id_of(msg),
                    msg.flags.ack,
                    self.states.dom().len() as usize,
                ),
            ),
            ..self.at(now)
        }
    }

    /// The machine that put a query on its way, where it is known what the query asks of
    /// the machine, whether the expressions in its filters are accepted, and whether
    /// it is for the local node.
    pub open spec fn issuing(
        self,
        local: Node<I, A>,
        msg: QueryMessage<I, A>,
        purpose: QueryPurpose,
        request: queries::Request<I>,
        accepted: bool,
        targeted: bool,
        frame: Bytes,
        ack_frame: Option<Bytes>,
        draws: Seq<usize>,
        now: Instant,
    ) -> Self {
        self.awaiting(msg, purpose, now).after_query(
            local,
            msg,
            QueryOrigin::Local,
            request,
            accepted,
            targeted,
            ack_frame,
            draws,
        ).asking(Action::Broadcast { rank: QUERY_RANK, frame: Frame::Ready(frame) })
    }
}

impl<I: Id, A: Value, G> Endpoint<I, A, G> {
    /// Makes the message of a query, where it is known whether the expressions in its
    /// filters are accepted and which number was drawn.
    pub fn query_message(
        &self,
        c: &Coordinator<I, A>,
        name: String,
        payload: Bytes,
        params: QueryParams<I>,
        accepted: bool,
        id: u32,
    ) -> (r: Result<QueryMessage<I, A>, Error>)
        ensures
            match self@.query_verdict(accepted) {
                Ok(_) => r == Ok::<QueryMessage<I, A>, Error>(
                    self@.asked(c.local, name, payload, params, id),
                ),
                Err(e) => r == Err::<QueryMessage<I, A>, Error>(e),
            },
    {
        if let Err(e) = self.ensure_not_shutdown() {
            return Err(e);
        }
        if !accepted {
            return Err(Error::InvalidQueryFilter);
        }
        let timeout: Duration = if params.timeout == 0 {
            default_query_timeout(self.members.states.len(), self.opts.query_timeout_mult)
        } else {
            params.timeout
        };
        Ok(
            QueryMessage {
                ltime: LamportTime(self.query_clock),
                id,
                from: c.local.dup(),
                filters: params.filters,
                flags: QueryFlag { ack: params.request_ack, no_broadcast: false },
                relay_factor: params.relay_factor,
                timeout,
                name,
                payload,
            },
        )
    }

    /// Begins to ask a query of the application: draws its number and makes the
    /// message, for the driver to encode and to hand to [`Endpoint::issue_query`].
    /// Nothing is drawn for a query that is refused.
    pub fn query(
        &mut self,
        c: &Coordinator<I, A>,
        name: String,
        payload: Bytes,
        params: QueryParams<I>,
    ) -> (r: Result<QueryMessage<I, A>, Error>)
        ensures
            match old(self)@.query_verdict(pattern::all_compile(params.filters@)) {
                Ok(_) => {
                    &&& r matches Ok(msg) && msg == old(self)@.asked(
                        c.local,
                        name,
                        payload,
                        params,
                        msg.id,
                    )
                    &&& final(self)@ == old(self)@.drawing(final(self)@.rng)
                },
                Err(e) => r == Err::<QueryMessage<I, A>, Error>(e) && final(self)@ == old(self)@,
            },
    {
        if let Err(e) = self.ensure_not_shutdown() {
            return Err(e);
        }
        if !filters_compile(&params.filters) {
            return Err(Error::InvalidQueryFilter);
        }
        let id: u32 = draw_u32(&mut self.rng);
        self.query_message(c, name, payload, params, true, id)
    }

    /// Begins to ask a query that the machine asks by itself.
    pub fn internal_query(&mut self, c: &Coordinator<I, A>, name: String, payload: Bytes) -> (r:
        Result<QueryMessage<I, A>, Error>)
        ensures
            final(self)@ == old(self)@.drawing(final(self)@.rng),
            r is Err ==> final(self)@ == old(self)@,
            old(self)@.is_down() ==> r == Err::<QueryMessage<I, A>, Error>(Error::Shutdown),
            !old(self)@.is_down() ==> (r matches Ok(msg) && old(self)@.asks_itself(
                msg,
                c.local,
                name@,
                octets::octets(payload),
            )),
    {
        if let Err(e) = self.ensure_not_shutdown() {
            return Err(e);
        }
        let id: u32 = draw_u32(&mut self.rng);
        self.query_message(c, name, payload, QueryParams::new(), true, id)
    }

    /// Puts a query on its way, where `encoded` is its frame, if it could be encoded,
    /// and `nested` and `ack_frame` are as for [`Endpoint::handle_query`]. The machine
    /// waits for responses, takes the query in itself, and asks for it to be
    /// broadcast.
    pub fn issue_query(
        &mut self,
        c: &Coordinator<I, A>,
        msg: QueryMessage<I, A>,
        purpose: QueryPurpose,
        encoded: Option<Bytes>,
        nested: Option<(AnyMessage<I, A>, usize)>,
        ack_frame: Option<Bytes>,
        now: Instant,
    ) -> (r: Result<QueryId, Error>)
        ensures
            r == old(self)@.issue_verdict(msg, encoded),
            r is Err ==> final(self)@ == old(self)@,
            r is Ok ==> exists|draws: Seq<usize>|
                (msg.flags.ack ==> old(self)@.may_draw(c.local.id, msg.relay_factor, draws))
                    && final(self)@ == (#[trigger] old(self)@.issuing(
                    c.local,
                    msg,
                    purpose,
                    queries::request_of(msg.name@, octets::octets(msg.payload), nested),
                    pattern::all_compile(msg.filters@),
                    old(self)@.targeted(c.local.id, msg.filters@),
                    encoded->0,
                    ack_frame,
                    draws,
                    now,
                )).drawing(final(self)@.rng),
            !old(self)@.draws_for_query(
                msg,
                QueryOrigin::Local,
                queries::request_of(msg.name@, octets::octets(msg.payload), nested),
                pattern::all_compile(msg.filters@),
                old(self)@.targeted(c.local.id, msg.filters@),
                ack_frame,
            ) ==> final(self)@.rng == old(self)@.rng,
    {
        let ghost before = self@;
        let frame = match encoded {
            None => return Err(Error::UserEventEncode),
            Some(frame) => frame,
        };
        let n: usize = bytes_len(&frame);
        if n > self.opts.query_size_limit {
            return Err(Error::QueryTooLarge(n, self.opts.query_size_limit));
        }
        let query_id = QueryId { ltime: msg.ltime, id: msg.id };
        let deadline: Instant = add_duration(now, msg.timeout);
        let num_nodes: usize = self.members.states.len();
        self.pending_queries.push(
            PendingQuery::new(purpose, deadline, query_id, msg.flags.ack, num_nodes),
        );
        self.drain_now = now;
        let ghost waiting = before.awaiting(msg, purpose, now);
        let ghost request = queries::request_of(msg.name@, octets::octets(msg.payload), nested);
        let ghost accepted = pattern::all_compile(msg.filters@);
        let ghost targeted = before.targeted(c.local.id, msg.filters@);
        assert(self@ =~= waiting);
        assert(waiting.targeted(c.local.id, msg.filters@) == targeted) by {
            assert forall|f: Filter<I>| #[trigger] waiting.passes(c.local.id, f) == before.passes(
                c.local.id,
                f,
            ) by {}
        }
        self.handle_query(c, msg, QueryOrigin::Local, nested, ack_frame);
        let ghost draws = choose|draws: Seq<usize>|
            (msg.flags.ack ==> waiting.may_draw(c.local.id, msg.relay_factor, draws)) && self@
                == (#[trigger] waiting.after_query(
                c.local,
                msg,
                QueryOrigin::Local,
                request,
                accepted,
                targeted,
                ack_frame,
                draws,
            )).drawing(self@.rng);
        self.ask(Action::Broadcast { rank: QUERY_RANK, frame: Frame::Ready(frame) });
        assert(self@ == before.issuing(
            c.local,
            msg,
            purpose,
            request,
            accepted,
            targeted,
            frame,
            ack_frame,
            draws,
            now,
        ).drawing(self@.rng));
        assert(msg.flags.ack ==> before.may_draw(c.local.id, msg.relay_factor, draws));
        Ok(query_id)
    }

    /// Begins to put a conflict about the id of this node to the vote. The query is
    /// issued with [`QueryPurpose::Conflict`].
    pub fn resolve_node_conflict(&mut self, c: &Coordinator<I, A>) -> (r: Result<
        QueryMessage<I, A>,
        Error,
    >)
        ensures
            final(self)@ == old(self)@.drawing(final(self)@.rng),
            r is Err ==> final(self)@ == old(self)@,
            old(self)@.is_down() ==> r == Err::<QueryMessage<I, A>, Error>(Error::Shutdown),
            !old(self)@.is_down() ==> (r matches Ok(msg) && old(self)@.asks_itself(
                msg,
                c.local,
                "_serf_conflict"@,
                c.local.id.wire(),
            )),
    {
        let payload = from_vec(c.local.id.encode_to_vec());
        self.internal_query(c, "_serf_conflict".to_string(), payload)
    }

    /// Begins to ask for an operation on keys, where `payload` is the encoded request,
    /// if it could be encoded. The query is issued with [`QueryPurpose::Key`].
    pub fn key_query(
        &mut self,
        c: &Coordinator<I, A>,
        op: KeyRequestOperation,
        payload: Option<Bytes>,
    ) -> (r: Result<QueryMessage<I, A>, Error>)
        ensures
            final(self)@ == old(self)@.drawing(final(self)@.rng),
            r is Err ==> final(self)@ == old(self)@,
            old(self)@.answers_key_query(c.local, op, payload, r),
    {
        let p = match payload {
            None => return Err(Error::UserEventEncode),
            Some(p) => p,
        };
        let name = match op {
            KeyRequestOperation::Install => "_serf_install_key",
            KeyRequestOperation::Use => "_serf_use_key",
            KeyRequestOperation::Remove => "_serf_remove_key",
            KeyRequestOperation::List => "_serf_list_keys",
        };
        self.internal_query(c, name.to_string(), p)
    }

    /// Begins to have a key installed on every node.
    pub fn install_key(&mut self, c: &Coordinator<I, A>, payload: Option<Bytes>) -> (r: Result<
        QueryMessage<I, A>,
        Error,
    >)
        ensures
            final(self)@ == old(self)@.drawing(final(self)@.rng),
            r is Err ==> final(self)@ == old(self)@,
            old(self)@.answers_key_query(c.local, KeyRequestOperation::Install, payload, r),
    {
        self.key_query(c, KeyRequestOperation::Install, payload)
    }

    /// Begins to have a key made the primary one on every node.
    pub fn use_key(&mut self, c: &Coordinator<I, A>, payload: Option<Bytes>) -> (r: Result<
        QueryMessage<I, A>,
        Error,
    >)
        ensures
            final(self)@ == old(self)@.drawing(final(self)@.rng),
            r is Err ==> final(self)@ == old(self)@,
            old(self)@.answers_key_query(c.local, KeyRequestOperation::Use, payload, r),
    {
        self.key_query(c, KeyRequestOperation::Use, payload)
    }

    /// Begins to have a key removed from every node.
    pub fn remove_key(&mut self, c: &Coordinator<I, A>, payload: Option<Bytes>) -> (r: Result<
        QueryMessage<I, A>,
        Error,
    >)
        ensures
            final(self)@ == old(self)@.drawing(final(self)@.rng),
            r is Err ==> final(self)@ == old(self)@,
            old(self)@.answers_key_query(c.local, KeyRequestOperation::Remove, payload, r),
    {
        self.key_query(c, KeyRequestOperation::Remove, payload)
    }

    /// Begins to have the keys of every node listed.
    pub fn list_keys(&mut self, c: &Coordinator<I, A>, payload: Option<Bytes>) -> (r: Result<
        QueryMessage<I, A>,
        Error,
    >)
        ensures
            final(self)@ == old(self)@.drawing(final(self)@.rng),
            r is Err ==> final(self)@ == old(self)@,
            old(self)@.answers_key_query(c.local, KeyRequestOperation::List, payload, r),
    {
        self.key_query(c, KeyRequestOperation::List, payload)
    }
}

} // verus!
