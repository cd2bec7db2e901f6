//! What the membership layer hands up: packets of peers, and events of its own.

use crate::action::{Action, Coordinator, Frame, EVENT_RANK, INTENT_RANK, QUERY_RANK};
use crate::endpoint::{exchange, queries, relay};
use crate::endpoint::{Endpoint, Machine};
use crate::event::{DialPassthrough, Event, ExchangeCompleted, Report, StreamId};
use crate::id::{Id, Value};
use crate::octets;
use crate::octets::{as_slice, bytes_len, from_vec};
use crate::pattern;
use crate::query::QueryOrigin;
use crate::time;
use crate::time::{add_duration, Duration, Instant};
use crate::typed::{AnyMessage, MessageType, Node, QueryMessage, Tags};
use bytes::Bytes;
use std::sync::Arc;
use vstd::prelude::*;

verus! {

/// The version byte before the coordinate that comes with the answer to a probe.
pub const PING_VERSION: u8 = 1;

/// Returns what goes with the answer to a probe: the version byte, and the encoded
/// coordinate of this node.
pub fn coord_ack_payload(encoded: &Vec<u8>) -> (r: Bytes)
    ensures
        octets::octets(r) == seq![PING_VERSION] + encoded@,
{
    let mut buf: Vec<u8> = Vec::new();
    buf.push(PING_VERSION);
    let mut i: usize = 0;
    while i < encoded.len()
        invariant
            i <= encoded@.len(),
            buf@ == seq![PING_VERSION] + encoded@.take(i as int),
        decreases encoded@.len() - i,
    {
        buf.push(encoded[i]);
        i += 1;
        assert(buf@ =~= seq![PING_VERSION] + encoded@.take(i as int));
    }
    assert(encoded@.take(i as int) =~= encoded@);
    from_vec(buf)
}

/// A packet of a peer, with what the driver read of it.
pub struct Packet<I, A> {
    /// The type that the head of the frame names, if there is one.
    pub header: Option<MessageType>,
    /// The message at the head of the packet, if there is one, and how many bytes it
    /// takes.
    pub decoded: Option<(AnyMessage<I, A>, usize)>,
    /// The message at the head of the payload of a query or a response, if there is
    /// one, and how many bytes it takes.
    pub nested: Option<(AnyMessage<I, A>, usize)>,
    /// The encoded acknowledgement of a query, if it could be encoded.
    pub ack_frame: Option<Bytes>,
    /// The bytes.
    pub data: Bytes,
}

/// What happened in the membership layer.
pub enum InnerEvent<I, A> {
    /// A node joined.
    NodeJoined {
        /// The node.
        node: Node<I, A>,
        /// Its tags.
        tags: Arc<Tags>,
    },
    /// A node is gone.
    NodeLeft {
        /// Its id.
        id: I,
    },
    /// A node changed its address or its tags.
    NodeUpdated {
        /// The node.
        node: Node<I, A>,
        /// Its tags.
        tags: Arc<Tags>,
    },
    /// Another node claims the id of this one.
    NodeConflict,
    /// A packet arrived.
    UserPacket(Packet<I, A>),
    /// A peer told its state.
    RemoteStateReceived {
        /// The exchange.
        stream: StreamId,
        /// Whether the exchange is part of a join.
        is_join: bool,
        /// The message at the head of the bytes, if there is one, and how many bytes it
        /// takes.
        decoded: Option<(AnyMessage<I, A>, usize)>,
        /// The number of bytes.
        len: usize,
    },
    /// The membership layer has left the cluster.
    LeftCluster,
    /// A probe was answered.
    PingCompleted {
        /// The node that answered.
        id: I,
        /// How long the round trip took.
        rtt: Duration,
        /// What came with the answer.
        payload: Bytes,
    },
    /// A probe was not answered.
    PingFailed,
    /// A reliable exchange ended.
    ExchangeCompleted(ExchangeCompleted<A>),
    /// Bytes could not be read.
    DecodeError,
    /// A peer is to be dialled.
    DialRequested {
        /// The exchange for which to dial.
        stream: StreamId,
        /// The peer.
        peer: A,
    },
}

/// The tier on which a message of a type is passed on, if it is.
pub open spec fn rank_of(ty: MessageType) -> Option<u8> {
    match ty {
        MessageType::Join | MessageType::Leave => Some(INTENT_RANK),
        MessageType::UserEvent => Some(EVENT_RANK),
        MessageType::Query => Some(QUERY_RANK),
        _ => None,
    }
}

impl<I, A, G> Machine<I, A, G> {
    /// The depth of the broadcast queue from which on nothing is passed on. It grows with
    /// the cluster where a least depth is set.
    pub open spec fn queue_max(self) -> usize {
        let twice = 2 * self.states.dom().len();
        if self.opts.min_queue_depth == 0 {
            self.opts.max_queue_depth
        } else if twice > usize::MAX {
            usize::MAX
        } else if twice > self.opts.min_queue_depth {
            twice as usize
        } else {
            self.opts.min_queue_depth
        }
    }

    /// The machine that asks for a packet to be passed on as it is, unless the queue is
    /// full.
    pub open spec fn passing_packet_on(self, queue_len: usize, ty: MessageType, data: Bytes) -> Self {
        match rank_of(ty) {
            Some(rank) if queue_len < self.queue_max() => self.asking(
                Action::Broadcast { rank, frame: Frame::Ready(data) },
            ),
            _ => self,
        }
    }

    /// The machine that asks for a packet to be passed on, where that is to be.
    pub open spec fn passing_packet_on_if(
        self,
        wanted: bool,
        queue_len: usize,
        ty: MessageType,
        data: Bytes,
    ) -> Self {
        if wanted {
            self.passing_packet_on(queue_len, ty, data)
        } else {
            self
        }
    }

    /// Whether a packet is too large for what its head says that it is.
    pub open spec fn fences_off(self, header: Option<MessageType>, len: nat) -> bool {
        match header {
            Some(MessageType::UserEvent) => len > self.opts.max_user_event_size,
            Some(MessageType::Query) => len > self.opts.query_size_limit,
            _ => false,
        }
    }

    /// The machine after the membership layer has left. A leave is complete when the
    /// farewell had time to spread; being told again does not put that off.
    pub open spec fn inner_left(self) -> Self {
        if self.state is Leaving {
            Machine {
                leave_complete_deadline: time::earliest_armed(
                    self.leave_complete_deadline,
                    Some(time::later(self.drain_now, self.opts.leave_propagate_delay)),
                ),
                ..self
            }
        } else {
            self
        }
    }

    /// The machine after a probe was answered. An answer without a coordinate, or with
    /// one of another version, changes nothing.
    pub open spec fn pinged(self, id: I, rtt: Duration, payload: Bytes) -> Self {
        let bytes = octets::octets(payload);
        if self.opts.disable_coordinates || bytes.len() == 0 || bytes[0] != PING_VERSION {
            self
        } else {
            self.asking(Action::UpdateCoordinate { id, rtt, payload })
        }
    }

    /// The machine after a peer told its state. Its earlier user events are not replayed
    /// for a join that was noted; that holds for one merge.
    pub open spec fn hearing_state(
        self,
        local: I,
        stream: StreamId,
        is_join: bool,
        decoded: Option<(AnyMessage<I, A>, usize)>,
        len: usize,
    ) -> Self {
        if len == 0 {
            self
        } else if is_join {
            self.consuming(stream).merging_bytes(
                local,
                decoded,
                len,
                self.ignored.contains(stream),
            )
        } else {
            self.merging_bytes(local, decoded, len, false)
        }
    }
}

impl<I: Id, A, G> Machine<I, A, G> {
    /// The machine after a query in a packet. One that is too large is dropped.
    pub open spec fn taking_query(
        self,
        c: Coordinator<I, A>,
        q: QueryMessage<I, A>,
        packet: Packet<I, A>,
        draws: Seq<usize>,
    ) -> Self {
        let request = queries::request_of(q.name@, octets::octets(q.payload), packet.nested);
        let accepted = pattern::all_compile(q.filters@);
        if octets::octets(packet.data).len() > self.opts.query_size_limit {
            self
        } else {
            self.after_query(
                c.local,
                q,
                QueryOrigin::Inbound,
                request,
                accepted,
                self.targeted(c.local.id, q.filters@),
                packet.ack_frame,
                draws,
            ).passing_packet_on_if(
                self.passes_query_on(q, QueryOrigin::Inbound, request, accepted),
                c.queue_len,
                MessageType::Query,
                packet.data,
            )
        }
    }

    /// Whether it is drawn for a query in a packet who relays the acknowledgement.
    pub open spec fn draws_for_query_in(
        self,
        c: Coordinator<I, A>,
        q: QueryMessage<I, A>,
        packet: Packet<I, A>,
    ) -> bool {
        &&& octets::octets(packet.data).len() <= self.opts.query_size_limit
        &&& self.draws_for_query(
            q,
            QueryOrigin::Inbound,
            queries::request_of(q.name@, octets::octets(q.payload), packet.nested),
            pattern::all_compile(q.filters@),
            self.targeted(c.local.id, q.filters@),
            packet.ack_frame,
        )
    }

    /// The machine after a message that takes all of its packet.
    pub open spec fn dispatching(
        self,
        c: Coordinator<I, A>,
        msg: AnyMessage<I, A>,
        packet: Packet<I, A>,
        now: Instant,
        draws: Seq<usize>,
    ) -> Self {
        let data = packet.data;
        match msg {
            AnyMessage::UserEvent(ue) => self.after_user_event(ue).passing_packet_on_if(
                self.takes_user_event(ue),
                c.queue_len,
                MessageType::UserEvent,
                data,
            ),
            AnyMessage::Join(join) => self.after_join_intent(
                join.ltime,
                join.id,
                now,
            ).passing_packet_on_if(
                self.takes_join_intent(join.ltime, join.id),
                c.queue_len,
                MessageType::Join,
                data,
            ),
            AnyMessage::Leave(leave) => self.after_leave_intent(
                c.local.id,
                leave.ltime,
                leave.id,
                leave.prune,
                now,
            ).passing_packet_on_if(
                self.takes_leave_intent(c.local.id, leave.ltime, leave.id),
                c.queue_len,
                MessageType::Leave,
                data,
            ),
            AnyMessage::Query(q) => self.taking_query(c, q, packet, draws),
            AnyMessage::QueryResponse(resp) => self.after_response(
                c.local,
                resp,
                packet.nested,
            ),
            AnyMessage::Relay(relay) => self.passing_on(c.local.id, relay),
            _ => self,
        }
    }

    /// The machine after a packet. One that is too large, or that is not one message from
    /// end to end, is dropped.
    #[verifier::opaque]
    pub open spec fn after_packet(
        self,
        c: Coordinator<I, A>,
        packet: Packet<I, A>,
        now: Instant,
        draws: Seq<usize>,
    ) -> Self {
        let len = octets::octets(packet.data).len();
        if self.fences_off(packet.header, len) {
            self
        } else {
            match packet.decoded {
                Some((msg, consumed)) if consumed == len => self.dispatching(
                    c,
                    msg,
                    packet,
                    now,
                    draws,
                ),
                _ => self,
            }
        }
    }

    /// Whether the draws can be those for a packet.
    pub open spec fn may_draw_for(self, local: I, packet: Packet<I, A>, draws: Seq<usize>) -> bool {
        match packet.decoded {
            Some((AnyMessage::Query(q), _)) => q.flags.ack ==> self.may_draw(
                local,
                q.relay_factor,
                draws,
            ),
            _ => true,
        }
    }

    /// Whether it is drawn for a packet who relays an acknowledgement.
    pub open spec fn draws_for_packet(self, c: Coordinator<I, A>, packet: Packet<I, A>) -> bool {
        let len = octets::octets(packet.data).len();
        &&& !self.fences_off(packet.header, len)
        &&& packet.decoded matches Some((AnyMessage::Query(q), consumed))
        &&& consumed == len
        &&& self.draws_for_query_in(c, q, packet)
    }

    /// The machine after an event of the membership layer. After a shutdown nothing
    /// happens.
    pub open spec fn after_inner_event(
        self,
        c: Coordinator<I, A>,
        ev: InnerEvent<I, A>,
        draws: Seq<usize>,
    ) -> Self {
        if self.is_down() {
            self
        } else {
            match ev {
                InnerEvent::NodeJoined { node, tags } => self.joined(node, tags),
                InnerEvent::NodeLeft { id } => self.departing(id, self.drain_now),
                InnerEvent::NodeUpdated { node, tags } => self.updating(node, tags),
                InnerEvent::UserPacket(packet) => self.after_packet(
                    c,
                    packet,
                    self.drain_now,
                    draws,
                ),
                InnerEvent::RemoteStateReceived { stream, is_join, decoded, len } =>
                    self.hearing_state(c.local.id, stream, is_join, decoded, len),
                InnerEvent::LeftCluster => self.inner_left(),
                InnerEvent::PingCompleted { id, rtt, payload } => self.pinged(id, rtt, payload),
                InnerEvent::ExchangeCompleted(e) => self.reporting(Report::ExchangeCompleted(e)),
                InnerEvent::DialRequested { stream, peer } => self.reporting(
                    Report::DialRequested(stream, peer),
                ),
                InnerEvent::NodeConflict | InnerEvent::PingFailed | InnerEvent::DecodeError => self,
            }
        }
    }

    /// Whether the draws can be those for an event.
    pub open spec fn may_draw_on(self, local: I, ev: InnerEvent<I, A>, draws: Seq<usize>) -> bool {
        ev matches InnerEvent::UserPacket(packet) ==> self.may_draw_for(local, packet, draws)
    }

    /// Whether an event makes the machine put its id to the vote.
    pub open spec fn calls_vote(self, ev: InnerEvent<I, A>) -> bool {
        !self.is_down() && ev is NodeConflict && self.opts.enable_id_conflict_resolution
    }

    /// Whether anything is drawn on an event: who relays, or the number of a vote.
    pub open spec fn draws_on(self, c: Coordinator<I, A>, ev: InnerEvent<I, A>) -> bool {
        match ev {
            InnerEvent::UserPacket(packet) => !self.is_down() && self.draws_for_packet(c, packet),
            _ => self.calls_vote(ev),
        }
    }
}

impl<I: Id, A: Value, G> Endpoint<I, A, G> {
    /// Returns the depth of the broadcast queue from which on nothing is passed on.
    pub fn queue_max(&self) -> (r: usize)
        ensures
            r == self@.queue_max(),
    {
        let min: usize = self.opts.min_queue_depth;
        let members: usize = self.members.states.len();
        if min > 0 {
            let twice: usize = members.saturating_add(members);
            if twice > min {
                twice
            } else {
                min
            }
        } else {
            self.opts.max_queue_depth
        }
    }

    fn rebroadcast(&mut self, c: &Coordinator<I, A>, ty: MessageType, original: Bytes)
        ensures
            final(self)@ == old(self)@.passing_packet_on(c.queue_len, ty, original),
    {
        let rank: u8 = match ty {
            MessageType::Join | MessageType::Leave => INTENT_RANK,
            MessageType::UserEvent => EVENT_RANK,
            MessageType::Query => QUERY_RANK,
            _ => return,
        };
        if c.queue_len >= self.queue_max() {
            return;
        }
        self.ask(Action::Broadcast { rank, frame: Frame::Ready(original) });
    }

    fn take_query(&mut self, c: &Coordinator<I, A>, q: QueryMessage<I, A>, packet: Packet<I, A>)
        ensures
            exists|draws: Seq<usize>|
                (q.flags.ack ==> old(self)@.may_draw(c.local.id, q.relay_factor, draws))
                    && final(self)@ == (#[trigger] old(self)@.taking_query(
                    *c,
                    q,
                    packet,
                    draws,
                )).drawing(final(self)@.rng),
            !old(self)@.draws_for_query_in(*c, q, packet) ==> final(self)@.rng == old(self)@.rng,
    {
        let ghost before = self@;
        let ghost whole = packet;
        let Packet { header, decoded, nested, ack_frame, data } = packet;
        if bytes_len(&data) > self.opts.query_size_limit {
            proof {
                let draws = relay::draws_exist(before, c.local.id, q.relay_factor);
                assert(self@ == before.taking_query(*c, q, whole, draws).drawing(self@.rng));
            }
            return;
        }
        let passed_on = self.handle_query(c, q, QueryOrigin::Inbound, nested, ack_frame);
        let ghost mid = self@;
        if passed_on {
            self.rebroadcast(c, MessageType::Query, data);
        }
        proof {
            let draws = choose|draws: Seq<usize>|
                (q.flags.ack ==> before.may_draw(c.local.id, q.relay_factor, draws)) && mid == (
                #[trigger] before.after_query(
                    c.local,
                    q,
                    QueryOrigin::Inbound,
                    queries::request_of(q.name@, octets::octets(q.payload), nested),
                    pattern::all_compile(q.filters@),
                    before.targeted(c.local.id, q.filters@),
                    ack_frame,
                    draws,
                )).drawing(mid.rng);
            assert(self@ == before.taking_query(*c, q, whole, draws).drawing(self@.rng));
        }
    }

    /// Takes in a packet of a peer. What is drawn is which nodes are to relay the
    /// acknowledgement of a query.
    #[verifier::rlimit(30)]
    pub fn handle_user_packet(&mut self, c: &Coordinator<I, A>, packet: Packet<I, A>, now: Instant)
        ensures
            exists|draws: Seq<usize>|
                old(self)@.may_draw_for(c.local.id, packet, draws) && final(self)@
                    == (#[trigger] old(self)@.after_packet(*c, packet, now, draws)).drawing(
                    final(self)@.rng,
                ),
            !old(self)@.draws_for_packet(*c, packet) ==> final(self)@.rng == old(self)@.rng,
    {
        reveal(Machine::after_packet);
        let ghost before = self@;
        let ghost whole = packet;
        let ghost some = some_draws(before, c.local.id, whole);
        let Packet { header, decoded, nested, ack_frame, data } = packet;
        let len: usize = bytes_len(&data);
        let fenced = match header {
            Some(MessageType::UserEvent) => len > self.opts.max_user_event_size,
            Some(MessageType::Query) => len > self.opts.query_size_limit,
            _ => false,
        };
        let kept = match decoded {
            Some((msg, consumed)) => if !fenced && consumed == len {
                Some(msg)
            } else {
                None
            },
            None => None,
        };
        let msg = match kept {
            Some(msg) => msg,
            None => {
                assert(self@ == before.after_packet(*c, whole, now, some).drawing(self@.rng));
                return;
            },
        };
        proof {
            if !(msg is Query) {
                dispatch_draws_nothing(before, *c, msg, whole, now, some);
            }
        }
        match msg {
            AnyMessage::UserEvent(ue) => {
                if self.handle_user_event(ue) {
                    self.rebroadcast(c, MessageType::UserEvent, data);
                }
            },
            AnyMessage::Join(join) => {
                if self.handle_node_join_intent(join.ltime, &join.id, now) {
                    self.rebroadcast(c, MessageType::Join, data);
                }
            },
            AnyMessage::Leave(leave) => {
                if self.handle_node_leave_intent(
                    &c.local.id,
                    leave.ltime,
                    &leave.id,
                    leave.prune,
                    now,
                ) {
                    self.rebroadcast(c, MessageType::Leave, data);
                }
            },
            AnyMessage::Query(q) => {
                let packet = Packet { header, decoded: None, nested, ack_frame, data };
                self.take_query(c, q, packet);
                proof {
                    let draws = choose|draws: Seq<usize>|
                        (q.flags.ack ==> before.may_draw(c.local.id, q.relay_factor, draws))
                            && self@ == (#[trigger] before.taking_query(
                            *c,
                            q,
                            packet,
                            draws,
                        )).drawing(self@.rng);
                    assert(before.may_draw_for(c.local.id, whole, draws));
                    assert(before.after_packet(*c, whole, now, draws) == before.taking_query(
                        *c,
                        q,
                        packet,
                        draws,
                    ));
                }
                return;
            },
            AnyMessage::QueryResponse(resp) => {
                self.handle_query_response(c, resp, nested);
            },
            AnyMessage::Relay(relay) => {
                self.handle_relay(c, relay);
            },
            _ => {},
        }
        assert(self@ == before.after_packet(*c, whole, now, some).drawing(self@.rng));
    }

    fn handle_ping_completed(&mut self, id: I, rtt: Duration, payload: Bytes)
        ensures
            final(self)@ == old(self)@.pinged(id, rtt, payload),
    {
        if self.opts.disable_coordinates {
            return;
        }
        {
            let bytes = as_slice(&payload);
            if bytes.len() == 0 || bytes[0] != PING_VERSION {
                return;
            }
        }
        self.ask(Action::UpdateCoordinate { id, rtt, payload });
    }

    /// Takes in an event of the membership layer. Returns the query by which the id of
    /// this node is put to the vote, where it is; the driver encodes it and issues it
    /// with [`crate::query::QueryPurpose::Conflict`].
    #[verifier::rlimit(30)]
    pub fn on_inner_event(&mut self, c: &Coordinator<I, A>, ev: InnerEvent<I, A>) -> (r: Option<
        QueryMessage<I, A>,
    >)
        ensures
            exists|draws: Seq<usize>|
                old(self)@.may_draw_on(c.local.id, ev, draws) && final(self)@
                    == (#[trigger] old(self)@.after_inner_event(*c, ev, draws)).drawing(
                    final(self)@.rng,
                ),
            !old(self)@.draws_on(*c, ev) ==> final(self)@.rng == old(self)@.rng,
            r is Some == old(self)@.calls_vote(ev),
            r matches Some(msg) ==> old(self)@.asks_itself(
                msg,
                c.local,
                "_serf_conflict"@,
                c.local.id.wire(),
            ),
    {
        let ghost before = self@;
        let ghost whole = ev;
        let ghost none = Seq::<usize>::empty();
        if self.state.is_shutdown() {
            proof {
                if let InnerEvent::UserPacket(packet) = ev {
                    let draws = some_draws(before, c.local.id, packet);
                    assert(before.may_draw_on(c.local.id, whole, draws));
                    assert(self@ == before.after_inner_event(*c, whole, draws));
                } else {
                    assert(self@ == before.after_inner_event(*c, whole, none));
                }
            }
            return None;
        }
        let now: Instant = self.drain_now;
        let mut vote: Option<QueryMessage<I, A>> = None;
        match ev {
            InnerEvent::NodeJoined { node, tags } => {
                self.handle_node_join(node, tags);
            },
            InnerEvent::NodeLeft { id } => {
                self.handle_node_leave(&id, now);
            },
            InnerEvent::NodeUpdated { node, tags } => {
                self.handle_node_update(node, tags);
            },
            InnerEvent::NodeConflict => {
                if self.opts.enable_id_conflict_resolution {
                    if let Ok(msg) = self.resolve_node_conflict(c) {
                        vote = Some(msg);
                    }
                }
            },
            InnerEvent::UserPacket(packet) => {
                self.handle_user_packet(c, packet, now);
                proof {
                    let draws = choose|draws: Seq<usize>|
                        before.may_draw_for(c.local.id, packet, draws) && self@
                            == (#[trigger] before.after_packet(*c, packet, now, draws)).drawing(
                            self@.rng,
                        );
                    assert(self@ == before.after_inner_event(*c, whole, draws).drawing(self@.rng));
                }
                return None;
            },
            InnerEvent::RemoteStateReceived { stream, is_join, decoded, len } => {
                if len > 0 {
                    let suppress = is_join && self.consume_ignore_join_stream(stream);
                    proof {
                        exchange::merge_draws_nothing(self@, c.local.id, decoded, len, suppress);
                    }
                    self.merge_remote_state(c, decoded, len, suppress);
                }
            },
            InnerEvent::LeftCluster => {
                if self.state.is_leaving() {
                    let deadline: Instant = add_duration(now, self.opts.leave_propagate_delay);
                    self.leave_complete_deadline = time::min_deadline(
                        self.leave_complete_deadline,
                        Some(deadline),
                    );
                }
            },
            InnerEvent::PingCompleted { id, rtt, payload } => {
                self.handle_ping_completed(id, rtt, payload);
            },
            InnerEvent::ExchangeCompleted(e) => {
                self.report(Event::ExchangeCompleted(e));
            },
            InnerEvent::DialRequested { stream, peer } => {
                self.report(Event::DialRequested(DialPassthrough::new(stream, peer)));
            },
            InnerEvent::PingFailed | InnerEvent::DecodeError => {},
        }
        assert(self@ == before.after_inner_event(*c, whole, none).drawing(self@.rng));
        vote
    }
}

/// What a node sends along with the answer to a probe is taken as a coordinate by the node
/// that receives it.
pub proof fn acknowledged_coordinates_are_taken<I, A, G>(
    m: Machine<I, A, G>,
    id: I,
    rtt: Duration,
    payload: Bytes,
    encoded: Seq<u8>,
)
    requires
        octets::octets(payload) == seq![PING_VERSION] + encoded,
        !m.opts.disable_coordinates,
    ensures
        m.pinged(id, rtt, payload) == m.asking(Action::UpdateCoordinate { id, rtt, payload }),
{
}

proof fn dispatch_draws_nothing<I: Id, A, G>(
    m: Machine<I, A, G>,
    c: Coordinator<I, A>,
    msg: AnyMessage<I, A>,
    packet: Packet<I, A>,
    now: Instant,
    draws: Seq<usize>,
)
    requires
        !(msg is Query),
    ensures
        m.dispatching(c, msg, packet, now, draws).rng == m.rng,
{
}

/// Draws that can be those for a packet.
proof fn some_draws<I: Id, A, G>(m: Machine<I, A, G>, local: I, packet: Packet<I, A>) -> (draws: Seq<
    usize,
>)
    ensures
        m.may_draw_for(local, packet, draws),
{
    match packet.decoded {
        Some((AnyMessage::Query(q), _)) => {
            let draws: Seq<usize> = Seq::new(
                m.relay_count(local, q.relay_factor),
                |i: int| i as usize,
            );
            assert(m.may_draw_for(local, packet, draws));
            draws
        },
        _ => Seq::empty(),
    }
}

} // verus!
