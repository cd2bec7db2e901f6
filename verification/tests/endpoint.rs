//! The machine as a driver runs it, over a coordinator that does nothing of its
//! own accord.

use bytes::Bytes;
use rand::rngs::SmallRng;
use rand::SeedableRng;
use serf_proto::action::{Action, Coordinator, Frame};
use serf_proto::buffers::{MAX_EVENTS_PER_LTIME, MAX_QUERY_IDS_PER_LTIME};
use serf_proto::clock::{ltime_is_acceptable, LamportTime, LTIME_MAX};
use serf_proto::endpoint::ingress::{coord_ack_payload, InnerEvent, Packet};
use serf_proto::endpoint::tick::Odds;
use serf_proto::endpoint::{Endpoint, FlatTimeouts};
use serf_proto::event::{
    Event, KeyRequest, KeyRequestOperation, KeyResponseArgs, MemberEventKind, QueryEvent,
};
use serf_proto::filter::{Filter, TagFilter};
use serf_proto::id::{Id, SocketAddress, Value};
use serf_proto::members::{
    IntentKind, Member, MemberState, MemberStatus, SerfState, MAX_RECENT_INTENTS,
};
use serf_proto::options::Options;
use serf_proto::query::{
    Error, PendingQuery, QueryId, QueryOrigin, QueryParams, QueryPurpose, ReceivedQuery,
    MAX_QUERY_TIMEOUT, MAX_RECEIVED_QUERIES,
};
use serf_proto::time::{Duration, Instant, MILLISECOND, ORIGIN, SECOND};
use serf_proto::typed::{
    AnyMessage, ConflictResponseMessage, JoinMessage, KeyRequestMessage, KeyResponseMessage,
    LeaveMessage, MessageType, Node, PushPullMessage, QueryFlag, QueryMessage,
    QueryResponseMessage, RelayMessage, ReplayResult, SecretKey, Tags, UserEvent,
    UserEventMessage, UserEvents,
};
use std::collections::VecDeque;
use std::sync::Arc;

// A codec for messages: a byte for the type, the length of the body, the body.

fn put_number(buf: &mut Vec<u8>, x: u64) {
    let mut left: u64 = x;
    while left >= 128 {
        buf.push((left % 128) as u8 | 128);
        left /= 128;
    }
    buf.push(left as u8);
}

fn put_bytes(buf: &mut Vec<u8>, bytes: &[u8]) {
    put_number(buf, bytes.len() as u64);
    buf.extend_from_slice(bytes);
}

fn put_node(buf: &mut Vec<u8>, node: &Node<u32, SocketAddress>) {
    put_number(buf, node.id as u64);
    buf.push(node.addr.v6 as u8);
    buf.extend_from_slice(&node.addr.ip.to_be_bytes());
    buf.extend_from_slice(&node.addr.port.to_be_bytes());
}

fn put_key(buf: &mut Vec<u8>, key: &SecretKey) {
    match key {
        SecretKey::Aes128(a) => {
            buf.push(0);
            buf.extend_from_slice(&a.to_be_bytes());
        }
        SecretKey::Aes192(a, b) => {
            buf.push(1);
            buf.extend_from_slice(&a.to_be_bytes());
            buf.extend_from_slice(&b.to_be_bytes());
        }
        SecretKey::Aes256(a, b) => {
            buf.push(2);
            buf.extend_from_slice(&a.to_be_bytes());
            buf.extend_from_slice(&b.to_be_bytes());
        }
        SecretKey::ChaCha20Poly1305(a, b) => {
            buf.push(3);
            buf.extend_from_slice(&a.to_be_bytes());
            buf.extend_from_slice(&b.to_be_bytes());
        }
    }
}

fn put_key_option(buf: &mut Vec<u8>, key: &Option<SecretKey>) {
    match key {
        None => buf.push(0),
        Some(key) => {
            buf.push(1);
            put_key(buf, key);
        }
    }
}

fn frame(kind: u8, body: Vec<u8>) -> Bytes {
    let mut buf: Vec<u8> = vec![kind];
    put_bytes(&mut buf, &body);
    Bytes::from(buf)
}

fn encode_event(m: &UserEventMessage) -> Bytes {
    let mut b: Vec<u8> = Vec::new();
    put_number(&mut b, m.ltime.0);
    b.push(m.cc as u8);
    put_bytes(&mut b, m.name.as_bytes());
    put_bytes(&mut b, &m.payload);
    frame(1, b)
}

fn encode_query(m: &QueryMessage<u32, SocketAddress>) -> Bytes {
    let mut b: Vec<u8> = Vec::new();
    put_number(&mut b, m.ltime.0);
    put_number(&mut b, m.id as u64);
    put_node(&mut b, &m.from);
    put_number(&mut b, m.filters.len() as u64);
    for filter in &m.filters {
        match filter {
            Filter::Id(ids) => {
                b.push(0);
                put_number(&mut b, ids.len() as u64);
                for id in ids {
                    put_number(&mut b, *id as u64);
                }
            }
            Filter::Tag(tag) => {
                b.push(1);
                put_bytes(&mut b, tag.tag.as_bytes());
                match &tag.expr {
                    None => b.push(0),
                    Some(expr) => {
                        b.push(1);
                        put_bytes(&mut b, expr.as_bytes());
                    }
                }
            }
        }
    }
    b.push(m.flags.ack as u8 + 2 * m.flags.no_broadcast as u8);
    b.push(m.relay_factor);
    put_number(&mut b, m.timeout);
    put_bytes(&mut b, m.name.as_bytes());
    put_bytes(&mut b, &m.payload);
    frame(5, b)
}

fn encode_response(m: &QueryResponseMessage<u32, SocketAddress>) -> Bytes {
    let mut b: Vec<u8> = Vec::new();
    put_number(&mut b, m.ltime.0);
    put_number(&mut b, m.id as u64);
    put_node(&mut b, &m.from);
    b.push(m.flags.ack as u8 + 2 * m.flags.no_broadcast as u8);
    put_bytes(&mut b, &m.payload);
    frame(6, b)
}

fn encode_push_pull(m: &PushPullMessage<u32>) -> Bytes {
    let mut b: Vec<u8> = Vec::new();
    put_number(&mut b, m.ltime.0);
    put_number(&mut b, m.status_ltimes.len() as u64);
    for (id, ltime) in &m.status_ltimes {
        put_number(&mut b, *id as u64);
        put_number(&mut b, ltime.0);
    }
    put_number(&mut b, m.left_members.len() as u64);
    for id in &m.left_members {
        put_number(&mut b, *id as u64);
    }
    put_number(&mut b, m.event_ltime.0);
    put_number(&mut b, m.events.len() as u64);
    for slot in &m.events {
        put_number(&mut b, slot.ltime.0);
        put_number(&mut b, slot.events.len() as u64);
        for ev in &slot.events {
            put_bytes(&mut b, ev.name.as_bytes());
            put_bytes(&mut b, &ev.payload);
        }
    }
    put_number(&mut b, m.query_ltime.0);
    frame(4, b)
}

fn encode_tags(tags: &Tags) -> Vec<u8> {
    let mut b: Vec<u8> = Vec::new();
    put_number(&mut b, tags.entries.len() as u64);
    for (key, value) in &tags.entries {
        put_bytes(&mut b, key.as_bytes());
        put_bytes(&mut b, value.as_bytes());
    }
    b
}

struct Reader<'a> {
    src: &'a [u8],
    at: usize,
}

impl<'a> Reader<'a> {
    fn new(src: &'a [u8]) -> Self {
        Reader { src, at: 0 }
    }

    fn octet(&mut self) -> Option<u8> {
        let b = *self.src.get(self.at)?;
        self.at += 1;
        Some(b)
    }

    fn take(&mut self, n: usize) -> Option<&'a [u8]> {
        let end: usize = self.at.checked_add(n)?;
        let part = self.src.get(self.at..end)?;
        self.at = end;
        Some(part)
    }

    fn number(&mut self) -> Option<u64> {
        let mut x: u64 = 0;
        let mut shift: u32 = 0;
        while shift < 64 {
            let b = self.octet()?;
            x |= ((b % 128) as u64) << shift;
            if b < 128 {
                return Some(x);
            }
            shift += 7;
        }
        None
    }

    fn id(&mut self) -> Option<u32> {
        u32::try_from(self.number()?).ok()
    }

    fn ltime(&mut self) -> Option<LamportTime> {
        Some(LamportTime::new(self.number()?))
    }

    fn bytes(&mut self) -> Option<Bytes> {
        let n = self.number()? as usize;
        Some(Bytes::copy_from_slice(self.take(n)?))
    }

    fn text(&mut self) -> Option<String> {
        let n = self.number()? as usize;
        Some(core::str::from_utf8(self.take(n)?).ok()?.to_string())
    }

    fn wide(&mut self) -> Option<u128> {
        Some(u128::from_be_bytes(self.take(16)?.try_into().ok()?))
    }

    fn node(&mut self) -> Option<Node<u32, SocketAddress>> {
        let id = self.id()?;
        let v6: bool = self.octet()? == 1;
        let ip = self.wide()?;
        let port = u16::from_be_bytes(self.take(2)?.try_into().ok()?);
        Some(Node::new(id, SocketAddress { v6, ip, port }))
    }

    fn flags(&mut self) -> Option<QueryFlag> {
        let b = self.octet()?;
        Some(QueryFlag { ack: b % 2 == 1, no_broadcast: b >= 2 })
    }

    fn key(&mut self) -> Option<SecretKey> {
        match self.octet()? {
            0 => Some(SecretKey::Aes128(self.wide()?)),
            1 => {
                let a = self.wide()?;
                let b = u64::from_be_bytes(self.take(8)?.try_into().ok()?);
                Some(SecretKey::Aes192(a, b))
            }
            2 => Some(SecretKey::Aes256(self.wide()?, self.wide()?)),
            3 => Some(SecretKey::ChaCha20Poly1305(self.wide()?, self.wide()?)),
            _ => None,
        }
    }

    fn key_option(&mut self) -> Option<Option<SecretKey>> {
        match self.octet()? {
            0 => Some(None),
            _ => Some(Some(self.key()?)),
        }
    }

    fn filter(&mut self) -> Option<Filter<u32>> {
        match self.octet()? {
            0 => {
                let n = self.number()?;
                let mut ids: Vec<u32> = Vec::new();
                for _ in 0..n {
                    ids.push(self.id()?);
                }
                Some(Filter::Id(ids))
            }
            _ => {
                let tag = self.text()?;
                let expr = match self.octet()? {
                    0 => None,
                    _ => Some(self.text()?),
                };
                Some(Filter::Tag(TagFilter { tag, expr }))
            }
        }
    }

    fn query(&mut self) -> Option<QueryMessage<u32, SocketAddress>> {
        let ltime = self.ltime()?;
        let id = self.id()?;
        let from = self.node()?;
        let n = self.number()?;
        let mut filters: Vec<Filter<u32>> = Vec::new();
        for _ in 0..n {
            filters.push(self.filter()?);
        }
        Some(QueryMessage {
            ltime,
            id,
            from,
            filters,
            flags: self.flags()?,
            relay_factor: self.octet()?,
            timeout: self.number()?,
            name: self.text()?,
            payload: self.bytes()?,
        })
    }

    fn response(&mut self) -> Option<QueryResponseMessage<u32, SocketAddress>> {
        Some(QueryResponseMessage {
            ltime: self.ltime()?,
            id: self.id()?,
            from: self.node()?,
            flags: self.flags()?,
            payload: self.bytes()?,
        })
    }

    fn push_pull(&mut self) -> Option<PushPullMessage<u32>> {
        let ltime = self.ltime()?;
        let mut status_ltimes: Vec<(u32, LamportTime)> = Vec::new();
        for _ in 0..self.number()? {
            status_ltimes.push((self.id()?, self.ltime()?));
        }
        let mut left_members: Vec<u32> = Vec::new();
        for _ in 0..self.number()? {
            left_members.push(self.id()?);
        }
        let event_ltime = self.ltime()?;
        let mut events: Vec<UserEvents> = Vec::new();
        for _ in 0..self.number()? {
            let ltime = self.ltime()?;
            let mut slot: Vec<UserEvent> = Vec::new();
            for _ in 0..self.number()? {
                slot.push(UserEvent { name: self.text()?, payload: self.bytes()? });
            }
            events.push(UserEvents { ltime, events: slot });
        }
        let query_ltime = self.ltime()?;
        Some(PushPullMessage {
            ltime,
            status_ltimes,
            left_members,
            event_ltime,
            events,
            query_ltime,
        })
    }

    fn key_response(&mut self) -> Option<KeyResponseMessage> {
        let result: bool = self.octet()? == 1;
        let message = self.text()?;
        let mut keys: Vec<SecretKey> = Vec::new();
        for _ in 0..self.number()? {
            keys.push(self.key()?);
        }
        let primary_key = self.key_option()?;
        Some(KeyResponseMessage { result, message, keys, primary_key })
    }

    fn body(&mut self, kind: u8) -> Option<AnyMessage<u32, SocketAddress>> {
        match kind {
            1 => Some(AnyMessage::UserEvent(UserEventMessage {
                ltime: self.ltime()?,
                cc: self.octet()? == 1,
                name: self.text()?,
                payload: self.bytes()?,
            })),
            2 => Some(AnyMessage::Join(JoinMessage { ltime: self.ltime()?, id: self.id()? })),
            3 => Some(AnyMessage::Leave(LeaveMessage {
                ltime: self.ltime()?,
                id: self.id()?,
                prune: self.octet()? == 1,
            })),
            4 => Some(AnyMessage::PushPull(self.push_pull()?)),
            5 => Some(AnyMessage::Query(self.query()?)),
            6 => Some(AnyMessage::QueryResponse(self.response()?)),
            7 => Some(AnyMessage::Relay(RelayMessage {
                destination: self.node()?,
                payload: self.bytes()?,
            })),
            8 => Some(AnyMessage::ConflictResponse(ConflictResponseMessage {
                member: self.node()?,
            })),
            9 => Some(AnyMessage::KeyRequest(KeyRequestMessage { key: self.key_option()? })),
            10 => Some(AnyMessage::KeyResponse(self.key_response()?)),
            _ => None,
        }
    }
}

fn message_type(data: &[u8]) -> Option<MessageType> {
    match data.first()? {
        1 => Some(MessageType::UserEvent),
        2 => Some(MessageType::Join),
        3 => Some(MessageType::Leave),
        4 => Some(MessageType::PushPull),
        5 => Some(MessageType::Query),
        6 => Some(MessageType::QueryResponse),
        7 => Some(MessageType::Relay),
        8 => Some(MessageType::ConflictResponse),
        9 => Some(MessageType::KeyRequest),
        10 => Some(MessageType::KeyResponse),
        _ => None,
    }
}

/// The message at the head of `data`, and how many bytes it takes.
fn decode_head(data: &[u8]) -> Option<(AnyMessage<u32, SocketAddress>, usize)> {
    let mut outer = Reader::new(data);
    let kind = outer.octet()?;
    let n = outer.number()? as usize;
    let body = outer.take(n)?;
    let mut inner = Reader::new(body);
    let msg = inner.body(kind)?;
    if inner.at != body.len() {
        return None;
    }
    Some((msg, outer.at))
}

trait Codec: Sized {
    fn encode(&self) -> Result<Bytes, ()>;
    fn decode(data: &Bytes) -> Result<Self, ()>;
}

impl Codec for AnyMessage<u32, SocketAddress> {
    fn encode(&self) -> Result<Bytes, ()> {
        let mut b: Vec<u8> = Vec::new();
        Ok(match self {
            AnyMessage::UserEvent(m) => encode_event(m),
            AnyMessage::Join(m) => {
                put_number(&mut b, m.ltime.0);
                put_number(&mut b, m.id as u64);
                frame(2, b)
            }
            AnyMessage::Leave(m) => {
                put_number(&mut b, m.ltime.0);
                put_number(&mut b, m.id as u64);
                b.push(m.prune as u8);
                frame(3, b)
            }
            AnyMessage::PushPull(m) => encode_push_pull(m),
            AnyMessage::Query(m) => encode_query(m),
            AnyMessage::QueryResponse(m) => encode_response(m),
            AnyMessage::Relay(m) => {
                put_node(&mut b, &m.destination);
                put_bytes(&mut b, &m.payload);
                frame(7, b)
            }
            AnyMessage::ConflictResponse(m) => {
                put_node(&mut b, &m.member);
                frame(8, b)
            }
            AnyMessage::KeyRequest(m) => {
                put_key_option(&mut b, &m.key);
                frame(9, b)
            }
            AnyMessage::KeyResponse(m) => {
                b.push(m.result as u8);
                put_bytes(&mut b, m.message.as_bytes());
                put_number(&mut b, m.keys.len() as u64);
                for key in &m.keys {
                    put_key(&mut b, key);
                }
                put_key_option(&mut b, &m.primary_key);
                frame(10, b)
            }
        })
    }

    fn decode(data: &Bytes) -> Result<Self, ()> {
        match decode_head(data) {
            Some((msg, n)) if n == data.len() => Ok(msg),
            _ => Err(()),
        }
    }
}

// The driver.

type Core = Endpoint<u32, SocketAddress, FlatTimeouts>;

/// How many bytes of metadata a node can gossip.
const META_LIMIT: usize = 512;

struct StreamEndpoint {
    core: Core,
    local: Node<u32, SocketAddress>,
    /// Events of the coordinator that the machine has not seen.
    inner: VecDeque<InnerEvent<u32, SocketAddress>>,
    /// Broadcasts, each with its tier.
    queue: Vec<(u8, Bytes)>,
    /// Packets that were sent.
    sends: Vec<(SocketAddress, Bytes)>,
    /// Those among them that ask for a relay.
    relays: Vec<(SocketAddress, Bytes)>,
    /// Peers that an exchange was started with.
    dials: Vec<SocketAddress>,
    /// What peers are told.
    snapshot: Bytes,
    /// Whether the coordinator refuses what peers are to be told.
    refuses_snapshots: bool,
    /// How many bytes a packet can have.
    mtu: usize,
    /// The metadata that is gossiped.
    meta: Vec<u8>,
    /// Whether a join ignores the events before it.
    ignores_old_events: bool,
    /// What goes out with the notice that the node leaves.
    farewell: Option<Bytes>,
    /// What is known of the coordinates of peers.
    coordinates: Vec<(u32, Duration, Bytes)>,
    next_stream: u64,
}

impl StreamEndpoint {
    fn over(core: Core) -> Self {
        StreamEndpoint {
            core,
            local: Node::new(1u32, at("127.0.0.1:7946")),
            inner: VecDeque::new(),
            queue: Vec::new(),
            sends: Vec::new(),
            relays: Vec::new(),
            dials: Vec::new(),
            snapshot: Bytes::new(),
            refuses_snapshots: false,
            mtu: 1400,
            meta: Vec::new(),
            ignores_old_events: false,
            farewell: None,
            coordinates: Vec::new(),
            next_stream: 1,
        }
    }

    fn joined(mut self) -> Self {
        self.inner.push_back(InnerEvent::NodeJoined {
            node: self.local.dup(),
            tags: Arc::new(Tags::new()),
        });
        self
    }

    fn new(opts: Options) -> Self {
        StreamEndpoint::over(Core::new(opts)).joined()
    }

    fn new_with_rng(opts: Options, rng: SmallRng) -> Self {
        StreamEndpoint::over(Core::new_with_rng(opts, rng)).joined()
    }

    fn core_mut(&mut self) -> &mut Core {
        &mut self.core
    }

    fn coordinator(&self) -> Coordinator<u32, SocketAddress> {
        Coordinator { local: self.local.dup(), queue_len: self.queue.len() }
    }

    fn send(&mut self, to: SocketAddress, data: Bytes) -> bool {
        let fits: bool = data.len() <= self.mtu;
        if fits {
            self.sends.push((to, data));
        }
        fits
    }

    fn bytes_of(frame: Frame<u32, SocketAddress>) -> Bytes {
        match frame {
            Frame::Ready(data) => data,
            Frame::Message(msg) => msg.encode().unwrap(),
            Frame::Answer { ltime, id, from, message } => encode_response(&QueryResponseMessage {
                ltime,
                id,
                from,
                flags: QueryFlag::empty(),
                payload: message.encode().unwrap(),
            }),
        }
    }

    fn perform(&mut self) {
        while let Some(action) = self.core.poll_action() {
            match action {
                Action::Broadcast { rank, frame } => self.queue.push((rank, Self::bytes_of(frame))),
                Action::Send { to, frame } => {
                    self.send(to, Self::bytes_of(frame));
                }
                Action::Relay { to, message } => {
                    let data = AnyMessage::Relay(message).encode().unwrap();
                    if self.send(to, data.clone()) {
                        self.relays.push((to, data));
                    } else {
                        self.core.relay_failed(to);
                    }
                }
                Action::Forward { to, payload } => {
                    if !self.send(to, payload) {
                        self.core.relay_failed(to);
                    }
                }
                Action::PushPull { peer } => {
                    self.start_push_pull(peer);
                }
                Action::ForgetCoordinate { id } => self.coordinates.retain(|entry| entry.0 != id),
                Action::UpdateCoordinate { id, rtt, payload } => {
                    self.coordinates.push((id, rtt, payload));
                }
            }
        }
    }

    fn poll_memberlist_transmit(&mut self) -> Option<(SocketAddress, Bytes)> {
        self.perform();
        if self.sends.is_empty() {
            None
        } else {
            Some(self.sends.remove(0))
        }
    }

    fn cached_coordinate(&self, id: &u32) -> Option<(Duration, Bytes)> {
        self.coordinates.iter().find(|c| c.0 == *id).map(|c| (c.1, c.2.clone()))
    }

    fn start_push_pull(&mut self, peer: SocketAddress) -> u64 {
        let stream: u64 = self.next_stream;
        self.next_stream += 1;
        self.dials.push(peer);
        self.inner.push_back(InnerEvent::DialRequested { stream, peer });
        stream
    }

    fn start_join_push_pull(&mut self, peer: SocketAddress, ignore_old: bool, _now: Instant) -> u64 {
        let stream = self.start_push_pull(peer);
        if ignore_old {
            self.core.note_ignore_join_stream(stream);
        }
        stream
    }

    fn tell(&mut self, state: Option<PushPullMessage<u32>>) {
        if let Some(state) = state {
            if !self.refuses_snapshots {
                self.snapshot = encode_push_pull(&state);
            }
            self.core.local_state_accepted(!self.refuses_snapshots);
        }
    }

    fn resync_local_state(&mut self) {
        let state = self.core.resync_local_state();
        self.tell(state);
    }

    fn acknowledgement(&self, msg: &QueryMessage<u32, SocketAddress>) -> Option<Bytes> {
        Some(encode_response(&Core::acknowledgement(&self.coordinator(), msg)))
    }

    fn inject(&mut self, ev: InnerEvent<u32, SocketAddress>) {
        let c = self.coordinator();
        if let Some(msg) = self.core.on_inner_event(&c, ev) {
            self.perform();
            let now = self.core.drain_now;
            let _ = self.issue(msg, QueryPurpose::Conflict, now);
        }
        self.perform();
    }

    fn drain_inner(&mut self) {
        self.perform();
        while let Some(ev) = self.inner.pop_front() {
            self.inject(ev);
        }
        let state = self.core.stale_local_state();
        self.tell(state);
    }

    fn poll_event(&mut self) -> Option<Event<u32, SocketAddress>> {
        self.drain_inner();
        self.core.poll_event()
    }

    fn poll_timeout(&mut self) -> Option<Instant> {
        self.core.serf_poll_timeout()
    }

    fn redials(odds: Odds) -> bool {
        let roll = odds.draw as f32 / (1u32 << 24) as f32;
        !(roll > odds.num_failed as f32 / odds.num_alive as f32)
    }

    fn handle_timeout(&mut self, now: Instant) {
        let state = self.core.before_inner_timeout(now);
        self.tell(state);
        self.drain_inner();
        let odds = self.core.begin_deadlines(now);
        let dial = match odds {
            Some(odds) => Self::redials(odds),
            None => false,
        };
        self.core.fire_reconnect(now, dial);
        self.drain_inner();
        self.core.end_deadlines(now);
        self.drain_inner();
    }

    fn packet(&self, data: Bytes) -> Packet<u32, SocketAddress> {
        let decoded = decode_head(&data);
        let mut nested = None;
        let mut ack_frame = None;
        match &decoded {
            Some((AnyMessage::Query(msg), _)) => {
                nested = decode_head(&msg.payload);
                ack_frame = self.acknowledgement(msg);
            }
            Some((AnyMessage::QueryResponse(msg), _)) => nested = decode_head(&msg.payload),
            _ => {}
        }
        Packet { header: message_type(&data), decoded, nested, ack_frame, data }
    }

    fn handle_packet(&mut self, from: SocketAddress, data: Bytes, now: Instant) {
        self.core.drain_after_ingress(now);
        self.test_inject_user_packet(from, data, now);
        self.drain_inner();
    }

    fn issue(
        &mut self,
        msg: QueryMessage<u32, SocketAddress>,
        purpose: QueryPurpose,
        now: Instant,
    ) -> Result<QueryId, Error> {
        let encoded = Some(encode_query(&msg));
        let nested = decode_head(&msg.payload);
        let ack_frame = self.acknowledgement(&msg);
        let c = self.coordinator();
        let r = self.core.issue_query(&c, msg, purpose, encoded, nested, ack_frame, now);
        self.perform();
        r
    }

    fn query(
        &mut self,
        name: &str,
        payload: Bytes,
        params: QueryParams<u32>,
        now: Instant,
    ) -> Result<QueryId, Error> {
        let c = self.coordinator();
        let msg = self.core.query(&c, name.to_string(), payload, params)?;
        self.issue(msg, QueryPurpose::App, now)
    }

    fn key_payload(key: Option<SecretKey>) -> Option<Bytes> {
        let msg: AnyMessage<u32, SocketAddress> = AnyMessage::KeyRequest(KeyRequestMessage { key });
        msg.encode().ok()
    }

    fn install_key(&mut self, key: SecretKey, now: Instant) -> Result<QueryId, Error> {
        let c = self.coordinator();
        let msg = self.core.install_key(&c, Self::key_payload(Some(key)))?;
        self.issue(msg, QueryPurpose::Key, now)
    }

    fn use_key(&mut self, key: SecretKey, now: Instant) -> Result<QueryId, Error> {
        let c = self.coordinator();
        let msg = self.core.use_key(&c, Self::key_payload(Some(key)))?;
        self.issue(msg, QueryPurpose::Key, now)
    }

    fn remove_key(&mut self, key: SecretKey, now: Instant) -> Result<QueryId, Error> {
        let c = self.coordinator();
        let msg = self.core.remove_key(&c, Self::key_payload(Some(key)))?;
        self.issue(msg, QueryPurpose::Key, now)
    }

    fn list_keys(&mut self, now: Instant) -> Result<QueryId, Error> {
        let c = self.coordinator();
        let msg = self.core.list_keys(&c, Self::key_payload(None))?;
        self.issue(msg, QueryPurpose::Key, now)
    }

    fn send_response(
        &mut self,
        query_id: QueryId,
        querier: &Node<u32, SocketAddress>,
        relay_factor: u8,
        msg: QueryResponseMessage<u32, SocketAddress>,
        now: Instant,
    ) -> Result<(), Error> {
        let encoded = encode_response(&msg);
        let to = self.core.respond_inner(&query_id, &Some(encoded.clone()), now)?;
        let sent = self.send(to, encoded.clone());
        let c = self.coordinator();
        let r = self.core.response_sent(&c, &query_id, querier, relay_factor, &encoded, sent);
        self.perform();
        r
    }

    fn respond(
        &mut self,
        token: &QueryEvent<u32, SocketAddress>,
        payload: Bytes,
        now: Instant,
    ) -> Result<(), Error> {
        let msg = self.core.respond(&self.coordinator(), token, payload)?;
        let query_id = QueryId { ltime: token.ltime, id: token.id };
        self.send_response(query_id, &token.from, token.relay_factor, msg, now)
    }

    fn respond_key(
        &mut self,
        req: &KeyRequest<u32, SocketAddress>,
        args: KeyResponseArgs,
        now: Instant,
    ) -> Result<(), Error> {
        let answer = AnyMessage::<u32, SocketAddress>::KeyResponse(args.into_message());
        let msg = self.core.respond_key(&self.coordinator(), req, answer.encode().ok())?;
        let query_id = QueryId { ltime: req.ltime, id: req.id };
        self.send_response(query_id, &req.from, req.relay_factor, msg, now)
    }

    fn user_event(
        &mut self,
        name: &str,
        payload: Bytes,
        coalesce: bool,
        now: Instant,
    ) -> Result<(), Error> {
        let msg = self.core.user_event(name.to_string(), payload, coalesce, now)?;
        let encoded = Some(encode_event(&msg));
        let r = self.core.fire_user_event(msg, encoded);
        self.perform();
        r
    }

    fn join(&mut self) -> Result<(), Error> {
        let c = self.coordinator();
        let r = self.core.join(&c);
        self.perform();
        r
    }

    fn leave(&mut self, now: Instant) -> Result<(), Error> {
        let c = self.coordinator();
        if let Some(farewell) = self.core.leave(&c, now)? {
            self.farewell = AnyMessage::<u32, SocketAddress>::Leave(farewell).encode().ok();
        }
        self.perform();
        Ok(())
    }

    fn force_leave(&mut self, id: u32, prune: bool, now: Instant) -> Result<(), Error> {
        let c = self.coordinator();
        let r = self.core.force_leave(&c, id, prune, now);
        self.perform();
        r
    }

    fn set_tags(&mut self, tags: Tags, now: Instant) -> Result<(), Error> {
        let meta = encode_tags(&tags);
        self.core.set_tags(meta.len(), META_LIMIT, now)?;
        self.meta = meta;
        let tags = Arc::new(tags);
        self.inner.push_back(InnerEvent::NodeUpdated {
            node: self.local.dup(),
            tags: tags.clone(),
        });
        let c = self.coordinator();
        self.core.apply_tags(&c, tags);
        self.drain_inner();
        Ok(())
    }

    fn load_snapshot(
        &mut self,
        replay: ReplayResult<u32, SocketAddress>,
        _now: Instant,
    ) -> Result<(), Error> {
        let c = self.coordinator();
        let r = self.core.load_snapshot(&c, replay);
        self.perform();
        r
    }

    fn state(&self) -> SerfState {
        self.core.state()
    }

    fn member_time(&self) -> u64 {
        self.core.member_time()
    }

    fn event_time(&self) -> u64 {
        self.core.event_time()
    }

    fn query_time(&self) -> u64 {
        self.core.query_time()
    }

    fn num_members(&self) -> usize {
        self.core.num_members()
    }

    fn leave_complete_deadline(&self) -> Option<Instant> {
        self.core.leave_complete_deadline()
    }

    fn leave_broadcast_deadline(&self) -> Option<Instant> {
        self.core.leave_broadcast_deadline()
    }

    fn user_broadcast_queue_len(&self) -> usize {
        self.queue.len()
    }

    fn handle_user_event(&mut self, msg: UserEventMessage) -> bool {
        self.core.handle_user_event(msg)
    }

    fn handle_node_join_intent(&mut self, ltime: LamportTime, id: &u32, now: Instant) -> bool {
        let r = self.core.handle_node_join_intent(ltime, id, now);
        self.perform();
        r
    }

    fn handle_node_leave_intent(
        &mut self,
        ltime: LamportTime,
        id: &u32,
        prune: bool,
        now: Instant,
    ) -> bool {
        let local = self.local.id;
        let r = self.core.handle_node_leave_intent(&local, ltime, id, prune, now);
        self.perform();
        r
    }

    // What tests set and look at.

    fn test_member_status(&self, id: u32) -> Option<MemberStatus> {
        self.core.members.states.get(&id).map(|ms| ms.member.status)
    }

    fn test_member_status_time(&self, id: u32) -> Option<LamportTime> {
        self.core.members.states.get(&id).map(|ms| ms.status_time)
    }

    fn seed(
        &mut self,
        node: Node<u32, SocketAddress>,
        tags: Tags,
        status: MemberStatus,
        status_time: LamportTime,
        leave_time: Option<Instant>,
    ) {
        let id = node.id;
        let member = Member::new(node, Arc::new(tags), status);
        self.core.members.states.insert(id, MemberState { member, status_time, leave_time });
    }

    fn test_seed_member(&mut self, id: u32, status: MemberStatus, status_time: LamportTime) {
        self.seed(Node::new(id, addr(0)), Tags::new(), status, status_time, None);
    }

    fn test_seed_member_at(
        &mut self,
        id: u32,
        addr: SocketAddress,
        status: MemberStatus,
        status_time: LamportTime,
    ) {
        self.seed(Node::new(id, addr), Tags::new(), status, status_time, None);
    }

    fn test_seed_member_with_tags(
        &mut self,
        id: u32,
        tags: Tags,
        status: MemberStatus,
        status_time: LamportTime,
    ) {
        self.seed(Node::new(id, addr(0)), tags, status, status_time, None);
    }

    fn test_seed_failed_member_by_status(&mut self, id: u32, time: LamportTime, now: Instant) {
        self.seed(Node::new(id, addr(0)), Tags::new(), MemberStatus::Failed, time, Some(now));
        self.core.members.failed_members.push(id);
    }

    fn test_seed_left_member_by_status(&mut self, id: u32, time: LamportTime, now: Instant) {
        self.seed(Node::new(id, addr(0)), Tags::new(), MemberStatus::Left, time, Some(now));
        self.core.members.left_members.push(id);
    }

    fn test_seed_failed_member(&mut self, id: u32, addr: SocketAddress, now: Instant) {
        let zero = LamportTime::new(0);
        self.seed(Node::new(id, addr), Tags::new(), MemberStatus::Failed, zero, Some(now));
        self.core.members.failed_members.push(id);
    }

    fn test_seed_left_member(&mut self, id: u32, time: LamportTime) {
        self.seed(Node::new(id, addr(0)), Tags::new(), MemberStatus::Left, time, Some(ORIGIN));
        self.core.members.left_members.push(id);
        self.core.local_state_dirty = true;
    }

    fn test_handle_join_intent(&mut self, id: u32, ltime: LamportTime, now: Instant) -> bool {
        self.handle_node_join_intent(ltime, &id, now)
    }

    fn test_handle_leave_intent(&mut self, id: u32, ltime: LamportTime, now: Instant) -> bool {
        self.handle_node_leave_intent(ltime, &id, false, now)
    }

    fn test_inner_node_joined(&mut self, id: u32, now: Instant) {
        self.core.drain_now = now;
        self.core.handle_node_join(Node::new(id, addr(0)), Arc::new(Tags::new()));
    }

    fn test_inner_node_left(&mut self, id: u32, now: Instant) {
        self.core.drain_now = now;
        self.core.handle_node_leave(&id, now);
    }

    fn test_inner_node_updated(&mut self, id: u32, now: Instant) {
        self.core.drain_now = now;
        self.core.handle_node_update(Node::new(id, addr(0)), Arc::new(Tags::new()));
    }

    fn test_inner_left_cluster(&mut self) {
        self.inject(InnerEvent::LeftCluster);
    }

    fn test_ping_completed(&mut self, id: u32, rtt: Duration, payload: Bytes) {
        self.inject(InnerEvent::PingCompleted { id, rtt, payload });
    }

    fn test_in_failed_members(&self, id: u32) -> bool {
        self.core.members.failed_members.contains(&id)
    }

    fn test_in_left_members(&self, id: u32) -> bool {
        self.core.members.left_members.contains(&id)
    }

    fn test_fire_reconnect(&mut self, now: Instant) {
        self.core.next_reconnect = Some(now);
        let dial = match self.core.reconnect_odds(now) {
            Some(odds) => Self::redials(odds),
            None => false,
        };
        self.core.fire_reconnect(now, dial);
        self.perform();
    }

    fn test_fire_reap(&mut self, now: Instant) {
        self.core.fire_reap(now);
        self.perform();
    }

    fn test_last_dial_addr(&self) -> Option<SocketAddress> {
        self.dials.last().copied()
    }

    fn test_rejoin_dials(&self) -> Vec<SocketAddress> {
        self.dials.clone()
    }

    fn test_handle_user_event(&mut self, msg: UserEventMessage) -> bool {
        self.core.handle_user_event(msg)
    }

    fn test_set_event_min_time(&mut self, t: u64) {
        self.core.event_buffer.min_time = t;
    }

    fn test_set_event_clock(&mut self, t: u64) {
        self.core.event_clock = t;
    }

    fn test_event_slot_len(&self, ltime: u64) -> usize {
        let slots = &self.core.event_buffer.buffer;
        match &slots[(ltime % slots.len() as u64) as usize] {
            Some(slot) if slot.ltime.0 == ltime => slot.events.len(),
            _ => 0,
        }
    }

    fn test_query_slot_len(&self, ltime: u64) -> usize {
        let slots = &self.core.query_buffer.buffer;
        match &slots[(ltime % slots.len() as u64) as usize] {
            Some(slot) if slot.ltime.0 == ltime => slot.query_ids.len(),
            _ => 0,
        }
    }

    fn test_inject_user_packet(&mut self, _from: SocketAddress, data: Bytes, now: Instant) {
        self.core.drain_now = now;
        let packet = self.packet(data);
        self.inject(InnerEvent::UserPacket(packet));
    }

    fn test_set_clocks(&mut self, member: u64, event: u64, query: u64) {
        self.core.clock = member;
        self.core.event_clock = event;
        self.core.query_clock = query;
        self.core.local_state_dirty = true;
    }

    fn test_inner_local_state_snapshot(&self) -> Bytes {
        self.snapshot.clone()
    }

    fn test_decode_pushpull(&self, data: &Bytes) -> PushPullMessage<u32> {
        match AnyMessage::<u32, SocketAddress>::decode(data) {
            Ok(AnyMessage::PushPull(pp)) => pp,
            _ => panic!("expected PushPull"),
        }
    }

    fn test_local_tags(&self) -> Option<Arc<Tags>> {
        self.core.members.states.get(&self.local.id).map(|ms| ms.member.tags.clone())
    }

    fn test_local_meta(&self) -> Option<Tags> {
        let mut r = Reader::new(&self.meta);
        let mut entries: Vec<(String, String)> = Vec::new();
        for _ in 0..r.number()? {
            entries.push((r.text()?, r.text()?));
        }
        Some(Tags { entries })
    }

    fn test_clear_dirty(&mut self) {
        self.core.local_state_dirty = false;
    }

    fn test_is_dirty(&self) -> bool {
        self.core.local_state_dirty
    }

    fn test_note_ignore_join_stream(&mut self, id: u64) {
        self.core.note_ignore_join_stream(id);
    }

    fn test_has_ignore_join_stream(&self, id: u64) -> bool {
        self.core.ignore_join_streams.contains(&id)
    }

    fn test_event_min_time(&self) -> u64 {
        self.core.event_buffer.min_time
    }

    fn test_query_min_time(&self) -> u64 {
        self.core.query_buffer.min_time
    }

    fn merge(&mut self, data: Bytes, suppress: bool) {
        let c = self.coordinator();
        self.core.merge_remote_state(&c, decode_head(&data), data.len(), suppress);
        self.perform();
    }

    fn test_merge_remote_state(&mut self, data: Bytes) {
        self.merge(data, false);
    }

    fn test_merge_remote_state_suppressed(&mut self, data: Bytes) {
        self.merge(data, true);
    }

    fn test_merge_remote_state_with_stream(&mut self, data: Bytes, is_join: bool, stream: u64) {
        let suppress = is_join && self.core.consume_ignore_join_stream(stream);
        self.merge(data, suppress);
    }

    fn test_set_event_join_ignore(&mut self, ignore: bool) {
        self.ignores_old_events = ignore;
    }

    fn test_merge_exchange(&mut self, data: Bytes, is_join: bool) {
        self.merge(data, is_join && self.ignores_old_events);
    }

    fn test_intent_ltime(&self, id: u32, kind: IntentKind) -> Option<LamportTime> {
        self.core.members.recent_intent(&id, kind)
    }

    fn test_handle_query(&mut self, msg: QueryMessage<u32, SocketAddress>) -> bool {
        let nested = decode_head(&msg.payload);
        let ack_frame = self.acknowledgement(&msg);
        let c = self.coordinator();
        let r = self.core.handle_query(&c, msg, QueryOrigin::Inbound, nested, ack_frame);
        self.perform();
        r
    }

    fn test_set_drain_now(&mut self, now: Instant) {
        self.core.drain_now = now;
    }

    fn test_member_flush_deadline(&self) -> Option<Instant> {
        self.core.member_coalescer.as_ref().and_then(|c| c.window.flush_deadline())
    }

    fn test_user_flush_deadline(&self) -> Option<Instant> {
        self.core.user_coalescer.as_ref().and_then(|c| c.window.flush_deadline())
    }

    fn test_last_query_id(&self) -> Option<QueryId> {
        self.core.pending_queries.last().map(|pq| pq.query_id)
    }

    fn test_pending_query_count(&self) -> usize {
        self.core.pending_queries.len()
    }

    fn test_received_queries_len(&self) -> usize {
        self.core.received_queries.len()
    }

    fn test_peek_received_query_deadlines(&self) -> Vec<Instant> {
        (0..self.core.received_queries.len())
            .map(|i| self.core.received_queries.entry_at(i).1.deadline)
            .collect()
    }

    fn test_register_received_query(
        &mut self,
        query_id: QueryId,
        querier: SocketAddress,
        deadline: Instant,
    ) -> QueryEvent<u32, SocketAddress> {
        self.core.received_queries.insert(query_id, ReceivedQuery { from: querier, deadline });
        QueryEvent {
            id: query_id.id,
            ltime: query_id.ltime,
            from: Node::new(0u32, querier),
            name: "test".to_string(),
            payload: Bytes::new(),
            relay_factor: 0,
            deadline,
        }
    }

    fn test_handle_query_response(&mut self, msg: QueryResponseMessage<u32, SocketAddress>) {
        let nested = decode_head(&msg.payload);
        let c = self.coordinator();
        self.core.handle_query_response(&c, msg, nested);
        self.perform();
    }

    fn test_is_responded(&self, query_id: QueryId) -> bool {
        !self.core.received_queries.contains_key(&query_id)
    }

    fn test_recent_intents_len(&self) -> usize {
        self.core.members.recent_intents.len()
    }

    fn pending(&mut self, query_id: QueryId) -> Option<&mut PendingQuery<u32>> {
        self.core.pending_queries.iter_mut().find(|pq| pq.query_id == query_id)
    }

    fn test_pending_query_conflict_matching(&mut self, query_id: QueryId) -> Option<usize> {
        self.pending(query_id).map(|pq| pq.conflict_matching)
    }

    fn test_pending_query_response_count(&mut self, query_id: QueryId) -> usize {
        self.pending(query_id).map_or(0, |pq| pq.responses.len())
    }

    fn test_last_pending_query_num_nodes(&self) -> Option<usize> {
        self.core.pending_queries.last().map(|pq| pq.num_nodes)
    }

    fn test_relay_response(
        &mut self,
        querier: Node<u32, SocketAddress>,
        frame: Bytes,
        relay_factor: u8,
    ) {
        let c = self.coordinator();
        let draws = self.core.draw_relays(&c, &frame, relay_factor);
        self.core.relay_response(&c, &querier, &frame, relay_factor, &draws);
        self.perform();
    }

    fn test_handle_relay(&mut self, relay: RelayMessage<u32, SocketAddress>) {
        let c = self.coordinator();
        self.core.handle_relay(&c, relay);
        self.perform();
    }

    fn test_last_directed_send(&self) -> Option<(SocketAddress, Bytes)> {
        self.sends.last().cloned()
    }

    fn test_relay_all_directed_sends(&self) -> Vec<(SocketAddress, Bytes)> {
        self.relays.clone()
    }

    fn register(&mut self, kind: QueryPurpose, deadline: Instant, id: u32, nodes: usize) -> QueryId {
        let query_id = QueryId { ltime: LamportTime::new(self.core.query_clock), id };
        let pq = PendingQuery::new(kind, deadline, query_id, false, nodes);
        self.core.pending_queries.push(pq);
        query_id
    }

    fn test_register_conflict_query(&mut self, deadline: Instant) -> QueryId {
        self.register(QueryPurpose::Conflict, deadline, 99, 0)
    }

    fn test_register_key_query(&mut self, deadline: Instant) -> QueryId {
        let nodes = self.core.members.states.len();
        self.register(QueryPurpose::Key, deadline, 77, nodes)
    }

    fn test_fold_conflict_response(&mut self, query_id: QueryId, responder: u32, agrees: bool) {
        if let Some(pq) = self.pending(query_id) {
            pq.responses.push(responder);
            if agrees {
                pq.conflict_matching += 1;
            }
        }
    }

    fn test_fire_due_query_closes(&mut self, now: Instant) {
        self.core.fire_due_query_closes(now);
        self.perform();
    }

    fn test_inject_inner_joined(&mut self, id: u32, now: Instant) {
        self.test_inner_node_joined(id, now);
    }

    fn test_enqueue_intent_broadcast(&mut self, data: Bytes) {
        self.queue.push((0, data));
    }

    fn test_enqueue_query_broadcast(&mut self, data: Bytes) {
        self.queue.push((1, data));
    }
}

// Values.

fn no_broadcast() -> QueryFlag {
    QueryFlag { ack: false, no_broadcast: true }
}

fn secs(n: u64) -> Duration {
    n * SECOND
}

fn millis(n: u64) -> Duration {
    n * MILLISECOND
}

fn t_secs(n: u64) -> Instant {
    ORIGIN + secs(n)
}

/// The address that `text` writes as four numbers and a port.
fn at(text: &str) -> SocketAddress {
    let (host, port) = text.split_once(':').unwrap();
    let mut ip: u128 = 0;
    for part in host.split('.') {
        ip = ip * 256 + part.parse::<u128>().unwrap();
    }
    SocketAddress { v6: false, ip, port: port.parse().unwrap() }
}

fn addr(port: u16) -> SocketAddress {
    at(&format!("127.0.0.1:{port}"))
}

fn tags(entries: &[(&str, &str)]) -> Tags {
    Tags { entries: entries.iter().map(|(k, v)| (k.to_string(), v.to_string())).collect() }
}

fn join_message(ltime: LamportTime, id: u32) -> JoinMessage<u32> {
    JoinMessage { ltime, id }
}

fn leave_message(ltime: LamportTime, id: u32, prune: bool) -> LeaveMessage<u32> {
    LeaveMessage { ltime, id, prune }
}

fn relay_message(
    destination: Node<u32, SocketAddress>,
    payload: Bytes,
) -> RelayMessage<u32, SocketAddress> {
    RelayMessage { destination, payload }
}

fn copy_query(m: &QueryMessage<u32, SocketAddress>) -> QueryMessage<u32, SocketAddress> {
    match AnyMessage::<u32, SocketAddress>::decode(&encode_query(m)) {
        Ok(AnyMessage::Query(copy)) => copy,
        _ => panic!("a query reads back"),
    }
}

fn copy_response(
    m: &QueryResponseMessage<u32, SocketAddress>,
) -> QueryResponseMessage<u32, SocketAddress> {
    match AnyMessage::<u32, SocketAddress>::decode(&encode_response(m)) {
        Ok(AnyMessage::QueryResponse(copy)) => copy,
        _ => panic!("a response reads back"),
    }
}

/// A machine whose node has joined, with the default options.
fn ep() -> StreamEndpoint {
    let mut e = StreamEndpoint::new(Options::new());
    let _ = e.poll_event();
    e
}

/// A machine that has seen nothing yet.
fn fresh() -> StreamEndpoint {
    StreamEndpoint::over(Core::new(Options::new()))
}

#[test]
fn new_endpoint_starts_alive_with_zero_clocks() {
    let e = ep();
    assert!(e.state().is_alive());
    assert_eq!(e.member_time(), 0);
    assert_eq!(e.event_time(), 0);
    assert_eq!(e.query_time(), 0);

    assert_eq!(e.num_members(), 1);
}

#[test]
fn poll_event_drains_when_inner_empty() {
    let mut e = ep();
    assert!(e.poll_event().is_none());
}

#[test]
fn poll_timeout_is_none_on_idle_alive_endpoint() {
    let mut e = ep();
    let _ = e.poll_timeout();
}

#[test]
fn handle_packet_with_garbage_bytes_is_a_noop() {
    let mut e = ep();
    e.handle_packet(at("127.0.0.1:9999"), Bytes::from_static(b"\xff\xff"), ORIGIN);

    assert!(e.poll_event().is_none());
}

#[test]
fn poll_memberlist_transmit_delegates_to_coordinator() {
    let mut e = ep();

    assert!(e.poll_memberlist_transmit().is_none());
}

#[test]
fn leave_intent_for_known_alive_self_refutes_and_does_not_rebroadcast() {
    let mut e = ep();
    e.test_seed_member(1u32, MemberStatus::Alive, LamportTime::new(0));
    let rebroadcast =
        e.test_handle_leave_intent(1, LamportTime::new(5), ORIGIN);
    assert!(
        !rebroadcast,
        "fresh self-leave while Alive and known must be refuted, not rebroadcast"
    );

    assert!(e.member_time() >= 6, "member clock should have been witnessed");
}

#[test]
fn stale_leave_intent_is_dropped() {
    let mut e = ep();

    e.test_seed_member(2, MemberStatus::Alive, LamportTime::new(10));
    let rebroadcast =
        e.test_handle_leave_intent(2, LamportTime::new(3), ORIGIN);
    assert!(!rebroadcast, "stale leave intent must not be rebroadcast");
    assert_eq!(
        e.test_member_status(2),
        Some(MemberStatus::Alive),
        "stale intent must not change member status"
    );
}

#[test]
fn live_leave_intent_transitions_alive_to_leaving() {
    let mut e = ep();
    e.test_seed_member(2, MemberStatus::Alive, LamportTime::new(5));
    let rebroadcast =
        e.test_handle_leave_intent(2, LamportTime::new(8), ORIGIN);
    assert!(rebroadcast, "fresh leave intent for Alive should rebroadcast");
    assert_eq!(e.test_member_status(2), Some(MemberStatus::Leaving));
    assert!(e.member_time() >= 9, "member clock must have been witnessed");
}

#[test]
fn leave_intent_for_failed_transitions_to_left_and_emits_leave_event() {
    let mut e = ep();

    e.test_seed_failed_member_by_status(2, LamportTime::new(5), ORIGIN);
    let rebroadcast =
        e.test_handle_leave_intent(2, LamportTime::new(9), ORIGIN);
    assert!(rebroadcast, "leave intent for Failed should rebroadcast");
    assert_eq!(
        e.test_member_status(2),
        Some(MemberStatus::Left),
        "Failed + leave intent should transition to Left"
    );

    let ev = e.poll_event();
    assert!(
        matches!(ev, Some(Event::Member(ref me)) if me.kind() == MemberEventKind::Leave),
        "expected Member(Leave) event"
    );
}

#[test]
fn leave_intent_for_unknown_node_is_buffered_as_intent() {
    let mut e = ep();

    let rebroadcast =
        e.test_handle_leave_intent(99, LamportTime::new(3), ORIGIN);
    assert!(rebroadcast, "unknown node leave intent should be buffered");
    assert_eq!(e.test_member_status(99), None, "no member should be created");
}

#[test]
fn join_intent_for_existing_leaving_member_clears_to_alive() {
    let mut e = ep();

    e.test_seed_member(2, MemberStatus::Leaving, LamportTime::new(5));

    let rebroadcast =
        e.test_handle_join_intent(2, LamportTime::new(8), ORIGIN);
    assert!(rebroadcast, "fresh join intent for Leaving should rebroadcast");
    assert_eq!(e.test_member_status(2), Some(MemberStatus::Alive));
    assert!(e.member_time() >= 9, "member clock must have been witnessed");
}

#[test]
fn stale_join_intent_for_existing_member_is_ignored() {
    let mut e = ep();
    e.test_seed_member(2, MemberStatus::Alive, LamportTime::new(10));
    let rebroadcast =
        e.test_handle_join_intent(2, LamportTime::new(3), ORIGIN);
    assert!(!rebroadcast, "stale join intent must not rebroadcast");
}

#[test]
fn join_intent_for_unknown_node_is_buffered() {
    let mut e = ep();
    assert!(
        e.test_handle_join_intent(3, LamportTime::new(7), ORIGIN),
        "first join intent for unknown node should be buffered"
    );
    assert_eq!(e.test_member_status(3), None);
}

#[test]
fn inner_node_joined_with_pending_leave_intent_creates_leaving_member() {
    let mut e = ep();

    e.test_handle_leave_intent(2, LamportTime::new(7), ORIGIN);

    e.test_inner_node_joined(2, ORIGIN);

    assert_eq!(e.test_member_status(2), Some(MemberStatus::Leaving));

    let ev = e.poll_event();
    assert!(
        matches!(ev, Some(Event::Member(ref me)) if me.kind() == MemberEventKind::Join),
        "expected Member(Join)"
    );
}

#[test]
fn inner_node_joined_without_intents_creates_alive_member() {
    let mut e = ep();
    e.test_inner_node_joined(2, ORIGIN);
    assert_eq!(e.test_member_status(2), Some(MemberStatus::Alive));
    let ev = e.poll_event();
    assert!(matches!(ev, Some(Event::Member(ref me)) if me.kind() == MemberEventKind::Join));
}

#[test]
fn inner_node_left_alive_transitions_to_failed() {
    let mut e = ep();
    e.test_seed_member(2, MemberStatus::Alive, LamportTime::new(5));
    e.test_inner_node_left(2, ORIGIN);
    assert_eq!(e.test_member_status(2), Some(MemberStatus::Failed));
    let ev = e.poll_event();
    assert!(matches!(ev, Some(Event::Member(ref me)) if me.kind() == MemberEventKind::Failed));
}

#[test]
fn inner_node_left_leaving_transitions_to_left() {
    let mut e = ep();
    e.test_seed_member(2, MemberStatus::Leaving, LamportTime::new(5));
    e.test_inner_node_left(2, ORIGIN);
    assert_eq!(e.test_member_status(2), Some(MemberStatus::Left));
    let ev = e.poll_event();
    assert!(matches!(ev, Some(Event::Member(ref me)) if me.kind() == MemberEventKind::Leave));
}

#[test]
fn inner_node_left_unknown_is_a_noop() {
    let mut e = ep();

    e.test_inner_node_left(99, ORIGIN);
    assert_eq!(e.test_member_status(99), None);
    assert!(e.poll_event().is_none());
}

#[test]
fn inner_node_updated_refreshes_member_and_emits_update_event() {
    let mut e = ep();
    e.test_seed_member(2, MemberStatus::Alive, LamportTime::new(3));
    e.test_inner_node_updated(2, ORIGIN);
    assert_eq!(e.test_member_status(2), Some(MemberStatus::Alive));
    let ev = e.poll_event();
    assert!(matches!(ev, Some(Event::Member(ref me)) if me.kind() == MemberEventKind::Update));
}

#[test]
fn inner_node_updated_for_unknown_is_a_noop() {
    let mut e = ep();
    e.test_inner_node_updated(99, ORIGIN);
    assert!(e.poll_event().is_none());
}

#[test]
fn inner_node_updated_does_not_dirty_local_state() {
    let mut e = ep();
    e.test_seed_member(2, MemberStatus::Alive, LamportTime::new(3));
    e.resync_local_state();
    assert!(!e.test_is_dirty(), "resync_local_state clears the dirty flag");

    e.test_inner_node_updated(2, ORIGIN);

    assert!(!e.test_is_dirty(), "a tag-only NodeUpdated must not mark local_state_dirty");

    assert!(matches!(
        e.poll_event(),
        Some(Event::Member(ref me)) if me.kind() == MemberEventKind::Update
    ));
}

#[test]
fn handle_node_join_re_joining_failed_clears_lists() {
    let mut e = ep();

    e.test_seed_failed_member_by_status(2, LamportTime::new(5), ORIGIN);
    assert!(e.test_in_failed_members(2), "should be in failed_members");

    e.test_inner_node_joined(2, ORIGIN);
    assert_eq!(e.test_member_status(2), Some(MemberStatus::Alive));
    assert!(!e.test_in_failed_members(2), "should be cleared from failed_members");
}

#[test]
fn leave_intent_no_op_on_none_status() {
    let mut e = ep();

    e.test_seed_member(2, MemberStatus::Unknown, LamportTime::new(5));
    let rebroadcast =
        e.test_handle_leave_intent(2, LamportTime::new(8), ORIGIN);

    assert!(!rebroadcast, "None-status leave intent returns false");
    assert_eq!(e.test_member_status(2), Some(MemberStatus::Unknown));
}

#[test]
fn leave_from_alive_transitions_to_leaving() {
    let mut e = ep();
    e.leave(ORIGIN).unwrap();
    assert!(e.state().is_leaving(), "leave() must set state to Leaving");
}

#[test]
fn leave_at_ltime_watermark_parks_degraded_but_safe() {
    let mut e = ep();

    e.test_set_clocks(LTIME_MAX - 1, 0, 0);
    let q_before = e.user_broadcast_queue_len();

    let err = e
        .leave(ORIGIN)
        .expect_err("a leave whose stamp reaches LTIME_MAX must be refused");
    assert!(matches!(err, Error::LeaveClockExhausted), "expected LeaveClockExhausted, got {err:?}");

    assert_eq!(
        e.user_broadcast_queue_len(),
        q_before,
        "the degraded leave must not queue a leave intent"
    );
    assert_eq!(
        e.member_time(),
        LTIME_MAX - 1,
        "the degraded leave must not advance the member clock"
    );
    assert!(e.state().is_alive(), "the endpoint must remain Alive");
    assert_eq!(
        e.test_member_status(1),
        Some(MemberStatus::Alive),
        "self-membership must stay consistent (Alive, not a half-Leaving)"
    );
}

#[test]
fn leave_one_below_watermark_succeeds() {
    let mut e = ep();
    e.test_set_clocks(LTIME_MAX - 2, 0, 0);
    e.leave(ORIGIN)
        .expect("a leave whose stamp is LTIME_MAX - 1 must still apply");

    assert!(e.state().is_leaving(), "the boundary leave must transition to Leaving");
    assert_eq!(
        e.test_member_status(1),
        Some(MemberStatus::Leaving),
        "self-membership must transition to Leaving on the boundary leave"
    );
}

#[test]
fn double_leave_is_rejected() {
    let mut e = ep();
    e.leave(ORIGIN).unwrap();
    let err = e
        .leave(ORIGIN)
        .expect_err("second leave from Leaving must fail");
    assert!(matches!(err, Error::BadLeaveState(SerfState::Leaving)));
}

#[test]
fn leave_from_already_left_is_idempotent() {
    let mut e = ep();

    e.leave(ORIGIN).unwrap();

    e.test_inner_left_cluster();
    let delay = secs(2);
    e.handle_timeout(ORIGIN + delay);
    assert!(e.state().is_left(), "should have transitioned to Left");

    assert!(e.leave(ORIGIN).is_ok());
}

#[test]
fn leave_from_shutdown_is_rejected() {
    let mut e = ep();

    e.core_mut().state = SerfState::Shutdown;
    let err = e
        .leave(ORIGIN)
        .expect_err("leave from Shutdown must fail");
    assert!(matches!(err, Error::BadLeaveState(SerfState::Shutdown)));
}

#[test]
fn inner_left_cluster_arms_leave_complete_deadline() {
    let mut e = ep();
    e.leave(ORIGIN).unwrap();
    assert!(
        e.leave_complete_deadline().is_none(),
        "deadline not armed until inner LeftCluster arrives"
    );

    e.test_inner_left_cluster();
    assert!(
        e.leave_complete_deadline().is_some(),
        "deadline must be armed after inner LeftCluster"
    );
}

#[test]
fn inner_left_cluster_not_in_leaving_state_is_ignored() {
    let mut e = ep();
    assert!(e.state().is_alive());
    e.test_inner_left_cluster();
    assert!(
        e.leave_complete_deadline().is_none(),
        "LeftCluster while Alive must not arm leave_complete_deadline"
    );
}

#[test]
fn inner_left_cluster_drives_serf_to_left_and_emits_left_cluster_event() {
    let mut e = ep();
    e.leave(ORIGIN).unwrap();

    e.test_inner_left_cluster();

    let after_delay = ORIGIN + secs(2);
    e.handle_timeout(after_delay);

    assert!(e.state().is_left(), "state must be Left after propagation delay");

    let found_left_cluster =
        core::iter::from_fn(|| e.poll_event()).any(|ev| matches!(ev, Event::LeftCluster));
    assert!(
        found_left_cluster,
        "Event::LeftCluster must be emitted after the leave propagation delay"
    );
}

#[test]
fn leave_complete_deadline_not_fired_before_delay() {
    let mut e = ep();
    e.leave(ORIGIN).unwrap();
    e.test_inner_left_cluster();

    let before_delay = ORIGIN + millis(500);
    e.handle_timeout(before_delay);

    assert!(e.state().is_leaving(), "must still be Leaving before delay");

    let no_left_cluster =
        core::iter::from_fn(|| e.poll_event()).all(|ev| !matches!(ev, Event::LeftCluster));
    assert!(no_left_cluster, "LeftCluster must not appear before the propagation deadline");
}

#[test]
fn shutdown_prevents_leaving_to_left_transition() {
    let mut e = ep();
    e.leave(ORIGIN).unwrap();
    e.test_inner_left_cluster();

    e.core_mut().state = SerfState::Shutdown;
    let after_delay = ORIGIN + secs(2);
    e.handle_timeout(after_delay);

    assert!(e.state().is_shutdown(), "Shutdown should not transition to Left");

    let no_left_cluster =
        core::iter::from_fn(|| e.poll_event()).all(|ev| !matches!(ev, Event::LeftCluster));
    assert!(
        no_left_cluster,
        "LeftCluster must not be emitted when Shutdown interrupts the leave chain"
    );
}

#[test]
fn leave_arms_broadcast_deadline() {
    let mut e = ep();
    assert!(e.leave_broadcast_deadline().is_none());
    e.leave(ORIGIN).unwrap();
    let dl = e
        .leave_broadcast_deadline()
        .expect("broadcast deadline must be armed");

    assert_eq!(dl, ORIGIN + secs(5));
}

#[test]
fn force_leave_from_shutdown_is_rejected() {
    let mut e = ep();
    e.core_mut().state = SerfState::Shutdown;
    let err = e
        .force_leave(2u32, false, ORIGIN)
        .expect_err("force_leave from Shutdown must fail");
    assert!(matches!(err, Error::BadLeaveState(SerfState::Shutdown)));
}

#[test]
fn force_leave_transitions_alive_member_to_leaving() {
    let mut e = ep();
    e.test_seed_member(2, MemberStatus::Alive, LamportTime::new(0));
    e.force_leave(2u32, false, ORIGIN)
        .unwrap();
    assert_eq!(
        e.test_member_status(2),
        Some(MemberStatus::Leaving),
        "force_leave must transition Alive → Leaving"
    );
}

#[test]
fn force_leave_at_ltime_watermark_parks_degraded_but_safe() {
    let mut e = ep();
    e.test_seed_member(2, MemberStatus::Alive, LamportTime::new(0));

    e.test_set_clocks(LTIME_MAX - 1, 0, 0);
    let q_before = e.user_broadcast_queue_len();

    let err = e
        .force_leave(2u32, false, ORIGIN)
        .expect_err("a force_leave whose stamp reaches LTIME_MAX must be refused");
    assert!(matches!(err, Error::LeaveClockExhausted), "expected LeaveClockExhausted, got {err:?}");

    assert_eq!(
        e.user_broadcast_queue_len(),
        q_before,
        "the degraded force_leave must not queue a leave intent"
    );
    assert_eq!(
        e.member_time(),
        LTIME_MAX - 1,
        "the degraded force_leave must not advance the member clock"
    );
    assert_eq!(
        e.test_member_status(2),
        Some(MemberStatus::Alive),
        "the target member must stay Alive after a degraded force_leave"
    );
}

#[test]
fn force_leave_one_below_watermark_succeeds() {
    let mut e = ep();
    e.test_seed_member(2, MemberStatus::Alive, LamportTime::new(0));
    e.test_set_clocks(LTIME_MAX - 2, 0, 0);
    e.force_leave(2u32, false, ORIGIN)
        .expect("a force_leave whose stamp is LTIME_MAX - 1 must still apply");

    assert_eq!(
        e.test_member_status(2),
        Some(MemberStatus::Leaving),
        "the boundary force_leave must transition the target to Leaving"
    );
}

#[test]
fn leave_witnesses_and_advances_member_clock() {
    let mut e = ep();
    let clock_before = e.member_time();
    e.leave(ORIGIN).unwrap();
    assert!(e.member_time() > clock_before, "leave() must advance the member clock");
}

#[test]
fn poll_timeout_includes_leave_deadlines_when_armed() {
    let mut e = ep();

    let _ = e.poll_timeout();

    e.leave(ORIGIN).unwrap();

    let timeout = e
        .poll_timeout()
        .expect("must have a deadline after leave()");
    let expected = ORIGIN + secs(5);
    assert!(
        timeout <= expected,
        "poll_timeout must be ≤ leave_broadcast_deadline ({expected:?}), got {timeout:?}"
    );
}

fn seed_failed(e: &mut StreamEndpoint, id: u32, addr: SocketAddress, leave_time: Instant) {
    e.test_seed_failed_member(id, addr, leave_time);
}

fn seed_alive(e: &mut StreamEndpoint, id: u32) {
    e.test_seed_member(id, MemberStatus::Alive, LamportTime::new(0));
}

#[test]
fn reap_failed_removes_after_reconnect_timeout() {
    let mut e = ep();
    let t0 = ORIGIN;
    seed_failed(&mut e, 2, at("127.0.0.1:1002"), t0);

    let past_timeout = t0 + secs(3600 * 25);
    e.test_fire_reap(past_timeout);
    assert_eq!(
        e.test_member_status(2),
        None,
        "failed member should be reaped after reconnect_timeout"
    );
    let reaped = core::iter::from_fn(|| e.poll_event())
        .any(|ev| matches!(ev, Event::Member(ref me) if me.kind() == MemberEventKind::Reap));
    assert!(reaped, "a Member(Reap) event should have been emitted");
}

#[test]
fn reap_failed_keeps_member_before_reconnect_timeout() {
    let mut e = ep();
    let t0 = ORIGIN;
    seed_failed(&mut e, 2, at("127.0.0.1:1002"), t0);

    let before_timeout = t0 + secs(3600);
    e.test_fire_reap(before_timeout);
    assert_eq!(
        e.test_member_status(2),
        Some(MemberStatus::Failed),
        "member not yet past reconnect_timeout must not be reaped"
    );
    assert!(e.poll_event().is_none(), "no Reap event before timeout");
}

#[test]
fn reap_left_removes_after_tombstone_timeout() {
    let mut e = ep();
    let t0 = ORIGIN;
    e.test_seed_left_member_by_status(2, LamportTime::new(3), t0);

    let past_timeout = t0 + secs(3600 * 25);
    e.test_fire_reap(past_timeout);
    assert_eq!(
        e.test_member_status(2),
        None,
        "left member should be reaped after tombstone_timeout"
    );
    let reaped = core::iter::from_fn(|| e.poll_event())
        .any(|ev| matches!(ev, Event::Member(ref me) if me.kind() == MemberEventKind::Reap));
    assert!(reaped, "a Member(Reap) event should have been emitted");
}

#[test]
fn reap_intents_removes_stale_intents() {
    let mut e = ep();
    let t0 = ORIGIN;

    e.test_handle_leave_intent(99, LamportTime::new(3), t0);

    let past_intent_timeout = t0 + secs(700);
    e.test_fire_reap(past_intent_timeout);

    assert_eq!(e.test_member_status(99), None, "no member state expected");

    assert!(e.poll_event().is_none(), "reap_intents must not emit Member events");
}

#[test]
fn reconnect_gate_skips_when_no_failed_members() {
    let mut e = ep();

    e.test_fire_reconnect(ORIGIN);

    assert!(e.poll_event().is_none());
}

#[test]
fn reconnect_picks_a_failed_member_and_emits_dial_requested() {
    let mut e = ep();
    seed_alive(&mut e, 1);
    seed_failed(&mut e, 2, at("127.0.0.1:1002"), ORIGIN);

    e.test_fire_reconnect(ORIGIN);

    let dialled = e.test_last_dial_addr();
    assert!(dialled.is_some(), "reconnect should have triggered a dial request");
}

#[test]
fn reconnect_deadline_armed_and_polls_in_poll_timeout() {
    let mut e = ep();
    seed_alive(&mut e, 1);
    seed_failed(&mut e, 2, at("127.0.0.1:1002"), ORIGIN);

    let after_interval = ORIGIN + secs(31);
    e.handle_timeout(after_interval);

    let _ = e.poll_timeout();
}

#[test]
fn reap_deadline_fires_via_handle_timeout() {
    let mut e = ep();
    let t0 = ORIGIN;
    seed_failed(&mut e, 2, at("127.0.0.1:1002"), t0);

    let far_future = t0 + secs(3600 * 25 + 16);
    e.handle_timeout(far_future);

    assert_eq!(
        e.test_member_status(2),
        None,
        "failed member should be reaped after handle_timeout fires the reap deadline"
    );
}

#[test]
fn user_event_increments_event_clock_and_emits_locally() {
    let mut e = ep();
    e.user_event("deploy", Bytes::from_static(b"v2"), false, ORIGIN)
    .unwrap();

    assert_eq!(e.event_time(), 1);
    let ev = e.poll_event().expect("local user event must be pending");
    match ev {
        Event::User(u) => {
            assert_eq!(u.name.as_str(), "deploy");
            assert_eq!(u.payload.as_ref(), b"v2");
        }
        _ => panic!("expected Event::User"),
    }
}

#[test]
fn duplicate_user_event_is_deduped() {
    let mut e = ep();
    let m = UserEventMessage {
        ltime: LamportTime::new(4),
        cc: false,
        name: "x".into(),
        payload: Bytes::from_static(b"p"),
    };

    assert!(e.test_handle_user_event(m.dup()), "first sight should return true");

    let _ = e.poll_event();

    assert!(!e.test_handle_user_event(m), "duplicate should return false");
    assert!(e.poll_event().is_none(), "no second event for duplicate");
}

#[test]
fn user_event_below_min_time_is_dropped() {
    let mut e = ep();
    e.test_set_event_min_time(10);
    let m = UserEventMessage {
        ltime: LamportTime::new(3),
        cc: false,
        name: "old".into(),
        payload: Bytes::new(),
    };
    assert!(!e.test_handle_user_event(m), "event below min_time must return false");
    assert!(e.poll_event().is_none(), "no event emitted for below-min-time message");
}

#[test]
fn oversized_user_event_is_rejected() {
    let mut e = ep();

    let big = Bytes::from(vec![0u8; 1024]);
    assert!(
        e.user_event("big", big, false, ORIGIN).is_err(),
        "oversized user event must return Err"
    );
}

#[test]
fn user_event_broadcast_is_queued_at_event_tier() {
    let mut e = ep();
    e.user_event("ship", Bytes::from_static(b"ok"), false, ORIGIN)
    .unwrap();

    assert!(
        e.user_broadcast_queue_len() > 0,
        "user broadcast queue must be non-empty after user_event"
    );
}

#[test]
fn user_event_too_old_relative_to_ring_is_dropped() {
    let mut e = ep();

    e.test_set_event_clock(600);
    let m = UserEventMessage {
        ltime: LamportTime::new(0),
        cc: false,
        name: "stale".into(),
        payload: Bytes::new(),
    };
    assert!(!e.test_handle_user_event(m), "too-old event must be dropped");
    assert!(e.poll_event().is_none());
}

#[test]
fn user_event_arrives_over_user_packet_and_surfaces() {
    let mut e = ep();
    let serf_bytes = AnyMessage::<u32, SocketAddress>::UserEvent(UserEventMessage {
        ltime: LamportTime::new(1),
        cc: false,
        name: "deploy".into(),
        payload: Bytes::from_static(b"v3"),
    })
    .encode()
    .unwrap();
    let from: SocketAddress = at("127.0.0.1:1002");
    e.test_inject_user_packet(from, serf_bytes, ORIGIN);

    let ev = e.poll_event().expect("user event must surface");
    assert!(
        matches!(ev, Event::User(ref u) if u.name == "deploy"),
        "expected Event::User with name 'deploy'"
    );
}

#[test]
fn duplicate_user_event_over_user_packet_is_deduped() {
    let mut e = ep();
    let serf_bytes = AnyMessage::<u32, SocketAddress>::UserEvent(UserEventMessage {
        ltime: LamportTime::new(3),
        cc: false,
        name: "once".into(),
        payload: Bytes::from_static(b"x"),
    })
    .encode()
    .unwrap();

    let from: SocketAddress = at("127.0.0.1:1002");
    e.test_inject_user_packet(from, serf_bytes.clone(), ORIGIN);
    let first = e.poll_event();
    assert!(matches!(first, Some(Event::User(_))), "first packet must surface Event::User");

    e.test_inject_user_packet(from, serf_bytes, ORIGIN);
    assert!(e.poll_event().is_none(), "duplicate must be silently dropped, not emitted again");
}

#[test]
fn join_intent_over_user_packet_buffers_and_requeues_on_intent_tier() {
    let mut e = ep();
    let serf_bytes =
        AnyMessage::<u32, SocketAddress>::Join(join_message(LamportTime::new(7), 2u32))
            .encode()
            .unwrap();
    let before = e.user_broadcast_queue_len();
    let from: SocketAddress = at("127.0.0.1:1002");
    e.test_inject_user_packet(from, serf_bytes, ORIGIN);

    assert!(
        e.user_broadcast_queue_len() > before,
        "intent broadcast queue must grow after a new join-intent over UserPacket"
    );
}

#[test]
fn leave_intent_over_user_packet_dispatches_and_requeues() {
    let mut e = ep();
    e.test_seed_member(2u32, MemberStatus::Alive, LamportTime::new(3));
    let serf_bytes = AnyMessage::<u32, SocketAddress>::Leave(leave_message(
        LamportTime::new(8),
        2u32,
        false,
    ))
    .encode()
    .unwrap();
    let before = e.user_broadcast_queue_len();
    let from: SocketAddress = at("127.0.0.1:1002");
    e.test_inject_user_packet(from, serf_bytes, ORIGIN);

    assert_eq!(
        e.test_member_status(2),
        Some(MemberStatus::Leaving),
        "Alive member must transition to Leaving on a fresh leave intent"
    );
    assert!(
        e.user_broadcast_queue_len() > before,
        "leave intent must be re-queued on the intent tier"
    );
}

#[test]
fn stale_join_intent_over_user_packet_is_not_requeued() {
    let mut e = ep();
    e.test_seed_member(2u32, MemberStatus::Alive, LamportTime::new(10));
    let serf_bytes =
        AnyMessage::<u32, SocketAddress>::Join(join_message(LamportTime::new(3), 2u32))
            .encode()
            .unwrap();
    let before = e.user_broadcast_queue_len();
    let from: SocketAddress = at("127.0.0.1:1002");
    e.test_inject_user_packet(from, serf_bytes, ORIGIN);

    assert_eq!(
        e.user_broadcast_queue_len(),
        before,
        "stale intent must not grow the broadcast queue"
    );
}

#[test]
fn user_event_over_user_packet_witnesses_event_clock() {
    let mut e = ep();
    let serf_bytes = AnyMessage::<u32, SocketAddress>::UserEvent(UserEventMessage {
        ltime: LamportTime::new(5),
        cc: false,
        name: "ping".into(),
        payload: Bytes::from_static(b"ok"),
    })
    .encode()
    .unwrap();
    let from: SocketAddress = at("127.0.0.1:1002");
    e.test_inject_user_packet(from, serf_bytes, ORIGIN);

    let ev = e.poll_event().expect("event must surface");
    assert!(matches!(ev, Event::User(ref u) if u.name == "ping"), "expected Event::User(ping)");

    assert!(e.event_time() >= 6, "event_time must be >= 6 after witnessing ltime=5");
}

#[test]
fn malformed_bytes_in_user_packet_are_silently_dropped() {
    let mut e = ep();
    let from: SocketAddress = at("127.0.0.1:1002");
    e.test_inject_user_packet(from, Bytes::from_static(b"\xff\xff\xfe"), ORIGIN);
    assert!(e.poll_event().is_none(), "malformed bytes must not produce any serf event");
}

#[test]
fn user_event_rebroadcast_uses_original_bytes() {
    let mut e = ep();
    let original_bytes = AnyMessage::<u32, SocketAddress>::UserEvent(UserEventMessage {
        ltime: LamportTime::new(2),
        cc: false,
        name: "ship".into(),
        payload: Bytes::from_static(b"payload"),
    })
    .encode()
    .unwrap();

    let queue_before = e.user_broadcast_queue_len();
    let from: SocketAddress = at("127.0.0.1:1002");
    e.test_inject_user_packet(from, original_bytes.clone(), ORIGIN);

    assert!(matches!(e.poll_event(), Some(Event::User(_))));

    assert!(
        e.user_broadcast_queue_len() > queue_before,
        "relay-retain: user event must be re-queued after first sight"
    );
}

#[test]
fn local_state_carries_three_clocks_and_members() {
    let mut e = ep();
    e.test_set_clocks(11, 22, 33);
    e.test_seed_member(2, MemberStatus::Alive, LamportTime::new(9));
    e.test_seed_left_member(3, LamportTime::new(7));
    e.resync_local_state();

    let snap = e.test_inner_local_state_snapshot();
    assert!(!snap.is_empty(), "snapshot must be non-empty after resync");

    let pp = e.test_decode_pushpull(&snap);
    assert_eq!(pp.ltime.0, 11, "member clock must match");
    assert_eq!(pp.event_ltime.0, 22, "event clock must match");
    assert_eq!(pp.query_ltime.0, 33, "query clock must match");

    assert!(
        pp.status_ltimes.iter().any(|(id, _)| *id == 2u32),
        "status_ltimes must contain member 2"
    );

    assert!(pp.left_members.contains(&3u32), "left_members must contain id 3");
}

#[test]
fn resync_clears_dirty_flag() {
    let mut e = ep();
    e.test_set_clocks(1, 2, 3);

    assert!(e.test_is_dirty(), "clock mutation must mark dirty");
    e.resync_local_state();
    assert!(!e.test_is_dirty(), "resync_local_state must clear dirty flag");
}

#[test]
fn mutating_event_clock_via_user_event_marks_state_dirty() {
    let mut e = ep();
    e.test_clear_dirty();

    e.user_event("x", Bytes::new(), false, ORIGIN)
        .unwrap();
    assert!(e.test_is_dirty(), "user_event must mark local_state dirty");
}

#[test]
fn drain_inner_calls_resync_when_dirty() {
    let mut e = ep();
    e.test_set_clocks(5, 0, 0);
    assert!(e.test_is_dirty());

    let _ = e.poll_event();
    assert!(!e.test_is_dirty(), "drain_inner must have called resync_local_state, clearing dirty");

    let snap = e.test_inner_local_state_snapshot();
    assert!(!snap.is_empty(), "snapshot must be present after drain_inner");
    let pp = e.test_decode_pushpull(&snap);
    assert_eq!(pp.ltime.0, 5, "snapshot must carry the member clock");
}

#[test]
fn ignore_join_stream_recorded_and_consumed_one_shot() {
    let mut e = ep();
    let p = addr(6100);
    let s = e.start_join_push_pull(p, true, ORIGIN);

    e.test_note_ignore_join_stream(s);
    assert!(e.test_has_ignore_join_stream(s), "recorded exchange must be present");

    e.test_merge_remote_state_with_stream(Bytes::new(), true, s);
    assert!(
        !e.test_has_ignore_join_stream(s),
        "a join merge consumes the one-shot ignore-join entry"
    );
}

#[test]
fn snapshot_left_members_only_includes_known_ids() {
    let mut e = ep();
    e.test_seed_left_member(3u32, LamportTime::new(2));
    e.test_set_clocks(1, 0, 0);
    e.resync_local_state();
    let snap = e.test_inner_local_state_snapshot();
    assert!(!snap.is_empty());
    let pp = e.test_decode_pushpull(&snap);

    assert!(
        pp.left_members.contains(&3u32),
        "seeded left member must appear in snapshot left_members"
    );
}

fn ep_with_members(ids: [u32; 5]) -> StreamEndpoint {
    let mut e = ep();
    e.test_set_clocks(5, 10, 15);
    for id in ids {
        e.test_seed_member(id, MemberStatus::Alive, LamportTime::new(id as u64));
    }
    e.resync_local_state();
    e
}

#[test]
fn push_pull_local_state_bytes_deterministic() {
    let snap_asc = ep_with_members([1u32, 2, 3, 4, 5]).test_inner_local_state_snapshot();
    let snap_desc = ep_with_members([5u32, 4, 3, 2, 1]).test_inner_local_state_snapshot();

    assert!(!snap_asc.is_empty(), "ascending-order snapshot must be non-empty");
    assert_eq!(
        snap_asc, snap_desc,
        "push-pull bytes must be identical regardless of member insertion order"
    );
}

fn test_query(ltime: LamportTime, id: u32) -> QueryMessage<u32, SocketAddress> {
    QueryMessage {
        ltime,
        id,
        from: Node::new(99u32, at("127.0.0.1:9999")),
        filters: vec![],
        flags: QueryFlag::empty(),
        relay_factor: 0,
        timeout: secs(5),
        name: "ping".into(),
        payload: Bytes::new(),
    }
}

#[test]
fn query_reads_not_explicitly_increments_query_clock() {
    let mut e = ep();
    e.test_set_clocks(0, 0, 5);
    let id = e
        .query("ping", Bytes::new(), QueryParams::new(), ORIGIN)
        .unwrap();

    assert_eq!(id.ltime.0, 5, "QueryId.ltime must equal the clock at issue time");

    assert!(e.query_time() >= 5, "query clock must not regress below the issued ltime");
}

#[test]
fn query_registers_pending_entry() {
    let mut e = ep();
    let id = e
        .query("test", Bytes::new(), QueryParams::new(), ORIGIN)
        .unwrap();
    assert_eq!(e.test_pending_query_count(), 1);
    assert_eq!(e.test_last_query_id(), Some(id));
}

#[test]
fn query_processes_locally_and_emits_event_query() {
    let mut e = ep();
    e.query("local-ping", Bytes::new(), QueryParams::new(), ORIGIN)
    .unwrap();

    let ev = e.poll_event().expect("must emit a local Event::Query");
    assert!(
        matches!(ev, Event::Query(_)),
        "expected Event::Query, got {:?}",
        core::mem::discriminant(&ev)
    );
}

#[test]
fn handle_query_witnesses_query_clock() {
    let mut e = ep();
    assert_eq!(e.query_time(), 0);
    let q = test_query(LamportTime::new(7), 1);
    e.test_handle_query(q);

    assert_eq!(e.query_time(), 8, "query clock must be witnessed on ingress");
}

#[test]
fn duplicate_query_id_is_deduped_but_distinct_ids_at_same_ltime_pass() {
    let mut e = ep();
    let a = test_query(LamportTime::new(3), 100);
    let b = QueryMessage {
        id: 200,
        ..copy_query(&a)
    };

    assert!(e.test_handle_query(copy_query(&a)), "first sight of (3, 100) must return true");
    assert!(!e.test_handle_query(a), "exact dup (3, 100) must return false");
    assert!(e.test_handle_query(b), "distinct id (3, 200) at same ltime must return true");
}

#[test]
fn filter_rejected_query_still_rebroadcasts_but_does_not_surface() {
    let mut e = ep();
    let q = QueryMessage {
        filters: vec![Filter::Id(vec![999u32])],
        ..test_query(LamportTime::new(1), 42)
    };
    assert!(e.test_handle_query(q), "filter-rejected query must still rebroadcast");

    assert!(e.poll_event().is_none(), "filter-rejected query must not surface as Event::Query");
}

#[test]
fn query_too_old_is_dropped() {
    let mut e = ep();

    e.test_set_clocks(0, 0, 600);

    let q = test_query(LamportTime::new(1), 77);

    assert!(!e.test_handle_query(q), "query older than the ring must be dropped (not rebroadcast)");
    assert!(e.poll_event().is_none(), "too-old query must not emit an event");
}

#[test]
fn no_broadcast_flag_suppresses_rebroadcast() {
    let mut e = ep();
    let q = QueryMessage {
        flags: no_broadcast(),
        ..test_query(LamportTime::new(2), 11)
    };
    assert!(!e.test_handle_query(q), "NO_BROADCAST flag must suppress rebroadcast");

    assert!(
        matches!(e.poll_event(), Some(Event::Query(_))),
        "NO_BROADCAST query must still surface locally"
    );
}

#[test]
fn query_id_has_correct_ltime_and_nonzero_id() {
    let mut e = ep();
    e.test_set_clocks(0, 0, 9);
    let qid = e
        .query("check", Bytes::new(), QueryParams::new(), ORIGIN)
        .unwrap();
    assert_eq!(qid.ltime.0, 9, "ltime must equal query_clock at issue");

    let _ = qid.id;
}

#[test]
fn query_size_limit_is_enforced() {
    let mut e = ep();

    let big = Bytes::from(vec![0u8; 1500]);
    let result = e.query("big", big, QueryParams::new(), ORIGIN);
    assert!(result.is_err(), "oversized query must be rejected");
}

#[test]
fn query_buffer_min_time_is_zero_at_start() {
    let e = ep();
    assert_eq!(e.test_query_min_time(), 0, "initial query min_time must be zero");
}

#[test]
fn query_emits_on_query_tier_broadcast_queue() {
    let mut e = ep();
    let _id = e
        .query("broadcast-test", Bytes::new(), QueryParams::new(), ORIGIN)
        .unwrap();
    assert!(e.user_broadcast_queue_len() >= 1, "query must enqueue on the broadcast queue");
}

#[test]
fn invalid_tag_regex_does_not_advance_rng() {
    let make_ep = |seed: u64| {
        StreamEndpoint::new_with_rng(Options::new(), SmallRng::seed_from_u64(seed))
    };

    let mut ep_a = make_ep(42);
    let mut ep_b = make_ep(42);

    let bad_filter = QueryParams {
        filters: vec![Filter::Tag(TagFilter {
            tag: "role".into(),
            expr: Some("[invalid-regex".into()),
        })],
        ..QueryParams::new()
    };

    let bad_result = ep_a.query("ping", Bytes::new(), bad_filter, ORIGIN);
    assert!(
        matches!(bad_result, Err(Error::InvalidQueryFilter)),
        "invalid tag regex must return Err(InvalidQueryFilter)"
    );

        let qid_a = ep_a
        .query("ping", Bytes::new(), QueryParams::new(), ORIGIN)
        .unwrap();

    let qid_b = ep_b
        .query("ping", Bytes::new(), QueryParams::new(), ORIGIN)
        .unwrap();

    assert_eq!(
        qid_a.id, qid_b.id,
        "rejected invalid-regex query must not advance the RNG (ids diverged: A={}, B={})",
        qid_a.id, qid_b.id
    );

    assert_eq!(
        qid_a.ltime, qid_b.ltime,
        "ltime must match between the two identically-seeded endpoints"
    );
}

fn qresp(ltime: LamportTime, id: u32, from_port: u16) -> QueryResponseMessage<u32, SocketAddress> {
    QueryResponseMessage {
        ltime,
        id,
        from: Node::new(from_port as u32, addr(from_port)),
        flags: QueryFlag::empty(),
        payload: Bytes::new(),
    }
}

#[test]
fn respond_once_succeeds() {
    let mut e = ep();
    let deadline = t_secs(10);
    let token = e.test_register_received_query(
        QueryId {
            ltime: LamportTime::new(1),
            id: 5,
        },
        addr(1002),
        deadline,
    );
    assert!(
        e.respond(&token, Bytes::from_static(b"ok"), ORIGIN)
        .is_ok(),
        "first respond() must succeed"
    );
}

#[test]
fn respond_twice_is_rejected() {
    let mut e = ep();
    let deadline = t_secs(10);
    let token = e.test_register_received_query(
        QueryId {
            ltime: LamportTime::new(1),
            id: 5,
        },
        addr(1002),
        deadline,
    );
    assert!(
        e.respond(&token, Bytes::from_static(b"ok"), ORIGIN)
        .is_ok()
    );
    let err = e
        .respond(&token, Bytes::from_static(b"ok2"), ORIGIN)
        .unwrap_err();
    assert!(
        matches!(err, Error::AlreadyResponded),
        "second respond() must return AlreadyResponded"
    );
}

#[test]
fn respond_after_deadline_is_rejected() {
    let mut e = ep();
    let deadline = t_secs(1);
    let token = e.test_register_received_query(
        QueryId {
            ltime: LamportTime::new(1),
            id: 5,
        },
        addr(1002),
        deadline,
    );

    let err = e
        .respond(&token, Bytes::from_static(b"late"), t_secs(5))
        .unwrap_err();
    assert!(
        matches!(err, Error::RespondAfterDeadline),
        "respond() past deadline must return RespondAfterDeadline"
    );
}

#[test]
fn respond_with_oversized_payload_is_rejected() {
    let mut e = ep();
    let deadline = t_secs(10);
    let token = e.test_register_received_query(
        QueryId {
            ltime: LamportTime::new(1),
            id: 5,
        },
        addr(1002),
        deadline,
    );
    let big = Bytes::from(vec![0u8; 2048]);
    let err = e
        .respond(&token, big, ORIGIN)
        .unwrap_err();
    assert!(
        matches!(err, Error::RespondTooLarge(_, _)),
        "oversized respond() must return RespondTooLarge"
    );
}

#[test]
fn respond_succeeds_and_prevents_second_call() {
    let mut e = ep();
    let qid = QueryId {
        ltime: LamportTime::new(2),
        id: 9,
    };
    let deadline = t_secs(10);
    let token = e.test_register_received_query(qid, addr(1002), deadline);
    assert!(!e.test_is_responded(qid), "initially not responded");
    e.respond(&token, Bytes::new(), ORIGIN)
    .unwrap();

    let err = e
        .respond(&token, Bytes::new(), ORIGIN)
        .unwrap_err();
    assert!(
        matches!(err, Error::AlreadyResponded),
        "second respond() after success must return AlreadyResponded, got {err:?}"
    );
}

#[test]
fn app_query_response_surfaces_as_event() {
    let mut e = ep();
    let id = e
        .query("ping", Bytes::new(), QueryParams::new(), ORIGIN)
        .unwrap();

    let _ = e.poll_event();

    let resp = qresp(id.ltime, id.id, 2);
    e.test_handle_query_response(resp);

    let ev = e.poll_event().expect("Event::QueryResponse expected");
    assert!(
        matches!(&ev, Event::QueryResponse(qr) if qr.id() == id.id),
        "response must carry the query id"
    );
}

#[test]
fn duplicate_query_response_is_deduped() {
    let mut e = ep();
    let id = e
        .query("ping", Bytes::new(), QueryParams::new(), ORIGIN)
        .unwrap();

    let _ = e.poll_event();

    let resp = qresp(id.ltime, id.id, 2);
    e.test_handle_query_response(copy_response(&resp));
    let ev1 = e.poll_event();
    assert!(matches!(ev1, Some(Event::QueryResponse(_))), "first response must surface");

    e.test_handle_query_response(resp);
    assert!(e.poll_event().is_none(), "duplicate responder must be deduped and not surface");
}

#[test]
fn multiple_responders_each_surface_independently() {
    let mut e = ep();
    let id = e
        .query("ping", Bytes::new(), QueryParams::new(), ORIGIN)
        .unwrap();

    let _ = e.poll_event();

    e.test_handle_query_response(qresp(id.ltime, id.id, 2));
    e.test_handle_query_response(qresp(id.ltime, id.id, 3));

    let ev1 = e.poll_event().expect("response from node 2");
    let ev2 = e.poll_event().expect("response from node 3");
    assert!(matches!(ev1, Event::QueryResponse(_)));
    assert!(matches!(ev2, Event::QueryResponse(_)));
    assert!(e.poll_event().is_none(), "no further events");
}

#[test]
fn stale_query_response_is_dropped() {
    let mut e = ep();

    let resp = qresp(LamportTime::new(99), 0xdead, 2);
    e.test_handle_query_response(resp);
    assert!(e.poll_event().is_none(), "response for unknown query must not emit an event");
}

#[test]
fn query_response_via_user_packet_wire_path_surfaces_event() {
    let mut e = ep();
    let id = e
        .query("wire-test", Bytes::new(), QueryParams::new(), ORIGIN)
        .unwrap();

    let _ = e.poll_event();

    let resp = QueryResponseMessage::<u32, SocketAddress> {
        ltime: id.ltime,
        id: id.id,
        from: Node::new(2u32, addr(1002)),
        flags: QueryFlag::empty(),
        payload: Bytes::new(),
    };
    let serf_bytes = AnyMessage::<u32, SocketAddress>::QueryResponse(resp)
        .encode()
        .unwrap();
    e.test_inject_user_packet(addr(1002), serf_bytes, ORIGIN);

    let ev = e
        .poll_event()
        .expect("Event::QueryResponse from UserPacket path");
    assert!(
        matches!(ev, Event::QueryResponse(_)),
        "UserPacket-path response must surface as Event::QueryResponse"
    );
}

fn relay_node(port: u16) -> Node<u32, SocketAddress> {
    Node::new(port as u32, addr(port))
}

#[test]
fn relay_response_is_silent_noop_when_too_few_members() {
    let mut e = ep();
    let querier = relay_node(2000);
    e.test_relay_response(querier, Bytes::from_static(b"frame"), 2);
    assert!(e.poll_event().is_none(), "relay with too few members must not emit RelayDropped");
    assert!(e.test_last_directed_send().is_none(), "no directed send should have occurred");
}

#[test]
fn relay_response_with_zero_factor_is_noop() {
    let mut e = ep();
    let querier = relay_node(2000);
    e.test_relay_response(querier, Bytes::from_static(b"frame"), 0);
    assert!(e.poll_event().is_none());
    assert!(e.test_last_directed_send().is_none());
}

#[test]
fn relay_response_picks_alive_non_self_member_and_sends() {
    let mut e = ep();

    e.test_seed_member(10u32, MemberStatus::Alive, LamportTime::new(1));

    e.test_seed_member_at(11u32, addr(1011), MemberStatus::Alive, LamportTime::new(1));

    let querier = relay_node(2000);
    let frame = Bytes::from_static(b"\x06relay-payload");
    e.test_relay_response(querier, frame.clone(), 1);

    let (dest_addr, sent_bytes) = e
        .test_last_directed_send()
        .expect("relay_response must produce a directed send when members >= k+1");

    assert_ne!(dest_addr.port, 7946, "relay must not target the local node");

    assert!(!sent_bytes.is_empty(), "relay frame must be non-empty");
    assert!(e.poll_event().is_none(), "no RelayDropped on success");
}

#[test]
fn relay_node_b_forwards_verbatim_to_destination() {
    let mut e = ep();
    let inner_payload = Bytes::from_static(b"\x06inner-qresp");
    let relay = relay_message(relay_node(1002), inner_payload.clone());
    e.test_handle_relay(relay);

    let (dest_addr, sent_bytes) = e
        .test_last_directed_send()
        .expect("handle_relay must produce a directed send to the destination");
    assert_eq!(dest_addr, addr(1002), "relay must forward to the wrapped destination address");
    assert_eq!(
        sent_bytes, inner_payload,
        "relay payload must be forwarded verbatim, not re-encoded"
    );
    assert!(e.poll_event().is_none(), "successful handle_relay must not emit any event");
}

#[test]
fn relay_to_self_emits_relay_dropped() {
    let mut e = ep();
    let relay = relay_message(relay_node(1), Bytes::from_static(b"x"));
    e.test_handle_relay(relay);

    let ev = e.poll_event().expect("relay to self must emit an event");
    assert!(
        matches!(ev, Event::RelayDropped(_)),
        "relay to self must surface as Event::RelayDropped"
    );
}

#[test]
fn relay_sieve_arm_decodes_relay_message_from_user_packet() {
    let mut e = ep();
    let inner_payload = Bytes::from_static(b"\x06fake-resp");
    let relay = relay_message(relay_node(1002), inner_payload.clone());
    let serf_bytes = AnyMessage::<u32, SocketAddress>::Relay(relay)
        .encode()
        .unwrap();

    e.test_inject_user_packet(addr(1002), serf_bytes, ORIGIN);

    let (dest, sent) = e
        .test_last_directed_send()
        .expect("relay sieve arm must forward to destination");
    assert_eq!(dest, addr(1002));
    assert_eq!(sent, inner_payload);
}

fn ep_with_serf_seed(serf_seed: u64) -> StreamEndpoint {
    StreamEndpoint::new_with_rng(Options::new(),
        SmallRng::seed_from_u64(serf_seed),
    )
}

#[test]
fn relay_response_candidate_selection_is_deterministic() {
    let members: Vec<(u32, u16)> = vec![(10, 1010), (11, 1011), (12, 1012), (13, 1013), (14, 1014)];

    let seed = 0xdeadbeef_cafebabe_u64;

    let mut ep_a = ep_with_serf_seed(seed);
    for &(id, port) in &members {
        ep_a.test_seed_member_at(id, addr(port), MemberStatus::Alive, LamportTime::new(1));
    }

    let mut ep_b = ep_with_serf_seed(seed);
    for &(id, port) in members.iter().rev() {
        ep_b.test_seed_member_at(id, addr(port), MemberStatus::Alive, LamportTime::new(1));
    }

    let querier = relay_node(2000);
    let frame = Bytes::from_static(b"\x06determinism-test-frame");

    ep_a.test_relay_response(querier, frame.clone(), 2);
    ep_b.test_relay_response(relay_node(2000), frame, 2);

    let sends_a = ep_a.test_relay_all_directed_sends().to_vec();
    let sends_b = ep_b.test_relay_all_directed_sends().to_vec();

    assert_eq!(sends_a.len(), 2, "endpoint A must relay to exactly 2 peers");
    assert_eq!(sends_b.len(), 2, "endpoint B must relay to exactly 2 peers");

    let addrs_a: Vec<SocketAddress> = sends_a.iter().map(|(a, _)| *a).collect();
    let addrs_b: Vec<SocketAddress> = sends_b.iter().map(|(a, _)| *a).collect();
    assert_eq!(
        addrs_a, addrs_b,
        "relay peer selection must be identical across endpoints with the same RNG seed \
          regardless of insertion order; got A={addrs_a:?}, B={addrs_b:?}"
    );
}

fn far_future() -> Instant {
    ORIGIN + secs(3600)
}

#[test]
fn conflict_win_does_not_shut_down() {
    let mut e = ep();
    let deadline = far_future();
    let qid = e.test_register_conflict_query(deadline);

    e.test_fold_conflict_response(qid, 100u32, true);
    e.test_fold_conflict_response(qid, 101u32, true);
    e.test_fold_conflict_response(qid, 102u32, false);

    let past = ORIGIN + secs(3601);
    e.test_fire_due_query_closes(past);

    assert!(e.poll_event().is_none(), "winning conflict must not emit Shutdown");
    assert!(e.state().is_alive(), "winning conflict must leave the machine Alive");

    assert!(
        e.user_event("post-win", Bytes::new(), false, ORIGIN)
            .is_ok(),
        "a won vote must not gate commands"
    );
}

#[test]
fn conflict_loss_transitions_to_shutdown_and_still_delivers_event() {
    let mut e = ep();
    let deadline = far_future();
    let qid = e.test_register_conflict_query(deadline);

    e.test_fold_conflict_response(qid, 200u32, true);
    e.test_fold_conflict_response(qid, 201u32, false);
    e.test_fold_conflict_response(qid, 202u32, false);

    assert!(e.state().is_alive(), "machine is Alive before the close");

    let past = ORIGIN + secs(3601);
    e.test_fire_due_query_closes(past);

    assert!(
        e.state().is_shutdown(),
        "a lost conflict vote must transition the machine to Shutdown"
    );

    let ev = e.poll_event().expect("conflict loss must emit an event");
    assert!(matches!(ev, Event::Shutdown), "conflict loss must emit Event::Shutdown");
    assert!(e.state().is_shutdown(), "the machine stays Shutdown after the event drains");
}

#[test]
fn same_tick_conflict_loss_stops_remaining_due_conflict_query() {
    let mut e = ep();
    let deadline = t_secs(10);

    let cq1 = e.test_register_conflict_query(deadline);
    e.test_fold_conflict_response(cq1, 200u32, true);
    e.test_fold_conflict_response(cq1, 201u32, false);
    e.test_fold_conflict_response(cq1, 202u32, false);

    e.test_set_clocks(0, 0, 1);
    let cq2 = e.test_register_conflict_query(deadline);
    e.test_fold_conflict_response(cq2, 210u32, true);
    e.test_fold_conflict_response(cq2, 211u32, false);
    e.test_fold_conflict_response(cq2, 212u32, false);

    let _token = e.test_register_received_query(
        QueryId {
            ltime: LamportTime::new(1),
            id: 5,
        },
        addr(1002),
        t_secs(1),
    );
    assert_eq!(
        e.test_received_queries_len(),
        1,
        "the received-query token is present before the tick"
    );

    e.handle_timeout(t_secs(20));

    let mut shutdowns: usize = 0;
    while let Some(ev) = e.poll_event() {
        if matches!(ev, Event::Shutdown) {
            shutdowns += 1;
        }
    }

    assert_eq!(
        shutdowns, 1,
        "only one Event::Shutdown: the loop must stop at the first conflict loss"
    );

    assert_eq!(
        e.test_received_queries_len(),
        1,
        "the received-query prune must not run after the same-tick Shutdown"
    );
}

#[test]
fn same_tick_conflict_loss_stops_remaining_due_key_query() {
    let mut e = ep();
    let deadline = t_secs(10);

    let cq = e.test_register_conflict_query(deadline);
    e.test_fold_conflict_response(cq, 200u32, true);
    e.test_fold_conflict_response(cq, 201u32, false);
    e.test_fold_conflict_response(cq, 202u32, false);

    let _kq = e.test_register_key_query(deadline);

    let _token = e.test_register_received_query(
        QueryId {
            ltime: LamportTime::new(1),
            id: 5,
        },
        addr(1002),
        t_secs(1),
    );
    assert_eq!(e.test_received_queries_len(), 1);

    e.handle_timeout(t_secs(20));

    let mut events = vec![];
    while let Some(ev) = e.poll_event() {
        events.push(ev);
    }

    assert!(
        matches!(events.last(), Some(Event::Shutdown)),
        "Event::Shutdown must be the last event delivered"
    );
    assert!(
        !events.iter().any(|ev| matches!(ev, Event::KeyResponse(_))),
        "no KeyResponse may follow the conflict-loss Shutdown"
    );

    assert_eq!(
        e.test_received_queries_len(),
        1,
        "the received-query prune must not run after the same-tick Shutdown"
    );
}

fn shut_down_via_lost_conflict(e: &mut StreamEndpoint) {
    let qid = e.test_register_conflict_query(far_future());

    e.test_fold_conflict_response(qid, 200u32, true);
    e.test_fold_conflict_response(qid, 201u32, false);
    e.test_fold_conflict_response(qid, 202u32, false);
    let past = ORIGIN + secs(3601);
    e.test_fire_due_query_closes(past);
    assert!(
        matches!(e.poll_event(), Some(Event::Shutdown)),
        "the buffered Event::Shutdown must drain from the shut-down machine"
    );
    assert!(e.state().is_shutdown(), "the machine must be Shutdown");
}

#[test]
fn shutdown_refuses_originating_commands() {
    let mut e = ep();

    let token = e.test_register_received_query(
        QueryId {
            ltime: LamportTime::new(1),
            id: 5,
        },
        addr(1002),
        far_future(),
    );

    shut_down_via_lost_conflict(&mut e);

    let now = ORIGIN;
    let tags: Tags = tags(&[("role", "web")]);

    assert!(
        matches!(e.user_event("x", Bytes::new(), false, ORIGIN), Err(Error::Shutdown)),
        "user_event must be refused after shutdown"
    );
    assert!(
        matches!(e.query("q", Bytes::new(), QueryParams::new(), now), Err(Error::Shutdown)),
        "query must be refused after shutdown"
    );
    assert!(
        matches!(e.set_tags(tags, ORIGIN), Err(Error::Shutdown)),
        "set_tags must be refused after shutdown"
    );
    assert!(
        matches!(e.respond(&token, Bytes::new(), now), Err(Error::Shutdown)),
        "respond must be refused after shutdown, before the token lookup"
    );

    assert!(
        matches!(e.join(), Err(Error::BadJoinState(SerfState::Shutdown))),
        "join keeps BadJoinState on a Shutdown machine"
    );
    assert!(
        matches!(e.leave(now), Err(Error::BadLeaveState(SerfState::Shutdown))),
        "leave keeps BadLeaveState on a Shutdown machine"
    );
    assert!(
        matches!(e.force_leave(2u32, false, now), Err(Error::BadLeaveState(SerfState::Shutdown))),
        "force_leave keeps BadLeaveState on a Shutdown machine"
    );
}

#[test]
fn shutdown_refuses_key_management() {
    let key = SecretKey::Aes128(u128::from_be_bytes([2u8; 16]));
    let mut e = ep();

    let req = KeyRequest::<u32, SocketAddress>::test_with_deadline(
        KeyRequestOperation::List,
        7,
        Node::new(2u32, addr(2000)),
        None,
        far_future(),
    );

    shut_down_via_lost_conflict(&mut e);

    let now = ORIGIN;

    assert!(
        matches!(e.list_keys(now), Err(Error::Shutdown)),
        "list_keys must be refused after shutdown"
    );
    assert!(
        matches!(e.install_key(key, now), Err(Error::Shutdown)),
        "install_key must be refused after shutdown"
    );
    assert!(
        matches!(e.use_key(key, now), Err(Error::Shutdown)),
        "use_key must be refused after shutdown"
    );
    assert!(
        matches!(e.remove_key(key, now), Err(Error::Shutdown)),
        "remove_key must be refused after shutdown"
    );

    let refused = e.respond_key(
        &req,
        KeyResponseArgs {
            result: true,
            message: String::new(),
            keys: vec![key],
            primary_key: Some(key),
        },
        now,
    );
    assert!(matches!(refused, Err(Error::Shutdown)), "respond_key must be refused after shutdown");
}

#[test]
fn shutdown_refuses_load_snapshot_replay() {
    let mut e = ep();
    shut_down_via_lost_conflict(&mut e);

    e.test_clear_dirty();
    let member_before = e.member_time();
    let event_before = e.event_time();
    let query_before = e.query_time();
    let event_min_before = e.test_event_min_time();
    let query_min_before = e.test_query_min_time();

    let replay = ReplayResult {
        alive_nodes: vec![snapshot_node(1, 7946), snapshot_node(2, 1002)],
        last_clock: LamportTime::new(40),
        last_event_clock: LamportTime::new(50),
        last_query_clock: LamportTime::new(60),
    };
    assert!(
        matches!(e.load_snapshot(replay, ORIGIN), Err(Error::Shutdown)),
        "load_snapshot must refuse on a Shutdown machine"
    );

    assert_eq!(e.member_time(), member_before, "member clock unchanged");
    assert_eq!(e.event_time(), event_before, "event clock unchanged");
    assert_eq!(e.query_time(), query_before, "query clock unchanged");
    assert_eq!(e.test_event_min_time(), event_min_before, "event min_time unchanged");
    assert_eq!(e.test_query_min_time(), query_min_before, "query min_time unchanged");
    assert!(!e.test_is_dirty(), "the refused replay must not dirty the snapshot");
    assert!(e.test_rejoin_dials().is_empty(), "a Shutdown machine must originate no rejoin dials");
    assert!(e.poll_event().is_none(), "the refused replay must enqueue no event");
}

#[test]
fn shutdown_ingress_is_inert() {
    let mut e = ep();
    shut_down_via_lost_conflict(&mut e);

    let members_before = e.num_members();
    let event_time_before = e.event_time();

    let serf_bytes = AnyMessage::<u32, SocketAddress>::UserEvent(UserEventMessage {
        ltime: LamportTime::new(5),
        cc: false,
        name: "post-shutdown".into(),
        payload: Bytes::from_static(b"x"),
    })
    .encode()
    .unwrap();
    e.test_inject_user_packet(addr(1002), serf_bytes, ORIGIN);

    assert!(e.poll_event().is_none(), "ingress must emit nothing new after shutdown");
    assert_eq!(
        e.event_time(),
        event_time_before,
        "ingress must not advance the event clock after shutdown"
    );
    assert_eq!(
        e.num_members(),
        members_before,
        "ingress must not change membership after shutdown"
    );
}

#[test]
fn shutdown_timers_are_quiet() {
    let mut e = ep();

    assert!(e.core_mut().serf_poll_timeout().is_some(), "a live machine schedules serf deadlines");

    shut_down_via_lost_conflict(&mut e);

    assert!(
        e.core_mut().serf_poll_timeout().is_none(),
        "a Shutdown machine must schedule no serf deadline"
    );

    let far = ORIGIN + secs(86_400);
    e.handle_timeout(far);
    assert!(e.poll_event().is_none(), "a Shutdown machine must emit no serf event on a timer tick");
    assert!(e.state().is_shutdown(), "a Shutdown machine stays Shutdown across a timer tick");
}

#[test]
fn app_query_close_is_silent() {
    let mut e = ep();
    let now = ORIGIN;
    let params = QueryParams {
        timeout: millis(1),
        ..QueryParams::new()
    };
    let _ = e.query("test", Bytes::new(), params, now);

    while e.poll_event().is_some() {}

    let past = now + secs(1);
    e.test_fire_due_query_closes(past);

    assert!(e.poll_event().is_none(), "App query close must not emit any event");
}

#[test]
fn conflict_query_with_trailing_junk_is_dropped_entirely() {
    let mut e = ep();

    let id_bytes = (42u32).encode_to_vec();
    let mut payload_with_junk = id_bytes.to_vec();
    payload_with_junk.extend_from_slice(&[0xaa, 0xbb]);

    let q = QueryMessage {
        ltime: LamportTime::new(1),
        id: 55,
        from: Node::new(99u32, at("127.0.0.1:9999")),
        filters: vec![],
        flags: QueryFlag::empty(),
        relay_factor: 0,
        timeout: secs(5),
        name: "_serf_conflict".into(),
        payload: Bytes::from(payload_with_junk),
    };

    assert_eq!(e.query_time(), 0, "query_clock must start at 0");
    assert_eq!(e.test_received_queries_len(), 0, "no received_queries initially");

    let rebroadcast = e.test_handle_query(q);

    assert_eq!(
        e.query_time(),
        0,
        "query_clock must NOT advance for a malformed _serf_conflict payload"
    );
    assert_eq!(
        e.test_query_slot_len(1),
        0,
        "dedup buffer must NOT record an entry for a malformed _serf_conflict payload"
    );
    assert_eq!(
        e.test_received_queries_len(),
        0,
        "received_queries must NOT gain an entry for a malformed _serf_conflict payload"
    );
    assert!(
        e.test_last_directed_send().is_none(),
        "no ConflictResponse must be sent for a malformed _serf_conflict payload"
    );

    assert!(!rebroadcast, "malformed _serf_conflict must not request rebroadcast");
}

#[test]
fn conflict_query_with_exact_payload_processes_normally() {
    let mut e = ep();

    let id_bytes = (42u32).encode_to_vec();

    let q = QueryMessage {
        ltime: LamportTime::new(3),
        id: 77,
        from: Node::new(99u32, at("127.0.0.1:9999")),
        filters: vec![],
        flags: QueryFlag::empty(),
        relay_factor: 0,
        timeout: secs(5),
        name: "_serf_conflict".into(),
        payload: Bytes::from(id_bytes.to_vec()),
    };

    assert_eq!(e.query_time(), 0);
    e.test_handle_query(q);

    assert!(
        e.query_time() > 3,
        "query_clock must advance after a well-formed _serf_conflict query"
    );

    assert!(
        e.test_query_slot_len(3) > 0,
        "dedup buffer must record the well-formed _serf_conflict query"
    );
}

fn snapshot_node(id: u32, port: u16) -> Node<u32, SocketAddress> {
    Node::new(id, at(&format!("127.0.0.1:{port}")))
}

#[test]
fn load_snapshot_sets_member_clock_to_last_clock() {
    let mut e = ep();
    let r = ReplayResult {
        alive_nodes: vec![],
        last_clock: LamportTime::new(5),
        last_event_clock: LamportTime::new(0),
        last_query_clock: LamportTime::new(0),
    };
    e.load_snapshot(r, ORIGIN)
        .unwrap();

    assert!(e.member_time() >= 5, "member_time must be at least last_clock after load_snapshot");
}

#[test]
fn load_snapshot_sets_event_min_time_to_last_event_clock_plus_one() {
    let mut e = ep();
    let r = ReplayResult {
        alive_nodes: vec![],
        last_clock: LamportTime::new(0),
        last_event_clock: LamportTime::new(7),
        last_query_clock: LamportTime::new(0),
    };
    e.load_snapshot(r, ORIGIN)
        .unwrap();

    assert_eq!(e.test_event_min_time(), 8, "event min_time must be last_event_clock + 1");
}

#[test]
fn load_snapshot_sets_query_min_time_to_last_query_clock_plus_one() {
    let mut e = ep();
    let r = ReplayResult {
        alive_nodes: vec![],
        last_clock: LamportTime::new(0),
        last_event_clock: LamportTime::new(0),
        last_query_clock: LamportTime::new(9),
    };
    e.load_snapshot(r, ORIGIN)
        .unwrap();

    assert_eq!(e.test_query_min_time(), 10, "query min_time must be last_query_clock + 1");
}

#[test]
fn load_snapshot_skips_self_on_rejoin() {
    let mut e = ep();
    let r = ReplayResult {
        alive_nodes: vec![
            snapshot_node(1, 7946),
            snapshot_node(2, 1002),
        ],
        last_clock: LamportTime::new(5),
        last_event_clock: LamportTime::new(7),
        last_query_clock: LamportTime::new(9),
    };
    e.load_snapshot(r, ORIGIN)
        .unwrap();

    let dialled = e.test_rejoin_dials();
    assert_eq!(dialled.len(), 1, "exactly one rejoin dial expected (self is skipped)");
    assert_eq!(dialled[0], at("127.0.0.1:1002"), "rejoin dial must target node 2's address");
}

#[test]
fn load_snapshot_empty_alive_nodes_emits_no_dials() {
    let mut e = ep();
    let r = ReplayResult {
        alive_nodes: vec![],
        last_clock: LamportTime::new(3),
        last_event_clock: LamportTime::new(2),
        last_query_clock: LamportTime::new(1),
    };
    e.load_snapshot(r, ORIGIN)
        .unwrap();
    let dialled = e.test_rejoin_dials();
    assert!(dialled.is_empty(), "no dials for empty alive_nodes");
}

#[test]
fn load_snapshot_all_clocks_combined() {
    let mut e = ep();
    let r = ReplayResult {
        alive_nodes: vec![],
        last_clock: LamportTime::new(10),
        last_event_clock: LamportTime::new(20),
        last_query_clock: LamportTime::new(30),
    };
    e.load_snapshot(r, ORIGIN)
        .unwrap();
    assert!(e.member_time() >= 10, "member_time >= last_clock");
    assert_eq!(e.test_event_min_time(), 21, "event min_time = 20 + 1");
    assert_eq!(e.test_query_min_time(), 31, "query min_time = 30 + 1");
}

#[test]
fn load_snapshot_marks_local_state_dirty() {
    let mut e = ep();
    e.test_clear_dirty();
    let r = ReplayResult {
        alive_nodes: vec![],
        last_clock: LamportTime::new(3),
        last_event_clock: LamportTime::new(0),
        last_query_clock: LamportTime::new(0),
    };
    e.load_snapshot(r, ORIGIN)
        .unwrap();

    assert!(e.test_is_dirty(), "load_snapshot must mark local state dirty");
}

#[test]
fn ping_completed_is_noop_when_coordinates_disabled() {
    let mut e = ep();

    let payload = Bytes::from_static(b"\x01garbage");

    e.test_ping_completed(2u32, millis(40), payload);
    assert!(e.poll_event().is_none(), "ping_completed must not emit any event");
}

fn ep_tiny_event_buf() -> StreamEndpoint {
    StreamEndpoint::new(Options { event_buffer_size: 4, ..Options::new() })
}

#[test]
fn event_ring_wraparound_delivers_new_event() {
    let mut e = ep_tiny_event_buf();
    let m1 = UserEventMessage {
        ltime: LamportTime::new(1),
        cc: false,
        name: "dup_test".into(),
        payload: Bytes::new(),
    };
    let m2 = UserEventMessage {
        ltime: LamportTime::new(5),
        cc: false,
        name: "dup_test".into(),
        payload: Bytes::new(),
    };

    assert!(e.test_handle_user_event(m1), "ltime=1 delivery must return true (first sight)");

    let _ = e.poll_event();

    assert!(
        e.test_handle_user_event(m2),
        "ltime=5 delivery must return true (different ltime, not a duplicate)"
    );
}

#[test]
fn ack_query_produces_immediate_ack_directed_send() {
    let mut e = ep();
    let q = QueryMessage {
        flags: QueryFlag::ack_only(),
        ..test_query(LamportTime::new(3), 77)
    };
    e.test_handle_query(q);

    let (dest_addr, sent_bytes) = e
        .test_last_directed_send()
        .expect("ACK query must produce a directed send");

    assert_eq!(dest_addr, at("127.0.0.1:9999"), "ACK must be directed to the querier");

    let decoded = AnyMessage::<u32, SocketAddress>::decode(&sent_bytes)
        .expect("ACK bytes must decode as AnyMessage");
    match decoded {
        AnyMessage::QueryResponse(resp) => {
            assert!(resp.flags.ack, "decoded response must have ACK flag set");
            assert!(resp.payload.is_empty(), "ACK payload must be empty");
        }
        _ => panic!("expected QueryResponse(ACK)"),
    }
}

fn ep_small_resp_limit() -> StreamEndpoint {
    StreamEndpoint::new(Options { query_response_size_limit: 10, ..Options::new() },
    )
}

#[test]
fn respond_encoded_frame_size_check_rejects_small_payload_on_tight_limit() {
    let mut e = ep_small_resp_limit();
    let qid = QueryId {
        ltime: LamportTime::new(1),
        id: 42,
    };
    let token = e.test_register_received_query(qid, addr(1002), t_secs(100));

    let err = e
        .respond(&token, Bytes::new(), ORIGIN)
        .expect_err("encoded frame exceeds limit=10, must return RespondTooLarge");
    assert!(matches!(err, Error::RespondTooLarge(_, _)), "expected RespondTooLarge, got {:?}", err);

    assert!(
        !e.test_is_responded(qid),
        "responded flag must remain false when RespondTooLarge is returned"
    );
}

#[test]
fn stale_self_leave_does_not_trigger_refute() {
    let mut e = ep();
    e.test_seed_member(1u32, MemberStatus::Alive, LamportTime::new(10));

    let result =
        e.test_handle_leave_intent(1u32, LamportTime::new(3), ORIGIN);

    assert!(!result, "stale self-leave must return false");

    assert_eq!(
        e.member_time(),
        4,
        "stale self-leave must not advance the clock beyond witness(0, 3) = 4"
    );
}

#[test]
fn leave_broadcast_deadline_is_cleared_after_expiry() {
    let mut e = ep();

    e.leave(ORIGIN).unwrap();
    assert!(
        e.leave_broadcast_deadline().is_some(),
        "leave_broadcast_deadline must be armed after leave()"
    );

    let past = ORIGIN + secs(6);
    e.handle_timeout(past);

    assert!(
        e.leave_broadcast_deadline().is_none(),
        "leave_broadcast_deadline must be cleared after expiry"
    );
}

#[test]
fn load_snapshot_advances_event_clock() {
    let mut e = ep();
    let r = ReplayResult {
        alive_nodes: vec![],
        last_clock: LamportTime::new(0),
        last_event_clock: LamportTime::new(10),
        last_query_clock: LamportTime::new(0),
    };
    e.load_snapshot(r, ORIGIN)
        .unwrap();
    assert!(
        e.event_time() >= 10,
        "event_clock must be advanced to at least last_event_clock after load_snapshot, got {}",
        e.event_time()
    );
}

#[test]
fn load_snapshot_advances_query_clock() {
    let mut e = ep();
    let r = ReplayResult {
        alive_nodes: vec![],
        last_clock: LamportTime::new(0),
        last_event_clock: LamportTime::new(0),
        last_query_clock: LamportTime::new(20),
    };
    e.load_snapshot(r, ORIGIN)
        .unwrap();
    assert!(
        e.query_time() >= 20,
        "query_clock must be advanced to at least last_query_clock after load_snapshot, got {}",
        e.query_time()
    );
}

#[test]
fn load_snapshot_event_clock_allows_new_events_above_floor() {
    let mut e = ep();
    let r = ReplayResult {
        alive_nodes: vec![],
        last_clock: LamportTime::new(0),
        last_event_clock: LamportTime::new(10),
        last_query_clock: LamportTime::new(0),
    };
    e.load_snapshot(r, ORIGIN)
        .unwrap();

    while e.poll_event().is_some() {}

    e.user_event("post-snap", Bytes::from_static(b"ok"), false, ORIGIN)
    .expect("user_event after load_snapshot must succeed");
    let ev = e
        .poll_event()
        .expect("user_event after load_snapshot must be delivered");
    assert!(
        matches!(ev, Event::User(ref u) if u.name == "post-snap"),
        "expected Event::User(post-snap)"
    );
}

#[test]
fn malformed_conflict_response_does_not_inflate_denominator() {
    let mut e = ep();
    let deadline = far_future();
    let qid = e.test_register_conflict_query(deadline);

    let bad_inner = AnyMessage::<u32, SocketAddress>::UserEvent(UserEventMessage {
        ltime: LamportTime::new(1),
        cc: false,
        name: "bad".into(),
        payload: Bytes::new(),
    });
    let bad_payload = bad_inner.encode().expect("encode must succeed");
    let bad_resp = QueryResponseMessage::<u32, SocketAddress> {
        ltime: qid.ltime,
        id: qid.id,
        from: Node::new(200u32, addr(2000)),
        flags: QueryFlag::empty(),
        payload: bad_payload,
    };
    e.test_handle_query_response(bad_resp);

    e.test_fold_conflict_response(qid, 201u32, true);

    let past = ORIGIN + secs(3601);
    e.test_fire_due_query_closes(past);

    assert!(
        e.poll_event().is_none(),
        "malformed conflict response must not inflate denominator and trigger false Shutdown"
    );
}

#[test]
fn respond_send_failure_returns_err_and_leaves_responded_false() {
    let opts = Options { query_response_size_limit: 50_000, ..Options::new() };
    let mut e = StreamEndpoint::new(opts);

    e.mtu = 512;

    let qid = QueryId {
        ltime: LamportTime::new(1),
        id: 5,
    };
    let token = e.test_register_received_query(qid, addr(1002), t_secs(10));

    let large_payload = Bytes::from(vec![0u8; 490]);
    let result = e.respond(&token, large_payload, ORIGIN);

    assert!(result.is_err(), "respond() must return Err when the inner directed send fails");
    assert!(
        matches!(result.unwrap_err(), Error::RespondSend),
        "send failure must surface as Error::RespondSend"
    );

    assert!(!e.test_is_responded(qid), "entry must not be removed when the directed send fails");
}

#[test]
fn ack_query_with_relay_factor_relays_ack() {
    let mut e = ep();

    e.test_seed_member(10u32, MemberStatus::Alive, LamportTime::new(1));
    e.test_seed_member(11u32, MemberStatus::Alive, LamportTime::new(1));

    let q = QueryMessage {
        flags: QueryFlag::ack_only(),
        relay_factor: 1,
        ..test_query(LamportTime::new(1), 42)
    };
    e.test_handle_query(q);

    let (dest, _) = e
        .test_last_directed_send()
        .expect("at least one directed send must have occurred");

    assert_ne!(
        dest.port,
        9999,
        "last directed send after relay must be to a relay peer, not the querier"
    );
}

#[test]
fn received_query_is_removed_after_successful_respond() {
    let mut e = ep();
    let qid = QueryId {
        ltime: LamportTime::new(1),
        id: 5,
    };
    let token = e.test_register_received_query(qid, addr(1002), t_secs(10));

    e.respond(&token, Bytes::new(), ORIGIN)
    .expect("first respond() must succeed");

    let err = e
        .respond(&token, Bytes::new(), ORIGIN)
        .unwrap_err();
    assert!(
        matches!(err, Error::AlreadyResponded),
        "second respond() after removal must return AlreadyResponded, got {err:?}"
    );
}

#[test]
fn expired_received_queries_are_pruned_in_handle_timeout() {
    let mut e = ep();
    let qid = QueryId {
        ltime: LamportTime::new(2),
        id: 8,
    };
    let token = e.test_register_received_query(qid, addr(1003), t_secs(1));

    e.handle_timeout(t_secs(10));

    let err = e
        .respond(&token, Bytes::new(), t_secs(10))
        .unwrap_err();
    assert!(
        matches!(err, Error::AlreadyResponded),
        "expired received query must be pruned by handle_timeout, got {err:?}"
    );
}

#[test]
fn expired_received_queries_pruned_before_inbound_cap() {
    let mut e = ep();

    e.test_set_drain_now(t_secs(0));
    for i in 0..MAX_RECEIVED_QUERIES as u32 {
        let q = QueryMessage::<u32, SocketAddress> {
            ltime: LamportTime::new(i as u64 + 1),
            id: i,
            from: Node::new(99u32, addr(9001)),
            filters: vec![],
            flags: no_broadcast(),
            relay_factor: 0,
            timeout: secs(1),
            name: "flood".into(),
            payload: Bytes::new(),
        };
        let _ = e.test_handle_query(q);
    }
    assert_eq!(
        e.test_received_queries_len(),
        MAX_RECEIVED_QUERIES,
        "received_queries must be exactly at the cap after the flood"
    );

    e.test_set_drain_now(t_secs(10));

    while e.poll_event().is_some() {}

    let live_ltime = LamportTime::new(MAX_RECEIVED_QUERIES as u64 + 100);
    let live_id = MAX_RECEIVED_QUERIES as u32 + 100;
    let live = QueryMessage::<u32, SocketAddress> {
        ltime: live_ltime,
        id: live_id,
        from: Node::new(7u32, addr(7000)),
        filters: vec![],
        flags: no_broadcast(),
        relay_factor: 0,
        timeout: secs(30),
        name: "live".into(),
        payload: Bytes::new(),
    };
    let _ = e.test_handle_query(live);

    let ev = e
        .poll_event()
        .expect("the live inbound query must be admitted and surfaced as Event::Query");
    match ev {
        Event::Query(qe) => {
            assert_eq!(qe.ltime(), live_ltime, "surfaced event must be the live query");
            assert_eq!(qe.id(), live_id, "surfaced event must be the live query");
        }
        other => panic!(
            "expected Event::Query for the live query, got {:?}",
            core::mem::discriminant(&other)
        ),
    }

    assert_eq!(
        e.test_received_queries_len(),
        1,
        "the stale tokens must be pruned inline, leaving only the live token"
    );
}

#[test]
fn received_query_answerable_at_exact_deadline_survives_inbound_prune() {
    let mut e = ep();

    e.test_set_drain_now(t_secs(0));
    let original = QueryMessage::<u32, SocketAddress> {
        ltime: LamportTime::new(1),
        id: 1,
        from: Node::new(99u32, addr(9001)),
        filters: vec![],
        flags: no_broadcast(),
        relay_factor: 0,
        timeout: secs(5),
        name: "original".into(),
        payload: Bytes::new(),
    };
    let _ = e.test_handle_query(original);

    let token = match e
        .poll_event()
        .expect("the original inbound query must surface as Event::Query")
    {
        Event::Query(qe) => qe,
        other => panic!("expected Event::Query, got {:?}", core::mem::discriminant(&other)),
    };
    let deadline = token.deadline();

    e.test_set_drain_now(deadline);
    let other = QueryMessage::<u32, SocketAddress> {
        ltime: LamportTime::new(2),
        id: 2,
        from: Node::new(7u32, addr(7000)),
        filters: vec![],
        flags: no_broadcast(),
        relay_factor: 0,
        timeout: secs(30),
        name: "other".into(),
        payload: Bytes::new(),
    };
    let _ = e.test_handle_query(other);

    e.respond(&token, Bytes::new(), deadline)
        .expect("respond at exactly the deadline must succeed: the token is still answerable");
}

#[test]
fn zero_conflict_responses_does_not_shut_down() {
    let mut e = ep();
    let deadline = far_future();
    let _qid = e.test_register_conflict_query(deadline);

    let past = ORIGIN + secs(3601);
    e.test_fire_due_query_closes(past);

    assert!(
        e.poll_event().is_none(),
        "zero conflict responses must not emit Event::Shutdown (inconclusive)"
    );
}

#[test]
fn zero_valid_conflict_responses_all_malformed_does_not_shut_down() {
    let mut e = ep();
    let deadline = far_future();
    let qid = e.test_register_conflict_query(deadline);

    let bad_inner = AnyMessage::<u32, SocketAddress>::UserEvent(UserEventMessage {
        ltime: LamportTime::new(1),
        cc: false,
        name: "bad".into(),
        payload: Bytes::new(),
    });
    let bad_payload = bad_inner.encode().expect("encode must succeed");
    let bad_resp = QueryResponseMessage::<u32, SocketAddress> {
        ltime: qid.ltime,
        id: qid.id,
        from: Node::new(300u32, addr(3000)),
        flags: QueryFlag::empty(),
        payload: bad_payload,
    };
    e.test_handle_query_response(bad_resp);

    assert_eq!(
        e.test_pending_query_response_count(qid),
        0,
        "malformed conflict response must not be counted"
    );

    let past = ORIGIN + secs(3601);
    e.test_fire_due_query_closes(past);

    assert!(
        e.poll_event().is_none(),
        "zero valid conflict responses (all malformed) must not emit Event::Shutdown"
    );
}

#[test]
fn malformed_key_response_does_not_inflate_num_resp() {
    let mut e = ep();
    let deadline = far_future();
    let qid = e.test_register_key_query(deadline);

    let bad_inner = AnyMessage::<u32, SocketAddress>::UserEvent(UserEventMessage {
        ltime: LamportTime::new(1),
        cc: false,
        name: "bad".into(),
        payload: Bytes::new(),
    });
    let bad_payload = bad_inner.encode().expect("encode must succeed");
    let bad_resp = QueryResponseMessage::<u32, SocketAddress> {
        ltime: qid.ltime,
        id: qid.id,
        from: Node::new(400u32, addr(4000)),
        flags: QueryFlag::empty(),
        payload: bad_payload,
    };
    e.test_handle_query_response(bad_resp);

    assert_eq!(
        e.test_pending_query_response_count(qid),
        0,
        "malformed key response must not inflate num_resp"
    );
}

#[test]
fn ingress_max_ltime_user_event_does_not_regress_clock() {
    let mut e = ep();
    e.test_set_clocks(10, 10, 10);
    let msg = UserEventMessage {
        ltime: LamportTime::new(u64::MAX),
        cc: false,
        name: "flood".into(),
        payload: Bytes::new(),
    };

    let _ = e.handle_user_event(msg);

    assert!(e.event_time() >= 10, "event clock must not regress after witnessing u64::MAX ltime");
}

#[test]
fn ingress_max_ltime_query_does_not_regress_clock() {
    let mut e = ep();
    e.test_set_clocks(0, 0, 20);
    let msg = QueryMessage::<u32, SocketAddress> {
        ltime: LamportTime::new(u64::MAX),
        id: 42,
        from: Node::new(1u32, addr(9000)),
        filters: vec![],
        flags: QueryFlag::empty(),
        relay_factor: 0,
        timeout: secs(1),
        name: "flood".into(),
        payload: Bytes::new(),
    };
    let _ = e.test_handle_query(msg);

    assert!(e.query_time() >= 20, "query clock must not regress after witnessing u64::MAX ltime");
}

#[test]
fn ingress_max_ltime_join_intent_does_not_regress_member_clock() {
    let mut e = ep();
    e.test_set_clocks(15, 0, 0);
    let _ = e.handle_node_join_intent(LamportTime::new(u64::MAX), &999u32, t_secs(0));
    assert!(
        e.member_time() >= 15,
        "member clock must not regress after witnessing u64::MAX join intent"
    );
}

#[test]
fn ingress_max_ltime_leave_intent_does_not_regress_member_clock() {
    let mut e = ep();
    e.test_set_clocks(15, 0, 0);
    e.test_seed_left_member(888u32, LamportTime::new(1));
    let _ = e.handle_node_leave_intent(LamportTime::new(u64::MAX), &888u32, false, t_secs(0));
    assert!(
        e.member_time() >= 15,
        "member clock must not regress after witnessing u64::MAX leave intent"
    );
}

#[test]
fn endpoint_query_buffer_slot_capped_via_adapter() {
    let mut e = ep();
    e.test_set_clocks(0, 0, 1);
    let ltime = 1u64;

    for id in 0..MAX_QUERY_IDS_PER_LTIME as u32 {
        let msg = QueryMessage::<u32, SocketAddress> {
            ltime: LamportTime::new(ltime),
            id,
            from: Node::new(id + 10, addr(9000)),
            filters: vec![],
            flags: no_broadcast(),
            relay_factor: 0,
            timeout: secs(1),
            name: "flood".into(),
            payload: Bytes::new(),
        };
        let _ = e.test_handle_query(msg);
    }

    let before_overflow = e.test_query_slot_len(ltime);
    assert_eq!(before_overflow, MAX_QUERY_IDS_PER_LTIME, "slot must be exactly at the cap");

    let overflow_msg = QueryMessage::<u32, SocketAddress> {
        ltime: LamportTime::new(ltime),
        id: MAX_QUERY_IDS_PER_LTIME as u32,
        from: Node::new(9999u32, addr(9999)),
        filters: vec![],
        flags: no_broadcast(),
        relay_factor: 0,
        timeout: secs(1),
        name: "overflow".into(),
        payload: Bytes::new(),
    };
    let _ = e.test_handle_query(overflow_msg);

    assert_eq!(
        e.test_query_slot_len(ltime),
        MAX_QUERY_IDS_PER_LTIME,
        "slot must not exceed the cap after overflow attempt"
    );
}

#[test]
fn resync_keeps_dirty_when_inner_snapshot_rejects() {
    let mut e = StreamEndpoint::new(Options::new());

    e.refuses_snapshots = true;

    e.test_set_clocks(1, 2, 3);
    e.resync_local_state();

    assert!(
        e.test_is_dirty(),
        "dirty flag must remain true when inner set_local_state_snapshot fails"
    );
}

fn sa(port: u16) -> SocketAddress {
    at(&format!("127.0.0.1:{port}"))
}

#[test]
fn join_intent_max_ltime_is_dropped_no_state_mutation() {
    let mut e = ep();

    e.test_seed_member(42u32, MemberStatus::Alive, LamportTime::new(1));
    let clock_before = e.member_time();

    let result = e.test_handle_join_intent(42u32, LamportTime::new(u64::MAX), ORIGIN);

    assert!(!result, "join intent at u64::MAX must return false (no rebroadcast)");
    assert_eq!(
        e.member_time(),
        clock_before,
        "member clock must not advance on u64::MAX join intent"
    );
    assert_eq!(
        e.test_member_status_time(42u32).map(|lt| lt.0),
        Some(1),
        "status_time must not be updated to u64::MAX"
    );
    assert_eq!(e.test_member_status(42u32), Some(MemberStatus::Alive), "status must remain Alive");
}

#[test]
fn leave_intent_max_ltime_is_dropped_no_state_mutation() {
    let mut e = ep();
    e.test_seed_member(42u32, MemberStatus::Alive, LamportTime::new(1));
    let clock_before = e.member_time();

    let result = e.test_handle_leave_intent(42u32, LamportTime::new(u64::MAX), ORIGIN);

    assert!(!result, "leave intent at u64::MAX must return false (no rebroadcast)");
    assert_eq!(
        e.member_time(),
        clock_before,
        "member clock must not advance on u64::MAX leave intent"
    );
    assert_eq!(
        e.test_member_status_time(42u32).map(|lt| lt.0),
        Some(1),
        "status_time must not be updated to u64::MAX"
    );
    assert_eq!(e.test_member_status(42u32), Some(MemberStatus::Alive), "status must remain Alive");
}

#[test]
fn user_event_max_ltime_is_dropped_no_state_mutation() {
    let mut e = ep();
    let clock_before = e.event_time();

    let msg = UserEventMessage {
        ltime: LamportTime::new(u64::MAX),
        cc: false,
        name: "test".into(),
        payload: Bytes::new(),
    };
    let is_new = e.test_handle_user_event(msg);

    assert!(!is_new, "user event at u64::MAX must return false");
    assert_eq!(e.event_time(), clock_before, "event clock must not advance on u64::MAX user event");
    assert!(e.poll_event().is_none(), "no event must be emitted for u64::MAX user event");
}

#[test]
fn query_max_ltime_is_dropped_no_state_mutation() {
    let mut e = ep();
    let clock_before = e.query_time();

    let msg = QueryMessage::<u32, SocketAddress> {
        ltime: LamportTime::new(u64::MAX),
        id: 1,
        from: Node::new(99u32, sa(9001)),
        filters: vec![],
        flags: no_broadcast(),
        relay_factor: 0,
        timeout: secs(1),
        name: "test".into(),
        payload: Bytes::new(),
    };
    let rebroadcast = e.test_handle_query(msg);

    assert!(!rebroadcast, "query at u64::MAX must return false (no rebroadcast)");
    assert_eq!(e.query_time(), clock_before, "query clock must not advance on u64::MAX query");
    assert!(e.poll_event().is_none(), "no event must be emitted for u64::MAX query");
}

#[test]
fn merge_remote_state_max_member_clock_is_ignored() {
    let mut e = ep();
    e.test_seed_member(42u32, MemberStatus::Alive, LamportTime::new(1));
    let clock_before = e.member_time();
    let event_clock_before = e.event_time();
    let query_clock_before = e.query_time();

    let pp = PushPullMessage::<u32> {
        ltime: LamportTime::new(u64::MAX),
        event_ltime: LamportTime::new(u64::MAX),
        query_ltime: LamportTime::new(u64::MAX),
        status_ltimes: vec![(42u32, LamportTime::new(u64::MAX))],
        left_members: vec![],
        events: vec![],
    };
    let encoded = AnyMessage::<u32, SocketAddress>::PushPull(pp)
        .encode()
        .expect("encode must succeed");
    e.test_merge_remote_state(encoded);

    assert_eq!(e.member_time(), clock_before, "member clock must not advance on MAX push-pull");
    assert_eq!(e.event_time(), event_clock_before, "event clock must not advance on MAX push-pull");
    assert_eq!(e.query_time(), query_clock_before, "query clock must not advance on MAX push-pull");

    assert_eq!(
        e.test_member_status_time(42u32).map(|lt| lt.0),
        Some(1),
        "status_time must not be overwritten with u64::MAX via push-pull"
    );
}

#[test]
fn load_snapshot_max_clocks_are_ignored() {
    let mut e = ep();
    let clock_before = e.member_time();
    let event_clock_before = e.event_time();
    let query_clock_before = e.query_time();
    let event_min_before = e.test_event_min_time();

    let replay = ReplayResult {
        last_clock: LamportTime::new(u64::MAX),
        last_event_clock: LamportTime::new(u64::MAX),
        last_query_clock: LamportTime::new(u64::MAX),
        alive_nodes: vec![],
    };
    e.load_snapshot(replay, ORIGIN)
        .unwrap();

    assert_eq!(e.member_time(), clock_before, "member clock must not advance on MAX snapshot");
    assert_eq!(e.event_time(), event_clock_before, "event clock must not advance on MAX snapshot");
    assert_eq!(e.query_time(), query_clock_before, "query clock must not advance on MAX snapshot");
    assert_eq!(
        e.test_event_min_time(),
        event_min_before,
        "event min_time must not be set to u64::MAX by snapshot"
    );
    assert_ne!(
        e.test_event_min_time(),
        u64::MAX,
        "event min_time == u64::MAX would drop all future events"
    );
}

#[test]
fn event_buffer_slot_capped_at_max_events_per_ltime() {
    let mut e = ep();
    e.test_set_event_clock(1);
    let ltime = 1u64;

    for i in 0..MAX_EVENTS_PER_LTIME as u32 {
        let msg = UserEventMessage {
            ltime: LamportTime::new(ltime),
            cc: false,
            name: format!("ev-{i}").into(),
            payload: Bytes::new(),
        };
        let _ = e.test_handle_user_event(msg);
    }
    assert_eq!(
        e.test_event_slot_len(ltime),
        MAX_EVENTS_PER_LTIME,
        "slot must be exactly at the cap"
    );

    let overflow = UserEventMessage {
        ltime: LamportTime::new(ltime),
        cc: false,
        name: "overflow".into(),
        payload: Bytes::new(),
    };
    let is_new = e.test_handle_user_event(overflow);
    assert!(!is_new, "event past the per-ltime cap must be rejected");
    assert_eq!(
        e.test_event_slot_len(ltime),
        MAX_EVENTS_PER_LTIME,
        "slot must not grow past MAX_EVENTS_PER_LTIME"
    );
}

#[test]
fn inbound_user_event_too_large_is_dropped() {
    let mut e = ep();
    e.test_set_event_clock(1);
    let ltime = 1u64;

    let big_name: String = "x".repeat(300).into();
    let big_payload = Bytes::from(vec![0u8; 300]);
    let msg = UserEventMessage {
        ltime: LamportTime::new(ltime),
        cc: false,
        name: big_name,
        payload: big_payload,
    };
    let is_new = e.test_handle_user_event(msg);
    assert!(!is_new, "oversized inbound event must be rejected");
    assert!(e.poll_event().is_none(), "no Event::User for oversized inbound event");
    assert_eq!(e.test_event_slot_len(ltime), 0, "slot must not grow for oversized event");
}

#[test]
fn key_query_num_nodes_equals_member_count_at_issue_time() {
    let mut e = ep();

    for id in [10u32, 11, 12] {
        e.test_seed_member(id, MemberStatus::Alive, LamportTime::new(1));
    }
    assert_eq!(e.num_members(), 4);

    let far_future = ORIGIN + secs(9999);
    let _query_id = e.test_register_key_query(far_future);

    let num_nodes = e
        .test_last_pending_query_num_nodes()
        .expect("pending query must exist");
    assert_eq!(num_nodes, 4, "num_nodes must equal the member count at issue time");

    let after_deadline = far_future + 1;
    e.test_fire_due_query_closes(after_deadline);

    let ev = e
        .poll_event()
        .expect("Event::KeyResponse must be emitted on timeout");
    match ev {
        Event::KeyResponse(kr) => {
            assert_eq!(
                kr.num_nodes, 4,
                "KeyResponse.num_nodes must equal the queried member count"
            );
            assert_eq!(kr.num_resp, 0, "no responses were folded before timeout");
        }
        _ => panic!("expected Event::KeyResponse"),
    }
}

#[test]
fn key_query_num_nodes_is_captured_at_issue_not_at_close() {
    let mut e = ep();

    e.test_seed_member(10u32, MemberStatus::Alive, LamportTime::new(1));
    assert_eq!(e.num_members(), 2);

    let far_future = ORIGIN + secs(9999);
    let _query_id = e.test_register_key_query(far_future);

    e.test_seed_member(11u32, MemberStatus::Alive, LamportTime::new(1));
    e.test_seed_member(12u32, MemberStatus::Alive, LamportTime::new(1));
    assert_eq!(e.num_members(), 4);

    let after_deadline = far_future + 1;
    e.test_fire_due_query_closes(after_deadline);

    let ev = e.poll_event().expect("Event::KeyResponse must be emitted");
    match ev {
        Event::KeyResponse(kr) => {
            assert_eq!(
                kr.num_nodes, 2,
                "num_nodes must be the count at issue time (2), not the current count (4)"
            );
        }
        _ => panic!("expected Event::KeyResponse"),
    }
}

#[test]
fn join_intent_max_minus_one_ltime_is_dropped() {
    let mut e = ep();
    e.test_seed_member(42u32, MemberStatus::Alive, LamportTime::new(1));
    let clock_before = e.member_time();

    let result = e.test_handle_join_intent(42u32, LamportTime::new(u64::MAX - 1), ORIGIN);

    assert!(!result, "join intent at u64::MAX-1 must return false");
    assert_eq!(
        e.member_time(),
        clock_before,
        "member clock must not advance on u64::MAX-1 join intent"
    );
    assert_eq!(
        e.test_member_status_time(42u32).map(|lt| lt.0),
        Some(1),
        "status_time must not be updated to u64::MAX-1"
    );

    e.user_event("ok", Bytes::new(), false, ORIGIN)
        .expect("user_event must succeed after rejected intent");
}

#[test]
fn leave_intent_max_minus_one_ltime_is_dropped() {
    let mut e = ep();
    e.test_seed_member(42u32, MemberStatus::Alive, LamportTime::new(1));
    let clock_before = e.member_time();

    let result = e.test_handle_leave_intent(42u32, LamportTime::new(u64::MAX - 1), ORIGIN);

    assert!(!result, "leave intent at u64::MAX-1 must return false");
    assert_eq!(
        e.member_time(),
        clock_before,
        "member clock must not advance on u64::MAX-1 leave intent"
    );
    assert_eq!(
        e.test_member_status_time(42u32).map(|lt| lt.0),
        Some(1),
        "status_time must not be updated to u64::MAX-1"
    );

    let ok = e.test_handle_join_intent(42u32, LamportTime::new(5), ORIGIN);
    assert!(ok, "valid join intent after rejected leave must be accepted");
}

#[test]
fn user_event_max_minus_one_ltime_is_dropped() {
    let mut e = ep();
    let clock_before = e.event_time();

    let msg = UserEventMessage {
        ltime: LamportTime::new(u64::MAX - 1),
        cc: false,
        name: "bad".into(),
        payload: Bytes::new(),
    };
    let is_new = e.test_handle_user_event(msg);

    assert!(!is_new, "user event at u64::MAX-1 must return false");
    assert_eq!(
        e.event_time(),
        clock_before,
        "event clock must not advance on u64::MAX-1 user event"
    );
    assert!(e.poll_event().is_none(), "no event must be emitted for u64::MAX-1 user event");

    e.user_event("ok", Bytes::new(), false, ORIGIN)
        .expect("user_event must succeed after rejected event");
}

#[test]
fn query_max_minus_one_ltime_is_dropped() {
    let mut e = ep();
    let clock_before = e.query_time();

    let msg = QueryMessage::<u32, SocketAddress> {
        ltime: LamportTime::new(u64::MAX - 1),
        id: 1,
        from: Node::new(99u32, sa(9001)),
        filters: vec![],
        flags: no_broadcast(),
        relay_factor: 0,
        timeout: secs(1),
        name: "bad".into(),
        payload: Bytes::new(),
    };
    let rebroadcast = e.test_handle_query(msg);

    assert!(!rebroadcast, "query at u64::MAX-1 must return false");
    assert_eq!(e.query_time(), clock_before, "query clock must not advance on u64::MAX-1 query");
    assert!(e.poll_event().is_none(), "no event must be emitted for u64::MAX-1 query");

    let _qid = e
        .query("ok", Bytes::new(), QueryParams::new(), ORIGIN)
        .expect("query must succeed after rejected query");
}

#[test]
fn merge_remote_state_max_minus_one_member_clock_drops_entire_message() {
    let mut e = ep();

    e.test_seed_member(42u32, MemberStatus::Alive, LamportTime::new(1));
    e.test_clear_dirty();
    let clock_before = e.member_time();

    let pp = PushPullMessage::<u32> {
        ltime: LamportTime::new(u64::MAX - 1),
        event_ltime: LamportTime::new(5),
        query_ltime: LamportTime::new(5),
        status_ltimes: vec![(42u32, LamportTime::new(100))],
        left_members: vec![],
        events: vec![],
    };
    let encoded = AnyMessage::<u32, SocketAddress>::PushPull(pp)
        .encode()
        .expect("encode must succeed");
    e.test_merge_remote_state(encoded);

    assert_eq!(
        e.member_time(),
        clock_before,
        "member clock must not advance when top-level clock is u64::MAX-1"
    );
    assert!(!e.test_is_dirty(), "dirty flag must not be set when the entire push-pull is dropped");

    assert_eq!(
        e.test_member_status_time(42u32).map(|lt| lt.0),
        Some(1),
        "status_time must not be updated when the whole push-pull is dropped"
    );
}

#[test]
fn merge_remote_state_max_minus_one_event_clock_drops_entire_message() {
    let mut e = ep();
    e.test_seed_member(42u32, MemberStatus::Alive, LamportTime::new(1));
    e.test_clear_dirty();
    let event_clock_before = e.event_time();

    let pp = PushPullMessage::<u32> {
        ltime: LamportTime::new(5),
        event_ltime: LamportTime::new(u64::MAX - 1),
        query_ltime: LamportTime::new(5),
        status_ltimes: vec![(42u32, LamportTime::new(100))],
        left_members: vec![],
        events: vec![],
    };
    let encoded = AnyMessage::<u32, SocketAddress>::PushPull(pp)
        .encode()
        .expect("encode must succeed");
    e.test_merge_remote_state(encoded);

    assert_eq!(
        e.event_time(),
        event_clock_before,
        "event clock must not advance when event_ltime is u64::MAX-1"
    );
    assert!(!e.test_is_dirty(), "dirty flag must not be set when the entire push-pull is dropped");
    assert_eq!(
        e.test_member_status_time(42u32).map(|lt| lt.0),
        Some(1),
        "status_time must not be updated when push-pull is dropped on event_ltime"
    );
}

#[test]
fn conflict_response_from_unknown_responder_is_not_counted() {
    let mut e = ep();

    e.test_seed_member(10u32, MemberStatus::Alive, LamportTime::new(1));

    let far_future = t_secs(9999);
    let qid = e.test_register_conflict_query(far_future);

    let forged = QueryResponseMessage::<u32, SocketAddress> {
        ltime: qid.ltime,
        id: qid.id,
        from: Node::new(999u32, addr(9999)),
        flags: QueryFlag::empty(),
        payload: Bytes::new(),
    };
    e.test_handle_query_response(forged);

    assert_eq!(
        e.test_pending_query_response_count(qid),
        0,
        "forged responder id must not be counted in conflict denominator"
    );

    assert_eq!(
        e.test_pending_query_conflict_matching(qid),
        Some(0),
        "conflict_matching must not increase for forged responder"
    );
}

#[test]
fn conflict_response_flood_of_unknown_ids_does_not_inflate_denominator() {
    let mut e = ep();

    e.test_seed_member(10u32, MemberStatus::Alive, LamportTime::new(1));

    let far_future = t_secs(9999);
    let qid = e.test_register_conflict_query(far_future);

    for forger_id in 1000u32..2000 {
        let resp = QueryResponseMessage::<u32, SocketAddress> {
            ltime: qid.ltime,
            id: qid.id,
            from: Node::new(forger_id, addr(9000)),
            flags: QueryFlag::empty(),
            payload: Bytes::new(),
        };
        e.test_handle_query_response(resp);
    }

    assert_eq!(
        e.test_pending_query_response_count(qid),
        0,
        "1000 forged responder ids must not inflate the denominator"
    );
}

#[test]
fn conflict_response_from_known_member_is_counted() {
    let mut e = ep();
    e.test_seed_member(10u32, MemberStatus::Alive, LamportTime::new(1));

    let far_future = t_secs(9999);
    let qid = e.test_register_conflict_query(far_future);

    let member_node = Node::<u32, SocketAddress>::new(10u32, addr(7946));
    let conflict_resp = ConflictResponseMessage { member: member_node.dup() };
    let payload = AnyMessage::<u32, SocketAddress>::ConflictResponse(conflict_resp)
        .encode()
        .expect("encode conflict response");

    let resp = QueryResponseMessage {
        ltime: qid.ltime,
        id: qid.id,
        from: member_node,
        flags: QueryFlag::empty(),
        payload,
    };
    e.test_handle_query_response(resp);

    assert_eq!(
        e.test_pending_query_response_count(qid),
        1,
        "response from known member must be counted"
    );
}

#[test]
fn recent_intents_capped_on_join_intent_flood() {
    let mut e = ep();
    let now = ORIGIN;

    for unknown_id in 100u32..(100 + 2 * MAX_RECENT_INTENTS as u32) {
        e.test_handle_join_intent(unknown_id, LamportTime::new(1), now);
    }

    assert!(
        e.test_recent_intents_len() <= MAX_RECENT_INTENTS,
        "recent_intents must not exceed MAX_RECENT_INTENTS after flood: got {}",
        e.test_recent_intents_len()
    );
}

#[test]
fn recent_intents_capped_on_leave_intent_flood() {
    let mut e = ep();
    let now = ORIGIN;

    for unknown_id in 100u32..(100 + 2 * MAX_RECENT_INTENTS as u32) {
        e.test_handle_leave_intent(unknown_id, LamportTime::new(1), now);
    }

    assert!(
        e.test_recent_intents_len() <= MAX_RECENT_INTENTS,
        "recent_intents must not exceed MAX_RECENT_INTENTS after leave flood: got {}",
        e.test_recent_intents_len()
    );
}

#[test]
fn zero_event_buffer_size_does_not_panic_on_first_event() {
    let opts = Options { event_buffer_size: 0, ..Options::new() };
    let mut e = StreamEndpoint::new(opts);

    e.user_event("test", Bytes::new(), false, ORIGIN)
        .expect("user_event must not panic when event_buffer_size was 0");
}

#[test]
fn zero_event_buffer_size_does_not_panic_on_merge_remote_state() {
    let opts = Options { event_buffer_size: 0, ..Options::new() };
    let mut e = StreamEndpoint::new(opts);

    let pp = PushPullMessage::<u32> {
        ltime: LamportTime::new(1),
        event_ltime: LamportTime::new(1),
        query_ltime: LamportTime::new(1),
        status_ltimes: vec![],
        left_members: vec![],
        events: vec![UserEvents {
            ltime: LamportTime::new(1),
            events: vec![UserEvent {
                name: "e".into(),
                payload: Bytes::new(),
            }],
        }],
    };
    let encoded = AnyMessage::<u32, SocketAddress>::PushPull(pp)
        .encode()
        .expect("encode must succeed");

    e.test_merge_remote_state(encoded);
}

#[test]
fn ltime_max_join_intent_is_dropped() {
    let mut e = ep();
    e.test_set_clocks(5, 0, 0);
    let result = e.test_handle_join_intent(42u32, LamportTime::new(LTIME_MAX), ORIGIN);
    assert!(!result, "join intent at LTIME_MAX must be dropped");
    assert_eq!(e.member_time(), 5, "clock must not advance on LTIME_MAX join");
}

#[test]
fn ltime_max_plus5_user_event_is_dropped() {
    let mut e = ep();
    e.test_set_clocks(0, 3, 0);
    let msg = UserEventMessage {
        ltime: LamportTime::new(LTIME_MAX + 5),
        cc: false,
        name: "flood".into(),
        payload: Bytes::new(),
    };
    let is_new = e.test_handle_user_event(msg);
    assert!(!is_new, "user event at LTIME_MAX+5 must be dropped");
    assert_eq!(e.event_time(), 3, "event clock must not advance on LTIME_MAX+5 event");
    assert!(e.poll_event().is_none(), "no event must be emitted");
}

#[test]
fn after_high_clock_local_user_event_still_works() {
    let mut e = ep();

    e.test_set_event_clock(LTIME_MAX - 2);

    let msg = UserEventMessage {
        ltime: LamportTime::new(LTIME_MAX - 2),
        cc: false,
        name: "ok".into(),
        payload: Bytes::new(),
    };
    let _ = e.test_handle_user_event(msg);

    let result = e.user_event("local", Bytes::new(), false, ORIGIN);
    assert!(result.is_ok(), "user_event must succeed even at high clock");
}

#[test]
fn received_queries_capped_at_max_via_handle_query() {
    let mut e = ep();
    e.test_set_clocks(0, 0, 1);

    for i in 0..(MAX_RECEIVED_QUERIES + 20) as u32 {
        let msg = QueryMessage::<u32, SocketAddress> {
            ltime: LamportTime::new(1),
            id: i,
            from: Node::new(99u32, sa(9001)),
            filters: vec![],
            flags: no_broadcast(),
            relay_factor: 0,
            timeout: secs(3600),
            name: "flood".into(),
            payload: Bytes::new(),
        };
        let _ = e.test_handle_query(msg);
    }

    assert!(
        e.test_received_queries_len() <= MAX_RECEIVED_QUERIES,
        "received_queries must not exceed cap after flood; got {}",
        e.test_received_queries_len()
    );
}

#[test]
fn inbound_query_timeout_clamped() {
    let mut e = ep();
    e.test_set_clocks(0, 0, 1);
    let now = ORIGIN;

    let msg = QueryMessage::<u32, SocketAddress> {
        ltime: LamportTime::new(1),
        id: 77,
        from: Node::new(99u32, sa(9001)),
        filters: vec![],
        flags: no_broadcast(),
        relay_factor: 0,
        timeout: secs(3600),
        name: "test".into(),
        payload: Bytes::new(),
    };

    let _ = e.test_handle_query(msg);

    let max_deadline = now + MAX_QUERY_TIMEOUT;
    let all_within = e
        .test_peek_received_query_deadlines()
        .iter()
        .all(|&dl| dl <= max_deadline);
    assert!(all_within, "all received_query deadlines must be <= now + MAX_QUERY_TIMEOUT");
}

#[test]
fn rebroadcast_queue_depth_capped() {
    let mut e = ep();

    for i in 0u32..5000 {
        let msg = UserEventMessage {
            ltime: LamportTime::new(i as u64 + 1),
            cc: false,
            name: format!("ev{i}").into(),
            payload: Bytes::new(),
        };
        let _ = e.test_handle_user_event(msg);
    }
    let depth = e.user_broadcast_queue_len();
    let queue_max = Options::new().max_queue_depth;
    assert!(
        depth <= queue_max,
        "broadcast queue depth {depth} must not exceed queue_max {queue_max}"
    );
}

#[test]
fn inbound_query_oversized_is_dropped_before_state_mutation() {
    let opts = Options { query_size_limit: 64, ..Options::new() };
    let mut e = StreamEndpoint::new(opts);

    let _ = e.poll_event();

    let oversized_payload = Bytes::from(vec![0u8; 100]);
    let q = QueryMessage::<u32, SocketAddress> {
        ltime: LamportTime::new(3),
        id: 0xabcd_ef01,
        from: Node::new(2u32, sa(9002)),
        filters: vec![],
        flags: QueryFlag::empty(),
        relay_factor: 0,
        timeout: secs(5),
        name: "ping".into(),
        payload: oversized_payload,
    };
    let encoded = AnyMessage::<u32, SocketAddress>::Query(q)
        .encode()
        .unwrap();
    assert!(
        encoded.len() > 64,
        "test precondition: encoded size ({}) must exceed limit (64)",
        encoded.len()
    );

    let before_qclock = e.query_time();
    let before_rcv = e.test_received_queries_len();
    let before_queue = e.user_broadcast_queue_len();

    e.test_inject_user_packet(sa(9002), encoded, ORIGIN);

    assert!(e.poll_event().is_none(), "oversized inbound query must not emit Event::Query");

    assert_eq!(
        e.query_time(),
        before_qclock,
        "oversized inbound query must not advance query_clock"
    );

    assert_eq!(
        e.test_received_queries_len(),
        before_rcv,
        "oversized inbound query must not insert into received_queries"
    );

    assert_eq!(
        e.user_broadcast_queue_len(),
        before_queue,
        "oversized inbound query must not be rebroadcast"
    );
}

#[test]
fn inbound_query_within_size_limit_is_accepted() {
    let mut e = ep();

    let q = QueryMessage::<u32, SocketAddress> {
        ltime: LamportTime::new(1),
        id: 0x1234_5678,
        from: Node::new(2u32, sa(9002)),
        filters: vec![],
        flags: QueryFlag::empty(),
        relay_factor: 0,
        timeout: secs(5),
        name: "ok".into(),
        payload: Bytes::from_static(b"small"),
    };
    let encoded = AnyMessage::<u32, SocketAddress>::Query(q)
        .encode()
        .unwrap();
    assert!(
        encoded.len() <= 1024,
        "test precondition: encoded size ({}) must be within default limit (1024)",
        encoded.len()
    );

    let before_qclock = e.query_time();

    e.test_inject_user_packet(sa(9002), encoded, ORIGIN);

    let ev = e.poll_event();
    assert!(matches!(ev, Some(Event::Query(_))), "in-limit inbound query must emit Event::Query");

    assert!(e.query_time() > before_qclock, "in-limit inbound query must advance query_clock");

    assert_eq!(
        e.test_received_queries_len(),
        1,
        "in-limit inbound query must insert into received_queries"
    );
}

#[test]
fn ack_for_non_ack_query_is_dropped() {
    let mut e = ep();
    let deadline = ORIGIN + secs(10);

    let qid = QueryId {
        ltime: LamportTime::new(1),
        id: 42,
    };
    e.core_mut().pending_queries.push(PendingQuery::new(QueryPurpose::App, deadline, qid, false, 0));

    let ack_msg = QueryResponseMessage::<u32, SocketAddress> {
        ltime: LamportTime::new(1),
        id: 42,
        from: Node::new(99u32, sa(9001)),
        flags: QueryFlag::ack_only(),
        payload: Bytes::new(),
    };
    e.test_handle_query_response(ack_msg);

    assert!(e.poll_event().is_none(), "ACK for a non-ack query must not emit Event::QueryAck");
}

#[test]
fn ack_for_ack_query_is_delivered() {
    let mut e = ep();
    let deadline = ORIGIN + secs(10);

    let qid = QueryId {
        ltime: LamportTime::new(1),
        id: 42,
    };
    e.core_mut().pending_queries.push(PendingQuery::new(QueryPurpose::App, deadline, qid, true, 0));

    let ack_msg = QueryResponseMessage::<u32, SocketAddress> {
        ltime: LamportTime::new(1),
        id: 42,
        from: Node::new(99u32, sa(9001)),
        flags: QueryFlag::ack_only(),
        payload: Bytes::new(),
    };
    e.test_handle_query_response(ack_msg);

    let ev = e.poll_event();
    assert!(
        matches!(ev, Some(Event::QueryAck(_))),
        "ACK for a request_ack=true query must emit Event::QueryAck"
    );
}

#[test]
fn user_event_with_trailing_junk_is_dropped_no_event_no_clock_advance() {
    let mut e = ep();

    let valid = AnyMessage::<u32, SocketAddress>::UserEvent(UserEventMessage {
        ltime: LamportTime::new(7),
        cc: false,
        name: "op".into(),
        payload: Bytes::from_static(b"data"),
    })
    .encode()
    .unwrap();

    let mut padded = valid.to_vec();
    padded.extend_from_slice(b"\xde\xad\xbe\xef");
    let padded = Bytes::from(padded);

    let clock_before = e.event_time();
    let queue_before = e.user_broadcast_queue_len();
    let from: SocketAddress = at("127.0.0.1:1002");

    e.test_inject_user_packet(from, padded, ORIGIN);

    assert!(e.poll_event().is_none(), "trailing-junk packet must be dropped — no Event::User");
    assert_eq!(
        e.event_time(),
        clock_before,
        "trailing-junk packet must not advance the event clock"
    );
    assert_eq!(
        e.user_broadcast_queue_len(),
        queue_before,
        "trailing-junk packet must not grow the rebroadcast queue"
    );
}

#[test]
fn join_intent_with_trailing_junk_is_dropped() {
    let mut e = ep();

    let valid =
        AnyMessage::<u32, SocketAddress>::Join(join_message(LamportTime::new(5), 99u32))
            .encode()
            .unwrap();
    let mut padded = valid.to_vec();
    padded.push(0xff);
    let padded = Bytes::from(padded);

    let clock_before = e.member_time();
    let queue_before = e.user_broadcast_queue_len();
    let from: SocketAddress = at("127.0.0.1:1002");

    e.test_inject_user_packet(from, padded, ORIGIN);

    assert!(e.poll_event().is_none(), "trailing-junk join must be dropped");
    assert_eq!(
        e.member_time(),
        clock_before,
        "trailing-junk join must not advance the member clock"
    );
    assert_eq!(
        e.user_broadcast_queue_len(),
        queue_before,
        "trailing-junk join must not rebroadcast"
    );
    assert_eq!(e.test_member_status(99u32), None, "trailing-junk join must not buffer an intent");
}

#[test]
fn merge_remote_state_with_trailing_junk_is_dropped() {
    let mut e = ep();

    let pp = PushPullMessage::<u32> {
        ltime: LamportTime::new(7),
        status_ltimes: vec![],
        left_members: vec![],
        event_ltime: LamportTime::new(3),
        events: vec![],
        query_ltime: LamportTime::new(2),
    };
    let valid = AnyMessage::<u32, SocketAddress>::PushPull(pp)
        .encode()
        .expect("encode must succeed");

    let mut padded = valid.to_vec();
    padded.push(0xde);
    padded.push(0xad);
    let padded = Bytes::from(padded);

    let clock_before = e.member_time();
    let dirty_before = e.test_is_dirty();
    e.test_merge_remote_state(padded);

    assert_eq!(
        e.member_time(),
        clock_before,
        "trailing-junk PushPull must not advance the member clock"
    );
    assert_eq!(
        e.test_is_dirty(),
        dirty_before,
        "trailing-junk PushPull must not mark local state dirty"
    );
    assert!(e.poll_event().is_none(), "trailing-junk PushPull must not emit any event");
}

#[test]
fn conflict_response_with_trailing_junk_is_not_counted() {
    let mut e = ep();
    let local_addr: SocketAddress = at("127.0.0.1:7946");
    let deadline = ORIGIN + secs(3600);
    let qid = e.test_register_conflict_query(deadline);

    let responder_addr: SocketAddress = at("127.0.0.1:2000");
    e.test_seed_member(200u32, MemberStatus::Alive, LamportTime::new(1));

    let resp_msg = ConflictResponseMessage { member: Node::new(999u32, local_addr) };
    let valid = AnyMessage::<u32, SocketAddress>::ConflictResponse(resp_msg)
        .encode()
        .expect("encode must succeed");

    let mut padded = valid.to_vec();
    padded.push(0xff);
    let padded = Bytes::from(padded);

    let qresp = QueryResponseMessage::<u32, SocketAddress> {
        ltime: qid.ltime,
        id: qid.id,
        from: Node::new(200u32, responder_addr),
        flags: QueryFlag::empty(),
        payload: padded,
    };
    e.test_handle_query_response(qresp);

    assert_eq!(
        e.test_pending_query_conflict_matching(qid),
        Some(0),
        "trailing-junk ConflictResponse must not increment conflict_matching"
    );
}

#[test]
fn key_response_with_trailing_junk_is_not_tallied() {
    let mut e = ep();
    let deadline = ORIGIN + secs(3600);
    let qid = e.test_register_key_query(deadline);

    e.test_seed_member(300u32, MemberStatus::Alive, LamportTime::new(1));

    let key_msg = KeyResponseMessage {
        result: true,
        message: "ok".into(),
        keys: vec![],
        primary_key: None,
    };
    let valid = AnyMessage::<u32, SocketAddress>::KeyResponse(key_msg)
        .encode()
        .expect("encode must succeed");

    let mut padded = valid.to_vec();
    padded.push(0xbe);
    padded.push(0xef);
    let padded = Bytes::from(padded);

    let qresp = QueryResponseMessage::<u32, SocketAddress> {
        ltime: qid.ltime,
        id: qid.id,
        from: Node::new(300u32, at("127.0.0.1:3000")),
        flags: QueryFlag::empty(),
        payload: padded,
    };
    e.test_handle_query_response(qresp);

    assert_eq!(
        e.test_pending_query_response_count(qid),
        0,
        "trailing-junk KeyResponse must not be counted toward the tally"
    );
}

#[test]
fn zero_reap_interval_advances_deadline() {
    let opts = Options { reap_interval: 0, ..Options::new() };
    let mut e = StreamEndpoint::new(opts);

    let now = ORIGIN + secs(1);
    e.handle_timeout(now);

    if let Some(dl) = e.poll_timeout() {
        assert!(
            dl > now,
            "zero reap_interval must still advance the deadline past now (got dl={:?}, now={:?})",
            dl,
            now
        );
    }
}

#[test]
fn zero_reconnect_interval_advances_deadline() {
    let opts = Options { reconnect_interval: 0, ..Options::new() };
    let mut e = StreamEndpoint::new(opts);

    let now = ORIGIN + secs(1);
    e.handle_timeout(now);

    if let Some(dl) = e.poll_timeout() {
        assert!(
            dl > now,
            "zero reconnect_interval must still advance the deadline past now (got dl={:?}, now={:?})",
            dl,
            now
        );
    }
}

#[test]
fn zero_queue_check_interval_advances_deadline() {
    let opts = Options { queue_check_interval: 0, ..Options::new() };
    let mut e = StreamEndpoint::new(opts);

    let now = ORIGIN + secs(1);
    e.handle_timeout(now);

    if let Some(dl) = e.poll_timeout() {
        assert!(
            dl > now,
            "zero queue_check_interval must still advance the deadline past now (got dl={:?}, now={:?})",
            dl,
            now
        );
    }
}

#[test]
fn user_event_total_packet_with_junk_exceeding_size_limit_is_dropped() {
    let opts = Options { max_user_event_size: 32, ..Options::new() };
    let mut e = StreamEndpoint::new(opts);

    let _ = e.poll_event();

    let valid = AnyMessage::<u32, SocketAddress>::UserEvent(UserEventMessage {
        ltime: LamportTime::new(3),
        cc: false,
        name: "x".into(),
        payload: Bytes::from_static(b"y"),
    })
    .encode()
    .unwrap();

    let mut padded = valid.to_vec();
    while padded.len() <= 32 {
        padded.push(0x00);
    }
    let padded = Bytes::from(padded);

    let from: SocketAddress = at("127.0.0.1:1002");
    e.test_inject_user_packet(from, padded, ORIGIN);

    assert!(e.poll_event().is_none(), "junk-padded packet exceeding size limit must be dropped");
}

#[test]
fn pre_decode_fence_drops_oversized_valid_query_frame() {
    let opts = Options { query_size_limit: 64, ..Options::new() };
    let mut e = StreamEndpoint::new(opts);

    let _ = e.poll_event();

    let q = QueryMessage::<u32, SocketAddress> {
        ltime: LamportTime::new(7),
        id: 0xdead_beef,
        from: Node::new(2u32, sa(9002)),
        filters: vec![],
        flags: QueryFlag::empty(),
        relay_factor: 0,
        timeout: secs(5),
        name: "oversized".into(),
        payload: Bytes::from(vec![0xffu8; 100]),
    };
    let frame = AnyMessage::<u32, SocketAddress>::Query(q)
        .encode()
        .expect("encode must succeed");
    assert!(
        frame.len() > 64,
        "test precondition: frame ({} bytes) must exceed limit (64)",
        frame.len()
    );

    let before_qclock = e.query_time();
    let before_rcv = e.test_received_queries_len();
    let before_queue = e.user_broadcast_queue_len();

    e.test_inject_user_packet(sa(9002), frame, ORIGIN);

    assert!(
        e.poll_event().is_none(),
        "pre-decode fence must drop oversized valid Query — no Event::Query"
    );
    assert_eq!(e.query_time(), before_qclock, "pre-decode fence must not advance query_clock");
    assert_eq!(
        e.test_received_queries_len(),
        before_rcv,
        "pre-decode fence must not insert into received_queries"
    );
    assert_eq!(e.user_broadcast_queue_len(), before_queue, "pre-decode fence must not rebroadcast");
}

#[test]
fn pre_decode_fence_drops_oversized_valid_user_event_frame() {
    let opts = Options { max_user_event_size: 32, ..Options::new() };
    let mut e = StreamEndpoint::new(opts);

    let _ = e.poll_event();

    let frame = AnyMessage::<u32, SocketAddress>::UserEvent(UserEventMessage {
        ltime: LamportTime::new(5),
        cc: false,
        name: "big-event".into(),
        payload: Bytes::from(vec![0xaau8; 60]),
    })
    .encode()
    .expect("encode must succeed");
    assert!(
        frame.len() > 32,
        "test precondition: frame ({} bytes) must exceed limit (32)",
        frame.len()
    );

    let before_eclock = e.event_time();
    let before_queue = e.user_broadcast_queue_len();

    e.test_inject_user_packet(sa(9001), frame, ORIGIN);

    assert!(
        e.poll_event().is_none(),
        "pre-decode fence must drop oversized valid UserEvent — no Event::User"
    );
    assert_eq!(e.event_time(), before_eclock, "pre-decode fence must not advance event_clock");
    assert_eq!(e.user_broadcast_queue_len(), before_queue, "pre-decode fence must not rebroadcast");
}

#[test]
fn duplicate_user_event_does_not_set_local_state_dirty() {
    let mut e = ep();

    let msg = UserEventMessage {
        ltime: LamportTime::new(3),
        cc: false,
        name: "ping".into(),
        payload: Bytes::from_static(b"data"),
    };

    let first = e.handle_user_event(msg.dup());
    assert!(first, "first delivery must be accepted as new");
    assert!(e.test_is_dirty(), "first delivery must set local_state_dirty");

    e.test_clear_dirty();

    let second = e.handle_user_event(msg);
    assert!(!second, "duplicate delivery must be dropped by dedup ring");
    assert!(!e.test_is_dirty(), "duplicate user event must NOT set local_state_dirty");
}

#[test]
fn stale_join_intent_does_not_set_local_state_dirty() {
    let mut e = ep();

    e.test_seed_member(2u32, MemberStatus::Alive, LamportTime::new(10));
    e.test_clear_dirty();

    let rebroadcast =
        e.test_handle_join_intent(2, LamportTime::new(3), ORIGIN);
    assert!(!rebroadcast, "stale join intent must not rebroadcast");
    assert!(!e.test_is_dirty(), "stale join intent must NOT set local_state_dirty");
}

#[test]
fn stale_leave_intent_does_not_set_local_state_dirty() {
    let mut e = ep();

    e.test_seed_member(2u32, MemberStatus::Alive, LamportTime::new(10));
    e.test_clear_dirty();

    let rebroadcast =
        e.test_handle_leave_intent(2, LamportTime::new(3), ORIGIN);
    assert!(!rebroadcast, "stale leave intent must not rebroadcast");
    assert!(!e.test_is_dirty(), "stale leave intent must NOT set local_state_dirty");
}

#[test]
fn duplicate_query_does_not_set_local_state_dirty() {
    let mut e = ep();

    let msg = QueryMessage {
        ltime: LamportTime::new(4),
        id: 0xdead_beef,
        from: Node::new(42u32, at("127.0.0.1:9999")),
        filters: vec![],
        flags: QueryFlag::empty(),
        relay_factor: 0,
        timeout: secs(1),
        name: "test-query".into(),
        payload: Bytes::new(),
    };

    let first = e.test_handle_query(copy_query(&msg));
    assert!(first, "first delivery must be accepted as new");
    assert!(e.test_is_dirty(), "first query delivery must set local_state_dirty");

    e.test_clear_dirty();

    let second = e.test_handle_query(msg);
    assert!(!second, "duplicate query must be dropped by dedup ring");
    assert!(!e.test_is_dirty(), "duplicate query must NOT set local_state_dirty");
}

#[test]
fn surfaced_token_survives_overflow_and_overflow_never_surfaces() {
    let test_key = SecretKey::Aes128(u128::from_be_bytes([0u8; 16]));
    let mut e = ep();

    let n = MAX_RECEIVED_QUERIES + 1;
    for i in 0..n as u32 {
        let req = KeyRequestMessage { key: Some(test_key) };
        let payload = AnyMessage::<u32, SocketAddress>::KeyRequest(req)
            .encode()
            .expect("encode KeyRequestMessage");
        let q = QueryMessage::<u32, SocketAddress> {
            ltime: LamportTime::new(i as u64 + 1),
            id: i,
            from: Node::new(99u32, sa(9001)),
            filters: vec![],
            flags: no_broadcast(),
            relay_factor: 0,
            timeout: secs(3600),
            name: "_serf_install_key".into(),
            payload,
        };
        let _ = e.test_handle_query(q);
    }

    assert_eq!(
        e.test_received_queries_len(),
        MAX_RECEIVED_QUERIES,
        "received_queries must be exactly at cap after overflow; got {}",
        e.test_received_queries_len()
    );

    let first_ev = e
        .poll_event()
        .expect("first query must emit Event::KeyRequest");
    let first_req = match first_ev {
        Event::KeyRequest(kr) => kr,
        other => panic!(
            "expected Event::KeyRequest for first query, got {:?}",
            core::mem::discriminant(&other)
        ),
    };
    assert!(matches!(first_req.op(), KeyRequestOperation::Install), "first event must be Install");

    let now = ORIGIN;
    e.respond_key(
        &first_req,
        KeyResponseArgs {
            result: true,
            message: String::new(),
            keys: vec![test_key],
            primary_key: Some(test_key),
        },
        now,
    )
    .expect("respond_key must succeed — first surfaced token must not have been evicted");

    let mut remaining = 0usize;
    while let Some(ev) = e.poll_event() {
        assert!(
            matches!(ev, Event::KeyRequest(_)),
            "all remaining events must be KeyRequest, got {:?}",
            core::mem::discriminant(&ev)
        );
        remaining += 1;
    }
    assert_eq!(
        remaining,
        MAX_RECEIVED_QUERIES - 1,
        "must have exactly MAX_RECEIVED_QUERIES - 1 remaining events; the overflow must not surface"
    );
}

#[test]
fn local_key_op_self_applies_when_inbound_cap_is_full() {
    let test_key = SecretKey::Aes128(u128::from_be_bytes([1u8; 16]));
    let mut e = ep();

    for i in 0..MAX_RECEIVED_QUERIES as u32 {
        let req = KeyRequestMessage { key: Some(test_key) };
        let payload = AnyMessage::<u32, SocketAddress>::KeyRequest(req)
            .encode()
            .expect("encode KeyRequestMessage for inbound flood");
        let q = QueryMessage::<u32, SocketAddress> {
            ltime: LamportTime::new(i as u64 + 1),
            id: i,
            from: Node::new(99u32, sa(9001)),
            filters: vec![],
            flags: no_broadcast(),
            relay_factor: 0,
            timeout: secs(3600),
            name: "_serf_install_key".into(),
            payload,
        };
        let _ = e.test_handle_query(q);
    }

    assert_eq!(
        e.test_received_queries_len(),
        MAX_RECEIVED_QUERIES,
        "received_queries must be exactly at cap before local key op"
    );

    while e.poll_event().is_some() {}

    let now = ORIGIN;
    e.install_key(test_key, now)
        .expect("install_key must succeed");

    let ev = e
        .poll_event()
        .expect(
            "local install_key must surface Event::KeyRequest on the initiating node even when \
             inbound cap is full",
        );
    match ev {
        Event::KeyRequest(kr) => {
            assert!(
                matches!(kr.op(), KeyRequestOperation::Install),
                "local key op must be Install"
            );
        }
        other => panic!(
            "expected Event::KeyRequest from local install_key, got {:?}",
            core::mem::discriminant(&other)
        ),
    }
}

#[test]
fn key_must_ops_without_key_are_dropped() {
    for name in ["_serf_install_key", "_serf_use_key", "_serf_remove_key"] {
        let mut e = ep();

        let req = KeyRequestMessage { key: None };
        let payload = AnyMessage::<u32, SocketAddress>::KeyRequest(req)
            .encode()
            .expect("encode KeyRequestMessage");
        let q = QueryMessage::<u32, SocketAddress> {
            ltime: LamportTime::new(1),
            id: 42,
            from: Node::new(99u32, sa(9001)),
            filters: vec![],
            flags: no_broadcast(),
            relay_factor: 0,
            timeout: secs(5),
            name: name.into(),
            payload,
        };
        let clock_before = e.query_time();
        let _ = e.test_handle_query(q);
        assert_eq!(
            e.query_time(),
            clock_before,
            "{name}: clock must NOT advance for key=None on a must-have-key op"
        );
        assert_eq!(
            e.test_received_queries_len(),
            0,
            "{name}: no received_queries entry for key=None on a must-have-key op"
        );
        assert!(
            e.poll_event().is_none(),
            "{name}: no Event::KeyRequest for key=None on a must-have-key op"
        );
    }
}

#[test]
fn list_keys_with_key_is_dropped() {
    let test_key = SecretKey::Aes128(u128::from_be_bytes([0u8; 16]));
    let mut e = ep();
    let req = KeyRequestMessage { key: Some(test_key) };
    let payload = AnyMessage::<u32, SocketAddress>::KeyRequest(req)
        .encode()
        .expect("encode KeyRequestMessage");
    let q = QueryMessage::<u32, SocketAddress> {
        ltime: LamportTime::new(1),
        id: 77,
        from: Node::new(99u32, sa(9001)),
        filters: vec![],
        flags: no_broadcast(),
        relay_factor: 0,
        timeout: secs(5),
        name: "_serf_list_keys".into(),
        payload,
    };
    let clock_before = e.query_time();
    let _ = e.test_handle_query(q);
    assert_eq!(
        e.query_time(),
        clock_before,
        "_serf_list_keys with key=Some must NOT advance query clock"
    );
    assert_eq!(
        e.test_received_queries_len(),
        0,
        "_serf_list_keys with key=Some must have no received_queries entry"
    );
    assert!(
        e.poll_event().is_none(),
        "_serf_list_keys with key=Some must emit no Event::KeyRequest"
    );
}

#[test]
fn stale_push_pull_does_not_set_dirty() {
    let mut e = ep();

    e.test_set_clocks(10, 10, 10);
    e.test_clear_dirty();

    let pp = PushPullMessage::<u32> {
        ltime: LamportTime::new(5),
        event_ltime: LamportTime::new(3),
        query_ltime: LamportTime::new(2),
        status_ltimes: vec![],
        left_members: vec![],
        events: vec![],
    };
    let encoded = AnyMessage::<u32, SocketAddress>::PushPull(pp)
        .encode()
        .expect("encode PushPull");
    e.test_merge_remote_state(encoded);

    assert!(
        !e.test_is_dirty(),
        "stale push-pull (no clock advance, no intents, no events) must not set the dirty flag"
    );
}

#[test]
fn clock_advancing_push_pull_sets_dirty() {
    let mut e = ep();
    e.test_set_clocks(5, 5, 5);
    e.test_clear_dirty();

    let pp = PushPullMessage::<u32> {
        ltime: LamportTime::new(20),
        event_ltime: LamportTime::new(3),
        query_ltime: LamportTime::new(2),
        status_ltimes: vec![],
        left_members: vec![],
        events: vec![],
    };
    let encoded = AnyMessage::<u32, SocketAddress>::PushPull(pp)
        .encode()
        .expect("encode PushPull");
    e.test_merge_remote_state(encoded);

    assert!(e.test_is_dirty(), "push-pull that advances the member clock must set the dirty flag");
}

fn ep_with_tags(tags: Tags) -> StreamEndpoint {
    let mut e = ep();
    e.test_seed_member_with_tags(1u32, tags, MemberStatus::Alive, LamportTime::new(0));
    e
}

fn tag_query(tag: &str, expr: Option<&str>) -> QueryMessage<u32, SocketAddress> {
    QueryMessage {
        filters: vec![Filter::Tag(TagFilter {
            tag: tag.into(),
            expr: expr.map(Into::into),
        })],
        ..test_query(LamportTime::new(1), 100)
    }
}

#[test]
fn tag_filter_regex_prefix_matches() {
    let tags: Tags = tags(&[("role", "webserver")]);
    let mut e = ep_with_tags(tags);
    let q = tag_query("role", Some("^web"));
    assert!(e.test_handle_query(q), "partial prefix regex `^web` must match `webserver`");
    assert!(e.poll_event().is_some(), "matching tag filter must surface Event::Query");
}

#[test]
fn tag_filter_regex_suffix_matches() {
    let tags: Tags = tags(&[("cloud", "aws")]);
    let mut e = ep_with_tags(tags);
    let q = tag_query("cloud", Some("aws$"));
    assert!(e.test_handle_query(q), "partial suffix regex `aws$` must match `aws`");
    assert!(e.poll_event().is_some(), "matching tag filter must surface Event::Query");
}

#[test]
fn tag_filter_regex_non_match_suppresses() {
    let tags: Tags = tags(&[("role", "database")]);
    let mut e = ep_with_tags(tags);
    let q = tag_query("role", Some("^web"));
    assert!(e.test_handle_query(q), "filtered query must still rebroadcast");
    assert!(e.poll_event().is_none(), "non-matching tag filter must not surface Event::Query");
}

#[test]
fn invalid_regex_tag_filter_drops_before_witness() {
    let tags: Tags = tags(&[("role", "webserver")]);
    let mut e = ep_with_tags(tags);
    let q = tag_query("role", Some("(unclosed"));

    let clock_before = e.query_time();
    let dedup_before = e.test_query_slot_len(1);
    let rcv_before = e.test_received_queries_len();

    let rebroadcast = e.test_handle_query(q);

    assert!(!rebroadcast, "invalid regex: must NOT rebroadcast (dropped before any side effect)");
    assert_eq!(e.query_time(), clock_before, "invalid regex: query_clock must NOT advance");
    assert_eq!(
        e.test_query_slot_len(1),
        dedup_before,
        "invalid regex: dedup buffer must NOT gain an entry"
    );
    assert_eq!(
        e.test_received_queries_len(),
        rcv_before,
        "invalid regex: received_queries must NOT gain an entry"
    );
    assert!(e.poll_event().is_none(), "invalid regex: no Event::Query must be emitted");
}

#[test]
fn valid_non_matching_tag_filter_still_rebroadcasts() {
    let tags: Tags = tags(&[("role", "database")]);
    let mut e = ep_with_tags(tags);
    let q = tag_query("role", Some("^web"));

    let rebroadcast = e.test_handle_query(q);

    assert!(rebroadcast, "valid-but-non-matching tag filter must still rebroadcast");

    assert!(e.query_time() > 0, "valid-but-non-matching filter: query_clock must advance");

    assert!(
        e.test_query_slot_len(1) > 0,
        "valid-but-non-matching filter: dedup buffer must record the query"
    );

    assert!(
        e.poll_event().is_none(),
        "valid-but-non-matching filter: no Event::Query must be emitted"
    );
}

#[test]
fn tag_filter_no_expr_matches_on_key_presence() {
    let tags: Tags = tags(&[("role", "anything")]);
    let mut e = ep_with_tags(tags);
    let q = tag_query("role", None);
    assert!(e.test_handle_query(q), "absent expr with matching key must rebroadcast");
    assert!(e.poll_event().is_some(), "key-presence match (expr=None) must surface Event::Query");
}

#[test]
fn query_with_invalid_tag_regex_returns_err_with_no_side_effects() {
    let tags: Tags = tags(&[("role", "webserver")]);
    let mut e = ep_with_tags(tags);
    e.test_set_clocks(0, 0, 5);

    let clock_before = e.query_time();
    let pending_before = e.test_pending_query_count();
    let queue_before = e.user_broadcast_queue_len();

    let result = e.query(
        "bad-filter",
        Bytes::new(),
        QueryParams {
            filters: vec![Filter::Tag(TagFilter {
                tag: "role".into(),
                expr: Some("(unclosed".into()),
            })],
            ..QueryParams::new()
        },
        ORIGIN,
    );

    assert!(
        matches!(result, Err(Error::InvalidQueryFilter)),
        "query() with invalid tag regex must return Err(Error::InvalidQueryFilter), got: {result:?}"
    );
    assert_eq!(
        e.query_time(),
        clock_before,
        "query_clock must NOT change after invalid-filter rejection"
    );
    assert_eq!(
        e.test_pending_query_count(),
        pending_before,
        "no PendingQuery must be inserted for an invalid-filter query"
    );
    assert_eq!(
        e.user_broadcast_queue_len(),
        queue_before,
        "broadcast queue must NOT grow after invalid-filter rejection"
    );
    assert!(
        e.poll_event().is_none(),
        "no Event::Query must be emitted after invalid-filter rejection"
    );
}

#[test]
fn query_with_valid_tag_regex_succeeds_and_broadcasts() {
    let tags: Tags = tags(&[("role", "webserver")]);
    let mut e = ep_with_tags(tags);

    let pending_before = e.test_pending_query_count();
    let queue_before = e.user_broadcast_queue_len();

    let result = e.query(
        "good-filter",
        Bytes::new(),
        QueryParams {
            filters: vec![Filter::Tag(TagFilter {
                tag: "role".into(),
                expr: Some("^web".into()),
            })],
            ..QueryParams::new()
        },
        ORIGIN,
    );

    assert!(result.is_ok(), "query() with valid tag regex must succeed, got: {result:?}");
    assert_eq!(
        e.test_pending_query_count(),
        pending_before + 1,
        "a PendingQuery must be inserted for a valid-filter query"
    );
    assert!(
        e.user_broadcast_queue_len() > queue_before,
        "broadcast queue must grow after a valid-filter query"
    );
}

fn make_key_query(name: &str, key: Option<SecretKey>) -> QueryMessage<u32, SocketAddress> {
    let req = KeyRequestMessage { key: key };
    let payload = AnyMessage::<u32, SocketAddress>::KeyRequest(req)
        .encode()
        .expect("encode KeyRequestMessage");
    QueryMessage {
        ltime: LamportTime::new(1),
        id: 55,
        from: Node::new(99u32, at("127.0.0.1:9999")),
        filters: vec![],
        flags: QueryFlag::empty(),
        relay_factor: 0,
        timeout: secs(5),
        name: name.into(),
        payload,
    }
}

fn test_key() -> SecretKey {
    SecretKey::Aes128(u128::from_be_bytes([0u8; 16]))
}

#[test]
fn key_query_emits_key_request_event() {
    let mut e = ep();

    e.test_seed_member(99u32, MemberStatus::Alive, LamportTime::new(1));
    let key = test_key();
    let q = make_key_query("_serf_install_key", Some(key));
    let rebroadcast = e.test_handle_query(q);

    assert!(e.query_time() > 0, "query_clock must advance");

    assert_eq!(e.test_received_queries_len(), 1, "received_queries entry must exist");

    let ev = e.poll_event().expect("must emit Event::KeyRequest");
    match ev {
        Event::KeyRequest(kr) => {
            assert!(matches!(kr.op(), KeyRequestOperation::Install));
            assert!(kr.key().is_some(), "install key request must carry a key");
        }
        other => panic!("expected Event::KeyRequest, got {:?}", core::mem::discriminant(&other)),
    }

    assert!(e.poll_event().is_none(), "no second event expected");
    let _ = rebroadcast;
}

#[test]
fn list_keys_query_emits_key_request_with_no_key() {
    let mut e = ep();
    let q = make_key_query("_serf_list_keys", None);
    e.test_handle_query(q);
    let ev = e
        .poll_event()
        .expect("must emit Event::KeyRequest for list_keys");
    match ev {
        Event::KeyRequest(kr) => {
            assert!(matches!(kr.op(), KeyRequestOperation::List));
            assert!(kr.key().is_none(), "list_keys must carry no key");
        }
        other => panic!("expected Event::KeyRequest, got {:?}", core::mem::discriminant(&other)),
    }
}

#[test]
fn malformed_key_query_payload_is_dropped() {
    let mut e = ep();

    let key = test_key();
    let mut good_q = make_key_query("_serf_install_key", Some(key));
    let mut bad_payload = good_q.payload.to_vec();
    bad_payload.extend_from_slice(&[0xaa, 0xbb]);
    good_q.payload = Bytes::from(bad_payload);
    let clock_before = e.query_time();
    let _rb = e.test_handle_query(good_q);
    assert_eq!(e.query_time(), clock_before, "clock must NOT advance for malformed key query");
    assert_eq!(
        e.test_received_queries_len(),
        0,
        "no received_queries entry for malformed key query"
    );
    assert!(e.poll_event().is_none(), "no event for malformed key query");
}

#[test]
fn key_query_never_surfaces_as_app_query() {
    let mut e = ep();
    let q = make_key_query("_serf_use_key", Some(test_key()));
    e.test_handle_query(q);

    if let Some(ev) = e.poll_event() {
        assert!(!matches!(ev, Event::Query(_)), "key query must never surface as Event::Query");
    }
}

#[test]
fn respond_key_directed_sends_key_response() {
    let mut e = ep();
    let key = test_key();
    let q = make_key_query("_serf_install_key", Some(key));
    e.test_handle_query(q);

    let req = match e.poll_event().expect("must emit KeyRequest") {
        Event::KeyRequest(kr) => kr,
        other => panic!("expected KeyRequest, got {:?}", core::mem::discriminant(&other)),
    };

    assert_eq!(e.test_received_queries_len(), 1);

    let now = ORIGIN;
    e.respond_key(
        &req,
        KeyResponseArgs {
            result: true,
            message: String::new(),
            keys: vec![key],
            primary_key: Some(key),
        },
        now,
    )
    .expect("respond_key must succeed");

    assert_eq!(
        e.test_received_queries_len(),
        0,
        "received_queries must be cleared after respond_key"
    );

    let (dest, _bytes) = e
        .test_last_directed_send()
        .expect("must have directed send");
    assert_eq!(dest, at("127.0.0.1:9999"));
}

#[test]
fn key_request_answerable_at_exact_deadline_survives_inbound_prune() {
    let mut e = ep();

    e.test_set_drain_now(t_secs(0));
    let key = test_key();
    let q = make_key_query("_serf_install_key", Some(key));
    let _ = e.test_handle_query(q);

    let req = match e.poll_event().expect("must emit Event::KeyRequest") {
        Event::KeyRequest(kr) => kr,
        other => panic!("expected Event::KeyRequest, got {:?}", core::mem::discriminant(&other)),
    };
    let deadline = req.deadline();

    e.test_set_drain_now(deadline);
    let other = QueryMessage::<u32, SocketAddress> {
        ltime: LamportTime::new(2),
        id: 2,
        from: Node::new(7u32, addr(7000)),
        filters: vec![],
        flags: no_broadcast(),
        relay_factor: 0,
        timeout: secs(30),
        name: "other".into(),
        payload: Bytes::new(),
    };
    let _ = e.test_handle_query(other);

    e.respond_key(
        &req,
        KeyResponseArgs {
            result: true,
            message: String::new(),
            keys: vec![key],
            primary_key: Some(key),
        },
        deadline,
    )
    .expect("respond_key at exactly the deadline must succeed: the token is still answerable");
}

#[test]
fn next_ltime_integrity_floor_near_watermark() {
    let mut e = ep();
    e.test_set_clocks(LTIME_MAX - 1, LTIME_MAX - 1, LTIME_MAX - 1);

    let result = e.user_event("probe", Bytes::new(), false, ORIGIN);
    assert!(result.is_ok(), "user_event must succeed with event_clock at LTIME_MAX-1: {result:?}");

    assert_ne!(
        e.event_time(),
        0,
        "stored event_clock must not wrap to 0 after next_ltime; got {}",
        e.event_time()
    );
    assert_ne!(
        e.event_time(),
        u64::MAX,
        "stored event_clock must not be u64::MAX tombstone; got {}",
        e.event_time()
    );

    assert_eq!(
        e.event_time(),
        LTIME_MAX,
        "stored event_clock after witnessing LTIME_MAX-1 must be LTIME_MAX; got {}",
        e.event_time()
    );

    let mut e2 = ep();
    e2.test_set_clocks(LTIME_MAX - 1, LTIME_MAX - 1, LTIME_MAX - 1);
    let now = ORIGIN;
    let _ = e2.leave(now);

    assert_ne!(
        e2.member_time(),
        0,
        "stored member clock must not wrap to 0 after leave(); got {}",
        e2.member_time()
    );
    assert_ne!(
        e2.member_time(),
        u64::MAX,
        "stored member clock must not be u64::MAX tombstone after leave(); got {}",
        e2.member_time()
    );

    e.resync_local_state();
    let snap = e.test_inner_local_state_snapshot();
    let pp = e.test_decode_pushpull(&snap);
    assert_ne!(pp.ltime.0, 0, "push-pull member ltime must not be 0; got {}", pp.ltime.0);
    assert_ne!(
        pp.event_ltime.0, 0,
        "push-pull event ltime must not be 0; got {}",
        pp.event_ltime.0
    );
}

#[test]
fn load_snapshot_near_watermark_no_panic_integrity_floor() {
    let mut e = ep();
    let replay = ReplayResult {
        alive_nodes: vec![],
        last_clock: LamportTime::new(LTIME_MAX - 1),
        last_event_clock: LamportTime::new(LTIME_MAX - 1),
        last_query_clock: LamportTime::new(LTIME_MAX - 1),
    };
    let now = ORIGIN;

    e.load_snapshot(replay, now).unwrap();

    assert_ne!(
        e.test_event_min_time(),
        0,
        "event_buffer.min_time must not be 0 after snapshot; got {}",
        e.test_event_min_time()
    );
    assert_ne!(
        e.test_event_min_time(),
        u64::MAX,
        "event_buffer.min_time must not be u64::MAX; got {}",
        e.test_event_min_time()
    );
    assert_ne!(
        e.test_query_min_time(),
        0,
        "query_buffer.min_time must not be 0 after snapshot; got {}",
        e.test_query_min_time()
    );
    assert_ne!(
        e.test_query_min_time(),
        u64::MAX,
        "query_buffer.min_time must not be u64::MAX; got {}",
        e.test_query_min_time()
    );

    assert_ne!(e.member_time(), 0, "member clock must not be 0; got {}", e.member_time());
    assert_ne!(e.member_time(), u64::MAX, "member clock must not be u64::MAX");
    assert_ne!(e.event_time(), 0, "event clock must not be 0; got {}", e.event_time());
    assert_ne!(e.event_time(), u64::MAX, "event clock must not be u64::MAX");
    assert_ne!(e.query_time(), 0, "query clock must not be 0; got {}", e.query_time());
    assert_ne!(e.query_time(), u64::MAX, "query clock must not be u64::MAX");

    let ue_result = e.user_event("near-max", Bytes::new(), false, ORIGIN);
    assert!(
        ue_result.is_ok(),
        "user_event must not panic/error after near-watermark snapshot: {ue_result:?}"
    );

    let query_result = e.query("probe", Bytes::new(), QueryParams::new(), now);
    assert!(
        query_result.is_ok(),
        "query() must not panic/error after near-watermark snapshot: {query_result:?}"
    );
}

#[test]
fn load_snapshot_near_watermark_integrity_floor() {
    {
        let mut e = ep();
        let replay = ReplayResult {
            alive_nodes: vec![],
            last_clock: LamportTime::new(LTIME_MAX - 1),
            last_event_clock: LamportTime::new(LTIME_MAX - 1),
            last_query_clock: LamportTime::new(LTIME_MAX - 1),
        };
        e.load_snapshot(replay, ORIGIN)
            .unwrap();

        assert_ne!(e.member_time(), 0, "member clock must not be 0; got {}", e.member_time());
        assert_ne!(e.member_time(), u64::MAX, "member clock must not be u64::MAX");
        assert_ne!(e.event_time(), 0, "event clock must not be 0; got {}", e.event_time());
        assert_ne!(e.event_time(), u64::MAX, "event clock must not be u64::MAX");
        assert_ne!(e.query_time(), 0, "query clock must not be 0; got {}", e.query_time());
        assert_ne!(e.query_time(), u64::MAX, "query clock must not be u64::MAX");

        assert_eq!(
            e.member_time(),
            LTIME_MAX,
            "member clock must be LTIME_MAX; got {}",
            e.member_time()
        );

        let stamp_result = e.user_event("after-snapshot", Bytes::new(), false, ORIGIN);
        assert!(stamp_result.is_ok(), "user_event must not panic after LTIME_MAX-1 snapshot");
    }

    {
        let mut e = ep();
        let replay = ReplayResult {
            alive_nodes: vec![],
            last_clock: LamportTime::new(LTIME_MAX - 2),
            last_event_clock: LamportTime::new(LTIME_MAX - 2),
            last_query_clock: LamportTime::new(LTIME_MAX - 2),
        };
        e.load_snapshot(replay, ORIGIN)
            .unwrap();

        assert_eq!(
            e.member_time(),
            LTIME_MAX - 1,
            "member clock must be LTIME_MAX-1; got {}",
            e.member_time()
        );
        assert_eq!(
            e.event_time(),
            LTIME_MAX - 1,
            "event clock must be LTIME_MAX-1; got {}",
            e.event_time()
        );
        assert_eq!(
            e.query_time(),
            LTIME_MAX - 1,
            "query clock must be LTIME_MAX-1; got {}",
            e.query_time()
        );

        assert_ne!(e.member_time(), 0, "member clock must not be 0; got {}", e.member_time());
        assert_ne!(e.member_time(), u64::MAX, "member clock must not be u64::MAX");
    }

    {
        let mut e = ep();
        e.test_set_clocks(5, 5, 5);
        let replay = ReplayResult {
            alive_nodes: vec![],
            last_clock: LamportTime::new(LTIME_MAX),
            last_event_clock: LamportTime::new(LTIME_MAX),
            last_query_clock: LamportTime::new(LTIME_MAX),
        };
        e.load_snapshot(replay, ORIGIN)
            .unwrap();

        assert_eq!(e.member_time(), 5, "member clock must not advance on LTIME_MAX snapshot clock");
        assert_eq!(e.event_time(), 5, "event clock must not advance on LTIME_MAX snapshot clock");
        assert_eq!(e.query_time(), 5, "query clock must not advance on LTIME_MAX snapshot clock");
    }
}

#[test]
fn left_member_replay_at_watermark_boundary_skips_leave() {
    let mut e = ep();

    e.test_seed_member(99u32, MemberStatus::Alive, LamportTime::new(1));

    let pp = PushPullMessage::<u32> {
        ltime: LamportTime::new(10),
        event_ltime: LamportTime::new(10),
        query_ltime: LamportTime::new(10),
        status_ltimes: vec![(99u32, LamportTime::new(LTIME_MAX - 1))],
        left_members: vec![99u32],
        events: vec![],
    };
    let encoded = AnyMessage::<u32, SocketAddress>::PushPull(pp)
        .encode()
        .expect("encode must succeed");

    e.test_merge_remote_state(encoded);

    let status = e.test_member_status(99u32);
    assert_eq!(
        status,
        Some(MemberStatus::Alive),
        "node 99 must stay Alive when derived leave ltime = LTIME_MAX is rejected; got {status:?}"
    );

    assert_ne!(e.member_time(), 0, "member clock must not be 0; got {}", e.member_time());
    assert_ne!(
        e.member_time(),
        u64::MAX,
        "member clock must not be u64::MAX; got {}",
        e.member_time()
    );
}

#[test]
fn all_clock_derived_values_satisfy_integrity_floor_after_near_watermark_snapshot() {
    let mut e = ep();

    e.test_seed_member(99u32, MemberStatus::Alive, LamportTime::new(1));

    let replay = ReplayResult {
        alive_nodes: vec![],
        last_clock: LamportTime::new(LTIME_MAX - 1),
        last_event_clock: LamportTime::new(LTIME_MAX - 1),
        last_query_clock: LamportTime::new(LTIME_MAX - 1),
    };
    let now = ORIGIN;
    e.load_snapshot(replay, now).unwrap();

    assert_ne!(e.member_time(), 0, "member_clock must not be 0 after snapshot");
    assert_ne!(e.member_time(), u64::MAX, "member_clock must not be u64::MAX after snapshot");
    assert_ne!(e.event_time(), 0, "event_clock must not be 0 after snapshot");
    assert_ne!(e.event_time(), u64::MAX, "event_clock must not be u64::MAX after snapshot");
    assert_ne!(e.query_time(), 0, "query_clock must not be 0 after snapshot");
    assert_ne!(e.query_time(), u64::MAX, "query_clock must not be u64::MAX after snapshot");

    assert_ne!(e.test_event_min_time(), 0, "event_buffer.min_time must not be 0");
    assert_ne!(e.test_event_min_time(), u64::MAX, "event_buffer.min_time must not be u64::MAX");
    assert_ne!(e.test_query_min_time(), 0, "query_buffer.min_time must not be 0");
    assert_ne!(e.test_query_min_time(), u64::MAX, "query_buffer.min_time must not be u64::MAX");

    let clock_after_snapshot = e.member_time();
    assert_eq!(
        clock_after_snapshot, LTIME_MAX,
        "after witnessing LTIME_MAX-1, stored clock must be LTIME_MAX"
    );
    let fl = e.force_leave(99u32, false, now);
    assert!(
        matches!(fl, Err(Error::LeaveClockExhausted)),
        "force_leave at LTIME_MAX clock must return LeaveClockExhausted: {fl:?}"
    );
    assert_eq!(
        e.member_time(),
        LTIME_MAX,
        "member_clock must remain LTIME_MAX after refused force_leave"
    );

    e.resync_local_state();
    let snap = e.test_inner_local_state_snapshot();
    let pp = e.test_decode_pushpull(&snap);
    assert_ne!(pp.ltime.0, 0, "push-pull member ltime must not be 0; got {}", pp.ltime.0);
    assert_ne!(
        pp.ltime.0,
        u64::MAX,
        "push-pull member ltime must not be u64::MAX; got {}",
        pp.ltime.0
    );
    assert_ne!(
        pp.event_ltime.0, 0,
        "push-pull event ltime must not be 0; got {}",
        pp.event_ltime.0
    );
    assert_ne!(
        pp.event_ltime.0,
        u64::MAX,
        "push-pull event ltime must not be u64::MAX; got {}",
        pp.event_ltime.0
    );

    assert_ne!(e.member_time(), 0, "member_clock must not be 0 after all operations");
    assert_ne!(
        e.member_time(),
        u64::MAX,
        "member_clock must not be u64::MAX after all operations; got {}",
        e.member_time()
    );
}

#[test]
fn push_pull_near_watermark_status_time_integrity_floor() {
    let mut e = ep();
    let now = ORIGIN;

    let near_max = LTIME_MAX - 1;
    assert!(ltime_is_acceptable(near_max), "LTIME_MAX-1 must pass the ingress gate");

    let pp = PushPullMessage::<u32> {
        ltime: LamportTime::new(10),
        event_ltime: LamportTime::new(10),
        query_ltime: LamportTime::new(10),
        status_ltimes: vec![(99u32, LamportTime::new(near_max))],
        left_members: vec![],
        events: vec![],
    };
    let encoded = AnyMessage::<u32, SocketAddress>::PushPull(pp)
        .encode()
        .expect("encode must succeed");
    e.test_merge_remote_state(encoded);

    e.test_inner_node_joined(99u32, now);

    let stored = e
        .test_member_status_time(99u32)
        .expect("node 99 must be in the store after NodeJoined");

    assert_ne!(stored.0, 0, "stored status_time must not be 0; got {}", stored.0);
    assert_ne!(stored.0, u64::MAX, "stored status_time must not be u64::MAX; got {}", stored.0);

    assert_eq!(
        stored.0, near_max,
        "stored status_time must equal the accepted ingress value; got {}",
        stored.0
    );

    e.test_seed_member(55u32, MemberStatus::Alive, LamportTime::new(10));
    let _leave_applied = e.test_handle_leave_intent(55u32, LamportTime::new(near_max), now);
    let stored_55 = e
        .test_member_status_time(55u32)
        .expect("node 55 must remain in the store");
    assert_ne!(stored_55.0, 0, "leave-intent stored value must not be 0; got {}", stored_55.0);
    assert_ne!(
        stored_55.0,
        u64::MAX,
        "leave-intent stored value must not be u64::MAX; got {}",
        stored_55.0
    );

    let mut e2 = ep();
    e2.test_seed_member(55u32, MemberStatus::Alive, LamportTime::new(10));
    let organic_20 = LamportTime::new(20);
    let applied = e2.test_handle_leave_intent(55u32, organic_20, now);
    assert!(applied, "organic leave at ltime 20 must apply to a member with status_time=10");
    assert_eq!(
        e2.test_member_status(55u32),
        Some(MemberStatus::Leaving),
        "node 55 must be Leaving after a valid organic leave intent"
    );
}

#[test]
fn join_intent_near_watermark_buffers_ingress_value_exactly() {
    let mut e = ep();
    let now = ORIGIN;

    let near_max = LTIME_MAX - 1;
    assert!(ltime_is_acceptable(near_max), "LTIME_MAX-1 must pass the ingress gate");

    let buffered = e.test_handle_join_intent(77u32, LamportTime::new(near_max), now);
    assert!(
        buffered,
        "near-watermark join intent for unknown node must be buffered (returned true)"
    );

    let intent_ltime = e
        .test_intent_ltime(77u32, IntentKind::Join)
        .expect("recent_intent for node 77 must exist");

    assert_ne!(intent_ltime.0, 0, "buffered intent ltime must not be 0; got {}", intent_ltime.0);
    assert_ne!(
        intent_ltime.0,
        u64::MAX,
        "buffered intent ltime must not be u64::MAX; got {}",
        intent_ltime.0
    );
    assert_eq!(
        intent_ltime.0, near_max,
        "buffered intent ltime must equal the accepted ingress value; got {}",
        intent_ltime.0
    );

    let buffered_leave = e.test_handle_leave_intent(88u32, LamportTime::new(near_max), now);
    assert!(buffered_leave, "near-watermark leave intent for unknown node must be buffered");
    let leave_intent_ltime = e
        .test_intent_ltime(88u32, IntentKind::Leave)
        .expect("recent_intent for node 88 must exist");
    assert_ne!(
        leave_intent_ltime.0, 0,
        "buffered leave ltime must not be 0; got {}",
        leave_intent_ltime.0
    );
    assert_ne!(
        leave_intent_ltime.0,
        u64::MAX,
        "buffered leave ltime must not be u64::MAX; got {}",
        leave_intent_ltime.0
    );

    let no_supersede = e.test_handle_leave_intent(77u32, LamportTime::new(near_max), now);
    assert!(
        !no_supersede,
        "leave at ltime == existing join ltime must not supersede \
          (equal ltime is stale per upsert_intent semantics)"
    );
}

#[test]
fn push_pull_near_watermark_event_floor_integrity_and_delivery() {
    let mut e = ep();

    let near_max = LTIME_MAX - 1;
    assert!(ltime_is_acceptable(near_max), "LTIME_MAX-1 must pass the ingress gate");

    let pp = PushPullMessage::<u32> {
        ltime: LamportTime::new(10),
        event_ltime: LamportTime::new(near_max),
        query_ltime: LamportTime::new(10),
        status_ltimes: vec![],
        left_members: vec![],
        events: vec![],
    };
    let encoded = AnyMessage::<u32, SocketAddress>::PushPull(pp)
        .encode()
        .expect("encode must succeed");

    e.test_merge_remote_state_suppressed(encoded);

    assert_ne!(
        e.test_event_min_time(),
        0,
        "event_buffer.min_time must not be 0 after near-watermark push-pull; got {}",
        e.test_event_min_time()
    );
    assert_ne!(
        e.test_event_min_time(),
        u64::MAX,
        "event_buffer.min_time must not be u64::MAX; got {}",
        e.test_event_min_time()
    );

    e.user_event("post-join", Bytes::new(), false, ORIGIN)
        .expect("user_event must succeed after near-watermark push-pull");
    assert!(
        matches!(e.poll_event(), Some(Event::User(_))),
        "user_event must emit Event::User — must not be dropped by near-watermark event floor"
    );
}

#[test]
fn set_tags_round_trips_via_local_meta() {
    let mut e = ep();

    let tags: Tags = tags(&[("role", "web"), ("dc", "us-east-1")]);
    e.set_tags(tags, ORIGIN)
        .expect("set_tags must succeed on a live endpoint");

    let decoded = e
        .test_local_meta()
        .expect("local node must be present in the coordinator's membership store");

    assert_eq!(decoded.entries.len(), 2, "decoded tag count must match");
    for (k, v) in [("role", "web"), ("dc", "us-east-1")] {
        assert_eq!(
            decoded.get(k).map(|s| s.as_str()),
            Some(v),
            "tag {k:?} must round-trip correctly"
        );
    }
}

#[test]
fn set_tags_local_member_state_is_observable_without_poll_event() {
    let mut e = ep();

    e.test_seed_member(1u32, MemberStatus::Alive, LamportTime::new(0));

    let tags: Tags = tags(&[("role", "db")]);
    e.set_tags(tags, ORIGIN)
        .expect("set_tags must succeed on a live endpoint");

    let local_tags = e.test_local_tags();
    assert_eq!(
        local_tags
            .as_ref()
            .and_then(|t| t.get("role"))
            .map(|s| s.as_str()),
        Some("db"),
        "local member tags in members.states must be updated synchronously by set_tags"
    );
}

#[test]
fn set_tags_does_not_materialize_absent_local_member() {
    let mut e = ep();

    let tags: Tags = tags(&[("env", "staging")]);
    e.set_tags(tags, ORIGIN)
        .expect("set_tags must succeed when the local node is in members.states");

    let local_tags = e.test_local_tags();
    assert_eq!(
        local_tags
            .as_ref()
            .and_then(|t| t.get("env"))
            .map(|s| s.as_str()),
        Some("staging"),
        "set_tags must update the local member's tags in members.states"
    );

    let decoded = e
        .test_local_meta()
        .expect("coordinator must track local node meta");
        assert_eq!(
        decoded.get("env").map(|s| s.as_str()),
        Some("staging"),
        "new tags must be reflected in the coordinator meta"
    );
}

#[test]
fn set_tags_does_not_mark_local_state_dirty() {
    let mut e = ep();

    e.resync_local_state();
    assert!(!e.test_is_dirty(), "resync must clear the dirty flag");

    let tags: Tags = tags(&[("dc", "us-west-2")]);
    e.set_tags(tags, ORIGIN)
        .expect("set_tags must succeed");

    assert!(!e.test_is_dirty(), "set_tags must not mark local_state_dirty");
}

#[test]
fn set_tags_before_join_does_not_emit_update_before_join() {
    let mut e = ep();

    let tags: Tags = tags(&[("role", "cache")]);
    e.set_tags(tags, ORIGIN)
        .expect("set_tags must succeed");

    e.handle_timeout(t_secs(1));

    let mut evs = Vec::new();
    while let Some(ev) = e.poll_event() {
        evs.push(ev);
    }

    let join_pos = evs
        .iter()
        .position(|ev| matches!(ev, Event::Member(me) if me.kind() == MemberEventKind::Join));
    let update_pos = evs
        .iter()
        .position(|ev| matches!(ev, Event::Member(me) if me.kind() == MemberEventKind::Update));

    if let (Some(j), Some(u)) = (join_pos, update_pos) {
        assert!(u >= j, "Member(Update) at index {u} must not precede Member(Join) at index {j}");
    }
}

fn ep_member_coalescing_at(coalesce: Duration, quiescent: Duration) -> StreamEndpoint {
    let opts = Options { coalesce_period: coalesce, quiescent_period: quiescent, ..Options::new() };
    let mut e = StreamEndpoint::new(opts);
    let _ = e.poll_event();
    e.handle_timeout(ORIGIN + quiescent);
    while e.poll_event().is_some() {}
    e
}

fn ep_member_coalescing() -> StreamEndpoint {
    ep_member_coalescing_at(secs(10), secs(2))
}

fn ep_user_coalescing() -> StreamEndpoint {
    let opts = Options { user_coalesce_period: secs(10), user_quiescent_period: secs(2), ..Options::new() };
    let mut e = StreamEndpoint::new(opts);
    let _ = e.poll_event();
    e
}

fn member_ids(ev: &Event<u32, SocketAddress>) -> Vec<u32> {
    match ev {
        Event::Member(me) => {
            let mut ids: Vec<u32> = me.members().iter().map(|m| m.node.id).collect();
            ids.sort_unstable();
            ids
        }
        _ => panic!("expected Event::Member"),
    }
}

#[test]
fn coalescing_disabled_delivers_member_events_immediately() {
    let mut e = ep();
    e.test_inner_node_joined(2, t_secs(1));
    let ev = e
        .poll_event()
        .expect("member event delivered immediately when disabled");
    assert!(matches!(ev, Event::Member(ref me) if me.kind() == MemberEventKind::Join));
    assert_eq!(member_ids(&ev), vec![2]);
    assert!(e.poll_event().is_none());
}

#[test]
fn coalescing_disabled_delivers_user_events_immediately() {
    let mut e = ep();
    e.user_event("deploy", Bytes::from_static(b"v2"), true, ORIGIN)
    .unwrap();
    let ev = e
        .poll_event()
        .expect("user event delivered immediately when disabled");
    assert!(matches!(ev, Event::User(ref u) if u.name == "deploy"));
}

#[test]
fn member_coalescing_batches_rapid_joins_into_one_flush() {
    let mut e = ep_member_coalescing();

    e.test_inner_node_joined(2, t_secs(5));
    e.test_inner_node_joined(3, t_secs(5));
    assert!(
        e.poll_event().is_none(),
        "joins are buffered by the coalescer, not delivered immediately"
    );

    assert_eq!(
        e.core_mut().serf_poll_timeout(),
        Some(t_secs(7)),
        "the coalescer flush deadline appears in serf_poll_timeout"
    );

    e.handle_timeout(t_secs(7));
    let ev = e
        .poll_event()
        .expect("one coalesced batch at the flush deadline");
    assert!(matches!(ev, Event::Member(ref me) if me.kind() == MemberEventKind::Join));
    assert_eq!(member_ids(&ev), vec![2, 3], "both joins in ONE batch");
    assert!(e.poll_event().is_none(), "exactly one batch delivered");
}

#[test]
fn member_coalescing_collapses_transitions_to_latest_status() {
    let mut e = ep_member_coalescing();

    e.test_inner_node_joined(2, t_secs(5));
    e.test_inner_node_left(2, t_secs(5));
    assert!(e.poll_event().is_none(), "transitions buffered");

    e.handle_timeout(t_secs(7));
    let mut kinds = Vec::new();
    while let Some(ev) = e.poll_event() {
        if let Event::Member(me) = ev {
            kinds.push(me.kind());
        }
    }
    assert_eq!(
        kinds,
        vec![MemberEventKind::Failed],
        "join collapses into the final Failed status: {kinds:?}"
    );
}

#[test]
fn member_coalescing_coalesce_cap_bounds_a_busy_stream() {
    let mut e = ep_member_coalescing_at(secs(3), secs(2));
    e.test_inner_node_joined(2, t_secs(5));
    assert_eq!(e.core_mut().serf_poll_timeout(), Some(t_secs(7)));
    e.test_inner_node_joined(3, t_secs(6));
    assert_eq!(e.core_mut().serf_poll_timeout(), Some(t_secs(8)));
    e.test_inner_node_joined(4, t_secs(7));
    assert_eq!(
        e.core_mut().serf_poll_timeout(),
        Some(t_secs(8)),
        "the coalesce cap (first event + 3s) bounds the busy stream"
    );

    e.handle_timeout(t_secs(8));
    let ev = e.poll_event().expect("cap flush delivers the batch");
    assert_eq!(member_ids(&ev), vec![2, 3, 4]);
}

#[test]
fn user_coalescing_batches_cc_events_and_passes_non_cc_through() {
    let mut e = ep_user_coalescing();

    e.user_event("plain", Bytes::from_static(b"a"), false, t_secs(5))
        .unwrap();
    assert!(
        matches!(e.poll_event(), Some(Event::User(u)) if u.name == "plain"),
        "a non-cc user event passes through immediately"
    );

    e.user_event("cc", Bytes::from_static(b"v1"), true, t_secs(5))
        .unwrap();
    assert!(e.poll_event().is_none(), "cc user event buffered");
    e.user_event("cc", Bytes::from_static(b"v2"), true, t_secs(6))
        .unwrap();
    assert!(e.poll_event().is_none());

    assert_eq!(e.core_mut().serf_poll_timeout(), Some(t_secs(8)));
    e.handle_timeout(t_secs(8));

    let mut delivered = Vec::new();
    while let Some(ev) = e.poll_event() {
        if let Event::User(u) = ev {
            delivered.push(u);
        }
    }
    assert_eq!(delivered.len(), 1, "one coalesced user event: {delivered:?}");
    assert_eq!(delivered[0].name, "cc");
    assert_eq!(delivered[0].payload.as_ref(), b"v2", "only the newest generation survives");
}

#[test]
fn coalesced_member_batch_dropped_on_midwindow_shutdown() {
    let mut e = ep_member_coalescing();
    e.test_inner_node_joined(2, t_secs(5));
    assert!(e.poll_event().is_none(), "join buffered mid-window");

    let qid = e.test_register_conflict_query(t_secs(7));
    e.test_fold_conflict_response(qid, 200u32, true);
    e.test_fold_conflict_response(qid, 201u32, false);
    e.test_fold_conflict_response(qid, 202u32, false);

    e.handle_timeout(t_secs(7));

    let mut events = Vec::new();
    while let Some(ev) = e.poll_event() {
        events.push(ev);
    }
    assert_eq!(
        events.len(),
        1,
        "only Event::Shutdown drains — the buffered member batch is dropped"
    );
    assert!(matches!(events[0], Event::Shutdown));
    assert!(e.state().is_shutdown());

    e.handle_timeout(t_secs(20));
    assert!(e.poll_event().is_none(), "no coalesced batch may surface after Event::Shutdown");
}

#[test]
fn user_event_after_idle_gap_arms_window_from_live_now() {
    let mut e = ep_user_coalescing();

    e.user_event("cc", Bytes::from_static(b"v1"), true, t_secs(100))
        .unwrap();

    assert!(
        e.poll_event().is_none(),
        "the coalescing user event is buffered, not delivered immediately"
    );

    assert_eq!(
        e.test_user_flush_deadline(),
        Some(t_secs(102)),
        "the user coalesce window must arm from the command's live now"
    );

    e.handle_timeout(t_secs(101));
    assert!(e.poll_event().is_none(), "still buffered within the live window");

    e.handle_timeout(t_secs(102));
    assert!(
        matches!(e.poll_event(), Some(Event::User(u)) if u.name == "cc"),
        "the coalesced user event flushes when its live-armed window closes"
    );
}

#[test]
fn set_tags_after_idle_gap_arms_member_window_from_live_now() {
    let mut e = ep_member_coalescing();

    let tags: Tags = tags(&[("role", "web")]);
    e.set_tags(tags, t_secs(100))
        .expect("set_tags must succeed");

    assert!(
        e.poll_event().is_none(),
        "the Member(Update) is buffered by the member coalescer, not delivered immediately"
    );

    assert_eq!(
        e.test_member_flush_deadline(),
        Some(t_secs(102)),
        "the member coalesce window must arm from set_tags's live now"
    );
    e.handle_timeout(t_secs(101));
    assert!(e.poll_event().is_none(), "still buffered within the live window");
    e.handle_timeout(t_secs(102));
    assert!(
        matches!(e.poll_event(), Some(Event::Member(me)) if me.kind() == MemberEventKind::Update),
        "the coalesced Member(Update) flushes when its live-armed window closes"
    );
}

#[test]
fn handle_node_join_with_pending_leave_intent_starts_leaving() {
    let mut e = fresh();

    e.test_handle_leave_intent(2, LamportTime::new(4), ORIGIN);
    e.test_inner_node_joined(2, ORIGIN);
    assert_eq!(e.test_member_status(2), Some(MemberStatus::Leaving));
}

#[test]
fn handle_node_join_with_pending_join_intent_starts_alive() {
    let mut e = fresh();
    e.test_handle_join_intent(2, LamportTime::new(4), ORIGIN);
    e.test_inner_node_joined(2, ORIGIN);
    assert_eq!(e.test_member_status(2), Some(MemberStatus::Alive));
}

#[test]
fn handle_node_join_clears_failed_and_left_lists() {
    let mut e = fresh();

    e.test_seed_left_member_by_status(2, LamportTime::new(5), ORIGIN);
    assert!(e.test_in_left_members(2));
    e.test_inner_node_joined(2, ORIGIN);
    assert!(!e.test_in_left_members(2), "re-join must clear left_members");
    assert_eq!(e.test_member_status(2), Some(MemberStatus::Alive));
}

#[test]
fn handle_node_join_always_emits_join_event() {
    let mut e = fresh();
    e.test_seed_failed_member_by_status(2, LamportTime::new(3), ORIGIN);
    e.test_inner_node_joined(2, ORIGIN);
    let ev = e.poll_event();
    assert!(
        matches!(ev, Some(Event::Member(ref me)) if me.kind() == MemberEventKind::Join),
        "expected Member(Join)"
    );
}

#[test]
fn handle_node_leave_leaving_to_left() {
    let mut e = fresh();
    e.test_seed_member(2, MemberStatus::Leaving, LamportTime::new(5));
    e.test_inner_node_left(2, ORIGIN);
    assert_eq!(e.test_member_status(2), Some(MemberStatus::Left));
    assert!(e.test_in_left_members(2));
    let ev = e.poll_event();
    assert!(matches!(ev, Some(Event::Member(ref me)) if me.kind() == MemberEventKind::Leave));
}

#[test]
fn handle_node_leave_alive_to_failed() {
    let mut e = fresh();
    e.test_seed_member(2, MemberStatus::Alive, LamportTime::new(5));
    e.test_inner_node_left(2, ORIGIN);
    assert_eq!(e.test_member_status(2), Some(MemberStatus::Failed));
    assert!(e.test_in_failed_members(2));
    let ev = e.poll_event();
    assert!(matches!(ev, Some(Event::Member(ref me)) if me.kind() == MemberEventKind::Failed));
}

#[test]
fn handle_node_leave_non_alive_leaving_is_noop() {
    let mut e = fresh();
    e.test_seed_member(2, MemberStatus::Failed, LamportTime::new(5));
    e.test_inner_node_left(2, ORIGIN);

    let ev = e.poll_event();
    assert!(ev.is_none(), "no-op statuses should not emit events");
}

#[test]
fn handle_node_join_intent_witnesses_member_clock() {
    let mut e = fresh();
    assert_eq!(e.member_time(), 0);
    e.test_handle_join_intent(2, LamportTime::new(10), ORIGIN);
    assert!(e.member_time() >= 11, "member clock must be witnessed past ltime=10");
}

#[test]
fn handle_node_join_intent_stale_returns_false() {
    let mut e = fresh();
    e.test_seed_member(2, MemberStatus::Alive, LamportTime::new(10));
    let rebroadcast = e.test_handle_join_intent(2, LamportTime::new(10), ORIGIN);
    assert!(!rebroadcast);
}

#[test]
fn handle_node_join_intent_leaving_returns_to_alive() {
    let mut e = fresh();
    e.test_seed_member(2, MemberStatus::Leaving, LamportTime::new(5));
    let rebroadcast = e.test_handle_join_intent(2, LamportTime::new(8), ORIGIN);
    assert!(rebroadcast);
    assert_eq!(e.test_member_status(2), Some(MemberStatus::Alive));
}

#[test]
fn handle_node_leave_intent_witnesses_clock() {
    let mut e = fresh();
    e.test_handle_leave_intent(99, LamportTime::new(15), ORIGIN);
    assert!(e.member_time() >= 16);
}

#[test]
fn handle_node_leave_intent_stale_for_existing_member() {
    let mut e = fresh();
    e.test_seed_member(2, MemberStatus::Alive, LamportTime::new(10));
    let rb = e.test_handle_leave_intent(2, LamportTime::new(9), ORIGIN);
    assert!(!rb);
    assert_eq!(e.test_member_status(2), Some(MemberStatus::Alive));
}

#[test]
fn handle_node_leave_intent_updates_status_time_for_leaving() {
    let mut e = fresh();
    e.test_seed_member(2, MemberStatus::Leaving, LamportTime::new(5));
    let rb = e.test_handle_leave_intent(2, LamportTime::new(8), ORIGIN);
    assert!(rb, "Leaving node: fresh leave intent should rebroadcast");

    assert_eq!(e.test_member_status(2), Some(MemberStatus::Leaving));
    assert_eq!(
        e.test_member_status_time(2),
        Some(LamportTime::new(8)),
        "status_time must be updated unconditionally"
    );
}

#[test]
fn handle_node_leave_intent_failed_to_left() {
    let mut e = fresh();
    e.test_seed_failed_member_by_status(2, LamportTime::new(3), ORIGIN);
    let rb = e.test_handle_leave_intent(2, LamportTime::new(7), ORIGIN);
    assert!(rb);
    assert_eq!(e.test_member_status(2), Some(MemberStatus::Left));
    assert!(!e.test_in_failed_members(2), "should be removed from failed_members");
    assert!(e.test_in_left_members(2), "should be in left_members");
    let ev = e.poll_event();
    assert!(matches!(ev, Some(Event::Member(ref me)) if me.kind() == MemberEventKind::Leave));
}

fn push_pull_body(
    ltime: u64,
    status_ltimes: Vec<(u32, u64)>,
    left_members: Vec<u32>,
    event_ltime: u64,
    events: Vec<UserEvents>,
    query_ltime: u64,
) -> Bytes {
    let pp = PushPullMessage::<u32> {
        ltime: LamportTime::new(ltime),
        status_ltimes: status_ltimes
            .into_iter()
            .map(|(id, lt)| (id, LamportTime::new(lt)))
            .collect(),
        left_members,
        event_ltime: LamportTime::new(event_ltime),
        events,
        query_ltime: LamportTime::new(query_ltime),
    };
    AnyMessage::<u32, SocketAddress>::PushPull(pp)
        .encode()
        .expect("encode must succeed in test")
}

#[test]
fn merge_witnesses_clocks_at_ltime_minus_one() {
    let mut e = fresh();
    let body = push_pull_body(10, vec![], vec![], 8, vec![], 6);
    e.test_merge_exchange(body, false);

    assert_eq!(e.member_time(), 10, "member clock: witness(9) → 10");
    assert_eq!(e.event_time(), 8, "event clock: witness(7) → 8");
    assert_eq!(e.query_time(), 6, "query clock: witness(5) → 6");
}

#[test]
fn merge_zero_clocks_are_not_witnessed() {
    let mut e = fresh();
    let body = push_pull_body(0, vec![], vec![], 0, vec![], 0);
    e.test_merge_exchange(body, false);
    assert_eq!(e.member_time(), 0, "zero ltime must not witness");
    assert_eq!(e.event_time(), 0, "zero event_ltime must not witness");
    assert_eq!(e.query_time(), 0, "zero query_ltime must not witness");
}

#[test]
fn merge_processes_left_members_before_joins() {
    let mut e = fresh();

    let body = push_pull_body(5, vec![(2u32, 4)], vec![2u32], 0, vec![], 0);
    e.test_merge_exchange(body, false);

    assert_eq!(
        e.test_intent_ltime(2, IntentKind::Leave),
        Some(LamportTime::new(5)),
        "node in left_members must have a synthetic Leave intent at status_ltime + 1"
    );

    assert_eq!(
        e.test_intent_ltime(2, IntentKind::Join),
        None,
        "join pass must skip nodes in left_members"
    );
}

#[test]
fn merge_join_intent_buffered_for_non_left_node() {
    let mut e = fresh();

    let body = push_pull_body(5, vec![(3u32, 7)], vec![], 0, vec![], 0);
    e.test_merge_exchange(body, false);

    assert_eq!(
        e.test_intent_ltime(3, IntentKind::Join),
        Some(LamportTime::new(7)),
        "non-left node must receive a join intent at its status_ltime"
    );
}

#[test]
fn join_with_event_join_ignore_bumps_event_min_time() {
    let mut e = fresh();
    e.test_set_event_join_ignore(true);
    let body = push_pull_body(0, vec![], vec![], 42, vec![], 0);
    e.test_merge_exchange(body,  true);
    assert_eq!(
        e.test_event_min_time(),
        42,
        "event_join_ignore + is_join must set min_time to remote event_ltime"
    );
}

#[test]
fn refresh_exchange_does_not_bump_event_min_time() {
    let mut e = fresh();
    e.test_set_event_join_ignore(true);
    let body = push_pull_body(0, vec![], vec![], 99, vec![], 0);
    e.test_merge_exchange(body,  false);
    assert_eq!(e.test_event_min_time(), 0, "non-join exchange must not bump event_buffer.min_time");
}

#[test]
fn join_without_event_join_ignore_does_not_bump_min_time() {
    let mut e = fresh();

    let body = push_pull_body(0, vec![], vec![], 99, vec![], 0);
    e.test_merge_exchange(body,  true);
    assert_eq!(e.test_event_min_time(), 0, "event_join_ignore=false: min_time must not be bumped");
}

#[test]
fn merge_replays_buffered_user_events() {
    let mut e = fresh();
    let events = vec![UserEvents {
        ltime: LamportTime::new(3),
        events: vec![UserEvent {
            name: "deploy".into(),
            payload: Bytes::from_static(b"v1"),
        }],
    }];
    let body = push_pull_body(4, vec![], vec![], 4, events, 0);
    e.test_merge_exchange(body, false);

    let ev = e.poll_event().expect("replayed user event must surface");
    assert!(matches!(ev, Event::User(ref u) if u.name == "deploy"), "expected Event::User(deploy)");
}

#[test]
fn join_with_event_join_ignore_suppresses_event_replay() {
    let mut e = fresh();
    e.test_set_event_join_ignore(true);

    let events = vec![UserEvents {
        ltime: LamportTime::new(4),
        events: vec![UserEvent {
            name: "really-old".into(),
            payload: Bytes::from_static(b"y"),
        }],
    }];
    let body = push_pull_body(0, vec![], vec![], 5, events, 0);
    e.test_merge_exchange(body,  true);

    assert!(e.poll_event().is_none(), "event at ltime < min_time must be suppressed");
}

#[test]
fn merge_empty_user_data_is_silently_dropped() {
    let mut e = fresh();

    e.test_merge_exchange(Bytes::new(), false);
    assert!(e.poll_event().is_none());
}

#[test]
fn merge_malformed_body_is_silently_dropped() {
    let mut e = fresh();
    e.test_merge_exchange(Bytes::from_static(b"\xff\xfe\xfd"), false);
    assert_eq!(e.member_time(), 0, "clocks must be unchanged on decode error");
    assert!(e.poll_event().is_none());
}

#[test]
fn tick_drains_inner_before_firing_reap() {
    let mut e = fresh();
    let t0 = ORIGIN;

    e.test_seed_failed_member(2, at("127.0.0.1:1002"), t0);

    let past_timeout = t0 + secs(3600 * 25);

    e.test_inject_inner_joined(2, past_timeout);

    while e.poll_event().is_some() {}

    e.handle_timeout(past_timeout);

    assert_eq!(
        e.test_member_status(2),
        Some(MemberStatus::Alive),
        "inner NodeJoined must win over the concurrent reap deadline"
    );
}

#[test]
fn three_tiers_drain_intent_then_query_then_event() {
    let mut e = fresh();

    e.test_enqueue_intent_broadcast(Bytes::from_static(b"intent-bytes"));
    e.test_enqueue_query_broadcast(Bytes::from_static(b"query-bytes"));

    e.user_event("ev", Bytes::from_static(b"event"), false, ORIGIN)
        .expect("user_event must succeed");

    let total = e.user_broadcast_queue_len();
    assert!(
        total >= 3,
        "all three broadcast tiers must be populated (intent + query + event); got queue_len = {total}"
    );

    e.test_enqueue_intent_broadcast(Bytes::from_static(b"intent2"));
    let total2 = e.user_broadcast_queue_len();
    assert_eq!(total2, total + 1, "second intent-tier enqueue must increment total queue len");
}

/// What a node guesses of its place in the network.
struct Coordinate {
    vec: Vec<f64>,
    error: f64,
    adjustment: f64,
    height: f64,
}

fn make_coord_payload(coord: &Coordinate) -> Bytes {
    let mut encoded: Vec<u8> = Vec::new();
    for x in &coord.vec {
        encoded.extend_from_slice(&x.to_be_bytes());
    }
    encoded.extend_from_slice(&coord.error.to_be_bytes());
    encoded.extend_from_slice(&coord.adjustment.to_be_bytes());
    encoded.extend_from_slice(&coord.height.to_be_bytes());
    coord_ack_payload(&encoded)
}

fn ep_with_coords() -> StreamEndpoint {
    let mut e = StreamEndpoint::new(Options { disable_coordinates: false, ..Options::new() });
    let _ = e.poll_event();
    e
}

#[test]
fn ping_completed_updates_local_coordinate_and_caches_remote() {
    let mut e = ep_with_coords();
    let peer_coord = Coordinate { vec: vec![5.0; 8], error: 1.0, adjustment: 0.0, height: 0.0 };
    let payload = make_coord_payload(&peer_coord);

    e.test_ping_completed(2u32, millis(40), payload.clone());

    assert_eq!(
        e.cached_coordinate(&2u32),
        Some((millis(40), payload)),
        "remote coordinate should be cached after PingCompleted"
    );
}

#[test]
fn ping_completed_bad_version_is_noop() {
    let mut e = ep_with_coords();
    let payload = Bytes::from_static(b"\x02garbage");
    e.test_ping_completed(2u32, millis(10), payload);
    assert!(
        e.cached_coordinate(&2u32).is_none(),
        "bad version byte must not update coord_cache"
    );
}

#[test]
fn ping_completed_empty_payload_is_noop() {
    let mut e = ep_with_coords();
    e.test_ping_completed(2u32, millis(10), Bytes::new());
    assert!(e.cached_coordinate(&2u32).is_none(), "empty payload must not update coord_cache");
}

#[test]
fn reap_forgets_coordinate() {
    let mut e = ep_with_coords();
    let peer_coord = Coordinate { vec: vec![1.0; 8], error: 0.5, adjustment: 0.0, height: 0.0 };
    let payload = make_coord_payload(&peer_coord);
    e.test_ping_completed(42u32, millis(20), payload);
    assert!(
        e.cached_coordinate(&42u32).is_some(),
        "coordinate should be cached before reap"
    );

    e.test_seed_failed_member(42u32, at("127.0.0.1:7947"), ORIGIN);
    e.test_fire_reap(ORIGIN + secs(90_000));

    assert!(
        e.cached_coordinate(&42u32).is_none(),
        "coordinate must be removed from cache after reap"
    );
}
