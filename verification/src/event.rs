//! What the machine reports to its driver.
//!
//! The driver takes the reports off a queue, one after the other.

use crate::clock::LamportTime;
use crate::id::Value;
use crate::members::Member;
use crate::time::Instant;
use crate::typed::{KeyResponseMessage, Node, SecretKey, UserEventMessage};
use crate::vecmap::VecMap;
use bytes::Bytes;
use std::collections::VecDeque;
use std::sync::Arc;
use vstd::prelude::*;

verus! {

/// The number of an exchange over a reliable stream.
pub type StreamId = u64;

/// What happened to a member.
#[derive(Debug, Clone, Copy, PartialEq, Eq, Structural)]
pub enum MemberEventKind {
    /// It joined.
    Join,
    /// It left.
    Leave,
    /// It failed.
    Failed,
    /// Its tags or its address changed.
    Update,
    /// It was forgotten.
    Reap,
}

impl MemberEventKind {
    /// The name of the kind.
    pub open spec fn name(self) -> Seq<char> {
        match self {
            MemberEventKind::Join => "join"@,
            MemberEventKind::Leave => "leave"@,
            MemberEventKind::Failed => "failed"@,
            MemberEventKind::Update => "update"@,
            MemberEventKind::Reap => "reap"@,
        }
    }

    /// Returns the name of the kind.
    pub fn as_str(self) -> (r: &'static str)
        ensures
            r@ == self.name(),
    {
        match self {
            MemberEventKind::Join => "join",
            MemberEventKind::Leave => "leave",
            MemberEventKind::Failed => "failed",
            MemberEventKind::Update => "update",
            MemberEventKind::Reap => "reap",
        }
    }

    /// Returns what the kind is shown as, which is its name.
    pub fn display(self) -> (r: String)
        ensures
            r@ == self.name(),
    {
        self.as_str().to_string()
    }

    /// Returns `true` for [`MemberEventKind::Join`].
    pub fn is_join(&self) -> (r: bool)
        ensures
            r == (*self is Join),
    {
        matches!(self, MemberEventKind::Join)
    }

    /// Returns `true` for [`MemberEventKind::Leave`].
    pub fn is_leave(&self) -> (r: bool)
        ensures
            r == (*self is Leave),
    {
        matches!(self, MemberEventKind::Leave)
    }

    /// Returns `true` for [`MemberEventKind::Failed`].
    pub fn is_failed(&self) -> (r: bool)
        ensures
            r == (*self is Failed),
    {
        matches!(self, MemberEventKind::Failed)
    }

    /// Returns `true` for [`MemberEventKind::Update`].
    pub fn is_update(&self) -> (r: bool)
        ensures
            r == (*self is Update),
    {
        matches!(self, MemberEventKind::Update)
    }

    /// Returns `true` for [`MemberEventKind::Reap`].
    pub fn is_reap(&self) -> (r: bool)
        ensures
            r == (*self is Reap),
    {
        matches!(self, MemberEventKind::Reap)
    }
}

/// Two kinds with one name are one kind.
pub proof fn member_event_names_are_distinct(a: MemberEventKind, b: MemberEventKind)
    requires
        a.name() == b.name(),
    ensures
        a == b,
{
    reveal_strlit("join");
    reveal_strlit("leave");
    reveal_strlit("failed");
    reveal_strlit("update");
    reveal_strlit("reap");
    assert("join"@[0] == 'j');
    assert("leave"@[0] == 'l');
    assert("failed"@[0] == 'f');
    assert("update"@[0] == 'u');
    assert("reap"@[0] == 'r');
}

/// Members to which the same happened.
#[derive(Debug)]
pub struct MemberEvent<I, A> {
    kind: MemberEventKind,
    members: Arc<Vec<Member<I, A>>>,
}

impl<I, A> MemberEvent<I, A> {
    /// What happened.
    pub closed spec fn spec_kind(self) -> MemberEventKind {
        self.kind
    }

    /// The members.
    pub closed spec fn spec_members(self) -> Seq<Member<I, A>> {
        self.members@
    }

    /// Returns the report that `kind` happened to `members`.
    pub fn new(kind: MemberEventKind, members: Vec<Member<I, A>>) -> (r: Self)
        ensures
            r.spec_kind() == kind,
            r.spec_members() == members@,
    {
        MemberEvent { kind, members: Arc::new(members) }
    }

    /// Returns what happened.
    pub fn kind(&self) -> (r: MemberEventKind)
        ensures
            r == self.spec_kind(),
    {
        self.kind
    }

    /// Returns the members.
    pub fn members(&self) -> (r: &[Member<I, A>])
        ensures
            r@ == self.spec_members(),
    {
        self.members.as_slice()
    }
}

/// A query to respond to.
#[derive(Debug)]
pub struct QueryEvent<I, A> {
    /// The number of the query.
    pub id: u32,
    /// The time of the query.
    pub ltime: LamportTime,
    /// The node that asks.
    pub from: Node<I, A>,
    /// The name.
    pub name: String,
    /// The payload.
    pub payload: Bytes,
    /// How many nodes are to relay the response.
    pub relay_factor: u8,
    /// Until when a response is of use.
    pub deadline: Instant,
}

impl<I, A> QueryEvent<I, A> {
    /// Returns the number of the query.
    pub fn id(&self) -> (r: u32)
        ensures
            r == self.id,
    {
        self.id
    }

    /// Returns the time of the query.
    pub fn ltime(&self) -> (r: LamportTime)
        ensures
            r == self.ltime,
    {
        self.ltime
    }

    /// Returns the node that asks.
    pub fn from(&self) -> (r: &Node<I, A>)
        ensures
            *r == self.from,
    {
        &self.from
    }

    /// Returns the name.
    pub fn name(&self) -> (r: &str)
        ensures
            r@ == self.name@,
    {
        self.name.as_str()
    }

    /// Returns the payload.
    pub fn payload(&self) -> (r: &Bytes)
        ensures
            *r == self.payload,
    {
        &self.payload
    }

    /// Returns how many nodes are to relay the response.
    pub fn relay_factor(&self) -> (r: u8)
        ensures
            r == self.relay_factor,
    {
        self.relay_factor
    }

    /// Returns until when a response is of use.
    pub fn deadline(&self) -> (r: Instant)
        ensures
            r == self.deadline,
    {
        self.deadline
    }
}

/// A response to a query that this node asked.
#[derive(Debug)]
pub struct QueryResponse<I, A> {
    /// The number of the query.
    pub id: u32,
    /// The node that responds.
    pub from: Node<I, A>,
    /// The payload.
    pub payload: Bytes,
}

impl<I, A> QueryResponse<I, A> {
    /// Returns the number of the query.
    pub fn id(&self) -> (r: u32)
        ensures
            r == self.id,
    {
        self.id
    }

    /// Returns the node that responds.
    pub fn from(&self) -> (r: &Node<I, A>)
        ensures
            *r == self.from,
    {
        &self.from
    }

    /// Returns the payload.
    pub fn payload(&self) -> (r: &Bytes)
        ensures
            *r == self.payload,
    {
        &self.payload
    }
}

/// An acknowledgement of a query that this node asked.
#[derive(Debug)]
pub struct QueryAck<I, A> {
    /// The number of the query.
    pub id: u32,
    /// The node that acknowledges.
    pub from: Node<I, A>,
}

impl<I, A> QueryAck<I, A> {
    /// Returns the number of the query.
    pub fn id(&self) -> (r: u32)
        ensures
            r == self.id,
    {
        self.id
    }

    /// Returns the node that acknowledges.
    pub fn from(&self) -> (r: &Node<I, A>)
        ensures
            *r == self.from,
    {
        &self.from
    }
}

/// A peer that the driver is to dial.
#[derive(Debug)]
pub struct DialPassthrough<A> {
    id: StreamId,
    peer: A,
}

impl<A> DialPassthrough<A> {
    /// The exchange for which to dial.
    pub closed spec fn spec_id(self) -> StreamId {
        self.id
    }

    /// The peer.
    pub closed spec fn spec_peer(self) -> A {
        self.peer
    }

    /// Returns the request to dial `peer` for the exchange `id`.
    pub fn new(id: StreamId, peer: A) -> (r: Self)
        ensures
            r.spec_id() == id,
            r.spec_peer() == peer,
    {
        DialPassthrough { id, peer }
    }

    /// Returns the exchange for which to dial.
    pub fn id(&self) -> (r: StreamId)
        ensures
            r == self.spec_id(),
    {
        self.id
    }

    /// Returns the peer.
    pub fn peer(&self) -> (r: &A)
        ensures
            *r == self.spec_peer(),
    {
        &self.peer
    }
}

/// A frame that was not passed on.
#[derive(Debug)]
pub struct RelayDropped<A> {
    /// Where it was to go.
    pub destination: A,
}

impl<A> RelayDropped<A> {
    /// Returns where the frame was to go.
    pub fn destination(&self) -> (r: &A)
        ensures
            *r == self.destination,
    {
        &self.destination
    }
}

/// How a reliable exchange ended.
#[derive(Debug)]
pub struct ExchangeCompleted<A> {
    /// The number that the coordinator gave the exchange.
    pub id: u64,
    /// The peer.
    pub peer: A,
    /// Whether it succeeded.
    pub succeeded: bool,
}

/// What the nodes answered to a request about keys.
pub struct KeyResponse<I> {
    /// How many nodes were asked.
    pub num_nodes: usize,
    /// How many responded.
    pub num_resp: usize,
    /// How many reported a failure.
    pub num_err: usize,
    /// How many nodes have each key.
    pub keys: VecMap<SecretKey, usize>,
    /// How many nodes have each key as their primary key.
    pub primary_keys: VecMap<SecretKey, usize>,
    /// What the nodes that failed said.
    pub messages: VecMap<I, String>,
}

/// An operation on keys.
#[derive(Debug, Clone, Copy, PartialEq, Eq, Structural)]
pub enum KeyRequestOperation {
    /// Add a key.
    Install,
    /// Make a key the primary one.
    Use,
    /// Remove a key.
    Remove,
    /// List the keys.
    List,
}

impl KeyRequestOperation {
    /// The name of the operation.
    pub open spec fn name(self) -> Seq<char> {
        match self {
            KeyRequestOperation::Install => "install"@,
            KeyRequestOperation::Use => "use"@,
            KeyRequestOperation::Remove => "remove"@,
            KeyRequestOperation::List => "list"@,
        }
    }

    /// Returns the name of the operation.
    pub fn as_str(self) -> (r: &'static str)
        ensures
            r@ == self.name(),
    {
        match self {
            KeyRequestOperation::Install => "install",
            KeyRequestOperation::Use => "use",
            KeyRequestOperation::Remove => "remove",
            KeyRequestOperation::List => "list",
        }
    }

    /// Whether the operation is on a given key.
    pub open spec fn spec_has_key(self) -> bool {
        !(self is List)
    }

    /// Returns `true` if the operation is on a given key.
    pub fn has_key(self) -> (r: bool)
        ensures
            r == self.spec_has_key(),
    {
        !matches!(self, KeyRequestOperation::List)
    }
}

/// Two operations with one name are one operation.
pub proof fn key_operation_names_are_distinct(a: KeyRequestOperation, b: KeyRequestOperation)
    requires
        a.name() == b.name(),
    ensures
        a == b,
{
    reveal_strlit("install");
    reveal_strlit("use");
    reveal_strlit("remove");
    reveal_strlit("list");
    assert("install"@[0] == 'i');
    assert("use"@[0] == 'u');
    assert("remove"@[0] == 'r');
    assert("list"@[0] == 'l');
}

/// A request about keys, for the driver to carry out and answer.
pub struct KeyRequest<I, A> {
    /// The operation.
    pub op: KeyRequestOperation,
    /// The key, where the operation is on one.
    pub key: Option<SecretKey>,
    /// The number of the query.
    pub id: u32,
    /// The time of the query.
    pub ltime: LamportTime,
    /// The node that asks.
    pub from: Node<I, A>,
    /// How many nodes are to relay the response.
    pub relay_factor: u8,
    /// Until when a response is of use.
    pub deadline: Instant,
}

impl<I, A> KeyRequest<I, A> {
    /// Returns the operation.
    pub fn op(&self) -> (r: KeyRequestOperation)
        ensures
            r == self.op,
    {
        self.op
    }

    /// Returns the key, where the operation is on one.
    pub fn key(&self) -> (r: Option<&SecretKey>)
        ensures
            match r {
                Some(k) => self.key == Some(*k),
                None => self.key is None,
            },
    {
        self.key.as_ref()
    }

    /// Returns the node that asks.
    pub fn from(&self) -> (r: &Node<I, A>)
        ensures
            *r == self.from,
    {
        &self.from
    }

    /// Returns the number of the query.
    pub fn id(&self) -> (r: u32)
        ensures
            r == self.id,
    {
        self.id
    }

    /// Returns until when a response is of use.
    pub fn deadline(&self) -> (r: Instant)
        ensures
            r == self.deadline,
    {
        self.deadline
    }

    /// Returns a request with the given deadline, at time zero and without relays.
    pub fn test_with_deadline(
        op: KeyRequestOperation,
        id: u32,
        from: Node<I, A>,
        key: Option<SecretKey>,
        deadline: Instant,
    ) -> (r: Self)
        ensures
            r == (KeyRequest {
                op,
                key,
                id,
                ltime: LamportTime(0),
                from,
                relay_factor: 0,
                deadline,
            }),
    {
        KeyRequest { op, key, id, ltime: LamportTime(0), from, relay_factor: 0, deadline }
    }
}

/// How the driver carried out a request about keys.
pub struct KeyResponseArgs {
    /// Whether it succeeded.
    pub result: bool,
    /// What went wrong.
    pub message: String,
    /// The installed keys.
    pub keys: Vec<SecretKey>,
    /// The primary key.
    pub primary_key: Option<SecretKey>,
}

impl KeyResponseArgs {
    /// Returns the message that says so, for the driver to encode.
    pub fn into_message(self) -> (r: KeyResponseMessage)
        ensures
            r == (KeyResponseMessage {
                result: self.result,
                message: self.message,
                keys: self.keys,
                primary_key: self.primary_key,
            }),
    {
        KeyResponseMessage {
            result: self.result,
            message: self.message,
            keys: self.keys,
            primary_key: self.primary_key,
        }
    }

    /// Returns a failure without a message and without keys.
    pub fn new() -> (r: Self)
        ensures
            !r.result,
            r.message@ == ""@,
            r.keys@.len() == 0,
            r.primary_key is None,
    {
        KeyResponseArgs {
            result: false,
            message: "".to_string(),
            keys: Vec::new(),
            primary_key: None,
        }
    }
}

/// A report.
pub enum Event<I, A> {
    /// Something happened to members.
    Member(MemberEvent<I, A>),
    /// A user event arrived.
    User(UserEventMessage),
    /// A query is to be responded to.
    Query(QueryEvent<I, A>),
    /// A query was responded to.
    QueryResponse(QueryResponse<I, A>),
    /// A query was acknowledged.
    QueryAck(QueryAck<I, A>),
    /// The machine shut down. Nothing follows.
    Shutdown,
    /// A frame was not passed on.
    RelayDropped(RelayDropped<A>),
    /// The node left the cluster.
    LeftCluster,
    /// A peer is to be dialled.
    DialRequested(DialPassthrough<A>),
    /// A request about keys was answered.
    KeyResponse(KeyResponse<I>),
    /// A request about keys is to be carried out.
    KeyRequest(KeyRequest<I, A>),
    /// A reliable exchange ended.
    ExchangeCompleted(ExchangeCompleted<A>),
}

/// What a [`KeyResponse`] says.
#[verifier::ext_equal]
#[verifier::reject_recursive_types(I)]
pub struct KeyOutcome<I> {
    /// How many nodes were asked.
    pub num_nodes: nat,
    /// How many responded.
    pub num_resp: nat,
    /// How many reported a failure.
    pub num_err: nat,
    /// How many nodes have each key.
    pub keys: Map<SecretKey, usize>,
    /// How many nodes have each key as their primary key.
    pub primary_keys: Map<SecretKey, usize>,
    /// What the nodes that failed said.
    pub messages: Map<I, String>,
}

/// What an [`Event`] says.
#[verifier::ext_equal]
#[verifier::reject_recursive_types(I)]
pub enum Report<I, A> {
    /// Something happened to members.
    Member(MemberEventKind, Seq<Member<I, A>>),
    /// A user event arrived.
    User(UserEventMessage),
    /// A query is to be responded to.
    Query(QueryEvent<I, A>),
    /// A query was responded to.
    QueryResponse(QueryResponse<I, A>),
    /// A query was acknowledged.
    QueryAck(QueryAck<I, A>),
    /// The machine shut down.
    Shutdown,
    /// A frame was not passed on to the address.
    RelayDropped(A),
    /// The node left the cluster.
    LeftCluster,
    /// A peer is to be dialled for an exchange.
    DialRequested(StreamId, A),
    /// A request about keys was answered.
    KeyResponse(KeyOutcome<I>),
    /// A request about keys is to be carried out.
    KeyRequest(KeyRequest<I, A>),
    /// A reliable exchange ended.
    ExchangeCompleted(ExchangeCompleted<A>),
}

impl<I> View for KeyResponse<I> {
    type V = KeyOutcome<I>;

    open spec fn view(&self) -> KeyOutcome<I> {
        KeyOutcome {
            num_nodes: self.num_nodes as nat,
            num_resp: self.num_resp as nat,
            num_err: self.num_err as nat,
            keys: self.keys@,
            primary_keys: self.primary_keys@,
            messages: self.messages@,
        }
    }
}

impl<I, A> View for Event<I, A> {
    type V = Report<I, A>;

    open spec fn view(&self) -> Report<I, A> {
        match self {
            Event::Member(e) => Report::Member(e.spec_kind(), e.spec_members()),
            Event::User(e) => Report::User(*e),
            Event::Query(e) => Report::Query(*e),
            Event::QueryResponse(e) => Report::QueryResponse(*e),
            Event::QueryAck(e) => Report::QueryAck(*e),
            Event::Shutdown => Report::Shutdown,
            Event::RelayDropped(e) => Report::RelayDropped(e.destination),
            Event::LeftCluster => Report::LeftCluster,
            Event::DialRequested(e) => Report::DialRequested(e.spec_id(), e.spec_peer()),
            Event::KeyResponse(e) => Report::KeyResponse(e@),
            Event::KeyRequest(e) => Report::KeyRequest(*e),
            Event::ExchangeCompleted(e) => Report::ExchangeCompleted(*e),
        }
    }
}

/// What the events of a queue say.
pub open spec fn reports<I, A>(queue: Seq<Event<I, A>>) -> Seq<Report<I, A>> {
    Seq::new(queue.len(), |i: int| queue[i]@)
}

/// What an event says, if there is one.
pub open spec fn shown<I, A>(event: Option<Event<I, A>>) -> Option<Report<I, A>> {
    match event {
        Some(e) => Some(e@),
        None => None,
    }
}

/// Puts a report at the end of a queue.
pub fn report<I, A>(queue: &mut VecDeque<Event<I, A>>, event: Event<I, A>)
    ensures
        reports(final(queue)@) == reports(old(queue)@).push(event@),
{
    let ghost before = reports(queue@);
    queue.push_back(event);
    assert(reports(queue@) =~= before.push(event@));
}

impl<I: Value, A: Value> Event<I, A> {
    /// Returns `true` for [`Event::Member`].
    pub fn is_member(&self) -> (r: bool)
        ensures
            r == (*self is Member),
    {
        matches!(self, Event::Member(_))
    }

    /// Returns `true` for [`Event::User`].
    pub fn is_user(&self) -> (r: bool)
        ensures
            r == (*self is User),
    {
        matches!(self, Event::User(_))
    }

    /// Returns `true` for [`Event::Query`].
    pub fn is_query(&self) -> (r: bool)
        ensures
            r == (*self is Query),
    {
        matches!(self, Event::Query(_))
    }

    /// Returns `true` for [`Event::QueryResponse`].
    pub fn is_query_response(&self) -> (r: bool)
        ensures
            r == (*self is QueryResponse),
    {
        matches!(self, Event::QueryResponse(_))
    }

    /// Returns `true` for [`Event::QueryAck`].
    pub fn is_query_ack(&self) -> (r: bool)
        ensures
            r == (*self is QueryAck),
    {
        matches!(self, Event::QueryAck(_))
    }

    /// Returns `true` for [`Event::Shutdown`].
    pub fn is_shutdown(&self) -> (r: bool)
        ensures
            r == (*self is Shutdown),
    {
        matches!(self, Event::Shutdown)
    }

    /// Returns `true` for [`Event::RelayDropped`].
    pub fn is_relay_dropped(&self) -> (r: bool)
        ensures
            r == (*self is RelayDropped),
    {
        matches!(self, Event::RelayDropped(_))
    }

    /// Returns `true` for [`Event::LeftCluster`].
    pub fn is_left_cluster(&self) -> (r: bool)
        ensures
            r == (*self is LeftCluster),
    {
        matches!(self, Event::LeftCluster)
    }

    /// Returns `true` for [`Event::DialRequested`].
    pub fn is_dial_requested(&self) -> (r: bool)
        ensures
            r == (*self is DialRequested),
    {
        matches!(self, Event::DialRequested(_))
    }

    /// Returns `true` for [`Event::KeyResponse`].
    pub fn is_key_response(&self) -> (r: bool)
        ensures
            r == (*self is KeyResponse),
    {
        matches!(self, Event::KeyResponse(_))
    }

    /// Returns `true` for [`Event::KeyRequest`].
    pub fn is_key_request(&self) -> (r: bool)
        ensures
            r == (*self is KeyRequest),
    {
        matches!(self, Event::KeyRequest(_))
    }

    /// Returns `true` for [`Event::ExchangeCompleted`].
    pub fn is_exchange_completed(&self) -> (r: bool)
        ensures
            r == (*self is ExchangeCompleted),
    {
        matches!(self, Event::ExchangeCompleted(_))
    }
}

/// The kinds of membership events and the operations on keys have the names that they are
/// spoken of with. All operations but to list are on a key.
pub proof fn names_are_as_spoken()
    ensures
        MemberEventKind::Join.name() == "join"@,
        MemberEventKind::Leave.name() == "leave"@,
        MemberEventKind::Failed.name() == "failed"@,
        MemberEventKind::Update.name() == "update"@,
        MemberEventKind::Reap.name() == "reap"@,
        KeyRequestOperation::Install.name() == "install"@,
        KeyRequestOperation::Use.name() == "use"@,
        KeyRequestOperation::Remove.name() == "remove"@,
        KeyRequestOperation::List.name() == "list"@,
        forall|op: KeyRequestOperation| #[trigger] op.spec_has_key() <==> op
            != KeyRequestOperation::List,
{
}

/// A report says what its event holds.
pub proof fn reports_say_what_events_hold<I, A>(event: Event<I, A>, queue: Seq<Event<I, A>>)
    ensures
        match event {
            Event::Member(e) => event@ == Report::<I, A>::Member(
                e.spec_kind(),
                e.spec_members(),
            ),
            Event::User(e) => event@ == Report::<I, A>::User(e),
            Event::Query(e) => event@ == Report::<I, A>::Query(e),
            Event::QueryResponse(e) => event@ == Report::<I, A>::QueryResponse(e),
            Event::QueryAck(e) => event@ == Report::<I, A>::QueryAck(e),
            Event::Shutdown => event@ is Shutdown,
            Event::RelayDropped(e) => event@ == Report::<I, A>::RelayDropped(e.destination),
            Event::LeftCluster => event@ is LeftCluster,
            Event::DialRequested(e) => event@ == Report::<I, A>::DialRequested(
                e.spec_id(),
                e.spec_peer(),
            ),
            Event::KeyResponse(e) => event@ matches Report::KeyResponse(o) && {
                &&& o.num_nodes == e.num_nodes
                &&& o.num_resp == e.num_resp
                &&& o.num_err == e.num_err
                &&& o.keys == e.keys@
                &&& o.primary_keys == e.primary_keys@
                &&& o.messages == e.messages@
            },
            Event::KeyRequest(e) => event@ == Report::<I, A>::KeyRequest(e),
            Event::ExchangeCompleted(e) => event@ == Report::<I, A>::ExchangeCompleted(e),
        },
        reports(queue).len() == queue.len(),
        forall|i: int| 0 <= i < queue.len() ==> #[trigger] reports(queue)[i] == queue[i]@,
{
}

} // verus!
