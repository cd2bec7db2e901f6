//! Messages between nodes, in plain values.

use crate::clock::LamportTime;
use crate::filter::Filter;
use crate::id::Value;
use crate::octets;
use crate::octets::{bytes_eq, share, str_eq};
use crate::time::Duration;
use bytes::Bytes;
use vstd::prelude::*;

verus! {

/// A node: its id and its address.
#[derive(Debug)]
pub struct Node<I, A> {
    /// The id.
    pub id: I,
    /// The address.
    pub addr: A,
}

impl<I: Value, A: Value> Node<I, A> {
    /// Returns the node with the given id at the given address.
    pub fn new(id: I, addr: A) -> (r: Self)
        ensures
            r == (Node { id, addr }),
    {
        Node { id, addr }
    }

    /// Returns a copy.
    pub fn dup(&self) -> (r: Self)
        ensures
            r == *self,
    {
        Node { id: self.id.dup(), addr: self.addr.dup() }
    }
}

/// Tags of a member: pairs of a key and a value. The first pair with a key
/// counts.
#[derive(Debug)]
pub struct Tags {
    /// The pairs.
    pub entries: Vec<(String, String)>,
}

/// Whether a tag is under `key`.
pub open spec fn tagged(entries: Seq<(String, String)>, key: Seq<char>, i: int) -> bool {
    &&& 0 <= i < entries.len()
    &&& entries[i].0@ == key
    &&& forall|j: int| 0 <= j < i ==> (#[trigger] entries[j]).0@ != key
}

/// The value under `key`.
pub open spec fn tag_value(entries: Seq<(String, String)>, key: Seq<char>) -> Option<Seq<char>> {
    if exists|i: int| #[trigger] tagged(entries, key, i) {
        Some(entries[choose|i: int| #[trigger] tagged(entries, key, i)].1@)
    } else {
        None
    }
}

impl Tags {
    /// Returns no tags.
    pub fn new() -> (r: Self)
        ensures
            r.entries@.len() == 0,
    {
        Tags { entries: Vec::new() }
    }

    /// Returns the value under `key`.
    pub fn get(&self, key: &str) -> (r: Option<&String>)
        ensures
            match r {
                Some(v) => tag_value(self.entries@, key@) == Some(v@),
                None => tag_value(self.entries@, key@) is None,
            },
    {
        let mut i: usize = 0;
        while i < self.entries.len()
            invariant
                i <= self.entries@.len(),
                forall|j: int| 0 <= j < i ==> (#[trigger] self.entries@[j]).0@ != key@,
            decreases self.entries@.len() - i,
        {
            if str_eq(self.entries[i].0.as_str(), key) {
                proof {
                    assert(tagged(self.entries@, key@, i as int));
                    let k = choose|k: int| #[trigger] tagged(self.entries@, key@, k);
                    if k < i {
                        assert(self.entries@[k].0@ != key@);
                    }
                    if i < k {
                        assert(self.entries@[i as int].0@ != key@);
                    }
                }
                return Some(&self.entries[i].1);
            }
            i += 1;
        }
        None
    }
}

/// A key that encrypts gossip, as a number per 128 or 64 bits.
#[derive(Clone, Copy, PartialEq, Eq, Structural, Hash)]
pub enum SecretKey {
    /// A 128-bit AES key.
    Aes128(u128),
    /// A 192-bit AES key.
    Aes192(u128, u64),
    /// A 256-bit AES key.
    Aes256(u128, u128),
    /// A ChaCha20-Poly1305 key.
    ChaCha20Poly1305(u128, u128),
}

impl Value for SecretKey {
    fn same(&self, other: &Self) -> (r: bool) {
        *self == *other
    }

    fn dup(&self) -> (r: Self) {
        *self
    }
}

/// A node announces that `id` joined.
#[derive(Debug)]
pub struct JoinMessage<I> {
    /// When.
    pub ltime: LamportTime,
    /// The node that joined.
    pub id: I,
}

/// A node announces that `id` leaves.
#[derive(Debug)]
pub struct LeaveMessage<I> {
    /// When.
    pub ltime: LamportTime,
    /// The node that leaves.
    pub id: I,
    /// Whether the node is to be forgotten at once.
    pub prune: bool,
}

/// A user event as a ring remembers it: without the time and the flag.
#[derive(Debug)]
pub struct UserEvent {
    /// The name.
    pub name: String,
    /// The payload.
    pub payload: Bytes,
}

/// Whether two user events have the same name and the same payload.
pub open spec fn same_event(a: UserEvent, b: UserEvent) -> bool {
    a.name@ == b.name@ && octets::octets(a.payload) == octets::octets(b.payload)
}

impl UserEvent {
    /// Returns `true` if name and payload are the same.
    pub fn same(&self, other: &Self) -> (r: bool)
        ensures
            r == same_event(*self, *other),
    {
        self.name == other.name && bytes_eq(&self.payload, &other.payload)
    }

    /// Returns a copy.
    pub fn dup(&self) -> (r: Self)
        ensures
            r == *self,
    {
        UserEvent { name: self.name.clone(), payload: share(&self.payload) }
    }
}

/// The user events of one Lamport time.
#[derive(Debug)]
pub struct UserEvents {
    /// The time.
    pub ltime: LamportTime,
    /// The events.
    pub events: Vec<UserEvent>,
}

/// A user event on its way.
#[derive(Debug)]
pub struct UserEventMessage {
    /// When it was fired.
    pub ltime: LamportTime,
    /// Whether a newer event of the same name may stand for it.
    pub cc: bool,
    /// The name.
    pub name: String,
    /// The payload.
    pub payload: Bytes,
}

impl UserEventMessage {
    /// Returns a copy.
    pub fn dup(&self) -> (r: Self)
        ensures
            r == *self,
    {
        UserEventMessage {
            ltime: self.ltime,
            cc: self.cc,
            name: self.name.clone(),
            payload: share(&self.payload),
        }
    }
}

/// Flags of a query or of a response.
#[derive(Debug, Clone, Copy, PartialEq, Eq, Structural)]
pub struct QueryFlag {
    /// An acknowledgement is asked for, or this is one.
    pub ack: bool,
    /// The query is not to be rebroadcast.
    pub no_broadcast: bool,
}

impl QueryFlag {
    /// No flag.
    pub open spec fn spec_empty() -> Self {
        QueryFlag { ack: false, no_broadcast: false }
    }

    /// The acknowledgement flag alone.
    pub open spec fn spec_ack() -> Self {
        QueryFlag { ack: true, no_broadcast: false }
    }

    /// Returns no flag.
    pub fn empty() -> (r: Self)
        ensures
            r == Self::spec_empty(),
    {
        QueryFlag { ack: false, no_broadcast: false }
    }

    /// Returns the acknowledgement flag alone.
    pub fn ack_only() -> (r: Self)
        ensures
            r == Self::spec_ack(),
    {
        QueryFlag { ack: true, no_broadcast: false }
    }
}

/// A query on its way.
#[derive(Debug)]
pub struct QueryMessage<I, A> {
    /// The query clock of the node that asks.
    pub ltime: LamportTime,
    /// A number drawn by the node that asks.
    pub id: u32,
    /// The node that asks.
    pub from: Node<I, A>,
    /// Who is asked; everyone, if there is no filter.
    pub filters: Vec<Filter<I>>,
    /// The flags.
    pub flags: QueryFlag,
    /// How many nodes are to relay a response.
    pub relay_factor: u8,
    /// How long a response is useful.
    pub timeout: Duration,
    /// The name.
    pub name: String,
    /// The payload.
    pub payload: Bytes,
}

/// A response to a query, or an acknowledgement of it.
#[derive(Debug)]
pub struct QueryResponseMessage<I, A> {
    /// The time of the query.
    pub ltime: LamportTime,
    /// The number of the query.
    pub id: u32,
    /// The node that responds.
    pub from: Node<I, A>,
    /// The flags.
    pub flags: QueryFlag,
    /// The payload.
    pub payload: Bytes,
}

/// A frame that is passed on to a node through another.
#[derive(Debug)]
pub struct RelayMessage<I, A> {
    /// Where the frame is to go.
    pub destination: Node<I, A>,
    /// The frame.
    pub payload: Bytes,
}

/// What a node knows, for another to merge.
#[derive(Debug)]
pub struct PushPullMessage<I> {
    /// The member clock.
    pub ltime: LamportTime,
    /// The status time of each member.
    pub status_ltimes: Vec<(I, LamportTime)>,
    /// The members that left.
    pub left_members: Vec<I>,
    /// The event clock.
    pub event_ltime: LamportTime,
    /// The remembered user events.
    pub events: Vec<UserEvents>,
    /// The query clock.
    pub query_ltime: LamportTime,
}

/// A node says whom it knows under an id in conflict.
#[derive(Debug)]
pub struct ConflictResponseMessage<I, A> {
    /// The member.
    pub member: Node<I, A>,
}

/// A request to change or list keys.
pub struct KeyRequestMessage {
    /// The key, where the operation has one.
    pub key: Option<SecretKey>,
}

/// The answer of one node to a request about keys.
pub struct KeyResponseMessage {
    /// Whether the operation succeeded.
    pub result: bool,
    /// What went wrong.
    pub message: String,
    /// The installed keys.
    pub keys: Vec<SecretKey>,
    /// The primary key.
    pub primary_key: Option<SecretKey>,
}

/// Any message.
pub enum AnyMessage<I, A> {
    /// A user event.
    UserEvent(UserEventMessage),
    /// A join intent.
    Join(JoinMessage<I>),
    /// A leave intent.
    Leave(LeaveMessage<I>),
    /// The state of a node.
    PushPull(PushPullMessage<I>),
    /// A query.
    Query(QueryMessage<I, A>),
    /// A response to a query.
    QueryResponse(QueryResponseMessage<I, A>),
    /// A frame to pass on.
    Relay(RelayMessage<I, A>),
    /// An answer about an id in conflict.
    ConflictResponse(ConflictResponseMessage<I, A>),
    /// A request about keys.
    KeyRequest(KeyRequestMessage),
    /// An answer about keys.
    KeyResponse(KeyResponseMessage),
}

/// The type of a message, as the head of its frame names it.
#[derive(Debug, Clone, Copy, PartialEq, Eq, Structural)]
pub enum MessageType {
    /// A user event.
    UserEvent,
    /// A join intent.
    Join,
    /// A leave intent.
    Leave,
    /// The state of a node.
    PushPull,
    /// A query.
    Query,
    /// A response to a query.
    QueryResponse,
    /// A frame to pass on.
    Relay,
    /// An answer about an id in conflict.
    ConflictResponse,
    /// A request about keys.
    KeyRequest,
    /// An answer about keys.
    KeyResponse,
}

/// What a snapshot on disk says of the node before it stopped.
#[derive(Debug)]
pub struct ReplayResult<I, A> {
    /// The members that were alive.
    pub alive_nodes: Vec<Node<I, A>>,
    /// The member clock.
    pub last_clock: LamportTime,
    /// The event clock.
    pub last_event_clock: LamportTime,
    /// The query clock.
    pub last_query_clock: LamportTime,
}

/// No flag says nothing, and the acknowledgement flag says that alone.
pub proof fn flags_stand_alone()
    ensures
        !QueryFlag::spec_empty().ack,
        !QueryFlag::spec_empty().no_broadcast,
        QueryFlag::spec_ack().ack,
        !QueryFlag::spec_ack().no_broadcast,
{
}

} // verus!
