//! Queries: what is kept of those that this node asked and of those that it has
//! still to respond to, and why an operation is refused.

use crate::clock::LamportTime;
use crate::filter::Filter;
use crate::id::Value;
use crate::members::SerfState;
use crate::time::{Duration, Instant};
use crate::typed::SecretKey;
use crate::vecmap::VecMap;
use vstd::prelude::*;

verus! {

/// How many received queries may wait for a response.
pub const MAX_RECEIVED_QUERIES: usize = 2048;

/// The longest time for which a received query waits for a response.
pub const MAX_QUERY_TIMEOUT: Duration = 600_000_000_000;

/// Where a query comes from.
#[derive(Debug, Clone, Copy, PartialEq, Eq, Structural)]
pub enum QueryOrigin {
    /// A peer. The number of such queries is limited.
    Inbound,
    /// This node.
    Local,
}

/// What tells queries apart.
#[derive(Debug, Clone, Copy, PartialEq, Eq, Structural, Hash)]
pub struct QueryId {
    /// What the query clock read when the query was asked.
    pub ltime: LamportTime,
    /// A number drawn at random.
    pub id: u32,
}

impl Value for QueryId {
    fn same(&self, other: &Self) -> (r: bool) {
        *self == *other
    }

    fn dup(&self) -> (r: Self) {
        *self
    }
}

/// How a query is asked.
#[derive(Debug)]
pub struct QueryParams<I> {
    /// Who is asked; everyone, if there is no filter.
    pub filters: Vec<Filter<I>>,
    /// How many nodes are to relay a response.
    pub relay_factor: u8,
    /// Whether acknowledgements are asked for.
    pub request_ack: bool,
    /// How long a response is of use; zero for a time that grows with the cluster.
    pub timeout: Duration,
}

impl<I> QueryParams<I> {
    /// Returns what asks everyone, without relays and acknowledgements.
    pub fn new() -> (r: Self)
        ensures
            r.filters@.len() == 0,
            r.relay_factor == 0,
            !r.request_ack,
            r.timeout == 0,
    {
        QueryParams { filters: Vec::new(), relay_factor: 0, request_ack: false, timeout: 0 }
    }
}

/// What a query is for.
#[derive(Debug, Clone, Copy, PartialEq, Eq, Structural)]
pub enum QueryPurpose {
    /// The application asks.
    App,
    /// A conflict about the id of this node is put to the vote.
    Conflict,
    /// Keys are changed or listed.
    Key,
}

/// The count after one more; the largest count of all stays.
pub open spec fn one_more(n: usize) -> usize {
    if n < usize::MAX {
        (n + 1) as usize
    } else {
        n
    }
}

/// What the responses about keys add up to.
pub struct KeyResponseTally<I> {
    /// How many nodes reported a failure.
    pub num_err: usize,
    /// How many nodes reported each key.
    pub keys: VecMap<SecretKey, usize>,
    /// How many nodes reported each key as their primary key.
    pub primary_keys: VecMap<SecretKey, usize>,
    /// What the nodes that failed said.
    pub messages: VecMap<I, String>,
}

/// What a [`KeyResponseTally`] says.
#[verifier::ext_equal]
#[verifier::reject_recursive_types(I)]
pub struct Tally<I> {
    /// How many nodes reported a failure.
    pub num_err: usize,
    /// How many nodes reported each key.
    pub keys: Map<SecretKey, usize>,
    /// How many nodes reported each key as their primary key.
    pub primary_keys: Map<SecretKey, usize>,
    /// What the nodes that failed said.
    pub messages: Map<I, String>,
}

impl<I> View for KeyResponseTally<I> {
    type V = Tally<I>;

    open spec fn view(&self) -> Tally<I> {
        Tally {
            num_err: self.num_err,
            keys: self.keys@,
            primary_keys: self.primary_keys@,
            messages: self.messages@,
        }
    }
}

impl<I> Tally<I> {
    /// The tally of no response.
    pub open spec fn empty() -> Self {
        Tally {
            num_err: 0,
            keys: Map::empty(),
            primary_keys: Map::empty(),
            messages: Map::empty(),
        }
    }
}

impl<I: Value> KeyResponseTally<I> {
    /// Returns the tally of no response.
    pub fn new() -> (r: Self)
        ensures
            r@ == Tally::<I>::empty(),
    {
        KeyResponseTally {
            num_err: 0,
            keys: VecMap::new(),
            primary_keys: VecMap::new(),
            messages: VecMap::new(),
        }
    }
}

/// A query that this node asked and whose deadline has not passed.
pub struct PendingQuery<I> {
    /// What it is for.
    pub kind: QueryPurpose,
    /// Until when a response counts.
    pub deadline: Instant,
    /// The nodes that responded.
    pub responses: Vec<I>,
    /// The nodes that acknowledged.
    pub acks: Vec<I>,
    /// Which query it is.
    pub query_id: QueryId,
    /// Whether acknowledgements were asked for.
    pub request_ack: bool,
    /// How many nodes know this node under its id.
    pub conflict_matching: usize,
    /// How many members there were when a query about keys was asked.
    pub num_nodes: usize,
    /// What the responses about keys add up to.
    pub key_tally: Option<KeyResponseTally<I>>,
}

/// What a [`PendingQuery`] says.
#[verifier::ext_equal]
#[verifier::reject_recursive_types(I)]
pub struct Pending<I> {
    /// What it is for.
    pub kind: QueryPurpose,
    /// Until when a response counts.
    pub deadline: Instant,
    /// The nodes that responded.
    pub responses: Seq<I>,
    /// The nodes that acknowledged.
    pub acks: Seq<I>,
    /// Which query it is.
    pub query_id: QueryId,
    /// Whether acknowledgements were asked for.
    pub request_ack: bool,
    /// How many nodes know this node under its id.
    pub conflict_matching: usize,
    /// How many members there were when a query about keys was asked.
    pub num_nodes: usize,
    /// What the responses about keys add up to.
    pub tally: Option<Tally<I>>,
}

/// What an optional tally says.
pub open spec fn tally_view<I>(tally: Option<KeyResponseTally<I>>) -> Option<Tally<I>> {
    match tally {
        Some(t) => Some(t@),
        None => None,
    }
}

impl<I> View for PendingQuery<I> {
    type V = Pending<I>;

    open spec fn view(&self) -> Pending<I> {
        Pending {
            kind: self.kind,
            deadline: self.deadline,
            responses: self.responses@,
            acks: self.acks@,
            query_id: self.query_id,
            request_ack: self.request_ack,
            conflict_matching: self.conflict_matching,
            num_nodes: self.num_nodes,
            tally: tally_view(self.key_tally),
        }
    }
}

impl<I> Pending<I> {
    /// A query that was just asked.
    pub open spec fn asked(
        kind: QueryPurpose,
        deadline: Instant,
        query_id: QueryId,
        request_ack: bool,
        num_nodes: usize,
    ) -> Self {
        Pending {
            kind,
            deadline,
            responses: Seq::empty(),
            acks: Seq::empty(),
            query_id,
            request_ack,
            conflict_matching: 0,
            num_nodes: if kind is Key {
                num_nodes
            } else {
                0
            },
            tally: if kind is Key {
                Some(Tally::empty())
            } else {
                None
            },
        }
    }
}

impl<I: Value> PendingQuery<I> {
    /// Returns a query that was just asked, where there are `num_nodes` members.
    pub fn new(
        kind: QueryPurpose,
        deadline: Instant,
        query_id: QueryId,
        request_ack: bool,
        num_nodes: usize,
    ) -> (r: Self)
        ensures
            r@ == Pending::<I>::asked(kind, deadline, query_id, request_ack, num_nodes),
    {
        let key = matches!(kind, QueryPurpose::Key);
        PendingQuery {
            kind,
            deadline,
            responses: Vec::new(),
            acks: Vec::new(),
            query_id,
            request_ack,
            conflict_matching: 0,
            num_nodes: if key {
                num_nodes
            } else {
                0
            },
            key_tally: if key {
                Some(KeyResponseTally::new())
            } else {
                None
            },
        }
    }
}

/// A query that waits for this node to respond.
#[derive(Debug)]
pub struct ReceivedQuery<A> {
    /// The address of the node that asks.
    pub from: A,
    /// Until when a response is of use.
    pub deadline: Instant,
}

/// Why an operation is refused.
#[derive(Debug, Clone, Copy, PartialEq, Eq, Structural)]
pub enum Error {
    /// The node cannot leave, or make another leave, in this state.
    BadLeaveState(SerfState),
    /// The member clock is at the end of its range, so that no leave can be stamped.
    LeaveClockExhausted,
    /// The node cannot announce that it joined in this state.
    BadJoinState(SerfState),
    /// The machine was shut down.
    Shutdown,
    /// The coordinator refused.
    InnerLeave,
    /// A user event has this many bytes, more than the second number allows.
    UserEventTooLarge(usize, usize),
    /// A message could not be encoded.
    UserEventEncode,
    /// A query has this many bytes, more than the second number allows.
    QueryTooLarge(usize, usize),
    /// A response has this many bytes, more than the second number allows.
    RespondTooLarge(usize, usize),
    /// The query was responded to, or is no longer known.
    AlreadyResponded,
    /// The deadline of the query has passed.
    RespondAfterDeadline,
    /// A response could not be encoded.
    RespondEncode,
    /// A response could not be sent; it may be tried again.
    RespondSend,
    /// A filter holds an expression that cannot be compiled.
    InvalidQueryFilter,
    /// The tags take this many bytes, more than the second number allows.
    SetTagsMeta(usize, usize),
}

} // verus!
