//! What the machine asks of its driver.
//!
//! The machine sends nothing and dials no one. It puts what is to be done on a
//! queue, and the driver does it with the coordinator of the membership layer.

use crate::clock::LamportTime;
use crate::time::Duration;
use crate::typed::{AnyMessage, Node, RelayMessage};
use bytes::Bytes;
use vstd::prelude::*;

verus! {

/// The tier of intents, which go first.
pub const INTENT_RANK: u8 = 0;

/// The tier of queries.
pub const QUERY_RANK: u8 = 1;

/// The tier of user events, which go last.
pub const EVENT_RANK: u8 = 2;

/// What the machine reads of the coordinator.
#[derive(Debug)]
pub struct Coordinator<I, A> {
    /// This node: its id and the address that it advertises.
    pub local: Node<I, A>,
    /// How many broadcasts are queued.
    pub queue_len: usize,
}

/// What is sent. A frame that cannot be encoded is dropped.
pub enum Frame<I, A> {
    /// Bytes as they are.
    Ready(Bytes),
    /// A message, to be encoded.
    Message(AnyMessage<I, A>),
    /// A response to a query, to be encoded with an encoded message as its payload.
    Answer {
        /// The time of the query.
        ltime: LamportTime,
        /// The number of the query.
        id: u32,
        /// The node that responds.
        from: Node<I, A>,
        /// The message.
        message: AnyMessage<I, A>,
    },
}

/// What is to be done.
pub enum Action<I, A> {
    /// Queue a broadcast on a tier. A refusal is ignored, but for a user event that the
    /// application fires, which is then answered with it.
    Broadcast {
        /// The tier.
        rank: u8,
        /// The frame.
        frame: Frame<I, A>,
    },
    /// Send a packet. A failure is ignored.
    Send {
        /// Where to.
        to: A,
        /// The frame.
        frame: Frame<I, A>,
    },
    /// Ask a node to relay a message. A failure to send to that node is reported back, a
    /// failure to encode is ignored.
    Relay {
        /// The node that is to relay.
        to: A,
        /// The message.
        message: RelayMessage<I, A>,
    },
    /// Pass the bytes on for another node. A failure is reported back.
    Forward {
        /// Where to.
        to: A,
        /// The bytes.
        payload: Bytes,
    },
    /// Start an exchange of state with a peer, as one that joins.
    PushPull {
        /// The peer.
        peer: A,
    },
    /// Forget the coordinate of a node.
    ForgetCoordinate {
        /// The node.
        id: I,
    },
    /// Take a round trip into account for the coordinate of this node.
    UpdateCoordinate {
        /// The node that answered.
        id: I,
        /// How long the round trip took.
        rtt: Duration,
        /// What came with the answer: a version byte, and the encoded coordinate of that
        /// node.
        payload: Bytes,
    },
}

} // verus!
