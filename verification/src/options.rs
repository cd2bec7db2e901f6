//! Configuration.

use crate::time::Duration;
use vstd::prelude::*;

verus! {

/// The shortest interval at which periodic work is done.
pub const MIN_INTERVAL: Duration = 1_000_000;

/// The interval at which periodic work is done that was configured to be done every
/// `interval`. It is never zero, so that a tick always moves on.
pub open spec fn paced(interval: Duration) -> Duration {
    if interval >= MIN_INTERVAL {
        interval
    } else {
        MIN_INTERVAL
    }
}

fn pace(interval: Duration) -> (r: Duration)
    ensures
        r == paced(interval),
{
    if interval >= MIN_INTERVAL {
        interval
    } else {
        MIN_INTERVAL
    }
}

/// What a node can be told about its limits, its intervals and its timeouts.
#[derive(Debug, Clone, Copy, PartialEq, Eq, Structural)]
pub struct Options {
    /// How often departed members are reaped.
    pub reap_interval: Duration,
    /// How often a failed member is dialled again.
    pub reconnect_interval: Duration,
    /// How often the depth of the broadcast queue is looked at.
    pub queue_check_interval: Duration,
    /// How long a failed member is kept.
    pub reconnect_timeout: Duration,
    /// How long a member that left is kept.
    pub tombstone_timeout: Duration,
    /// How long an intent for an unknown node is kept.
    pub recent_intent_timeout: Duration,
    /// How long a leave intent may take to go out.
    pub broadcast_timeout: Duration,
    /// How long a leave waits for the farewell to spread.
    pub leave_propagate_delay: Duration,
    /// Slots of the ring that remembers user events.
    pub event_buffer_size: usize,
    /// Slots of the ring that remembers queries.
    pub query_buffer_size: usize,
    /// The largest user event, in bytes.
    pub max_user_event_size: usize,
    /// The largest query, in bytes.
    pub query_size_limit: usize,
    /// The largest response to a query, in bytes.
    pub query_response_size_limit: usize,
    /// Factor of the default timeout of a query.
    pub query_timeout_mult: u32,
    /// The depth of the broadcast queue beyond which nothing is rebroadcast.
    pub max_queue_depth: usize,
    /// Where not zero, the depth grows with the cluster and is at least this.
    pub min_queue_depth: usize,
    /// Whether a conflict about the local id is put to a vote.
    pub enable_id_conflict_resolution: bool,
    /// Whether network coordinates are left out.
    pub disable_coordinates: bool,
    /// The longest time for which membership events are held back; zero delivers
    /// them at once.
    pub coalesce_period: Duration,
    /// How long membership events must pause before they are delivered.
    pub quiescent_period: Duration,
    /// The longest time for which user events are held back; zero delivers them
    /// at once.
    pub user_coalesce_period: Duration,
    /// How long user events must pause before they are delivered.
    pub user_quiescent_period: Duration,
    /// How many user events are held back at most.
    pub max_coalesced_user_events: usize,
}

/// The configuration that a node has unless it is told otherwise.
pub open spec fn default_options() -> Options {
    Options {
        reap_interval: 15_000_000_000,
        reconnect_interval: 30_000_000_000,
        queue_check_interval: 30_000_000_000,
        reconnect_timeout: 86_400_000_000_000,
        tombstone_timeout: 86_400_000_000_000,
        recent_intent_timeout: 600_000_000_000,
        broadcast_timeout: 5_000_000_000,
        leave_propagate_delay: 1_000_000_000,
        event_buffer_size: 512,
        query_buffer_size: 512,
        max_user_event_size: 512,
        query_size_limit: 1024,
        query_response_size_limit: 1024,
        query_timeout_mult: 16,
        max_queue_depth: 4096,
        min_queue_depth: 0,
        enable_id_conflict_resolution: true,
        disable_coordinates: true,
        coalesce_period: 0,
        quiescent_period: 0,
        user_coalesce_period: 0,
        user_quiescent_period: 0,
        max_coalesced_user_events: 4096,
    }
}

impl Options {
    /// Returns the default configuration.
    pub fn new() -> (r: Self)
        ensures
            r == default_options(),
    {
        Options {
            reap_interval: 15_000_000_000,
            reconnect_interval: 30_000_000_000,
            queue_check_interval: 30_000_000_000,
            reconnect_timeout: 86_400_000_000_000,
            tombstone_timeout: 86_400_000_000_000,
            recent_intent_timeout: 600_000_000_000,
            broadcast_timeout: 5_000_000_000,
            leave_propagate_delay: 1_000_000_000,
            event_buffer_size: 512,
            query_buffer_size: 512,
            max_user_event_size: 512,
            query_size_limit: 1024,
            query_response_size_limit: 1024,
            query_timeout_mult: 16,
            max_queue_depth: 4096,
            min_queue_depth: 0,
            enable_id_conflict_resolution: true,
            disable_coordinates: true,
            coalesce_period: 0,
            quiescent_period: 0,
            user_coalesce_period: 0,
            user_quiescent_period: 0,
            max_coalesced_user_events: 4096,
        }
    }

    /// Returns how often departed members are reaped.
    pub fn reap_interval(&self) -> (r: Duration)
        ensures
            r == paced(self.reap_interval),
    {
        pace(self.reap_interval)
    }

    /// Returns how often a failed member is dialled again.
    pub fn reconnect_interval(&self) -> (r: Duration)
        ensures
            r == paced(self.reconnect_interval),
    {
        pace(self.reconnect_interval)
    }

    /// Returns how often the depth of the broadcast queue is looked at.
    pub fn queue_check_interval(&self) -> (r: Duration)
        ensures
            r == paced(self.queue_check_interval),
    {
        pace(self.queue_check_interval)
    }

    /// Whether membership events are held back.
    pub open spec fn member_coalescing(self) -> bool {
        self.coalesce_period > 0 && self.quiescent_period > 0
    }

    /// Whether user events are held back.
    pub open spec fn user_coalescing(self) -> bool {
        self.user_coalesce_period > 0 && self.user_quiescent_period > 0
    }

    /// Returns `true` if membership events are held back.
    pub fn member_coalesce_enabled(&self) -> (r: bool)
        ensures
            r == self.member_coalescing(),
    {
        self.coalesce_period > 0 && self.quiescent_period > 0
    }

    /// Returns `true` if user events are held back.
    pub fn user_coalesce_enabled(&self) -> (r: bool)
        ensures
            r == self.user_coalescing(),
    {
        self.user_coalesce_period > 0 && self.user_quiescent_period > 0
    }
}

/// Periodic work is done as often as configured, but never more often than once in a
/// millisecond. Reports are held back exactly if both periods are set.
pub proof fn periodic_work_is_paced(interval: Duration, opts: Options)
    ensures
        interval >= 1_000_000 ==> paced(interval) == interval,
        interval < 1_000_000 ==> paced(interval) == 1_000_000,
        opts.member_coalescing() <==> opts.coalesce_period != 0 && opts.quiescent_period != 0,
        opts.user_coalescing() <==> opts.user_coalesce_period != 0 && opts.user_quiescent_period
            != 0,
{
}

} // verus!
