//! The machine: membership, user events, queries and their clocks.
//!
//! An [`Endpoint`] holds all state and does no I/O. Every instant is handed in. What
//! it learns goes to a queue of reports for the application, what it wants done to
//! a queue of actions for the driver.

pub mod answers;
pub mod asking;
pub mod bounds;
pub mod changes;
pub mod commands;
pub mod emit;
pub mod exchange;
pub mod gossip;
pub mod inquiry;
pub mod ingress;
pub mod laws;
pub mod membership;
pub mod progress;
pub mod queries;
pub mod relay;
pub mod responses;
pub mod roster;
pub mod routine;
pub mod tick;
pub mod user_events;

use crate::action::Action;
use crate::buffers;
use crate::buffers::{EventBuffer, EventRing, QueryBuffer, QueryRing};
use crate::coalesce::{Backlog, Batch, MemberEventCoalescer, UserEventCoalescer, Window};
use crate::entropy::seeded;
use crate::event;
use crate::event::{Event, Report, StreamId};
use crate::id::{Id, Value};
use crate::members::{Member, MemberState, Members, NodeIntent, SerfState};
use crate::options;
use crate::options::Options;
use crate::query::{Error, Pending, PendingQuery, QueryId, ReceivedQuery};
use crate::time;
use crate::time::{add_duration, Duration, Instant, ORIGIN};
use crate::vecmap;
use crate::vecmap::VecMap;
use rand::rngs::SmallRng;
use std::collections::VecDeque;
use std::sync::Arc;
use vstd::prelude::*;

verus! {

/// Says how long a member that failed or left is kept.
pub trait ReconnectDelegate<I, A> {
    /// How long a member is kept, where `base` is what the configuration says.
    spec fn timeout_for(&self, member: Member<I, A>, base: Duration) -> Duration;

    /// Returns how long a member is kept, where `base` is what the configuration
    /// says.
    fn reconnect_timeout(&self, member: &Member<I, A>, base: Duration) -> (r: Duration)
        ensures
            r == self.timeout_for(*member, base),
    ;
}

/// Keeps every member for as long as the configuration says.
#[derive(Debug, Clone, Copy, PartialEq, Eq, Structural)]
pub struct FlatTimeouts;

impl<I, A> ReconnectDelegate<I, A> for FlatTimeouts {
    open spec fn timeout_for(&self, member: Member<I, A>, base: Duration) -> Duration {
        base
    }

    fn reconnect_timeout(&self, member: &Member<I, A>, base: Duration) -> (r: Duration) {
        base
    }
}

/// The machine.
pub struct Endpoint<I: Id, A: Value, G> {
    /// The configuration.
    pub opts: Options,
    /// The member clock.
    pub clock: u64,
    /// The event clock.
    pub event_clock: u64,
    /// The query clock.
    pub query_clock: u64,
    /// The members.
    pub members: Members<I, A>,
    /// The state of this node.
    pub state: SerfState,
    /// Where random numbers are drawn.
    pub rng: SmallRng,
    /// When departed members are reaped next.
    pub next_reap: Option<Instant>,
    /// When a failed member is dialled next.
    pub next_reconnect: Option<Instant>,
    /// When the depth of the broadcast queue is looked at next.
    pub next_queue_check: Option<Instant>,
    /// Until when a leave intent may take to go out.
    pub leave_broadcast_deadline: Option<Instant>,
    /// When a leave is complete.
    pub leave_complete_deadline: Option<Instant>,
    /// The user events that were seen.
    pub event_buffer: EventBuffer,
    /// The queries that were seen.
    pub query_buffer: QueryBuffer,
    /// The queries that this node asked.
    pub pending_queries: Vec<PendingQuery<I>>,
    /// The queries that wait for a response of this node.
    pub received_queries: VecMap<QueryId, ReceivedQuery<A>>,
    /// The reports for the application.
    pub pending_events: VecDeque<Event<I, A>>,
    /// The membership events that are held back, where they are.
    pub member_coalescer: Option<MemberEventCoalescer<I, A>>,
    /// The user events that are held back, where they are.
    pub user_coalescer: Option<UserEventCoalescer>,
    /// How many user events were lost for want of room.
    pub user_drop: u64,
    /// How many membership events were lost for want of room.
    pub member_drop: u64,
    /// Who says how long departed members are kept.
    pub reconnect_delegate: Option<G>,
    /// The latest instant that was handed in.
    pub drain_now: Instant,
    /// The latest instant that any held-back event was timed by.
    pub coalesce_now: Instant,
    /// Whether what peers are told of the state is out of date.
    pub local_state_dirty: bool,
    /// The exchanges whose merge does not replay earlier user events.
    pub ignore_join_streams: Vec<StreamId>,
    /// What is asked of the driver.
    pub actions: VecDeque<Action<I, A>>,
}

/// What an [`Endpoint`] is.
#[verifier::ext_equal]
#[verifier::reject_recursive_types(I)]
pub struct Machine<I, A, G> {
    /// The configuration.
    pub opts: Options,
    /// The member clock.
    pub clock: u64,
    /// The event clock.
    pub event_clock: u64,
    /// The query clock.
    pub query_clock: u64,
    /// The members.
    pub states: Map<I, MemberState<I, A>>,
    /// The members that left.
    pub left: Seq<I>,
    /// The members that failed.
    pub failed: Seq<I>,
    /// The latest intent for each node that is not a member.
    pub intents: Map<I, NodeIntent>,
    /// The state of this node.
    pub state: SerfState,
    /// The source of random numbers. What it draws is not modelled.
    pub rng: SmallRng,
    /// When departed members are reaped next.
    pub next_reap: Option<Instant>,
    /// When a failed member is dialled next.
    pub next_reconnect: Option<Instant>,
    /// When the depth of the broadcast queue is looked at next.
    pub next_queue_check: Option<Instant>,
    /// Until when a leave intent may take to go out.
    pub leave_broadcast_deadline: Option<Instant>,
    /// When a leave is complete.
    pub leave_complete_deadline: Option<Instant>,
    /// The user events that were seen.
    pub seen_events: EventRing,
    /// The queries that were seen.
    pub seen_queries: QueryRing,
    /// The queries that this node asked.
    pub pending: Seq<Pending<I>>,
    /// The queries that wait for a response of this node.
    pub received: Map<QueryId, ReceivedQuery<A>>,
    /// The reports for the application.
    pub reports: Seq<Report<I, A>>,
    /// The membership events that are held back, where they are.
    pub batch: Option<Batch<I, A>>,
    /// The user events that are held back, where they are.
    pub backlog: Option<Backlog>,
    /// How many user events were lost for want of room.
    pub user_drop: u64,
    /// How many membership events were lost for want of room.
    pub member_drop: u64,
    /// Who says how long departed members are kept.
    pub delegate: Option<G>,
    /// The latest instant that was handed in.
    pub drain_now: Instant,
    /// The latest instant that any held-back event was timed by.
    pub coalesce_now: Instant,
    /// Whether what peers are told of the state is out of date.
    pub dirty: bool,
    /// The exchanges whose merge does not replay earlier user events.
    pub ignored: Seq<StreamId>,
    /// What is asked of the driver.
    pub actions: Seq<Action<I, A>>,
}

/// What the queries that a node asked are.
pub open spec fn pending_view<I>(queries: Seq<PendingQuery<I>>) -> Seq<Pending<I>> {
    Seq::new(queries.len(), |i: int| queries[i]@)
}

/// What is held back of the membership events.
pub open spec fn batch_view<I, A>(c: Option<MemberEventCoalescer<I, A>>) -> Option<Batch<I, A>> {
    match c {
        Some(c) => Some(c@),
        None => None,
    }
}

/// What is held back of the user events.
pub open spec fn backlog_view(c: Option<UserEventCoalescer>) -> Option<Backlog> {
    match c {
        Some(c) => Some(c@),
        None => None,
    }
}

impl<I: Id, A: Value, G> View for Endpoint<I, A, G> {
    type V = Machine<I, A, G>;

    open spec fn view(&self) -> Machine<I, A, G> {
        Machine {
            opts: self.opts,
            clock: self.clock,
            event_clock: self.event_clock,
            query_clock: self.query_clock,
            states: self.members.states@,
            left: self.members.left_members@,
            failed: self.members.failed_members@,
            intents: self.members.recent_intents@,
            state: self.state,
            rng: self.rng,
            next_reap: self.next_reap,
            next_reconnect: self.next_reconnect,
            next_queue_check: self.next_queue_check,
            leave_broadcast_deadline: self.leave_broadcast_deadline,
            leave_complete_deadline: self.leave_complete_deadline,
            seen_events: self.event_buffer@,
            seen_queries: self.query_buffer@,
            pending: pending_view(self.pending_queries@),
            received: self.received_queries@,
            reports: event::reports(self.pending_events@),
            batch: batch_view(self.member_coalescer),
            backlog: backlog_view(self.user_coalescer),
            user_drop: self.user_drop,
            member_drop: self.member_drop,
            delegate: self.reconnect_delegate,
            drain_now: self.drain_now,
            coalesce_now: self.coalesce_now,
            dirty: self.local_state_dirty,
            ignored: self.ignore_join_streams@,
            actions: self.actions@,
        }
    }
}

impl<I, A, G> Machine<I, A, G> {
    /// A machine that has seen nothing yet and draws from `rng`.
    pub open spec fn initial(
        opts: Options,
        rng: SmallRng,
        user_drop: u64,
        member_drop: u64,
    ) -> Self {
        Machine {
            opts,
            clock: 0,
            event_clock: 0,
            query_clock: 0,
            states: Map::empty(),
            left: Seq::empty(),
            failed: Seq::empty(),
            intents: Map::empty(),
            state: SerfState::Alive,
            rng,
            next_reap: Some(time::later(ORIGIN, options::paced(opts.reap_interval))),
            next_reconnect: Some(time::later(ORIGIN, options::paced(opts.reconnect_interval))),
            next_queue_check: Some(
                time::later(ORIGIN, options::paced(opts.queue_check_interval)),
            ),
            leave_broadcast_deadline: None,
            leave_complete_deadline: None,
            seen_events: buffers::empty_event_ring(opts.event_buffer_size),
            seen_queries: buffers::empty_query_ring(opts.query_buffer_size),
            pending: Seq::empty(),
            received: Map::empty(),
            reports: Seq::empty(),
            batch: if opts.member_coalescing() {
                Some(
                    Batch {
                        window: Window::closed(opts.coalesce_period, opts.quiescent_period),
                        changes: Seq::empty(),
                    },
                )
            } else {
                None
            },
            backlog: if opts.user_coalescing() {
                Some(
                    Backlog {
                        window: Window::closed(
                            opts.user_coalesce_period,
                            opts.user_quiescent_period,
                        ),
                        limit: opts.max_coalesced_user_events,
                        events: Seq::empty(),
                    },
                )
            } else {
                None
            },
            user_drop,
            member_drop,
            delegate: None,
            drain_now: ORIGIN,
            coalesce_now: ORIGIN,
            dirty: true,
            ignored: Seq::empty(),
            actions: Seq::empty(),
        }
    }

    /// The machine after draws that left the source of random numbers at `rng`.
    pub open spec fn drawing(self, rng: SmallRng) -> Self {
        Machine { rng, ..self }
    }

    /// The machine with one more report.
    pub open spec fn reporting(self, report: Report<I, A>) -> Self {
        Machine { reports: self.reports.push(report), ..self }
    }

    /// The report that waits longest.
    pub open spec fn oldest_report(self) -> Option<Report<I, A>> {
        if self.reports.len() > 0 {
            Some(self.reports[0])
        } else {
            None
        }
    }

    /// The machine after the report that waits longest was taken.
    pub open spec fn without_oldest_report(self) -> Self {
        if self.reports.len() > 0 {
            Machine { reports: self.reports.drop_first(), ..self }
        } else {
            self
        }
    }

    /// The action that waits longest.
    pub open spec fn oldest_action(self) -> Option<Action<I, A>> {
        if self.actions.len() > 0 {
            Some(self.actions[0])
        } else {
            None
        }
    }

    /// The machine after the action that waits longest was taken.
    pub open spec fn without_oldest_action(self) -> Self {
        if self.actions.len() > 0 {
            Machine { actions: self.actions.drop_first(), ..self }
        } else {
            self
        }
    }

    /// The machine that asks for one more action.
    pub open spec fn asking(self, action: Action<I, A>) -> Self {
        Machine { actions: self.actions.push(action), ..self }
    }

    /// The machine at a later instant.
    pub open spec fn at(self, now: Instant) -> Self {
        Machine { drain_now: now, ..self }
    }

    /// The machine whose state is news to its peers.
    pub open spec fn dirtied(self) -> Self {
        Machine { dirty: true, ..self }
    }

    /// Whether the machine was shut down.
    pub open spec fn is_down(self) -> bool {
        self.state is Shutdown
    }

    /// The earliest deadline of a query that this node asked.
    pub open spec fn earliest_close(pending: Seq<Pending<I>>) -> Option<Instant>
        decreases pending.len(),
    {
        if pending.len() == 0 {
            None
        } else {
            time::earliest_armed(
                Self::earliest_close(pending.drop_last()),
                Some(pending.last().deadline),
            )
        }
    }

    /// When the machine is to be woken: at the earliest of its deadlines.
    pub open spec fn wakeup(self) -> Option<Instant> {
        if self.is_down() {
            None
        } else {
            let periodic = time::earliest_armed(
                self.next_reap,
                time::earliest_armed(self.next_reconnect, self.next_queue_check),
            );
            let leaving = time::earliest_armed(
                self.leave_broadcast_deadline,
                self.leave_complete_deadline,
            );
            let held_back = time::earliest_armed(
                match self.batch {
                    Some(b) => b.window.deadline(),
                    None => None,
                },
                match self.backlog {
                    Some(b) => b.window.deadline(),
                    None => None,
                },
            );
            time::earliest_armed(
                time::earliest_armed(periodic, leaving),
                time::earliest_armed(Self::earliest_close(self.pending), held_back),
            )
        }
    }
}

impl<I: Id, A: Value, G> Endpoint<I, A, G> {
    /// Returns a machine that has seen nothing yet and draws from `rng`.
    pub fn new_with_rng(opts: Options, rng: SmallRng) -> (r: Self)
        ensures
            r@ == Machine::<I, A, G>::initial(opts, rng, 0, 0),
    {
        Self::new_with_rng_in(opts, rng, 0, 0)
    }

    /// Returns a machine that has seen nothing yet, draws from `rng` and counts lost
    /// events from the given numbers on.
    pub fn new_with_rng_in(opts: Options, rng: SmallRng, user_drop: u64, member_drop: u64) -> (r:
        Self)
        ensures
            r@ == Machine::<I, A, G>::initial(opts, rng, user_drop, member_drop),
    {
        let first_reap: Instant = add_duration(ORIGIN, opts.reap_interval());
        let first_reconnect: Instant = add_duration(ORIGIN, opts.reconnect_interval());
        let first_queue_check: Instant = add_duration(ORIGIN, opts.queue_check_interval());
        let member_coalescer = if opts.member_coalesce_enabled() {
            Some(MemberEventCoalescer::new(opts.coalesce_period, opts.quiescent_period))
        } else {
            None
        };
        let user_coalescer = if opts.user_coalesce_enabled() {
            Some(
                UserEventCoalescer::new(
                    opts.user_coalesce_period,
                    opts.user_quiescent_period,
                    opts.max_coalesced_user_events,
                ),
            )
        } else {
            None
        };
        let r = Endpoint {
            opts,
            clock: 0,
            event_clock: 0,
            query_clock: 0,
            members: Members::new(),
            state: SerfState::Alive,
            rng,
            next_reap: Some(first_reap),
            next_reconnect: Some(first_reconnect),
            next_queue_check: Some(first_queue_check),
            leave_broadcast_deadline: None,
            leave_complete_deadline: None,
            event_buffer: EventBuffer::new(opts.event_buffer_size),
            query_buffer: QueryBuffer::new(opts.query_buffer_size),
            pending_queries: Vec::new(),
            received_queries: VecMap::new(),
            pending_events: VecDeque::new(),
            member_coalescer,
            user_coalescer,
            user_drop,
            member_drop,
            reconnect_delegate: None,
            drain_now: ORIGIN,
            coalesce_now: ORIGIN,
            local_state_dirty: true,
            ignore_join_streams: Vec::new(),
            actions: VecDeque::new(),
        };
        assert(r@ =~= Machine::<I, A, G>::initial(opts, rng, user_drop, member_drop));
        r
    }

    /// Returns a machine that has seen nothing yet, with random numbers from a fixed
    /// seed.
    pub fn new(opts: Options) -> (r: Self)
        ensures
            r@ == Machine::<I, A, G>::initial(opts, r@.rng, 0, 0),
    {
        Self::new_with_rng(opts, seeded(0))
    }

    /// Returns the state of this node.
    pub fn state(&self) -> (r: SerfState)
        ensures
            r == self@.state,
    {
        self.state
    }

    pub(crate) fn ensure_not_shutdown(&self) -> (r: Result<(), Error>)
        ensures
            self@.is_down() ==> r == Err::<(), Error>(Error::Shutdown),
            !self@.is_down() ==> r is Ok,
    {
        if self.state.is_shutdown() {
            Err(Error::Shutdown)
        } else {
            Ok(())
        }
    }

    /// Returns what the member clock reads.
    pub fn member_time(&self) -> (r: u64)
        ensures
            r == self@.clock,
    {
        self.clock
    }

    /// Returns what the event clock reads.
    pub fn event_time(&self) -> (r: u64)
        ensures
            r == self@.event_clock,
    {
        self.event_clock
    }

    /// Returns what the query clock reads.
    pub fn query_time(&self) -> (r: u64)
        ensures
            r == self@.query_clock,
    {
        self.query_clock
    }

    /// Returns the number of members, departed ones among them.
    pub fn num_members(&self) -> (r: usize)
        ensures
            r == self@.states.dom().len(),
    {
        self.members.states.len()
    }

    /// Returns how many user events were lost for want of room.
    pub fn coalesced_user_events_dropped(&self) -> (r: u64)
        ensures
            r == self@.user_drop,
    {
        self.user_drop
    }

    /// Returns how many membership events were lost for want of room.
    pub fn coalesced_member_events_dropped(&self) -> (r: u64)
        ensures
            r == self@.member_drop,
    {
        self.member_drop
    }

    /// Returns the number of reports that wait to be taken.
    pub fn pending_events_len(&self) -> (r: usize)
        ensures
            r == self@.reports.len(),
    {
        self.pending_events.len()
    }

    /// Returns the members, departed ones among them, in the order of the wire forms
    /// of their ids.
    pub fn members_snapshot(&self) -> (r: Vec<Arc<Member<I, A>>>)
        ensures
            r@.len() == vecmap::in_wire_order(self@.states.dom()).len(),
            forall|i: int|
                0 <= i < r@.len() ==> *(#[trigger] r@[i]) == self@.states[vecmap::in_wire_order(
                    self@.states.dom(),
                )[i]].member,
    {
        let n: usize = self.members.states.len();
        let ghost order = vecmap::in_wire_order(self@.states.dom());
        let mut r: Vec<Arc<Member<I, A>>> = Vec::new();
        let mut i: usize = 0;
        while i < n
            invariant
                i <= n,
                n == order.len(),
                order == self.members.states.keys(),
                r@.len() == i,
                forall|j: int|
                    0 <= j < i ==> *(#[trigger] r@[j]) == self@.states[order[j]].member,
            decreases n - i,
        {
            let entry = self.members.states.entry_at(i);
            r.push(Arc::new(entry.1.member.dup()));
            i += 1;
        }
        r
    }

    /// Sets or clears who says how long departed members are kept.
    #[must_use]
    pub fn with_reconnect_delegate(self, delegate: Option<G>) -> (r: Self)
        ensures
            r@ == (Machine { delegate, ..self@ }),
    {
        let mut r = self;
        r.reconnect_delegate = delegate;
        r
    }

    /// Sets or clears who says how long departed members are kept.
    pub fn set_reconnect_delegate(&mut self, delegate: Option<G>)
        ensures
            final(self)@ == (Machine { delegate, ..old(self)@ }),
    {
        self.reconnect_delegate = delegate;
    }

    /// Returns when a leave is complete, once the coordinator has left.
    pub fn leave_complete_deadline(&self) -> (r: Option<Instant>)
        ensures
            r == self@.leave_complete_deadline,
    {
        self.leave_complete_deadline
    }

    /// Returns until when a leave intent may take to go out.
    pub fn leave_broadcast_deadline(&self) -> (r: Option<Instant>)
        ensures
            r == self@.leave_broadcast_deadline,
    {
        self.leave_broadcast_deadline
    }

    /// Takes the oldest report.
    pub fn poll_event(&mut self) -> (r: Option<Event<I, A>>)
        ensures
            match r {
                Some(e) => {
                    &&& old(self)@.reports.len() > 0
                    &&& e@ == old(self)@.reports[0]
                    &&& final(self)@ == (Machine {
                        reports: old(self)@.reports.drop_first(),
                        ..old(self)@
                    })
                },
                None => old(self)@.reports.len() == 0 && final(self)@ == old(self)@,
            },
            event::shown(r) == old(self)@.oldest_report(),
            final(self)@ == old(self)@.without_oldest_report(),
    {
        let ghost before = self@;
        let r = self.pending_events.pop_front();
        assert(r is Some ==> self@.reports =~= before.reports.drop_first());
        assert(r is None ==> self@.reports =~= before.reports);
        r
    }

    /// Takes the oldest action.
    pub fn poll_action(&mut self) -> (r: Option<Action<I, A>>)
        ensures
            match r {
                Some(a) => {
                    &&& old(self)@.actions.len() > 0
                    &&& a == old(self)@.actions[0]
                    &&& final(self)@ == (Machine {
                        actions: old(self)@.actions.drop_first(),
                        ..old(self)@
                    })
                },
                None => old(self)@.actions.len() == 0 && final(self)@ == old(self)@,
            },
            r == old(self)@.oldest_action(),
            final(self)@ == old(self)@.without_oldest_action(),
    {
        let ghost before = self@;
        let r = self.actions.pop_front();
        assert(r is Some ==> self@.actions =~= before.actions.drop_first());
        r
    }

    fn next_close(&self) -> (r: Option<Instant>)
        ensures
            r == Machine::<I, A, G>::earliest_close(self@.pending),
    {
        let mut r: Option<Instant> = None;
        let mut i: usize = 0;
        while i < self.pending_queries.len()
            invariant
                i <= self.pending_queries@.len(),
                r == Machine::<I, A, G>::earliest_close(self@.pending.take(i as int)),
            decreases self.pending_queries@.len() - i,
        {
            assert(self@.pending.take(i + 1).drop_last() =~= self@.pending.take(i as int));
            r = time::min_deadline(r, Some(self.pending_queries[i].deadline));
            i += 1;
        }
        assert(self@.pending.take(i as int) =~= self@.pending);
        r
    }

    /// Returns when the machine is to be woken.
    pub fn serf_poll_timeout(&self) -> (r: Option<Instant>)
        ensures
            r == self@.wakeup(),
    {
        if self.state.is_shutdown() {
            return None;
        }
        let periodic = time::min_deadline(
            self.next_reap,
            time::min_deadline(self.next_reconnect, self.next_queue_check),
        );
        let leaving = time::min_deadline(
            self.leave_broadcast_deadline,
            self.leave_complete_deadline,
        );
        let member_flush = match &self.member_coalescer {
            Some(c) => c.window.flush_deadline(),
            None => None,
        };
        let user_flush = match &self.user_coalescer {
            Some(c) => c.window.flush_deadline(),
            None => None,
        };
        time::min_deadline(
            time::min_deadline(periodic, leaving),
            time::min_deadline(self.next_close(), time::min_deadline(member_flush, user_flush)),
        )
    }

    pub(crate) fn mark_local_state_dirty(&mut self)
        ensures
            final(self)@ == old(self)@.dirtied(),
    {
        self.local_state_dirty = true;
    }

    pub(crate) fn ask(&mut self, action: Action<I, A>)
        ensures
            final(self)@ == old(self)@.asking(action),
    {
        self.actions.push_back(action);
    }

    pub(crate) fn report(&mut self, event: Event<I, A>)
        ensures
            final(self)@ == old(self)@.reporting(event@),
    {
        event::report(&mut self.pending_events, event);
    }
}

} // verus!
