//! What the application can ask of the node itself: to join, to leave, to make
//! another leave, to change its tags, to start where it stopped.

use crate::action::{Action, Coordinator, Frame, INTENT_RANK};
use crate::buffers::{EventRing, QueryRing};
use crate::clock;
use crate::clock::{ltime_is_acceptable, witness, LamportTime};
use crate::endpoint::{Endpoint, Machine};
use crate::id::{Id, Value};
use crate::members::{Member, MemberState, SerfState};
use crate::query::Error;
use crate::time;
use crate::time::{add_duration, Instant};
use crate::typed::{AnyMessage, LeaveMessage, Node, ReplayResult, Tags};
use std::sync::Arc;
use vstd::prelude::*;

verus! {

/// The action that asks for a leave intent to be broadcast.
pub open spec fn leave_broadcast<I, A>(ltime: LamportTime, id: I, prune: bool) -> Action<I, A> {
    Action::Broadcast {
        rank: INTENT_RANK,
        frame: Frame::Message(AnyMessage::Leave(LeaveMessage { ltime, id, prune })),
    }
}

/// The actions that dial every node but the local one.
pub open spec fn dials<I, A>(nodes: Seq<Node<I, A>>, local: I) -> Seq<Action<I, A>>
    decreases nodes.len(),
{
    if nodes.len() == 0 {
        Seq::empty()
    } else if nodes.last().id == local {
        dials(nodes.drop_last(), local)
    } else {
        dials(nodes.drop_last(), local).push(Action::PushPull { peer: nodes.last().addr })
    }
}

/// The floor of a ring after a restart: past the last time that was seen before it,
/// where that time is in range.
pub open spec fn raised_floor(floor: u64, last: LamportTime) -> u64 {
    if clock::acceptable(last.0) && last.0 + 1 > floor {
        (last.0 + 1) as u64
    } else {
        floor
    }
}

impl<I, A, G> Machine<I, A, G> {
    /// The machine with the next stamp of the member clock on a leave.
    pub open spec fn stamped(self) -> Self {
        Machine { clock: clock::ticked(self.clock), dirty: true, ..self }
    }

    /// Whether a leave can be stamped with a time in range.
    pub open spec fn can_stamp(self) -> bool {
        clock::acceptable(clock::ticked(self.clock))
    }

    /// The machine that is about to leave, before its own leave intent.
    pub open spec fn set_to_leave(self) -> Self {
        Machine { state: SerfState::Leaving, ..self.stamped() }
    }

    /// Whether a leave of this node can begin: it is alive, its clock is in range, and
    /// it takes its own intent.
    pub open spec fn leave_begins(self, local: I) -> bool {
        &&& self.state is Alive
        &&& self.can_stamp()
        &&& self.set_to_leave().takes_leave_intent(
            local,
            LamportTime(self.set_to_leave().clock),
            local,
        )
    }

    /// What is answered to the wish to leave: the farewell, or nothing to a node that
    /// left.
    pub open spec fn leave_reply(self, local: I) -> Result<Option<LeaveMessage<I>>, Error> {
        match self.state {
            SerfState::Left => Ok(None),
            SerfState::Leaving | SerfState::Shutdown => Err(Error::BadLeaveState(self.state)),
            SerfState::Alive => if self.leave_begins(local) {
                Ok(
                    Some(
                        LeaveMessage {
                            ltime: LamportTime(clock::ticked(self.clock)),
                            id: local,
                            prune: false,
                        },
                    ),
                )
            } else {
                Err(Error::LeaveClockExhausted)
            },
        }
    }

    /// The machine after the wish to leave.
    pub open spec fn leaving(self, local: I, now: Instant) -> Self {
        let m = self.at(now);
        if !(self.state is Alive) || !self.can_stamp() {
            m
        } else {
            let told = m.set_to_leave().after_leave_intent(
                local,
                LamportTime(m.set_to_leave().clock),
                local,
                false,
                now,
            );
            if self.leave_begins(local) {
                Machine {
                    leave_broadcast_deadline: Some(
                        time::later(now, self.opts.broadcast_timeout),
                    ),
                    ..told
                }.asking(leave_broadcast(LamportTime(clock::ticked(self.clock)), local, false))
            } else {
                Machine { state: SerfState::Alive, ..told }
            }
        }
    }

    /// What is answered to the wish that another node leaves.
    pub open spec fn force_leave_reply(self) -> Result<(), Error> {
        if self.is_down() {
            Err(Error::BadLeaveState(self.state))
        } else if !self.can_stamp() {
            Err(Error::LeaveClockExhausted)
        } else {
            Ok(())
        }
    }

    /// The machine after the wish that another node leaves. The intent is broadcast
    /// where it takes effect here.
    pub open spec fn force_leaving(self, local: I, id: I, prune: bool, now: Instant) -> Self {
        let m = self.at(now);
        if self.force_leave_reply() is Err {
            m
        } else {
            let stamped = m.stamped();
            let ltime = LamportTime(stamped.clock);
            let told = stamped.after_leave_intent(local, ltime, id, prune, now);
            if stamped.takes_leave_intent(local, ltime, id) {
                told.asking(leave_broadcast(ltime, id, prune))
            } else {
                told
            }
        }
    }

    /// What is answered to the wish to announce that this node joined.
    pub open spec fn join_reply(self) -> Result<(), Error> {
        if self.state is Alive {
            Ok(())
        } else {
            Err(Error::BadJoinState(self.state))
        }
    }

    /// The machine after the wish to announce that this node joined.
    pub open spec fn joining(self, local: I) -> Self {
        if self.state is Alive {
            self.announcing_join(local, LamportTime(self.clock))
        } else {
            self
        }
    }

    /// What is answered to the wish to change the tags of this node.
    pub open spec fn tags_verdict(self, size: usize, limit: usize) -> Result<(), Error> {
        if self.is_down() {
            Err(Error::Shutdown)
        } else if size > limit {
            Err(Error::SetTagsMeta(size, limit))
        } else {
            Ok(())
        }
    }

    /// The machine with new tags of the local node, where it is a member yet.
    pub open spec fn retagged(self, local: I, tags: Arc<Tags>) -> Self {
        if self.knows(local) {
            let ms = self.states[local];
            self.with_member(local, MemberState { member: Member { tags, ..ms.member }, ..ms })
        } else {
            self
        }
    }

    /// The machine after it learned what it knew before it stopped.
    pub open spec fn restored(self, local: I, replay: ReplayResult<I, A>) -> Self {
        Machine {
            clock: clock::witnessed(self.clock, replay.last_clock.0),
            event_clock: clock::witnessed(self.event_clock, replay.last_event_clock.0),
            query_clock: clock::witnessed(self.query_clock, replay.last_query_clock.0),
            seen_events: EventRing {
                min_time: raised_floor(self.seen_events.min_time, replay.last_event_clock),
                ..self.seen_events
            },
            seen_queries: QueryRing {
                min_time: raised_floor(self.seen_queries.min_time, replay.last_query_clock),
                ..self.seen_queries
            },
            dirty: true,
            actions: self.actions + dials(replay.alive_nodes@, local),
            ..self
        }
    }
}

impl<I: Id, A: Value, G> Endpoint<I, A, G> {
    /// Announces that this node joined.
    pub fn join(&mut self, c: &Coordinator<I, A>) -> (r: Result<(), Error>)
        ensures
            old(self)@.state is Alive ==> r is Ok && final(self)@ == old(self)@.announcing_join(
                c.local.id,
                LamportTime(old(self)@.clock),
            ),
            !(old(self)@.state is Alive) ==> r == Err::<(), Error>(
                Error::BadJoinState(old(self)@.state),
            ) && final(self)@ == old(self)@,
            r == old(self)@.join_reply(),
            final(self)@ == old(self)@.joining(c.local.id),
    {
        if !self.state.is_alive() {
            return Err(Error::BadJoinState(self.state));
        }
        self.broadcast_join(&c.local.id, LamportTime(self.clock));
        Ok(())
    }

    /// Begins to leave. The intent is broadcast, ahead of everything else. Returns the
    /// farewell, which the driver hands to the coordinator as it makes it leave, once the
    /// broadcast is queued; nothing, if this node left.
    pub fn leave(&mut self, c: &Coordinator<I, A>, now: Instant) -> (r: Result<
        Option<LeaveMessage<I>>,
        Error,
    >)
        ensures
            r == old(self)@.leave_reply(c.local.id),
            final(self)@ == old(self)@.leaving(c.local.id, now),
    {
        let ghost before = self@;
        self.drain_now = now;
        match self.state {
            SerfState::Left => return Ok(None),
            SerfState::Leaving | SerfState::Shutdown => {
                return Err(Error::BadLeaveState(self.state));
            },
            SerfState::Alive => {},
        }
        let stamp: u64 = self.clock.saturating_add(1);
        if !ltime_is_acceptable(stamp) {
            return Err(Error::LeaveClockExhausted);
        }
        self.clock = stamp;
        let ltime = LamportTime(stamp);
        self.mark_local_state_dirty();
        self.state = SerfState::Leaving;
        let local = c.local.id.dup();
        assert(self@ =~= before.at(now).set_to_leave());
        if !self.handle_node_leave_intent(&local, ltime, &local, false, now) {
            self.state = SerfState::Alive;
            return Err(Error::LeaveClockExhausted);
        }
        self.leave_broadcast_deadline = Some(add_duration(now, self.opts.broadcast_timeout));
        self.broadcast_leave(ltime, local.dup(), false);
        Ok(Some(LeaveMessage { ltime, id: local, prune: false }))
    }

    /// Makes another node leave, and have it forgotten at once where `prune` says so.
    pub fn force_leave(&mut self, c: &Coordinator<I, A>, id: I, prune: bool, now: Instant) -> (r:
        Result<(), Error>)
        ensures
            r == old(self)@.force_leave_reply(),
            final(self)@ == old(self)@.force_leaving(c.local.id, id, prune, now),
    {
        let ghost before = self@;
        self.drain_now = now;
        if self.state.is_shutdown() {
            return Err(Error::BadLeaveState(self.state));
        }
        let stamp: u64 = self.clock.saturating_add(1);
        if !ltime_is_acceptable(stamp) {
            return Err(Error::LeaveClockExhausted);
        }
        self.clock = stamp;
        let ltime = LamportTime(stamp);
        self.mark_local_state_dirty();
        assert(self@ =~= before.at(now).stamped());
        if self.handle_node_leave_intent(&c.local.id, ltime, &id, prune, now) {
            self.broadcast_leave(ltime, id, prune);
        }
        Ok(())
    }

    fn broadcast_leave(&mut self, ltime: LamportTime, id: I, prune: bool)
        ensures
            final(self)@ == old(self)@.asking(leave_broadcast(ltime, id, prune)),
    {
        self.ask(
            Action::Broadcast {
                rank: INTENT_RANK,
                frame: Frame::Message(AnyMessage::Leave(LeaveMessage { ltime, id, prune })),
            },
        );
    }

    /// Begins to change the tags of this node: tells whether tags that take `size`
    /// bytes can be gossiped, where metadata may take `limit`. The driver hands them
    /// to the coordinator, and then to [`Endpoint::apply_tags`].
    pub fn set_tags(&mut self, size: usize, limit: usize, now: Instant) -> (r: Result<(), Error>)
        ensures
            r == (if old(self)@.is_down() {
                Err::<(), Error>(Error::Shutdown)
            } else if size > limit {
                Err(Error::SetTagsMeta(size, limit))
            } else {
                Ok(())
            }),
            r == old(self)@.tags_verdict(size, limit),
            final(self)@ == old(self)@.at(now),
    {
        self.drain_now = now;
        if let Err(e) = self.ensure_not_shutdown() {
            return Err(e);
        }
        if size > limit {
            return Err(Error::SetTagsMeta(size, limit));
        }
        Ok(())
    }

    /// Changes the tags of this node, once the coordinator gossips them.
    pub fn apply_tags(&mut self, c: &Coordinator<I, A>, tags: Arc<Tags>)
        ensures
            final(self)@ == old(self)@.retagged(c.local.id, tags),
    {
        let ms = match self.members.states.get(&c.local.id) {
            None => return,
            Some(ms) => MemberState {
                member: Member { node: ms.member.node.dup(), tags, status: ms.member.status },
                status_time: ms.status_time,
                leave_time: ms.leave_time,
            },
        };
        self.members.states.insert(c.local.id.dup(), ms);
    }

    /// Takes up where the node stopped: sets the clocks and the floors of the rings,
    /// and asks for the nodes that were alive to be dialled.
    pub fn load_snapshot(&mut self, c: &Coordinator<I, A>, replay: ReplayResult<I, A>) -> (r: Result<
        (),
        Error,
    >)
        ensures
            old(self)@.is_down() ==> r == Err::<(), Error>(Error::Shutdown) && final(self)@ == old(
                self,
            )@,
            !old(self)@.is_down() ==> r is Ok && final(self)@ == old(self)@.restored(
                c.local.id,
                replay,
            ),
    {
        let ghost before = self@;
        if let Err(e) = self.ensure_not_shutdown() {
            return Err(e);
        }
        if ltime_is_acceptable(replay.last_clock.0) {
            witness(&mut self.clock, replay.last_clock.0);
        }
        self.mark_local_state_dirty();
        if ltime_is_acceptable(replay.last_event_clock.0) {
            let event_min: u64 = replay.last_event_clock.0.saturating_add(1);
            if event_min > self.event_buffer.min_time {
                self.event_buffer.min_time = event_min;
            }
            witness(&mut self.event_clock, replay.last_event_clock.0);
        }
        if ltime_is_acceptable(replay.last_query_clock.0) {
            let query_min: u64 = replay.last_query_clock.0.saturating_add(1);
            if query_min > self.query_buffer.min_time {
                self.query_buffer.min_time = query_min;
            }
            witness(&mut self.query_clock, replay.last_query_clock.0);
        }
        let ghost nodes = replay.alive_nodes@;
        assert(self@.actions =~= before.actions + dials(nodes.take(0), c.local.id));
        assert(self@ =~= Machine {
            actions: before.actions + dials(nodes.take(0), c.local.id),
            ..before.restored(c.local.id, replay)
        });
        let mut i: usize = 0;
        while i < replay.alive_nodes.len()
            invariant
                i <= nodes.len(),
                nodes == replay.alive_nodes@,
                self@ == (Machine {
                    actions: before.actions + dials(nodes.take(i as int), c.local.id),
                    ..before.restored(c.local.id, replay)
                }),
            decreases nodes.len() - i,
        {
            assert(nodes.take(i + 1).drop_last() =~= nodes.take(i as int));
            let node = &replay.alive_nodes[i];
            if !node.id.same(&c.local.id) {
                self.ask(Action::PushPull { peer: node.addr.dup() });
                assert(self@.actions =~= before.actions + dials(nodes.take(i + 1), c.local.id));
            }
            i += 1;
        }
        assert(nodes.take(i as int) =~= nodes);
        Ok(())
    }
}

} // verus!
