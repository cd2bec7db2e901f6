//! What happens as time passes.
//!
//! A tick of the driver goes: [`Endpoint::before_inner_timeout`], the timer of the
//! coordinator, its events through [`Endpoint::on_inner_event`],
//! [`Endpoint::begin_deadlines`], the odds of a redial, [`Endpoint::end_deadlines`].
//! Events come before deadlines, so that a member that is back is not reaped.

use crate::action::Action;
use crate::endpoint::progress;
use crate::endpoint::{Endpoint, Machine, ReconnectDelegate};
use crate::entropy::{draw_below, draw_u32};
use crate::event::{Event, Report};
use crate::id::{Id, Value};
use crate::members::SerfState;
use crate::options;
use crate::time;
use crate::time::{add_duration, Instant};
use crate::typed::PushPullMessage;
use vstd::prelude::*;

verus! {

/// What a redial of a failed member hangs on: it is made if `draw`, as a fraction of
/// 2^24, is not above the ratio of failed members to others.
#[derive(Debug, Clone, Copy, PartialEq, Eq, Structural)]
pub struct Odds {
    /// A number of 24 bits drawn at random.
    pub draw: u32,
    /// How many members failed.
    pub num_failed: usize,
    /// How many members neither failed nor left, one at least.
    pub num_alive: usize,
}

/// Whether a deadline has come.
pub open spec fn due(deadline: Option<Instant>, now: Instant) -> bool {
    deadline matches Some(t) && now >= t
}

fn is_due(deadline: Option<Instant>, now: Instant) -> (r: bool)
    ensures
        r == due(deadline, now),
{
    match deadline {
        Some(t) => now >= t,
        None => false,
    }
}

impl<I, A, G> Machine<I, A, G> {
    /// How many members neither failed nor left, one at least.
    pub open spec fn num_alive(self) -> int {
        let n = self.states.dom().len() - self.failed.len() - self.left.len();
        if n >= 1 {
            n
        } else {
            1
        }
    }

    /// Whether a redial of a failed member is to be decided on.
    pub open spec fn may_redial(self, now: Instant) -> bool {
        !self.is_down() && due(self.next_reconnect, now) && self.failed.len() > 0
    }

    /// The machine that asks for the failed member at `i` to be dialled.
    pub open spec fn redialling(self, i: int) -> Self {
        if self.knows(self.failed[i]) {
            self.asking(Action::PushPull { peer: self.states[self.failed[i]].member.node.addr })
        } else {
            self
        }
    }

    /// The machine after a redial was due, where it is made to the failed member at `i` if
    /// `dial` says so.
    pub open spec fn after_redial(self, now: Instant, dial: bool, i: int) -> Self {
        if !self.is_down() && due(self.next_reconnect, now) {
            Machine {
                next_reconnect: Some(
                    time::later(now, options::paced(self.opts.reconnect_interval)),
                ),
                ..if dial && self.failed.len() > 0 {
                    self.redialling(i)
                } else {
                    self
                }
            }
        } else {
            self
        }
    }

    /// The machine after the next look at the broadcast queue was put off, where it was
    /// due.
    pub open spec fn after_queue_check(self, now: Instant) -> Self {
        if due(self.next_queue_check, now) {
            Machine {
                next_queue_check: Some(
                    time::later(now, options::paced(self.opts.queue_check_interval)),
                ),
                ..self
            }
        } else {
            self
        }
    }

    /// The machine after the deadlines of a leave, where they are due. A node that was
    /// leaving has left.
    pub open spec fn after_leave_deadlines(self, now: Instant) -> Self {
        let m = if due(self.leave_broadcast_deadline, now) {
            Machine { leave_broadcast_deadline: None, ..self }
        } else {
            self
        };
        if !due(m.leave_complete_deadline, now) {
            m
        } else if m.state is Leaving {
            Machine { leave_complete_deadline: None, state: SerfState::Left, ..m }.reporting(
                Report::LeftCluster,
            )
        } else {
            Machine { leave_complete_deadline: None, ..m }
        }
    }

    /// The machine after all deadlines but those of the reaper and of redials. A shutdown
    /// ends it: nothing follows.
    pub open spec fn after_deadlines(self, now: Instant) -> Self {
        if self.is_down() {
            self
        } else {
            let closed = self.after_queue_check(now).closing_due(0, now);
            if closed.is_down() {
                closed
            } else {
                closed.pruned(now).after_leave_deadlines(now).flushed(now)
            }
        }
    }
}

impl<I, A, G: ReconnectDelegate<I, A>> Machine<I, A, G> {
    /// The machine after departed members were reaped, where that was due.
    pub open spec fn after_reap(self, now: Instant) -> Self {
        if self.is_down() {
            self
        } else if due(self.next_reap, now) {
            Machine {
                next_reap: Some(time::later(now, options::paced(self.opts.reap_interval))),
                ..self.at(now).reaped(now)
            }
        } else {
            self.at(now)
        }
    }
}

impl<I: Id, A: Value, G> Endpoint<I, A, G> {
    /// Takes in what time it is, before events of the membership layer.
    pub fn drain_after_ingress(&mut self, now: Instant)
        ensures
            final(self)@ == old(self)@.at(now),
    {
        self.drain_now = now;
    }

    /// Begins a tick. Returns the state that peers are to be told, if what they are told
    /// is out of date.
    pub fn before_inner_timeout(&mut self, now: Instant) -> (r: Option<PushPullMessage<I>>)
        ensures
            final(self)@ == (if old(self)@.is_down() {
                old(self)@
            } else {
                old(self)@.at(now)
            }),
            r is None == (old(self)@.is_down() || !old(self)@.dirty),
            r matches Some(pp) ==> old(self)@.at(now).tells(pp),
    {
        if self.state.is_shutdown() {
            return None;
        }
        self.drain_now = now;
        self.stale_local_state()
    }

    /// Returns what a redial hangs on, if one is to be decided on. The number is drawn.
    pub fn reconnect_odds(&mut self, now: Instant) -> (r: Option<Odds>)
        ensures
            final(self)@ == old(self)@.drawing(final(self)@.rng),
            r is None ==> final(self)@ == old(self)@,
            r is Some == old(self)@.may_redial(now),
            r matches Some(odds) ==> {
                &&& odds.draw < 0x100_0000
                &&& odds.num_failed == old(self)@.failed.len()
                &&& odds.num_alive == old(self)@.num_alive()
            },
    {
        if self.state.is_shutdown() || !is_due(self.next_reconnect, now) {
            return None;
        }
        let num_failed: usize = self.members.failed_members.len();
        if num_failed == 0 {
            return None;
        }
        let others: usize = self.members.states.len().saturating_sub(num_failed).saturating_sub(
            self.members.left_members.len(),
        );
        let num_alive: usize = if others >= 1 {
            others
        } else {
            1
        };
        let draw: u32 = draw_u32(&mut self.rng) / 0x100;
        Some(Odds { draw, num_failed, num_alive })
    }

    fn redial(&mut self, i: usize)
        requires
            i < old(self)@.failed.len(),
        ensures
            final(self)@ == old(self)@.redialling(i as int),
    {
        let peer = match self.members.states.get(&self.members.failed_members[i]) {
            Some(ms) => ms.member.node.addr.dup(),
            None => return,
        };
        self.ask(Action::PushPull { peer });
    }

    /// Asks for a failed member to be dialled, where that is due and `dial` says so. Which
    /// one is drawn.
    pub fn fire_reconnect(&mut self, now: Instant, dial: bool)
        ensures
            exists|i: int|
                (old(self)@.failed.len() > 0 ==> 0 <= i < old(self)@.failed.len()) && final(self)@
                    == (#[trigger] old(self)@.after_redial(now, dial, i)).drawing(
                    final(self)@.rng,
                ),
            !dial || !old(self)@.may_redial(now) ==> final(self)@.rng == old(self)@.rng,
    {
        let ghost before = self@;
        if self.state.is_shutdown() || !is_due(self.next_reconnect, now) {
            assert(self@ == before.after_redial(now, dial, 0).drawing(self@.rng));
            return;
        }
        let num_failed: usize = self.members.failed_members.len();
        let mut i: usize = 0;
        if dial && num_failed > 0 {
            i = draw_below(&mut self.rng, 0, num_failed);
            self.redial(i);
        }
        self.next_reconnect = Some(add_duration(now, self.opts.reconnect_interval()));
        assert(self@ == before.after_redial(now, dial, i as int).drawing(self@.rng));
    }

    fn finish_leave(&mut self, now: Instant)
        ensures
            final(self)@ == old(self)@.after_leave_deadlines(now),
    {
        if is_due(self.leave_broadcast_deadline, now) {
            self.leave_broadcast_deadline = None;
        }
        if is_due(self.leave_complete_deadline, now) {
            self.leave_complete_deadline = None;
            if self.state.is_leaving() {
                self.state = SerfState::Left;
                self.report(Event::LeftCluster);
            }
        }
    }

    /// Ends a tick: closes queries, forgets those that nobody can respond to any more,
    /// completes a leave, delivers what was held back.
    pub fn end_deadlines(&mut self, now: Instant)
        ensures
            final(self)@ == old(self)@.after_deadlines(now),
    {
        let ghost before = self@;
        if self.state.is_shutdown() {
            return;
        }
        if is_due(self.next_queue_check, now) {
            self.next_queue_check = Some(add_duration(now, self.opts.queue_check_interval()));
        }
        assert(self@ =~= before.after_queue_check(now));
        self.fire_due_query_closes(now);
        if self.state.is_shutdown() {
            return;
        }
        self.prune_expired_received_queries(now);
        self.finish_leave(now);
        self.flush_due_coalescers(now);
    }
}

impl<I: Id, A: Value, G: ReconnectDelegate<I, A>> Endpoint<I, A, G> {
    /// Goes on with a tick after the events of the membership layer: reaps departed
    /// members, and returns what a redial hangs on, if one is to be decided on. It is
    /// made with [`Endpoint::fire_reconnect`], before the tick ends.
    pub fn begin_deadlines(&mut self, now: Instant) -> (r: Option<Odds>)
        ensures
            final(self)@ == old(self)@.after_reap(now).drawing(final(self)@.rng),
            r is None ==> final(self)@ == old(self)@.after_reap(now),
            r is Some == final(self)@.may_redial(now),
            r matches Some(odds) ==> {
                &&& odds.draw < 0x100_0000
                &&& odds.num_failed == final(self)@.failed.len()
                &&& odds.num_alive == final(self)@.num_alive()
            },
    {
        if self.state.is_shutdown() {
            return None;
        }
        self.drain_now = now;
        let ghost before = self@;
        if is_due(self.next_reap, now) {
            self.fire_reap(now);
            proof {
                progress::reap_is_progress(before, now);
            }
            self.next_reap = Some(add_duration(now, self.opts.reap_interval()));
        }
        self.reconnect_odds(now)
    }
}

} // verus!
