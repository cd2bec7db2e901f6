//! Reports that may be held back for a while.

use crate::coalesce;
use crate::endpoint::{Endpoint, Machine};
use crate::event::{Event, MemberEvent, MemberEventKind, Report};
use crate::id::{Id, Value};
use crate::members::Member;
use crate::time;
use crate::time::{max_instant, Instant};
use crate::typed::UserEventMessage;
use vstd::prelude::*;

verus! {

impl<I, A, G> Machine<I, A, G> {
    /// The machine after something happened to a member: it is reported, or held
    /// back. What was held back long enough is delivered first.
    pub open spec fn emitting_member(self, kind: MemberEventKind, member: Member<I, A>) -> Self {
        let now = time::latest(self.coalesce_now, self.drain_now);
        match self.batch {
            Some(b) => {
                let ready = if b.window.is_due(now) {
                    b.emptied()
                } else {
                    b
                };
                Machine {
                    coalesce_now: now,
                    reports: if b.window.is_due(now) {
                        self.reports + coalesce::all_reports(b.changes)
                    } else {
                        self.reports
                    },
                    batch: Some(ready.fed(kind, member, now)),
                    member_drop: if ready.sheds(member) {
                        coalesce::one_more_lost(self.member_drop)
                    } else {
                        self.member_drop
                    },
                    ..self
                }
            },
            None => Machine { coalesce_now: now, ..self }.reporting(
                Report::Member(kind, seq![member]),
            ),
        }
    }

    /// The machine after a user event arrived: it is reported, or held back where it
    /// may be. What was held back long enough is delivered first.
    pub open spec fn emitting_user(self, msg: UserEventMessage) -> Self {
        let now = time::latest(self.coalesce_now, self.drain_now);
        match self.backlog {
            Some(b) if msg.cc => {
                let ready = if b.window.is_due(now) {
                    b.emptied()
                } else {
                    b
                };
                Machine {
                    coalesce_now: now,
                    reports: if b.window.is_due(now) {
                        self.reports + b.reports()
                    } else {
                        self.reports
                    },
                    backlog: Some(ready.fed(msg, now)),
                    user_drop: if ready.sheds(msg) {
                        coalesce::one_more_lost(self.user_drop)
                    } else {
                        self.user_drop
                    },
                    ..self
                }
            },
            _ => Machine { coalesce_now: now, ..self }.reporting(Report::User(msg)),
        }
    }

    /// The machine after it delivered the membership events that were held back long
    /// enough.
    pub open spec fn member_flushed(self, now: Instant) -> Self {
        match self.batch {
            Some(b) if b.window.is_due(now) => Machine {
                batch: Some(b.emptied()),
                reports: self.reports + coalesce::all_reports(b.changes),
                ..self
            },
            _ => self,
        }
    }

    /// The machine after it delivered the user events that were held back long
    /// enough.
    pub open spec fn user_flushed(self, now: Instant) -> Self {
        match self.backlog {
            Some(b) if b.window.is_due(now) => Machine {
                backlog: Some(b.emptied()),
                reports: self.reports + b.reports(),
                ..self
            },
            _ => self,
        }
    }

    /// The machine after it delivered everything that was held back long enough.
    pub open spec fn flushed(self, now: Instant) -> Self {
        let at = time::latest(self.coalesce_now, now);
        Machine { coalesce_now: at, ..self }.member_flushed(at).user_flushed(at)
    }
}

impl<I: Id, A: Value, G> Endpoint<I, A, G> {
    pub(crate) fn emit_member(&mut self, kind: MemberEventKind, member: Member<I, A>)
        ensures
            final(self)@ == old(self)@.emitting_member(kind, member),
    {
        let ghost before = self@;
        let now: Instant = max_instant(self.coalesce_now, self.drain_now);
        self.coalesce_now = now;
        if let Some(c) = &mut self.member_coalescer {
            if c.window.due(now) {
                c.flush(&mut self.pending_events);
            }
            c.feed(kind, member, now, &mut self.member_drop);
        } else {
            let mut members: Vec<Member<I, A>> = Vec::new();
            members.push(member);
            assert(members@ =~= seq![member]);
            self.report(Event::Member(MemberEvent::new(kind, members)));
        }
        assert(self@ =~= before.emitting_member(kind, member));
    }

    pub(crate) fn emit_user(&mut self, msg: UserEventMessage)
        ensures
            final(self)@ == old(self)@.emitting_user(msg),
    {
        let ghost before = self@;
        let now: Instant = max_instant(self.coalesce_now, self.drain_now);
        self.coalesce_now = now;
        if msg.cc {
            if let Some(c) = &mut self.user_coalescer {
                if c.window.due(now) {
                    c.flush(&mut self.pending_events);
                }
                c.feed(msg, now, &mut self.user_drop);
                assert(self@ =~= before.emitting_user(msg));
                return;
            }
        }
        self.report(Event::User(msg));
    }

    /// Delivers what was held back long enough at `now`.
    pub fn flush_due_coalescers(&mut self, now: Instant)
        ensures
            final(self)@ == old(self)@.flushed(now),
    {
        let ghost before = self@;
        let at: Instant = max_instant(self.coalesce_now, now);
        self.coalesce_now = at;
        if let Some(c) = &mut self.member_coalescer {
            if c.window.due(at) {
                c.flush(&mut self.pending_events);
            }
        }
        assert(self@ =~= Machine { coalesce_now: at, ..before }.member_flushed(at));
        if let Some(c) = &mut self.user_coalescer {
            if c.window.due(at) {
                c.flush(&mut self.pending_events);
            }
        }
        assert(self@ =~= before.flushed(now));
    }
}

} // verus!
