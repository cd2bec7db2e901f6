//! Events that are held back for a while, so that a burst is delivered as one.
//!
//! A window opens with the first event that is held back. It closes when no event
//! came for the quiescent period, and at the latest one coalesce period after it
//! opened.

use crate::event;
use crate::event::{report, Event, MemberEvent, MemberEventKind, Report};
use crate::id::Value;
use crate::members::Member;
use crate::time;
use crate::time::{add_duration, Duration, Instant};
use crate::typed::UserEventMessage;
use std::collections::VecDeque;
use vstd::prelude::*;

verus! {

/// How many members with a change are held back at most.
pub const MAX_COALESCED_MEMBERS: usize = 4096;

/// When events are delivered.
#[derive(Debug, Clone, Copy, PartialEq, Eq, Structural)]
pub struct Window {
    /// The longest time for which the window stays open.
    pub coalesce_period: Duration,
    /// How long events must pause for the window to close.
    pub quiescent_period: Duration,
    /// When the window closes at the latest, while it is open.
    pub cap: Option<Instant>,
    /// When the window closes if no further event comes, while it is open.
    pub quiet: Option<Instant>,
}

impl Window {
    /// A closed window.
    pub open spec fn closed(coalesce_period: Duration, quiescent_period: Duration) -> Self {
        Window { coalesce_period, quiescent_period, cap: None, quiet: None }
    }

    /// The window after an event came at `now`.
    pub open spec fn fed(self, now: Instant) -> Self {
        Window {
            cap: match self.cap {
                Some(t) => Some(t),
                None => Some(time::later(now, self.coalesce_period)),
            },
            quiet: Some(time::later(now, self.quiescent_period)),
            ..self
        }
    }

    /// When the window closes.
    pub open spec fn deadline(self) -> Option<Instant> {
        time::earliest_armed(self.cap, self.quiet)
    }

    /// Whether the window is to be closed at `now`.
    pub open spec fn is_due(self, now: Instant) -> bool {
        self.deadline() matches Some(t) && now >= t
    }

    /// The window after it was closed.
    pub open spec fn shut(self) -> Self {
        Window { cap: None, quiet: None, ..self }
    }

    /// Returns a closed window.
    pub fn new(coalesce_period: Duration, quiescent_period: Duration) -> (r: Self)
        ensures
            r == Self::closed(coalesce_period, quiescent_period),
    {
        Window { coalesce_period, quiescent_period, cap: None, quiet: None }
    }

    /// Takes note of an event that came at `now`.
    pub fn feed(&mut self, now: Instant)
        ensures
            *final(self) == old(self).fed(now),
    {
        if self.cap.is_none() {
            self.cap = Some(add_duration(now, self.coalesce_period));
        }
        self.quiet = Some(add_duration(now, self.quiescent_period));
    }

    /// Returns when the window closes.
    pub fn flush_deadline(&self) -> (r: Option<Instant>)
        ensures
            r == self.deadline(),
    {
        time::min_deadline(self.cap, self.quiet)
    }

    /// Returns `true` if the window is to be closed at `now`.
    pub fn due(&self, now: Instant) -> (r: bool)
        ensures
            r == self.is_due(now),
    {
        match self.flush_deadline() {
            Some(t) => now >= t,
            None => false,
        }
    }

    /// Closes the window.
    pub fn close(&mut self)
        ensures
            *final(self) == old(self).shut(),
    {
        self.cap = None;
        self.quiet = None;
    }
}

/// An open window never closes later than one coalesce period after it opened,
/// however many events come.
pub proof fn window_is_capped(w: Window, now: Instant)
    requires
        w.cap is Some,
    ensures
        w.fed(now).cap == w.cap,
        w.fed(now).deadline() matches Some(t) && t <= w.cap->0,
{
}

/// A change of a member.
pub type Change<I, A> = (MemberEventKind, Member<I, A>);

/// The members of the changes of one kind, in order.
pub open spec fn members_of<I, A>(changes: Seq<Change<I, A>>, kind: MemberEventKind) -> Seq<
    Member<I, A>,
>
    decreases changes.len(),
{
    if changes.len() == 0 {
        Seq::empty()
    } else if changes.last().0 == kind {
        members_of(changes.drop_last(), kind).push(changes.last().1)
    } else {
        members_of(changes.drop_last(), kind)
    }
}

/// The report of the changes of one kind, if there are any.
pub open spec fn report_of<I, A>(changes: Seq<Change<I, A>>, kind: MemberEventKind) -> Seq<
    Report<I, A>,
> {
    if members_of(changes, kind).len() == 0 {
        Seq::empty()
    } else {
        seq![Report::Member(kind, members_of(changes, kind))]
    }
}

/// The reports of all changes, one for each kind.
pub open spec fn all_reports<I, A>(changes: Seq<Change<I, A>>) -> Seq<Report<I, A>> {
    report_of(changes, MemberEventKind::Join) + report_of(changes, MemberEventKind::Leave)
        + report_of(changes, MemberEventKind::Failed) + report_of(changes, MemberEventKind::Update)
        + report_of(changes, MemberEventKind::Reap)
}

/// Where the change of a member stands: the first place with its id.
pub open spec fn is_change_of<I, A>(changes: Seq<Change<I, A>>, id: I, i: int) -> bool {
    &&& 0 <= i < changes.len()
    &&& changes[i].1.node.id == id
    &&& forall|j: int| 0 <= j < i ==> (#[trigger] changes[j]).1.node.id != id
}

/// The membership changes that are held back, and their window.
#[verifier::ext_equal]
pub struct Batch<I, A> {
    /// The window.
    pub window: Window,
    /// The latest change of each member.
    pub changes: Seq<Change<I, A>>,
}

impl<I, A> Batch<I, A> {
    /// Whether a change of the member with the given id is held back.
    pub open spec fn holds(self, id: I) -> bool {
        exists|i: int| #[trigger] is_change_of(self.changes, id, i)
    }

    /// Whether there is no room for a change.
    pub open spec fn sheds(self, member: Member<I, A>) -> bool {
        !self.holds(member.node.id) && self.changes.len() >= MAX_COALESCED_MEMBERS
    }

    /// The batch with one more change, which replaces an earlier one of the member.
    pub open spec fn fed(self, kind: MemberEventKind, member: Member<I, A>, now: Instant) -> Self {
        Batch {
            window: self.window.fed(now),
            changes: if self.holds(member.node.id) {
                self.changes.update(
                    choose|i: int| #[trigger] is_change_of(self.changes, member.node.id, i),
                    (kind, member),
                )
            } else if self.changes.len() < MAX_COALESCED_MEMBERS {
                self.changes.push((kind, member))
            } else {
                self.changes
            },
        }
    }

    /// The batch after its changes were delivered or dropped.
    pub open spec fn emptied(self) -> Self {
        Batch { window: self.window.shut(), changes: Seq::empty() }
    }
}

/// Whether no member has two changes.
pub open spec fn one_each<I, A>(changes: Seq<Change<I, A>>) -> bool {
    forall|i: int, j: int|
        0 <= i < j < changes.len() ==> (#[trigger] changes[i]).1.node.id != (
        #[trigger] changes[j]).1.node.id
}

/// A batch holds one change of each member, and of a member that changed again the latest.
pub proof fn the_latest_change_counts<I, A>(
    b: Batch<I, A>,
    kind: MemberEventKind,
    member: Member<I, A>,
    now: Instant,
)
    requires
        one_each(b.changes),
    ensures
        one_each(b.fed(kind, member, now).changes),
        !b.sheds(member) ==> b.fed(kind, member, now).changes.contains((kind, member)),
        b.sheds(member) ==> b.fed(kind, member, now).changes == b.changes,
{
    let id = member.node.id;
    let after = b.fed(kind, member, now).changes;
    if b.holds(id) {
        let i = choose|i: int| #[trigger] is_change_of(b.changes, id, i);
        assert(after[i] == (kind, member));
    } else {
        assert forall|i: int| 0 <= i < b.changes.len() implies (
        #[trigger] b.changes[i]).1.node.id != id by {
            if b.changes[i].1.node.id == id {
                first_change_exists(b.changes, id, i);
            }
        }
        if b.changes.len() < MAX_COALESCED_MEMBERS {
            assert(after[b.changes.len() as int] == (kind, member));
        }
    }
}

proof fn first_change_exists<I, A>(changes: Seq<Change<I, A>>, id: I, i: int)
    requires
        0 <= i < changes.len(),
        changes[i].1.node.id == id,
    ensures
        exists|k: int| #[trigger] is_change_of(changes, id, k),
    decreases i,
{
    if forall|j: int| 0 <= j < i ==> (#[trigger] changes[j]).1.node.id != id {
        assert(is_change_of(changes, id, i));
    } else {
        let j = choose|j: int| 0 <= j < i && (#[trigger] changes[j]).1.node.id == id;
        first_change_exists(changes, id, j);
    }
}

/// Of a user event that is held back only the latest time counts: an event of the same
/// name and of a later time takes its place, one of an earlier time changes nothing.
pub proof fn the_latest_generation_counts(b: Backlog, msg: UserEventMessage, now: Instant)
    ensures
        superseded(b.events, msg) ==> b.fed(msg, now).events == b.events,
        !superseded(b.events, msg) && !b.sheds(msg) ==> b.fed(msg, now).events.last() == msg
            && forall|e: UserEventMessage|
            #[trigger] b.fed(msg, now).events.contains(e) ==> !supersedes(msg, e),
{
    if !superseded(b.events, msg) && !b.sheds(msg) {
        let after = b.fed(msg, now).events;
        survivors_survive(b.events, msg);
        assert forall|e: UserEventMessage| #[trigger] after.contains(e) implies !supersedes(
            msg,
            e,
        ) by {
            let i = choose|i: int| 0 <= i < after.len() && after[i] == e;
            if i < survivors(b.events, msg).len() {
                assert(survivors(b.events, msg)[i] == e);
            }
        }
    }
}

proof fn survivors_survive(events: Seq<UserEventMessage>, msg: UserEventMessage)
    ensures
        forall|i: int|
            0 <= i < survivors(events, msg).len() ==> !supersedes(
                msg,
                #[trigger] survivors(events, msg)[i],
            ),
    decreases events.len(),
{
    if events.len() > 0 {
        let rest = survivors(events.drop_last(), msg);
        survivors_survive(events.drop_last(), msg);
        assert forall|i: int| 0 <= i < survivors(events, msg).len() implies !supersedes(
            msg,
            #[trigger] survivors(events, msg)[i],
        ) by {
            if i < rest.len() {
                assert(survivors(events, msg)[i] == rest[i]);
            }
        }
    }
}

/// Holds membership events back.
pub struct MemberEventCoalescer<I, A> {
    /// The window.
    pub window: Window,
    /// The latest change of each member.
    pub changes: Vec<Change<I, A>>,
}

impl<I, A> View for MemberEventCoalescer<I, A> {
    type V = Batch<I, A>;

    open spec fn view(&self) -> Batch<I, A> {
        Batch { window: self.window, changes: self.changes@ }
    }
}

impl<I: Value, A: Value> MemberEventCoalescer<I, A> {
    /// Returns what holds nothing back yet.
    pub fn new(coalesce_period: Duration, quiescent_period: Duration) -> (r: Self)
        ensures
            r@ == (Batch::<I, A> {
                window: Window::closed(coalesce_period, quiescent_period),
                changes: Seq::empty(),
            }),
    {
        MemberEventCoalescer {
            window: Window::new(coalesce_period, quiescent_period),
            changes: Vec::new(),
        }
    }

    fn find(&self, id: &I) -> (r: Option<usize>)
        ensures
            match r {
                Some(i) => is_change_of(self.changes@, *id, i as int),
                None => !self@.holds(*id),
            },
    {
        let mut i: usize = 0;
        while i < self.changes.len()
            invariant
                i <= self.changes@.len(),
                forall|j: int| 0 <= j < i ==> (#[trigger] self.changes@[j]).1.node.id != *id,
            decreases self.changes@.len() - i,
        {
            if self.changes[i].1.node.id.same(id) {
                return Some(i);
            }
            i += 1;
        }
        None
    }

    /// Holds a change back, and counts it as lost where there is no room for it.
    pub fn feed(&mut self, kind: MemberEventKind, member: Member<I, A>, now: Instant, lost: &mut u64)
        ensures
            final(self)@ == old(self)@.fed(kind, member, now),
            *final(lost) == (if old(self)@.sheds(member) {
                one_more_lost(*old(lost))
            } else {
                *old(lost)
            }),
    {
        match self.find(&member.node.id) {
            Some(i) => {
                proof {
                    let k = choose|k: int|
                        #[trigger] is_change_of(self.changes@, member.node.id, k);
                    assert(is_change_of(self.changes@, member.node.id, k));
                    assert(k == i) by {
                        if k < i {
                            assert(self.changes@[k].1.node.id != member.node.id);
                        }
                        if i < k {
                            assert(self.changes@[i as int].1.node.id != member.node.id);
                        }
                    }
                }
                self.changes.set(i, (kind, member));
            },
            None => {
                if self.changes.len() < MAX_COALESCED_MEMBERS {
                    self.changes.push((kind, member));
                } else {
                    *lost = lost.saturating_add(1);
                }
            },
        }
        self.window.feed(now);
    }

    fn flush_kind(&self, kind: MemberEventKind, out: &mut VecDeque<Event<I, A>>)
        ensures
            event::reports(final(out)@) == event::reports(old(out)@) + report_of(
                self.changes@,
                kind,
            ),
    {
        let mut members: Vec<Member<I, A>> = Vec::new();
        let mut i: usize = 0;
        while i < self.changes.len()
            invariant
                i <= self.changes@.len(),
                members@ == members_of(self.changes@.take(i as int), kind),
            decreases self.changes@.len() - i,
        {
            assert(self.changes@.take(i + 1).drop_last() =~= self.changes@.take(i as int));
            if self.changes[i].0 == kind {
                members.push(self.changes[i].1.dup());
            }
            i += 1;
        }
        assert(self.changes@.take(i as int) =~= self.changes@);
        if members.len() > 0 {
            report(out, Event::Member(MemberEvent::new(kind, members)));
        }
        assert(event::reports(out@) =~= event::reports(old(out)@) + report_of(self.changes@, kind));
    }

    /// Delivers what is held back.
    pub fn flush(&mut self, out: &mut VecDeque<Event<I, A>>)
        ensures
            final(self)@ == old(self)@.emptied(),
            event::reports(final(out)@) == event::reports(old(out)@) + all_reports(
                old(self)@.changes,
            ),
    {
        let ghost before = event::reports(out@);
        self.flush_kind(MemberEventKind::Join, out);
        self.flush_kind(MemberEventKind::Leave, out);
        self.flush_kind(MemberEventKind::Failed, out);
        self.flush_kind(MemberEventKind::Update, out);
        self.flush_kind(MemberEventKind::Reap, out);
        assert(event::reports(out@) =~= before + all_reports(self.changes@));
        self.reset();
    }

    /// Drops what is held back.
    pub fn reset(&mut self)
        ensures
            final(self)@ == old(self)@.emptied(),
    {
        self.changes = Vec::new();
        self.window.close();
    }
}

/// The count after one more; the largest count of all stays.
pub open spec fn one_more_lost(n: u64) -> u64 {
    if n < u64::MAX {
        (n + 1) as u64
    } else {
        n
    }
}

/// Whether an event is of the same name and of a later time.
pub open spec fn supersedes(e: UserEventMessage, msg: UserEventMessage) -> bool {
    e.name@ == msg.name@ && e.ltime.0 > msg.ltime.0
}

/// Whether an event of the same name and of a later time is held back.
pub open spec fn superseded(events: Seq<UserEventMessage>, msg: UserEventMessage) -> bool {
    exists|i: int| 0 <= i < events.len() && supersedes(#[trigger] events[i], msg)
}

/// The events that a new one leaves standing: all but those of the same name and
/// of an earlier time.
pub open spec fn survivors(events: Seq<UserEventMessage>, msg: UserEventMessage) -> Seq<
    UserEventMessage,
>
    decreases events.len(),
{
    if events.len() == 0 {
        Seq::empty()
    } else if supersedes(msg, events.last()) {
        survivors(events.drop_last(), msg)
    } else {
        survivors(events.drop_last(), msg).push(events.last())
    }
}

/// The user events that are held back, and their window.
#[verifier::ext_equal]
pub struct Backlog {
    /// The window.
    pub window: Window,
    /// How many events are held back at most.
    pub limit: usize,
    /// The events of the latest time of each name.
    pub events: Seq<UserEventMessage>,
}

impl Backlog {
    /// Whether there is no room for an event.
    pub open spec fn sheds(self, msg: UserEventMessage) -> bool {
        !superseded(self.events, msg) && survivors(self.events, msg).len() >= self.limit
    }

    /// The backlog with one more event, unless a later one of its name stands in
    /// its way or there is no room.
    pub open spec fn fed(self, msg: UserEventMessage, now: Instant) -> Self {
        Backlog {
            window: self.window.fed(now),
            limit: self.limit,
            events: if superseded(self.events, msg) {
                self.events
            } else if survivors(self.events, msg).len() < self.limit {
                survivors(self.events, msg).push(msg)
            } else {
                survivors(self.events, msg)
            },
        }
    }

    /// The reports of the events.
    pub open spec fn reports<I, A>(self) -> Seq<Report<I, A>> {
        Seq::new(self.events.len(), |i: int| Report::User(self.events[i]))
    }

    /// The backlog after its events were delivered or dropped.
    pub open spec fn emptied(self) -> Self {
        Backlog { window: self.window.shut(), events: Seq::empty(), ..self }
    }
}

/// Holds user events back.
pub struct UserEventCoalescer {
    /// The window.
    pub window: Window,
    /// How many events are held back at most.
    pub limit: usize,
    /// The events of the latest time of each name.
    pub events: Vec<UserEventMessage>,
}

impl View for UserEventCoalescer {
    type V = Backlog;

    open spec fn view(&self) -> Backlog {
        Backlog { window: self.window, limit: self.limit, events: self.events@ }
    }
}

impl UserEventCoalescer {
    /// Returns what holds nothing back yet.
    pub fn new(coalesce_period: Duration, quiescent_period: Duration, limit: usize) -> (r: Self)
        ensures
            r@ == (Backlog {
                window: Window::closed(coalesce_period, quiescent_period),
                limit,
                events: Seq::empty(),
            }),
    {
        UserEventCoalescer {
            window: Window::new(coalesce_period, quiescent_period),
            limit,
            events: Vec::new(),
        }
    }

    fn is_superseded(&self, msg: &UserEventMessage) -> (r: bool)
        ensures
            r == superseded(self.events@, *msg),
    {
        let mut i: usize = 0;
        while i < self.events.len()
            invariant
                i <= self.events@.len(),
                forall|j: int| 0 <= j < i ==> !supersedes(#[trigger] self.events@[j], *msg),
            decreases self.events@.len() - i,
        {
            if self.events[i].ltime.0 > msg.ltime.0 && self.events[i].name == msg.name {
                assert(supersedes(self.events@[i as int], *msg));
                return true;
            }
            i += 1;
        }
        false
    }

    /// Holds an event back, and counts it as lost where there is no room for it.
    pub fn feed(&mut self, msg: UserEventMessage, now: Instant, lost: &mut u64)
        ensures
            final(self)@ == old(self)@.fed(msg, now),
            *final(lost) == (if old(self)@.sheds(msg) {
                one_more_lost(*old(lost))
            } else {
                *old(lost)
            }),
    {
        self.window.feed(now);
        if self.is_superseded(&msg) {
            return;
        }
        let mut kept: Vec<UserEventMessage> = Vec::new();
        let mut i: usize = 0;
        while i < self.events.len()
            invariant
                i <= self.events@.len(),
                kept@ == survivors(self.events@.take(i as int), msg),
            decreases self.events@.len() - i,
        {
            assert(self.events@.take(i + 1).drop_last() =~= self.events@.take(i as int));
            if !(msg.ltime.0 > self.events[i].ltime.0 && msg.name == self.events[i].name) {
                kept.push(self.events[i].dup());
            }
            i += 1;
        }
        assert(self.events@.take(i as int) =~= self.events@);
        if kept.len() < self.limit {
            kept.push(msg);
        } else {
            *lost = lost.saturating_add(1);
        }
        self.events = kept;
    }

    /// Delivers what is held back.
    pub fn flush<I, A>(&mut self, out: &mut VecDeque<Event<I, A>>)
        ensures
            final(self)@ == old(self)@.emptied(),
            event::reports(final(out)@) == event::reports(old(out)@) + old(self)@.reports(),
    {
        let ghost before = event::reports(out@);
        let ghost held = self@;
        let mut i: usize = 0;
        while i < self.events.len()
            invariant
                i <= self.events@.len(),
                self@ == held,
                event::reports(out@) == before + held.reports().take(i as int),
            decreases self.events@.len() - i,
        {
            assert(held.reports::<I, A>().take(i + 1) =~= held.reports::<I, A>().take(
                i as int,
            ).push(Report::User(self.events@[i as int])));
            report(out, Event::User(self.events[i].dup()));
            i += 1;
        }
        assert(held.reports::<I, A>().take(i as int) =~= held.reports::<I, A>());
        self.reset();
    }

    /// Drops what is held back.
    pub fn reset(&mut self)
        ensures
            final(self)@ == old(self)@.emptied(),
    {
        self.events = Vec::new();
        self.window.close();
    }
}

/// A window that takes note of an event closes one quiescent period later, and no later
/// than one coalesce period after it was opened. It is due from the first of the two on; a
/// window that was closed is not due.
pub proof fn windows_close_in_time(w: Window, now: Instant, at: Instant)
    requires
        now + w.coalesce_period <= u64::MAX,
        now + w.quiescent_period <= u64::MAX,
    ensures
        ({
            let fed = w.fed(now);
            &&& fed.coalesce_period == w.coalesce_period
            &&& fed.quiescent_period == w.quiescent_period
            &&& fed.quiet matches Some(t) && t == now + w.quiescent_period
            &&& w.cap is None ==> (fed.cap matches Some(t) && t == now + w.coalesce_period)
            &&& w.cap is Some ==> fed.cap == w.cap
        }),
        w.is_due(at) <==> (w.cap matches Some(t) && t <= at) || (w.quiet matches Some(t) && t
            <= at),
        !w.shut().is_due(at),
        w.shut().fed(now) == (Window {
            cap: w.shut().fed(now).cap,
            quiet: w.shut().fed(now).quiet,
            ..w
        }),
        w.shut().fed(now).cap matches Some(t) && t == now + w.coalesce_period,
        Window::closed(w.coalesce_period, w.quiescent_period) == w.shut(),
{
}

/// The members of the changes of one kind are those of exactly the changes of that kind, in
/// order.
pub proof fn members_are_picked_by_kind<I, A>(changes: Seq<Change<I, A>>, kind: MemberEventKind)
    ensures
        members_of(changes, kind) == changes.filter(
            |c: Change<I, A>| c.0 == kind,
        ).map_values(|c: Change<I, A>| c.1),
    decreases changes.len(),
{
    reveal(Seq::filter);
    if changes.len() > 0 {
        members_are_picked_by_kind(changes.drop_last(), kind);
        assert(members_of(changes, kind) =~= changes.filter(
            |c: Change<I, A>| c.0 == kind,
        ).map_values(|c: Change<I, A>| c.1));
    }
}

proof fn every_change_has_its_member<I, A>(changes: Seq<Change<I, A>>, kind: MemberEventKind)
    ensures
        forall|i: int|
            0 <= i < changes.len() && (#[trigger] changes[i]).0 == kind ==> members_of(
                changes,
                kind,
            ).contains(changes[i].1),
        forall|x: Member<I, A>| #[trigger]
            members_of(changes, kind).contains(x) ==> changes.contains((kind, x)),
    decreases changes.len(),
{
    if changes.len() > 0 {
        let rest = changes.drop_last();
        let before = members_of(rest, kind);
        let after = members_of(changes, kind);
        every_change_has_its_member(rest, kind);
        assert forall|i: int|
            0 <= i < changes.len() && (#[trigger] changes[i]).0 == kind implies after.contains(
            changes[i].1,
        ) by {
            if i < rest.len() {
                assert(rest[i] == changes[i]);
                let j = choose|j: int| 0 <= j < before.len() && before[j] == changes[i].1;
                assert(after[j] == changes[i].1);
            } else {
                assert(after[before.len() as int] == changes[i].1);
            }
        }
        assert forall|x: Member<I, A>| #[trigger] after.contains(x) implies changes.contains(
            (kind, x),
        ) by {
            let j = choose|j: int| 0 <= j < after.len() && after[j] == x;
            if j < before.len() {
                assert(before[j] == x);
                assert(before.contains(x));
                let i = choose|i: int| 0 <= i < rest.len() && rest[i] == (kind, x);
                assert(changes[i] == (kind, x));
            } else {
                assert(changes[changes.len() - 1] == (kind, x));
            }
        }
    }
}

/// Whether some report of a kind names a member.
pub open spec fn names<I, A>(
    reports: Seq<Report<I, A>>,
    kind: MemberEventKind,
    member: Member<I, A>,
) -> bool {
    exists|i: int|
        0 <= i < reports.len() && (#[trigger] reports[i] matches Report::Member(k, members) && k
            == kind && members.contains(member))
}

/// The place of a kind in the order in which the kinds are reported.
pub open spec fn place_of(kind: MemberEventKind) -> int {
    match kind {
        MemberEventKind::Join => 0,
        MemberEventKind::Leave => 1,
        MemberEventKind::Failed => 2,
        MemberEventKind::Update => 3,
        MemberEventKind::Reap => 4,
    }
}

/// What is held back is delivered in full and nothing besides: a member is named in a report
/// of a kind exactly if a change of that kind and member was held back. Each report is of
/// its own kind and names someone: those that joined come first, then those that left,
/// failed, changed and were reaped.
pub proof fn held_changes_are_delivered<I, A>(changes: Seq<Change<I, A>>)
    ensures
        forall|kind: MemberEventKind, x: Member<I, A>| #[trigger]
            names(all_reports(changes), kind, x) <==> changes.contains((kind, x)),
        forall|i: int|
            0 <= i < all_reports(changes).len() ==> (#[trigger] all_reports(
                changes,
            )[i] matches Report::Member(k, members) && members.len() > 0 && members
                == changes.filter(|c: Change<I, A>| c.0 == k).map_values(|c: Change<I, A>| c.1)),
        forall|i: int, j: int|
            0 <= i < j < all_reports(changes).len() ==> (#[trigger] all_reports(
                changes,
            )[i] matches Report::Member(k, _) && (#[trigger] all_reports(
                changes,
            )[j] matches Report::Member(l, _) && place_of(k) < place_of(l))),
{
    let all = all_reports(changes);
    every_change_has_its_member(changes, MemberEventKind::Join);
    every_change_has_its_member(changes, MemberEventKind::Leave);
    every_change_has_its_member(changes, MemberEventKind::Failed);
    every_change_has_its_member(changes, MemberEventKind::Update);
    every_change_has_its_member(changes, MemberEventKind::Reap);
    let a = report_of(changes, MemberEventKind::Join);
    let b = report_of(changes, MemberEventKind::Leave);
    let c = report_of(changes, MemberEventKind::Failed);
    let d = report_of(changes, MemberEventKind::Update);
    let e = report_of(changes, MemberEventKind::Reap);
    assert(all == a + b + c + d + e);
    members_are_picked_by_kind(changes, MemberEventKind::Join);
    members_are_picked_by_kind(changes, MemberEventKind::Leave);
    members_are_picked_by_kind(changes, MemberEventKind::Failed);
    members_are_picked_by_kind(changes, MemberEventKind::Update);
    members_are_picked_by_kind(changes, MemberEventKind::Reap);
    assert forall|kind: MemberEventKind, x: Member<I, A>|
        changes.contains((kind, x)) implies #[trigger] names(all, kind, x) by {
        let i = choose|i: int| 0 <= i < changes.len() && changes[i] == (kind, x);
        assert(changes[i].0 == kind);
        let at: nat = match kind {
            MemberEventKind::Join => 0,
            MemberEventKind::Leave => a.len(),
            MemberEventKind::Failed => a.len() + b.len(),
            MemberEventKind::Update => a.len() + b.len() + c.len(),
            MemberEventKind::Reap => a.len() + b.len() + c.len() + d.len(),
        };
        assert(all[at as int] == Report::<I, A>::Member(kind, members_of(changes, kind)));
    }
    assert forall|kind: MemberEventKind, x: Member<I, A>| #[trigger]
        names(all, kind, x) implies changes.contains((kind, x)) by {
        let i = choose|i: int|
            0 <= i < all.len() && (#[trigger] all[i] matches Report::Member(k, members) && k == kind
                && members.contains(x));
        assert(members_of(changes, kind).contains(x));
    }
}

/// A change that comes in takes the place of the one that is held back of its member, or the
/// last place, and leaves those of all other members alone and where they are. Where there is room, it is held back; room ends
/// at 4096 members.
pub proof fn changes_of_others_stay<I, A>(
    b: Batch<I, A>,
    kind: MemberEventKind,
    member: Member<I, A>,
    now: Instant,
)
    ensures
        forall|k: MemberEventKind, x: Member<I, A>|
            x.node.id != member.node.id ==> (#[trigger] b.fed(kind, member, now).changes.contains(
                (k, x),
            ) <==> b.changes.contains((k, x))),
        forall|i: int|
            0 <= i < b.changes.len() ==> (#[trigger] b.fed(
                kind,
                member,
                now,
            ).changes[i]).1.node.id == b.changes[i].1.node.id,
        b.fed(kind, member, now).changes.len() <= b.changes.len() + 1,
        b.changes.len() < 4096 ==> b.fed(kind, member, now).changes.contains((kind, member)),
        b.fed(kind, member, now).changes.contains((kind, member)) || (b.sheds(member)
            && b.fed(kind, member, now).changes == b.changes),
        b.sheds(member) <==> b.changes.len() >= 4096 && forall|i: int|
            0 <= i < b.changes.len() ==> (#[trigger] b.changes[i]).1.node.id != member.node.id,
        b.emptied().changes.len() == 0,
        b.emptied().window == b.window.shut(),
        b.fed(kind, member, now).window == b.window.fed(now),
{
    let id = member.node.id;
    let after = b.fed(kind, member, now).changes;
    if b.holds(id) {
        let i = choose|i: int| #[trigger] is_change_of(b.changes, id, i);
        assert(after[i] == (kind, member));
        assert forall|k: MemberEventKind, x: Member<I, A>| x.node.id != id implies (
        #[trigger] after.contains((k, x)) <==> b.changes.contains((k, x))) by {
            if after.contains((k, x)) {
                let j = choose|j: int| 0 <= j < after.len() && after[j] == (k, x);
                assert(b.changes[j] == (k, x));
            }
            if b.changes.contains((k, x)) {
                let j = choose|j: int| 0 <= j < b.changes.len() && b.changes[j] == (k, x);
                assert(after[j] == (k, x));
            }
        }
    } else {
        assert forall|i: int| 0 <= i < b.changes.len() implies (
        #[trigger] b.changes[i]).1.node.id != id by {
            if b.changes[i].1.node.id == id {
                first_change_exists(b.changes, id, i);
            }
        }
        if b.changes.len() < MAX_COALESCED_MEMBERS {
            assert(after[b.changes.len() as int] == (kind, member));
            assert forall|k: MemberEventKind, x: Member<I, A>| x.node.id != id implies (
            #[trigger] after.contains((k, x)) <==> b.changes.contains((k, x))) by {
                if after.contains((k, x)) {
                    let j = choose|j: int| 0 <= j < after.len() && after[j] == (k, x);
                    assert(b.changes[j] == (k, x));
                }
                if b.changes.contains((k, x)) {
                    let j = choose|j: int| 0 <= j < b.changes.len() && b.changes[j] == (k, x);
                    assert(after[j] == (k, x));
                }
            }
        }
    }
}

/// What a new user event leaves standing is every event but those of its name and of an
/// earlier time, in order.
pub proof fn only_earlier_events_give_way(events: Seq<UserEventMessage>, msg: UserEventMessage)
    ensures
        survivors(events, msg) == events.filter(
            |e: UserEventMessage| !(e.name@ == msg.name@ && e.ltime.0 < msg.ltime.0),
        ),
    decreases events.len(),
{
    reveal(Seq::filter);
    if events.len() > 0 {
        only_earlier_events_give_way(events.drop_last(), msg);
    }
}

proof fn standing_events_stand(events: Seq<UserEventMessage>, msg: UserEventMessage)
    ensures
        forall|e: UserEventMessage| #[trigger]
            survivors(events, msg).contains(e) <==> events.contains(e) && !(e.name@ == msg.name@
                && e.ltime.0 < msg.ltime.0),
    decreases events.len(),
{
    if events.len() > 0 {
        let rest = events.drop_last();
        standing_events_stand(rest, msg);
        let before = survivors(rest, msg);
        let after = survivors(events, msg);
        assert forall|e: UserEventMessage| #[trigger]
            after.contains(e) <==> events.contains(e) && !(e.name@ == msg.name@ && e.ltime.0
                < msg.ltime.0) by {
            if after.contains(e) {
                let j = choose|j: int| 0 <= j < after.len() && after[j] == e;
                if j < before.len() {
                    assert(before[j] == e);
                    assert(before.contains(e));
                    let i = choose|i: int| 0 <= i < rest.len() && rest[i] == e;
                    assert(events[i] == e);
                } else {
                    assert(events[events.len() - 1] == e);
                }
            }
            if events.contains(e) && !(e.name@ == msg.name@ && e.ltime.0 < msg.ltime.0) {
                let i = choose|i: int| 0 <= i < events.len() && events[i] == e;
                if i < rest.len() {
                    assert(rest[i] == e);
                    assert(before.contains(e));
                    let j = choose|j: int| 0 <= j < before.len() && before[j] == e;
                    assert(after[j] == e);
                } else {
                    assert(after[before.len() as int] == e);
                }
            }
        }
    }
}

/// A user event that comes in is held back, unless a later one of its name is, or there is
/// no room. It leaves alone every event of another name and every one of its name that is
/// not earlier. An event that is lost for want of room still ends those that it outdates.
pub proof fn user_events_of_others_stay(
    b: Backlog,
    msg: UserEventMessage,
    e: UserEventMessage,
    now: Instant,
)
    ensures
        e.name@ != msg.name@ && b.events.contains(e) ==> b.fed(msg, now).events.contains(e),
        e.ltime.0 >= msg.ltime.0 && b.events.contains(e) ==> b.fed(msg, now).events.contains(e),
        e != msg && b.fed(msg, now).events.contains(e) ==> b.events.contains(e),
        b.events.len() < b.limit && (forall|i: int|
            0 <= i < b.events.len() && (#[trigger] b.events[i]).name@ == msg.name@
                ==> b.events[i].ltime.0 <= msg.ltime.0) ==> b.fed(msg, now).events.contains(msg),
        b.events.len() < b.limit ==> !b.sheds(msg),
        b.sheds(msg) ==> forall|i: int|
            0 <= i < b.events.len() && (#[trigger] b.events[i]).name@ == msg.name@
                ==> b.events[i].ltime.0 <= msg.ltime.0,
        b.fed(msg, now).limit == b.limit,
        b.fed(msg, now).window == b.window.fed(now),
        b.emptied() == (Backlog { window: b.window.shut(), events: Seq::empty(), ..b }),
{
    standing_events_stand(b.events, msg);
    survivors_are_fewer(b.events, msg);
    let kept = survivors(b.events, msg);
    let after = b.fed(msg, now).events;
    if !superseded(b.events, msg) {
        assert(kept.contains(e) ==> after.contains(e)) by {
            if kept.contains(e) {
                let i = choose|i: int| 0 <= i < kept.len() && kept[i] == e;
                assert(after[i] == e);
            }
        }
        assert(e != msg && after.contains(e) ==> kept.contains(e)) by {
            if e != msg && after.contains(e) {
                let i = choose|i: int| 0 <= i < after.len() && after[i] == e;
                assert(kept[i] == e);
            }
        }
        if kept.len() < b.limit {
            assert(after[kept.len() as int] == msg);
        }
    }
    if b.sheds(msg) {
        assert forall|i: int|
            0 <= i < b.events.len() && (#[trigger] b.events[i]).name@
                == msg.name@ implies b.events[i].ltime.0 <= msg.ltime.0 by {
            assert(!supersedes(b.events[i], msg));
        }
    }
}

/// The user events that are held back stay in the order in which they came, and a new one
/// comes last.
pub proof fn held_events_stay_in_order(b: Backlog, msg: UserEventMessage, now: Instant)
    requires
        forall|i: int|
            0 <= i < b.events.len() && (#[trigger] b.events[i]).name@ == msg.name@
                ==> b.events[i].ltime.0 <= msg.ltime.0,
    ensures
        ({
            let kept = b.events.filter(
                |e: UserEventMessage| !(e.name@ == msg.name@ && e.ltime.0 < msg.ltime.0),
            );
            &&& kept.len() < b.limit ==> b.fed(msg, now).events == kept.push(msg)
            &&& kept.len() >= b.limit ==> b.fed(msg, now).events == kept
            &&& b.sheds(msg) <==> kept.len() >= b.limit
        }),
{
    only_earlier_events_give_way(b.events, msg);
    assert(!superseded(b.events, msg));
}

proof fn survivors_are_fewer(events: Seq<UserEventMessage>, msg: UserEventMessage)
    ensures
        survivors(events, msg).len() <= events.len(),
    decreases events.len(),
{
    if events.len() > 0 {
        survivors_are_fewer(events.drop_last(), msg);
    }
}

/// The user events that are held back are reported one by one, in the order in which they
/// stand. The count of lost events grows by one, or stands at the last value.
pub proof fn held_events_are_delivered<I, A>(b: Backlog, n: u64)
    ensures
        b.reports::<I, A>().len() == b.events.len(),
        forall|i: int|
            0 <= i < b.events.len() ==> #[trigger] b.reports::<I, A>()[i] == Report::<I, A>::User(
                b.events[i],
            ),
        n < u64::MAX ==> one_more_lost(n) == n + 1,
        one_more_lost(u64::MAX) == u64::MAX,
{
}

} // verus!
