//! How members come, change and go.

use crate::action::{Action, Frame, INTENT_RANK};
use crate::clock;
use crate::clock::{ltime_is_acceptable, witness, LamportTime};
use crate::endpoint::{Endpoint, Machine, ReconnectDelegate};
use crate::event::MemberEventKind;
use crate::id::{Id, Value};
use crate::members;
use crate::members::{remove_old_member, IntentKind, Member, MemberState, MemberStatus, NodeIntent};
use crate::time;
use crate::time::{duration_since, Duration, Instant};
use crate::typed::{AnyMessage, JoinMessage, Node, Tags};
use crate::vecmap::SortedMap;
use std::sync::Arc;
use vstd::prelude::*;

verus! {

/// The metadata that a node gossips about itself.
#[derive(Debug)]
pub enum Meta {
    /// None.
    Empty,
    /// Tags.
    Readable(Tags),
    /// Bytes that are no tags.
    Unreadable,
}

impl Meta {
    /// The tags of a node with this metadata. A node whose tags cannot be read is a
    /// node without tags.
    pub open spec fn tags(self) -> Seq<(String, String)> {
        match self {
            Meta::Readable(tags) => tags.entries@,
            _ => Seq::empty(),
        }
    }

    /// Returns the tags of a node with this metadata.
    pub fn into_tags(self) -> (r: Arc<Tags>)
        ensures
            r.entries@ == self.tags(),
    {
        match self {
            Meta::Readable(tags) => Arc::new(tags),
            _ => Arc::new(Tags::new()),
        }
    }
}

/// The list after the element at `i` was replaced by the last one.
pub open spec fn swap_removed<T>(list: Seq<T>, i: int) -> Seq<T> {
    list.update(i, list.last()).drop_last()
}

/// The intents that are not older than `timeout`.
pub open spec fn recent_only<I>(
    intents: Map<I, NodeIntent>,
    now: Instant,
    timeout: Duration,
) -> Map<I, NodeIntent> {
    Map::new(
        |id: I| intents.dom().contains(id) && time::since(now, intents[id].wall_time) <= timeout,
        |id: I| intents[id],
    )
}

impl<I, A, G> Machine<I, A, G> {
    /// Whether a node is a member.
    pub open spec fn knows(self, id: I) -> bool {
        self.states.dom().contains(id)
    }

    /// The machine with a member added or replaced.
    pub open spec fn with_member(self, id: I, ms: MemberState<I, A>) -> Self {
        Machine { states: self.states.insert(id, ms), ..self }
    }

    /// The machine with what it keeps of a node that just joined. A known member is
    /// alive again. Of an unknown node an intent may have arrived earlier; one to
    /// leave makes it a leaving member.
    pub open spec fn joined_state(self, node: Node<I, A>, tags: Arc<Tags>) -> MemberState<I, A> {
        if self.knows(node.id) {
            MemberState {
                member: Member { node, tags, status: MemberStatus::Alive },
                status_time: self.states[node.id].status_time,
                leave_time: None,
            }
        } else {
            match members::intent_time(self.intents, node.id, IntentKind::Leave) {
                Some(t) => MemberState {
                    member: Member { node, tags, status: MemberStatus::Leaving },
                    status_time: t,
                    leave_time: None,
                },
                None => MemberState {
                    member: Member { node, tags, status: MemberStatus::Alive },
                    status_time: match members::intent_time(
                        self.intents,
                        node.id,
                        IntentKind::Join,
                    ) {
                        Some(t) => t,
                        None => LamportTime(0),
                    },
                    leave_time: None,
                },
            }
        }
    }

    /// Whether a node is a member that failed or left.
    pub open spec fn departed(self, id: I) -> bool {
        self.knows(id) && (self.states[id].member.status is Failed
            || self.states[id].member.status is Left)
    }

    /// The machine after a node joined.
    pub open spec fn joined(self, node: Node<I, A>, tags: Arc<Tags>) -> Self {
        let ms = self.joined_state(node, tags);
        Machine {
            states: self.states.insert(node.id, ms),
            failed: if self.departed(node.id) {
                members::without(self.failed, node.id)
            } else {
                self.failed
            },
            left: if self.departed(node.id) {
                members::without(self.left, node.id)
            } else {
                self.left
            },
            dirty: true,
            ..self
        }.emitting_member(MemberEventKind::Join, ms.member)
    }

    /// The machine after a node was found gone. A member that announced its leave has
    /// left; one that did not has failed.
    pub open spec fn departing(self, id: I, now: Instant) -> Self {
        if !self.knows(id) {
            self
        } else {
            let ms = self.states[id];
            match ms.member.status {
                MemberStatus::Leaving => {
                    let gone = MemberState {
                        leave_time: Some(now),
                        ..ms.spec_with_status(MemberStatus::Left)
                    };
                    Machine {
                        states: self.states.insert(id, gone),
                        left: self.left.push(id),
                        dirty: true,
                        ..self
                    }.emitting_member(MemberEventKind::Leave, gone.member)
                },
                MemberStatus::Alive => {
                    let gone = MemberState {
                        leave_time: Some(now),
                        ..ms.spec_with_status(MemberStatus::Failed)
                    };
                    Machine {
                        states: self.states.insert(id, gone),
                        failed: self.failed.push(id),
                        dirty: true,
                        ..self
                    }.emitting_member(MemberEventKind::Failed, gone.member)
                },
                _ => self,
            }
        }
    }

    /// The machine after a node changed its address or its tags.
    pub open spec fn updating(self, node: Node<I, A>, tags: Arc<Tags>) -> Self {
        if !self.knows(node.id) {
            self
        } else {
            let ms = self.states[node.id];
            let member = Member { node, tags, status: ms.member.status };
            self.with_member(node.id, MemberState { member, ..ms }).emitting_member(
                MemberEventKind::Update,
                member,
            )
        }
    }

    /// The machine whose member clock has seen a time.
    pub open spec fn witnessing(self, ltime: LamportTime) -> Self {
        Machine { clock: clock::witnessed(self.clock, ltime.0), ..self }
    }

    /// The machine that keeps an intent for an unknown node.
    pub open spec fn keeping_intent(
        self,
        id: I,
        kind: IntentKind,
        ltime: LamportTime,
        now: Instant,
    ) -> Self {
        Machine {
            intents: self.intents.insert(id, NodeIntent { kind, ltime, wall_time: now }),
            dirty: true,
            ..self
        }
    }

    /// Whether an intent is later than what is known of its node.
    pub open spec fn is_news(self, ltime: LamportTime, id: I) -> bool {
        if self.knows(id) {
            ltime.0 > self.states[id].status_time.0
        } else {
            members::intent_is_news(self.intents, id, ltime)
        }
    }

    /// Whether a join intent takes effect, and so is to be passed on.
    pub open spec fn takes_join_intent(self, ltime: LamportTime, id: I) -> bool {
        clock::acceptable(ltime.0) && self.is_news(ltime, id)
    }

    /// The machine after a join intent. A member that was about to leave is alive
    /// again. A time out of range changes nothing.
    pub open spec fn after_join_intent(self, ltime: LamportTime, id: I, now: Instant) -> Self {
        if !clock::acceptable(ltime.0) {
            self
        } else if !self.is_news(ltime, id) {
            self.witnessing(ltime)
        } else if self.knows(id) {
            let ms = MemberState { status_time: ltime, ..self.states[id] };
            self.witnessing(ltime).with_member(
                id,
                if ms.member.status is Leaving {
                    ms.spec_with_status(MemberStatus::Alive)
                } else {
                    ms
                },
            ).dirtied()
        } else {
            self.witnessing(ltime).keeping_intent(id, IntentKind::Join, ltime, now)
        }
    }

    /// The machine after it announced its own join at a time.
    pub open spec fn announcing_join(self, local: I, ltime: LamportTime) -> Self {
        self.witnessing(ltime).after_join_intent(ltime, local, self.drain_now).asking(
            Action::Broadcast {
                rank: INTENT_RANK,
                frame: Frame::Message(AnyMessage::Join(JoinMessage { ltime, id: local })),
            },
        )
    }

    /// The machine that asks for the coordinate of a node to be forgotten, where
    /// there are coordinates.
    pub open spec fn forgetting(self, id: I) -> Self {
        if self.opts.disable_coordinates {
            self
        } else {
            self.asking(Action::ForgetCoordinate { id })
        }
    }

    /// The machine without a member, whose end is reported.
    pub open spec fn erasing(self, id: I) -> Self {
        if self.knows(id) {
            Machine { states: self.states.remove(id), ..self.forgetting(id) }.emitting_member(
                MemberEventKind::Reap,
                self.states[id].member,
            )
        } else {
            self
        }
    }

    /// The machine after it forgot a node at once and altogether.
    pub open spec fn pruning(self, id: I) -> Self {
        let scrubbed = Machine {
            left: members::without(self.left, id),
            failed: members::without(self.failed, id),
            intents: self.intents.remove(id),
            ..self
        }.forgetting(id);
        if self.knows(id) {
            Machine { states: self.states.remove(id), ..scrubbed }.emitting_member(
                MemberEventKind::Reap,
                self.states[id].member,
            ).dirtied()
        } else {
            scrubbed.dirtied()
        }
    }

    /// The machine after it forgot a node, where that was asked for.
    pub open spec fn pruning_if(self, prune: bool, id: I) -> Self {
        if prune {
            self.pruning(id)
        } else {
            self
        }
    }

    /// Whether a leave intent is about this node, which does not leave.
    pub open spec fn refutes(self, local: I, id: I) -> bool {
        id == local && self.state is Alive
    }

    /// Whether a leave intent takes effect, and so is to be passed on.
    pub open spec fn takes_leave_intent(self, local: I, ltime: LamportTime, id: I) -> bool {
        &&& clock::acceptable(ltime.0)
        &&& self.is_news(ltime, id)
        &&& self.knows(id) ==> !self.refutes(local, id) && !(
        self.states[id].member.status is Unknown)
    }

    /// The machine after a leave intent. It is refuted where it is about this node
    /// and this node does not leave. A time out of range changes nothing.
    pub open spec fn after_leave_intent(
        self,
        local: I,
        ltime: LamportTime,
        id: I,
        prune: bool,
        now: Instant,
    ) -> Self {
        let seen = self.witnessing(ltime);
        if !clock::acceptable(ltime.0) {
            self
        } else if !self.is_news(ltime, id) {
            seen
        } else if !self.knows(id) {
            seen.keeping_intent(id, IntentKind::Leave, ltime, now)
        } else if self.refutes(local, id) {
            seen.announcing_join(local, LamportTime(seen.clock))
        } else {
            let ms = MemberState { status_time: ltime, ..self.states[id] };
            match ms.member.status {
                MemberStatus::Unknown => seen.with_member(id, ms).dirtied(),
                MemberStatus::Alive => seen.with_member(
                    id,
                    ms.spec_with_status(MemberStatus::Leaving),
                ).dirtied().pruning_if(prune, id),
                MemberStatus::Leaving | MemberStatus::Left => seen.with_member(
                    id,
                    ms,
                ).dirtied().pruning_if(prune, id),
                MemberStatus::Failed => {
                    let gone = ms.spec_with_status(MemberStatus::Left);
                    Machine {
                        states: seen.states.insert(id, gone),
                        failed: members::without(seen.failed, id),
                        left: seen.left.push(id),
                        ..seen
                    }.emitting_member(
                        MemberEventKind::Leave,
                        gone.member,
                    ).dirtied().pruning_if(prune, id)
                },
            }
        }
    }
}

impl<I, A, G: ReconnectDelegate<I, A>> Machine<I, A, G> {
    /// Whether a departed member was kept long enough, where `base` is what the
    /// configuration says.
    pub open spec fn expired(self, id: I, base: Duration, now: Instant) -> bool {
        &&& self.knows(id)
        &&& self.states[id].leave_time matches Some(then) && time::since(now, then) > (
        match self.delegate {
            Some(d) => d.timeout_for(self.states[id].member, base),
            None => base,
        })
    }

    /// The machine after the failed members from `i` on were reaped.
    pub open spec fn reaping_failed(self, i: int, now: Instant) -> Self
        decreases self.failed.len() - i,
        when 0 <= i
    {
        if i >= self.failed.len() {
            self
        } else if self.expired(self.failed[i], self.opts.reconnect_timeout, now) {
            Machine {
                failed: swap_removed(self.failed, i),
                ..self.erasing(self.failed[i])
            }.reaping_failed(i, now)
        } else {
            self.reaping_failed(i + 1, now)
        }
    }

    /// The machine after the members that left were reaped from `i` on.
    pub open spec fn reaping_left(self, i: int, now: Instant) -> Self
        decreases self.left.len() - i,
        when 0 <= i
    {
        if i >= self.left.len() {
            self
        } else if self.expired(self.left[i], self.opts.tombstone_timeout, now) {
            Machine {
                left: swap_removed(self.left, i),
                ..self.erasing(self.left[i])
            }.reaping_left(i, now)
        } else {
            self.reaping_left(i + 1, now)
        }
    }

    /// The machine after departed members and old intents were reaped.
    pub open spec fn reaped(self, now: Instant) -> Self {
        let m = self.reaping_failed(0, now).reaping_left(0, now);
        Machine {
            intents: recent_only(m.intents, now, self.opts.recent_intent_timeout),
            dirty: true,
            ..m
        }
    }
}

fn drop_old_intents<I: Id>(intents: &mut SortedMap<I, NodeIntent>, now: Instant, timeout: Duration)
    ensures
        final(intents)@ == recent_only(old(intents)@, now, timeout),
{
    let ghost all = intents@;
    let mut i: usize = 0;
    while i < intents.len()
        invariant
            i <= intents.keys().len(),
            all == old(intents)@,
            forall|id: I|
                #[trigger] intents@.dom().contains(id) ==> all.dom().contains(id) && intents@[id]
                    == all[id],
            forall|id: I|
                #[trigger] all.dom().contains(id) && !intents@.dom().contains(id) ==> time::since(
                    now,
                    all[id].wall_time,
                ) > timeout,
            forall|j: int|
                0 <= j < i ==> time::since(
                    now,
                    intents@[#[trigger] intents.keys()[j]].wall_time,
                ) <= timeout,
        decreases intents.keys().len() - i,
    {
        let ghost keys = intents.keys();
        let stale = {
            let entry = intents.entry_at(i);
            duration_since(now, entry.1.wall_time) > timeout
        };
        if stale {
            intents.remove_at(i);
            assert forall|j: int| 0 <= j < i implies time::since(
                now,
                intents@[#[trigger] intents.keys()[j]].wall_time,
            ) <= timeout by {
                assert(intents.keys()[j] == keys[j]);
            }
        } else {
            i += 1;
        }
    }
    proof {
        assert forall|id: I| #[trigger] intents@.dom().contains(id) implies time::since(
            now,
            intents@[id].wall_time,
        ) <= timeout by {
            let j = choose|j: int| 0 <= j < intents.keys().len() && intents.keys()[j] == id;
            assert(intents.keys()[j] == id);
        }
    }
    assert(intents@ =~= recent_only(all, now, timeout));
}

impl<I: Id, A: Value, G> Endpoint<I, A, G> {
    fn put_member(&mut self, id: &I, ms: MemberState<I, A>)
        ensures
            final(self)@ == old(self)@.with_member(*id, ms),
    {
        self.members.states.insert(id.dup(), ms);
    }

    /// Takes in that a node joined.
    pub fn handle_node_join(&mut self, node: Node<I, A>, tags: Arc<Tags>)
        ensures
            final(self)@ == old(self)@.joined(node, tags),
    {
        let ghost before = self@;
        let id = node.id.dup();
        let mut old_status = MemberStatus::Unknown;
        let mut status = MemberStatus::Alive;
        let mut status_time = LamportTime(0);
        match self.members.states.get(&id) {
            Some(ms) => {
                old_status = ms.member.status;
                status_time = ms.status_time;
            },
            None => {
                if let Some(t) = self.members.recent_intent(&id, IntentKind::Join) {
                    status_time = t;
                }
                if let Some(t) = self.members.recent_intent(&id, IntentKind::Leave) {
                    status_time = t;
                    status = MemberStatus::Leaving;
                }
            },
        }
        let member = Member { node, tags, status };
        let shown = member.dup();
        self.put_member(&id, MemberState { member, status_time, leave_time: None });
        if matches!(old_status, MemberStatus::Failed | MemberStatus::Left) {
            remove_old_member(&mut self.members.failed_members, &id);
            remove_old_member(&mut self.members.left_members, &id);
        }
        self.mark_local_state_dirty();
        self.emit_member(MemberEventKind::Join, shown);
        assert(self@ =~= before.joined(node, tags));
    }

    /// Takes in that a node is gone.
    pub fn handle_node_leave(&mut self, id: &I, now: Instant)
        ensures
            final(self)@ == old(self)@.departing(*id, now),
    {
        let ghost before = self@;
        let gone = match self.members.states.get(id) {
            None => return,
            Some(ms) => match ms.member.status {
                MemberStatus::Leaving => {
                    let mut gone = ms.with_status(MemberStatus::Left);
                    gone.leave_time = Some(now);
                    gone
                },
                MemberStatus::Alive => {
                    let mut gone = ms.with_status(MemberStatus::Failed);
                    gone.leave_time = Some(now);
                    gone
                },
                _ => return,
            },
        };
        let left = matches!(gone.member.status, MemberStatus::Left);
        let shown = gone.member.dup();
        self.put_member(id, gone);
        if left {
            self.members.left_members.push(id.dup());
        } else {
            self.members.failed_members.push(id.dup());
        }
        self.mark_local_state_dirty();
        let kind = if left {
            MemberEventKind::Leave
        } else {
            MemberEventKind::Failed
        };
        self.emit_member(kind, shown);
        assert(self@ =~= before.departing(*id, now));
    }

    /// Takes in that a node changed its address or its tags.
    pub fn handle_node_update(&mut self, node: Node<I, A>, tags: Arc<Tags>)
        ensures
            final(self)@ == old(self)@.updating(node, tags),
    {
        let ghost before = self@;
        let id = node.id.dup();
        let ms = match self.members.states.get(&id) {
            None => return,
            Some(ms) => MemberState {
                member: Member { node, tags, status: ms.member.status },
                status_time: ms.status_time,
                leave_time: ms.leave_time,
            },
        };
        let shown = ms.member.dup();
        self.put_member(&id, ms);
        self.emit_member(MemberEventKind::Update, shown);
        assert(self@ =~= before.updating(node, tags));
    }

    /// Takes in a join intent, and returns `true` if it is to be passed on.
    pub fn handle_node_join_intent(&mut self, ltime: LamportTime, id: &I, now: Instant) -> (r: bool)
        ensures
            r == old(self)@.takes_join_intent(ltime, *id),
            final(self)@ == old(self)@.after_join_intent(ltime, *id, now),
    {
        let ghost before = self@;
        if !ltime_is_acceptable(ltime.0) {
            return false;
        }
        witness(&mut self.clock, ltime.0);
        let ms = match self.members.states.get(id) {
            Some(ms) => {
                if ltime.0 <= ms.status_time.0 {
                    return false;
                }
                let status = if matches!(ms.member.status, MemberStatus::Leaving) {
                    MemberStatus::Alive
                } else {
                    ms.member.status
                };
                let mut ms = ms.with_status(status);
                ms.status_time = ltime;
                ms
            },
            None => {
                let buffered = self.members.upsert_intent(id, IntentKind::Join, ltime, now);
                if buffered {
                    self.mark_local_state_dirty();
                }
                assert(self@ =~= before.after_join_intent(ltime, *id, now));
                return buffered;
            },
        };
        self.put_member(id, ms);
        self.mark_local_state_dirty();
        assert(self@ =~= before.after_join_intent(ltime, *id, now));
        true
    }

    pub(crate) fn broadcast_join(&mut self, local: &I, ltime: LamportTime)
        ensures
            final(self)@ == old(self)@.announcing_join(*local, ltime),
    {
        witness(&mut self.clock, ltime.0);
        let now: Instant = self.drain_now;
        self.handle_node_join_intent(ltime, local, now);
        self.ask(
            Action::Broadcast {
                rank: INTENT_RANK,
                frame: Frame::Message(AnyMessage::Join(JoinMessage { ltime, id: local.dup() })),
            },
        );
    }

    fn forget_coordinate(&mut self, id: &I)
        ensures
            final(self)@ == old(self)@.forgetting(*id),
    {
        if !self.opts.disable_coordinates {
            self.ask(Action::ForgetCoordinate { id: id.dup() });
        }
    }

    fn prune_member(&mut self, id: &I)
        ensures
            final(self)@ == old(self)@.pruning(*id),
    {
        let ghost before = self@;
        remove_old_member(&mut self.members.left_members, id);
        remove_old_member(&mut self.members.failed_members, id);
        self.members.recent_intents.remove(id);
        self.forget_coordinate(id);
        match self.members.states.remove(id) {
            Some(ms) => {
                self.emit_member(MemberEventKind::Reap, ms.member);
            },
            None => {},
        }
        self.mark_local_state_dirty();
        assert(self@ =~= before.pruning(*id));
    }

    /// Takes in a leave intent, and returns `true` if it is to be passed on, where
    /// `local` is the id of this node.
    pub fn handle_node_leave_intent(
        &mut self,
        local: &I,
        ltime: LamportTime,
        id: &I,
        prune: bool,
        now: Instant,
    ) -> (r: bool)
        ensures
            r == old(self)@.takes_leave_intent(*local, ltime, *id),
            final(self)@ == old(self)@.after_leave_intent(*local, ltime, *id, prune, now),
    {
        let ghost before = self@;
        if !ltime_is_acceptable(ltime.0) {
            return false;
        }
        witness(&mut self.clock, ltime.0);
        let ghost seen = self@;
        assert(seen =~= before.witnessing(ltime));
        let (mut ms, status) = match self.members.states.get(id) {
            None => {
                let buffered = self.members.upsert_intent(id, IntentKind::Leave, ltime, now);
                if buffered {
                    self.mark_local_state_dirty();
                }
                assert(self@ =~= before.after_leave_intent(*local, ltime, *id, prune, now));
                return buffered;
            },
            Some(ms) => {
                if ltime.0 <= ms.status_time.0 {
                    return false;
                }
                (ms.with_status(ms.member.status), ms.member.status)
            },
        };
        if id.same(local) && self.state.is_alive() {
            self.broadcast_join(local, LamportTime(self.clock));
            return false;
        }
        ms.status_time = ltime;
        match status {
            MemberStatus::Unknown => {
                self.put_member(id, ms);
                self.mark_local_state_dirty();
                false
            },
            MemberStatus::Alive => {
                self.put_member(id, ms.with_status(MemberStatus::Leaving));
                self.mark_local_state_dirty();
                if prune {
                    self.prune_member(id);
                }
                true
            },
            MemberStatus::Leaving | MemberStatus::Left => {
                self.put_member(id, ms);
                self.mark_local_state_dirty();
                if prune {
                    self.prune_member(id);
                }
                true
            },
            MemberStatus::Failed => {
                let gone = ms.with_status(MemberStatus::Left);
                let shown = gone.member.dup();
                self.put_member(id, gone);
                remove_old_member(&mut self.members.failed_members, id);
                self.members.left_members.push(id.dup());
                assert(self@ =~= Machine {
                    states: seen.states.insert(*id, gone),
                    failed: members::without(seen.failed, *id),
                    left: seen.left.push(*id),
                    ..seen
                });
                self.emit_member(MemberEventKind::Leave, shown);
                self.mark_local_state_dirty();
                if prune {
                    self.prune_member(id);
                }
                true
            },
        }
    }
}

impl<I: Id, A: Value, G: ReconnectDelegate<I, A>> Endpoint<I, A, G> {
    fn is_expired(&self, id: &I, base: Duration, now: Instant) -> (r: bool)
        ensures
            r == self@.expired(*id, base, now),
    {
        match self.members.states.get(id) {
            Some(ms) => {
                let timeout: Duration = match &self.reconnect_delegate {
                    Some(d) => d.reconnect_timeout(&ms.member, base),
                    None => base,
                };
                match ms.leave_time {
                    Some(then) => duration_since(now, then) > timeout,
                    None => false,
                }
            },
            None => false,
        }
    }

    fn erase_member(&mut self, id: &I)
        ensures
            final(self)@ == old(self)@.erasing(*id),
    {
        let ghost before = self@;
        match self.members.states.remove(id) {
            Some(ms) => {
                self.forget_coordinate(id);
                assert(self@ =~= Machine {
                    states: before.states.remove(*id),
                    ..before.forgetting(*id)
                });
                self.emit_member(MemberEventKind::Reap, ms.member);
            },
            None => {
                assert(self@ =~= before);
            },
        }
    }

    /// Forgets the members that departed long ago, and the intents that are old.
    pub fn fire_reap(&mut self, now: Instant)
        ensures
            final(self)@ == old(self)@.reaped(now),
    {
        let ghost before = self@;
        let reconnect_timeout: Duration = self.opts.reconnect_timeout;
        let tombstone_timeout: Duration = self.opts.tombstone_timeout;
        let intent_timeout: Duration = self.opts.recent_intent_timeout;
        let mut i: usize = 0;
        while i < self.members.failed_members.len()
            invariant
                i <= self.members.failed_members@.len(),
                self@.opts == before.opts,
                reconnect_timeout == before.opts.reconnect_timeout,
                self@.reaping_failed(i as int, now) == before.reaping_failed(0, now),
            decreases self.members.failed_members@.len() - i,
        {
            let ghost now_at = self@;
            let id = self.members.failed_members[i].dup();
            if self.is_expired(&id, reconnect_timeout, now) {
                self.members.failed_members.swap_remove(i);
                assert(self@ =~= Machine { failed: swap_removed(now_at.failed, i as int), ..now_at });
                self.erase_member(&id);
                assert(self@ =~= Machine {
                    failed: swap_removed(now_at.failed, i as int),
                    ..now_at.erasing(id)
                });
            } else {
                i += 1;
            }
        }
        let ghost middle = self@;
        let mut i: usize = 0;
        while i < self.members.left_members.len()
            invariant
                i <= self.members.left_members@.len(),
                self@.opts == before.opts,
                tombstone_timeout == before.opts.tombstone_timeout,
                self@.reaping_left(i as int, now) == middle.reaping_left(0, now),
            decreases self.members.left_members@.len() - i,
        {
            let ghost now_at = self@;
            let id = self.members.left_members[i].dup();
            if self.is_expired(&id, tombstone_timeout, now) {
                self.members.left_members.swap_remove(i);
                assert(self@ =~= Machine { left: swap_removed(now_at.left, i as int), ..now_at });
                self.erase_member(&id);
                assert(self@ =~= Machine {
                    left: swap_removed(now_at.left, i as int),
                    ..now_at.erasing(id)
                });
            } else {
                i += 1;
            }
        }
        drop_old_intents(&mut self.members.recent_intents, now, intent_timeout);
        self.mark_local_state_dirty();
        assert(self@ =~= before.reaped(now));
    }
}

} // verus!
