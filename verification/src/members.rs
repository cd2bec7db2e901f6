//! The members of the cluster and what was announced about them.

use crate::clock::LamportTime;
use crate::id::{Id, Value};
use crate::time::Instant;
use crate::typed::{Node, Tags};
use crate::vecmap::SortedMap;
use std::sync::Arc;
use vstd::prelude::*;

verus! {

/// How many intents for unknown nodes are kept.
pub const MAX_RECENT_INTENTS: usize = 4096;

/// What is known of a member.
#[derive(Debug, Clone, Copy, PartialEq, Eq, Structural)]
pub enum MemberStatus {
    /// Nothing.
    Unknown,
    /// It is alive.
    Alive,
    /// It announced that it leaves.
    Leaving,
    /// It left.
    Left,
    /// It failed.
    Failed,
}

/// The state of the local node.
#[derive(Debug, Clone, Copy, PartialEq, Eq, Structural)]
pub enum SerfState {
    /// It takes part in the cluster.
    Alive,
    /// It is about to leave.
    Leaving,
    /// It left.
    Left,
    /// It was shut down.
    Shutdown,
}

impl SerfState {
    /// Returns `true` for [`SerfState::Alive`].
    pub fn is_alive(&self) -> (r: bool)
        ensures
            r == (*self is Alive),
    {
        matches!(self, SerfState::Alive)
    }

    /// Returns `true` for [`SerfState::Leaving`].
    pub fn is_leaving(&self) -> (r: bool)
        ensures
            r == (*self is Leaving),
    {
        matches!(self, SerfState::Leaving)
    }

    /// Returns `true` for [`SerfState::Left`].
    pub fn is_left(&self) -> (r: bool)
        ensures
            r == (*self is Left),
    {
        matches!(self, SerfState::Left)
    }

    /// Returns `true` for [`SerfState::Shutdown`].
    pub fn is_shutdown(&self) -> (r: bool)
        ensures
            r == (*self is Shutdown),
    {
        matches!(self, SerfState::Shutdown)
    }
}

/// What was announced about a node.
#[derive(Debug, Clone, Copy, PartialEq, Eq, Structural)]
pub enum IntentKind {
    /// That it joined.
    Join,
    /// That it leaves.
    Leave,
}

/// An announcement about a node that is not a member yet.
#[derive(Debug, Clone, Copy, PartialEq, Eq, Structural)]
pub struct NodeIntent {
    /// What was announced.
    pub kind: IntentKind,
    /// The Lamport time of the announcement.
    pub ltime: LamportTime,
    /// When it arrived.
    pub wall_time: Instant,
}

/// A member as it is shown to the application.
#[derive(Debug)]
pub struct Member<I, A> {
    /// The node.
    pub node: Node<I, A>,
    /// Its tags.
    pub tags: Arc<Tags>,
    /// Its status.
    pub status: MemberStatus,
}

impl<I: Value, A: Value> Member<I, A> {
    /// Returns the member with the given parts.
    pub fn new(node: Node<I, A>, tags: Arc<Tags>, status: MemberStatus) -> (r: Self)
        ensures
            r == (Member { node, tags, status }),
    {
        Member { node, tags, status }
    }

    /// Returns a copy.
    pub fn dup(&self) -> (r: Self)
        ensures
            r == *self,
    {
        Member { node: self.node.dup(), tags: self.tags.clone(), status: self.status }
    }
}

/// What is kept of a member.
#[derive(Debug)]
pub struct MemberState<I, A> {
    /// The member.
    pub member: Member<I, A>,
    /// The Lamport time of the last intent that was applied.
    pub status_time: LamportTime,
    /// When it left or failed.
    pub leave_time: Option<Instant>,
}

impl<I, A> MemberState<I, A> {
    /// The same with another status.
    pub open spec fn spec_with_status(self, status: MemberStatus) -> Self {
        MemberState { member: Member { status, ..self.member }, ..self }
    }
}

impl<I: Value, A: Value> MemberState<I, A> {
    /// Returns a copy with another status.
    pub fn with_status(&self, status: MemberStatus) -> (r: Self)
        ensures
            r == self.spec_with_status(status),
    {
        MemberState {
            member: Member { node: self.member.node.dup(), tags: self.member.tags.clone(), status },
            status_time: self.status_time,
            leave_time: self.leave_time,
        }
    }
}

/// The members, those of them that left or failed, and the intents for nodes that
/// are not members.
pub struct Members<I: Id, A> {
    /// The members.
    pub states: SortedMap<I, MemberState<I, A>>,
    /// The members that left.
    pub left_members: Vec<I>,
    /// The members that failed.
    pub failed_members: Vec<I>,
    /// The latest intent for each node that is not a member.
    pub recent_intents: SortedMap<I, NodeIntent>,
}

/// Whether an announcement about an unknown node is news: there is room for it,
/// or it is later than the one that is kept.
pub open spec fn intent_is_news<I>(intents: Map<I, NodeIntent>, id: I, ltime: LamportTime) -> bool {
    if intents.dom().contains(id) {
        ltime.0 > intents[id].ltime.0
    } else {
        intents.dom().len() < MAX_RECENT_INTENTS
    }
}

/// The time of the announcement of the given kind about `id`.
pub open spec fn intent_time<I>(intents: Map<I, NodeIntent>, id: I, kind: IntentKind) -> Option<
    LamportTime,
> {
    if intents.dom().contains(id) && intents[id].kind == kind {
        Some(intents[id].ltime)
    } else {
        None
    }
}

/// The list without the given id.
pub open spec fn without<I>(list: Seq<I>, id: I) -> Seq<I>
    decreases list.len(),
{
    if list.len() == 0 {
        list
    } else if list.last() == id {
        without(list.drop_last(), id)
    } else {
        without(list.drop_last(), id).push(list.last())
    }
}

/// [`without`] takes away the given id and nothing else.
pub proof fn without_contains<I>(list: Seq<I>, id: I, other: I)
    ensures
        without(list, id).contains(other) <==> (list.contains(other) && other != id),
    decreases list.len(),
{
    if list.len() > 0 {
        let rest = list.drop_last();
        without_contains(rest, id, other);
        assert(list =~= rest.push(list.last()));
        if rest.contains(other) {
            let i = choose|i: int| 0 <= i < rest.len() && rest[i] == other;
            assert(list[i] == other);
        }
        let w = without(rest, id);
        if list.last() != id {
            if w.contains(other) {
                let i = choose|i: int| 0 <= i < w.len() && w[i] == other;
                assert(w.push(list.last())[i] == other);
            }
            assert(w.push(list.last())[w.len() as int] == list.last());
        }
        if list.contains(other) && other != list.last() {
            let i = choose|i: int| 0 <= i < list.len() && list[i] == other;
            assert(rest[i] == other);
        }
    }
}

/// Takes `id` out of a list of departed members.
pub fn remove_old_member<I: Value>(list: &mut Vec<I>, id: &I)
    ensures
        final(list)@ == without(old(list)@, *id),
{
    let mut kept: Vec<I> = Vec::new();
    let mut i: usize = 0;
    while i < list.len()
        invariant
            i <= list@.len(),
            list@ == old(list)@,
            kept@ == without(list@.take(i as int), *id),
        decreases list@.len() - i,
    {
        assert(list@.take(i + 1).drop_last() =~= list@.take(i as int));
        if !list[i].same(id) {
            kept.push(list[i].dup());
        }
        i += 1;
    }
    assert(list@.take(i as int) =~= list@);
    *list = kept;
}

/// Returns `true` if `id` is in the list.
pub fn list_contains<I: Value>(list: &Vec<I>, id: &I) -> (r: bool)
    ensures
        r == list@.contains(*id),
{
    let mut i: usize = 0;
    while i < list.len()
        invariant
            i <= list@.len(),
            forall|j: int| 0 <= j < i ==> #[trigger] list@[j] != *id,
        decreases list@.len() - i,
    {
        if list[i].same(id) {
            assert(list@[i as int] == *id);
            return true;
        }
        i += 1;
    }
    false
}

impl<I: Id, A: Value> Members<I, A> {
    /// Returns no members.
    pub fn new() -> (r: Self)
        ensures
            r.states@ == Map::<I, MemberState<I, A>>::empty(),
            r.left_members@ == Seq::<I>::empty(),
            r.failed_members@ == Seq::<I>::empty(),
            r.recent_intents@ == Map::<I, NodeIntent>::empty(),
    {
        Members {
            states: SortedMap::new(),
            left_members: Vec::new(),
            failed_members: Vec::new(),
            recent_intents: SortedMap::new(),
        }
    }

    /// Keeps an announcement about a node that is not a member, if it is news.
    pub fn upsert_intent(&mut self, id: &I, kind: IntentKind, ltime: LamportTime, now: Instant) -> (r:
        bool)
        ensures
            r == intent_is_news(old(self).recent_intents@, *id, ltime),
            final(self).recent_intents@ == (if r {
                old(self).recent_intents@.insert(*id, NodeIntent { kind, ltime, wall_time: now })
            } else {
                old(self).recent_intents@
            }),
            final(self).states == old(self).states,
            final(self).left_members == old(self).left_members,
            final(self).failed_members == old(self).failed_members,
    {
        let news = match self.recent_intents.get(id) {
            Some(kept) => ltime.0 > kept.ltime.0,
            None => self.recent_intents.len() < MAX_RECENT_INTENTS,
        };
        if news {
            self.recent_intents.insert(id.dup(), NodeIntent { kind, ltime, wall_time: now });
        }
        news
    }

    /// Returns the time of the announcement of the given kind about `id`.
    pub fn recent_intent(&self, id: &I, kind: IntentKind) -> (r: Option<LamportTime>)
        ensures
            r == intent_time(self.recent_intents@, *id, kind),
    {
        match self.recent_intents.get(id) {
            Some(kept) => if kept.kind == kind {
                Some(kept.ltime)
            } else {
                None
            },
            None => None,
        }
    }
}

/// A list without an id holds the other ids in the order in which they stood.
pub proof fn without_keeps_the_order<I>(list: Seq<I>, id: I)
    ensures
        without(list, id) == list.filter(|x: I| x != id),
    decreases list.len(),
{
    reveal(Seq::filter);
    if list.len() > 0 {
        without_keeps_the_order(list.drop_last(), id);
    }
}

} // verus!
