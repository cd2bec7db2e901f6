//! The lists of departed members agree with the members, whatever the machine is told.

use crate::action::Coordinator;
use crate::clock;
use crate::clock::LamportTime;
use crate::endpoint::ingress::{InnerEvent, Packet};
use crate::endpoint::{exchange, membership, progress};
use crate::endpoint::{Machine, ReconnectDelegate};
use crate::event::MemberEventKind;
use crate::id::Id;
use crate::members;
use crate::members::{Member, MemberState, MemberStatus};
use crate::options::Options;
use crate::time::Instant;
use crate::typed::{AnyMessage, Node, PushPullMessage, ReplayResult, Tags, UserEvent, UserEvents};
use rand::rngs::SmallRng;
use std::sync::Arc;
use vstd::prelude::*;

verus! {

impl<I, A, G> Machine<I, A, G> {
    /// Whether the lists agree with the members: a member is in the list of those that
    /// failed exactly if it failed, in the list of those that left exactly if it left,
    /// and in neither twice. Each member is kept under its own id.
    pub open spec fn well_kept(self) -> bool {
        &&& self.failed.no_duplicates()
        &&& self.left.no_duplicates()
        &&& forall|id: I|
            #[trigger] self.failed.contains(id) <==> self.knows(id)
                && self.states[id].member.status is Failed
        &&& forall|id: I|
            #[trigger] self.left.contains(id) <==> self.knows(id)
                && self.states[id].member.status is Left
        &&& forall|id: I| #[trigger] self.knows(id) ==> self.states[id].member.node.id == id
    }

    /// Whether two machines have the same members and the same lists.
    pub open spec fn same_roster(self, other: Self) -> bool {
        self.states == other.states && self.left == other.left && self.failed == other.failed
    }
}

/// Machines with the same members and lists are well kept together.
pub proof fn same_roster_is_kept_alike<I, A, G>(m: Machine<I, A, G>, other: Machine<I, A, G>)
    requires
        m.well_kept(),
        other.same_roster(m),
    ensures
        other.well_kept(),
{
    assert forall|id: I| #[trigger] other.knows(id) implies other.states[id].member.node.id
        == id by {
        assert(m.knows(id));
    }
}

proof fn push_contains<T>(s: Seq<T>, x: T)
    ensures
        forall|y: T| #[trigger] s.push(x).contains(y) <==> s.contains(y) || y == x,
        s.no_duplicates() && !s.contains(x) ==> s.push(x).no_duplicates(),
{
    let t = s.push(x);
    assert forall|y: T| #[trigger] t.contains(y) <==> s.contains(y) || y == x by {
        if s.contains(y) {
            let i = choose|i: int| 0 <= i < s.len() && s[i] == y;
            assert(t[i] == y);
        }
        assert(t[s.len() as int] == x);
        if t.contains(y) && y != x {
            let i = choose|i: int| 0 <= i < t.len() && t[i] == y;
            assert(s[i] == y);
        }
    }
    if s.no_duplicates() && !s.contains(x) {
        assert forall|i: int, j: int| 0 <= i < t.len() && 0 <= j < t.len() && i != j implies t[i]
            != t[j] by {
            if i == s.len() {
                assert(s.contains(s[j]));
            }
            if j == s.len() {
                assert(s.contains(s[i]));
            }
        }
    }
}

proof fn without_is_without<T>(s: Seq<T>, x: T)
    ensures
        forall|y: T| #[trigger] members::without(s, x).contains(y) <==> s.contains(y) && y != x,
        s.no_duplicates() ==> members::without(s, x).no_duplicates(),
    decreases s.len(),
{
    assert forall|y: T| #[trigger] members::without(s, x).contains(y) <==> s.contains(y) && y
        != x by {
        members::without_contains(s, x, y);
    }
    if s.len() > 0 && s.no_duplicates() {
        let rest = s.drop_last();
        without_is_without(rest, x);
        assert(rest.no_duplicates());
        if s.last() != x {
            push_contains(members::without(rest, x), s.last());
            if rest.contains(s.last()) {
                let i = choose|i: int| 0 <= i < rest.len() && rest[i] == s.last();
                assert(s[i] == s[s.len() - 1]);
            }
        }
    }
}

proof fn swap_removed_is_without<T>(s: Seq<T>, i: int)
    requires
        s.no_duplicates(),
        0 <= i < s.len(),
    ensures
        membership::swap_removed(s, i).no_duplicates(),
        forall|y: T|
            #[trigger] membership::swap_removed(s, i).contains(y) <==> s.contains(y) && y != s[i],
{
    let t = membership::swap_removed(s, i);
    assert forall|y: T| #[trigger] t.contains(y) <==> s.contains(y) && y != s[i] by {
        if t.contains(y) {
            let j = choose|j: int| 0 <= j < t.len() && t[j] == y;
            if j == i {
                assert(s[s.len() - 1] == y);
            } else {
                assert(s[j] == y);
            }
        }
        if s.contains(y) && y != s[i] {
            let j = choose|j: int| 0 <= j < s.len() && s[j] == y;
            if j == s.len() - 1 {
                assert(t[i] == y);
            } else {
                assert(t[j] == y);
            }
        }
    }
}

/// A machine that has seen nothing is well kept.
pub proof fn initial_is_well_kept<I, A, G>(
    opts: Options,
    rng: SmallRng,
    user_drop: u64,
    member_drop: u64,
)
    ensures
        Machine::<I, A, G>::initial(opts, rng, user_drop, member_drop).well_kept(),
{
}

/// Draws leave the machine well kept.
pub proof fn draws_keep_the_roster<I, A, G>(m: Machine<I, A, G>, rng: SmallRng)
    requires
        m.well_kept(),
    ensures
        m.drawing(rng).well_kept(),
{
    same_roster_is_kept_alike(m, m.drawing(rng));
}

/// That a node joined leaves the machine well kept.
pub proof fn join_keeps_the_roster<I, A, G>(m: Machine<I, A, G>, node: Node<I, A>, tags: Arc<Tags>)
    requires
        m.well_kept(),
    ensures
        m.joined(node, tags).well_kept(),
{
    without_is_without(m.failed, node.id);
    without_is_without(m.left, node.id);
    let after = m.joined(node, tags);
    assert(after.states == m.states.insert(node.id, m.joined_state(node, tags)));
    assert forall|id: I| #[trigger] after.failed.contains(id) <==> after.knows(id)
        && after.states[id].member.status is Failed by {
        assert(m.failed.contains(id) <==> m.knows(id) && m.states[id].member.status is Failed);
    }
    assert forall|id: I| #[trigger] after.left.contains(id) <==> after.knows(id)
        && after.states[id].member.status is Left by {
        assert(m.left.contains(id) <==> m.knows(id) && m.states[id].member.status is Left);
    }
    assert forall|id: I| #[trigger] after.knows(id) implies after.states[id].member.node.id
        == id by {
        assert(id != node.id ==> m.knows(id));
    }
}

/// That a node is gone leaves the machine well kept.
pub proof fn departure_keeps_the_roster<I, A, G>(m: Machine<I, A, G>, id: I, now: Instant)
    requires
        m.well_kept(),
    ensures
        m.departing(id, now).well_kept(),
{
    push_contains(m.failed, id);
    push_contains(m.left, id);
    let after = m.departing(id, now);
    assert(m.failed.contains(id) <==> m.knows(id) && m.states[id].member.status is Failed);
    assert(m.left.contains(id) <==> m.knows(id) && m.states[id].member.status is Left);
    assert forall|x: I| #[trigger] after.failed.contains(x) <==> after.knows(x)
        && after.states[x].member.status is Failed by {
        assert(m.failed.contains(x) <==> m.knows(x) && m.states[x].member.status is Failed);
    }
    assert forall|x: I| #[trigger] after.left.contains(x) <==> after.knows(x)
        && after.states[x].member.status is Left by {
        assert(m.left.contains(x) <==> m.knows(x) && m.states[x].member.status is Left);
    }
    assert forall|x: I| #[trigger] after.knows(x) implies after.states[x].member.node.id == x by {
        assert(m.knows(x));
    }
}

/// That a node changed leaves the machine well kept.
pub proof fn update_keeps_the_roster<I, A, G>(m: Machine<I, A, G>, node: Node<I, A>, tags: Arc<Tags>)
    requires
        m.well_kept(),
    ensures
        m.updating(node, tags).well_kept(),
{
    let after = m.updating(node, tags);
    assert forall|x: I| #[trigger] after.failed.contains(x) <==> after.knows(x)
        && after.states[x].member.status is Failed by {
        assert(m.failed.contains(x) <==> m.knows(x) && m.states[x].member.status is Failed);
    }
    assert forall|x: I| #[trigger] after.left.contains(x) <==> after.knows(x)
        && after.states[x].member.status is Left by {
        assert(m.left.contains(x) <==> m.knows(x) && m.states[x].member.status is Left);
    }
    assert forall|x: I| #[trigger] after.knows(x) implies after.states[x].member.node.id == x by {
        assert(m.knows(x));
    }
}

/// A join intent leaves the machine well kept.
pub proof fn join_intent_keeps_the_roster<I, A, G>(
    m: Machine<I, A, G>,
    ltime: LamportTime,
    id: I,
    now: Instant,
)
    requires
        m.well_kept(),
    ensures
        m.after_join_intent(ltime, id, now).well_kept(),
{
    let after = m.after_join_intent(ltime, id, now);
    assert forall|x: I| #[trigger] after.failed.contains(x) <==> after.knows(x)
        && after.states[x].member.status is Failed by {
        assert(m.failed.contains(x) <==> m.knows(x) && m.states[x].member.status is Failed);
    }
    assert forall|x: I| #[trigger] after.left.contains(x) <==> after.knows(x)
        && after.states[x].member.status is Left by {
        assert(m.left.contains(x) <==> m.knows(x) && m.states[x].member.status is Left);
    }
    assert forall|x: I| #[trigger] after.knows(x) implies after.states[x].member.node.id == x by {
        assert(m.knows(x));
    }
}

/// To forget a node leaves the machine well kept.
pub proof fn prune_keeps_the_roster<I, A, G>(m: Machine<I, A, G>, id: I)
    requires
        m.well_kept(),
    ensures
        m.pruning(id).well_kept(),
        !m.pruning(id).knows(id),
{
    without_is_without(m.failed, id);
    without_is_without(m.left, id);
    let after = m.pruning(id);
    assert(after.states =~= m.states.remove(id));
    assert forall|x: I| #[trigger] after.failed.contains(x) <==> after.knows(x)
        && after.states[x].member.status is Failed by {
        assert(m.failed.contains(x) <==> m.knows(x) && m.states[x].member.status is Failed);
    }
    assert forall|x: I| #[trigger] after.left.contains(x) <==> after.knows(x)
        && after.states[x].member.status is Left by {
        assert(m.left.contains(x) <==> m.knows(x) && m.states[x].member.status is Left);
    }
    assert forall|x: I| #[trigger] after.knows(x) implies after.states[x].member.node.id == x by {
        assert(m.knows(x));
    }
}

proof fn status_change_keeps_the_roster<I, A, G>(
    m: Machine<I, A, G>,
    before: Machine<I, A, G>,
    id: I,
)
    requires
        before.well_kept(),
        before.knows(id),
        m.left == before.left,
        m.failed == before.failed,
        m.states.dom() == before.states.dom(),
        forall|x: I| x != id && before.knows(x) ==> #[trigger] m.states[x] == before.states[x],
        m.states[id].member.node == before.states[id].member.node,
        m.states[id].member.status is Failed == before.states[id].member.status is Failed,
        m.states[id].member.status is Left == before.states[id].member.status is Left,
    ensures
        m.well_kept(),
{
    assert forall|x: I| #[trigger] m.failed.contains(x) <==> m.knows(x)
        && m.states[x].member.status is Failed by {
        assert(before.failed.contains(x) <==> before.knows(x)
            && before.states[x].member.status is Failed);
    }
    assert forall|x: I| #[trigger] m.left.contains(x) <==> m.knows(x)
        && m.states[x].member.status is Left by {
        assert(before.left.contains(x) <==> before.knows(x)
            && before.states[x].member.status is Left);
    }
    assert forall|x: I| #[trigger] m.knows(x) implies m.states[x].member.node.id == x by {
        assert(before.knows(x));
    }
}

/// A leave intent leaves the machine well kept.
pub proof fn leave_intent_keeps_the_roster<I, A, G>(
    m: Machine<I, A, G>,
    local: I,
    ltime: LamportTime,
    id: I,
    prune: bool,
    now: Instant,
)
    requires
        m.well_kept(),
    ensures
        m.after_leave_intent(local, ltime, id, prune, now).well_kept(),
{
    let seen = m.witnessing(ltime);
    same_roster_is_kept_alike(m, seen);
    if !m.knows(id) {
        same_roster_is_kept_alike(m, m.after_leave_intent(local, ltime, id, prune, now));
    } else if clock::acceptable(ltime.0) && m.is_news(ltime, id) {
        if m.refutes(local, id) {
            let heard = seen.witnessing(LamportTime(seen.clock));
            same_roster_is_kept_alike(m, heard);
            join_intent_keeps_the_roster(heard, LamportTime(seen.clock), local, seen.drain_now);
            same_roster_is_kept_alike(
                heard.after_join_intent(LamportTime(seen.clock), local, seen.drain_now),
                seen.announcing_join(local, LamportTime(seen.clock)),
            );
        } else {
            let ms = MemberState { status_time: ltime, ..m.states[id] };
            match ms.member.status {
                MemberStatus::Failed => {
                    let gone = ms.spec_with_status(MemberStatus::Left);
                    let moved = Machine {
                        states: seen.states.insert(id, gone),
                        failed: members::without(seen.failed, id),
                        left: seen.left.push(id),
                        ..seen
                    };
                    without_is_without(m.failed, id);
                    push_contains(m.left, id);
                    assert(m.left.contains(id) <==> m.knows(id)
                        && m.states[id].member.status is Left);
                    assert forall|x: I| #[trigger] moved.failed.contains(x) <==> moved.knows(x)
                        && moved.states[x].member.status is Failed by {
                        assert(m.failed.contains(x) <==> m.knows(x)
                            && m.states[x].member.status is Failed);
                    }
                    assert forall|x: I| #[trigger] moved.left.contains(x) <==> moved.knows(x)
                        && moved.states[x].member.status is Left by {
                        assert(m.left.contains(x) <==> m.knows(x)
                            && m.states[x].member.status is Left);
                    }
                    assert forall|x: I| #[trigger] moved.knows(x) implies
                        moved.states[x].member.node.id == x by {
                        assert(m.knows(x));
                    }
                    let told = moved.emitting_member(
                        MemberEventKind::Leave,
                        gone.member,
                    ).dirtied();
                    emit_keeps_the_roster(moved, MemberEventKind::Leave, gone.member);
                    prune_keeps_the_roster(told, id);
                },
                MemberStatus::Alive => {
                    let next = seen.with_member(
                        id,
                        ms.spec_with_status(MemberStatus::Leaving),
                    ).dirtied();
                    assert(next.states.dom() =~= m.states.dom());
                    status_change_keeps_the_roster(next, m, id);
                    prune_keeps_the_roster(next, id);
                },
                _ => {
                    let next = seen.with_member(id, ms);
                    assert(next.states.dom() =~= m.states.dom());
                    status_change_keeps_the_roster(next, m, id);
                    status_change_keeps_the_roster(next.dirtied(), m, id);
                    prune_keeps_the_roster(next.dirtied(), id);
                },
            }
        }
    }
}

proof fn emit_keeps_the_roster<I, A, G>(
    m: Machine<I, A, G>,
    kind: MemberEventKind,
    member: Member<I, A>,
)
    requires
        m.well_kept(),
    ensures
        m.emitting_member(kind, member).well_kept(),
        m.emitting_member(kind, member).dirtied().well_kept(),
{
    same_roster_is_kept_alike(m, m.emitting_member(kind, member));
    same_roster_is_kept_alike(m, m.emitting_member(kind, member).dirtied());
}

proof fn erase_keeps_the_roster<I, A, G>(m: Machine<I, A, G>, list: Seq<I>, i: int)
    requires
        m.well_kept(),
        0 <= i < list.len(),
        list == m.failed || list == m.left,
    ensures
        list == m.failed && !(m.left.contains(list[i])) ==> (Machine {
            failed: membership::swap_removed(m.failed, i),
            ..m.erasing(list[i])
        }).well_kept(),
        list == m.left && !(m.failed.contains(list[i])) ==> (Machine {
            left: membership::swap_removed(m.left, i),
            ..m.erasing(list[i])
        }).well_kept(),
{
    let id = list[i];
    assert(list.contains(id));
    assert(m.knows(id));
    let erased = m.erasing(id);
    assert(erased.states =~= m.states.remove(id));
    assert(erased.left == m.left && erased.failed == m.failed);
    if list == m.failed && !m.left.contains(id) {
        let after = Machine { failed: membership::swap_removed(m.failed, i), ..erased };
        swap_removed_is_without(m.failed, i);
        assert forall|x: I| #[trigger] after.failed.contains(x) <==> after.knows(x)
            && after.states[x].member.status is Failed by {
            assert(m.failed.contains(x) <==> m.knows(x) && m.states[x].member.status is Failed);
        }
        assert forall|x: I| #[trigger] after.left.contains(x) <==> after.knows(x)
            && after.states[x].member.status is Left by {
            assert(m.left.contains(x) <==> m.knows(x) && m.states[x].member.status is Left);
        }
        assert forall|x: I| #[trigger] after.knows(x) implies after.states[x].member.node.id
            == x by {
            assert(m.knows(x));
        }
    }
    if list == m.left && !m.failed.contains(id) {
        let after = Machine { left: membership::swap_removed(m.left, i), ..erased };
        swap_removed_is_without(m.left, i);
        assert forall|x: I| #[trigger] after.failed.contains(x) <==> after.knows(x)
            && after.states[x].member.status is Failed by {
            assert(m.failed.contains(x) <==> m.knows(x) && m.states[x].member.status is Failed);
        }
        assert forall|x: I| #[trigger] after.left.contains(x) <==> after.knows(x)
            && after.states[x].member.status is Left by {
            assert(m.left.contains(x) <==> m.knows(x) && m.states[x].member.status is Left);
        }
        assert forall|x: I| #[trigger] after.knows(x) implies after.states[x].member.node.id
            == x by {
            assert(m.knows(x));
        }
    }
}

proof fn reaping_failed_keeps_the_roster<I, A, G: ReconnectDelegate<I, A>>(
    m: Machine<I, A, G>,
    i: int,
    now: Instant,
)
    requires
        m.well_kept(),
        0 <= i,
    ensures
        m.reaping_failed(i, now).well_kept(),
    decreases m.failed.len() - i,
{
    if i < m.failed.len() {
        if m.expired(m.failed[i], m.opts.reconnect_timeout, now) {
            let id = m.failed[i];
            assert(m.failed.contains(id));
            assert(m.left.contains(id) <==> m.knows(id) && m.states[id].member.status is Left);
            erase_keeps_the_roster(m, m.failed, i);
            reaping_failed_keeps_the_roster(
                Machine { failed: membership::swap_removed(m.failed, i), ..m.erasing(id) },
                i,
                now,
            );
        } else {
            reaping_failed_keeps_the_roster(m, i + 1, now);
        }
    }
}

proof fn reaping_left_keeps_the_roster<I, A, G: ReconnectDelegate<I, A>>(
    m: Machine<I, A, G>,
    i: int,
    now: Instant,
)
    requires
        m.well_kept(),
        0 <= i,
    ensures
        m.reaping_left(i, now).well_kept(),
    decreases m.left.len() - i,
{
    if i < m.left.len() {
        if m.expired(m.left[i], m.opts.tombstone_timeout, now) {
            let id = m.left[i];
            assert(m.left.contains(id));
            assert(m.failed.contains(id) <==> m.knows(id) && m.states[id].member.status is Failed);
            erase_keeps_the_roster(m, m.left, i);
            reaping_left_keeps_the_roster(
                Machine { left: membership::swap_removed(m.left, i), ..m.erasing(id) },
                i,
                now,
            );
        } else {
            reaping_left_keeps_the_roster(m, i + 1, now);
        }
    }
}

/// The reaper leaves the machine well kept.
pub proof fn reap_keeps_the_roster<I, A, G: ReconnectDelegate<I, A>>(m: Machine<I, A, G>, now: Instant)
    requires
        m.well_kept(),
    ensures
        m.reaped(now).well_kept(),
{
    reaping_failed_keeps_the_roster(m, 0, now);
    let half = m.reaping_failed(0, now);
    reaping_left_keeps_the_roster(half, 0, now);
    let done = half.reaping_left(0, now);
    same_roster_is_kept_alike(done, m.reaped(now));
}

proof fn told_left_keeps_the_roster<I, A, G>(
    m: Machine<I, A, G>,
    local: I,
    left: Seq<I>,
    status: Seq<(I, LamportTime)>,
    now: Instant,
)
    requires
        m.well_kept(),
    ensures
        m.told_left(local, left, status, now).well_kept(),
    decreases left.len(),
{
    if left.len() > 0 {
        told_left_keeps_the_roster(m, local, left.drop_last(), status, now);
        let mid = m.told_left(local, left.drop_last(), status, now);
        if let Some(t) = exchange::status_in(status, left.last()) {
            leave_intent_keeps_the_roster(
                mid,
                local,
                LamportTime(clock::ticked(t.0)),
                left.last(),
                false,
                now,
            );
        }
    }
}

proof fn told_joined_keeps_the_roster<I, A, G>(
    m: Machine<I, A, G>,
    left: Seq<I>,
    status: Seq<(I, LamportTime)>,
    now: Instant,
)
    requires
        m.well_kept(),
    ensures
        m.told_joined(left, status, now).well_kept(),
    decreases status.len(),
{
    if status.len() > 0 {
        told_joined_keeps_the_roster(m, left, status.drop_last(), now);
        let mid = m.told_joined(left, status.drop_last(), now);
        join_intent_keeps_the_roster(mid, status.last().1, status.last().0, now);
    }
}

proof fn replaying_slot_keeps_the_roster<I, A, G>(
    m: Machine<I, A, G>,
    ltime: LamportTime,
    events: Seq<UserEvent>,
)
    ensures
        m.replaying_slot(ltime, events).same_roster(m),
    decreases events.len(),
{
    if events.len() > 0 {
        replaying_slot_keeps_the_roster(m, ltime, events.drop_last());
    }
}

proof fn replaying_keeps_the_roster<I, A, G>(m: Machine<I, A, G>, slots: Seq<UserEvents>)
    ensures
        m.replaying(slots).same_roster(m),
    decreases slots.len(),
{
    if slots.len() > 0 {
        replaying_keeps_the_roster(m, slots.drop_last());
        replaying_slot_keeps_the_roster(
            m.replaying(slots.drop_last()),
            slots.last().ltime,
            slots.last().events@,
        );
    }
}

/// To merge the state of a peer leaves the machine well kept.
pub proof fn merge_keeps_the_roster<I, A, G>(
    m: Machine<I, A, G>,
    local: I,
    pp: PushPullMessage<I>,
    suppress: bool,
)
    requires
        m.well_kept(),
    ensures
        m.merging(local, pp, suppress).well_kept(),
{
    if Machine::<I, A, G>::plausible_peer(pp) {
        let now = m.drain_now;
        let a = m.hearing(pp);
        same_roster_is_kept_alike(m, a);
        let b = a.told_left(local, pp.left_members@, pp.status_ltimes@, now);
        told_left_keeps_the_roster(a, local, pp.left_members@, pp.status_ltimes@, now);
        let c = b.told_joined(pp.left_members@, pp.status_ltimes@, now);
        told_joined_keeps_the_roster(b, pp.left_members@, pp.status_ltimes@, now);
        let d = if suppress {
            c.ignoring_before(pp.event_ltime)
        } else {
            c
        };
        replaying_keeps_the_roster(d, pp.events@);
        same_roster_is_kept_alike(c, m.merging(local, pp, suppress));
    }
}

/// A packet leaves the machine well kept.
pub proof fn packet_keeps_the_roster<I: Id, A, G>(
    m: Machine<I, A, G>,
    c: Coordinator<I, A>,
    packet: Packet<I, A>,
    now: Instant,
    draws: Seq<usize>,
)
    requires
        m.well_kept(),
    ensures
        m.after_packet(c, packet, now, draws).well_kept(),
{
    reveal(Machine::after_packet);
    let after = m.after_packet(c, packet, now, draws);
    if let Some((msg, consumed)) = packet.decoded {
        match msg {
            AnyMessage::Join(join) => {
                let mid = m.after_join_intent(join.ltime, join.id, now);
                join_intent_keeps_the_roster(m, join.ltime, join.id, now);
                if after.same_roster(mid) {
                    same_roster_is_kept_alike(mid, after);
                }
            },
            AnyMessage::Leave(leave) => {
                let mid = m.after_leave_intent(c.local.id, leave.ltime, leave.id, leave.prune, now);
                leave_intent_keeps_the_roster(
                    m,
                    c.local.id,
                    leave.ltime,
                    leave.id,
                    leave.prune,
                    now,
                );
                if after.same_roster(mid) {
                    same_roster_is_kept_alike(mid, after);
                }
            },
            _ => {
                assert(after.same_roster(m));
                same_roster_is_kept_alike(m, after);
            },
        }
    }
}

/// An event of the membership layer leaves the machine well kept.
pub proof fn inner_event_keeps_the_roster<I: Id, A, G>(
    m: Machine<I, A, G>,
    c: Coordinator<I, A>,
    ev: InnerEvent<I, A>,
    draws: Seq<usize>,
)
    requires
        m.well_kept(),
    ensures
        m.after_inner_event(c, ev, draws).well_kept(),
{
    match ev {
        InnerEvent::NodeJoined { node, tags } => {
            join_keeps_the_roster(m, node, tags);
        },
        InnerEvent::NodeLeft { id } => {
            departure_keeps_the_roster(m, id, m.drain_now);
        },
        InnerEvent::NodeUpdated { node, tags } => {
            update_keeps_the_roster(m, node, tags);
        },
        InnerEvent::UserPacket(packet) => {
            packet_keeps_the_roster(m, c, packet, m.drain_now, draws);
        },
        InnerEvent::RemoteStateReceived { stream, is_join, decoded, len } => {
            let forgot = m.consuming(stream);
            same_roster_is_kept_alike(m, forgot);
            if let Some((AnyMessage::PushPull(pp), consumed)) = decoded {
                merge_keeps_the_roster(m, c.local.id, pp, false);
                merge_keeps_the_roster(forgot, c.local.id, pp, m.ignored.contains(stream));
            }
        },
        _ => {
            same_roster_is_kept_alike(m, m.after_inner_event(c, ev, draws));
        },
    }
}

proof fn closing_keeps_the_roster<I, A, G>(m: Machine<I, A, G>, i: int, now: Instant)
    requires
        0 <= i,
    ensures
        m.closing_due(i, now).same_roster(m),
    decreases m.pending.len() - i,
{
    if i < m.pending.len() {
        if now >= m.pending[i].deadline {
            let next = Machine {
                pending: membership::swap_removed(m.pending, i),
                ..m
            }.closing(m.pending[i]);
            if !next.is_down() {
                closing_keeps_the_roster(next, i, now);
            }
        } else {
            closing_keeps_the_roster(m, i + 1, now);
        }
    }
}

/// A redial and the end of a tick leave the members and their lists as they are.
pub proof fn deadlines_keep_the_roster<I, A, G>(
    m: Machine<I, A, G>,
    now: Instant,
    dial: bool,
    i: int,
)
    ensures
        m.after_redial(now, dial, i).same_roster(m),
        m.well_kept() ==> m.after_redial(now, dial, i).well_kept(),
        m.after_deadlines(now).same_roster(m),
        m.well_kept() ==> m.after_deadlines(now).well_kept(),
{
    if !m.is_down() {
        closing_keeps_the_roster(m.after_queue_check(now), 0, now);
    }
    if m.well_kept() {
        same_roster_is_kept_alike(m, m.after_redial(now, dial, i));
        same_roster_is_kept_alike(m, m.after_deadlines(now));
    }
}

/// To leave, to make another leave, to change tags and to start again leave the machine
/// well kept.
pub proof fn commands_keep_the_roster<I, A, G>(
    m: Machine<I, A, G>,
    local: I,
    id: I,
    prune: bool,
    now: Instant,
    tags: Arc<Tags>,
    replay: ReplayResult<I, A>,
)
    requires
        m.well_kept(),
    ensures
        m.leaving(local, now).well_kept(),
        m.force_leaving(local, id, prune, now).well_kept(),
        m.announcing_join(local, LamportTime(m.clock)).well_kept(),
        m.retagged(local, tags).well_kept(),
        m.restored(local, replay).well_kept(),
{
    let t = m.at(now);
    let a = t.set_to_leave();
    same_roster_is_kept_alike(m, t);
    same_roster_is_kept_alike(m, a);
    let ltime = LamportTime(a.clock);
    leave_intent_keeps_the_roster(a, local, ltime, local, false, now);
    let told = a.after_leave_intent(local, ltime, local, false, now);
    if m.state is Alive && m.can_stamp() {
        same_roster_is_kept_alike(told, m.leaving(local, now));
    }
    let s = t.stamped();
    same_roster_is_kept_alike(m, s);
    leave_intent_keeps_the_roster(s, local, LamportTime(s.clock), id, prune, now);
    if m.force_leave_reply() is Ok {
        same_roster_is_kept_alike(
            s.after_leave_intent(local, LamportTime(s.clock), id, prune, now),
            m.force_leaving(local, id, prune, now),
        );
    }
    let seen = m.witnessing(LamportTime(m.clock));
    same_roster_is_kept_alike(m, seen);
    join_intent_keeps_the_roster(seen, LamportTime(m.clock), local, m.drain_now);
    same_roster_is_kept_alike(
        seen.after_join_intent(LamportTime(m.clock), local, m.drain_now),
        m.announcing_join(local, LamportTime(m.clock)),
    );
    if m.knows(local) {
        let next = m.retagged(local, tags);
        assert(next.states.dom() =~= m.states.dom());
        status_change_keeps_the_roster(next, m, local);
    }
    same_roster_is_kept_alike(m, m.restored(local, replay));
}

/// What the reaper reaps: exactly the departed members that were kept long enough.
pub proof fn reap_forgets_exactly_the_expired<I, A, G: ReconnectDelegate<I, A>>(
    m: Machine<I, A, G>,
    id: I,
    now: Instant,
)
    requires
        m.well_kept(),
    ensures
        m.reaped(now).knows(id) <==> m.knows(id) && !(m.states[id].member.status is Failed
            && m.expired(id, m.opts.reconnect_timeout, now)) && !(
        m.states[id].member.status is Left && m.expired(id, m.opts.tombstone_timeout, now)),
        m.reaped(now).knows(id) ==> m.reaped(now).states[id] == m.states[id],
{
    reaping_failed_forgets(m, 0, id, now);
    let half = m.reaping_failed(0, now);
    reaping_failed_keeps_the_roster(m, 0, now);
    progress::reap_is_progress(m, now);
    reaping_left_forgets(half, 0, id, now);
    assert(m.failed.skip(0) =~= m.failed);
    assert(half.left.skip(0) =~= half.left);
    assert(m.failed.contains(id) <==> m.knows(id) && m.states[id].member.status is Failed);
    assert(m.left.contains(id) <==> m.knows(id) && m.states[id].member.status is Left);
    assert(half.left.contains(id) <==> half.knows(id) && half.states[id].member.status is Left);
}

proof fn reaping_failed_forgets<I, A, G: ReconnectDelegate<I, A>>(
    m: Machine<I, A, G>,
    i: int,
    id: I,
    now: Instant,
)
    requires
        m.well_kept(),
        0 <= i <= m.failed.len(),
    ensures
        m.reaping_failed(i, now).opts == m.opts,
        m.reaping_failed(i, now).delegate == m.delegate,
        m.reaping_failed(i, now).left == m.left,
        m.reaping_failed(i, now).knows(id) <==> m.knows(id) && !(m.failed.skip(i).contains(id)
            && m.expired(id, m.opts.reconnect_timeout, now)),
        m.reaping_failed(i, now).knows(id) ==> m.reaping_failed(i, now).states[id] == m.states[id],
    decreases m.failed.len() - i,
{
    if i < m.failed.len() {
        let here = m.failed[i];
        assert(m.failed.contains(here));
        assert(m.knows(here));
        assert(m.failed.skip(i)[0] == here);
        if m.expired(here, m.opts.reconnect_timeout, now) {
            let next = Machine { failed: membership::swap_removed(m.failed, i), ..m.erasing(here) };
            assert(m.left.contains(here) <==> m.knows(here)
                && m.states[here].member.status is Left);
            erase_keeps_the_roster(m, m.failed, i);
            reaping_failed_forgets(next, i, id, now);
            assert(next.states =~= m.states.remove(here));
            swap_removed_tail(m.failed, i, id);
        } else {
            reaping_failed_forgets(m, i + 1, id, now);
            skip_one(m.failed, i, id);
        }
    } else {
        assert(m.failed.skip(i).len() == 0);
    }
}

proof fn reaping_left_forgets<I, A, G: ReconnectDelegate<I, A>>(
    m: Machine<I, A, G>,
    i: int,
    id: I,
    now: Instant,
)
    requires
        m.well_kept(),
        0 <= i <= m.left.len(),
    ensures
        m.reaping_left(i, now).knows(id) <==> m.knows(id) && !(m.left.skip(i).contains(id)
            && m.expired(id, m.opts.tombstone_timeout, now)),
        m.reaping_left(i, now).knows(id) ==> m.reaping_left(i, now).states[id] == m.states[id],
    decreases m.left.len() - i,
{
    if i < m.left.len() {
        let here = m.left[i];
        assert(m.left.contains(here));
        assert(m.knows(here));
        assert(m.left.skip(i)[0] == here);
        if m.expired(here, m.opts.tombstone_timeout, now) {
            let next = Machine { left: membership::swap_removed(m.left, i), ..m.erasing(here) };
            assert(m.failed.contains(here) <==> m.knows(here)
                && m.states[here].member.status is Failed);
            erase_keeps_the_roster(m, m.left, i);
            reaping_left_forgets(next, i, id, now);
            assert(next.states =~= m.states.remove(here));
            swap_removed_tail(m.left, i, id);
        } else {
            reaping_left_forgets(m, i + 1, id, now);
            skip_one(m.left, i, id);
        }
    } else {
        assert(m.left.skip(i).len() == 0);
    }
}

proof fn skip_one<T>(s: Seq<T>, i: int, x: T)
    requires
        0 <= i < s.len(),
    ensures
        s.skip(i).contains(x) <==> s[i] == x || s.skip(i + 1).contains(x),
{
    if s.skip(i).contains(x) {
        let j = choose|j: int| 0 <= j < s.skip(i).len() && s.skip(i)[j] == x;
        if j > 0 {
            assert(s.skip(i + 1)[j - 1] == x);
        }
    }
    let rest = s.skip(i + 1);
    if rest.contains(x) {
        let j = choose|j: int| 0 <= j < rest.len() && rest[j] == x;
        assert(s.skip(i)[j + 1] == x);
    }
    assert(s.skip(i)[0] == s[i]);
}

proof fn swap_removed_tail<T>(s: Seq<T>, i: int, x: T)
    requires
        s.no_duplicates(),
        0 <= i < s.len(),
    ensures
        membership::swap_removed(s, i).skip(i).contains(x) <==> s.skip(i).contains(x) && x != s[i],
{
    let t = membership::swap_removed(s, i);
    if t.skip(i).contains(x) {
        let j = choose|j: int| 0 <= j < t.skip(i).len() && t.skip(i)[j] == x;
        if j == 0 {
            assert(s.skip(i)[s.len() - 1 - i] == x);
        } else {
            assert(s.skip(i)[j] == x);
        }
    }
    if s.skip(i).contains(x) && x != s[i] {
        let j = choose|j: int| 0 <= j < s.skip(i).len() && s.skip(i)[j] == x;
        if j == s.len() - 1 - i {
            assert(t.skip(i)[0] == x);
        } else {
            assert(t.skip(i)[j] == x);
        }
    }
}

} // verus!
