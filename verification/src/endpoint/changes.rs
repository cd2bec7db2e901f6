//! What each thing that happens to a member does: what changes, what stays and what is
//! reported.

use crate::action::{Action, Frame};
use crate::clock::LamportTime;
use crate::coalesce;
use crate::coalesce::Window;
use crate::endpoint::membership::Meta;
use crate::endpoint::{membership, Machine, ReconnectDelegate};
use crate::event::{MemberEventKind, Report};
use crate::members;
use crate::members::{IntentKind, Member, MemberState, MemberStatus, NodeIntent};
use crate::time::{Duration, Instant};
use crate::typed::{AnyMessage, JoinMessage, Node, Tags, UserEventMessage};
use std::sync::Arc;
use vstd::prelude::*;

verus! {

/// Whether one more was counted as lost; the largest count of all stays.
pub open spec fn counted_lost(before: u64, after: u64) -> bool {
    &&& before < u64::MAX ==> after == before + 1
    &&& before == u64::MAX ==> after == before
}

/// Whether a window took note of an event: it closes one quiescent period from now, and one
/// coalesce period from now if it was closed.
pub open spec fn window_fed(before: Window, after: Window, was_closed: bool, now: Instant) -> bool {
    &&& after == (Window { cap: after.cap, quiet: after.quiet, ..before })
    &&& now + before.quiescent_period <= u64::MAX ==> (after.quiet matches Some(t) && t == now
        + before.quiescent_period)
    &&& was_closed && now + before.coalesce_period <= u64::MAX ==> (after.cap matches Some(t) && t
        == now + before.coalesce_period)
    &&& !was_closed ==> after.cap == before.cap
}

/// Whether one report was made of a change of a member, or is held back where reports are.
/// One that is held back and finds no room is counted as lost.
pub open spec fn told_of<I, A, G>(
    before: Machine<I, A, G>,
    after: Machine<I, A, G>,
    kind: MemberEventKind,
    member: Member<I, A>,
) -> bool {
    match before.batch {
        None => {
            &&& after.batch is None
            &&& after.member_drop == before.member_drop
            &&& after.reports == before.reports.push(Report::Member(kind, seq![member]))
        },
        Some(_) => {
            &&& before.reports.is_prefix_of(after.reports)
            &&& after.batch matches Some(b) && {
                ||| b.changes.contains((kind, member)) && after.member_drop == before.member_drop
                ||| b.changes.len() >= 4096 && counted_lost(before.member_drop, after.member_drop)
            }
        },
    }
}

/// Whether at most the members, the lists of departed ones and the reports differ.
pub open spec fn only_members_changed<I, A, G>(
    before: Machine<I, A, G>,
    after: Machine<I, A, G>,
) -> bool {
    after == (Machine {
        states: after.states,
        failed: after.failed,
        left: after.left,
        dirty: after.dirty,
        reports: after.reports,
        batch: after.batch,
        member_drop: after.member_drop,
        coalesce_now: after.coalesce_now,
        ..before
    })
}

/// Whether every node but one is what it was: a member or none, with the same state, in the
/// same lists.
pub open spec fn others_as_before<I, A, G>(
    before: Machine<I, A, G>,
    after: Machine<I, A, G>,
    id: I,
) -> bool {
    &&& forall|x: I| x != id ==> (#[trigger] after.states.dom().contains(x)
        == before.states.dom().contains(x))
    &&& forall|x: I| x != id ==> #[trigger] after.states[x] == before.states[x]
    &&& forall|x: I|
        x != id ==> (#[trigger] after.failed.contains(x) == before.failed.contains(x))
    &&& forall|x: I| x != id ==> (#[trigger] after.left.contains(x) == before.left.contains(x))
}

/// Whether all the changes that were held back have been reported.
pub open spec fn delivered<I, A, G>(
    before: Machine<I, A, G>,
    after: Machine<I, A, G>,
) -> bool {
    &&& before.reports.is_prefix_of(after.reports)
    &&& before.batch matches Some(b) && forall|kind: MemberEventKind, x: Member<I, A>| #[trigger]
        coalesce::names(after.reports.skip(before.reports.len() as int), kind, x)
            <==> b.changes.contains((kind, x))
}

/// A change of a member is reported at once where reports are not held back. Where they are,
/// it joins those that are held back, and nothing is reported before its time: once a period
/// has passed, all that was held back is, and the change waits alone.
pub proof fn changes_are_told<I, A, G>(
    m: Machine<I, A, G>,
    kind: MemberEventKind,
    member: Member<I, A>,
)
    ensures
        ({
            let after = m.emitting_member(kind, member);
            let now = after.coalesce_now;
            &&& told_of(m, after, kind, member)
            &&& after == (Machine {
                reports: after.reports,
                batch: after.batch,
                member_drop: after.member_drop,
                coalesce_now: now,
                ..m
            })
            &&& now >= m.coalesce_now && now >= m.drain_now
            &&& now == m.coalesce_now || now == m.drain_now
            &&& m.batch matches Some(b) ==> {
                let due = (b.window.cap matches Some(t) && t <= now) || (
                b.window.quiet matches Some(t) && t <= now);
                &&& !due ==> after.reports == m.reports
                &&& due ==> delivered(m, after)
                &&& due ==> after.batch->0.changes == seq![(kind, member)]
                &&& !due ==> forall|k: MemberEventKind, x: Member<I, A>|
                    x.node.id != member.node.id ==> (#[trigger] after.batch->0.changes.contains(
                        (k, x),
                    ) <==> b.changes.contains((k, x)))
                &&& window_fed(
                    b.window,
                    after.batch->0.window,
                    due || b.window.cap is None,
                    now,
                )
                &&& after.member_drop != m.member_drop ==> b.changes.len() >= 4096 && !due
            }
        }),
{
    let after = m.emitting_member(kind, member);
    let now = after.coalesce_now;
    if let Some(b) = m.batch {
        let due = (b.window.cap matches Some(t) && t <= now) || (b.window.quiet matches Some(t) && t
            <= now);
        let ready = if due {
            b.emptied()
        } else {
            b
        };
        coalesce::changes_of_others_stay(ready, kind, member, now);
        if due {
            coalesce::held_changes_are_delivered(b.changes);
            assert(after.reports.skip(m.reports.len() as int) =~= coalesce::all_reports(b.changes));
            assert(after.batch->0.changes =~= seq![(kind, member)]) by {
                assert(!ready.holds(member.node.id));
            }
        }
    }
}

/// A user event is reported at once, unless it may be held back and events are. Where it is
/// held back nothing is reported before its time, and from then on all that waited is.
pub proof fn user_events_are_told<I, A, G>(m: Machine<I, A, G>, msg: UserEventMessage)
    ensures
        ({
            let after = m.emitting_user(msg);
            let now = after.coalesce_now;
            &&& after == (Machine {
                reports: after.reports,
                backlog: after.backlog,
                user_drop: after.user_drop,
                coalesce_now: now,
                ..m
            })
            &&& now >= m.coalesce_now && now >= m.drain_now
            &&& now == m.coalesce_now || now == m.drain_now
            &&& m.backlog is None || !msg.cc ==> {
                &&& after.reports == m.reports.push(Report::User(msg))
                &&& after.backlog == m.backlog
                &&& after.user_drop == m.user_drop
            }
            &&& msg.cc ==> (m.backlog matches Some(b) ==> {
                let due = (b.window.cap matches Some(t) && t <= now) || (
                b.window.quiet matches Some(t) && t <= now);
                &&& !due ==> after.reports == m.reports
                &&& due ==> after.reports == m.reports + b.events.map_values(
                    |e: UserEventMessage| Report::<I, A>::User(e),
                )
                &&& after.backlog is Some
                &&& due && b.limit > 0 ==> after.backlog->0.events == seq![msg]
                &&& !due ==> after.backlog->0.events == b.fed(msg, now).events
                &&& after.backlog->0.limit == b.limit
                &&& window_fed(
                    b.window,
                    after.backlog->0.window,
                    due || b.window.cap is None,
                    now,
                )
                &&& after.user_drop != m.user_drop ==> {
                    &&& counted_lost(m.user_drop, after.user_drop)
                    &&& b.events.len() >= b.limit || b.limit == 0
                }
                &&& !due && b.sheds(msg) ==> counted_lost(m.user_drop, after.user_drop)
                &&& !due && !b.sheds(msg) ==> after.user_drop == m.user_drop
            })
        }),
{
    let after = m.emitting_user(msg);
    let now = after.coalesce_now;
    if let Some(b) = m.backlog {
        if msg.cc {
            coalesce::user_events_of_others_stay(b, msg, msg, now);
            coalesce::user_events_of_others_stay(b.emptied(), msg, msg, now);
            assert(b.reports::<I, A>() =~= b.events.map_values(
                |e: UserEventMessage| Report::<I, A>::User(e),
            ));
            assert(coalesce::survivors(Seq::empty(), msg) =~= Seq::<UserEventMessage>::empty());
            assert(!coalesce::superseded(Seq::empty(), msg));
        }
    }
}

/// A node that joins is a member with what it said of itself and no time of departure. A
/// known one is alive and keeps the time of its last intent. Of an unknown one the intent
/// that was kept counts: it is leaving if that said so, and alive otherwise. It is in neither
/// list of departed members any more, and nobody else is touched.
pub proof fn a_join_makes_a_member<I, A, G>(
    m: Machine<I, A, G>,
    node: Node<I, A>,
    tags: Arc<Tags>,
)
    requires
        m.well_kept(),
    ensures
        ({
            let after = m.joined(node, tags);
            let id = node.id;
            let ms = after.states[id];
            &&& after.states.dom().contains(id)
            &&& ms.member.node == node
            &&& ms.member.tags == tags
            &&& ms.leave_time is None
            &&& m.states.dom().contains(id) ==> {
                &&& ms.member.status is Alive
                &&& ms.status_time == m.states[id].status_time
            }
            &&& !m.states.dom().contains(id) ==> {
                &&& m.intents.dom().contains(id) ==> ms.status_time == m.intents[id].ltime
                &&& !m.intents.dom().contains(id) ==> ms.status_time.0 == 0
                &&& m.intents.dom().contains(id) && m.intents[id].kind is Leave
                    ==> ms.member.status is Leaving
                &&& !(m.intents.dom().contains(id) && m.intents[id].kind is Leave)
                    ==> ms.member.status is Alive
            }
            &&& !after.failed.contains(id)
            &&& !after.left.contains(id)
            &&& others_as_before(m, after, id)
            &&& only_members_changed(m, after)
            &&& after.dirty
            &&& told_of(m, after, MemberEventKind::Join, ms.member)
        }),
{
    let id = node.id;
    let ms = m.joined_state(node, tags);
    let base = Machine {
        states: m.states.insert(id, ms),
        failed: if m.departed(id) {
            members::without(m.failed, id)
        } else {
            m.failed
        },
        left: if m.departed(id) {
            members::without(m.left, id)
        } else {
            m.left
        },
        dirty: true,
        ..m
    };
    changes_are_told(base, MemberEventKind::Join, ms.member);
    assert forall|x: I| #[trigger] base.failed.contains(x) == (m.failed.contains(x) && x != id) by {
        members::without_contains(m.failed, id, x);
        assert(m.failed.contains(id) <==> m.knows(id) && m.states[id].member.status is Failed);
    }
    assert forall|x: I| #[trigger] base.left.contains(x) == (m.left.contains(x) && x != id) by {
        members::without_contains(m.left, id, x);
        assert(m.left.contains(id) <==> m.knows(id) && m.states[id].member.status is Left);
    }
}

/// A member that is found gone has left if it was leaving, and failed if it was alive. It
/// keeps all else, its time of departure is now, it stands last in the list of its kind, and
/// that is reported. That a node is gone which is no member, or departed before, changes
/// nothing.
pub proof fn a_departure_is_kept<I, A, G>(m: Machine<I, A, G>, id: I, now: Instant)
    ensures
        ({
            let after = m.departing(id, now);
            let was = m.states[id];
            let ms = after.states[id];
            let here = m.states.dom().contains(id);
            &&& here && (was.member.status is Leaving || was.member.status is Alive) ==> {
                &&& after.states == m.states.insert(id, ms)
                &&& ms.member.node == was.member.node
                &&& ms.member.tags == was.member.tags
                &&& ms.status_time == was.status_time
                &&& ms.leave_time == Some(now)
                &&& only_members_changed(m, after)
                &&& after.dirty
            }
            &&& here && was.member.status is Leaving ==> {
                &&& ms.member.status is Left
                &&& after.left == m.left.push(id)
                &&& after.failed == m.failed
                &&& told_of(m, after, MemberEventKind::Leave, ms.member)
            }
            &&& here && was.member.status is Alive ==> {
                &&& ms.member.status is Failed
                &&& after.failed == m.failed.push(id)
                &&& after.left == m.left
                &&& told_of(m, after, MemberEventKind::Failed, ms.member)
            }
            &&& !here || was.member.status is Left || was.member.status is Failed
                || was.member.status is Unknown ==> after == m
        }),
{
    if m.knows(id) {
        let was = m.states[id];
        let gone = MemberState {
            leave_time: Some(now),
            ..was.spec_with_status(
                if was.member.status is Leaving {
                    MemberStatus::Left
                } else {
                    MemberStatus::Failed
                },
            )
        };
        if was.member.status is Leaving {
            changes_are_told(
                Machine {
                    states: m.states.insert(id, gone),
                    left: m.left.push(id),
                    dirty: true,
                    ..m
                },
                MemberEventKind::Leave,
                gone.member,
            );
        } else {
            changes_are_told(
                Machine {
                    states: m.states.insert(id, gone),
                    failed: m.failed.push(id),
                    dirty: true,
                    ..m
                },
                MemberEventKind::Failed,
                gone.member,
            );
        }
    }
}

/// A member that changed is kept with the node and the tags that were handed in. Its status
/// and its times stay, and so does every other member and both lists. What is reported is the
/// member as it is kept.
pub proof fn an_update_is_kept<I, A, G>(m: Machine<I, A, G>, node: Node<I, A>, tags: Arc<Tags>)
    requires
        m.states.dom().contains(node.id),
    ensures
        ({
            let after = m.updating(node, tags);
            let was = m.states[node.id];
            let ms = after.states[node.id];
            &&& after.states == m.states.insert(node.id, ms)
            &&& ms.member.node == node
            &&& ms.member.tags == tags
            &&& ms.member.status == was.member.status
            &&& ms.status_time == was.status_time
            &&& ms.leave_time == was.leave_time
            &&& after.failed == m.failed
            &&& after.left == m.left
            &&& after.dirty == m.dirty
            &&& only_members_changed(m, after)
            &&& told_of(m, after, MemberEventKind::Update, ms.member)
        }),
{
    let was = m.states[node.id];
    let member = Member { node, tags, status: was.member.status };
    changes_are_told(
        m.with_member(node.id, MemberState { member, ..was }),
        MemberEventKind::Update,
        member,
    );
}

/// Tags that can be read are those of the node, and one whose tags cannot be read has none.
pub proof fn unreadable_tags_are_none(tags: Tags)
    ensures
        Meta::Readable(tags).tags() == tags.entries@,
        Meta::Unreadable.tags().len() == 0,
        Meta::Empty.tags().len() == 0,
{
}

/// An intent about a member counts exactly if it is later than the last that counted. Of an
/// unknown node it must be later than the one that is kept, or, where none is, there must be
/// room for it: 4096 intents are kept. A time in the upper half of the integers never counts.
pub proof fn later_intents_count<I, A, G>(
    m: Machine<I, A, G>,
    local: I,
    ltime: LamportTime,
    id: I,
)
    ensures
        m.takes_join_intent(ltime, id) ==> ltime.0 < 0x8000_0000_0000_0000,
        m.takes_leave_intent(local, ltime, id) ==> m.takes_join_intent(ltime, id),
        ltime.0 < 0x8000_0000_0000_0000 && m.states.dom().contains(id) ==> (m.takes_join_intent(
            ltime,
            id,
        ) <==> ltime.0 > m.states[id].status_time.0),
        ltime.0 < 0x8000_0000_0000_0000 && !m.states.dom().contains(id) && m.intents.dom().contains(
            id,
        ) ==> (m.takes_join_intent(ltime, id) <==> ltime.0 > m.intents[id].ltime.0),
        ltime.0 < 0x8000_0000_0000_0000 && !m.states.dom().contains(id)
            && !m.intents.dom().contains(id) ==> (m.takes_join_intent(ltime, id)
            <==> m.intents.dom().len() < 4096),
        !m.states.dom().contains(id) ==> (m.takes_leave_intent(local, ltime, id)
            <==> m.takes_join_intent(ltime, id)),
        m.states.dom().contains(id) ==> (m.takes_leave_intent(local, ltime, id)
            <==> m.takes_join_intent(ltime, id) && !(id == local && m.state is Alive) && !(
        m.states[id].member.status is Unknown)),
{
}

/// Whether an intent did no more than advance the clock past its time.
pub open spec fn only_clock_saw<I, A, G>(
    before: Machine<I, A, G>,
    after: Machine<I, A, G>,
    ltime: LamportTime,
) -> bool {
    &&& after == (Machine { clock: after.clock, ..before })
    &&& ltime.0 < before.clock ==> after.clock == before.clock
    &&& ltime.0 >= before.clock ==> after.clock == ltime.0 + 1
}

/// Whether an intent about an unknown node was kept with its kind, its time and when it came,
/// and the others with it.
pub open spec fn intent_kept<I, A, G>(
    before: Machine<I, A, G>,
    after: Machine<I, A, G>,
    id: I,
    kind: IntentKind,
    ltime: LamportTime,
    now: Instant,
) -> bool {
    &&& after.intents == before.intents.insert(id, NodeIntent { kind, ltime, wall_time: now })
    &&& after.dirty
    &&& after == (Machine {
        clock: after.clock,
        intents: after.intents,
        dirty: after.dirty,
        ..before
    })
    &&& after.clock > ltime.0
}

/// A join intent that counts moves the time of the last intent to its own. A member that was
/// leaving is alive again; one of any other status keeps it. Of an unknown node it is kept.
/// One that does not count only advances the clock.
pub proof fn a_join_intent_revives<I, A, G>(
    m: Machine<I, A, G>,
    ltime: LamportTime,
    id: I,
    now: Instant,
)
    requires
        ltime.0 < 0x8000_0000_0000_0000,
    ensures
        ({
            let after = m.after_join_intent(ltime, id, now);
            let was = m.states[id];
            let ms = after.states[id];
            &&& !m.takes_join_intent(ltime, id) ==> only_clock_saw(m, after, ltime)
            &&& m.takes_join_intent(ltime, id) && m.states.dom().contains(id) ==> {
                &&& after.states == m.states.insert(id, ms)
                &&& ms.status_time == ltime
                &&& ms.leave_time == was.leave_time
                &&& ms.member.node == was.member.node
                &&& ms.member.tags == was.member.tags
                &&& was.member.status is Leaving ==> ms.member.status is Alive
                &&& !(was.member.status is Leaving) ==> ms.member.status == was.member.status
                &&& after == (Machine {
                    clock: after.clock,
                    states: after.states,
                    dirty: true,
                    ..m
                })
                &&& after.clock > ltime.0
            }
            &&& m.takes_join_intent(ltime, id) && !m.states.dom().contains(id) ==> intent_kept(
                m,
                after,
                id,
                IntentKind::Join,
                ltime,
                now,
            )
        }),
{
}

/// Whether a node is gone altogether: no member, in no list, with no intent kept, its
/// coordinate given up where there are coordinates, and its end reported where it was a
/// member.
pub open spec fn gone<I, A, G>(
    before: Machine<I, A, G>,
    after: Machine<I, A, G>,
    id: I,
    member: Member<I, A>,
) -> bool {
    &&& !after.states.dom().contains(id)
    &&& !after.failed.contains(id)
    &&& !after.left.contains(id)
    &&& !after.intents.dom().contains(id)
    &&& forall|x: I|
        x != id ==> (#[trigger] after.intents.dom().contains(x) == before.intents.dom().contains(x))
    &&& forall|x: I| x != id ==> #[trigger] after.intents[x] == before.intents[x]
    &&& others_as_before(before, after, id)
    &&& after.dirty
    &&& after.opts == before.opts
    &&& before.opts.disable_coordinates ==> after.actions == before.actions
    &&& !before.opts.disable_coordinates ==> after.actions == before.actions.push(
        Action::ForgetCoordinate { id },
    )
    &&& before.batch is None ==> after.reports.len() > 0 && after.reports.last()
        == Report::<I, A>::Member(MemberEventKind::Reap, seq![member])
    &&& before.batch is Some ==> (after.batch matches Some(b) && (b.changes.contains(
        (MemberEventKind::Reap, member),
    ) || b.changes.len() >= 4096))
}

/// A node that is pruned is gone altogether, and nobody else is. A member is reported as
/// reaped the way it was last; of a node that was no member nothing is reported.
pub proof fn a_pruned_node_is_gone<I, A, G>(m: Machine<I, A, G>, id: I)
    ensures
        ({
            let after = m.pruning(id);
            &&& m.states.dom().contains(id) ==> gone(m, after, id, m.states[id].member)
            &&& m.states.dom().contains(id) ==> told_of(
                m,
                after,
                MemberEventKind::Reap,
                m.states[id].member,
            )
            &&& !m.states.dom().contains(id) ==> {
                &&& after.states == m.states
                &&& after.reports == m.reports
                &&& after.batch == m.batch
            }
            &&& !after.intents.dom().contains(id)
            &&& others_as_before(m, after, id)
            &&& after == (Machine {
                states: after.states,
                left: after.left,
                failed: after.failed,
                intents: after.intents,
                actions: after.actions,
                dirty: true,
                reports: after.reports,
                batch: after.batch,
                member_drop: after.member_drop,
                coalesce_now: after.coalesce_now,
                ..m
            })
        }),
{
    let scrubbed = Machine {
        left: members::without(m.left, id),
        failed: members::without(m.failed, id),
        intents: m.intents.remove(id),
        ..m
    }.forgetting(id);
    assert forall|x: I| #[trigger] scrubbed.failed.contains(x) == (m.failed.contains(x) && x
        != id) by {
        members::without_contains(m.failed, id, x);
    }
    assert forall|x: I| #[trigger] scrubbed.left.contains(x) == (m.left.contains(x) && x != id) by {
        members::without_contains(m.left, id, x);
    }
    assert(!scrubbed.failed.contains(id));
    assert(!scrubbed.left.contains(id));
    if m.knows(id) {
        changes_are_told(
            Machine { states: m.states.remove(id), ..scrubbed },
            MemberEventKind::Reap,
            m.states[id].member,
        );
    }
}

/// A leave intent that counts moves the time of the last intent to its own. A member that was
/// alive is leaving; one that failed has left, which is reported; one that was leaving or had
/// left keeps its status. Of an unknown node it is kept. Without a wish to prune nobody is
/// forgotten.
pub proof fn a_leave_intent_is_kept<I, A, G>(
    m: Machine<I, A, G>,
    local: I,
    ltime: LamportTime,
    id: I,
    now: Instant,
)
    requires
        ltime.0 < 0x8000_0000_0000_0000,
        !(m.states.dom().contains(id) && id == local && m.state is Alive),
    ensures
        ({
            let after = m.after_leave_intent(local, ltime, id, false, now);
            let was = m.states[id];
            let ms = after.states[id];
            let here = m.states.dom().contains(id);
            let counts = m.takes_join_intent(ltime, id);
            &&& !counts ==> only_clock_saw(m, after, ltime)
            &&& counts && !here ==> intent_kept(m, after, id, IntentKind::Leave, ltime, now)
            &&& counts && here ==> {
                &&& after.states == m.states.insert(id, ms)
                &&& ms.status_time == ltime
                &&& ms.leave_time == was.leave_time
                &&& ms.member.node == was.member.node
                &&& ms.member.tags == was.member.tags
                &&& after.clock > ltime.0
                &&& after.dirty
                &&& others_as_before(m, after, id)
                &&& only_members_changed(Machine { clock: after.clock, ..m }, after)
            }
            &&& counts && here && !(was.member.status is Failed) ==> {
                &&& was.member.status is Alive ==> ms.member.status is Leaving
                &&& !(was.member.status is Alive) ==> ms.member.status == was.member.status
                &&& after.failed == m.failed
                &&& after.left == m.left
                &&& after.reports == m.reports
                &&& after.batch == m.batch
            }
            &&& counts && here && was.member.status is Failed ==> {
                &&& ms.member.status is Left
                &&& after.left == m.left.push(id)
                &&& !after.failed.contains(id)
                &&& told_of(m, after, MemberEventKind::Leave, ms.member)
            }
        }),
{
    if m.knows(id) && m.takes_join_intent(ltime, id) && m.states[id].member.status is Failed {
        let ms = MemberState { status_time: ltime, ..m.states[id] };
        let gone = ms.spec_with_status(MemberStatus::Left);
        let base = Machine {
            clock: m.witnessing(ltime).clock,
            states: m.states.insert(id, gone),
            failed: members::without(m.failed, id),
            left: m.left.push(id),
            ..m
        };
        changes_are_told(base, MemberEventKind::Leave, gone.member);
        assert forall|x: I| #[trigger] base.failed.contains(x) == (m.failed.contains(x) && x
            != id) by {
            members::without_contains(m.failed, id, x);
        }
        assert(!base.failed.contains(id));
        assert forall|x: I| x != id implies #[trigger] base.left.contains(x) == m.left.contains(
            x,
        ) by {
            if m.left.contains(x) {
                let i = choose|i: int| 0 <= i < m.left.len() && m.left[i] == x;
                assert(base.left[i] == x);
            }
            if base.left.contains(x) {
                let i = choose|i: int| 0 <= i < base.left.len() && base.left[i] == x;
                assert(m.left[i] == x);
            }
        }
    }
}

/// A leave intent that counts and is to prune its node, whatever status but unknown the
/// member has, leaves nothing of it: it is no member, in neither list of departed ones and
/// without a kept intent, and that it was reaped is reported last. A failed one is reported
/// as left before.
pub proof fn a_pruning_leave_forgets<I, A, G>(
    m: Machine<I, A, G>,
    local: I,
    ltime: LamportTime,
    id: I,
    now: Instant,
)
    requires
        ltime.0 < 0x8000_0000_0000_0000,
        m.states.dom().contains(id),
        ltime.0 > m.states[id].status_time.0,
        !(id == local && m.state is Alive),
        !(m.states[id].member.status is Unknown),
    ensures
        ({
            let after = m.after_leave_intent(local, ltime, id, true, now);
            let was = m.states[id].member;
            let status = match was.status {
                MemberStatus::Alive => MemberStatus::Leaving,
                MemberStatus::Failed => MemberStatus::Left,
                other => other,
            };
            let member = Member { status, ..was };
            &&& m.takes_leave_intent(local, ltime, id)
            &&& gone(m, after, id, member)
            &&& after.clock > ltime.0
            &&& m.batch is None && !(was.status is Failed) ==> after.reports == m.reports.push(
                Report::Member(MemberEventKind::Reap, seq![member]),
            )
            &&& m.batch is None && was.status is Failed ==> after.reports == m.reports.push(
                Report::Member(MemberEventKind::Leave, seq![member]),
            ).push(Report::Member(MemberEventKind::Reap, seq![member]))
        }),
{
    let before = m.after_leave_intent(local, ltime, id, false, now);
    a_leave_intent_is_kept(m, local, ltime, id, now);
    a_pruned_node_is_gone(before, id);
    assert(m.after_leave_intent(local, ltime, id, true, now) == before.pruning(id));
}

/// A leave intent that does not count only advances the clock, whatever it asks for and
/// whomever it is about. One about an unknown node that counts is kept; there is nothing to
/// prune.
pub proof fn stale_leaves_only_move_the_clock<I, A, G>(
    m: Machine<I, A, G>,
    local: I,
    ltime: LamportTime,
    id: I,
    prune: bool,
    now: Instant,
)
    requires
        ltime.0 < 0x8000_0000_0000_0000,
    ensures
        ({
            let after = m.after_leave_intent(local, ltime, id, prune, now);
            let counts = m.takes_join_intent(ltime, id);
            &&& !counts ==> only_clock_saw(m, after, ltime)
            &&& counts && !m.states.dom().contains(id) ==> intent_kept(
                m,
                after,
                id,
                IntentKind::Leave,
                ltime,
                now,
            )
        }),
{
}

/// A member of unknown status takes the time of a leave intent and nothing more, even where
/// it is to be pruned.
pub proof fn unknown_status_is_not_pruned<I, A, G>(
    m: Machine<I, A, G>,
    local: I,
    ltime: LamportTime,
    id: I,
    prune: bool,
    now: Instant,
)
    requires
        ltime.0 < 0x8000_0000_0000_0000,
        m.states.dom().contains(id),
        ltime.0 > m.states[id].status_time.0,
        !(id == local && m.state is Alive),
        m.states[id].member.status is Unknown,
    ensures
        ({
            let after = m.after_leave_intent(local, ltime, id, prune, now);
            &&& after.states == m.states.insert(id, after.states[id])
            &&& after.states[id].member == m.states[id].member
            &&& after.states[id].leave_time == m.states[id].leave_time
            &&& after.states[id].status_time == ltime
            &&& after == (Machine {
                clock: after.clock,
                states: after.states,
                dirty: true,
                ..m
            })
        }),
{
}

/// A node that announces its join tells the others the time that it was given, counts it
/// for itself as it counts that of others, and does nothing else.
pub proof fn an_announced_join_is_told<I, A, G>(m: Machine<I, A, G>, local: I, ltime: LamportTime)
    ensures
        ({
            let after = m.announcing_join(local, ltime);
            let in_range = ltime.0 < 0x8000_0000_0000_0000;
            let here = m.states.dom().contains(local);
            &&& after.actions == m.actions.push(
                Action::Broadcast {
                    rank: 0,
                    frame: Frame::Message(AnyMessage::Join(JoinMessage { ltime, id: local })),
                },
            )
            &&& !in_range ==> after == (Machine { actions: after.actions, ..m })
            &&& in_range ==> after.clock > ltime.0
            &&& after.clock == m.clock || after.clock == ltime.0 + 1
            &&& in_range && !here && m.takes_join_intent(ltime, local) ==> intent_kept(
                m,
                Machine { actions: m.actions, ..after },
                local,
                IntentKind::Join,
                ltime,
                m.drain_now,
            )
            &&& here || !m.takes_join_intent(ltime, local) ==> after.intents == m.intents
            &&& in_range && here && ltime.0 > m.states[local].status_time.0 ==> {
                &&& after.states == m.states.insert(local, after.states[local])
                &&& after.states[local].status_time == ltime
                &&& m.states[local].member.status is Leaving
                    ==> after.states[local].member.status is Alive
                &&& !(m.states[local].member.status is Leaving) ==> after.states[local].member
                    == m.states[local].member
            }
            &&& !here || ltime.0 <= m.states[local].status_time.0 ==> after.states == m.states
            &&& after == (Machine {
                clock: after.clock,
                states: after.states,
                intents: after.intents,
                dirty: after.dirty,
                actions: after.actions,
                ..m
            })
        }),
{
}

/// A leave intent about this node, which does not leave, is answered with a join of a later
/// time and has no other effect on the members, even where it asks to prune.
pub proof fn a_wrong_leave_is_refuted<I, A, G>(
    m: Machine<I, A, G>,
    local: I,
    ltime: LamportTime,
    prune: bool,
    now: Instant,
)
    requires
        m.state is Alive,
        m.states.dom().contains(local),
        ltime.0 > m.states[local].status_time.0,
        ltime.0 + 1 < 0x8000_0000_0000_0000,
        m.clock < 0x8000_0000_0000_0000,
    ensures
        ({
            let after = m.after_leave_intent(local, ltime, local, prune, now);
            let stamp = after.states[local].status_time;
            &&& stamp.0 > ltime.0
            &&& stamp.0 >= m.clock
            &&& after.clock > stamp.0
            &&& after.actions == m.actions.push(
                Action::Broadcast {
                    rank: 0,
                    frame: Frame::Message(
                        AnyMessage::Join(JoinMessage { ltime: stamp, id: local }),
                    ),
                },
            )
            &&& after.reports == m.reports
            &&& after.left == m.left
            &&& after.failed == m.failed
            &&& others_as_before(m, after, local)
            &&& after.states.dom().contains(local)
            &&& !(m.states[local].member.status is Leaving) ==> after.states[local].member
                == m.states[local].member
            &&& m.states[local].member.status is Leaving
                ==> after.states[local].member.status is Alive
        }),
{
}

/// Whether a member with the given looks is gone.
pub open spec fn ended<I, A, G>(
    before: Machine<I, A, G>,
    after: Machine<I, A, G>,
    member: Member<I, A>,
) -> bool {
    exists|id: I|
        before.states.dom().contains(id) && !after.states.dom().contains(id)
            && #[trigger] before.states[id].member == member
}

/// Whether the request was made to forget the coordinate of some member that is gone.
pub open spec fn coordinate_ended<I, A, G>(
    before: Machine<I, A, G>,
    after: Machine<I, A, G>,
    action: Action<I, A>,
) -> bool {
    exists|id: I|
        #[trigger] before.states.dom().contains(id) && !after.states.dom().contains(id) && action
            == Action::<I, A>::ForgetCoordinate { id }
}

/// Whether some members ended and the others are as they were. Where reports are not held
/// back, exactly those that ended are reported as reaped, and nothing else is. Where there
/// are coordinates, exactly theirs are given up.
pub open spec fn only_reaped<I, A, G>(before: Machine<I, A, G>, after: Machine<I, A, G>) -> bool {
    &&& forall|id: I| #[trigger]
        after.states.dom().contains(id) ==> before.states.dom().contains(id) && after.states[id]
            == before.states[id]
    &&& before.batch is None ==> {
        &&& after.batch is None
        &&& before.reports.is_prefix_of(after.reports)
        &&& forall|kind: MemberEventKind, x: Member<I, A>| #[trigger]
            coalesce::names(after.reports.skip(before.reports.len() as int), kind, x)
                <==> kind is Reap && ended(before, after, x)
    }
    &&& before.actions.is_prefix_of(after.actions)
    &&& forall|action: Action<I, A>| #[trigger]
        after.actions.skip(before.actions.len() as int).contains(action)
            <==> !before.opts.disable_coordinates && coordinate_ended(before, after, action)
    &&& after == (Machine {
        states: after.states,
        failed: after.failed,
        left: after.left,
        reports: after.reports,
        batch: after.batch,
        member_drop: after.member_drop,
        coalesce_now: after.coalesce_now,
        actions: after.actions,
        ..before
    })
}

proof fn names_in_either<I, A>(
    s: Seq<Report<I, A>>,
    t: Seq<Report<I, A>>,
    kind: MemberEventKind,
    x: Member<I, A>,
)
    ensures
        coalesce::names(s + t, kind, x) <==> coalesce::names(s, kind, x) || coalesce::names(
            t,
            kind,
            x,
        ),
{
    let u = s + t;
    if coalesce::names(s, kind, x) {
        let i = choose|i: int|
            0 <= i < s.len() && (#[trigger] s[i] matches Report::Member(k, ms) && k == kind
                && ms.contains(x));
        assert(u[i] == s[i]);
    }
    if coalesce::names(t, kind, x) {
        let i = choose|i: int|
            0 <= i < t.len() && (#[trigger] t[i] matches Report::Member(k, ms) && k == kind
                && ms.contains(x));
        assert(u[s.len() + i] == t[i]);
    }
    if coalesce::names(u, kind, x) {
        let i = choose|i: int|
            0 <= i < u.len() && (#[trigger] u[i] matches Report::Member(k, ms) && k == kind
                && ms.contains(x));
        if i < s.len() {
            assert(u[i] == s[i]);
        } else {
            assert(u[i] == t[i - s.len()]);
        }
    }
}

proof fn contains_in_either<T>(s: Seq<T>, t: Seq<T>, x: T)
    ensures
        (s + t).contains(x) <==> s.contains(x) || t.contains(x),
{
    let u = s + t;
    if s.contains(x) {
        let i = choose|i: int| 0 <= i < s.len() && s[i] == x;
        assert(u[i] == x);
    }
    if t.contains(x) {
        let i = choose|i: int| 0 <= i < t.len() && t[i] == x;
        assert(u[s.len() + i] == x);
    }
    if u.contains(x) {
        let i = choose|i: int| 0 <= i < u.len() && u[i] == x;
        if i < s.len() {
            assert(s[i] == x);
        } else {
            assert(t[i - s.len()] == x);
        }
    }
}

proof fn reaping_chains<I, A, G>(
    a: Machine<I, A, G>,
    b: Machine<I, A, G>,
    c: Machine<I, A, G>,
)
    requires
        only_reaped(a, b),
        only_reaped(b, c),
    ensures
        only_reaped(a, c),
{
    assert(a.opts == b.opts);
    assert forall|id: I| #[trigger] c.states.dom().contains(id) implies a.states.dom().contains(id)
        && c.states[id] == a.states[id] by {
        assert(b.states.dom().contains(id));
    }
    assert forall|x: Member<I, A>| #[trigger]
        ended(a, c, x) <==> ended(a, b, x) || ended(b, c, x) by {
        if ended(a, c, x) {
            let id = choose|id: I|
                a.states.dom().contains(id) && !c.states.dom().contains(id)
                    && #[trigger] a.states[id].member == x;
            if b.states.dom().contains(id) {
                assert(b.states[id].member == x);
            }
        }
        if ended(a, b, x) {
            let id = choose|id: I|
                a.states.dom().contains(id) && !b.states.dom().contains(id)
                    && #[trigger] a.states[id].member == x;
            assert(!c.states.dom().contains(id));
        }
        if ended(b, c, x) {
            let id = choose|id: I|
                b.states.dom().contains(id) && !c.states.dom().contains(id)
                    && #[trigger] b.states[id].member == x;
            assert(a.states[id].member == x);
        }
    }
    assert forall|x: Action<I, A>| #[trigger]
        coordinate_ended(a, c, x) <==> coordinate_ended(a, b, x) || coordinate_ended(b, c, x) by {
        if coordinate_ended(a, c, x) {
            let id = choose|id: I|
                #[trigger] a.states.dom().contains(id) && !c.states.dom().contains(id) && x
                    == Action::<I, A>::ForgetCoordinate { id };
            if b.states.dom().contains(id) {
                assert(b.states[id] == a.states[id]);
            }
        }
        if coordinate_ended(a, b, x) {
            let id = choose|id: I|
                #[trigger] a.states.dom().contains(id) && !b.states.dom().contains(id) && x
                    == Action::<I, A>::ForgetCoordinate { id };
            assert(!c.states.dom().contains(id));
        }
        if coordinate_ended(b, c, x) {
            let id = choose|id: I|
                #[trigger] b.states.dom().contains(id) && !c.states.dom().contains(id) && x
                    == Action::<I, A>::ForgetCoordinate { id };
            assert(a.states[id] == b.states[id]);
        }
    }
    if a.batch is None {
        let s = b.reports.skip(a.reports.len() as int);
        let t = c.reports.skip(b.reports.len() as int);
        assert(c.reports.skip(a.reports.len() as int) =~= s + t);
        assert forall|kind: MemberEventKind, x: Member<I, A>| #[trigger]
            coalesce::names(c.reports.skip(a.reports.len() as int), kind, x) <==> kind is Reap
                && ended(a, c, x) by {
            names_in_either(s, t, kind, x);
            assert(ended(a, c, x) <==> ended(a, b, x) || ended(b, c, x));
        }
    }
    let s = b.actions.skip(a.actions.len() as int);
    let t = c.actions.skip(b.actions.len() as int);
    assert(c.actions.skip(a.actions.len() as int) =~= s + t);
    assert forall|action: Action<I, A>| #[trigger]
        c.actions.skip(a.actions.len() as int).contains(action)
            <==> !a.opts.disable_coordinates && coordinate_ended(a, c, action) by {
        contains_in_either(s, t, action);
        assert(coordinate_ended(a, c, action) <==> coordinate_ended(a, b, action)
            || coordinate_ended(b, c, action));
    }
}

proof fn nothing_reaped<I, A, G>(m: Machine<I, A, G>)
    ensures
        only_reaped(m, m),
{
    assert(m.reports.skip(m.reports.len() as int) =~= Seq::<Report<I, A>>::empty());
    assert(m.actions.skip(m.actions.len() as int) =~= Seq::<Action<I, A>>::empty());
}

proof fn one_reaped<I, A, G>(m: Machine<I, A, G>, failed: Seq<I>, left: Seq<I>, id: I)
    requires
        m.states.dom().contains(id),
    ensures
        only_reaped(m, Machine { failed, left, ..m.erasing(id) }),
{
    let base = Machine { states: m.states.remove(id), ..m.forgetting(id) };
    let member = m.states[id].member;
    changes_are_told(base, MemberEventKind::Reap, member);
    let after = Machine { failed, left, ..m.erasing(id) };
    assert(after.states == m.states.remove(id));
    assert forall|x: Member<I, A>| #[trigger] ended(m, after, x) <==> x == member by {
        assert(m.states[id].member == member);
    }
    assert forall|x: Action<I, A>| #[trigger]
        coordinate_ended(m, after, x) <==> x == Action::<I, A>::ForgetCoordinate { id } by {
        assert(m.states.dom().contains(id));
    }
    if m.batch is None {
        let new = after.reports.skip(m.reports.len() as int);
        assert(new =~= seq![Report::<I, A>::Member(MemberEventKind::Reap, seq![member])]);
        assert(seq![member][0] == member);
        assert forall|kind: MemberEventKind, x: Member<I, A>| #[trigger]
            coalesce::names(new, kind, x) <==> kind is Reap && ended(m, after, x) by {
            assert(ended(m, after, x) <==> x == member);
            assert(new[0] == Report::<I, A>::Member(MemberEventKind::Reap, seq![member]));
            assert(seq![member].contains(member));
        }
    }
    let asked = after.actions.skip(m.actions.len() as int);
    if m.opts.disable_coordinates {
        assert(asked =~= Seq::<Action<I, A>>::empty());
    } else {
        let forget = Action::<I, A>::ForgetCoordinate { id };
        assert(asked =~= seq![forget]);
        assert(asked[0] == forget);
        assert forall|action: Action<I, A>| #[trigger]
            asked.contains(action) <==> coordinate_ended(m, after, action) by {
            assert(coordinate_ended(m, after, action) <==> action == forget);
        }
    }
}

/// A member that is reaped is told of as it was last, is no member any more, and its
/// coordinate is given up where there are coordinates. A node that is no member is not
/// reaped.
pub proof fn a_reaped_member_is_told_of<I, A, G>(m: Machine<I, A, G>, id: I)
    ensures
        ({
            let after = m.erasing(id);
            &&& !m.states.dom().contains(id) ==> after == m
            &&& m.states.dom().contains(id) ==> {
                &&& after.states == m.states.remove(id)
                &&& told_of(m, after, MemberEventKind::Reap, m.states[id].member)
                &&& m.opts.disable_coordinates ==> after.actions == m.actions
                &&& !m.opts.disable_coordinates ==> after.actions == m.actions.push(
                    Action::ForgetCoordinate { id },
                )
                &&& after.failed == m.failed
                &&& after.left == m.left
                &&& only_members_changed(Machine { actions: after.actions, ..m }, after)
            }
        }),
{
    if m.knows(id) {
        changes_are_told(
            Machine { states: m.states.remove(id), ..m.forgetting(id) },
            MemberEventKind::Reap,
            m.states[id].member,
        );
    }
}

proof fn failed_are_only_reaped<I, A, G: ReconnectDelegate<I, A>>(
    m: Machine<I, A, G>,
    i: int,
    now: Instant,
)
    requires
        0 <= i,
    ensures
        only_reaped(m, m.reaping_failed(i, now)),
    decreases m.failed.len() - i,
{
    nothing_reaped(m);
    if i < m.failed.len() {
        let id = m.failed[i];
        if m.expired(id, m.opts.reconnect_timeout, now) {
            let failed = membership::swap_removed(m.failed, i);
            one_reaped(m, failed, m.left, id);
            let next = Machine { failed, ..m.erasing(id) };
            assert(next == Machine { failed, left: m.left, ..m.erasing(id) });
            failed_are_only_reaped(next, i, now);
            reaping_chains(m, next, next.reaping_failed(i, now));
        } else {
            failed_are_only_reaped(m, i + 1, now);
        }
    }
}

proof fn left_are_only_reaped<I, A, G: ReconnectDelegate<I, A>>(
    m: Machine<I, A, G>,
    i: int,
    now: Instant,
)
    requires
        0 <= i,
    ensures
        only_reaped(m, m.reaping_left(i, now)),
    decreases m.left.len() - i,
{
    nothing_reaped(m);
    if i < m.left.len() {
        let id = m.left[i];
        if m.expired(id, m.opts.tombstone_timeout, now) {
            let left = membership::swap_removed(m.left, i);
            one_reaped(m, m.failed, left, id);
            let next = Machine { left, ..m.erasing(id) };
            assert(next == Machine { failed: m.failed, left, ..m.erasing(id) });
            left_are_only_reaped(next, i, now);
            reaping_chains(m, next, next.reaping_left(i, now));
        } else {
            left_are_only_reaped(m, i + 1, now);
        }
    }
}

/// The reaper reports exactly the members that it ends, gives up exactly their coordinates
/// and touches nobody else. Of the intents it drops exactly those that came too long ago.
pub proof fn the_reaped_are_told<I, A, G: ReconnectDelegate<I, A>>(
    m: Machine<I, A, G>,
    now: Instant,
)
    ensures
        only_reaped(
            m,
            Machine { intents: m.intents, dirty: m.dirty, ..m.reaped(now) },
        ),
        m.reaped(now).dirty,
        forall|id: I| #[trigger]
            m.reaped(now).intents.dom().contains(id) <==> m.intents.dom().contains(id) && now
                - m.intents[id].wall_time <= m.opts.recent_intent_timeout,
        forall|id: I| #[trigger]
            m.reaped(now).intents.dom().contains(id) ==> m.reaped(now).intents[id]
                == m.intents[id],
{
    let half = m.reaping_failed(0, now);
    let done = half.reaping_left(0, now);
    failed_are_only_reaped(m, 0, now);
    left_are_only_reaped(half, 0, now);
    reaping_chains(m, half, done);
    assert(Machine { intents: m.intents, dirty: m.dirty, ..m.reaped(now) } == done);
}

/// A member was kept long enough once more time than allowed has passed since it departed.
/// The delegate, where there is one, says how long that is.
pub proof fn keeping_ends_in_time<I, A, G: ReconnectDelegate<I, A>>(
    m: Machine<I, A, G>,
    id: I,
    base: Duration,
    now: Instant,
)
    ensures
        m.expired(id, base, now) <==> {
            &&& m.states.dom().contains(id)
            &&& m.states[id].leave_time matches Some(then) && now - then > (match m.delegate {
                Some(d) => d.timeout_for(m.states[id].member, base) as int,
                None => base as int,
            })
        },
{
}

} // verus!
