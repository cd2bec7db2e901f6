//! What holds of the machine whatever it is told, on small clusters. Addresses
//! are plain numbers here.

use bytes::Bytes;
use rand::rngs::SmallRng;
use rand::SeedableRng;
use serf_proto::action::{Action, Coordinator, Frame, EVENT_RANK, INTENT_RANK, QUERY_RANK};
use serf_proto::clock::{LamportTime, LTIME_MAX};
use serf_proto::coalesce::{MemberEventCoalescer, UserEventCoalescer, MAX_COALESCED_MEMBERS};
use serf_proto::endpoint::ingress::{InnerEvent, Packet};
use serf_proto::endpoint::membership::Meta;
use serf_proto::endpoint::queries::Request;
use serf_proto::endpoint::{Endpoint, FlatTimeouts, ReconnectDelegate};
use serf_proto::event::{
    Event, KeyRequest, KeyRequestOperation, KeyResponseArgs, MemberEventKind, QueryEvent,
};
use serf_proto::filter::{Filter, TagFilter};
use serf_proto::id::Id;
use serf_proto::members::{IntentKind, Member, MemberState, MemberStatus, SerfState};
use serf_proto::options::Options;
use serf_proto::query::{
    Error, PendingQuery, QueryId, QueryOrigin, QueryParams, QueryPurpose, ReceivedQuery,
    MAX_RECEIVED_QUERIES,
};
use serf_proto::time::{Duration, Instant, ORIGIN, SECOND};
use serf_proto::typed::{
    AnyMessage, ConflictResponseMessage, KeyResponseMessage, MessageType, Node, PushPullMessage,
    QueryFlag, QueryMessage, QueryResponseMessage, RelayMessage, ReplayResult, SecretKey, Tags,
    UserEvent, UserEventMessage, UserEvents,
};
use std::collections::VecDeque;
use std::sync::Arc;

type Core = Endpoint<u32, u32, FlatTimeouts>;

fn coordinator() -> Coordinator<u32, u32> {
    Coordinator { local: Node::new(1, 1000), queue_len: 0 }
}

fn lt(t: u64) -> LamportTime {
    LamportTime::new(t)
}

fn no_tags() -> Arc<Tags> {
    Arc::new(Tags::new())
}

/// A machine whose node, with id 1 at address 1000, has joined.
fn machine_with(opts: Options) -> Core {
    let mut e = Core::new(opts);
    e.handle_node_join(Node::new(1, 1000), no_tags());
    while e.poll_event().is_some() {}
    e
}

fn machine() -> Core {
    machine_with(Options::new())
}

fn with_members(ids: &[u32]) -> Core {
    let mut e = machine();
    for id in ids {
        e.handle_node_join(Node::new(*id, 1000 + *id), no_tags());
    }
    while e.poll_event().is_some() {}
    e
}

fn actions(e: &mut Core) -> Vec<Action<u32, u32>> {
    let mut all: Vec<Action<u32, u32>> = Vec::new();
    while let Some(a) = e.poll_action() {
        all.push(a);
    }
    all
}

fn status(e: &Core, id: u32) -> Option<MemberStatus> {
    e.members.states.get(&id).map(|ms| ms.member.status)
}

fn user_event(ltime: u64, name: &str) -> UserEventMessage {
    UserEventMessage {
        ltime: lt(ltime),
        cc: false,
        name: name.to_string(),
        payload: Bytes::new(),
    }
}

fn query(ltime: u64, id: u32, name: &str, payload: Bytes) -> QueryMessage<u32, u32> {
    QueryMessage {
        ltime: lt(ltime),
        id,
        from: Node::new(9, 1009),
        filters: Vec::new(),
        flags: QueryFlag::empty(),
        relay_factor: 0,
        timeout: 5 * SECOND,
        name: name.to_string(),
        payload,
    }
}

fn response(id: QueryId, from: u32, payload: Bytes) -> QueryResponseMessage<u32, u32> {
    QueryResponseMessage {
        ltime: id.ltime,
        id: id.id,
        from: Node::new(from, 1000 + from),
        flags: QueryFlag::empty(),
        payload,
    }
}

fn pending(e: &mut Core, kind: QueryPurpose, deadline: Instant) -> QueryId {
    let id = QueryId { ltime: lt(e.query_clock), id: 7 };
    let nodes = e.num_members();
    e.pending_queries.push(PendingQuery::new(kind, deadline, id, false, nodes));
    id
}

fn conflict_vote(addr: u32) -> Option<(AnyMessage<u32, u32>, usize)> {
    let msg = ConflictResponseMessage { member: Node::new(1, addr) };
    Some((AnyMessage::ConflictResponse(msg), 3))
}

fn peer_state(ltime: u64, event_ltime: u64, query_ltime: u64) -> PushPullMessage<u32> {
    PushPullMessage {
        ltime: lt(ltime),
        status_ltimes: Vec::new(),
        left_members: Vec::new(),
        event_ltime: lt(event_ltime),
        events: Vec::new(),
        query_ltime: lt(query_ltime),
    }
}

// Members.

#[test]
fn a_refuted_leave_is_outranked_by_a_join() {
    let mut e = machine();
    assert!(!e.handle_node_leave_intent(&1, lt(5), &1, false, ORIGIN));
    assert_eq!(status(&e, 1), Some(MemberStatus::Alive));
    let all = actions(&mut e);
    assert_eq!(all.len(), 1);
    match &all[0] {
        Action::Broadcast { rank, frame: Frame::Message(AnyMessage::Join(join)) } => {
            assert_eq!(*rank, INTENT_RANK);
            assert_eq!(join.id, 1);
            assert!(join.ltime.0 > 5, "the join must be newer than the leave");
        }
        _ => panic!("expected a join intent"),
    }
}

#[test]
fn an_intent_is_taken_once() {
    let mut e = with_members(&[2]);
    assert!(e.handle_node_leave_intent(&1, lt(8), &2, false, ORIGIN));
    assert!(!e.handle_node_leave_intent(&1, lt(8), &2, false, ORIGIN));
    assert!(e.handle_node_join_intent(lt(9), &2, ORIGIN));
    assert!(!e.handle_node_join_intent(lt(9), &2, ORIGIN));
    assert!(e.handle_node_join_intent(lt(9), &77, ORIGIN));
    assert!(!e.handle_node_join_intent(lt(9), &77, ORIGIN));
}

#[test]
fn a_later_join_undoes_a_leave() {
    let mut e = with_members(&[2]);
    assert!(e.handle_node_leave_intent(&1, lt(8), &2, false, ORIGIN));
    assert_eq!(status(&e, 2), Some(MemberStatus::Leaving));
    assert!(e.handle_node_join_intent(lt(9), &2, ORIGIN));
    assert_eq!(status(&e, 2), Some(MemberStatus::Alive));
}

#[test]
fn a_pruned_member_is_forgotten() {
    let mut e = with_members(&[2]);
    assert!(e.handle_node_leave_intent(&1, lt(8), &2, true, ORIGIN));
    assert_eq!(status(&e, 2), None);
    let mut kinds: Vec<MemberEventKind> = Vec::new();
    while let Some(Event::Member(me)) = e.poll_event() {
        kinds.push(me.kind());
    }
    assert_eq!(kinds, vec![MemberEventKind::Reap]);
}

#[test]
fn the_lists_agree_with_the_members() {
    let mut e = with_members(&[2, 3, 4, 5]);
    e.handle_node_leave(&2, SECOND);
    e.handle_node_leave(&3, SECOND);
    e.handle_node_leave_intent(&1, lt(20), &4, false, SECOND);
    e.handle_node_leave(&4, SECOND);
    assert_eq!(e.members.failed_members, vec![2, 3]);
    assert_eq!(e.members.left_members, vec![4]);
    e.handle_node_leave_intent(&1, lt(30), &2, false, SECOND);
    assert_eq!(status(&e, 2), Some(MemberStatus::Left));
    assert_eq!(e.members.failed_members, vec![3]);
    assert_eq!(e.members.left_members, vec![4, 2]);
    e.handle_node_join(Node::new(3, 1003), no_tags());
    assert_eq!(status(&e, 3), Some(MemberStatus::Alive));
    assert!(e.members.failed_members.is_empty());
}

#[test]
fn the_reaper_forgets_exactly_the_expired() {
    let mut e = machine_with(Options { disable_coordinates: false, ..Options::new() });
    for id in [2u32, 3, 4] {
        e.handle_node_join(Node::new(id, 1000 + id), no_tags());
    }
    e.handle_node_leave(&2, 0);
    e.handle_node_leave(&3, 10 * SECOND);
    let day: Duration = 24 * 3600 * SECOND;
    e.fire_reap(day);
    assert_eq!(status(&e, 2), Some(MemberStatus::Failed), "at the timeout it is still kept");
    e.fire_reap(day + 1);
    assert_eq!(status(&e, 2), None);
    assert_eq!(status(&e, 3), Some(MemberStatus::Failed));
    assert_eq!(status(&e, 4), Some(MemberStatus::Alive));
    assert_eq!(e.members.failed_members, vec![3]);
    assert!(actions(&mut e).iter().any(|a| matches!(a, Action::ForgetCoordinate { id: 2 })));
}

struct Patient;

impl ReconnectDelegate<u32, u32> for Patient {
    fn timeout_for(&self, member: Member<u32, u32>, base: Duration) -> Duration {
        self.reconnect_timeout(&member, base)
    }

    fn reconnect_timeout(&self, member: &Member<u32, u32>, base: Duration) -> Duration {
        if member.node.id == 2 {
            base * 2
        } else {
            base
        }
    }
}

#[test]
fn a_delegate_may_keep_a_failed_member_longer() {
    let mut e: Endpoint<u32, u32, Patient> = Endpoint::new(Options::new());
    e.set_reconnect_delegate(Some(Patient));
    for id in [2u32, 3] {
        e.handle_node_join(Node::new(id, 1000 + id), no_tags());
        e.handle_node_leave(&id, 0);
    }
    e.fire_reap(25 * 3600 * SECOND);
    assert!(e.members.states.contains_key(&2));
    assert!(!e.members.states.contains_key(&3));
    e.fire_reap(49 * 3600 * SECOND);
    assert!(!e.members.states.contains_key(&2));
}

#[test]
fn a_delegate_may_come_with_the_machine() {
    let e: Endpoint<u32, u32, Patient> = Endpoint::new(Options::new());
    let mut e = e.with_reconnect_delegate(Some(Patient));
    e.handle_node_join(Node::new(2, 1002), no_tags());
    e.handle_node_leave(&2, 0);
    e.fire_reap(25 * 3600 * SECOND);
    assert!(e.members.states.contains_key(&2));
    let mut e = e.with_reconnect_delegate(None);
    e.fire_reap(25 * 3600 * SECOND);
    assert!(!e.members.states.contains_key(&2));
}

#[test]
fn an_update_of_an_unknown_node_is_no_join() {
    let mut e = machine();
    e.handle_node_update(Node::new(5, 1005), no_tags());
    assert_eq!(status(&e, 5), None);
    assert!(e.poll_event().is_none());
}

#[test]
fn metadata_that_cannot_be_read_gives_no_tags() {
    let some = Tags { entries: vec![("a".to_string(), "b".to_string())] };
    assert_eq!(Meta::Empty.into_tags().entries.len(), 0);
    assert_eq!(Meta::Unreadable.into_tags().entries.len(), 0);
    assert_eq!(Meta::Readable(some).into_tags().entries.len(), 1);
}

#[test]
fn a_snapshot_of_the_members_lists_them_in_wire_order() {
    let e = with_members(&[300, 2, 128]);
    let ids: Vec<u32> = e.members_snapshot().iter().map(|m| m.node.id).collect();
    assert_eq!(ids, vec![1, 2, 128, 300]);
}

#[test]
fn a_buffered_intent_is_kept_for_its_kind() {
    let mut e = machine();
    e.handle_node_join_intent(lt(4), &8, ORIGIN);
    assert_eq!(e.members.recent_intent(&8, IntentKind::Join), Some(lt(4)));
    assert_eq!(e.members.recent_intent(&8, IntentKind::Leave), None);
    assert!(e.handle_node_leave_intent(&1, lt(5), &8, false, ORIGIN));
    assert_eq!(e.members.recent_intent(&8, IntentKind::Leave), Some(lt(5)));
    assert!(!e.handle_node_join_intent(lt(5), &8, ORIGIN));
}

// Clocks.

#[test]
fn peers_cannot_exhaust_the_clocks() {
    let mut e = machine();
    for ltime in [LTIME_MAX - 1, LTIME_MAX, u64::MAX - 1, u64::MAX] {
        e.handle_node_join_intent(lt(ltime), &2, ORIGIN);
        e.handle_user_event(user_event(ltime, "x"));
        let msg = query(ltime, 1, "q", Bytes::new());
        e.handle_query(&coordinator(), msg, QueryOrigin::Inbound, None, None);
    }
    assert!(e.member_time() <= LTIME_MAX);
    assert!(e.event_time() <= LTIME_MAX);
    assert!(e.query_time() <= LTIME_MAX);
}

#[test]
fn clocks_only_go_forward() {
    let mut e = machine();
    let mut last: (u64, u64, u64) = (0, 0, 0);
    for ltime in [9u64, 3, 12, 1, 12, 40, 2] {
        e.handle_node_join_intent(lt(ltime), &2, ORIGIN);
        e.handle_user_event(user_event(ltime, "x"));
        e.merge_push_pull(&coordinator(), &peer_state(ltime, ltime, ltime), false);
        let now = (e.member_time(), e.event_time(), e.query_time());
        assert!(now.0 >= last.0 && now.1 >= last.1 && now.2 >= last.2);
        last = now;
    }
    assert_eq!(last, (41, 41, 40));
}

// User events.

#[test]
fn a_user_event_is_stamped_reported_and_broadcast() {
    let mut e = machine();
    let msg = e.user_event("deploy".to_string(), Bytes::from_static(b"v1"), true, ORIGIN).unwrap();
    assert_eq!(msg.ltime, lt(0));
    assert!(msg.cc);
    let frame = Bytes::from_static(b"frame");
    e.fire_user_event(msg, Some(frame.clone())).unwrap();
    assert_eq!(e.event_time(), 1);
    match e.poll_event() {
        Some(Event::User(u)) => assert_eq!(u.name, "deploy"),
        _ => panic!("expected a user event"),
    }
    let all = actions(&mut e);
    assert!(matches!(
        &all[..],
        [Action::Broadcast { rank: EVENT_RANK, frame: Frame::Ready(b) }] if *b == frame
    ));
}

#[test]
fn a_user_event_that_is_too_large_is_refused() {
    let mut e = machine();
    let payload = Bytes::from(vec![0u8; 510]);
    assert_eq!(
        e.user_event("abc".to_string(), payload.clone(), false, ORIGIN).unwrap_err(),
        Error::UserEventTooLarge(513, 512)
    );
    let msg = e.user_event("ab".to_string(), payload, false, ORIGIN).unwrap();
    let frame = Bytes::from(vec![0u8; 513]);
    assert_eq!(e.fire_user_event(msg.dup(), Some(frame)), Err(Error::UserEventTooLarge(513, 512)));
    assert_eq!(e.fire_user_event(msg.dup(), None), Err(Error::UserEventEncode));
    assert!(e.poll_event().is_none());
    assert!(e.poll_action().is_none());
    assert_eq!(e.event_time(), 0);
    assert_eq!(e.fire_user_event(msg, Some(Bytes::from_static(b"frame"))), Ok(()));
    assert_eq!(e.event_time(), 1);
}

#[test]
fn a_response_is_refused_for_its_size_first() {
    let mut e = machine();
    let c = coordinator();
    let limit = e.opts.query_response_size_limit;
    let id = QueryId { ltime: lt(4), id: 5 };
    let token = QueryEvent {
        id: 5,
        ltime: lt(4),
        from: Node::new(9, 1009),
        name: "q".to_string(),
        payload: Bytes::new(),
        relay_factor: 0,
        deadline: SECOND,
    };
    let large = Bytes::from(vec![0u8; limit + 1]);
    let small = Bytes::from_static(b"yes");
    let too_large = Error::RespondTooLarge(limit + 1, limit);
    // Nobody waits.
    assert_eq!(e.respond(&c, &token, large.clone()).unwrap_err(), too_large);
    assert_eq!(e.respond_inner(&id, &Some(large.clone()), 9 * SECOND), Err(too_large));
    assert_eq!(e.respond(&c, &token, small.clone()).unwrap_err(), Error::AlreadyResponded);
    let late = e.respond_inner(&id, &Some(small.clone()), 9 * SECOND);
    assert_eq!(late, Err(Error::AlreadyResponded));
    assert_eq!(e.respond_inner(&id, &None, 0), Err(Error::AlreadyResponded));
    // Someone waited too long.
    e.received_queries.insert(id, ReceivedQuery { from: 1009, deadline: SECOND });
    assert_eq!(e.respond(&c, &token, large.clone()).unwrap_err(), too_large);
    assert_eq!(e.respond_inner(&id, &Some(large), 9 * SECOND), Err(too_large));
    assert!(e.respond(&c, &token, small.clone()).is_ok());
    let late = e.respond_inner(&id, &Some(small.clone()), 9 * SECOND);
    assert_eq!(late, Err(Error::RespondAfterDeadline));
    assert_eq!(e.respond_inner(&id, &Some(small), SECOND), Ok(1009));
    assert!(e.received_queries.contains_key(&id));
}

#[test]
fn a_leave_is_broadcast_ahead_of_everything_else() {
    let mut e = machine();
    let farewell = e.leave(&coordinator(), ORIGIN).unwrap().unwrap();
    let all = actions(&mut e);
    assert_eq!(all.len(), 1);
    match &all[0] {
        Action::Broadcast { rank: INTENT_RANK, frame: Frame::Message(AnyMessage::Leave(m)) } => {
            assert_eq!((m.ltime, m.id, m.prune), (farewell.ltime, 1, false));
        }
        _ => panic!("expected the leave intent"),
    }
}

#[test]
fn a_status_time_that_changes_is_news() {
    let mut e = with_members(&[2]);
    let node = Node::new(3, 1003);
    let unknown = Member::new(node, no_tags(), MemberStatus::Unknown);
    let ms = MemberState { member: unknown, status_time: lt(5), leave_time: None };
    e.members.states.insert(3, ms);
    e.local_state_dirty = false;
    assert!(!e.handle_node_leave_intent(&1, lt(8), &3, false, ORIGIN));
    assert_eq!(status(&e, 3), Some(MemberStatus::Unknown));
    assert_eq!(e.members.states.get(&3).map(|ms| ms.status_time), Some(lt(8)));
    assert!(e.local_state_dirty);
}

#[test]
fn the_given_random_numbers_are_drawn_from() {
    let number = |seed: u64, refused: bool| {
        let mut e = Core::new_with_rng(Options::new(), SmallRng::seed_from_u64(seed));
        let c = coordinator();
        if refused {
            let bad = TagFilter { tag: "t".to_string(), expr: Some("(".to_string()) };
            let params = QueryParams { filters: vec![Filter::Tag(bad)], ..QueryParams::new() };
            assert!(e.query(&c, "q".to_string(), Bytes::new(), params).is_err());
        }
        e.query(&c, "q".to_string(), Bytes::new(), QueryParams::new()).unwrap().id
    };
    assert_eq!(number(7, false), number(7, false));
    assert_ne!(number(7, false), number(8, false));
    assert_eq!(number(7, true), number(7, false));
}

#[test]
fn two_machines_that_know_the_same_tell_the_same() {
    let told = |seed: u64, order: [u32; 2]| {
        let mut e = Core::new_with_rng(Options::new(), SmallRng::seed_from_u64(seed));
        for id in order {
            e.handle_node_join(Node::new(id, 1000 + id), no_tags());
        }
        e.handle_user_event(user_event(3, "deploy"));
        let pp = e.stale_local_state().unwrap();
        (pp.ltime, pp.event_ltime, pp.status_ltimes, pp.left_members, pp.events.len())
    };
    assert_eq!(told(1, [2, 3]), told(2, [3, 2]));
}

// Coalescing.

#[test]
fn the_latest_change_of_a_member_counts() {
    let mut c: MemberEventCoalescer<u32, u32> = MemberEventCoalescer::new(10 * SECOND, 2 * SECOND);
    let mut lost: u64 = 0;
    let member = |id: u32| Member::new(Node::new(id, 1000 + id), no_tags(), MemberStatus::Alive);
    c.feed(MemberEventKind::Join, member(2), 0, &mut lost);
    c.feed(MemberEventKind::Join, member(3), 0, &mut lost);
    c.feed(MemberEventKind::Failed, member(2), SECOND, &mut lost);
    assert_eq!(c.window.flush_deadline(), Some(3 * SECOND));
    let mut out: VecDeque<Event<u32, u32>> = VecDeque::new();
    c.flush(&mut out);
    let mut seen: Vec<(MemberEventKind, u32)> = Vec::new();
    for ev in &out {
        if let Event::Member(me) = ev {
            for m in me.members() {
                seen.push((me.kind(), m.node.id));
            }
        }
    }
    seen.sort_by_key(|s| s.1);
    assert_eq!(seen, vec![(MemberEventKind::Failed, 2), (MemberEventKind::Join, 3)]);
    assert_eq!(c.window.flush_deadline(), None);
    assert_eq!(lost, 0);
}

#[test]
fn the_changes_held_back_are_bounded() {
    let mut c: MemberEventCoalescer<u32, u32> = MemberEventCoalescer::new(10 * SECOND, 2 * SECOND);
    let mut lost: u64 = 0;
    for id in 0..MAX_COALESCED_MEMBERS as u32 + 5 {
        let m = Member::new(Node::new(id, id), no_tags(), MemberStatus::Alive);
        c.feed(MemberEventKind::Join, m, 0, &mut lost);
    }
    assert_eq!(c.changes.len(), MAX_COALESCED_MEMBERS);
    assert_eq!(lost, 5);
}

#[test]
fn what_is_lost_is_counted() {
    let opts = Options {
        coalesce_period: 10 * SECOND,
        quiescent_period: 2 * SECOND,
        user_coalesce_period: 10 * SECOND,
        user_quiescent_period: 2 * SECOND,
        max_coalesced_user_events: 2,
        ..Options::new()
    };
    let mut e = Core::new(opts);
    for id in 0..MAX_COALESCED_MEMBERS as u32 + 3 {
        e.handle_node_join(Node::new(id, id), no_tags());
    }
    assert_eq!(e.coalesced_member_events_dropped(), 3);
    for (i, name) in ["a", "b", "c", "d"].iter().enumerate() {
        e.handle_user_event(UserEventMessage { cc: true, ..user_event(i as u64 + 1, name) });
    }
    assert_eq!(e.coalesced_user_events_dropped(), 2);
    assert_eq!(e.pending_events_len(), 0);
}

#[test]
fn reports_wait_to_be_taken() {
    let mut e = machine();
    assert_eq!(e.pending_events_len(), 0);
    e.handle_node_join(Node::new(2, 1002), no_tags());
    e.handle_user_event(user_event(1, "deploy"));
    assert_eq!(e.pending_events_len(), 2);
    assert!(e.poll_event().is_some_and(|ev| ev.is_member()));
    assert_eq!(e.pending_events_len(), 1);
    assert!(e.poll_event().is_some_and(|ev| ev.is_user()));
    assert_eq!(e.pending_events_len(), 0);
}

#[test]
fn the_latest_generation_of_an_event_counts() {
    let mut c = UserEventCoalescer::new(10 * SECOND, 2 * SECOND, 2);
    let mut lost: u64 = 0;
    let cc = |ltime: u64, name: &str| UserEventMessage { cc: true, ..user_event(ltime, name) };
    c.feed(cc(5, "a"), 0, &mut lost);
    c.feed(cc(4, "a"), 0, &mut lost);
    c.feed(cc(6, "b"), 0, &mut lost);
    c.feed(cc(7, "a"), 0, &mut lost);
    let mut out: VecDeque<Event<u32, u32>> = VecDeque::new();
    c.flush(&mut out);
    let mut seen: Vec<(String, u64)> = Vec::new();
    for ev in out {
        if let Event::User(u) = ev {
            seen.push((u.name, u.ltime.0));
        }
    }
    seen.sort();
    assert_eq!(seen, vec![("a".to_string(), 7), ("b".to_string(), 6)]);
}

// Queries.

#[test]
fn a_tie_loses_the_vote() {
    for (agree, disagree, lost) in [(2, 2, true), (3, 2, false), (1, 0, false), (0, 1, true)] {
        let mut e = with_members(&[2, 3, 4, 5, 6]);
        let id = pending(&mut e, QueryPurpose::Conflict, SECOND);
        let mut from: u32 = 2;
        for _ in 0..agree {
            let vote = response(id, from, Bytes::from_static(b"abc"));
            e.handle_query_response(&coordinator(), vote, conflict_vote(1000));
            from += 1;
        }
        for _ in 0..disagree {
            let vote = response(id, from, Bytes::from_static(b"abc"));
            e.handle_query_response(&coordinator(), vote, conflict_vote(1001));
            from += 1;
        }
        e.fire_due_query_closes(SECOND);
        assert_eq!(e.state().is_shutdown(), lost, "{agree} to {disagree}");
        assert_eq!(matches!(e.poll_event(), Some(Event::Shutdown)), lost);
    }
}

#[test]
fn a_vote_of_one_member_counts_once() {
    let mut e = with_members(&[2, 3]);
    let id = pending(&mut e, QueryPurpose::Conflict, SECOND);
    for _ in 0..5 {
        let vote = response(id, 2, Bytes::from_static(b"abc"));
        e.handle_query_response(&coordinator(), vote, conflict_vote(1001));
    }
    let vote = response(id, 3, Bytes::from_static(b"abc"));
    e.handle_query_response(&coordinator(), vote, conflict_vote(1000));
    assert_eq!(e.pending_queries[0].responses, vec![2, 3]);
    assert_eq!(e.pending_queries[0].conflict_matching, 1);
}

#[test]
fn answers_about_keys_are_tallied() {
    let key = SecretKey::Aes128(5);
    let other = SecretKey::Aes256(1, 2);
    let mut e = with_members(&[2, 3]);
    let id = pending(&mut e, QueryPurpose::Key, SECOND);
    let answer = |result: bool, keys: Vec<SecretKey>, primary_key: Option<SecretKey>| {
        let message = if result { String::new() } else { "no".to_string() };
        let msg = KeyResponseMessage { result, message, keys, primary_key };
        Some((AnyMessage::KeyResponse(msg), 3))
    };
    let payload = Bytes::from_static(b"abc");
    let first = response(id, 2, payload.clone());
    e.handle_query_response(&coordinator(), first, answer(true, vec![key, other], Some(key)));
    let second = response(id, 3, payload);
    e.handle_query_response(&coordinator(), second, answer(false, vec![key], None));
    e.fire_due_query_closes(SECOND);
    match e.poll_event() {
        Some(Event::KeyResponse(kr)) => {
            assert_eq!((kr.num_nodes, kr.num_resp, kr.num_err), (3, 2, 1));
            assert_eq!(kr.keys.get(&key), Some(&2));
            assert_eq!(kr.keys.get(&other), Some(&1));
            assert_eq!(kr.primary_keys.get(&key), Some(&1));
            assert_eq!(kr.messages.get(&3).map(|s| s.as_str()), Some("no"));
            assert_eq!(kr.messages.get(&2), None);
        }
        _ => panic!("expected a key response"),
    }
}

#[test]
fn a_query_that_cannot_be_sent_is_not_pending() {
    let mut e = machine();
    let c = coordinator();
    let msg = e.query(&c, "ping".to_string(), Bytes::new(), QueryParams::new()).unwrap();
    let frame = Bytes::from(vec![0u8; 1025]);
    let r = e.issue_query(&c, msg, QueryPurpose::App, Some(frame), None, None, ORIGIN);
    assert_eq!(r, Err(Error::QueryTooLarge(1025, 1024)));
    let msg = e.query(&c, "ping".to_string(), Bytes::new(), QueryParams::new()).unwrap();
    let r = e.issue_query(&c, msg, QueryPurpose::App, None, None, None, ORIGIN);
    assert_eq!(r, Err(Error::UserEventEncode));
    assert!(e.pending_queries.is_empty());
    assert!(e.poll_event().is_none());
}

#[test]
fn a_query_is_asked_with_its_parameters() {
    let mut e = with_members(&[2]);
    let c = coordinator();
    e.query_clock = 6;
    let params = QueryParams {
        filters: vec![Filter::Id(vec![1, 2])],
        relay_factor: 3,
        request_ack: true,
        timeout: 7 * SECOND,
    };
    let msg = e.query(&c, "ping".to_string(), Bytes::from_static(b"p"), params).unwrap();
    assert_eq!(msg.ltime, lt(6));
    assert_eq!(msg.from.id, 1);
    assert_eq!(msg.from.addr, 1000);
    assert_eq!(msg.flags, QueryFlag::ack_only());
    assert_eq!(msg.relay_factor, 3);
    assert_eq!(msg.timeout, 7 * SECOND);
    assert_eq!(msg.name, "ping");
    assert_eq!(msg.payload.as_ref(), b"p");
    let frame = Bytes::from_static(b"frame");
    let ack = Some(Bytes::from_static(b"ack"));
    let id = e
        .issue_query(&c, msg, QueryPurpose::App, Some(frame), None, ack, SECOND)
        .unwrap();
    assert_eq!(e.pending_queries[0].query_id, id);
    assert_eq!(e.pending_queries[0].deadline, 8 * SECOND);
    assert!(e.pending_queries[0].request_ack);
    let all = actions(&mut e);
    assert!(all.iter().any(|a| matches!(a, Action::Broadcast { rank: QUERY_RANK, .. })));
}

#[test]
fn a_response_and_an_acknowledgement_find_their_query() {
    let mut asker = with_members(&[2]);
    let c = coordinator();
    let params = QueryParams { request_ack: true, ..QueryParams::new() };
    let asked = asker.query(&c, "load".to_string(), Bytes::from_static(b"?"), params).unwrap();
    let heard = QueryMessage {
        ltime: asked.ltime,
        id: asked.id,
        from: Node::new(1, 1000),
        filters: Vec::new(),
        flags: QueryFlag::ack_only(),
        relay_factor: 0,
        timeout: asked.timeout,
        name: "load".to_string(),
        payload: Bytes::from_static(b"?"),
    };
    let number = asked.id;
    let frame = Some(Bytes::from_static(b"frame"));
    asker.issue_query(&c, asked, QueryPurpose::App, frame, None, None, 0).unwrap();
    while asker.poll_event().is_some() {}

    let mut peer = Core::new(Options::new());
    let there = Coordinator { local: Node::new(2, 1002), queue_len: 0 };
    let ack = Core::acknowledgement(&there, &heard);
    let ack_frame = Some(Bytes::from_static(b"ack"));
    assert!(peer.handle_query(&there, heard, QueryOrigin::Inbound, None, ack_frame));
    let sent = actions(&mut peer);
    assert!(matches!(&sent[0], Action::Send { to: 1000, frame: Frame::Ready(f) } if f == "ack"));
    let token = match peer.poll_event() {
        Some(Event::Query(token)) => token,
        _ => panic!("expected the query"),
    };
    assert_eq!(token.name(), "load");
    assert_eq!(token.payload().as_ref(), b"?");
    let answer = peer.respond(&there, &token, Bytes::from_static(b"3")).unwrap();

    asker.handle_query_response(&c, ack, None);
    match asker.poll_event() {
        Some(Event::QueryAck(a)) => assert_eq!((a.id(), a.from().id), (number, 2)),
        _ => panic!("expected the acknowledgement"),
    }
    asker.handle_query_response(&c, answer, None);
    match asker.poll_event() {
        Some(Event::QueryResponse(r)) => {
            assert_eq!((r.id(), r.from().id), (number, 2));
            assert_eq!(r.payload().as_ref(), b"3");
        }
        _ => panic!("expected the response"),
    }
    assert!(asker.poll_event().is_none());
}

#[test]
fn queries_without_a_timeout_get_the_default() {
    let mut e = machine();
    let c = coordinator();
    let msg = e.query(&c, "ping".to_string(), Bytes::new(), QueryParams::new()).unwrap();
    assert_eq!(msg.timeout, 16 * SECOND / 5);
}

#[test]
fn the_same_seed_draws_the_same_numbers() {
    let c = coordinator();
    let mut ids: Vec<u32> = Vec::new();
    for seed in [3u64, 3, 4] {
        let mut e = Core::new_with_rng(Options::new(), SmallRng::seed_from_u64(seed));
        let msg = e.query(&c, "q".to_string(), Bytes::new(), QueryParams::new()).unwrap();
        ids.push(msg.id);
    }
    assert_eq!(ids[0], ids[1]);
    assert_ne!(ids[0], ids[2]);
}

#[test]
fn a_response_that_cannot_be_encoded_may_be_given_again() {
    let mut e = machine();
    let id = QueryId { ltime: lt(1), id: 5 };
    e.received_queries.insert(id, ReceivedQuery { from: 1009, deadline: 9 * SECOND });
    assert_eq!(e.respond_inner(&id, &None, SECOND), Err(Error::RespondEncode));
    let frame = Bytes::from_static(b"frame");
    assert_eq!(e.respond_inner(&id, &Some(frame.clone()), SECOND), Ok(1009));
    let querier = Node::new(9, 1009);
    assert_eq!(
        e.response_sent(&coordinator(), &id, &querier, 0, &frame, false),
        Err(Error::RespondSend)
    );
    assert_eq!(e.response_sent(&coordinator(), &id, &querier, 0, &frame, true), Ok(()));
    assert_eq!(
        e.respond_inner(&id, &Some(frame), SECOND),
        Err(Error::AlreadyResponded)
    );
}

#[test]
fn a_response_carries_the_query_and_this_node() {
    let mut e = machine();
    let id = QueryId { ltime: lt(4), id: 5 };
    e.received_queries.insert(id, ReceivedQuery { from: 1009, deadline: 9 * SECOND });
    let token = QueryEvent {
        id: 5,
        ltime: lt(4),
        from: Node::new(9, 1009),
        name: "q".to_string(),
        payload: Bytes::new(),
        relay_factor: 0,
        deadline: 9 * SECOND,
    };
    let msg = e.respond(&coordinator(), &token, Bytes::from_static(b"yes")).unwrap();
    assert_eq!((msg.ltime, msg.id, msg.from.id), (lt(4), 5, 1));
    assert_eq!(msg.flags, QueryFlag::empty());
    assert_eq!(msg.payload.as_ref(), b"yes");
    let req: KeyRequest<u32, u32> = KeyRequest::test_with_deadline(
        KeyRequestOperation::List,
        5,
        Node::new(9, 1009),
        None,
        9 * SECOND,
    );
    let args = KeyResponseArgs {
        result: false,
        message: "no".to_string(),
        keys: vec![SecretKey::Aes128(1)],
        primary_key: None,
    };
    let key_query = QueryId { ltime: req.ltime, id: req.id };
    e.received_queries.insert(key_query, ReceivedQuery { from: 1009, deadline: 9 * SECOND });
    let answer = args.into_message();
    assert!(!answer.result);
    assert_eq!(answer.message, "no");
    assert!(answer.keys == vec![SecretKey::Aes128(1)]);
    assert!(answer.primary_key.is_none());
    let payload = Bytes::from_static(b"a");
    let wrapped = e.respond_key(&coordinator(), &req, Some(payload)).unwrap();
    assert_eq!((wrapped.id, wrapped.from.id), (5, 1));
    assert_eq!(wrapped.payload.as_ref(), b"a");
    let unencoded = e.respond_key(&coordinator(), &req, None);
    assert_eq!(unencoded.unwrap_err(), Error::RespondEncode);
}

#[test]
fn a_conflict_about_this_node_is_put_to_the_vote() {
    let mut e = machine();
    let c = coordinator();
    let msg = e.on_inner_event(&c, InnerEvent::NodeConflict).unwrap();
    assert_eq!(msg.name, "_serf_conflict");
    assert_eq!(msg.payload.as_ref(), &1u32.encode_to_vec()[..]);
    let mut off = machine_with(Options { enable_id_conflict_resolution: false, ..Options::new() });
    assert!(off.on_inner_event(&c, InnerEvent::NodeConflict).is_none());
}

#[test]
fn a_question_about_another_node_is_answered() {
    let mut e = with_members(&[2]);
    let c = coordinator();
    let msg = query(3, 4, "_serf_conflict", Bytes::from(2u32.encode_to_vec()));
    assert!(e.handle_query(&c, msg, QueryOrigin::Inbound, None, None));
    assert!(e.poll_event().is_none());
    let all = actions(&mut e);
    match &all[..] {
        [Action::Send { to, frame: Frame::Answer { ltime, id, from, message } }] => {
            assert_eq!((*to, ltime.0, *id, from.id), (1009, 3, 4, 1));
            assert!(matches!(message, AnyMessage::ConflictResponse(m) if m.member.addr == 1002));
        }
        _ => panic!("expected an answer"),
    }
}

#[test]
fn the_queries_that_wait_are_bounded() {
    let mut e = machine();
    let c = coordinator();
    for i in 0..MAX_RECEIVED_QUERIES as u32 + 10 {
        let msg = query(i as u64 + 1, i, "q", Bytes::new());
        e.handle_query(&c, msg, QueryOrigin::Inbound, None, None);
    }
    assert_eq!(e.received_queries.len(), MAX_RECEIVED_QUERIES);
}

// Relays.

#[test]
fn a_query_is_taken_as_it_is_understood() {
    let c = coordinator();
    let taken = |e: &mut Core, id: u32, request: Request<u32>, accepted: bool, targeted: bool| {
        let mut msg = query(4, id, "q", Bytes::new());
        msg.flags = QueryFlag { ack: true, no_broadcast: false };
        msg.relay_factor = 1;
        let frame = Some(Bytes::from_static(b"ack"));
        let draws: Vec<usize> = vec![0];
        let from = QueryOrigin::Inbound;
        e.handle_query_given(&c, msg, from, request, accepted, targeted, frame, &draws)
    };
    let mut e = with_members(&[2]);
    assert!(!taken(&mut e, 1, Request::Malformed, true, true));
    assert!(!taken(&mut e, 1, Request::Plain, false, true));
    assert_eq!(e.query_time(), 0);
    assert_eq!(e.pending_events_len(), 0);

    assert!(taken(&mut e, 1, Request::Plain, true, false));
    assert_eq!(e.query_time(), 5);
    assert_eq!(e.pending_events_len(), 0);
    assert!(actions(&mut e).is_empty());

    assert!(taken(&mut e, 2, Request::Plain, true, true));
    assert!(!taken(&mut e, 2, Request::Plain, true, true));
    assert!(e.poll_event().is_some_and(|ev| ev.is_query()));
    assert!(e.poll_event().is_none());
    let acks = actions(&mut e);
    assert_eq!(acks.len(), 2);
    assert!(matches!(&acks[0], Action::Send { to: 1009, frame: Frame::Ready(f) } if f == "ack"));
    assert!(matches!(&acks[1], Action::Relay { to, .. } if *to == 1002));

    assert!(taken(&mut e, 3, Request::Key(KeyRequestOperation::List, None), true, true));
    assert!(e.poll_event().is_some_and(|ev| ev.is_key_request()));
}

#[test]
fn relays_go_to_distinct_members() {
    for seed in 0u64..20 {
        let mut e = Core::new_with_rng(Options::new(), SmallRng::seed_from_u64(seed));
        for id in 1u32..=6 {
            e.handle_node_join(Node::new(id, 1000 + id), no_tags());
        }
        let c = Coordinator { local: Node::new(1, 1001), queue_len: 0 };
        let frame = Bytes::from_static(b"frame");
        let draws = e.draw_relays(&c, &frame, 3);
        let querier = Node::new(9, 1009);
        e.relay_response(&c, &querier, &frame, 3, &draws);
        let mut to: Vec<u32> = Vec::new();
        for a in actions(&mut e) {
            match a {
                Action::Relay { to: peer, message } => {
                    assert_eq!(message.destination.id, 9);
                    assert_eq!(message.payload.as_ref(), b"frame");
                    to.push(peer);
                }
                _ => panic!("expected a relay"),
            }
        }
        assert_eq!(to.len(), 3);
        to.sort();
        to.dedup();
        assert_eq!(to.len(), 3, "no member is asked twice");
        assert!(!to.contains(&1001), "this node is not asked");
    }
}

#[test]
fn a_relay_that_fails_is_reported() {
    let mut e = machine();
    e.relay_failed(1009);
    match e.poll_event() {
        Some(Event::RelayDropped(r)) => assert_eq!(*r.destination(), 1009),
        _ => panic!("expected a dropped relay"),
    }
}

#[test]
fn a_frame_is_passed_on_as_it_is() {
    let mut e = machine();
    let relay = RelayMessage {
        destination: Node::new(9, 1009),
        payload: Bytes::from_static(b"frame"),
    };
    e.handle_relay(&coordinator(), relay);
    let all = actions(&mut e);
    assert!(matches!(
        &all[..],
        [Action::Forward { to: 1009, payload }] if payload.as_ref() == b"frame"
    ));
}

// Leaving, joining, state exchange.

#[test]
fn a_leave_that_is_under_way_is_not_put_off() {
    let mut e = machine();
    let c = coordinator();
    e.leave(&c, ORIGIN).unwrap();
    e.on_inner_event(&c, InnerEvent::LeftCluster);
    let first = e.leave_complete_deadline();
    assert_eq!(first, Some(SECOND));
    e.drain_after_ingress(SECOND / 2);
    e.on_inner_event(&c, InnerEvent::LeftCluster);
    assert_eq!(e.leave_complete_deadline(), first);
}

#[test]
fn a_leave_is_completed_once() {
    let mut e = machine();
    let c = coordinator();
    e.leave(&c, ORIGIN).unwrap();
    e.on_inner_event(&c, InnerEvent::LeftCluster);
    for now in [2 * SECOND, 3 * SECOND, 4 * SECOND] {
        e.begin_deadlines(now);
        e.end_deadlines(now);
    }
    assert_eq!(e.state(), SerfState::Left);
    let mut left: usize = 0;
    while let Some(ev) = e.poll_event() {
        if matches!(ev, Event::LeftCluster) {
            left += 1;
        }
    }
    assert_eq!(left, 1);
    assert_eq!(e.leave(&c, 5 * SECOND).map(|m| m.is_none()), Ok(true));
}

#[test]
fn a_join_is_announced_only_while_alive() {
    let mut e = machine();
    let c = coordinator();
    e.clock = 7;
    e.join(&c).unwrap();
    let all = actions(&mut e);
    assert!(matches!(
        &all[..],
        [Action::Broadcast { frame: Frame::Message(AnyMessage::Join(j)), .. }]
            if j.ltime == lt(7) && j.id == 1
    ));
    e.leave(&c, ORIGIN).unwrap();
    assert_eq!(e.join(&c), Err(Error::BadJoinState(SerfState::Leaving)));
}

#[test]
fn tags_that_are_too_large_are_refused() {
    let mut e = machine();
    assert_eq!(e.set_tags(513, 512, ORIGIN), Err(Error::SetTagsMeta(513, 512)));
    assert_eq!(e.set_tags(512, 512, ORIGIN), Ok(()));
}

#[test]
fn a_restart_recovers_the_clocks_and_replays_nothing() {
    let mut e = machine();
    let replay = ReplayResult {
        alive_nodes: vec![Node::new(1, 1000), Node::new(2, 1002), Node::new(3, 1003)],
        last_clock: lt(10),
        last_event_clock: lt(20),
        last_query_clock: lt(30),
    };
    e.load_snapshot(&coordinator(), replay).unwrap();
    assert_eq!((e.member_time(), e.event_time(), e.query_time()), (11, 21, 31));
    let peers: Vec<u32> = actions(&mut e)
        .iter()
        .map(|a| match a {
            Action::PushPull { peer } => *peer,
            _ => panic!("expected an exchange"),
        })
        .collect();
    assert_eq!(peers, vec![1002, 1003]);
    assert!(!e.handle_user_event(user_event(20, "old")));
    assert!(e.handle_user_event(user_event(21, "new")));
    let c = coordinator();
    assert!(!e.handle_query(&c, query(30, 1, "q", Bytes::new()), QueryOrigin::Inbound, None, None));
    assert!(e.handle_query(&c, query(31, 1, "q", Bytes::new()), QueryOrigin::Inbound, None, None));
}

#[test]
fn a_member_that_left_is_not_joined_again_by_an_exchange() {
    let mut e = with_members(&[2, 3]);
    let pp = PushPullMessage {
        status_ltimes: vec![(2, lt(4)), (3, lt(6))],
        left_members: vec![2],
        ..peer_state(5, 0, 0)
    };
    e.merge_push_pull(&coordinator(), &pp, false);
    assert_eq!(status(&e, 2), Some(MemberStatus::Leaving));
    assert_eq!(e.members.states.get(&2).map(|ms| ms.status_time), Some(lt(5)));
    assert_eq!(e.members.states.get(&3).map(|ms| ms.status_time), Some(lt(6)));
}

#[test]
fn an_exchange_is_ignored_once() {
    let mut e = machine();
    e.note_ignore_join_stream(4);
    e.note_ignore_join_stream(4);
    assert!(e.consume_ignore_join_stream(4));
    assert!(!e.consume_ignore_join_stream(4));
    e.note_ignore_join_stream(5);
    e.clear_ignore_join_stream(5);
    assert!(!e.consume_ignore_join_stream(5));
}

#[test]
fn events_before_an_ignored_join_stay_out() {
    let mut e = machine();
    e.note_ignore_join_stream(4);
    let pp = PushPullMessage {
        events: vec![UserEvents {
            ltime: lt(6),
            events: vec![UserEvent { name: "old".to_string(), payload: Bytes::new() }],
        }],
        ..peer_state(0, 7, 0)
    };
    let ev = InnerEvent::RemoteStateReceived {
        stream: 4,
        is_join: true,
        decoded: Some((AnyMessage::PushPull(pp), 9)),
        len: 9,
    };
    e.on_inner_event(&coordinator(), ev);
    assert_eq!(e.event_buffer.min_time, 7);
    assert!(e.poll_event().is_none());
}

#[test]
fn what_peers_are_told_is_what_the_machine_knows() {
    let mut e = with_members(&[300, 2]);
    e.handle_user_event(user_event(4, "ev"));
    e.handle_node_leave_intent(&1, lt(9), &2, false, ORIGIN);
    e.handle_node_leave(&2, ORIGIN);
    let pp = e.stale_local_state().unwrap();
    assert_eq!(pp.ltime.0, e.member_time());
    assert_eq!(pp.event_ltime.0, e.event_time());
    assert_eq!(pp.query_ltime.0, e.query_time());
    let known: Vec<(u32, u64)> = pp.status_ltimes.iter().map(|(id, t)| (*id, t.0)).collect();
    assert_eq!(known, vec![(1, 0), (2, 9), (300, 0)]);
    assert_eq!(pp.left_members, vec![2]);
    assert_eq!(pp.events.len(), 1);
    assert_eq!(pp.events[0].events[0].name, "ev");
    e.local_state_accepted(true);
    assert!(e.stale_local_state().is_none());
}

// The membership layer, and ticks.

#[test]
fn a_packet_with_bytes_left_over_changes_nothing() {
    let mut e = machine();
    let packet = |n: usize| Packet {
        header: Some(MessageType::UserEvent),
        decoded: Some((AnyMessage::UserEvent(user_event(5, "x")), n)),
        nested: None,
        ack_frame: None,
        data: Bytes::from_static(b"0123456789"),
    };
    e.handle_user_packet(&coordinator(), packet(9), ORIGIN);
    assert!(e.poll_event().is_none());
    assert_eq!(e.event_time(), 0);
    e.handle_user_packet(&coordinator(), packet(10), ORIGIN);
    assert!(matches!(e.poll_event(), Some(Event::User(_))));
    assert_eq!(e.event_time(), 6);
}

#[test]
fn a_full_queue_takes_no_more_rebroadcasts() {
    let mut e = machine();
    let packet = |ltime: u64| Packet {
        header: Some(MessageType::UserEvent),
        decoded: Some((AnyMessage::UserEvent(user_event(ltime, "x")), 4)),
        nested: None,
        ack_frame: None,
        data: Bytes::from_static(b"0123"),
    };
    let full = Coordinator { queue_len: e.queue_max(), ..coordinator() };
    e.handle_user_packet(&full, packet(5), ORIGIN);
    assert!(actions(&mut e).is_empty());
    let room = Coordinator { queue_len: e.queue_max() - 1, ..coordinator() };
    e.handle_user_packet(&room, packet(6), ORIGIN);
    assert_eq!(actions(&mut e).len(), 1);
}

#[test]
fn the_depth_of_the_queue_grows_with_the_cluster() {
    let mut opts = Options { min_queue_depth: 8, ..Options::new() };
    let e = machine_with(opts);
    assert_eq!(e.queue_max(), 8);
    opts.min_queue_depth = 0;
    assert_eq!(machine_with(opts).queue_max(), 4096);
    let mut larger = machine_with(Options { min_queue_depth: 8, ..Options::new() });
    for id in 2u32..=10 {
        larger.handle_node_join(Node::new(id, 1000 + id), no_tags());
    }
    assert_eq!(larger.queue_max(), 20);
}

#[test]
fn dials_and_ends_of_exchanges_are_passed_through() {
    let mut e = machine();
    let c = coordinator();
    e.on_inner_event(&c, InnerEvent::DialRequested { stream: 3, peer: 1002 });
    match e.poll_event() {
        Some(Event::DialRequested(d)) => assert_eq!((d.id(), *d.peer()), (3, 1002)),
        _ => panic!("expected a dial"),
    }
}

#[test]
fn a_tick_leaves_nothing_due() {
    let mut e = with_members(&[2, 3]);
    e.handle_node_leave(&2, ORIGIN);
    pending(&mut e, QueryPurpose::App, 5 * SECOND);
    let c = coordinator();
    e.leave(&c, ORIGIN).unwrap();
    for now in [SECOND, 15 * SECOND, 31 * SECOND, 90_000 * SECOND] {
        let odds = e.begin_deadlines(now);
        e.fire_reconnect(now, odds.is_some());
        e.end_deadlines(now);
        assert!(e.serf_poll_timeout().is_some_and(|t| t > now));
    }
}

#[test]
fn a_redial_goes_to_a_failed_member() {
    let mut e = with_members(&[2, 3]);
    e.handle_node_leave(&3, ORIGIN);
    let now: Instant = 31 * SECOND;
    let odds = e.begin_deadlines(now).unwrap();
    assert_eq!((odds.num_failed, odds.num_alive), (1, 2));
    assert!(odds.draw < 1 << 24);
    e.fire_reconnect(now, true);
    e.end_deadlines(now);
    let dialled: Vec<u32> = actions(&mut e)
        .iter()
        .filter_map(|a| match a {
            Action::PushPull { peer } => Some(*peer),
            _ => None,
        })
        .collect();
    assert_eq!(dialled, vec![1003]);
}

#[test]
fn a_shut_down_machine_does_nothing() {
    let mut e = with_members(&[2]);
    e.state = SerfState::Shutdown;
    let c = coordinator();
    assert!(e.on_inner_event(&c, InnerEvent::NodeConflict).is_none());
    e.on_inner_event(&c, InnerEvent::NodeLeft { id: 2 });
    assert_eq!(status(&e, 2), Some(MemberStatus::Alive));
    assert!(e.begin_deadlines(90_000 * SECOND).is_none());
    e.fire_reconnect(90_000 * SECOND, true);
    e.end_deadlines(90_000 * SECOND);
    assert!(e.serf_poll_timeout().is_none());
    assert!(e.before_inner_timeout(SECOND).is_none());
    assert!(e.poll_event().is_none());
    assert!(e.poll_action().is_none());
    assert_eq!(
        e.key_query(&c, KeyRequestOperation::List, Some(Bytes::new())).unwrap_err(),
        Error::Shutdown
    );
}

#[test]
fn members_that_state_alone_makes_are_kept_as_they_are() {
    let mut e = machine();
    let member = Member::new(Node::new(4, 1004), no_tags(), MemberStatus::Unknown);
    let ms = MemberState { member, status_time: lt(2), leave_time: None };
    e.members.states.insert(4, ms);
    assert!(!e.handle_node_leave_intent(&1, lt(3), &4, false, ORIGIN));
    assert_eq!(status(&e, 4), Some(MemberStatus::Unknown));
    assert_eq!(e.members.states.get(&4).map(|ms| ms.status_time), Some(lt(3)));
}
