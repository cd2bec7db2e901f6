//! Reports and their parts.

use serf_proto::event::{Event, MemberEventKind};
use serf_proto::id::SocketAddress;

#[test]
fn member_event_kind_as_str_round_trips() {
    assert_eq!(MemberEventKind::Join.as_str(), "join");
    assert_eq!(MemberEventKind::Leave.as_str(), "leave");
    assert_eq!(MemberEventKind::Failed.as_str(), "failed");
    assert_eq!(MemberEventKind::Update.as_str(), "update");
    assert_eq!(MemberEventKind::Reap.as_str(), "reap");
}

#[test]
fn member_event_kind_display_matches_as_str() {
    for kind in [
        MemberEventKind::Join,
        MemberEventKind::Leave,
        MemberEventKind::Failed,
        MemberEventKind::Update,
        MemberEventKind::Reap,
    ] {
        assert_eq!(kind.display(), kind.as_str());
    }
}

#[test]
fn event_is_variant_helpers() {
    let ev: Event<u32, SocketAddress> = Event::Shutdown;
    assert!(ev.is_shutdown());
    let ev: Event<u32, SocketAddress> = Event::LeftCluster;
    assert!(ev.is_left_cluster());
}

#[test]
fn a_kind_of_change_is_told_from_the_others() {
    let kinds = [
        MemberEventKind::Join,
        MemberEventKind::Leave,
        MemberEventKind::Failed,
        MemberEventKind::Update,
        MemberEventKind::Reap,
    ];
    for (i, kind) in kinds.iter().enumerate() {
        let told =
            [kind.is_join(), kind.is_leave(), kind.is_failed(), kind.is_update(), kind.is_reap()];
        for (j, is) in told.iter().enumerate() {
            assert_eq!(*is, i == j);
        }
    }
}
