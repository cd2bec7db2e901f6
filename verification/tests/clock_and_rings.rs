//! The Lamport clocks, and the rings that remember what was seen.

use serf_proto::buffers::{QueryBuffer, MAX_QUERY_IDS_PER_LTIME};
use serf_proto::clock::{next_ltime, witness, LTIME_MAX};

#[test]
fn witness_advances_to_at_least() {
    let mut c = 0u64;
    witness(&mut c, 5);
    assert_eq!(c, 6); // advance past the witnessed time
    witness(&mut c, 3);
    assert_eq!(c, 6); // older time does not regress
    witness(&mut c, 6);
    assert_eq!(c, 7); // equal triggers advance
}

#[test]
fn witness_max_u64_is_noop() {
    // Witnessing u64::MAX must not panic and must not wrap the clock to 0.
    let mut c = 5u64;
    witness(&mut c, u64::MAX);
    assert_eq!(
        c, 5,
        "witness(u64::MAX) must be a no-op (impossible Lamport time)"
    );
}

#[test]
fn witness_max_u64_minus_one_is_rejected() {
    // u64::MAX - 1 is now an unacceptable Lamport time (the two-value safety
    // buffer: witnessing it would advance the clock to u64::MAX, a permanent
    // tombstone).  `ltime_is_acceptable` rejects it; `witness` is a no-op.
    let mut c = 0u64;
    witness(&mut c, u64::MAX - 1);
    assert_eq!(
        c, 0,
        "witness(MAX-1) must be a no-op — unacceptable Lamport time"
    );
}

#[test]
fn poisoned_clock_integrity_floor() {
    // Simulate a hypothetically-poisoned clock set to LTIME_MAX.
    let mut clock = LTIME_MAX;
    let stamped = next_ltime(&mut clock);
    // Stamped is LTIME_MAX (the poisoned value — peers will reject it via
    // ltime_is_acceptable, which is the correct degraded behaviour).
    // The integrity floor: no wrap to 0, no tombstone at u64::MAX.
    assert_ne!(stamped, 0, "stamped must not wrap to 0; got {stamped}");
    assert_ne!(
        stamped,
        u64::MAX,
        "stamped must not be u64::MAX tombstone; got {stamped}"
    );
    // Stored clock must not wrap to 0 (no UB).
    assert_ne!(clock, 0, "stored clock must not wrap to 0; got {clock}");
    assert_ne!(
        clock,
        u64::MAX,
        "stored clock must not be u64::MAX tombstone; got {clock}"
    );
}

#[test]
fn witness_near_watermark_integrity_floor() {
    let mut clock = 0u64;
    // Largest acceptable ingress: LTIME_MAX - 1.
    witness(&mut clock, LTIME_MAX - 1);
    // The stored clock advances to LTIME_MAX (saturating_add(1) of LTIME_MAX - 1).
    assert_eq!(
        clock, LTIME_MAX,
        "stored clock after witnessing LTIME_MAX-1 must be LTIME_MAX; got {clock}"
    );
    // Integrity floor: no wrap to 0, no tombstone at u64::MAX.
    assert_ne!(clock, 0, "stored clock must not wrap to 0; got {clock}");
    assert_ne!(
        clock,
        u64::MAX,
        "stored clock must not be u64::MAX tombstone; got {clock}"
    );
}

#[test]
fn query_buffer_slot_capped_at_max_query_ids_per_ltime() {
    // Inserting more than MAX_QUERY_IDS_PER_LTIME unique ids at the same ltime
    // must not grow the slot beyond the cap; excess ids are treated as seen
    // (return false) and the slot length stays at MAX_QUERY_IDS_PER_LTIME.
    let mut buf = QueryBuffer::new(64);
    let ltime = 1u64;
    // Fill up to the cap.
    for id in 0..MAX_QUERY_IDS_PER_LTIME as u32 {
        let accepted = buf.witness_query(ltime + 1, ltime, id);
        assert!(
            accepted,
            "id {id} at ltime {ltime} must be accepted before cap"
        );
    }
    // One more unique id past the cap: must be rejected.
    let overflow_id = MAX_QUERY_IDS_PER_LTIME as u32;
    let rejected = buf.witness_query(ltime + 1, ltime, overflow_id);
    assert!(
        !rejected,
        "id past the per-slot cap must be rejected (treated as already-seen)"
    );
    // Slot length must not exceed the cap.
    let slot_len = match buf.buffer[(ltime % 64) as usize].as_ref() {
        Some(q) if q.ltime.0 == ltime => q.query_ids.len(),
        _ => panic!("expected a slot for ltime {ltime}"),
    };
    assert_eq!(
        slot_len, MAX_QUERY_IDS_PER_LTIME,
        "slot must not grow past MAX_QUERY_IDS_PER_LTIME"
    );
}
