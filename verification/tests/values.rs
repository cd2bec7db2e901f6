//! Ids, maps, filters and what is computed from numbers alone.

use bytes::Bytes;
use serf_proto::endpoint::ingress::{coord_ack_payload, PING_VERSION};
use serf_proto::endpoint::queries::default_query_timeout;
use serf_proto::filter::{
    DecodeFault, EncodeFault, Filter, FilterRef, FilterType, IdDecoder, TagFilter,
};
use serf_proto::id::{Id, ReadFault};
use serf_proto::octets::{bytes_eq, bytes_len, slices_eq, str_eq, string_len};
use serf_proto::options::{Options, MIN_INTERVAL};
use serf_proto::pattern::filters_compile;
use serf_proto::time::{
    add_duration, duration_since, max_instant, min_deadline, Instant, MILLISECOND, ORIGIN, SECOND,
};
use serf_proto::typed::Tags;
use serf_proto::vecmap::{SortedMap, VecMap};

#[test]
fn ids_are_written_in_seven_bits_a_byte() {
    assert_eq!(0u32.encode_to_vec(), vec![0]);
    assert_eq!(127u32.encode_to_vec(), vec![127]);
    assert_eq!(300u32.encode_to_vec(), vec![0xac, 0x02]);
    assert_eq!(u32::MAX.encode_to_vec(), vec![0xff, 0xff, 0xff, 0xff, 0x0f]);
}

#[test]
fn ids_are_read_off_the_head() {
    assert_eq!(<u32 as Id>::decode(&[0xac, 0x02, 9, 9]), Ok((2, 300)));
    assert_eq!(<u32 as Id>::decode(&[]), Err(ReadFault::Underflow));
    assert_eq!(<u32 as Id>::decode(&[0x80, 0x80]), Err(ReadFault::Underflow));
    assert_eq!(
        <u32 as Id>::decode(&[0xff, 0xff, 0xff, 0xff, 0x0f]),
        Ok((5, u32::MAX))
    );
    assert_eq!(
        <u32 as Id>::decode(&[0xff, 0xff, 0xff, 0xff, 0x10]),
        Err(ReadFault::Overflow)
    );
    assert_eq!(
        <u32 as Id>::decode(&[0xff, 0xff, 0xff, 0xff, 0xff, 0x01]),
        Err(ReadFault::Overflow)
    );
}

#[test]
fn octets_are_compared_and_counted() {
    let b = Bytes::from_static(b"abc");
    assert_eq!(bytes_len(&b), 3);
    assert!(bytes_eq(&b, &Bytes::from(vec![b'a', b'b', b'c'])));
    assert!(!bytes_eq(&b, &Bytes::from_static(b"abd")));
    assert!(!bytes_eq(&b, &Bytes::from_static(b"ab")));
    assert!(slices_eq(&[], &[]));
    assert!(!slices_eq(&[1], &[]));
    assert!(str_eq("role", "role"));
    assert!(!str_eq("role", "roles"));
    assert_eq!(string_len(&"h\u{e9}".to_string()), 3);
}

#[test]
fn a_coordinate_goes_behind_a_version_byte() {
    let payload = coord_ack_payload(&vec![7u8, 8, 9]);
    assert_eq!(payload.as_ref(), &[PING_VERSION, 7, 8, 9]);
    assert_eq!(coord_ack_payload(&Vec::new()).as_ref(), &[1u8]);
}

#[test]
fn a_map_keeps_one_value_a_key() {
    let mut map: VecMap<u32, u64> = VecMap::new();
    assert_eq!(map.len(), 0);
    map.insert(5, 50);
    map.insert(3, 30);
    map.insert(5, 51);
    assert_eq!(map.len(), 2);
    assert_eq!(map.get(&5), Some(&51));
    assert_eq!(map.get(&4), None);
    assert!(map.contains_key(&3));
    assert_eq!(map.remove(&5), Some(51));
    assert_eq!(map.remove(&5), None);
    assert_eq!(map.len(), 1);
}

#[test]
fn a_sorted_map_goes_by_the_wire_form() {
    let mut map: SortedMap<u32, u64> = SortedMap::new();
    for id in [300u32, 2, 128, 127, 1] {
        map.insert(id, id as u64);
    }
    let keys: Vec<u32> = (0..map.len()).map(|i| *map.entry_at(i).0).collect();
    assert_eq!(keys, vec![1, 2, 127, 128, 300]);
    let mut other: SortedMap<u32, u64> = SortedMap::new();
    for id in [1u32, 127, 128, 2, 300] {
        other.insert(id, 0);
    }
    let same: Vec<u32> = (0..other.len()).map(|i| *other.entry_at(i).0).collect();
    assert_eq!(keys, same, "the order does not hang on the order of insertion");
    let mut bytes: Vec<Vec<u8>> = keys.iter().map(|id| id.encode_to_vec()).collect();
    bytes.sort();
    let ordered: Vec<Vec<u8>> = keys.iter().map(|id| id.encode_to_vec()).collect();
    assert_eq!(bytes, ordered);
    assert_eq!(map.remove(&127), Some(127));
    assert_eq!(map.len(), 4);
    assert_eq!(map.get(&127), None);
}

#[test]
fn the_first_tag_with_a_key_counts() {
    let tags = Tags {
        entries: vec![
            ("role".to_string(), "web".to_string()),
            ("dc".to_string(), "east".to_string()),
            ("role".to_string(), "db".to_string()),
        ],
    };
    assert_eq!(tags.get("role").map(|s| s.as_str()), Some("web"));
    assert_eq!(tags.get("dc").map(|s| s.as_str()), Some("east"));
    assert_eq!(tags.get("zone"), None);
    assert_eq!(Tags::new().get("role"), None);
}

#[test]
fn filter_types_have_numbers_and_names() {
    for n in 0u8..=255 {
        assert_eq!(u8::from(FilterType::from(n)), n);
    }
    assert_eq!(FilterType::from(0), FilterType::Id);
    assert_eq!(FilterType::from(1), FilterType::Tag);
    assert_eq!(FilterType::from(9), FilterType::Unknown(9));
    assert_eq!(FilterType::Id.as_str(), "id");
    assert_eq!(FilterType::Tag.as_str(), "tag");
    assert_eq!(FilterType::Unknown(0).as_str(), "unknown(0)");
    assert_eq!(FilterType::Unknown(207).as_str(), "unknown(207)");
    assert!(FilterType::Id.is_id());
    assert!(FilterType::Tag.is_tag());
    assert!(FilterType::Unknown(2).is_unknown());
    assert!(!FilterType::Unknown(2).is_tag());
}

fn tag_filter() -> Filter<u32> {
    Filter::Tag(TagFilter { tag: "role".to_string(), expr: None })
}

#[test]
fn filters_know_their_type() {
    let by_id: Filter<u32> = Filter::Id(vec![1]);
    assert_eq!(by_id.ty(), FilterType::Id);
    assert!(by_id.is_id());
    assert!(!by_id.is_tag());
    assert_eq!(tag_filter().ty(), FilterType::Tag);
    assert!(tag_filter().is_tag());
}

#[test]
fn a_filter_by_ids_reads_back() {
    let filter: Filter<u32> = Filter::Id(vec![1, 300, u32::MAX]);
    let mut buf: Vec<u8> = vec![0; filter.encoded_len(&[])];
    let n = filter.encode(&[], &mut buf).unwrap();
    assert_eq!(n, buf.len());
    assert_eq!(n, 1 + 1 + 2 + 5);
    assert!(FilterRef::<u32>::tag_bytes(&buf).is_none());
    let (read, val) = FilterRef::<u32>::decode(&buf, Err(DecodeFault::Tag)).unwrap();
    assert_eq!(read, 1, "the ids are left to be read");
    match Filter::from_ref(val, Err(DecodeFault::Tag)) {
        Ok(Filter::Id(ids)) => assert_eq!(ids, vec![1, 300, u32::MAX]),
        _ => panic!("expected ids"),
    }
}

#[test]
fn a_filter_by_tag_reads_back() {
    let body: &[u8] = b"the tag";
    let filter = tag_filter();
    let announced = filter.encoded_len(body);
    let mut buf: Vec<u8> = vec![0xee; announced];
    let n = filter.encode(body, &mut buf).unwrap();
    assert_eq!(n, 1 + 1 + body.len());
    assert_eq!(announced, n + 1);
    assert_eq!(buf[n], 0xee, "what is behind the filter stays");
    assert_eq!(FilterRef::<u32>::tag_bytes(&buf), Some(body));
    let (read, val) = FilterRef::<u32>::decode(&buf, Ok(body.len())).unwrap();
    assert_eq!(read, n);
    match &val {
        FilterRef::Tag(bytes) => assert_eq!(*bytes, body),
        FilterRef::Id(_) => panic!("expected a tag"),
    }
    let tag = TagFilter { tag: "role".to_string(), expr: None };
    assert!(matches!(Filter::from_ref(val, Ok(tag)), Ok(Filter::Tag(t)) if t.tag == "role"));
}

#[test]
fn a_tag_that_cannot_be_read_is_a_fault() {
    let mut buf: Vec<u8> = vec![0; 4];
    tag_filter().encode(b"?", &mut buf).unwrap();
    for fault in [DecodeFault::Tag, DecodeFault::BufferUnderflow] {
        match FilterRef::<u32>::decode(&buf, Err(fault)) {
            Err(e) => assert_eq!(e, fault),
            Ok(_) => panic!("expected a fault"),
        }
        let val = FilterRef::<u32>::Tag(b"?");
        assert!(matches!(Filter::from_ref(val, Err(fault)), Err(e) if e == fault));
    }
    match FilterRef::<u32>::decode(&buf, Ok(0)) {
        Ok((read, _)) => assert_eq!(read, 2, "what was not read is not counted"),
        Err(_) => panic!("expected a filter"),
    }
}

#[test]
fn a_buffer_too_short_for_a_filter_is_a_fault() {
    let filter: Filter<u32> = Filter::Id(vec![1, 300]);
    let mut none: Vec<u8> = Vec::new();
    assert_eq!(
        filter.encode(&[], &mut none),
        Err(EncodeFault::InsufficientBuffer { required: 4, remaining: 0 })
    );
    let mut short: Vec<u8> = vec![0; 3];
    assert_eq!(
        filter.encode(&[], &mut short),
        Err(EncodeFault::InsufficientBuffer { required: 4, remaining: 3 })
    );
    let mut shorter: Vec<u8> = vec![0; 2];
    assert_eq!(
        tag_filter().encode(b"ab", &mut shorter),
        Err(EncodeFault::InsufficientBuffer { required: 5, remaining: 2 })
    );
}

#[test]
fn bytes_that_are_no_filter_are_a_fault() {
    assert!(matches!(
        FilterRef::<u32>::decode(&[], Ok(0)),
        Err(DecodeFault::BufferUnderflow)
    ));
    let filter: Filter<u32> = Filter::Id(vec![]);
    let mut buf: Vec<u8> = vec![0; 1];
    filter.encode(&[], &mut buf).unwrap();
    let id_byte: u8 = buf[0];
    assert!(matches!(
        FilterRef::<u32>::decode(&[id_byte + 2], Ok(0)),
        Err(DecodeFault::UnknownTag { tag: 3 })
    ));
    assert!(matches!(
        FilterRef::<u32>::decode(&[0xf8], Ok(0)),
        Err(DecodeFault::UnknownWireType { value: 31 })
    ));
    let mut tagged: Vec<u8> = vec![0; 8];
    tag_filter().encode(b"abc", &mut tagged).unwrap();
    assert!(matches!(
        FilterRef::<u32>::decode(&tagged[..3], Ok(0)),
        Err(DecodeFault::BufferUnderflow)
    ));
}

#[test]
fn a_reader_of_ids_stops_at_a_fault() {
    let mut ids: IdDecoder<'_, u32> = IdDecoder::new(&[7, 0xac, 0x02, 0x80]);
    assert_eq!(ids.next(), Some(Ok(7)));
    assert_eq!(ids.next(), Some(Ok(300)));
    assert_eq!(ids.next(), Some(Err(ReadFault::Underflow)));
    assert_eq!(ids.next(), None);
    let val = FilterRef::Id(IdDecoder::<u32>::new(&[7, 0x80]));
    let read = Filter::from_ref(val, Err(DecodeFault::Tag));
    assert!(matches!(read, Err(DecodeFault::BufferUnderflow)));
}

#[test]
fn expressions_are_compiled_before_they_are_used() {
    let good: Vec<Filter<u32>> = vec![
        Filter::Id(vec![1]),
        tag_filter(),
        Filter::Tag(TagFilter { tag: "role".to_string(), expr: Some("^web[0-9]+$".to_string()) }),
    ];
    assert!(filters_compile(&good));
    let bad: Vec<Filter<u32>> = vec![
        Filter::Tag(TagFilter { tag: "role".to_string(), expr: Some("(".to_string()) }),
    ];
    assert!(!filters_compile(&bad));
}

#[test]
fn a_query_waits_longer_in_a_larger_cluster() {
    // 200 ms times the multiplier times the digits that a count of one more takes.
    assert_eq!(default_query_timeout(0, 16), 3200 * MILLISECOND);
    assert_eq!(default_query_timeout(1, 16), 3200 * MILLISECOND);
    assert_eq!(default_query_timeout(9, 16), 3200 * MILLISECOND);
    assert_eq!(default_query_timeout(10, 16), 6400 * MILLISECOND);
    assert_eq!(default_query_timeout(99, 16), 6400 * MILLISECOND);
    assert_eq!(default_query_timeout(100, 16), 9600 * MILLISECOND);
    assert_eq!(default_query_timeout(100, 1), 600 * MILLISECOND);
    assert_eq!(default_query_timeout(100, 0), 0);
}

#[test]
fn instants_do_not_run_over() {
    assert_eq!(add_duration(ORIGIN, SECOND), SECOND);
    assert_eq!(add_duration(Instant::MAX, SECOND), Instant::MAX);
    assert_eq!(duration_since(5, 3), 2);
    assert_eq!(duration_since(3, 5), 0);
    assert_eq!(max_instant(3, 5), 5);
    assert_eq!(min_deadline(Some(3), Some(5)), Some(3));
    assert_eq!(min_deadline(None, Some(5)), Some(5));
    assert_eq!(min_deadline(Some(3), None), Some(3));
    assert_eq!(min_deadline(None, None), None);
}

#[test]
fn the_defaults_are_those_of_the_documentation() {
    let opts = Options::new();
    assert_eq!(opts.reap_interval, 15 * SECOND);
    assert_eq!(opts.reconnect_interval, 30 * SECOND);
    assert_eq!(opts.reconnect_timeout, 24 * 3600 * SECOND);
    assert_eq!(opts.tombstone_timeout, 24 * 3600 * SECOND);
    assert_eq!(opts.recent_intent_timeout, 600 * SECOND);
    assert_eq!(opts.broadcast_timeout, 5 * SECOND);
    assert_eq!(opts.leave_propagate_delay, SECOND);
    assert_eq!(opts.event_buffer_size, 512);
    assert_eq!(opts.query_buffer_size, 512);
    assert_eq!(opts.max_user_event_size, 512);
    assert_eq!(opts.query_size_limit, 1024);
    assert_eq!(opts.query_response_size_limit, 1024);
    assert_eq!(opts.max_queue_depth, 4096);
    assert!(!opts.member_coalesce_enabled());
    assert!(!opts.user_coalesce_enabled());
}

#[test]
fn no_interval_is_zero() {
    let opts = Options {
        reap_interval: 0,
        reconnect_interval: 0,
        queue_check_interval: 0,
        ..Options::new()
    };
    assert_eq!(opts.reap_interval(), MIN_INTERVAL);
    assert_eq!(opts.reconnect_interval(), MIN_INTERVAL);
    assert_eq!(opts.queue_check_interval(), MIN_INTERVAL);
    assert_eq!(Options::new().reap_interval(), 15 * SECOND);
}
