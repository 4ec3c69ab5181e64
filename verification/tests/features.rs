use broken_nest::features::{
    frame_read, plugin_log_line, read_framed_message, worker_status, write_framed_message,
    FeatureData, FeatureSet, FrameRead, LogLevel, UridMapper, WorkerHost, ATOM_FLOAT_URI, ATOM_SEQUENCE_URI,
    LOG_ERROR_URI, LOG_NOTE_URI, LOG_WARNING_URI, LV2_OPTIONS_URI, LV2_URID_MAP_URI,
    LV2_URID_UNMAP_URI, LV2_WORKER_SCHEDULE_URI, MIDI_EVENT_URI,
};
use broken_nest::plugin::{plugin_features, worker_start, WorkerStart};

#[test]
fn urid_map_roundtrip() {
    let mut mapper = UridMapper::new();
    let id = mapper.map("http://example.org/test");
    assert!(id > 0);
    let uri = mapper.unmap(id);
    assert!(uri.is_some());
    assert_eq!(uri.unwrap(), "http://example.org/test");
}

#[test]
fn urid_map_deterministic() {
    let mut mapper = UridMapper::new();
    let id1 = mapper.map("http://example.org/a");
    let id2 = mapper.map("http://example.org/a");
    assert_eq!(id1, id2);
}

#[test]
fn urid_map_different_uris_different_ids() {
    let mut mapper = UridMapper::new();
    let id1 = mapper.map("http://example.org/a");
    let id2 = mapper.map("http://example.org/b");
    assert_ne!(id1, id2);
}

#[test]
fn urid_unmap_invalid_returns_null() {
    let mapper = UridMapper::new();
    assert!(mapper.unmap(0).is_none());
    assert!(mapper.unmap(99999).is_none());
}

#[test]
fn pre_mapped_uris_exist() {
    let mapper = UridMapper::new();
    assert!(mapper.lookup(MIDI_EVENT_URI).is_some());
    assert!(mapper.lookup(ATOM_SEQUENCE_URI).is_some());
    assert!(mapper.lookup(ATOM_FLOAT_URI).is_some());
}

#[test]
fn well_known_ids_start_at_one() {
    let mut mapper = UridMapper::new();
    assert_eq!(mapper.lookup(ATOM_SEQUENCE_URI), Some(1));
    assert_eq!(mapper.lookup(MIDI_EVENT_URI), Some(7));
    assert_eq!(mapper.lookup("http://example.org/new"), None);
    assert_eq!(mapper.map("http://example.org/new"), 16);
    assert_eq!(mapper.lookup("http://example.org/new"), Some(16));
    // Earlier numbers stay.
    assert_eq!(mapper.map(MIDI_EVENT_URI), 7);
}

#[test]
fn framed_message_roundtrip() {
    let (mut tx, mut rx) = rtrb::RingBuffer::new(1024);
    let data = b"hello world";
    assert!(write_framed_message(&mut tx, data.len() as u32, data));
    let (size, received) = read_framed_message(&mut rx, |_| {}).unwrap();
    assert_eq!(size, data.len() as u32);
    assert_eq!(&received, data);
}

#[test]
fn framed_messages_keep_their_order() {
    let (mut tx, mut rx) = rtrb::RingBuffer::new(64);
    assert!(write_framed_message(&mut tx, 2, &[1, 2]));
    assert!(write_framed_message(&mut tx, 0, &[]));
    assert!(write_framed_message(&mut tx, 3, &[3, 4, 5]));
    assert_eq!(read_framed_message(&mut rx, |_| {}), Some((2, vec![1, 2])));
    assert_eq!(read_framed_message(&mut rx, |_| {}), Some((0, vec![])));
    assert_eq!(read_framed_message(&mut rx, |_| {}), Some((3, vec![3, 4, 5])));
    assert_eq!(read_framed_message(&mut rx, |_| {}), None);
}

#[test]
fn framed_message_without_room_is_refused() {
    let (mut tx, mut rx) = rtrb::RingBuffer::new(8);
    assert!(!write_framed_message(&mut tx, 5, &[0; 5]));
    assert_eq!(read_framed_message(&mut rx, |_| {}), None);
    assert!(write_framed_message(&mut tx, 4, &[9; 4]));
    assert!(!write_framed_message(&mut tx, 0, &[]));
    assert_eq!(read_framed_message(&mut rx, |_| {}), Some((4, vec![9; 4])));
}

#[test]
fn message_whose_bytes_do_not_come_is_given_up() {
    let (mut tx, mut rx) = rtrb::RingBuffer::new(64);
    for b in [5u8, 0, 0, 0, 1, 2] {
        tx.push(b).unwrap();
    }
    let tries = std::cell::RefCell::new(Vec::new());
    assert_eq!(read_framed_message(&mut rx, |t| tries.borrow_mut().push(t)), None);
    assert_eq!(tries.into_inner(), (0..100).collect::<Vec<u32>>());
    // The size is gone, the bytes that came are still there.
    assert_eq!(rx.slots(), 2);
}

#[test]
fn worker_gets_work_and_answers() {
    let (mut host, mut end) = WorkerHost::new();
    assert!(host.schedule(3, &[1, 2, 3]));
    assert_eq!(
        read_framed_message(&mut end.rt_to_worker_rx, |_| {}),
        Some((3, vec![1, 2, 3]))
    );
    assert!(write_framed_message(&mut end.worker_to_rt_tx, 1, &[7]));
    assert!(write_framed_message(&mut end.worker_to_rt_tx, 2, &[8, 9]));
    assert_eq!(host.drain_responses(|_| {}), vec![(1, vec![7]), (2, vec![8, 9])]);
    assert_eq!(host.drain_responses(|_| {}), vec![]);
    assert!(!host.schedule(65536, &vec![0u8; 65536]));
    assert_eq!(worker_status(true), 0);
    assert_eq!(worker_status(false), 1);
}

#[test]
fn feature_set_has_features() {
    let fs = FeatureSet::new(48000, 1024);
    let features = fs.as_features();
    assert!(features.len() >= 4);
    // Check URID map is present
    let uris: Vec<&str> = features.iter().map(|f| f.uri.as_str()).collect();
    assert!(uris.contains(&LV2_URID_MAP_URI));
    assert!(uris.contains(&LV2_URID_UNMAP_URI));
    assert!(uris.contains(&LV2_OPTIONS_URI));
}

#[test]
fn options_give_the_block_length() {
    let fs = FeatureSet::new(48000, 1024);
    let keys: Vec<u32> = fs.options.iter().map(|o| o.key).collect();
    assert_eq!(keys, vec![12, 13, 14, 15, 0]);
    let values: Vec<Option<i32>> = fs.options.iter().map(|o| o.value).collect();
    assert_eq!(values, vec![Some(1024), Some(1024), Some(1024), Some(4096), None]);
    assert!(fs.options[..4].iter().all(|o| o.type_ == 4 && o.size == 4));
    // A block length beyond 31 bits wraps.
    let big = FeatureSet::new(48000, 0xffff_ffff);
    assert_eq!(big.options[0].value, Some(-1));
}

#[test]
fn worker_feature_is_offered_where_it_is_used() {
    let fs = FeatureSet::new(48000, 64);
    assert_eq!(plugin_features(&fs, false).len(), 6);
    let with = plugin_features(&fs, true);
    assert_eq!(with.len(), 7);
    assert_eq!(with[6].uri, LV2_WORKER_SCHEDULE_URI);
    assert_eq!(with[6].data, FeatureData::WorkerSchedule);
    assert_eq!(worker_start(true, Some((true, true))), WorkerStart::Start);
    assert_eq!(worker_start(true, Some((true, false))), WorkerStart::Incomplete);
    assert_eq!(worker_start(true, None), WorkerStart::NotWanted);
    assert_eq!(worker_start(false, Some((true, true))), WorkerStart::NotWanted);
}

#[test]
fn log_levels_follow_the_type() {
    let mapper = UridMapper::new();
    let level = |uri: &str| {
        plugin_log_line(&mapper, mapper.lookup(uri).unwrap(), Some(" hi\n")).unwrap()
    };
    assert_eq!(level(LOG_ERROR_URI), (LogLevel::Error, "[lv2] hi".to_string()));
    assert_eq!(level(LOG_WARNING_URI).0, LogLevel::Warn);
    assert_eq!(level(LOG_NOTE_URI).0, LogLevel::Debug);
    assert_eq!(plugin_log_line(&mapper, 999, Some("x")).unwrap().0, LogLevel::Trace);
    assert!(plugin_log_line(&mapper, 1, Some(" \n\t")).is_none());
    assert_eq!(plugin_log_line(&mapper, 1, None).unwrap().1, "[lv2] <invalid utf8>");
}

#[test]
fn a_reader_waits_for_the_rest_of_a_message() {
    assert_eq!(frame_read(0, 0, 0), FrameRead::Empty);
    assert_eq!(frame_read(5, 5, 0), FrameRead::Take);
    assert_eq!(frame_read(5, 4, 0), FrameRead::Pause);
    assert_eq!(frame_read(5, 4, 99), FrameRead::Pause);
    assert_eq!(frame_read(5, 4, 100), FrameRead::Stop);
    assert_eq!(frame_read(5, 9, 100), FrameRead::Take);
}

#[test]
fn a_message_that_was_seen_is_found_without_a_pause() {
    let (mut tx, mut rx) = rtrb::RingBuffer::new(64);
    assert!(write_framed_message(&mut tx, 3, &[1, 2, 3]));
    assert_eq!(rx.slots(), 7);
    let pauses = std::cell::Cell::new(0);
    let r = read_framed_message(&mut rx, |_| pauses.set(pauses.get() + 1));
    assert_eq!(r, Some((3, vec![1, 2, 3])));
    assert_eq!(pauses.get(), 0);
    assert_eq!(rx.cached_slots(), 0);
}

#[test]
fn written_messages_come_back_around_the_end_of_the_ring() {
    let (mut tx, mut rx) = rtrb::RingBuffer::new(16);
    for round in 0..5u8 {
        assert!(write_framed_message(&mut tx, 3, &[round, 1, 2]));
        assert!(write_framed_message(&mut tx, 0, &[]));
        // Five of the sixteen slots are free.
        assert!(!write_framed_message(&mut tx, 2, &[1, 2]));
        assert!(write_framed_message(&mut tx, 1, &[round]));
        assert!(!write_framed_message(&mut tx, 0, &[]));
        assert_eq!(read_framed_message(&mut rx, |_| {}), Some((3, vec![round, 1, 2])));
        assert_eq!(read_framed_message(&mut rx, |_| {}), Some((0, vec![])));
        assert_eq!(read_framed_message(&mut rx, |_| {}), Some((1, vec![round])));
        assert_eq!(rx.slots(), 0);
        assert_eq!(read_framed_message(&mut rx, |_| {}), None);
    }
}
