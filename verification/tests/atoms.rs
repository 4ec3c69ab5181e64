use broken_nest::atom::{
    append_atom_event, can_read, read_atoms, write_atom_out_capacity, write_atom_sequence_midi,
    write_empty_atom_sequence,
};

fn atom(type_: u32, body: &[u8]) -> Vec<u8> {
    let mut a = Vec::new();
    a.extend_from_slice(&(body.len() as u32).to_ne_bytes());
    a.extend_from_slice(&type_.to_ne_bytes());
    a.extend_from_slice(body);
    a
}

#[test]
fn empty_atom_sequence_layout() {
    let mut buf = vec![0u8; 64];
    write_empty_atom_sequence(&mut buf, 42);
    assert_eq!(&buf[0..4], &8u32.to_ne_bytes()); // size = 8
    assert_eq!(&buf[4..8], &42u32.to_ne_bytes()); // type = sequence
    assert_eq!(&buf[8..16], &[0u8; 8]); // body zeroed
}

#[test]
fn midi_atom_sequence_layout() {
    let mut buf = vec![0u8; 128];
    let events = [(0i64, &[0x90u8, 60, 100][..])];
    write_atom_sequence_midi(&mut buf, 42, 7, &events);

    // atom.size = 8 (body header) + 24 (one event padded) = 32
    assert_eq!(&buf[0..4], &32u32.to_ne_bytes());
    // atom.type = sequence
    assert_eq!(&buf[4..8], &42u32.to_ne_bytes());
    // body.unit = 0
    assert_eq!(&buf[8..12], &0u32.to_ne_bytes());
    // event.time = 0
    assert_eq!(&buf[16..24], &0i64.to_ne_bytes());
    // event.body.size = 3
    assert_eq!(&buf[24..28], &3u32.to_ne_bytes());
    // event.body.type = midi
    assert_eq!(&buf[28..32], &7u32.to_ne_bytes());
    // MIDI data
    assert_eq!(&buf[32..35], &[0x90, 60, 100]);
}

#[test]
fn multiple_midi_events_padded() {
    let mut buf = vec![0u8; 256];
    let events = [
        (0i64, &[0x90u8, 60, 100][..]),
        (128i64, &[0x80u8, 60, 0][..]),
    ];
    write_atom_sequence_midi(&mut buf, 42, 7, &events);

    // atom.size = 8 (body) + 24 (event1) + 24 (event2) = 56
    assert_eq!(&buf[0..4], &56u32.to_ne_bytes());

    // Second event starts at offset 40 (8 header + 8 body + 24 first event)
    assert_eq!(&buf[40..48], &128i64.to_ne_bytes());
    assert_eq!(&buf[48..52], &3u32.to_ne_bytes());
    assert_eq!(&buf[56..59], &[0x80, 60, 0]);
}

#[test]
fn negative_frame_is_written_in_machine_order() {
    let mut buf = vec![0u8; 64];
    write_atom_sequence_midi(&mut buf, 1, 2, &[(-5i64, &[1u8][..])]);
    assert_eq!(&buf[16..24], &(-5i64).to_ne_bytes());
}

#[test]
fn midi_events_without_room_are_dropped() {
    let mut buf = vec![0u8; 48];
    let events = [(0i64, &[1u8, 2, 3][..]), (1i64, &[4u8, 5, 6][..])];
    write_atom_sequence_midi(&mut buf, 42, 7, &events);
    assert_eq!(&buf[0..4], &32u32.to_ne_bytes());
    assert_eq!(read_atoms(&buf), vec![atom(7, &[1, 2, 3])]);
}

#[test]
fn short_buffers_are_left_alone() {
    let mut buf = vec![9u8; 15];
    write_empty_atom_sequence(&mut buf, 42);
    write_atom_out_capacity(&mut buf, 42);
    append_atom_event(&mut buf, 42, 0, &atom(1, &[1]));
    assert_eq!(buf, vec![9u8; 15]);
}

#[test]
fn capacity_is_the_room_behind_the_header() {
    let mut buf = vec![0xffu8; 64];
    write_atom_out_capacity(&mut buf, 42);
    assert_eq!(&buf[0..4], &56u32.to_ne_bytes());
    assert_eq!(&buf[4..8], &42u32.to_ne_bytes());
    assert_eq!(&buf[8..16], &[0u8; 8]);
    assert_eq!(&buf[16..], &[0xffu8; 48]);
}

#[test]
fn appended_events_are_read_back() {
    let mut buf = vec![0u8; 256];
    write_empty_atom_sequence(&mut buf, 42);
    assert_eq!(read_atoms(&buf), Vec::<Vec<u8>>::new());
    let first = atom(5, b"hello");
    let second = atom(6, b"0123456789abcdef");
    append_atom_event(&mut buf, 42, 0, &first);
    append_atom_event(&mut buf, 42, 0, &second);
    assert_eq!(read_atoms(&buf), vec![first, second]);
    // 8 + pad(8 + 13) + pad(8 + 24)
    assert_eq!(&buf[0..4], &(8u32 + 24 + 32).to_ne_bytes());
}

#[test]
fn appended_event_without_room_is_dropped() {
    let mut buf = vec![0u8; 40];
    write_empty_atom_sequence(&mut buf, 42);
    let before = buf.clone();
    append_atom_event(&mut buf, 42, 0, &atom(5, &[0u8; 9]));
    assert_eq!(buf, before);
    append_atom_event(&mut buf, 42, 0, &[1, 2, 3]);
    assert_eq!(buf, before);
    append_atom_event(&mut buf, 42, 0, &atom(5, &[7u8; 8]));
    assert_eq!(read_atoms(&buf), vec![atom(5, &[7u8; 8])]);
}

#[test]
fn unreadable_buffers_are_told_apart() {
    let mut buf = vec![0u8; 40];
    // The event headers run out of the buffer before the body ends.
    buf[0..4].copy_from_slice(&1000u32.to_ne_bytes());
    assert!(!can_read(&buf));
    // An event that does not lie in the buffer ends the reading.
    buf[24..28].copy_from_slice(&1000u32.to_ne_bytes());
    assert!(can_read(&buf));
    assert_eq!(read_atoms(&buf), Vec::<Vec<u8>>::new());
    write_empty_atom_sequence(&mut buf, 1);
    assert!(can_read(&buf));
    write_atom_out_capacity(&mut buf, 1);
    assert!(can_read(&buf));
}
