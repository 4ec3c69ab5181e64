use broken_nest::error::Error;
use broken_nest::midi::{
    all_playable, create_midi_channel, encode_all, router_activate_error, router_client_error,
    router_port_error, MidiEvent,
};

#[test]
fn messages_have_their_bytes() {
    let note_on = MidiEvent::NoteOn { channel: 1, note: 60, velocity: 100 };
    assert_eq!(note_on.to_bytes(), (3, [0x91, 60, 100]));
    let note_off = MidiEvent::NoteOff { channel: 17, note: 188, velocity: 255 };
    assert_eq!(note_off.to_bytes(), (3, [0x81, 60, 127]));
    let cc = MidiEvent::Cc { channel: 15, controller: 7, value: 1 };
    assert_eq!(cc.to_bytes(), (3, [0xbf, 7, 1]));
    let program = MidiEvent::ProgramChange { channel: 0, program: 5 };
    assert_eq!(program.to_bytes(), (2, [0xc0, 5, 0]));
    let raw = MidiEvent::Raw { len: 1, data: [0xfe, 1, 2] };
    assert_eq!(raw.to_bytes(), (1, [0xfe, 1, 2]));
    let raw = MidiEvent::Raw { len: 3, data: [0xf1, 200, 2] };
    assert_eq!(raw.to_bytes(), (3, [0xf1, 200, 2]));
    // There are no more than three bytes.
    let raw = MidiEvent::Raw { len: 5, data: [0xf1, 200, 2] };
    assert_eq!(raw.to_bytes(), (3, [0xf1, 200, 2]));
    let raw = MidiEvent::Raw { len: 255, data: [0, 0, 1] };
    assert_eq!(raw.to_bytes(), (3, [0, 0, 1]));
}

#[test]
fn bend_is_centered() {
    let bend = |value: i16| MidiEvent::PitchBend { channel: 0, value }.to_bytes();
    assert_eq!(bend(0), (3, [0xe0, 0, 64]));
    assert_eq!(bend(-8192), (3, [0xe0, 0, 0]));
    assert_eq!(bend(8191), (3, [0xe0, 127, 127]));
}

#[test]
fn playable_messages() {
    assert!(all_playable(&vec![MidiEvent::Raw { len: 3, data: [1, 2, 3] }]));
    assert!(all_playable(&vec![MidiEvent::Raw { len: 4, data: [1, 2, 3] }]));
    assert!(!all_playable(&vec![MidiEvent::PitchBend { channel: 0, value: 24576 }]));
    assert!(!MidiEvent::PitchBend { channel: 0, value: 24576 }.can_encode());
    assert!(all_playable(&vec![]));
}

#[test]
fn channel_hands_on_in_order() {
    let (mut sender, mut port) = create_midi_channel("synth", 2);
    assert_eq!(port.name, "synth");
    let event = |note| MidiEvent::NoteOn { channel: 0, note, velocity: 1 };
    assert!(sender.send(event(1)).is_ok());
    assert!(sender.send(event(2)).is_ok());
    match sender.send(event(3)) {
        Err(MidiEvent::NoteOn { note, .. }) => assert_eq!(note, 3),
        _ => panic!("a full channel takes nothing"),
    }
    let got = encode_all(&port.receive_all());
    assert_eq!(got, vec![(3, [0x90, 1, 1]), (3, [0x90, 2, 1])]);
    assert!(port.receive_all().is_empty());
    assert!(sender.send(event(3)).is_ok());
    assert_eq!(port.receive_all().len(), 1);
}

#[test]
fn channel_of_no_capacity_takes_nothing() {
    let (mut sender, _port) = create_midi_channel("synth", 0);
    assert!(sender.send(MidiEvent::Raw { len: 0, data: [0; 3] }).is_err());
}

#[test]
fn router_errors() {
    let (_, port) = create_midi_channel("synth", 1);
    assert!(matches!(router_client_error("x"), Error::Wiring(s) if s == "JACK client failed: x"));
    assert!(matches!(
        router_port_error(&port, "x"),
        Error::Wiring(s) if s == "failed to register MIDI port 'synth': x"
    ));
    assert!(matches!(
        router_activate_error("x"),
        Error::Wiring(s) if s == "JACK activate failed: x"
    ));
}

#[test]
fn clones_of_a_handle_feed_one_channel() {
    let (sender, mut port) = create_midi_channel("synth", 3);
    let event = |note| MidiEvent::NoteOn { channel: 0, note, velocity: 1 };
    let a = sender.share();
    let b = a.clone();
    assert!(a.send(event(1)).is_ok());
    assert!(b.send(event(2)).is_ok());
    assert!(a.send(event(3)).is_ok());
    match b.send(event(4)) {
        Err(MidiEvent::NoteOn { note, .. }) => assert_eq!(note, 4),
        _ => panic!("a full channel takes nothing"),
    }
    let got = encode_all(&port.receive_all());
    assert_eq!(got, vec![(3, [0x90, 1, 1]), (3, [0x90, 2, 1]), (3, [0x90, 3, 1])]);
    drop(a);
    assert!(b.send(event(5)).is_ok());
    assert_eq!(port.receive_all().len(), 1);
}
