use broken_nest::atom::{append_atom_event, read_atoms};
use broken_nest::bridge::ControlBridge;
use broken_nest::error::Error;
use broken_nest::features::FeatureSet;
use broken_nest::names::NameMap;
use broken_nest::plugin::{
    check_complete, wants_worker, Connection, Lv2PluginInstance, PortKind,
};
use broken_nest::slot::ChainSlot;
use broken_nest::world::{finite, PluginDesc, PortDesc, PortRange, World};

fn bits(x: f32) -> u32 {
    x.to_bits()
}

fn port(index: usize, symbol: Option<&str>, classes: &str) -> PortDesc {
    PortDesc {
        index,
        symbol: symbol.map(|s| s.to_string()),
        is_input: classes.contains('i'),
        is_output: classes.contains('o'),
        is_audio: classes.contains('a'),
        is_cv: classes.contains('v'),
        is_control: classes.contains('c'),
        is_atom: classes.contains('m'),
        supports_midi: classes.contains('n'),
    }
}

fn range(min: f32, max: f32, default: f32) -> PortRange {
    PortRange { min: bits(min), max: bits(max), default: bits(default) }
}

fn synth() -> PluginDesc {
    let nan = f32::NAN;
    PluginDesc {
        uri: "urn:synth".to_string(),
        ports: vec![
            port(0, Some("in"), "ia"),
            port(1, Some("gain"), "ic"),
            port(2, None, "iv"),
            port(3, Some("out"), "oa"),
            port(4, Some("level"), "oc"),
            port(5, Some("mix"), "ic"),
            port(6, Some("midi"), "imn"),
            port(7, Some("notify"), "om"),
            port(8, Some("odd"), "i"),
            port(9, Some("control"), "im"),
        ],
        ranges: vec![
            range(nan, nan, nan),
            range(0.0, 2.0, 0.5),
            range(nan, nan, 3.0),
            range(nan, nan, nan),
            range(nan, nan, 0.25),
            range(nan, f32::INFINITY, nan),
            range(nan, nan, nan),
            range(nan, nan, nan),
            range(nan, nan, nan),
            range(nan, nan, nan),
        ],
        features: vec!["http://lv2plug.in/ns/ext/worker#schedule".to_string()],
        uis: None,
    }
}

fn world() -> World {
    World { plugins: vec![synth()] }
}

fn instance() -> Lv2PluginInstance<f32> {
    let features = FeatureSet::new(48000, 1024);
    Lv2PluginInstance::new(&world(), "urn:synth", "s", 1024, &features, true, 0.0f32).unwrap()
}

#[test]
fn ports_get_the_next_buffer_of_their_kind() {
    let p = instance();
    let infos: Vec<(usize, PortKind, &str, usize, bool)> = p
        .port_infos
        .iter()
        .map(|i| (i.port_index, i.kind, i.symbol.as_str(), i.buf_index, i.has_midi))
        .collect();
    assert_eq!(
        infos,
        vec![
            (0, PortKind::AudioIn, "in", 0, false),
            (1, PortKind::ControlIn, "gain", 0, false),
            (2, PortKind::AudioIn, "port_2", 1, false),
            (3, PortKind::AudioOut, "out", 0, false),
            (4, PortKind::ControlOut, "level", 0, false),
            (5, PortKind::ControlIn, "mix", 1, false),
            (6, PortKind::AtomIn, "midi", 0, true),
            (7, PortKind::AtomOut, "notify", 0, false),
            (9, PortKind::AtomIn, "control", 1, false),
        ]
    );
    assert_eq!(p.unknown_ports, vec![8]);
    assert_eq!(p.audio_in_count(), 2);
    assert_eq!(p.audio_out_count(), 1);
    assert!(p.has_midi_in());
    assert!(p.needs_worker);
    assert_eq!(p.midi_in_buf_indices, vec![0]);
    let connections = p.connections();
    assert_eq!(connections.len(), 10);
    assert_eq!(
        connections[2],
        (2, Connection::Buffer { kind: PortKind::AudioIn, buf_index: 1 })
    );
    assert_eq!(connections[9], (8, Connection::Dummy));
}

#[test]
fn buffers_have_their_sizes() {
    let p = instance();
    assert_eq!(p.frames, 8192);
    assert!(p.audio_in_bufs().iter().all(|b| b.len() == 8192 && b.iter().all(|s| *s == 0.0)));
    assert!(p.audio_out_bufs().iter().all(|b| b.len() == 8192));
    assert!(p.atom_in_bufs.iter().chain(p.atom_out_bufs.iter()).all(|b| b.len() == 8192));
    assert_eq!(p.dummy_buf.len(), 4 * 8192);
    let features = FeatureSet::new(48000, 10000);
    let big = Lv2PluginInstance::new(&world(), "urn:synth", "s", 10000, &features, true, 0u8);
    assert_eq!(big.unwrap().frames, 10000);
}

trait InBufs {
    fn audio_in_bufs(&self) -> &Vec<Vec<f32>>;
}

impl InBufs for Lv2PluginInstance<f32> {
    fn audio_in_bufs(&self) -> &Vec<Vec<f32>> {
        &self.audio_in_bufs
    }
}

#[test]
fn defaults_are_taken_where_they_are_finite() {
    let p = instance();
    assert_eq!(p.control_in_vals, vec![bits(0.5), 0]);
    assert_eq!(p.control_out_vals, vec![bits(0.25)]);
    let meta = p.control_port_meta();
    assert_eq!((meta[0].min, meta[0].max, meta[0].default), (0, bits(2.0), bits(0.5)));
    assert_eq!((meta[1].min, meta[1].max, meta[1].default), (0, bits(1.0), 0));
    assert_eq!(meta[1].symbol, "mix");
    assert_eq!(meta[1].port_index, 5);
    assert!(finite(bits(1.0)) && finite(bits(-0.0)) && finite(bits(f32::MAX)));
    assert!(!finite(bits(f32::NAN)) && !finite(bits(f32::NEG_INFINITY)));
}

#[test]
fn instantiation_errors() {
    let features = FeatureSet::new(48000, 64);
    let missing = Lv2PluginInstance::new(&world(), "urn:none", "s", 64, &features, true, 0u8);
    assert!(matches!(missing, Err(Error::Lv2PluginNotFound { uri }) if uri == "urn:none"));
    let failed = Lv2PluginInstance::new(&world(), "urn:synth", "s", 64, &features, false, 0u8);
    match failed {
        Err(Error::Lv2Instantiation { name, uri, reason }) => {
            assert_eq!(name, "s");
            assert_eq!(uri, "urn:synth");
            assert_eq!(reason, "lilv_plugin_instantiate returned null");
        }
        _ => panic!("no instance without the plugin's code"),
    }
}

#[test]
fn controls_are_set_by_symbol_and_by_place() {
    let mut p = instance();
    p.set_control("mix", bits(0.75)).unwrap();
    assert_eq!(p.current_controls().get("mix"), Some(&bits(0.75)));
    assert_eq!(p.current_controls().get("gain"), Some(&bits(0.5)));
    match p.set_control("nope", 1) {
        Err(Error::ControlPortNotFound { name, port }) => {
            assert_eq!((name.as_str(), port.as_str()), ("s", "nope"));
        }
        _ => panic!("there is no such control"),
    }
    p.set_control_by_index(0, 7);
    p.set_control_by_index(2, 8);
    assert_eq!(p.control_in_vals, vec![7, bits(0.75)]);
    assert_eq!(p.control_port_symbols(), vec!["gain", "mix"]);
    assert_eq!(p.control_in_port_indices(), vec![1, 5]);
    let pairs = p.all_port_symbol_index_pairs();
    assert_eq!(pairs.len(), 9);
    assert_eq!(pairs[8], ("control".to_string(), 9));
}

#[test]
fn last_port_of_a_symbol_counts() {
    let mut desc = synth();
    desc.ports[1].symbol = Some("mix".to_string());
    let world = World { plugins: vec![desc] };
    let features = FeatureSet::new(48000, 64);
    let mut p =
        Lv2PluginInstance::new(&world, "urn:synth", "s", 64, &features, true, 0u8).unwrap();
    p.set_control("mix", 9).unwrap();
    assert_eq!(p.control_in_vals, vec![bits(0.5), 9]);
    let bridge = ControlBridge::new(&vec![p], &vec![0]);
    assert_eq!(bridge.plugins[0].values, vec![9, 9]);
}

#[test]
fn saved_controls_are_restored() {
    let mut p = instance();
    let mut saved: NameMap<u32> = NameMap::new();
    saved.insert("gain".to_string(), 11);
    saved.insert("unknown".to_string(), 12);
    p.restore(&saved);
    assert_eq!(p.control_in_vals, vec![11, 0]);
    // Restoring what is current changes nothing.
    let current = p.current_controls();
    p.restore(&current);
    assert_eq!(p.control_in_vals, vec![11, 0]);
}

#[test]
fn atom_buffers_are_cleared_and_filled() {
    let mut p = instance();
    p.clear_atom_buffers();
    assert_eq!(&p.atom_in_bufs[0][0..4], &8u32.to_ne_bytes());
    assert_eq!(&p.atom_out_bufs[0][0..4], &8184u32.to_ne_bytes());
    let mut event = Vec::new();
    event.extend_from_slice(&4u32.to_ne_bytes());
    event.extend_from_slice(&3u32.to_ne_bytes());
    event.extend_from_slice(&[1, 2, 3, 4]);
    p.write_atom_to_port(9, 0, &event);
    p.write_atom_to_port(7, 0, &event);
    assert_eq!(read_atoms(&p.atom_in_bufs[1]), vec![event.clone()]);
    assert!(read_atoms(&p.atom_in_bufs[0]).is_empty());
    p.write_midi_to_atom_in(&[(0, &[0x90, 60, 1])]);
    p.write_midi_to_atom_in(&[]);
    let midi = read_atoms(&p.atom_in_bufs[0]);
    assert_eq!(midi.len(), 1);
    assert_eq!(&midi[0][4..8], &7u32.to_ne_bytes());
    assert_eq!(&midi[0][8..], &[0x90, 60, 1]);
    assert_eq!(read_atoms(&p.atom_in_bufs[1]), vec![event.clone()]);
    // What the plugin puts out is read with the index of its port.
    p.atom_out_bufs[0][0..4].copy_from_slice(&8u32.to_ne_bytes());
    append_atom_event(&mut p.atom_out_bufs[0], 1, 0, &event);
    assert!(p.can_drain());
    assert_eq!(p.drain_atom_output_events(), vec![(7, event)]);
}

#[test]
fn bridge_finds_controls_by_name() {
    let mut second = instance();
    second.name = "t".to_string();
    let plugins = vec![instance(), second];
    let mut bridge = ControlBridge::new(&plugins, &vec![0, 1]);
    bridge.set_control("t", "gain", 5).unwrap();
    assert!(matches!(
        bridge.set_control("x", "gain", 5),
        Err(Error::PluginNotFound { name }) if name == "x"
    ));
    assert!(matches!(
        bridge.set_control("s", "x", 5),
        Err(Error::ControlPortNotFound { name, port }) if name == "s" && port == "x"
    ));
    let all = bridge.all_controls();
    assert_eq!(all.get("s").unwrap().get("gain"), Some(&bits(0.5)));
    assert_eq!(all.get("t").unwrap().get("gain"), Some(&5));
    assert_eq!(bridge.get_control_by_bridge_index("t", 0), Some(5));
    assert_eq!(bridge.get_control_by_bridge_index("t", 2), None);
    assert_eq!(bridge.get_control_by_bridge_index("x", 0), None);
    bridge.set_control_by_bridge_index("s", 1, 6);
    bridge.set_control_by_bridge_index("s", 2, 7);
    assert_eq!(bridge.plugins[0].values, vec![bits(0.5), 6]);
}

#[test]
fn values_reach_both_sides_of_a_slot() {
    let mut plugins = vec![instance(), instance(), instance()];
    let mut bridge = ControlBridge::new(&plugins, &vec![0, 1]);
    bridge.set_control_by_bridge_index("s", 0, 21);
    bridge.plugins[1].values[1] = 22;
    let slots = vec![ChainSlot::Single(0), ChainSlot::DualMono { left: 1, right: 2 }];
    bridge.sync_to_plugins(&mut plugins, &slots);
    assert_eq!(plugins[0].control_in_vals, vec![21, 0]);
    assert_eq!(plugins[1].control_in_vals, vec![bits(0.5), 22]);
    assert_eq!(plugins[2].control_in_vals, vec![bits(0.5), 22]);
    assert_eq!(slots[1].primary_idx(), 1);
    assert_eq!(slots[1].members(), vec![1, 2]);
    assert_eq!(slots[0].members(), vec![0]);
}

#[test]
fn a_world_is_complete_where_all_control_inputs_have_ranges() {
    assert!(check_complete(&world()));
    let mut short = synth();
    short.ranges.truncate(6);
    assert!(check_complete(&World { plugins: vec![synth(), short] }));
    let mut short = synth();
    short.ranges.truncate(5);
    assert!(!check_complete(&World { plugins: vec![synth(), short] }));
}

#[test]
fn a_worker_is_wanted_where_the_feature_is_named() {
    assert!(wants_worker(&synth()));
    let mut plain = synth();
    plain.features = vec!["http://lv2plug.in/ns/ext/urid#map".to_string()];
    assert!(!wants_worker(&plain));
}

#[test]
fn instantiate_eg_amp() {
    let uri = "http://lv2plug.in/plugins/eg-amp";
    let nan = f32::NAN;
    let amp = PluginDesc {
        uri: uri.to_string(),
        ports: vec![
            port(0, Some("gain"), "ic"),
            port(1, Some("in"), "ia"),
            port(2, Some("out"), "oa"),
        ],
        ranges: vec![range(-90.0, 24.0, 0.0), range(nan, nan, nan), range(nan, nan, nan)],
        features: vec![],
        uis: None,
    };
    let world = World { plugins: vec![amp] };
    let features = FeatureSet::new(48000, 1024);
    let inst = Lv2PluginInstance::new(&world, uri, "test-amp", 1024, &features, true, 0.0f32);
    let inst = match inst {
        Ok(inst) => inst,
        Err(e) => panic!("failed to instantiate eg-amp: {}", e.message()),
    };

    assert_eq!(inst.audio_in_count(), 1);
    assert_eq!(inst.audio_out_count(), 1);
    assert!(!inst.has_midi_in());

    let controls = inst.current_controls();
    assert!(controls.contains_key("gain"));
}
