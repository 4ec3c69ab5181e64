use broken_nest::atom::{append_atom_event, read_atoms};
use broken_nest::chain::{activate_error, connect_error, register_error, Chain, JackClient};
use broken_nest::config::{ChainBuilder, ChainConfig, PluginBuilder};
use broken_nest::error::Error;
use broken_nest::features::FeatureSet;
use broken_nest::midi::MidiEvent;
use broken_nest::names::NameMap;
use broken_nest::process::{AtomUiEvent, ChainProcessHandler, CycleStage};
use broken_nest::slot::ChainSlot;
use broken_nest::ui::{UiCommand, UiCommands};
use broken_nest::wiring::plan_instances;
use broken_nest::world::{PluginDesc, PortDesc, PortRange, UiDesc, World};

fn bits(x: f32) -> u32 {
    x.to_bits()
}

fn port(index: usize, symbol: &str, classes: &str) -> PortDesc {
    PortDesc {
        index,
        symbol: Some(symbol.to_string()),
        is_input: classes.contains('i'),
        is_output: classes.contains('o'),
        is_audio: classes.contains('a'),
        is_cv: false,
        is_control: classes.contains('c'),
        is_atom: classes.contains('m'),
        supports_midi: classes.contains('n'),
    }
}

fn plugin(uri: &str, ports: Vec<PortDesc>, uis: Option<Vec<UiDesc>>) -> PluginDesc {
    let ranges = ports
        .iter()
        .map(|_| PortRange { min: bits(0.0), max: bits(1.0), default: bits(0.5) })
        .collect();
    PluginDesc { uri: uri.to_string(), ports, ranges, features: vec![], uis }
}

fn window() -> UiDesc {
    UiDesc {
        uri: Some("urn:amp#ui".to_string()),
        bundle_uri: Some("file:///lv2/amp.lv2/".to_string()),
        binary_uri: Some("file:///lv2/amp.lv2/ui.so".to_string()),
        is_gtk: true,
        is_x11: false,
        is_gtk3: false,
    }
}

fn world() -> World {
    World {
        plugins: vec![
            plugin(
                "urn:amp",
                vec![port(0, "gain", "ic"), port(1, "in", "ia"), port(2, "out", "oa")],
                Some(vec![window()]),
            ),
            plugin(
                "urn:stereo",
                vec![
                    port(0, "l", "ia"),
                    port(1, "r", "ia"),
                    port(2, "ol", "oa"),
                    port(3, "or", "oa"),
                ],
                None,
            ),
            plugin(
                "urn:synth",
                vec![
                    port(0, "events", "imn"),
                    port(1, "notes", "om"),
                    port(2, "out", "oa"),
                    port(3, "cutoff", "ic"),
                ],
                None,
            ),
        ],
    }
}

fn client() -> Result<JackClient, String> {
    Ok(JackClient { name: "bn".to_string(), sample_rate: 48000, buffer_size: 64 })
}

type Started = Result<(Chain, ChainProcessHandler<f32>), Error>;

fn start_with(config: &ChainConfig, instantiated: &[bool]) -> Started {
    let saved = config.plugins.iter().map(|_| NameMap::new()).collect();
    Chain::start_with_world(
        config,
        &world(),
        &client(),
        FeatureSet::new(48000, 64),
        &instantiated.to_vec(),
        &saved,
        5,
        0.0f32,
    )
}

fn start(config: &ChainConfig) -> (Chain, ChainProcessHandler<f32>) {
    match start_with(config, &[true; 8]) {
        Ok(r) => r,
        Err(e) => panic!("{}", e.message()),
    }
}

fn macc(acc: f32, sample: f32, gain: u32) -> f32 {
    acc + sample * f32::from_bits(gain)
}

fn rig() -> ChainConfig {
    ChainBuilder::new("rig")
        .plugin(PluginBuilder::new("urn:amp", "amp").build())
        .plugin(PluginBuilder::new("urn:amp", "wide").dual_mono().generic_ui().build())
        .plugin(PluginBuilder::new("urn:synth", "synth").build())
        .build()
}

#[test]
fn starting_needs_plugins_and_a_client() {
    let empty = ChainBuilder::new("none").build();
    assert!(matches!(
        start_with(&empty, &[]),
        Err(Error::Config(s)) if s == "chain has no plugins"
    ));
    let saved = vec![NameMap::new(), NameMap::new(), NameMap::new()];
    let refused = Chain::start_with_world(
        &rig(),
        &world(),
        &Err("no server".to_string()),
        FeatureSet::new(48000, 64),
        &vec![],
        &saved,
        0,
        0.0f32,
    );
    assert!(matches!(
        refused,
        Err(Error::Jack(s)) if s == "failed to create JACK client: no server"
    ));
}

#[test]
fn first_failing_instance_is_reported() {
    match start_with(&rig(), &[true, true, false, true]) {
        Err(Error::Lv2Instantiation { name, uri, .. }) => {
            assert_eq!(name, "wide_R");
            assert_eq!(uri, "urn:amp");
        }
        _ => panic!("the right side cannot start"),
    }
    let config = ChainBuilder::new("c")
        .plugin(PluginBuilder::new("urn:none", "x").build())
        .plugin(PluginBuilder::new("urn:amp", "y").build())
        .build();
    assert!(matches!(
        start_with(&config, &[false, false]),
        Err(Error::Lv2PluginNotFound { uri }) if uri == "urn:none"
    ));
    // An instance of which nothing is said was not started.
    assert!(matches!(
        start_with(&rig(), &[true]),
        Err(Error::Lv2Instantiation { name, .. }) if name == "wide"
    ));
}

#[test]
fn instances_fill_the_slots() {
    let (chain, handler) = start(&rig());
    let names: Vec<&str> = handler.plugins.iter().map(|p| p.name.as_str()).collect();
    assert_eq!(names, vec!["amp", "wide", "wide_R", "synth"]);
    assert_eq!(
        handler.slots,
        vec![
            ChainSlot::Single(0),
            ChainSlot::DualMono { left: 1, right: 2 },
            ChainSlot::Single(3),
        ]
    );
    assert_eq!(chain.input_port_names(), &vec!["bn:audio_in_1"]);
    assert_eq!(chain.output_port_names(), &vec!["bn:audio_out_1"]);
    assert_eq!(chain.plugin_primary_indices.get("synth"), Some(&3));
    assert_eq!(chain.notify_queue, 5);
    assert!(chain.is_running());
    assert!(!chain.is_muted());
}

#[test]
fn port_counts_follow_the_ends() {
    let dual = ChainBuilder::new("c")
        .plugin(PluginBuilder::new("urn:amp", "a").dual_mono().build())
        .build();
    let (chain, _) = start(&dual);
    assert_eq!(chain.chain_input_ports().unwrap(), vec!["bn:audio_in_1", "bn:audio_in_2"]);
    assert_eq!(chain.chain_output_ports().unwrap().len(), 2);
    let synth = ChainBuilder::new("c")
        .plugin(
            PluginBuilder::new("urn:synth", "s")
                .stereo_mix(vec![[bits(1.0), bits(0.5)]])
                .build(),
        )
        .build();
    let (chain, _) = start(&synth);
    assert!(chain.chain_input_ports().is_none());
    assert_eq!(
        chain.chain_output_ports().unwrap(),
        vec!["bn:audio_out_1", "bn:audio_out_2"]
    );
}

#[test]
fn midi_routes_follow_ports_and_configuration() {
    let config = ChainBuilder::new("c")
        .plugin(PluginBuilder::new("urn:amp", "forced").midi_in(true).build())
        .plugin(PluginBuilder::new("urn:synth", "auto").build())
        .plugin(PluginBuilder::new("urn:synth", "off").midi_in(false).build())
        .build();
    let (mut chain, handler) = start(&config);
    assert!(chain.midi_sender("forced").is_ok());
    assert!(chain.midi_sender("auto").is_ok());
    assert!(matches!(
        chain.midi_sender("off"),
        Err(Error::PluginNotFound { name }) if name == "off"
    ));
    assert!(matches!(chain.sole_midi_sender(), Err(Error::AmbiguousMidi { count: 2 })));
    let routes: Vec<usize> = handler.midi_consumers.iter().map(|c| c.0).collect();
    assert_eq!(routes, vec![0, 1]);
    let (mut one, _) = start(&rig());
    assert!(one.sole_midi_sender().is_ok());
}

#[test]
fn messages_and_events_reach_the_plugin() {
    let (mut chain, mut handler) = start(&rig());
    let note = MidiEvent::NoteOn { channel: 0, note: 60, velocity: 100 };
    assert!(chain.midi_sender("synth").unwrap().send(note).is_ok());
    let midi = handler.receive_midi();
    assert_eq!(midi.len(), 1);
    handler.begin(&chain.control_bridge, &vec![], &midi);
    let atoms = read_atoms(&handler.plugins[3].atom_in_bufs[0]);
    assert_eq!(atoms.len(), 1);
    assert_eq!(&atoms[0][8..], &[0x90, 60, 100]);
    // Next cycle there is nothing new, and an event from the window comes.
    let mut data = Vec::new();
    data.extend_from_slice(&1u32.to_ne_bytes());
    data.extend_from_slice(&9u32.to_ne_bytes());
    data.push(42);
    let event = AtomUiEvent { plugin_idx: 3, port_index: 0, protocol: 1, data: data.clone() };
    let astray = AtomUiEvent { plugin_idx: 99, port_index: 0, protocol: 1, data: data.clone() };
    let midi = handler.receive_midi();
    let mut more = data.clone();
    more[8] = 43;
    let second = AtomUiEvent { plugin_idx: 3, port_index: 0, protocol: 1, data: more.clone() };
    handler.begin(&chain.control_bridge, &vec![event, astray, second], &midi);
    assert_eq!(read_atoms(&handler.plugins[3].atom_in_bufs[0]), vec![data.clone(), more]);
    // What the plugin says goes to its window.
    handler.plugins[3].atom_out_bufs[0][0..4].copy_from_slice(&8u32.to_ne_bytes());
    append_atom_event(&mut handler.plugins[3].atom_out_bufs[0], 1, 0, &data);
    assert!(handler.can_notify());
    let notices = handler.notify_events();
    assert_eq!(notices.len(), 1);
    assert_eq!((notices[0].plugin_idx, notices[0].port_index, notices[0].protocol), (3, 1, 6));
    assert_eq!(notices[0].data, data);
}

#[test]
fn controls_reach_both_sides() {
    let (mut chain, mut handler) = start(&rig());
    chain.set_control("wide", "gain", bits(0.9)).unwrap();
    assert!(matches!(
        chain.set_control("wide_R", "gain", 0),
        Err(Error::PluginNotFound { name }) if name == "wide_R"
    ));
    assert!(matches!(
        chain.set_control("wide", "tone", 0),
        Err(Error::ControlPortNotFound { name, port }) if name == "wide" && port == "tone"
    ));
    let midi = handler.receive_midi();
    handler.begin(&chain.control_bridge, &vec![], &midi);
    assert_eq!(handler.plugins[0].control_in_vals, vec![bits(0.5)]);
    assert_eq!(handler.plugins[1].control_in_vals, vec![bits(0.9)]);
    assert_eq!(handler.plugins[2].control_in_vals, vec![bits(0.9)]);
    let all = chain.all_controls();
    assert_eq!(all.len(), 3);
    assert_eq!(all.get("wide").unwrap().get("gain"), Some(&bits(0.9)));
}

#[test]
fn saved_controls_come_back() {
    let (mut chain, _) = start(&rig());
    chain.set_control("amp", "gain", bits(0.1)).unwrap();
    chain.set_control("wide", "gain", bits(0.2)).unwrap();
    let saved = chain.stop();
    assert!(!chain.is_running());
    assert!(chain.midi_sender("synth").is_err());
    assert_eq!(saved.len(), 3);
    let config = rig();
    let mut lists: Vec<NameMap<u32>> = vec![NameMap::new(), NameMap::new(), NameMap::new()];
    for (name, controls) in saved {
        let i = config.plugins.iter().position(|p| p.name == name).unwrap();
        lists[i] = controls;
    }
    let again = Chain::start_with_world(
        &config,
        &world(),
        &client(),
        FeatureSet::new(48000, 64),
        &vec![true; 4],
        &lists,
        0,
        0.0f32,
    );
    let (chain, handler) = match again {
        Ok(r) => r,
        Err(e) => panic!("{}", e.message()),
    };
    assert_eq!(handler.plugins[0].control_in_vals, vec![bits(0.1)]);
    assert_eq!(handler.plugins[2].control_in_vals, vec![bits(0.2)]);
    assert_eq!(chain.all_controls().get("wide").unwrap().get("gain"), Some(&bits(0.2)));
}

#[test]
fn plugins_without_controls_are_not_saved() {
    let config = ChainBuilder::new("c")
        .plugin(PluginBuilder::new("urn:stereo", "s").build())
        .build();
    let (mut chain, _) = start(&config);
    assert!(chain.stop().is_empty());
}

#[test]
fn audio_goes_from_slot_to_slot() {
    let (_, mut handler) = start(&rig());
    handler.load_input(0, &[1.0, 2.0, 3.0, 4.0], 4);
    handler.load_input(1, &[9.0, 9.0, 9.0, 9.0], 4);
    assert_eq!(&handler.plugins[0].audio_in_bufs[0][..5], &[1.0, 2.0, 3.0, 4.0, 0.0]);
    handler.plugins[0].audio_out_bufs[0][..4].copy_from_slice(&[5.0, 6.0, 7.0, 8.0]);
    handler.advance(1, 4, 0.0, &macc);
    // One output feeds the left side; the right side hears what was there.
    assert_eq!(&handler.plugins[1].audio_in_bufs[0][..4], &[5.0, 6.0, 7.0, 8.0]);
    assert_eq!(&handler.plugins[2].audio_in_bufs[0][..4], &[0.0; 4]);
    let mut out = [3.0f32; 6];
    handler.plugins[3].audio_out_bufs[0][..4].copy_from_slice(&[1.0, 2.0, 3.0, 4.0]);
    handler.write_output(0, &mut out, 4, false, 0.0, &macc);
    assert_eq!(out, [1.0, 2.0, 3.0, 4.0, 3.0, 3.0]);
    handler.write_output(0, &mut out, 4, true, 0.0, &macc);
    assert_eq!(out, [0.0, 0.0, 0.0, 0.0, 3.0, 3.0]);
    handler.write_output(1, &mut out, 6, false, 0.0, &macc);
    assert_eq!(out, [0.0; 6]);
}

#[test]
fn two_sides_stay_apart() {
    let config = ChainBuilder::new("c")
        .plugin(PluginBuilder::new("urn:amp", "a").dual_mono().build())
        .plugin(PluginBuilder::new("urn:stereo", "b").build())
        .plugin(PluginBuilder::new("urn:amp", "z").dual_mono().build())
        .build();
    let (_, mut handler) = start(&config);
    handler.load_input(0, &[1.0], 1);
    handler.load_input(1, &[2.0], 1);
    handler.load_input(2, &[3.0], 1);
    assert_eq!(handler.plugins[0].audio_in_bufs[0][0], 1.0);
    assert_eq!(handler.plugins[1].audio_in_bufs[0][0], 2.0);
    handler.plugins[0].audio_out_bufs[0][0] = 10.0;
    handler.plugins[1].audio_out_bufs[0][0] = 20.0;
    handler.advance(1, 1, 0.0, &macc);
    assert_eq!(handler.plugins[2].audio_in_bufs[0][0], 10.0);
    assert_eq!(handler.plugins[2].audio_in_bufs[1][0], 20.0);
    handler.plugins[2].audio_out_bufs[0][0] = 30.0;
    handler.plugins[2].audio_out_bufs[1][0] = 40.0;
    handler.advance(2, 1, 0.0, &macc);
    assert_eq!(handler.plugins[3].audio_in_bufs[0][0], 30.0);
    assert_eq!(handler.plugins[4].audio_in_bufs[0][0], 40.0);
    handler.plugins[3].audio_out_bufs[0][0] = 50.0;
    handler.plugins[4].audio_out_bufs[0][0] = 60.0;
    let mut out = [0.0f32];
    handler.write_output(0, &mut out, 1, false, 0.0, &macc);
    assert_eq!(out, [50.0]);
    handler.write_output(1, &mut out, 1, false, 0.0, &macc);
    assert_eq!(out, [60.0]);
    handler.write_output(2, &mut out, 1, false, 0.0, &macc);
    assert_eq!(out, [60.0]);
}

#[test]
fn mixes_sum_channels_with_their_gains() {
    let mix = vec![[bits(1.0), bits(0.5)], [bits(0.25), bits(2.0)]];
    let config = ChainBuilder::new("c")
        .plugin(PluginBuilder::new("urn:stereo", "a").stereo_mix(mix.clone()).build())
        .plugin(PluginBuilder::new("urn:stereo", "b").stereo_mix(mix[..1].to_vec()).build())
        .build();
    let (_, mut handler) = start(&config);
    handler.plugins[0].audio_out_bufs[0][..2].copy_from_slice(&[1.0, 2.0]);
    handler.plugins[0].audio_out_bufs[1][..2].copy_from_slice(&[4.0, 8.0]);
    handler.advance(1, 2, 0.0, &macc);
    assert_eq!(&handler.plugins[1].audio_in_bufs[0][..2], &[2.0, 4.0]);
    assert_eq!(&handler.plugins[1].audio_in_bufs[1][..2], &[8.5, 17.0]);
    handler.plugins[1].audio_out_bufs[0][..2].copy_from_slice(&[1.0, 2.0]);
    handler.plugins[1].audio_out_bufs[1][..2].copy_from_slice(&[100.0, 100.0]);
    let mut out = [7.0f32; 3];
    handler.write_output(0, &mut out, 2, false, 0.0, &macc);
    assert_eq!(out, [1.0, 2.0, 7.0]);
    handler.write_output(1, &mut out, 2, false, 0.0, &macc);
    assert_eq!(out, [0.5, 1.0, 7.0]);
    handler.write_output(2, &mut out, 2, false, 0.0, &macc);
    assert_eq!(out, [0.0, 0.0, 7.0]);
}

#[test]
fn mute_is_toggled() {
    let (mut chain, _) = start(&rig());
    assert!(chain.toggle_mute());
    assert!(chain.is_muted());
    assert!(!chain.toggle_mute());
    assert!(!chain.is_muted());
    chain.check_health();
    assert!(chain.is_running());
}

#[test]
fn chains_are_connected_port_by_port() {
    let stereo = ChainBuilder::new("s")
        .plugin(PluginBuilder::new("urn:stereo", "s").build())
        .build();
    let (mut from, _) = start(&stereo);
    let (to, _) = start(&rig());
    assert_eq!(
        from.connect_to(&to).unwrap(),
        vec![("bn:audio_out_1".to_string(), "bn:audio_in_1".to_string())]
    );
    from.stop();
    assert!(matches!(from.connect_to(&to), Err(Error::Config(s)) if s == "chain not active"));
    assert!(matches!(
        connect_error("a", "b", "no"),
        Error::Config(s) if s == "connect a → b: no"
    ));
    assert!(matches!(
        register_error(true, "x"),
        Error::Jack(s) if s == "register input port: x"
    ));
    assert!(matches!(
        register_error(false, "x"),
        Error::Jack(s) if s == "register output port: x"
    ));
    assert!(matches!(activate_error("x"), Error::Jack(s) if s == "JACK activate failed: x"));
}

#[test]
fn hardware_is_connected_where_asked() {
    let config = ChainBuilder::new("s")
        .plugin(PluginBuilder::new("urn:stereo", "s").build())
        .auto_connect_input()
        .build();
    let (chain, _) = start(&config);
    let physical = vec!["system:1".to_string()];
    assert_eq!(
        chain.auto_inputs(&physical),
        vec![("system:1".to_string(), "bn:audio_in_1".to_string())]
    );
    assert!(chain.auto_outputs(&physical).is_empty());
}

#[test]
fn windows_are_opened_once_and_then_presented() {
    let (mut chain, _) = start(&rig());
    let mut commands = UiCommands::new();
    chain.hide_all_ui(&mut commands).unwrap();
    assert!(commands.next().is_none());
    chain.show_ui(&mut commands, "amp").unwrap();
    assert!(commands.started);
    match commands.next() {
        Some(UiCommand::Show { info, notify_queue, plugin_idx, instance }) => {
            assert_eq!(info.plugin_name, "rig/amp");
            assert_eq!(info.bridge_name, "amp");
            assert_eq!(info.ui_bundle_path, "/lv2/amp.lv2/");
            assert_eq!(info.control_port_indices, vec![0]);
            assert_eq!((notify_queue, plugin_idx, instance), (5, 0, Some(0)));
        }
        _ => panic!("the window of the plugin is opened"),
    }
    chain.show_ui(&mut commands, "amp").unwrap();
    assert!(matches!(
        commands.next(),
        Some(UiCommand::Present { plugin_name }) if plugin_name == "rig/amp"
    ));
    assert!(matches!(
        chain.show_ui(&mut commands, "synth"),
        Err(Error::PluginNotFound { name }) if name == "synth"
    ));
    chain.show_ui(&mut commands, "wide").unwrap();
    match commands.next() {
        Some(UiCommand::ShowGeneric { info }) => {
            assert_eq!(info.plugin_name, "rig/wide");
            assert_eq!(info.control_ports.len(), 1);
        }
        _ => panic!("sliders are opened"),
    }
    chain.hide_ui(&mut commands, "amp").unwrap();
    assert!(matches!(
        commands.next(),
        Some(UiCommand::Hide { plugin_name }) if plugin_name == "rig/amp"
    ));
    chain.hide_all_ui(&mut commands).unwrap();
    assert_eq!(commands.waiting.len(), 3);
}

#[test]
fn all_windows_are_shown_together() {
    let (mut chain, _) = start(&rig());
    let mut commands = UiCommands::new();
    chain.show_all_ui(&mut commands).unwrap();
    assert_eq!(chain.ui_shown, vec!["rig/amp", "rig/wide"]);
    assert_eq!(commands.waiting.len(), 2);
    // Windows that were opened are shown again, not hidden.
    chain.show_all_ui(&mut commands).unwrap();
    assert_eq!(commands.waiting.len(), 4);
    assert!(matches!(
        &commands.waiting[2],
        UiCommand::Present { plugin_name } if plugin_name == "rig/amp"
    ));
    assert!(matches!(
        &commands.waiting[3],
        UiCommand::Present { plugin_name } if plugin_name == "rig/wide"
    ));
}

#[test]
fn all_windows_are_toggled_together() {
    let (mut chain, _) = start(&rig());
    let mut commands = UiCommands::new();
    chain.show_ui(&mut commands, "wide").unwrap();
    chain.toggle_all_ui(&mut commands).unwrap();
    assert_eq!(commands.waiting.len(), 3);
    assert!(matches!(
        &commands.waiting[1],
        UiCommand::Show { info, .. } if info.plugin_name == "rig/amp"
    ));
    assert!(matches!(
        &commands.waiting[2],
        UiCommand::Toggle { plugin_name } if plugin_name == "rig/wide"
    ));
}

#[test]
fn slots_run_in_their_order() {
    let mut stage = CycleStage::Fetch;
    let mut seen = Vec::new();
    while stage != CycleStage::Done {
        seen.push(stage);
        stage = stage.next(2);
    }
    assert_eq!(
        seen,
        vec![
            CycleStage::Fetch,
            CycleStage::Begin,
            CycleStage::Load,
            CycleStage::Run { slot: 0 },
            CycleStage::Advance { slot: 1 },
            CycleStage::Run { slot: 1 },
            CycleStage::Notify,
            CycleStage::Output,
        ]
    );
    assert_eq!(CycleStage::Done.next(2), CycleStage::Done);
}

#[test]
fn a_dual_mono_plugin_is_planned_twice() {
    let config = ChainBuilder::new("rig")
        .plugin(PluginBuilder::new("urn:amp", "amp").dual_mono().build())
        .plugin(PluginBuilder::new("urn:synth", "keys").build())
        .build();
    assert_eq!(
        plan_instances(&config.plugins),
        vec![(0, "amp".to_string()), (0, "amp_R".to_string()), (1, "keys".to_string())]
    );
}
