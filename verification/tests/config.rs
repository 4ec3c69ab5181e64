use broken_nest::config::{ChainBuilder, ChainConfig, PluginBuilder, PluginConfig};
use broken_nest::error::Error;
use broken_nest::names::NameMap;

#[test]
fn chain_builder_defaults() {
    let config = ChainBuilder::new("test").build();
    assert_eq!(config.name, "test");
    assert_eq!(config.jack_client_prefix, "bn");
    assert_eq!(config.buffer_size, None);
    assert!(!config.auto_connect_input);
    assert!(!config.auto_connect_output);
    assert!(config.plugins.is_empty());
}

#[test]
fn chain_builder_all_options() {
    let plugin = PluginBuilder::new("urn:test", "p1").build();
    let config = ChainBuilder::new("rig")
        .jack_client_prefix("myprefix")
        .buffer_size(256)
        .auto_connect_input()
        .auto_connect_output()
        .plugin(plugin)
        .build();

    assert_eq!(config.jack_client_prefix, "myprefix");
    assert_eq!(config.buffer_size, Some(256));
    assert!(config.auto_connect_input);
    assert!(config.auto_connect_output);
    assert_eq!(config.plugins.len(), 1);
}

#[test]
fn plugin_builder_defaults() {
    let plugin = PluginBuilder::new("urn:test", "comp").build();
    assert_eq!(plugin.uri, "urn:test");
    assert_eq!(plugin.name, "comp");
    assert!(plugin.midi_in.is_none());
}

#[test]
fn plugin_builder_all_options() {
    let plugin = PluginBuilder::new("urn:synth", "synth1")
        .midi_in(true)
        .build();

    assert_eq!(plugin.midi_in, Some(true));
}

#[test]
fn chain_builder_multiple_plugins() {
    let config = ChainBuilder::new("chain")
        .plugin(PluginBuilder::new("urn:a", "a").build())
        .plugin(PluginBuilder::new("urn:b", "b").build())
        .plugin(PluginBuilder::new("urn:c", "c").build())
        .build();
    assert_eq!(config.plugins.len(), 3);
    assert_eq!(config.plugins[0].name, "a");
    assert_eq!(config.plugins[1].name, "b");
    assert_eq!(config.plugins[2].name, "c");
}

#[test]
fn plugin_builder_sets_each_option() {
    let half = 0.5f32.to_bits();
    let plugin = PluginBuilder::new("urn:x", "x")
        .generic_ui()
        .dual_mono()
        .stereo_mix(vec![[half, 0]])
        .build();
    assert!(plugin.generic_ui);
    assert!(plugin.dual_mono);
    assert_eq!(plugin.stereo_mix, Some(vec![[half, 0]]));
    assert_eq!(plugin.midi_in, None);
}

#[test]
fn struct_update_fills_in_defaults() {
    let config = ChainConfig {
        plugins: vec![PluginConfig {
            uri: "http://calf.sourceforge.net/plugins/Compressor".into(),
            name: "comp".into(),
            ..Default::default()
        }],
        auto_connect_output: true,
        ..Default::default()
    };
    assert_eq!(config.jack_client_prefix, "bn");
    assert_eq!(config.plugins[0].name, "comp");
    assert!(!config.plugins[0].dual_mono);
    let copy = config.clone();
    assert_eq!(copy.plugins.len(), 1);
    assert_eq!(copy.plugins[0].uri, config.plugins[0].uri);
    assert!(copy.auto_connect_output);
}

#[test]
fn error_messages() {
    let cases = vec![
        (
            Error::PluginNotFound { name: "a".into() },
            "plugin 'a' not found in chain",
        ),
        (Error::Wiring("x".into()), "port wiring failed: x"),
        (Error::Config("y".into()), "config error: y"),
        (
            Error::AmbiguousMidi { count: 12 },
            "expected exactly one MIDI plugin, found 12",
        ),
        (
            Error::StateIo { name: "p".into(), source: "gone".into() },
            "state I/O error for plugin 'p': gone",
        ),
        (
            Error::Lv2PluginNotFound { uri: "urn:u".into() },
            "LV2 plugin not found: urn:u",
        ),
        (
            Error::Lv2Instantiation {
                name: "n".into(),
                uri: "urn:u".into(),
                reason: "r".into(),
            },
            "failed to instantiate LV2 plugin 'n' (urn:u): r",
        ),
        (Error::Jack("z".into()), "JACK error: z"),
        (
            Error::ControlPortNotFound { name: "n".into(), port: "p".into() },
            "control port 'p' not found on plugin 'n'",
        ),
    ];
    for (error, text) in cases {
        assert_eq!(error.message(), text);
    }
}

#[test]
fn name_map_keeps_order_and_last_value() {
    let mut m: NameMap<u32> = NameMap::new();
    m.insert("b".into(), 1);
    m.insert("a".into(), 2);
    m.insert("b".into(), 3);
    assert_eq!(m.len(), 2);
    assert_eq!(m.get("b"), Some(&3));
    assert_eq!(m.key_at(0), "b");
    assert_eq!(m.key_at(1), "a");
    *m.get_mut("a").unwrap() = 9;
    assert_eq!(*m.value_at(1), 9);
    assert_eq!(m.remove("b"), Some(3));
    assert_eq!(m.remove("b"), None);
    assert!(!m.contains_key("b"));
    assert!(m.get_mut("b").is_none());
    m.clear();
    assert_eq!(m.len(), 0);
}
