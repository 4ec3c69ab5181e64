use broken_nest::bridge::{ControlBridge, PluginControlBridge};
use broken_nest::features::FeatureSet;
use broken_nest::names::NameMap;
use broken_nest::plugin::ControlPortMeta;
use broken_nest::process::AtomUiEvent;
use broken_nest::ui::{
    discover_ui, generic_title, port_index, port_write, sliders, toggle_action, ui_features,
    ui_hide, ui_show, ui_show_generic, ui_shutdown, ui_toggle, uri_to_path, GenericUiInfo, LiveUi,
    PluginUiInfo, PortWrite, Release, ShowStage, UiAction, UiCommand, UiCommands, UiThreadState,
    NO_PORT,
};
use broken_nest::world::{PluginDesc, UiDesc, World};

fn ui(uri: &str, gtk: bool, x11: bool, gtk3: bool) -> UiDesc {
    UiDesc {
        uri: Some(uri.to_string()),
        bundle_uri: Some("file:///b/".to_string()),
        binary_uri: Some("/b/ui.so".to_string()),
        is_gtk: gtk,
        is_x11: x11,
        is_gtk3: gtk3,
    }
}

fn world(uis: Option<Vec<UiDesc>>) -> World {
    World {
        plugins: vec![PluginDesc {
            uri: "urn:p".to_string(),
            ports: vec![],
            ranges: vec![],
            features: vec![],
            uis,
        }],
    }
}

fn discover(uis: Option<Vec<UiDesc>>) -> Option<PluginUiInfo> {
    let ports = vec![("a".to_string(), 1), ("b".to_string(), 2), ("a".to_string(), 3)];
    discover_ui(&world(uis), "urn:p", "rig/amp", &ports, &vec![2, 3])
}

fn info() -> PluginUiInfo {
    discover(Some(vec![ui("urn:ui", true, false, false)])).unwrap()
}

fn generic(name: &str) -> GenericUiInfo {
    GenericUiInfo {
        plugin_name: name.to_string(),
        bridge_name: "amp".to_string(),
        control_ports: vec![
            ControlPortMeta { symbol: "x".to_string(), port_index: 0, min: 1, max: 2, default: 3 },
            ControlPortMeta { symbol: "y".to_string(), port_index: 1, min: 4, max: 5, default: 6 },
        ],
        port_symbol_to_index: NameMap::new(),
        control_port_indices: vec![],
    }
}

#[test]
fn best_window_is_found() {
    let found = discover(Some(vec![
        ui("urn:gtk3", false, false, true),
        ui("urn:x11", false, true, false),
        ui("urn:x11b", false, true, true),
    ]))
    .unwrap();
    assert_eq!(found.ui_uri, "urn:x11");
    assert_eq!(found.ui_type_uri, "http://lv2plug.in/ns/extensions/ui#X11UI");
    assert_eq!(found.plugin_name, "rig/amp");
    assert_eq!(found.bridge_name, "amp");
    assert_eq!(found.plugin_uri, "urn:p");
    assert_eq!(found.ui_bundle_path, "/b/");
    assert_eq!(found.ui_binary_path, "/b/ui.so");
    assert_eq!(found.control_port_indices, vec![2, 3]);
    let gtk = discover(Some(vec![
        ui("urn:x11", false, true, false),
        ui("urn:gtk", true, true, false),
    ]))
    .unwrap();
    assert_eq!(gtk.ui_uri, "urn:gtk");
    assert_eq!(gtk.ui_type_uri, "http://lv2plug.in/ns/extensions/ui#GtkUI");
}

#[test]
fn windows_that_cannot_be_opened_are_not_found() {
    assert!(discover(None).is_none());
    assert!(discover(Some(vec![])).is_none());
    assert!(discover(Some(vec![ui("urn:qt", false, false, false)])).is_none());
    let mut bad = ui("urn:ui", true, false, false);
    bad.binary_uri = None;
    // The best one counts, even where another could be opened.
    assert!(discover(Some(vec![bad, ui("urn:x11", false, true, false)])).is_none());
    assert!(discover(Some(vec![ui("urn:\0", true, false, false)])).is_none());
    let w = world(Some(vec![ui("urn:ui", true, false, false)]));
    assert!(discover_ui(&w, "urn:other", "n", &vec![], &vec![]).is_none());
}

#[test]
fn file_uris_become_paths() {
    assert_eq!(uri_to_path("file:///usr/lib"), Some("/usr/lib".to_string()));
    assert_eq!(uri_to_path("/usr/lib"), Some("/usr/lib".to_string()));
    assert_eq!(uri_to_path("file:/x"), Some("file:/x".to_string()));
}

#[test]
fn ports_are_found_by_symbol() {
    let info = info();
    assert_eq!(port_index(&info, Some("a")), 3);
    assert_eq!(port_index(&info, Some("b")), 2);
    assert_eq!(port_index(&info, Some("c")), NO_PORT);
    assert_eq!(port_index(&info, None), u32::MAX);
}

#[test]
fn window_messages_are_told_apart() {
    let info = info();
    let value = 0.25f32.to_ne_bytes();
    match port_write(&info, 4, 3, 0, &value) {
        PortWrite::Control { index, value } => {
            assert_eq!(index, 1);
            assert_eq!(value, 0.25f32.to_bits());
        }
        _ => panic!("a control is set"),
    }
    assert!(matches!(port_write(&info, 4, 9, 0, &value), PortWrite::Ignore));
    assert!(matches!(port_write(&info, 4, 3, 0, &[1, 2, 3]), PortWrite::Ignore));
    assert!(matches!(port_write(&info, 4, 3, 7, &[]), PortWrite::Ignore));
    match port_write(&info, 4, 3, 7, &[1, 2]) {
        PortWrite::Event(e) => {
            assert_eq!((e.plugin_idx, e.port_index, e.protocol), (4, 3, 7));
            assert_eq!(e.data, vec![1, 2]);
        }
        _ => panic!("an atom is sent"),
    }
}

#[test]
fn windows_are_offered_features() {
    let fs = FeatureSet::new(48000, 64);
    assert_eq!(ui_features(&fs, false).len(), 7);
    let with = ui_features(&fs, true);
    assert_eq!(with.len(), 8);
    assert_eq!(with[6], "http://lv2plug.in/ns/ext/instance-access");
    assert_eq!(with[7], "http://lv2plug.in/ns/extensions/ui#resize");
}

#[test]
fn sliders_start_at_the_current_value() {
    let bridge = ControlBridge {
        plugins: vec![PluginControlBridge {
            name: "amp".to_string(),
            symbol_to_idx: NameMap::new(),
            symbols: vec!["x".to_string()],
            values: vec![77],
        }],
    };
    let made = sliders(&generic("rig/amp"), &bridge);
    assert_eq!(made.len(), 2);
    assert_eq!((made[0].min, made[0].max, made[0].initial), (1, 2, 77));
    assert_eq!((made[1].min, made[1].max, made[1].initial), (4, 5, 6));
    assert_eq!((made[1].label.as_str(), made[1].bridge_index), ("y", 1));
    assert_eq!(generic_title(&generic("rig/amp")), "rig/amp (generic)");
}

#[test]
fn commands_wait_for_the_first_window() {
    let mut commands = UiCommands::new();
    ui_toggle(&mut commands, "a");
    ui_hide(&mut commands, "a");
    ui_shutdown(&mut commands);
    assert!(commands.next().is_none());
    ui_show(&mut commands, info(), 1, 2, Some(2));
    ui_toggle(&mut commands, "a");
    ui_hide(&mut commands, "b");
    ui_show_generic(&mut commands, generic("g"));
    ui_shutdown(&mut commands);
    assert!(matches!(
        commands.next(),
        Some(UiCommand::Show { notify_queue: 1, plugin_idx: 2, instance: Some(2), .. })
    ));
    assert!(matches!(
        commands.next(),
        Some(UiCommand::Toggle { plugin_name }) if plugin_name == "a"
    ));
    assert!(matches!(
        commands.next(),
        Some(UiCommand::Hide { plugin_name }) if plugin_name == "b"
    ));
    assert!(matches!(commands.next(), Some(UiCommand::ShowGeneric { .. })));
    assert!(matches!(commands.next(), Some(UiCommand::Shutdown)));
    assert!(commands.next().is_none());
}

fn native(window: usize, plugin_idx: usize, has_idle: bool) -> LiveUi {
    LiveUi::Native { host: 100 + window, instance: 200 + window, window, has_idle, plugin_idx }
}

fn show(notify_queue: usize) -> UiCommand {
    UiCommand::Show { info: info(), notify_queue, plugin_idx: 3, instance: None }
}

#[test]
fn windows_open_once() {
    let mut state = UiThreadState::new();
    assert!(matches!(
        state.command(show(8)),
        UiAction::OpenNative { plugin_idx: 3, instance: None, .. }
    ));
    assert_eq!(state.notify_queue, Some(8));
    state.opened("rig/amp", native(1, 3, true));
    assert!(matches!(state.command(show(9)), UiAction::Present { window: 1 }));
    // The first queue stays.
    assert_eq!(state.notify_queue, Some(8));
    let open = UiCommand::ShowGeneric { info: generic("g") };
    assert!(matches!(state.command(open), UiAction::OpenGeneric { .. }));
    state.opened("g", LiveUi::Generic { window: 2 });
    let again = UiCommand::ShowGeneric { info: generic("g") };
    assert!(matches!(state.command(again), UiAction::Present { window: 2 }));
    let present = UiCommand::Present { plugin_name: "g".to_string() };
    assert!(matches!(state.command(present), UiAction::Present { window: 2 }));
    let present = UiCommand::Present { plugin_name: "nope".to_string() };
    assert!(matches!(state.command(present), UiAction::Nothing));
    assert!(matches!(toggle_action(2, true), UiAction::Hide { window: 2 }));
    assert!(matches!(toggle_action(2, false), UiAction::Present { window: 2 }));
    let toggle = UiCommand::Toggle { plugin_name: "g".to_string() };
    assert!(matches!(state.command(toggle), UiAction::Toggle { window: 2 }));
    let hide = UiCommand::Hide { plugin_name: "nope".to_string() };
    assert!(matches!(state.command(hide), UiAction::Nothing));
    let hide = UiCommand::Hide { plugin_name: "rig/amp".to_string() };
    assert!(matches!(state.command(hide), UiAction::Hide { window: 1 }));
}

#[test]
fn the_end_gives_up_all_windows() {
    let mut state = UiThreadState::new();
    state.opened("a", native(1, 0, false));
    state.opened("b", LiveUi::Generic { window: 2 });
    match state.command(UiCommand::Shutdown) {
        UiAction::Quit { releases } => assert_eq!(
            releases,
            vec![
                Release::DestroyWindow(1),
                Release::FreeInstance(201),
                Release::FreeHost(101),
                Release::DestroyWindow(2),
            ]
        ),
        _ => panic!("the thread ends"),
    }
    assert!(!state.running);
    assert_eq!(state.live_uis.len(), 0);
}

#[test]
fn events_go_to_visible_windows_of_their_plugin() {
    let mut state = UiThreadState::new();
    state.opened("a", native(1, 0, true));
    state.opened("b", native(2, 5, true));
    state.opened("c", LiveUi::Generic { window: 3 });
    state.opened("d", native(4, 0, false));
    let event = |plugin_idx| AtomUiEvent { plugin_idx, port_index: 0, protocol: 6, data: vec![] };
    let events = vec![event(0), event(5), event(9)];
    let routed = state.route_notices(&events, &vec![true, false, true, true]);
    assert_eq!(routed, vec![(201, 0), (204, 0)]);
    assert_eq!(
        state.route_notices(&events, &vec![false, true, true, true]),
        vec![(204, 0), (202, 1)]
    );
    assert_eq!(state.idle_windows(&vec![true, false, true, true]), vec![0]);
    assert_eq!(state.idle_windows(&vec![true, true, true, true]), vec![0, 1]);
}

#[test]
fn a_window_that_fails_gives_up_what_it_held() {
    let (stage, none) = ShowStage::NeedHost.next(None);
    assert_eq!((stage, none), (ShowStage::Failed, vec![]));
    let (stage, _) = ShowStage::NeedHost.next(Some(1));
    assert_eq!(stage.next(None), (ShowStage::Failed, vec![Release::FreeHost(1)]));
    let (stage, _) = stage.next(Some(2));
    assert_eq!(
        stage.next(None),
        (ShowStage::Failed, vec![Release::FreeInstance(2), Release::FreeHost(1)])
    );
    let (stage, none) = stage.next(Some(3));
    assert_eq!(stage, ShowStage::Ready { host: 1, instance: 2, widget: 3 });
    assert!(none.is_empty());
}
