//! Windows of plugins: which one a plugin has, what it may do to the chain, and
//! which windows are open.
use vstd::prelude::*;

use crate::bridge::ControlBridge;
use crate::bytes;
use crate::features::FeatureSet;
use crate::names;
use crate::names::NameMap;
use crate::plugin;
use crate::plugin::ControlPortMeta;
use crate::process::AtomUiEvent;
use crate::text;
use crate::world::{UiDesc, World};

verus! {

pub const LV2_UI_GTK_URI: &'static str = "http://lv2plug.in/ns/extensions/ui#GtkUI";

pub const LV2_UI_GTK3_URI: &'static str = "http://lv2plug.in/ns/extensions/ui#Gtk3UI";

pub const LV2_UI_X11_URI: &'static str = "http://lv2plug.in/ns/extensions/ui#X11UI";

pub const LV2_INSTANCE_ACCESS_URI: &'static str = "http://lv2plug.in/ns/ext/instance-access";

pub const LV2_UI_RESIZE_URI: &'static str = "http://lv2plug.in/ns/extensions/ui#resize";

pub const LV2_UI_IDLE_INTERFACE_URI: &'static str = "http://lv2plug.in/ns/extensions/ui#idleInterface";

/// What is needed to open the window that a plugin brings along.
#[derive(Debug)]
pub struct PluginUiInfo {
    pub plugin_name: String,
    pub bridge_name: String,
    pub plugin_uri: String,
    pub ui_uri: String,
    pub ui_type_uri: String,
    pub ui_bundle_path: String,
    pub ui_binary_path: String,
    pub port_symbol_to_index: NameMap<u32>,
    pub control_port_indices: Vec<u32>,
}

/// The same with texts as sequences.
pub ghost struct PluginUiInfoView {
    pub plugin_name: Seq<char>,
    pub bridge_name: Seq<char>,
    pub plugin_uri: Seq<char>,
    pub ui_uri: Seq<char>,
    pub ui_type_uri: Seq<char>,
    pub ui_bundle_path: Seq<char>,
    pub ui_binary_path: Seq<char>,
    pub port_symbol_to_index: Map<Seq<char>, u32>,
    pub control_port_indices: Seq<u32>,
}

impl View for PluginUiInfo {
    type V = PluginUiInfoView;

    open spec fn view(&self) -> PluginUiInfoView {
        PluginUiInfoView {
            plugin_name: self.plugin_name@,
            bridge_name: self.bridge_name@,
            plugin_uri: self.plugin_uri@,
            ui_uri: self.ui_uri@,
            ui_type_uri: self.ui_type_uri@,
            ui_bundle_path: self.ui_bundle_path@,
            ui_binary_path: self.ui_binary_path@,
            port_symbol_to_index: self.port_symbol_to_index@,
            control_port_indices: self.control_port_indices@,
        }
    }
}

/// What is needed to open a window of sliders.
#[derive(Debug)]
pub struct GenericUiInfo {
    pub plugin_name: String,
    pub bridge_name: String,
    pub control_ports: Vec<ControlPortMeta>,
    pub port_symbol_to_index: NameMap<u32>,
    pub control_port_indices: Vec<u32>,
}

/// How well a window suits: the toolkit of the host itself before one that can
/// be wrapped, before one that cannot.
pub open spec fn rank(ui: UiDesc) -> int {
    if ui.is_gtk {
        3
    } else if ui.is_x11 {
        2
    } else if ui.is_gtk3 {
        1
    } else {
        0
    }
}

/// The toolkit of a window.
pub open spec fn toolkit(ui: UiDesc) -> Seq<char> {
    if ui.is_gtk {
        LV2_UI_GTK_URI@
    } else if ui.is_x11 {
        LV2_UI_X11_URI@
    } else {
        LV2_UI_GTK3_URI@
    }
}

/// Whether the window `i` is the first of those that suit best.
pub open spec fn is_best(uis: Seq<UiDesc>, i: int) -> bool {
    &&& 0 <= i < uis.len()
    &&& rank(uis[i]) > 0
    &&& forall|j: int| 0 <= j < uis.len() ==> rank(#[trigger] uis[j]) <= rank(uis[i])
    &&& forall|j: int| 0 <= j < i ==> rank(#[trigger] uis[j]) < rank(uis[i])
}

/// The first of the windows that suit best, where any suits.
pub open spec fn best_of(uis: Seq<UiDesc>) -> Option<int> {
    if exists|i: int| is_best(uis, i) {
        Some(choose|i: int| is_best(uis, i))
    } else {
        None
    }
}

/// No two windows are the first of those that suit best.
pub proof fn best_is_unique(uis: Seq<UiDesc>, i: int, j: int)
    requires
        is_best(uis, i),
        is_best(uis, j),
    ensures
        i == j,
{
    if i < j {
        assert(rank(uis[i]) < rank(uis[j]));
    }
    if j < i {
        assert(rank(uis[j]) < rank(uis[i]));
    }
}

/// The path of a file URI; anything else is taken as a path.
pub open spec fn path_of(uri: Seq<char>) -> Seq<char> {
    if "file://"@.is_prefix_of(uri) {
        uri.skip("file://"@.len() as int)
    } else {
        uri
    }
}

/// Whether a text can be handed to C.
pub open spec fn is_c_text(s: Seq<char>) -> bool {
    !s.contains('\0')
}

/// What is needed to open the window `ui`, where all of it can be had.
pub open spec fn info_of_ui(
    ui: UiDesc,
    plugin_uri: Seq<char>,
    plugin_name: Seq<char>,
    symbols: Map<Seq<char>, u32>,
    control_port_indices: Seq<u32>,
) -> Option<PluginUiInfoView> {
    match (ui.uri, ui.bundle_uri, ui.binary_uri) {
        (Some(uri), Some(bundle), Some(binary)) => {
            let texts_ok = is_c_text(plugin_uri) && is_c_text(uri@) && is_c_text(path_of(bundle@))
                && is_c_text(path_of(binary@));
            if texts_ok {
                Some(
                    PluginUiInfoView {
                        plugin_name,
                        bridge_name: text::after_last(plugin_name, '/'),
                        plugin_uri,
                        ui_uri: uri@,
                        ui_type_uri: toolkit(ui),
                        ui_bundle_path: path_of(bundle@),
                        ui_binary_path: path_of(binary@),
                        port_symbol_to_index: symbols,
                        control_port_indices,
                    },
                )
            } else {
                None
            }
        },
        _ => None,
    }
}

/// The windows of a plugin; none where it is not installed.
pub open spec fn uis_of(world: World, uri: Seq<char>) -> Seq<UiDesc> {
    if world.has(uri) {
        match world.plugin_of(uri).uis {
            Some(uis) => uis@,
            None => Seq::empty(),
        }
    } else {
        Seq::empty()
    }
}

/// What is needed to open the window of a plugin, where it has one.
pub open spec fn found_ui(
    world: World,
    plugin_uri: Seq<char>,
    plugin_name: Seq<char>,
    symbols: Map<Seq<char>, u32>,
    control_port_indices: Seq<u32>,
) -> Option<PluginUiInfoView> {
    let uis = uis_of(world, plugin_uri);
    match best_of(uis) {
        Some(i) => info_of_ui(uis[i], plugin_uri, plugin_name, symbols, control_port_indices),
        None => None,
    }
}

/// The symbols of ports with their indices.
pub open spec fn symbols_of(port_infos: Seq<(String, u32)>) -> Map<Seq<char>, u32> {
    names::collected(
        port_infos.map_values(|p: (String, u32)| p.0@),
        port_infos.map_values(|p: (String, u32)| p.1),
    )
}

/// The path of a file URI.
pub fn uri_to_path(uri: &str) -> (r: Option<String>)
    ensures
        r is Some,
        r->0@ == path_of(uri@),
{
    match text::strip_prefix(uri, "file://") {
        Some(rest) => Some(rest.to_owned()),
        None => Some(uri.to_owned()),
    }
}

/// How well a window suits.
fn suits(ui: &UiDesc) -> (r: u8)
    ensures
        r == rank(*ui),
{
    if ui.is_gtk {
        3
    } else if ui.is_x11 {
        2
    } else if ui.is_gtk3 {
        1
    } else {
        0
    }
}

/// The first of the windows that suit best.
fn best_ui(uis: &Vec<UiDesc>) -> (r: Option<usize>)
    ensures
        match r {
            Some(i) => is_best(uis@, i as int),
            None => forall|i: int| !is_best(uis@, i),
        },
{
    let mut best: Option<usize> = None;
    let mut best_priority: u8 = 0;
    let mut i: usize = 0;
    while i < uis.len()
        invariant
            i <= uis@.len(),
            match best {
                Some(b) => {
                    &&& b < i
                    &&& best_priority == rank(uis@[b as int])
                    &&& best_priority > 0
                    &&& forall|j: int|
                        0 <= j < b ==> rank(#[trigger] uis@[j]) < best_priority
                },
                None => best_priority == 0,
            },
            forall|j: int| 0 <= j < i ==> rank(#[trigger] uis@[j]) <= best_priority,
        decreases uis@.len() - i,
    {
        let priority: u8 = suits(&uis[i]);
        if priority > best_priority {
            best = Some(i);
            best_priority = priority;
        }
        i += 1;
    }
    best
}

/// The symbols of ports with their indices.
pub fn collect_symbols(port_infos: &Vec<(String, u32)>) -> (r: NameMap<u32>)
    ensures
        r.wf(),
        r@ == symbols_of(port_infos@),
{
    let mut r: NameMap<u32> = NameMap::new();
    let ghost keys = port_infos@.map_values(|p: (String, u32)| p.0@);
    let ghost values = port_infos@.map_values(|p: (String, u32)| p.1);
    let mut i: usize = 0;
    proof {
        assert(keys.take(0) =~= Seq::empty());
        assert(values.take(0) =~= Seq::empty());
        names::collected_none::<u32>();
    }
    while i < port_infos.len()
        invariant
            keys == port_infos@.map_values(|p: (String, u32)| p.0@),
            values == port_infos@.map_values(|p: (String, u32)| p.1),
            i <= port_infos@.len(),
            r.wf(),
            r@ == names::collected(keys.take(i as int), values.take(i as int)),
        decreases port_infos@.len() - i,
    {
        r.insert(port_infos[i].0.clone(), port_infos[i].1);
        proof {
            assert(keys.take(i + 1) =~= keys.take(i as int).push(keys[i as int]));
            assert(values.take(i + 1) =~= values.take(i as int).push(values[i as int]));
            names::collected_push(
                keys.take(i as int),
                values.take(i as int),
                keys[i as int],
                values[i as int],
            );
        }
        i += 1;
    }
    assert(keys.take(i as int) =~= keys);
    assert(values.take(i as int) =~= values);
    r
}

/// A copy of numbers.
pub fn copy_numbers(v: &Vec<u32>) -> (r: Vec<u32>)
    ensures
        r@ == v@,
{
    let mut r: Vec<u32> = Vec::new();
    r.extend_from_slice(v.as_slice());
    assert(r@ =~= v@);
    r
}

/// Finds the window that a plugin brings along: the first of those that suit
/// best, where all that is needed to open it can be had.
pub fn discover_ui(
    world: &World,
    plugin_uri: &str,
    plugin_name: &str,
    port_infos: &Vec<(String, u32)>,
    control_port_indices: &Vec<u32>,
) -> (r: Option<PluginUiInfo>)
    ensures
        match r {
            Some(info) => {
                &&& info.port_symbol_to_index.wf()
                &&& found_ui(
                    *world,
                    plugin_uri@,
                    plugin_name@,
                    symbols_of(port_infos@),
                    control_port_indices@,
                ) == Some(info@)
            },
            None => found_ui(
                *world,
                plugin_uri@,
                plugin_name@,
                symbols_of(port_infos@),
                control_port_indices@,
            ) is None,
        },
{
    let desc = match world.plugin(plugin_uri) {
        Some(desc) => desc,
        None => {
            return None;
        },
    };
    let uis = match &desc.uis {
        Some(uis) => uis,
        None => {
            return None;
        },
    };
    assert(uis@ == uis_of(*world, plugin_uri@));
    let best: usize = match best_ui(uis) {
        Some(i) => i,
        None => {
            return None;
        },
    };
    proof {
        best_is_unique(uis@, best as int, choose|i: int| is_best(uis@, i));
    }
    let ui = &uis[best];
    match (&ui.uri, &ui.bundle_uri, &ui.binary_uri) {
        (Some(uri), Some(bundle), Some(binary)) => {
            let bundle_path = match uri_to_path(bundle.as_str()) {
                Some(p) => p,
                None => {
                    return None;
                },
            };
            let binary_path = match uri_to_path(binary.as_str()) {
                Some(p) => p,
                None => {
                    return None;
                },
            };
            if text::has_char(plugin_uri, '\0') || text::has_char(uri.as_str(), '\0')
                || text::has_char(bundle_path.as_str(), '\0') || text::has_char(
                binary_path.as_str(),
                '\0',
            ) {
                return None;
            }
            let ui_type = if ui.is_gtk {
                LV2_UI_GTK_URI
            } else if ui.is_x11 {
                LV2_UI_X11_URI
            } else {
                LV2_UI_GTK3_URI
            };
            Some(
                PluginUiInfo {
                    plugin_name: plugin_name.to_owned(),
                    bridge_name: text::last_part(plugin_name, '/').to_owned(),
                    plugin_uri: plugin_uri.to_owned(),
                    ui_uri: uri.clone(),
                    ui_type_uri: ui_type.to_owned(),
                    ui_bundle_path: bundle_path,
                    ui_binary_path: binary_path,
                    port_symbol_to_index: collect_symbols(port_infos),
                    control_port_indices: copy_numbers(control_port_indices),
                },
            )
        },
        _ => None,
    }
}

/// What a window's message to a port comes to.
#[derive(Debug)]
pub enum PortWrite {
    /// The control at that place of the plugin's bridge gets a value.
    Control { index: usize, value: u32 },
    /// The plugin gets an atom.
    Event(AtomUiEvent),
    Ignore,
}

/// The place of the first control of that port.
pub open spec fn control_place(indices: Seq<u32>, port_index: u32) -> Option<int> {
    indices.index_of_first(port_index)
}

/// Decides on a window's message to a port. A control value is four bytes with
/// the protocol zero; with another protocol any bytes are an atom.
pub fn port_write(
    info: &PluginUiInfo,
    plugin_idx: usize,
    port_index: u32,
    protocol: u32,
    data: &[u8],
) -> (r: PortWrite)
    ensures
        if protocol == 0 && data@.len() == 4 {
            match control_place(info.control_port_indices@, port_index) {
                Some(i) => r == (PortWrite::Control {
                    index: i as usize,
                    value: bytes::native32_value(data@),
                }),
                None => r is Ignore,
            }
        } else if protocol != 0 && data@.len() > 0 {
            &&& r matches PortWrite::Event(e)
            &&& e.plugin_idx == plugin_idx
            &&& e.port_index == port_index
            &&& e.protocol == protocol
            &&& e.data@ == data@
        } else {
            r is Ignore
        },
{
    if protocol == 0 && data.len() == 4 {
        let value_bytes: [u8; 4] = [data[0], data[1], data[2], data[3]];
        assert(value_bytes@ =~= data@);
        let value: u32 = bytes::from_native32(value_bytes);
        let indices = &info.control_port_indices;
        let mut i: usize = 0;
        while i < indices.len()
            invariant
                protocol == 0 && data@.len() == 4,
                value == bytes::native32_value(data@),
                indices@ == info.control_port_indices@,
                i <= indices@.len(),
                forall|k: int| 0 <= k < i ==> indices@[k] != port_index,
            decreases indices@.len() - i,
        {
            if indices[i] == port_index {
                proof {
                    indices@.index_of_first_ensures(port_index);
                }
                return PortWrite::Control { index: i, value };
            }
            i += 1;
        }
        proof {
            indices@.index_of_first_ensures(port_index);
        }
        PortWrite::Ignore
    } else if protocol != 0 && data.len() > 0 {
        PortWrite::Event(
            AtomUiEvent {
                plugin_idx,
                port_index: port_index as usize,
                protocol,
                data: vstd::slice::slice_to_vec(data),
            },
        )
    } else {
        PortWrite::Ignore
    }
}

/// The number that stands for no port.
pub const NO_PORT: u32 = 0xffff_ffff;

/// The index of the port of that symbol. A symbol that is no text is `None`.
pub fn port_index(info: &PluginUiInfo, symbol: Option<&str>) -> (r: u32)
    requires
        info.port_symbol_to_index.wf(),
    ensures
        r == match symbol {
            Some(s) => if info.port_symbol_to_index@.contains_key(s@) {
                info.port_symbol_to_index@[s@]
            } else {
                NO_PORT
            },
            None => NO_PORT,
        },
{
    match symbol {
        Some(s) => match info.port_symbol_to_index.get(s) {
            Some(i) => *i,
            None => NO_PORT,
        },
        None => NO_PORT,
    }
}

/// The URIs of the features that a window is offered: those of its plugin, the
/// instance itself where there is one, and a way to resize.
pub open spec fn window_features(base: Seq<Seq<char>>, has_instance: bool) -> Seq<Seq<char>> {
    if has_instance {
        base.push(LV2_INSTANCE_ACCESS_URI@).push(LV2_UI_RESIZE_URI@)
    } else {
        base.push(LV2_UI_RESIZE_URI@)
    }
}

/// The URIs of the features that a window is offered.
pub fn ui_features(feature_set: &FeatureSet, has_instance: bool) -> (r: Vec<String>)
    ensures
        text::texts(r@) == window_features(
            feature_set.features@.map_values(|f: crate::features::Feature| f.uri@),
            has_instance,
        ),
{
    let mut r: Vec<String> = Vec::new();
    let ghost base = feature_set.features@.map_values(|f: crate::features::Feature| f.uri@);
    let mut i: usize = 0;
    while i < feature_set.features.len()
        invariant
            i <= feature_set.features@.len(),
            r@.len() == i,
            forall|k: int| 0 <= k < i ==> (#[trigger] r@[k])@ == feature_set.features@[k].uri@,
        decreases feature_set.features@.len() - i,
    {
        r.push(feature_set.features[i].uri.clone());
        i += 1;
    }
    assert(text::texts(r@) =~= base);
    if has_instance {
        r.push(LV2_INSTANCE_ACCESS_URI.to_owned());
        assert(text::texts(r@) =~= base.push(LV2_INSTANCE_ACCESS_URI@));
    }
    let ghost before = text::texts(r@);
    r.push(LV2_UI_RESIZE_URI.to_owned());
    assert(text::texts(r@) =~= before.push(LV2_UI_RESIZE_URI@));
    r
}

/// A slider for a control: the numbers are the bits of IEEE singles.
#[derive(Debug)]
pub struct Slider {
    pub label: String,
    pub min: u32,
    pub max: u32,
    pub initial: u32,
    /// The place of the control in the plugin's bridge.
    pub bridge_index: usize,
}

/// The value that a slider starts at: that of the bridge, else the default.
pub open spec fn slider_start(
    bridge: ControlBridge,
    bridge_name: Seq<char>,
    i: int,
    default: u32,
) -> u32 {
    match bridge.names().index_of_first(bridge_name) {
        Some(p) => if i < bridge.plugins@[p].values@.len() {
            bridge.plugins@[p].values@[i]
        } else {
            default
        },
        None => default,
    }
}

/// The title of a window of sliders.
pub fn generic_title(info: &GenericUiInfo) -> (r: String)
    ensures
        r@ == info.plugin_name@ + " (generic)"@,
{
    text::join(info.plugin_name.as_str(), " (generic)")
}

/// The sliders of a window: one for each control, in their order.
pub fn sliders(info: &GenericUiInfo, bridge: &ControlBridge) -> (r: Vec<Slider>)
    ensures
        r@.len() == info.control_ports@.len(),
        forall|i: int|
            0 <= i < r@.len() ==> {
                &&& (#[trigger] r@[i]).label@ == info.control_ports@[i].symbol@
                &&& r@[i].min == info.control_ports@[i].min
                &&& r@[i].max == info.control_ports@[i].max
                &&& r@[i].initial == slider_start(
                    *bridge,
                    info.bridge_name@,
                    i,
                    info.control_ports@[i].default,
                )
                &&& r@[i].bridge_index == i
            },
{
    let mut r: Vec<Slider> = Vec::new();
    let mut i: usize = 0;
    while i < info.control_ports.len()
        invariant
            i <= info.control_ports@.len(),
            r@.len() == i,
            forall|k: int|
                0 <= k < i ==> {
                    &&& (#[trigger] r@[k]).label@ == info.control_ports@[k].symbol@
                    &&& r@[k].min == info.control_ports@[k].min
                    &&& r@[k].max == info.control_ports@[k].max
                    &&& r@[k].initial == slider_start(
                        *bridge,
                        info.bridge_name@,
                        k,
                        info.control_ports@[k].default,
                    )
                    &&& r@[k].bridge_index == k
                },
        decreases info.control_ports@.len() - i,
    {
        let meta = &info.control_ports[i];
        let initial: u32 = match bridge.get_control_by_bridge_index(
            info.bridge_name.as_str(),
            i,
        ) {
            Some(v) => v,
            None => meta.default,
        };
        r.push(
            Slider {
                label: meta.symbol.clone(),
                min: meta.min,
                max: meta.max,
                initial,
                bridge_index: i,
            },
        );
        i += 1;
    }
    r
}

/// What the thread of the windows is asked to do. The queue of events for windows
/// that belongs to a chain is known by a number; `instance` is the plugin
/// instance behind the window, where there is one.
#[allow(inconsistent_fields)]
pub enum UiCommand {
    Show {
        info: PluginUiInfo,
        notify_queue: usize,
        plugin_idx: usize,
        instance: Option<usize>,
    },
    ShowGeneric { info: GenericUiInfo },
    Present { plugin_name: String },
    Toggle { plugin_name: String },
    Hide { plugin_name: String },
    Shutdown,
}

/// A command with its names as sequences.
#[allow(inconsistent_fields)]
pub ghost enum UiCommandView {
    Show {
        info: PluginUiInfo,
        notify_queue: usize,
        plugin_idx: usize,
        instance: Option<usize>,
    },
    ShowGeneric { info: GenericUiInfo },
    Present { plugin_name: Seq<char> },
    Toggle { plugin_name: Seq<char> },
    Hide { plugin_name: Seq<char> },
    Shutdown,
}

impl View for UiCommand {
    type V = UiCommandView;

    open spec fn view(&self) -> UiCommandView {
        match *self {
            UiCommand::Show { info, notify_queue, plugin_idx, instance } => UiCommandView::Show {
                info,
                notify_queue,
                plugin_idx,
                instance,
            },
            UiCommand::ShowGeneric { info } => UiCommandView::ShowGeneric { info },
            UiCommand::Present { plugin_name } => UiCommandView::Present {
                plugin_name: plugin_name@,
            },
            UiCommand::Toggle { plugin_name } => UiCommandView::Toggle {
                plugin_name: plugin_name@,
            },
            UiCommand::Hide { plugin_name } => UiCommandView::Hide { plugin_name: plugin_name@ },
            UiCommand::Shutdown => UiCommandView::Shutdown,
        }
    }
}

/// The commands on their way to the thread of the windows, which is started by
/// the first command that opens a window.
pub struct UiCommands {
    pub started: bool,
    pub waiting: Vec<UiCommand>,
}

impl View for UiCommands {
    type V = Seq<UiCommandView>;

    open spec fn view(&self) -> Seq<UiCommandView> {
        self.waiting@.map_values(|c: UiCommand| c@)
    }
}

impl UiCommands {
    /// No thread and no commands.
    pub fn new() -> (r: Self)
        ensures
            !r.started,
            r@ == Seq::<UiCommandView>::empty(),
    {
        let r = UiCommands { started: false, waiting: Vec::new() };
        assert(r@ =~= Seq::empty());
        r
    }

    /// Takes out the command that waits longest.
    pub fn next(&mut self) -> (r: Option<UiCommand>)
        ensures
            final(self).started == old(self).started,
            match r {
                Some(c) => {
                    &&& old(self)@.len() > 0
                    &&& c@ == old(self)@[0]
                    &&& final(self)@ == old(self)@.skip(1)
                },
                None => old(self)@.len() == 0 && final(self)@ == old(self)@,
            },
    {
        if self.waiting.len() > 0 {
            let ghost start = self@;
            let c = self.waiting.remove(0);
            assert(self@ =~= start.skip(1));
            Some(c)
        } else {
            None
        }
    }
}

/// `commands` with one more, where the thread of the windows was started.
pub open spec fn sent_if(
    started: bool,
    commands: Seq<UiCommandView>,
    command: UiCommandView,
) -> Seq<UiCommandView> {
    if started {
        commands.push(command)
    } else {
        commands
    }
}

/// Asks for a plugin's own window.
pub fn ui_show(
    commands: &mut UiCommands,
    info: PluginUiInfo,
    notify_queue: usize,
    plugin_idx: usize,
    instance: Option<usize>,
)
    ensures
        final(commands).started,
        final(commands)@ == old(commands)@.push(
            UiCommandView::Show { info, notify_queue, plugin_idx, instance },
        ),
{
    let ghost start = commands@;
    commands.started = true;
    commands.waiting.push(UiCommand::Show { info, notify_queue, plugin_idx, instance });
    assert(commands@ =~= start.push(
        UiCommandView::Show { info, notify_queue, plugin_idx, instance },
    ));
}

/// Asks for a window of sliders.
pub fn ui_show_generic(commands: &mut UiCommands, info: GenericUiInfo)
    ensures
        final(commands).started,
        final(commands)@ == old(commands)@.push(UiCommandView::ShowGeneric { info }),
{
    let ghost start = commands@;
    commands.started = true;
    commands.waiting.push(UiCommand::ShowGeneric { info });
    assert(commands@ =~= start.push(UiCommandView::ShowGeneric { info }));
}

/// Asks to show a window that was opened before.
pub fn ui_present(commands: &mut UiCommands, plugin_name: &str)
    ensures
        final(commands).started,
        final(commands)@ == old(commands)@.push(
            UiCommandView::Present { plugin_name: plugin_name@ },
        ),
{
    let ghost start = commands@;
    commands.started = true;
    commands.waiting.push(UiCommand::Present { plugin_name: plugin_name.to_owned() });
    assert(commands@ =~= start.push(UiCommandView::Present { plugin_name: plugin_name@ }));
}

/// Asks to hide or show a window; nothing where no window was ever opened.
pub fn ui_toggle(commands: &mut UiCommands, plugin_name: &str)
    ensures
        final(commands).started == old(commands).started,
        final(commands)@ == sent_if(
            old(commands).started,
            old(commands)@,
            UiCommandView::Toggle { plugin_name: plugin_name@ },
        ),
{
    if commands.started {
        let ghost start = commands@;
        commands.waiting.push(UiCommand::Toggle { plugin_name: plugin_name.to_owned() });
        assert(commands@ =~= start.push(UiCommandView::Toggle { plugin_name: plugin_name@ }));
    }
}

/// Asks to hide a window; nothing where no window was ever opened.
pub fn ui_hide(commands: &mut UiCommands, plugin_name: &str)
    ensures
        final(commands).started == old(commands).started,
        final(commands)@ == sent_if(
            old(commands).started,
            old(commands)@,
            UiCommandView::Hide { plugin_name: plugin_name@ },
        ),
{
    if commands.started {
        let ghost start = commands@;
        commands.waiting.push(UiCommand::Hide { plugin_name: plugin_name.to_owned() });
        assert(commands@ =~= start.push(UiCommandView::Hide { plugin_name: plugin_name@ }));
    }
}

/// Asks the thread of the windows to end; nothing where it was never started.
pub fn ui_shutdown(commands: &mut UiCommands)
    ensures
        final(commands).started == old(commands).started,
        final(commands)@ == sent_if(
            old(commands).started,
            old(commands)@,
            UiCommandView::Shutdown,
        ),
{
    if commands.started {
        let ghost start = commands@;
        commands.waiting.push(UiCommand::Shutdown);
        assert(commands@ =~= start.push(UiCommandView::Shutdown));
    }
}

/// An open window. Windows, and what stands behind them, are known by numbers.
#[derive(Debug, Clone, Copy, PartialEq, Eq, Structural)]
pub enum LiveUi {
    /// A window that a plugin brought along, with its host and its instance.
    Native { host: usize, instance: usize, window: usize, has_idle: bool, plugin_idx: usize },
    /// A window of sliders.
    Generic { window: usize },
}

/// What to do to a window or to what stands behind it.
#[derive(Debug, Clone, Copy, PartialEq, Eq, Structural)]
pub enum Release {
    DestroyWindow(usize),
    FreeInstance(usize),
    FreeHost(usize),
}

impl LiveUi {
    /// The window.
    pub open spec fn shown_in(self) -> usize {
        match self {
            LiveUi::Native { window, .. } => window,
            LiveUi::Generic { window } => window,
        }
    }

    /// How the window is given up.
    pub open spec fn releases(self) -> Seq<Release> {
        match self {
            LiveUi::Native { host, instance, window, .. } => seq![
                Release::DestroyWindow(window),
                Release::FreeInstance(instance),
                Release::FreeHost(host),
            ],
            LiveUi::Generic { window } => seq![Release::DestroyWindow(window)],
        }
    }

    /// The window.
    pub fn window(&self) -> (r: usize)
        ensures
            r == self.shown_in(),
    {
        match *self {
            LiveUi::Native { host, instance, window, has_idle, plugin_idx } => window,
            LiveUi::Generic { window } => window,
        }
    }

    /// How the window is given up.
    fn release(&self) -> (r: Vec<Release>)
        ensures
            r@ == self.releases(),
    {
        let mut r: Vec<Release> = Vec::new();
        match *self {
            LiveUi::Native { host, instance, window, has_idle, plugin_idx } => {
                r.push(Release::DestroyWindow(window));
                r.push(Release::FreeInstance(instance));
                r.push(Release::FreeHost(host));
            },
            LiveUi::Generic { window } => {
                r.push(Release::DestroyWindow(window));
            },
        }
        assert(r@ =~= self.releases());
        r
    }
}

/// What the thread of the windows does next.
#[allow(inconsistent_fields)]
pub enum UiAction {
    Nothing,
    /// Makes a window visible, with all that is in it, and brings it to the front.
    Present { window: usize },
    /// Opens the window that a plugin brought along.
    OpenNative { info: PluginUiInfo, plugin_idx: usize, instance: Option<usize> },
    /// Opens a window of sliders.
    OpenGeneric { info: GenericUiInfo },
    /// Hides a window that is visible and shows one that is not: what
    /// [`toggle_action`] says.
    Toggle { window: usize },
    Hide { window: usize },
    /// Gives up all windows and ends the thread.
    Quit { releases: Vec<Release> },
}

/// What is done to a window that is toggled.
pub fn toggle_action(window: usize, visible: bool) -> (r: UiAction)
    ensures
        r == if visible {
            UiAction::Hide { window }
        } else {
            UiAction::Present { window }
        },
{
    if visible {
        UiAction::Hide { window }
    } else {
        UiAction::Present { window }
    }
}

/// The thread of the windows.
pub struct UiThreadState {
    pub running: bool,
    pub live_uis: NameMap<LiveUi>,
    pub notify_queue: Option<usize>,
}

/// How windows are given up, one after the other.
pub open spec fn all_releases(uis: Seq<(String, LiveUi)>) -> Seq<Release>
    decreases uis.len(),
{
    if uis.len() == 0 {
        Seq::empty()
    } else {
        all_releases(uis.drop_last()) + uis.last().1.releases()
    }
}

/// What is done for a window that may be open already.
pub open spec fn present_or(live: Map<Seq<char>, LiveUi>, name: Seq<char>) -> Option<usize> {
    if live.contains_key(name) {
        Some(live[name].shown_in())
    } else {
        None
    }
}

/// What is done on a command, with these windows open.
pub open spec fn is_decided(open: NameMap<LiveUi>, command: UiCommand, r: UiAction) -> bool {
    match command {
        UiCommand::Show { info, notify_queue, plugin_idx, instance } => r == match present_or(
            open@,
            info.plugin_name@,
        ) {
            Some(window) => UiAction::Present { window },
            None => UiAction::OpenNative { info, plugin_idx, instance },
        },
        UiCommand::ShowGeneric { info } => r == match present_or(open@, info.plugin_name@) {
            Some(window) => UiAction::Present { window },
            None => UiAction::OpenGeneric { info },
        },
        UiCommand::Present { plugin_name } => r == match present_or(open@, plugin_name@) {
            Some(window) => UiAction::Present { window },
            None => UiAction::Nothing,
        },
        UiCommand::Toggle { plugin_name } => r == match present_or(open@, plugin_name@) {
            Some(window) => UiAction::Toggle { window },
            None => UiAction::Nothing,
        },
        UiCommand::Hide { plugin_name } => r == match present_or(open@, plugin_name@) {
            Some(window) => UiAction::Hide { window },
            None => UiAction::Nothing,
        },
        UiCommand::Shutdown => {
            &&& r matches UiAction::Quit { releases }
            &&& releases@ == all_releases(open.entries@)
        },
    }
}

/// Whether a command asks for the window of that name to be visible.
pub open spec fn asks_for(command: UiCommandView, name: Seq<char>) -> bool {
    match command {
        UiCommandView::Show { info, .. } => info.plugin_name@ == name,
        UiCommandView::ShowGeneric { info } => info.plugin_name@ == name,
        UiCommandView::Present { plugin_name } => plugin_name == name,
        _ => false,
    }
}

impl UiThreadState {
    /// No window is listed twice.
    pub open spec fn wf(self) -> bool {
        self.live_uis.wf()
    }

    /// A thread without windows.
    pub fn new() -> (r: Self)
        ensures
            r.wf(),
            r.running,
            r.live_uis@ == Map::<Seq<char>, LiveUi>::empty(),
            r.notify_queue is None,
    {
        UiThreadState { running: true, live_uis: NameMap::new(), notify_queue: None }
    }

    /// Decides on a command. The queue of the first window that a plugin brought
    /// along is the one that events for windows come from.
    pub fn command(&mut self, command: UiCommand) -> (r: UiAction)
        requires
            old(self).wf(),
        ensures
            final(self).wf(),
            final(self).running == (old(self).running && command !is Shutdown),
            final(self).live_uis@ == if command is Shutdown {
                Map::empty()
            } else {
                old(self).live_uis@
            },
            final(self).notify_queue == match command {
                UiCommand::Show { notify_queue, .. } => if old(self).notify_queue is None {
                    Some(notify_queue)
                } else {
                    old(self).notify_queue
                },
                _ => old(self).notify_queue,
            },
            is_decided(old(self).live_uis, command, r),
    {
        match command {
            UiCommand::Show { info, notify_queue, plugin_idx, instance } => {
                if self.notify_queue.is_none() {
                    self.notify_queue = Some(notify_queue);
                }
                match self.live_uis.get(info.plugin_name.as_str()) {
                    Some(ui) => UiAction::Present { window: ui.window() },
                    None => UiAction::OpenNative { info, plugin_idx, instance },
                }
            },
            UiCommand::ShowGeneric { info } => match self.live_uis.get(
                info.plugin_name.as_str(),
            ) {
                Some(ui) => UiAction::Present { window: ui.window() },
                None => UiAction::OpenGeneric { info },
            },
            UiCommand::Present { plugin_name } => match self.live_uis.get(plugin_name.as_str()) {
                Some(ui) => UiAction::Present { window: ui.window() },
                None => UiAction::Nothing,
            },
            UiCommand::Toggle { plugin_name } => match self.live_uis.get(plugin_name.as_str()) {
                Some(ui) => UiAction::Toggle { window: ui.window() },
                None => UiAction::Nothing,
            },
            UiCommand::Hide { plugin_name } => match self.live_uis.get(plugin_name.as_str()) {
                Some(ui) => UiAction::Hide { window: ui.window() },
                None => UiAction::Nothing,
            },
            UiCommand::Shutdown => {
                let releases = self.release_all();
                self.live_uis.clear();
                self.running = false;
                UiAction::Quit { releases }
            },
        }
    }

    /// How all windows are given up.
    fn release_all(&self) -> (r: Vec<Release>)
        ensures
            r@ == all_releases(self.live_uis.entries@),
    {
        let mut r: Vec<Release> = Vec::new();
        let ghost uis = self.live_uis.entries@;
        let mut i: usize = 0;
        while i < self.live_uis.entries.len()
            invariant
                uis == self.live_uis.entries@,
                i <= uis.len(),
                r@ == all_releases(uis.take(i as int)),
            decreases uis.len() - i,
        {
            let mut one = self.live_uis.entries[i].1.release();
            r.append(&mut one);
            assert(uis.take(i + 1).drop_last() =~= uis.take(i as int));
            assert(uis.take(i + 1).last() == uis[i as int]);
            i += 1;
        }
        assert(uis.take(i as int) =~= uis);
        r
    }

    /// Lists a window that was opened.
    pub fn opened(&mut self, name: &str, ui: LiveUi)
        requires
            old(self).wf(),
        ensures
            final(self).wf(),
            final(self).live_uis@ == old(self).live_uis@.insert(name@, ui),
            final(self).running == old(self).running,
            final(self).notify_queue == old(self).notify_queue,
    {
        self.live_uis.insert(name.to_owned(), ui);
    }

    /// Which instances get which events: each visible window that a plugin
    /// brought along gets the events of its plugin. `visible` says of each
    /// window, in the order in which they are listed, whether it is visible. An
    /// event is given by its number.
    pub fn route_notices(&self, events: &Vec<AtomUiEvent>, visible: &Vec<bool>) -> (r: Vec<
        (usize, usize),
    >)
        requires
            visible@.len() == self.live_uis.entries@.len(),
        ensures
            r@ == notices_routed(self.live_uis.entries@, visible@, events@),
    {
        let mut r: Vec<(usize, usize)> = Vec::new();
        let ghost uis = self.live_uis.entries@;
        let mut i: usize = 0;
        while i < events.len()
            invariant
                uis == self.live_uis.entries@,
                visible@.len() == uis.len(),
                i <= events@.len(),
                r@ == notices_routed(uis, visible@, events@.take(i as int)),
            decreases events@.len() - i,
        {
            let ghost before = r@;
            let plugin_idx: usize = events[i].plugin_idx;
            let mut k: usize = 0;
            assert(before + takers(uis.take(0), visible@, plugin_idx, i) =~= before);
            while k < self.live_uis.entries.len()
                invariant
                    uis == self.live_uis.entries@,
                    visible@.len() == uis.len(),
                    k <= uis.len(),
                    r@ == before + takers(uis.take(k as int), visible@, plugin_idx, i),
                decreases uis.len() - k,
            {
                proof {
                    assert(uis.take(k + 1).drop_last() =~= uis.take(k as int));
                    assert(uis.take(k + 1).last() == uis[k as int]);
                }
                match self.live_uis.entries[k].1 {
                    LiveUi::Native { host, instance, window, has_idle, plugin_idx: p } => {
                        if p == plugin_idx && visible[k] {
                            r.push((instance, i));
                        }
                    },
                    LiveUi::Generic { window } => {},
                }
                k += 1;
                assert(r@ =~= before + takers(uis.take(k as int), visible@, plugin_idx, i));
            }
            proof {
                assert(uis.take(k as int) =~= uis);
                assert(events@.take(i + 1).drop_last() =~= events@.take(i as int));
                assert(events@.take(i + 1).last() == events@[i as int]);
            }
            i += 1;
        }
        assert(events@.take(i as int) =~= events@);
        r
    }

    /// The windows whose plugins want to be called now and then: those that are
    /// visible and asked for it, by their place in the list.
    pub fn idle_windows(&self, visible: &Vec<bool>) -> (r: Vec<usize>)
        requires
            visible@.len() == self.live_uis.entries@.len(),
        ensures
            r@ == idlers(self.live_uis.entries@, visible@),
    {
        let mut r: Vec<usize> = Vec::new();
        let ghost uis = self.live_uis.entries@;
        let mut k: usize = 0;
        while k < self.live_uis.entries.len()
            invariant
                uis == self.live_uis.entries@,
                visible@.len() == uis.len(),
                k <= uis.len(),
                r@ == idlers(uis.take(k as int), visible@),
            decreases uis.len() - k,
        {
            proof {
                assert(uis.take(k + 1).drop_last() =~= uis.take(k as int));
                assert(uis.take(k + 1).last() == uis[k as int]);
            }
            match self.live_uis.entries[k].1 {
                LiveUi::Native { host, instance, window, has_idle, plugin_idx } => {
                    if has_idle && visible[k] {
                        r.push(k);
                    }
                },
                LiveUi::Generic { window } => {},
            }
            k += 1;
        }
        assert(uis.take(k as int) =~= uis);
        r
    }
}

/// The instances of the visible windows of the plugin `plugin_idx`, each with
/// the number of an event.
pub open spec fn takers(
    uis: Seq<(String, LiveUi)>,
    visible: Seq<bool>,
    plugin_idx: usize,
    event: usize,
) -> Seq<(usize, usize)>
    decreases uis.len(),
{
    if uis.len() == 0 {
        Seq::empty()
    } else {
        let before = takers(uis.drop_last(), visible, plugin_idx, event);
        match uis.last().1 {
            LiveUi::Native { instance, plugin_idx: p, .. } => if p == plugin_idx
                && visible[uis.len() - 1] {
                before.push((instance, event))
            } else {
                before
            },
            LiveUi::Generic { .. } => before,
        }
    }
}

/// Which instances get which events, event by event.
pub open spec fn notices_routed(
    uis: Seq<(String, LiveUi)>,
    visible: Seq<bool>,
    events: Seq<AtomUiEvent>,
) -> Seq<(usize, usize)>
    decreases events.len(),
{
    if events.len() == 0 {
        Seq::empty()
    } else {
        notices_routed(uis, visible, events.drop_last()) + takers(
            uis,
            visible,
            events.last().plugin_idx,
            (events.len() - 1) as usize,
        )
    }
}

/// The places of the visible windows that asked to be called now and then.
pub open spec fn idlers(uis: Seq<(String, LiveUi)>, visible: Seq<bool>) -> Seq<usize>
    decreases uis.len(),
{
    if uis.len() == 0 {
        Seq::empty()
    } else {
        let before = idlers(uis.drop_last(), visible);
        match uis.last().1 {
            LiveUi::Native { has_idle, .. } => if has_idle && visible[uis.len() - 1] {
                before.push((uis.len() - 1) as usize)
            } else {
                before
            },
            LiveUi::Generic { .. } => before,
        }
    }
}

/// How far the opening of a plugin's own window has come: what was got so far,
/// and what is asked for next.
#[derive(Debug, Clone, Copy, PartialEq, Eq, Structural)]
pub enum ShowStage {
    NeedHost,
    NeedInstance { host: usize },
    NeedWidget { host: usize, instance: usize },
    Ready { host: usize, instance: usize, widget: usize },
    Failed,
}

impl ShowStage {
    /// What would have to be given up, in the order in which it was got.
    pub open spec fn held(self) -> Seq<Release> {
        match self {
            ShowStage::NeedInstance { host } => seq![Release::FreeHost(host)],
            ShowStage::NeedWidget { host, instance } => seq![
                Release::FreeHost(host),
                Release::FreeInstance(instance),
            ],
            ShowStage::Ready { host, instance, .. } => seq![
                Release::FreeHost(host),
                Release::FreeInstance(instance),
            ],
            _ => Seq::empty(),
        }
    }

    /// Takes the next thing, or fails where it could not be got; the second part
    /// of the result is what to give up then.
    pub fn next(self, got: Option<usize>) -> (r: (ShowStage, Vec<Release>))
        ensures
            match got {
                Some(x) => {
                    &&& r.1@ == Seq::<Release>::empty()
                    &&& r.0 == match self {
                        ShowStage::NeedHost => ShowStage::NeedInstance { host: x },
                        ShowStage::NeedInstance { host } => ShowStage::NeedWidget {
                            host,
                            instance: x,
                        },
                        ShowStage::NeedWidget { host, instance } => ShowStage::Ready {
                            host,
                            instance,
                            widget: x,
                        },
                        _ => self,
                    }
                },
                None => match self {
                    ShowStage::Ready { .. } => r.0 == self && r.1@ == Seq::<Release>::empty(),
                    _ => r.0 is Failed && r.1@ == self.held().reverse(),
                },
            },
    {
        let mut releases: Vec<Release> = Vec::new();
        let next = match (self, got) {
            (ShowStage::NeedHost, Some(host)) => ShowStage::NeedInstance { host },
            (ShowStage::NeedInstance { host }, Some(instance)) => ShowStage::NeedWidget {
                host,
                instance,
            },
            (ShowStage::NeedWidget { host, instance }, Some(widget)) => ShowStage::Ready {
                host,
                instance,
                widget,
            },
            (ShowStage::NeedInstance { host }, None) => {
                releases.push(Release::FreeHost(host));
                ShowStage::Failed
            },
            (ShowStage::NeedWidget { host, instance }, None) => {
                releases.push(Release::FreeInstance(instance));
                releases.push(Release::FreeHost(host));
                ShowStage::Failed
            },
            (ShowStage::NeedHost, None) => ShowStage::Failed,
            (stage, _) => stage,
        };
        assert(got is None && !(self is Ready) ==> releases@ =~= self.held().reverse());
        (next, releases)
    }
}

/// A window that is open is not opened again: it is brought to the front.
pub proof fn open_window_is_presented(live: Map<Seq<char>, LiveUi>, name: Seq<char>, ui: LiveUi)
    ensures
        present_or(live.insert(name, ui), name) == Some(ui.shown_in()),
        forall|other: Seq<char>|
            other != name ==> #[trigger] present_or(live.insert(name, ui), other) == present_or(
                live,
                other,
            ),
{
}

/// A window that is asked for becomes visible: one that is open is presented,
/// whether it is visible or not, and one that can be opened is opened.
pub proof fn asked_window_is_visible(
    open: NameMap<LiveUi>,
    command: UiCommand,
    r: UiAction,
    name: Seq<char>,
)
    requires
        asks_for(command@, name),
        is_decided(open, command, r),
    ensures
        open@.contains_key(name) ==> r == (UiAction::Present { window: open@[name].shown_in() }),
        !open@.contains_key(name) ==> match command {
            UiCommand::Show { .. } => r matches UiAction::OpenNative { info, .. }
                && info.plugin_name@ == name,
            UiCommand::ShowGeneric { .. } => r matches UiAction::OpenGeneric { info }
                && info.plugin_name@ == name,
            _ => r is Nothing,
        },
{
}

/// When the thread of the windows ends, all that stands behind any window is
/// given up.
pub proof fn shutdown_gives_up_all(uis: Seq<(String, LiveUi)>, i: int, k: int)
    requires
        0 <= i < uis.len(),
        0 <= k < uis[i].1.releases().len(),
    ensures
        all_releases(uis).contains(uis[i].1.releases()[k]),
    decreases uis.len(),
{
    let rest = all_releases(uis.drop_last());
    let last = uis.last().1.releases();
    if i == uis.len() - 1 {
        assert(all_releases(uis)[rest.len() + k] == last[k]);
    } else {
        shutdown_gives_up_all(uis.drop_last(), i, k);
        let j = choose|j: int| 0 <= j < rest.len() && rest[j] == uis[i].1.releases()[k];
        assert(all_releases(uis)[j] == rest[j]);
    }
}

/// A window of the toolkit of the host is taken before any that has to be wrapped or
/// cannot be: the first of that toolkit, and where there is none, the first of the next.
pub proof fn toolkit_of_host_comes_first(uis: Seq<UiDesc>, i: int)
    requires
        best_of(uis) == Some(i),
    ensures
        0 <= i < uis.len(),
        uis[i].is_gtk || uis[i].is_x11 || uis[i].is_gtk3,
        (exists|j: int| 0 <= j < uis.len() && (#[trigger] uis[j]).is_gtk) ==> uis[i].is_gtk,
        (exists|j: int| 0 <= j < uis.len() && (#[trigger] uis[j]).is_x11) ==> uis[i].is_gtk
            || uis[i].is_x11,
        uis[i].is_gtk ==> forall|j: int| 0 <= j < i ==> !(#[trigger] uis[j]).is_gtk,
        !uis[i].is_gtk && uis[i].is_x11 ==> forall|j: int|
            0 <= j < i ==> !(#[trigger] uis[j]).is_x11,
        !uis[i].is_gtk && !uis[i].is_x11 ==> forall|j: int|
            0 <= j < i ==> !(#[trigger] uis[j]).is_gtk3,
{
    let k = choose|k: int| is_best(uis, k);
    assert(is_best(uis, k));
    assert forall|j: int| 0 <= j < uis.len() implies rank(#[trigger] uis[j]) <= rank(uis[i]) by {}
    assert forall|j: int| 0 <= j < i implies rank(#[trigger] uis[j]) < rank(uis[i]) by {}
}

/// A window is found just where there is one of a toolkit that the host knows.
pub proof fn known_toolkit_is_found(uis: Seq<UiDesc>)
    ensures
        best_of(uis) is Some <==> exists|j: int|
            0 <= j < uis.len() && ((#[trigger] uis[j]).is_gtk || uis[j].is_x11 || uis[j].is_gtk3),
    decreases uis.len(),
{
    if best_of(uis) is Some {
        let i = best_of(uis)->0;
        toolkit_of_host_comes_first(uis, i);
    }
    if exists|j: int|
        0 <= j < uis.len() && ((#[trigger] uis[j]).is_gtk || uis[j].is_x11 || uis[j].is_gtk3) {
        let j = choose|j: int|
            0 <= j < uis.len() && ((#[trigger] uis[j]).is_gtk || uis[j].is_x11 || uis[j].is_gtk3);
        let first = uis.drop_last();
        let last = uis.len() - 1;
        known_toolkit_is_found(first);
        if best_of(first) is Some {
            let b = choose|b: int| is_best(first, b);
            assert(is_best(first, b));
            assert forall|k: int| 0 <= k < first.len() implies #[trigger] uis[k] == first[k] by {}
            if rank(uis[last]) > rank(uis[b]) {
                assert forall|k: int| 0 <= k < last implies rank(#[trigger] uis[k]) < rank(
                    uis[last],
                ) by {
                    assert(rank(first[k]) <= rank(first[b]));
                }
                assert(is_best(uis, last));
            } else {
                assert forall|k: int| 0 <= k < uis.len() implies rank(#[trigger] uis[k]) <= rank(
                    uis[b],
                ) by {
                    if k < last {
                        assert(rank(first[k]) <= rank(first[b]));
                    }
                }
                assert forall|k: int| 0 <= k < b implies rank(#[trigger] uis[k]) < rank(uis[b]) by {
                    assert(rank(first[k]) < rank(first[b]));
                }
                assert(is_best(uis, b));
            }
        } else {
            assert forall|k: int| 0 <= k < last implies rank(#[trigger] uis[k]) == 0 by {
                assert(first[k] == uis[k]);
            }
            assert(is_best(uis, last));
        }
    }
}

/// What is told of a window: the URIs and paths that its description gives, the toolkit
/// that it is made with, and the names that its plugin has here.
pub proof fn window_is_described(
    ui: UiDesc,
    plugin_uri: Seq<char>,
    plugin_name: Seq<char>,
    symbols: Map<Seq<char>, u32>,
    indices: Seq<u32>,
)
    ensures
        ui.uri is None || ui.bundle_uri is None || ui.binary_uri is None ==> info_of_ui(
            ui,
            plugin_uri,
            plugin_name,
            symbols,
            indices,
        ) is None,
        info_of_ui(ui, plugin_uri, plugin_name, symbols, indices) matches Some(info) ==> {
            &&& info.plugin_uri == plugin_uri
            &&& info.plugin_name == plugin_name
            &&& info.port_symbol_to_index == symbols
            &&& info.control_port_indices == indices
            &&& info.ui_uri == (ui.uri->0)@
            &&& info.bridge_name.is_suffix_of(plugin_name)
            &&& !info.bridge_name.contains('/')
            &&& ui.is_gtk ==> info.ui_type_uri == "http://lv2plug.in/ns/extensions/ui#GtkUI"@
            &&& !ui.is_gtk && ui.is_x11 ==> info.ui_type_uri
                == "http://lv2plug.in/ns/extensions/ui#X11UI"@
            &&& !ui.is_gtk && !ui.is_x11 ==> info.ui_type_uri
                == "http://lv2plug.in/ns/extensions/ui#Gtk3UI"@
            &&& info.ui_bundle_path == (ui.bundle_uri->0)@ || "file://"@ + info.ui_bundle_path
                == (ui.bundle_uri->0)@
            &&& info.ui_binary_path == (ui.binary_uri->0)@ || "file://"@ + info.ui_binary_path
                == (ui.binary_uri->0)@
        },
{
    text::rest_is_behind_last(plugin_name, '/');
    if ui.bundle_uri is Some {
        path_is_behind_scheme((ui.bundle_uri->0)@);
    }
    if ui.binary_uri is Some {
        path_is_behind_scheme((ui.binary_uri->0)@);
    }
}

/// The path of a file URI is what comes behind its scheme; any other text is a path.
pub proof fn path_is_behind_scheme(uri: Seq<char>)
    ensures
        "file://"@.is_prefix_of(uri) ==> "file://"@ + path_of(uri) == uri,
        !"file://"@.is_prefix_of(uri) ==> path_of(uri) == uri,
{
    if "file://"@.is_prefix_of(uri) {
        assert("file://"@ + path_of(uri) =~= uri);
    }
}

/// The path behind the scheme of a file URI is read back.
pub proof fn path_of_file_uri(path: Seq<char>)
    ensures
        path_of("file://"@ + path) == path,
{
    let uri = "file://"@ + path;
    assert("file://"@ =~= uri.take("file://"@.len() as int));
    assert(path_of(uri) =~= path);
}

/// A window that a plugin brought along is given up in this order: the window, then the
/// instance in it, then its host. Of a window of sliders there is the window alone.
pub proof fn window_goes_before_what_is_in_it(ui: LiveUi)
    ensures
        ui matches LiveUi::Native { host, instance, window, .. } ==> {
            &&& ui.shown_in() == window
            &&& ui.releases().len() == 3
            &&& ui.releases()[0] == Release::DestroyWindow(window)
            &&& ui.releases()[1] == Release::FreeInstance(instance)
            &&& ui.releases()[2] == Release::FreeHost(host)
        },
        ui matches LiveUi::Generic { window } ==> {
            &&& ui.shown_in() == window
            &&& ui.releases().len() == 1
            &&& ui.releases()[0] == Release::DestroyWindow(window)
        },
{
}

/// When all windows are given up, all that each of them holds is given up.
pub proof fn every_window_is_given_up(uis: Seq<(String, LiveUi)>, i: int)
    requires
        0 <= i < uis.len(),
    ensures
        all_releases(uis).contains(Release::DestroyWindow(uis[i].1.shown_in())),
        uis[i].1 matches LiveUi::Native { host, instance, .. } ==> all_releases(uis).contains(
            Release::FreeInstance(instance),
        ) && all_releases(uis).contains(Release::FreeHost(host)),
    decreases uis.len(),
{
    let first = uis.drop_last();
    let before = all_releases(first);
    let of_last = uis.last().1.releases();
    let all = all_releases(uis);
    assert(all == before + of_last);
    assert forall|r: Release| before.contains(r) implies #[trigger] all.contains(r) by {
        let k = choose|k: int| 0 <= k < before.len() && before[k] == r;
        assert(all[k] == r);
    }
    assert forall|r: Release| of_last.contains(r) implies #[trigger] all.contains(r) by {
        let k = choose|k: int| 0 <= k < of_last.len() && of_last[k] == r;
        assert(all[before.len() + k] == r);
    }
    if i < first.len() {
        every_window_is_given_up(first, i);
        assert(first[i] == uis[i]);
    } else {
        assert(of_last.contains(of_last[0]));
        if uis[i].1 is Native {
            assert(of_last.contains(of_last[1]));
            assert(of_last.contains(of_last[2]));
        }
    }
}

/// A command for the window of a plugin that is open acts on that window.
pub proof fn command_acts_on_open_window(
    open: NameMap<LiveUi>,
    command: UiCommand,
    r: UiAction,
    name: Seq<char>,
    ui: LiveUi,
)
    requires
        is_decided(open, command, r),
        open@.contains_key(name),
        open@[name] == ui,
    ensures
        ({
            let window = match ui {
                LiveUi::Native { window, .. } => window,
                LiveUi::Generic { window } => window,
            };
            &&& command matches UiCommand::Show { info, .. } ==> info.plugin_name@ == name ==> r
                == (UiAction::Present { window })
            &&& command matches UiCommand::ShowGeneric { info } ==> info.plugin_name@ == name ==> r
                == (UiAction::Present { window })
            &&& command matches UiCommand::Present { plugin_name } ==> plugin_name@ == name ==> r
                == (UiAction::Present { window })
            &&& command matches UiCommand::Toggle { plugin_name } ==> plugin_name@ == name ==> r
                == (UiAction::Toggle { window })
            &&& command matches UiCommand::Hide { plugin_name } ==> plugin_name@ == name ==> r == (
            UiAction::Hide { window })
        }),
{
}

/// A command for the window of a plugin that is not open opens it with what the command
/// brings, or does nothing where the command brings nothing.
pub proof fn command_opens_window(open: NameMap<LiveUi>, command: UiCommand, r: UiAction)
    requires
        is_decided(open, command, r),
    ensures
        command matches UiCommand::Show { info, plugin_idx, instance, .. }
            ==> !open@.contains_key(info.plugin_name@) ==> r == (UiAction::OpenNative {
            info,
            plugin_idx,
            instance,
        }),
        command matches UiCommand::ShowGeneric { info } ==> !open@.contains_key(
            info.plugin_name@,
        ) ==> r == (UiAction::OpenGeneric { info }),
        command matches UiCommand::Present { plugin_name } ==> !open@.contains_key(plugin_name@)
            ==> r is Nothing,
        command matches UiCommand::Toggle { plugin_name } ==> !open@.contains_key(plugin_name@)
            ==> r is Nothing,
        command matches UiCommand::Hide { plugin_name } ==> !open@.contains_key(plugin_name@)
            ==> r is Nothing,
        command is Shutdown ==> r is Quit,
{
}

/// What an instance says reaches its window: every visible window that a plugin brought
/// along and that is for the plugin of an event takes the event.
pub proof fn event_reaches_visible_windows(
    uis: Seq<(String, LiveUi)>,
    visible: Seq<bool>,
    plugin_idx: usize,
    event: usize,
    i: int,
)
    requires
        0 <= i < uis.len(),
        uis[i].1 is Native,
        uis[i].1->plugin_idx == plugin_idx,
        visible[i],
    ensures
        takers(uis, visible, plugin_idx, event).contains((uis[i].1->Native_instance, event)),
    decreases uis.len(),
{
    let first = uis.drop_last();
    let before = takers(first, visible, plugin_idx, event);
    let all = takers(uis, visible, plugin_idx, event);
    let it = (uis[i].1->Native_instance, event);
    if i < first.len() {
        event_reaches_visible_windows(first, visible, plugin_idx, event, i);
        let k = choose|k: int| 0 <= k < before.len() && before[k] == it;
        assert(all[k] == it);
    } else {
        assert(all.last() == it);
    }
}

/// No other window takes the event.
pub proof fn event_reaches_no_other_window(
    uis: Seq<(String, LiveUi)>,
    visible: Seq<bool>,
    plugin_idx: usize,
    event: usize,
    k: int,
) -> (i: int)
    requires
        0 <= k < takers(uis, visible, plugin_idx, event).len(),
    ensures
        0 <= i < uis.len(),
        uis[i].1 is Native,
        uis[i].1->plugin_idx == plugin_idx,
        visible[i],
        takers(uis, visible, plugin_idx, event)[k] == (uis[i].1->Native_instance, event),
        takers(uis, visible, plugin_idx, event).len() <= uis.len(),
    decreases uis.len(),
{
    let first = uis.drop_last();
    let before = takers(first, visible, plugin_idx, event);
    let all = takers(uis, visible, plugin_idx, event);
    takers_are_windows(first, visible, plugin_idx, event);
    if k < before.len() {
        let i = event_reaches_no_other_window(first, visible, plugin_idx, event, k);
        assert(all[k] == before[k]);
        i
    } else {
        uis.len() - 1
    }
}

/// A window takes an event once.
proof fn takers_are_windows(
    uis: Seq<(String, LiveUi)>,
    visible: Seq<bool>,
    plugin_idx: usize,
    event: usize,
)
    ensures
        takers(uis, visible, plugin_idx, event).len() <= uis.len(),
    decreases uis.len(),
{
    if uis.len() > 0 {
        takers_are_windows(uis.drop_last(), visible, plugin_idx, event);
    }
}

/// Every event is routed: every visible window for its plugin takes it, under the
/// number of the event.
pub proof fn every_event_is_routed(
    uis: Seq<(String, LiveUi)>,
    visible: Seq<bool>,
    events: Seq<AtomUiEvent>,
    e: int,
    i: int,
)
    requires
        0 <= e < events.len(),
        events.len() <= usize::MAX,
        0 <= i < uis.len(),
        uis[i].1 is Native,
        uis[i].1->plugin_idx == events[e].plugin_idx,
        visible[i],
    ensures
        notices_routed(uis, visible, events).contains((uis[i].1->Native_instance, e as usize)),
    decreases events.len(),
{
    let first = events.drop_last();
    let before = notices_routed(uis, visible, first);
    let taken = takers(uis, visible, events.last().plugin_idx, (events.len() - 1) as usize);
    let all = notices_routed(uis, visible, events);
    let it = (uis[i].1->Native_instance, e as usize);
    assert(all == before + taken);
    if e < first.len() {
        assert(first[e] == events[e]);
        every_event_is_routed(uis, visible, first, e, i);
        let k = choose|k: int| 0 <= k < before.len() && before[k] == it;
        assert(all[k] == it);
    } else {
        event_reaches_visible_windows(
            uis,
            visible,
            events.last().plugin_idx,
            (events.len() - 1) as usize,
            i,
        );
        let k = choose|k: int| 0 <= k < taken.len() && taken[k] == it;
        assert(all[before.len() + k] == it);
    }
}

/// Whatever is routed is an event for the plugin of a visible window.
pub proof fn routed_event_is_for_window(
    uis: Seq<(String, LiveUi)>,
    visible: Seq<bool>,
    events: Seq<AtomUiEvent>,
    k: int,
) -> (r: (int, int))
    requires
        0 <= k < notices_routed(uis, visible, events).len(),
        events.len() <= usize::MAX,
    ensures
        ({
            let (e, i) = r;
            &&& 0 <= e < events.len()
            &&& 0 <= i < uis.len()
            &&& uis[i].1 is Native
            &&& uis[i].1->plugin_idx == events[e].plugin_idx
            &&& visible[i]
            &&& notices_routed(uis, visible, events)[k] == (
                uis[i].1->Native_instance,
                e as usize,
            )
        }),
    decreases events.len(),
{
    let first = events.drop_last();
    let before = notices_routed(uis, visible, first);
    let taken = takers(uis, visible, events.last().plugin_idx, (events.len() - 1) as usize);
    let all = notices_routed(uis, visible, events);
    assert(all == before + taken);
    if k < before.len() {
        let r = routed_event_is_for_window(uis, visible, first, k);
        assert(first[r.0] == events[r.0]);
        assert(all[k] == before[k]);
        r
    } else {
        let i = event_reaches_no_other_window(
            uis,
            visible,
            events.last().plugin_idx,
            (events.len() - 1) as usize,
            k - before.len(),
        );
        assert(all[k] == taken[k - before.len()]);
        (events.len() - 1, i)
    }
}

/// The windows that are given time are those that a plugin brought along, that ask for it
/// and that are visible, each once and in their order.
pub proof fn visible_windows_idle(uis: Seq<(String, LiveUi)>, visible: Seq<bool>)
    requires
        uis.len() <= usize::MAX,
    ensures
        forall|i: int|
            0 <= i < uis.len() ==> (#[trigger] idlers(uis, visible).contains(i as usize) <==> (
            uis[i].1 is Native && uis[i].1->has_idle && visible[i])),
        forall|k: int|
            0 <= k < idlers(uis, visible).len() ==> (#[trigger] idlers(uis, visible)[k])
                < uis.len(),
        forall|a: int, b: int|
            0 <= a < b < idlers(uis, visible).len() ==> (#[trigger] idlers(uis, visible)[a]) < (
            #[trigger] idlers(uis, visible)[b]),
    decreases uis.len(),
{
    if uis.len() > 0 {
        let first = uis.drop_last();
        visible_windows_idle(first, visible);
        let before = idlers(first, visible);
        let all = idlers(uis, visible);
        let last = (uis.len() - 1) as usize;
        assert forall|i: int| 0 <= i < uis.len() implies (#[trigger] all.contains(i as usize) <==> (
        uis[i].1 is Native && uis[i].1->has_idle && visible[i])) by {
            if i < last {
                assert(first[i] == uis[i]);
                assert(before.contains(i as usize) <==> (first[i].1 is Native
                    && first[i].1->has_idle && visible[i]));
                if before.contains(i as usize) {
                    let k = choose|k: int| 0 <= k < before.len() && before[k] == i as usize;
                    assert(all[k] == i as usize);
                }
                if all.contains(i as usize) {
                    let k = choose|k: int| 0 <= k < all.len() && all[k] == i as usize;
                    assert(k < before.len());
                    assert(before[k] == i as usize);
                }
            } else {
                if uis[i].1 is Native && uis[i].1->has_idle && visible[i] {
                    assert(all.last() == i as usize);
                } else if all.contains(i as usize) {
                    let k = choose|k: int| 0 <= k < all.len() && all[k] == i as usize;
                    assert(before[k] == i as usize);
                }
            }
        }
    }
}

/// A slider starts at the value that its control has, where the bridge has one under the
/// name of the plugin, else at the default.
pub proof fn slider_starts_at_value(
    bridge: ControlBridge,
    name: Seq<char>,
    p: int,
    i: int,
    default: u32,
)
    requires
        0 <= p < bridge.plugins@.len(),
        bridge.plugins@[p].name@ == name,
        forall|q: int| 0 <= q < p ==> (#[trigger] bridge.plugins@[q]).name@ != name,
        0 <= i,
    ensures
        i < bridge.plugins@[p].values@.len() ==> slider_start(bridge, name, i, default)
            == bridge.plugins@[p].values@[i],
        i >= bridge.plugins@[p].values@.len() ==> slider_start(bridge, name, i, default) == default,
{
    let names = bridge.names();
    assert(names[p] == name);
    assert(names.contains(name));
    names.index_of_first_ensures(name);
    let found = names.index_of_first(name)->0;
    assert(names[found] == bridge.plugins@[found].name@);
    assert(found == p);
}

/// A slider of a plugin that has no bridge starts at the default.
pub proof fn slider_without_bridge_starts_at_default(
    bridge: ControlBridge,
    name: Seq<char>,
    i: int,
    default: u32,
)
    requires
        forall|q: int|
            0 <= q < bridge.plugins@.len() ==> (#[trigger] bridge.plugins@[q]).name@ != name,
    ensures
        slider_start(bridge, name, i, default) == default,
{
    let names = bridge.names();
    assert forall|q: int| 0 <= q < names.len() implies #[trigger] names[q] != name by {
        assert(names[q] == bridge.plugins@[q].name@);
    }
    names.index_of_first_ensures(name);
}

/// A window is offered all that the plugin is, access to the instance where there is one,
/// and to be resized.
pub proof fn window_is_offered(base: Seq<Seq<char>>, has_instance: bool)
    ensures
        window_features(base, has_instance).take(base.len() as int) == base,
        window_features(base, has_instance).last()
            == "http://lv2plug.in/ns/extensions/ui#resize"@,
        has_instance ==> window_features(base, has_instance).len() == base.len() + 2
            && window_features(base, has_instance)[base.len() as int]
            == "http://lv2plug.in/ns/ext/instance-access"@,
        !has_instance ==> window_features(base, has_instance).len() == base.len() + 1,
{
    assert(window_features(base, has_instance).take(base.len() as int) =~= base);
}

/// What a window that is being opened holds is given up where it fails, the last first.
pub proof fn failed_window_holds_nothing(stage: ShowStage)
    ensures
        stage matches ShowStage::NeedInstance { host } ==> stage.held() == seq![
            Release::FreeHost(host),
        ],
        stage matches ShowStage::NeedWidget { host, instance } ==> stage.held().reverse() == seq![
            Release::FreeInstance(instance),
            Release::FreeHost(host),
        ],
        stage matches ShowStage::Ready { host, instance, .. } ==> stage.held().reverse() == seq![
            Release::FreeInstance(instance),
            Release::FreeHost(host),
        ],
        stage is NeedHost || stage is Failed ==> stage.held().len() == 0,
{
    let held = stage.held();
    match stage {
        ShowStage::NeedWidget { host, instance } => {
            assert(held.reverse() =~= seq![
                Release::FreeInstance(instance),
                Release::FreeHost(host),
            ]);
        },
        ShowStage::Ready { host, instance, .. } => {
            assert(held.reverse() =~= seq![
                Release::FreeInstance(instance),
                Release::FreeHost(host),
            ]);
        },
        _ => {},
    }
}

/// A window whose URIs and paths are all there, and hold no zero that would end them, is
/// described.
pub proof fn window_with_all_texts_is_described(
    ui: UiDesc,
    plugin_uri: Seq<char>,
    plugin_name: Seq<char>,
    symbols: Map<Seq<char>, u32>,
    indices: Seq<u32>,
)
    requires
        ui.uri is Some,
        ui.bundle_uri is Some,
        ui.binary_uri is Some,
        !plugin_uri.contains('\0'),
        !(ui.uri->0)@.contains('\0'),
        !(ui.bundle_uri->0)@.contains('\0'),
        !(ui.binary_uri->0)@.contains('\0'),
    ensures
        info_of_ui(ui, plugin_uri, plugin_name, symbols, indices) is Some,
{
    path_holds_no_more((ui.bundle_uri->0)@, '\0');
    path_holds_no_more((ui.binary_uri->0)@, '\0');
}

/// The path of a URI holds no character that the URI does not hold.
proof fn path_holds_no_more(uri: Seq<char>, c: char)
    requires
        !uri.contains(c),
    ensures
        !path_of(uri).contains(c),
{
    let path = path_of(uri);
    let n = uri.len() - path.len();
    assert forall|i: int| 0 <= i < path.len() implies #[trigger] path[i] != c by {
        assert(path[i] == uri[n + i]);
        assert(uri.contains(uri[n + i]));
    }
}

/// The window of a plugin is looked for among those of the first plugin of its URI.
pub proof fn window_is_found_at_plugin(
    world: World,
    w: int,
    uri: Seq<char>,
    name: Seq<char>,
    symbols: Map<Seq<char>, u32>,
    indices: Seq<u32>,
)
    requires
        0 <= w < world.plugins@.len(),
        world.plugins@[w].uri@ == uri,
        forall|j: int| 0 <= j < w ==> (#[trigger] world.plugins@[j]).uri@ != uri,
    ensures
        world.plugins@[w].uis is None ==> found_ui(world, uri, name, symbols, indices) is None,
        world.plugins@[w].uis matches Some(uis) ==> {
            &&& best_of(uis@) is None ==> found_ui(world, uri, name, symbols, indices) is None
            &&& best_of(uis@) matches Some(i) ==> found_ui(world, uri, name, symbols, indices)
                == info_of_ui(uis@[i], uri, name, symbols, indices)
        },
{
    crate::world::first_plugin_of_uri(world, uri, w);
    if world.plugins@[w].uis is None {
        known_toolkit_is_found(Seq::<UiDesc>::empty());
    }
}

/// A command is handed on where the thread was started, behind all others, and dropped
/// where it was not.
pub proof fn command_is_sent_when_started(
    started: bool,
    commands: Seq<UiCommandView>,
    command: UiCommandView,
)
    ensures
        started ==> sent_if(started, commands, command).len() == commands.len() + 1 && sent_if(
            started,
            commands,
            command,
        ).last() == command && sent_if(started, commands, command).drop_last() == commands,
        !started ==> sent_if(started, commands, command) == commands,
{
    if started {
        assert(commands.push(command).drop_last() =~= commands);
    }
}

/// A control is written to the first place of the port among the control inputs.
pub proof fn control_is_found_by_port(indices: Seq<u32>, i: int)
    requires
        0 <= i < indices.len(),
        forall|j: int| 0 <= j < i ==> #[trigger] indices[j] != indices[i],
    ensures
        control_place(indices, indices[i]) == Some(i),
        forall|port: u32|
            !indices.contains(port) ==> #[trigger] control_place(indices, port) is None,
{
    assert(indices.contains(indices[i]));
    indices.index_of_first_ensures(indices[i]);
    assert forall|port: u32| !indices.contains(port) implies #[trigger] control_place(
        indices,
        port,
    ) is None by {
        indices.index_of_first_ensures(port);
    }
}

/// The windows that take an event do so once each, in their order.
pub proof fn windows_take_event_in_order(
    uis: Seq<(String, LiveUi)>,
    visible: Seq<bool>,
    plugin_idx: usize,
    event: usize,
) -> (from: Seq<int>)
    ensures
        from.len() == takers(uis, visible, plugin_idx, event).len(),
        forall|a: int, b: int| 0 <= a < b < from.len() ==> #[trigger] from[a] < #[trigger] from[b],
        forall|j: int|
            0 <= j < from.len() ==> 0 <= #[trigger] from[j] < uis.len() && uis[from[j]].1 is Native
                && uis[from[j]].1->plugin_idx == plugin_idx && visible[from[j]] && takers(
                uis,
                visible,
                plugin_idx,
                event,
            )[j] == (uis[from[j]].1->Native_instance, event),
        forall|i: int|
            0 <= i < uis.len() && (#[trigger] uis[i]).1 is Native && uis[i].1->plugin_idx
                == plugin_idx && visible[i] ==> from.contains(i),
    decreases uis.len(),
{
    if uis.len() == 0 {
        Seq::empty()
    } else {
        let first = uis.drop_last();
        let last = uis.len() - 1;
        let before = windows_take_event_in_order(first, visible, plugin_idx, event);
        assert forall|j: int| 0 <= j < before.len() implies uis[#[trigger] before[j]]
            == first[before[j]] by {}
        let from = if uis[last].1 is Native && uis[last].1->plugin_idx == plugin_idx
            && visible[last] {
            before.push(last)
        } else {
            before
        };
        assert forall|i: int|
            0 <= i < uis.len() && (#[trigger] uis[i]).1 is Native && uis[i].1->plugin_idx
                == plugin_idx && visible[i] implies from.contains(i) by {
            if i < last {
                assert(first[i] == uis[i]);
                assert(before.contains(i));
                let k = choose|k: int| 0 <= k < before.len() && before[k] == i;
                assert(from[k] == i);
            } else {
                assert(from[from.len() - 1] == i);
            }
        }
        from
    }
}

/// Events are routed one behind the other: behind what the events before are routed to
/// comes what takes the event, and nothing else.
#[verifier::spinoff_prover]
#[verifier::rlimit(40)]
pub proof fn events_are_routed_in_order(
    uis: Seq<(String, LiveUi)>,
    visible: Seq<bool>,
    events: Seq<AtomUiEvent>,
    e: int,
)
    requires
        0 <= e < events.len(),
    ensures
        ({
            let at = notices_routed(uis, visible, events.take(e)).len() as int;
            let taken = takers(uis, visible, events[e].plugin_idx, e as usize);
            let all = notices_routed(uis, visible, events);
            &&& notices_routed(uis, visible, events.take(e + 1)).len() == at + taken.len()
            &&& at + taken.len() <= all.len()
            &&& all.subrange(at, at + taken.len()) == taken
        }),
        notices_routed(uis, visible, events.take(0)).len() == 0,
        notices_routed(uis, visible, events.take(events.len() as int)) == notices_routed(
            uis,
            visible,
            events,
        ),
    decreases events.len(),
{
    let first = events.drop_last();
    let at = notices_routed(uis, visible, events.take(e)).len() as int;
    let taken = takers(uis, visible, events[e].plugin_idx, e as usize);
    let all = notices_routed(uis, visible, events);
    assert(events.take(events.len() as int) =~= events);
    assert(events.take(e + 1).drop_last() =~= events.take(e));
    assert(events.take(e + 1).last() == events[e]);
    if e < first.len() {
        events_are_routed_in_order(uis, visible, first, e);
        assert(first.take(e) =~= events.take(e));
        assert(first.take(e + 1) =~= events.take(e + 1));
        assert(first[e] == events[e]);
        assert(all.subrange(at, at + taken.len()) =~= notices_routed(
            uis,
            visible,
            first,
        ).subrange(at, at + taken.len()));
    } else {
        assert(first =~= events.take(e));
        assert(all.subrange(at, at + taken.len()) =~= taken);
    }
}

/// All windows are given up one behind the other, each with all that it holds and nothing
/// else.
pub proof fn windows_are_given_up_in_order(uis: Seq<(String, LiveUi)>, i: int)
    requires
        0 <= i < uis.len(),
    ensures
        ({
            let at = all_releases(uis.take(i)).len() as int;
            let all = all_releases(uis);
            let n = if uis[i].1 is Native {
                3int
            } else {
                1int
            };
            &&& all_releases(uis.take(i + 1)).len() == at + n
            &&& at + n <= all.len()
            &&& all[at] == Release::DestroyWindow(uis[i].1.shown_in())
            &&& uis[i].1 matches LiveUi::Native { host, instance, .. } ==> all[at + 1]
                == Release::FreeInstance(instance) && all[at + 2] == Release::FreeHost(host)
        }),
        all_releases(uis.take(0)).len() == 0,
        all_releases(uis.take(uis.len() as int)) == all_releases(uis),
    decreases uis.len(),
{
    let first = uis.drop_last();
    assert(uis.take(uis.len() as int) =~= uis);
    assert(uis.take(i + 1).drop_last() =~= uis.take(i));
    assert(uis.take(i + 1).last() == uis[i]);
    if i < first.len() {
        windows_are_given_up_in_order(first, i);
        assert(first.take(i) =~= uis.take(i));
        assert(first.take(i + 1) =~= uis.take(i + 1));
        assert(first[i] == uis[i]);
    } else {
        assert(first =~= uis.take(i));
    }
}

/// What is seen of a window is what is told of it.
pub proof fn window_is_seen_whole(info: PluginUiInfo)
    ensures
        info@.plugin_name == info.plugin_name@,
        info@.bridge_name == info.bridge_name@,
        info@.plugin_uri == info.plugin_uri@,
        info@.ui_uri == info.ui_uri@,
        info@.ui_type_uri == info.ui_type_uri@,
        info@.ui_bundle_path == info.ui_bundle_path@,
        info@.ui_binary_path == info.ui_binary_path@,
        info@.port_symbol_to_index == info.port_symbol_to_index@,
        info@.control_port_indices == info.control_port_indices@,
{
}

/// What is seen of commands is what they are, in their order.
pub proof fn commands_are_seen(commands: UiCommands, i: int)
    requires
        0 <= i < commands.waiting@.len(),
    ensures
        commands@.len() == commands.waiting@.len(),
        match commands.waiting@[i] {
            UiCommand::Show { info, notify_queue, plugin_idx, instance } => commands@[i] == (
            UiCommandView::Show { info, notify_queue, plugin_idx, instance }),
            UiCommand::ShowGeneric { info } => commands@[i] == (UiCommandView::ShowGeneric {
                info,
            }),
            UiCommand::Present { plugin_name } => commands@[i] == (UiCommandView::Present {
                plugin_name: plugin_name@,
            }),
            UiCommand::Toggle { plugin_name } => commands@[i] == (UiCommandView::Toggle {
                plugin_name: plugin_name@,
            }),
            UiCommand::Hide { plugin_name } => commands@[i] == (UiCommandView::Hide {
                plugin_name: plugin_name@,
            }),
            UiCommand::Shutdown => commands@[i] is Shutdown,
        },
{
}

/// [`port_write`] makes of four bytes without a protocol a value for the control of the port,
/// and of bytes with a protocol an event for the plugin; anything else is ignored.
pub proof fn written_port_is_control_or_event(
    info: &PluginUiInfo,
    plugin_idx: usize,
    port: u32,
    protocol: u32,
    data: &[u8],
    r: PortWrite,
    i: int,
)
    requires
        call_ensures(port_write, (info, plugin_idx, port, protocol, data), r),
        0 <= i < info.control_port_indices@.len() <= usize::MAX,
        forall|j: int|
            0 <= j < i ==> #[trigger] info.control_port_indices@[j]
                != info.control_port_indices@[i],
    ensures
        protocol == 0 && data@.len() == 4 && port == info.control_port_indices@[i] ==> {
            &&& r matches PortWrite::Control { index, value }
            &&& index == i
            &&& bytes::native32(value) == data@
        },
        protocol == 0 && data@.len() == 4 && !info.control_port_indices@.contains(port)
            ==> r is Ignore,
        protocol == 0 && data@.len() != 4 ==> r is Ignore,
        protocol != 0 && data@.len() > 0 ==> {
            &&& r matches PortWrite::Event(e)
            &&& e.plugin_idx == plugin_idx
            &&& e.port_index == port
            &&& e.protocol == protocol
            &&& e.data@ == data@
        },
        data@.len() == 0 ==> r is Ignore,
{
    control_is_found_by_port(info.control_port_indices@, i);
    if data@.len() == 4 {
        bytes::native32_inverse(0, data@);
    }
}

/// [`port_index`] gives the index of the port of a symbol, and the greatest number where there
/// is none.
pub proof fn port_is_found_by_symbol(info: &PluginUiInfo, symbol: &str, r: u32, none: u32)
    requires
        call_ensures(port_index, (info, Some(symbol)), r),
        call_ensures(port_index, (info, None), none),
    ensures
        info.port_symbol_to_index@.contains_key(symbol@) ==> r
            == info.port_symbol_to_index@[symbol@],
        !info.port_symbol_to_index@.contains_key(symbol@) ==> r == u32::MAX,
        none == u32::MAX,
{
}

/// [`sliders`] has a slider for every control of the plugin, in their order, with the range of
/// the control, at the value that the control has.
pub proof fn sliders_show_controls(
    info: &GenericUiInfo,
    bridge: &ControlBridge,
    r: Vec<Slider>,
    p: int,
    i: int,
)
    requires
        call_ensures(sliders, (info, bridge), r),
        0 <= i < info.control_ports@.len(),
        0 <= p < bridge.plugins@.len(),
        bridge.plugins@[p].name@ == info.bridge_name@,
        forall|q: int|
            0 <= q < p ==> (#[trigger] bridge.plugins@[q]).name@ != info.bridge_name@,
    ensures
        r@.len() == info.control_ports@.len(),
        r@[i].label@ == info.control_ports@[i].symbol@,
        r@[i].min == info.control_ports@[i].min,
        r@[i].max == info.control_ports@[i].max,
        r@[i].bridge_index == i,
        i < bridge.plugins@[p].values@.len() ==> r@[i].initial == bridge.plugins@[p].values@[i],
        i >= bridge.plugins@[p].values@.len() ==> r@[i].initial == info.control_ports@[i].default,
{
    slider_starts_at_value(
        *bridge,
        info.bridge_name@,
        p,
        i,
        info.control_ports@[i].default,
    );
}

/// A window that [`UiThreadState::opened`] is told of is presented when
/// [`UiThreadState::command`] is asked to show it again, and is not opened twice.
pub proof fn opened_window_is_not_opened_again(
    state: &mut UiThreadState,
    name: &str,
    ui: LiveUi,
    later: &mut UiThreadState,
    info: PluginUiInfo,
    notify_queue: usize,
    plugin_idx: usize,
    instance: Option<usize>,
    r: UiAction,
)
    requires
        call_ensures(UiThreadState::opened, (state, name, ui), ()),
        *old(later) == *final(state),
        info.plugin_name@ == name@,
        call_ensures(
            UiThreadState::command,
            (later, UiCommand::Show { info, notify_queue, plugin_idx, instance }),
            r,
        ),
    ensures
        r is Present,
        ui matches LiveUi::Native { window, .. } ==> r->Present_window == window,
        ui matches LiveUi::Generic { window } ==> r->Present_window == window,
        final(later).live_uis@ == old(state).live_uis@.insert(name@, ui),
        final(later).running == old(state).running,
{
}

/// After [`UiThreadState::command`] was told to shut down, no window is open and the thread
/// does not run; all that the windows held is given up.
pub proof fn shut_down_thread_holds_nothing(
    state: &mut UiThreadState,
    r: UiAction,
    i: int,
)
    requires
        call_ensures(UiThreadState::command, (state, UiCommand::Shutdown), r),
        0 <= i < old(state).live_uis.entries@.len(),
    ensures
        !final(state).running,
        forall|n: Seq<char>| !#[trigger] final(state).live_uis@.contains_key(n),
        r is Quit,
        r->releases@.contains(
            Release::DestroyWindow(old(state).live_uis.entries@[i].1.shown_in()),
        ),
{
    every_window_is_given_up(old(state).live_uis.entries@, i);
}

/// [`toggle_action`] hides a window that is visible and shows one that is not.
pub proof fn toggled_window_changes(window: usize, visible: bool, r: UiAction)
    requires
        call_ensures(toggle_action, (window, visible), r),
    ensures
        visible ==> r is Hide && r->Hide_window == window,
        !visible ==> r is Present && r->Present_window == window,
{
}

/// [`UiThreadState::route_notices`] hands every event to every visible window that a plugin
/// brought along and that is for the plugin of the event.
pub proof fn routed_notices_reach_windows(
    state: &UiThreadState,
    events: &Vec<AtomUiEvent>,
    visible: &Vec<bool>,
    r: Vec<(usize, usize)>,
    e: int,
    i: int,
)
    requires
        call_ensures(UiThreadState::route_notices, (state, events, visible), r),
        0 <= e < events@.len() <= usize::MAX,
        0 <= i < state.live_uis.entries@.len(),
        state.live_uis.entries@[i].1 is Native,
        visible@[i],
    ensures
        state.live_uis.entries@[i].1->plugin_idx == events@[e].plugin_idx ==> r@.contains(
            (state.live_uis.entries@[i].1->Native_instance, e as usize),
        ),
        forall|k: int| 0 <= k < r@.len() ==> (#[trigger] r@[k]).1 < events@.len(),
{
    let uis = state.live_uis.entries@;
    if uis[i].1->plugin_idx == events@[e].plugin_idx {
        every_event_is_routed(uis, visible@, events@, e, i);
    }
    assert forall|k: int| 0 <= k < r@.len() implies (#[trigger] r@[k]).1 < events@.len() by {
        let found = routed_event_is_for_window(uis, visible@, events@, k);
    }
}

/// [`UiThreadState::idle_windows`] gives time to the visible windows that ask for it.
pub proof fn idle_windows_are_visible(
    state: &UiThreadState,
    visible: &Vec<bool>,
    r: Vec<usize>,
    i: int,
)
    requires
        call_ensures(UiThreadState::idle_windows, (state, visible), r),
        0 <= i < state.live_uis.entries@.len() <= usize::MAX,
    ensures
        r@.contains(i as usize) <==> state.live_uis.entries@[i].1 is Native
            && state.live_uis.entries@[i].1->has_idle && visible@[i],
{
    visible_windows_idle(state.live_uis.entries@, visible@);
}

/// [`ShowStage::next`] opens a window step by step, host, instance and widget; where a step
/// fails, all that the steps before gave is given up.
pub proof fn window_is_opened_step_by_step(
    host: usize,
    instance: usize,
    widget: usize,
    r1: (ShowStage, Vec<Release>),
    r2: (ShowStage, Vec<Release>),
    r3: (ShowStage, Vec<Release>),
    f1: (ShowStage, Vec<Release>),
    f2: (ShowStage, Vec<Release>),
    f3: (ShowStage, Vec<Release>),
)
    requires
        call_ensures(ShowStage::next, (ShowStage::NeedHost, Some(host)), r1),
        call_ensures(ShowStage::next, (r1.0, Some(instance)), r2),
        call_ensures(ShowStage::next, (r2.0, Some(widget)), r3),
        call_ensures(ShowStage::next, (ShowStage::NeedHost, None), f1),
        call_ensures(ShowStage::next, (r1.0, None), f2),
        call_ensures(ShowStage::next, (r2.0, None), f3),
    ensures
        r3.0 == (ShowStage::Ready { host, instance, widget }),
        r1.1@.len() == 0 && r2.1@.len() == 0 && r3.1@.len() == 0,
        f1.0 is Failed && f2.0 is Failed && f3.0 is Failed,
        f1.1@.len() == 0,
        f2.1@ == seq![Release::FreeHost(host)],
        f3.1@ == seq![Release::FreeInstance(instance), Release::FreeHost(host)],
{
    failed_window_holds_nothing(r1.0);
    failed_window_holds_nothing(r2.0);
    assert(f2.1@ =~= seq![Release::FreeHost(host)]);
}

/// [`discover_ui`] finds the window of the first plugin of a URI that suits best, with its own
/// URI, and the names that were given.
pub proof fn discovered_window_is_best(
    world: &World,
    uri: &str,
    name: &str,
    ports: &Vec<(String, u32)>,
    indices: &Vec<u32>,
    r: Option<PluginUiInfo>,
    w: int,
)
    requires
        call_ensures(discover_ui, (world, uri, name, ports, indices), r),
        0 <= w < world.plugins@.len(),
        world.plugins@[w].uri@ == uri@,
        forall|j: int| 0 <= j < w ==> (#[trigger] world.plugins@[j]).uri@ != uri@,
    ensures
        world.plugins@[w].uis is None ==> r is None,
        world.plugins@[w].uis matches Some(uis) ==> {
            &&& (forall|j: int|
                0 <= j < uis@.len() ==> !(#[trigger] uis@[j]).is_gtk && !uis@[j].is_x11
                    && !uis@[j].is_gtk3) ==> r is None
            &&& r matches Some(info) ==> {
                &&& best_of(uis@) is Some
                &&& info.ui_uri@ == (uis@[best_of(uis@)->0].uri->0)@
                &&& info.plugin_uri@ == uri@
                &&& info.plugin_name@ == name@
                &&& info.control_port_indices@ == indices@
            }
        },
{
    window_is_found_at_plugin(
        *world,
        w,
        uri@,
        name@,
        symbols_of(ports@),
        indices@,
    );
    if let Some(uis) = world.plugins@[w].uis {
        known_toolkit_is_found(uis@);
        if let Some(i) = best_of(uis@) {
            window_is_described(uis@[i], uri@, name@, symbols_of(ports@), indices@);
        }
    }
}

/// [`uri_to_path`] gives back the path of a file URI, and any other text as it is.
pub proof fn path_is_taken_from_uri(uri: &str, r: Option<String>, path: Seq<char>)
    requires
        call_ensures(uri_to_path, (uri,), r),
    ensures
        r is Some,
        uri@ == "file://"@ + path ==> (r->0)@ == path,
        !"file://"@.is_prefix_of(uri@) ==> (r->0)@ == uri@,
{
    path_of_file_uri(path);
}

/// Commands are handed on one behind the other: to show a window starts the thread of the
/// windows, and to toggle, to hide or to shut down is dropped where it does not run.
pub proof fn commands_are_handed_on(
    a: &mut UiCommands,
    info: PluginUiInfo,
    notify_queue: usize,
    plugin_idx: usize,
    instance: Option<usize>,
    b: &mut UiCommands,
    generic: GenericUiInfo,
    c: &mut UiCommands,
    d: &mut UiCommands,
    e: &mut UiCommands,
    f: &mut UiCommands,
    name: &str,
)
    requires
        call_ensures(ui_show, (a, info, notify_queue, plugin_idx, instance), ()),
        call_ensures(ui_show_generic, (b, generic), ()),
        call_ensures(ui_present, (c, name), ()),
        call_ensures(ui_toggle, (d, name), ()),
        call_ensures(ui_hide, (e, name), ()),
        call_ensures(ui_shutdown, (f,), ()),
    ensures
        final(a).started && final(b).started && final(c).started,
        final(a)@ == old(a)@.push(
            UiCommandView::Show { info, notify_queue, plugin_idx, instance },
        ),
        final(b)@ == old(b)@.push(UiCommandView::ShowGeneric { info: generic }),
        final(c)@ == old(c)@.push(UiCommandView::Present { plugin_name: name@ }),
        final(d).started == old(d).started,
        final(e).started == old(e).started,
        final(f).started == old(f).started,
        old(d).started ==> final(d)@ == old(d)@.push(UiCommandView::Toggle { plugin_name: name@ }),
        !old(d).started ==> final(d)@ == old(d)@,
        old(e).started ==> final(e)@ == old(e)@.push(UiCommandView::Hide { plugin_name: name@ }),
        !old(e).started ==> final(e)@ == old(e)@,
        old(f).started ==> final(f)@ == old(f)@.push(UiCommandView::Shutdown),
        !old(f).started ==> final(f)@ == old(f)@,
{
}

/// Commands are taken in the order in which they were handed on.
pub proof fn commands_are_taken_in_order(commands: &mut UiCommands, r: Option<UiCommand>)
    requires
        call_ensures(UiCommands::next, (commands,), r),
    ensures
        r is None <==> old(commands)@.len() == 0,
        r matches Some(c) ==> seq![c@] + final(commands)@ == old(commands)@,
        final(commands).started == old(commands).started,
{
    if let Some(c) = r {
        assert(seq![c@] + final(commands)@ =~= old(commands)@);
    }
}

/// [`ui_features`] offers a window what the plugin is offered, access to the instance where
/// there is one, and to be resized.
pub proof fn offered_features_are_those_of_plugin(
    set: &FeatureSet,
    has_instance: bool,
    r: Vec<String>,
    i: int,
)
    requires
        call_ensures(ui_features, (set, has_instance), r),
    ensures
        r@.len() == set.features@.len() + if has_instance {
            2int
        } else {
            1int
        },
        0 <= i < set.features@.len() ==> r@[i]@ == set.features@[i].uri@,
        has_instance ==> r@[set.features@.len() as int]@
            == "http://lv2plug.in/ns/ext/instance-access"@,
        r@.last()@ == "http://lv2plug.in/ns/extensions/ui#resize"@,
{
    let base = set.features@.map_values(|f: crate::features::Feature| f.uri@);
    window_is_offered(base, has_instance);
    let all = text::texts(r@);
    assert(all.len() == r@.len() && base.len() == set.features@.len());
    assert(all.last() == r@.last()@);
    if 0 <= i < base.len() {
        assert(all[i] == r@[i]@);
        assert(all.take(base.len() as int)[i] == all[i]);
        assert(base[i] == set.features@[i].uri@);
    }
    if has_instance {
        assert(all[base.len() as int] == r@[base.len() as int]@);
    }
}

/// [`generic_title`] names the plugin and says that the window is one of sliders;
/// [`LiveUi::window`] is the window that it is shown in; [`copy_numbers`] copies.
pub proof fn window_of_sliders_has_title(
    info: &GenericUiInfo,
    title: String,
    ui: &LiveUi,
    window: usize,
    v: &Vec<u32>,
    copy: Vec<u32>,
)
    requires
        call_ensures(generic_title, (info,), title),
        call_ensures(LiveUi::window, (ui,), window),
        call_ensures(copy_numbers, (v,), copy),
    ensures
        title@ == info.plugin_name@ + " (generic)"@,
        *ui matches LiveUi::Native { window: w, .. } ==> window == w,
        *ui matches LiveUi::Generic { window: w } ==> window == w,
        copy@ == v@,
{
}

/// [`collect_symbols`] lists the indices of ports by their symbols, the last where two share a
/// symbol.
pub proof fn collected_symbols_are_listed(ports: &Vec<(String, u32)>, r: NameMap<u32>, i: int)
    requires
        call_ensures(collect_symbols, (ports,), r),
        0 <= i < ports@.len(),
        forall|j: int| i < j < ports@.len() ==> (#[trigger] ports@[j]).0@ != ports@[i].0@,
    ensures
        r@.contains_key(ports@[i].0@),
        r@[ports@[i].0@] == ports@[i].1,
{
    let keys = ports@.map_values(|p: (String, u32)| p.0@);
    let values = ports@.map_values(|p: (String, u32)| p.1);
    assert(keys[i] == ports@[i].0@ && values[i] == ports@[i].1);
    assert forall|j: int| i < j < keys.len() implies #[trigger] keys[j] != keys[i] by {
        assert(keys[j] == ports@[j].0@);
    }
    names::collected_is_last(keys, values, i);
}

/// A new thread of windows runs without a window, and takes the queue of the first window that
/// [`UiThreadState::command`] is asked to show; later windows and other commands change
/// nothing of it.
pub proof fn first_queue_is_kept(
    new: UiThreadState,
    state: &mut UiThreadState,
    command: UiCommand,
    r: UiAction,
)
    requires
        call_ensures(UiThreadState::new, (), new),
        call_ensures(UiThreadState::command, (state, command), r),
    ensures
        new.running,
        new.notify_queue is None,
        forall|n: Seq<char>| !#[trigger] new.live_uis@.contains_key(n),
        old(state).notify_queue is Some ==> final(state).notify_queue == old(state).notify_queue,
        old(state).notify_queue is None ==> (command matches UiCommand::Show { notify_queue, .. }
            ==> final(state).notify_queue == Some(notify_queue)),
        command !is Show ==> final(state).notify_queue == old(state).notify_queue,
        command !is Shutdown ==> final(state).running == old(state).running
            && final(state).live_uis@ == old(state).live_uis@,
{
}

/// A new list of commands is empty, for a thread that does not run yet.
pub proof fn new_commands_are_none(r: UiCommands)
    requires
        call_ensures(UiCommands::new, (), r),
    ensures
        !r.started,
        r.waiting@.len() == 0,
{
    assert(r@.len() == r.waiting@.len());
}

} // verus!
