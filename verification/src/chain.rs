//! A running chain of plugins.
use vstd::prelude::*;

use crate::bridge;
use crate::bridge::ControlBridge;
use crate::config::ChainConfig;
use crate::error::{Error, ErrorView};
use crate::features::FeatureSet;
use crate::midi::MidiSender;
use crate::names::NameMap;
use crate::plugin;
use crate::plugin::MAX_BUF_FRAMES;
use crate::process::ChainProcessHandler;
use crate::text;
use crate::ui;
use crate::ui::{GenericUiInfo, PluginUiInfo, UiCommandView, UiCommands};
use crate::wiring;
use crate::world::World;

verus! {

/// A JACK client that the ports of a chain are registered with.
pub struct JackClient {
    pub name: String,
    pub sample_rate: u32,
    pub buffer_size: u32,
}

/// A running chain of LV2 plugins wired in series.
///
/// All plugins run in-process within a single JACK client. Audio is routed
/// through memory buffers by the [`ChainProcessHandler`] that belongs to the
/// chain.
///
/// Call [`Chain::stop`] to tear it down.
pub struct Chain {
    pub config: ChainConfig,
    /// Whether the JACK client is active.
    pub active: bool,
    pub control_bridge: ControlBridge,
    pub muted: bool,
    pub midi_senders: NameMap<MidiSender>,
    pub jack_input_port_names: Vec<String>,
    pub jack_output_port_names: Vec<String>,
    pub ui_infos: NameMap<PluginUiInfo>,
    pub generic_ui_infos: NameMap<GenericUiInfo>,
    /// The windows that were opened.
    pub ui_shown: Vec<String>,
    pub plugin_primary_indices: NameMap<usize>,
    /// The number of the queue of events for the windows of this chain.
    pub notify_queue: usize,
    pub features: FeatureSet,
}

/// The number of frames in a block: as configured, else that of the client.
pub open spec fn block_size(config: ChainConfig, client: JackClient) -> u32 {
    match config.buffer_size {
        Some(n) => n,
        None => client.buffer_size,
    }
}

/// Whether chain and handler are a new chain of that configuration.
pub open spec fn is_started<S>(
    chain: Chain,
    handler: ChainProcessHandler<S>,
    config: ChainConfig,
    world: World,
    client: JackClient,
    uris: Seq<Seq<char>>,
    saved: Seq<NameMap<u32>>,
    notify_queue: usize,
    zero: S,
) -> bool {
    let cfgs = config.plugins@;
    let plugins = handler.plugins@;
    let slots = handler.slots@;
    &&& chain.wf()
    &&& handler.wf()
    &&& chain.config.same(config)
    &&& chain.active
    &&& !chain.muted
    &&& chain.ui_shown@.len() == 0
    &&& chain.notify_queue == notify_queue
    &&& plugins.len() == wiring::planned(cfgs).len()
    &&& forall|k: int|
        0 <= k < plugins.len() ==> wiring::is_made(
            #[trigger] plugins[k],
            wiring::planned(cfgs)[k],
            cfgs,
            world,
            block_size(config, client),
            uris,
            saved,
            zero,
        )
    &&& slots == wiring::slots_of(cfgs)
    &&& forall|i: int|
        0 <= i < cfgs.len() ==> crate::config::same_mix(
            #[trigger] handler.slot_mixes@[i],
            cfgs[i].stereo_mix,
        )
    &&& handler.frames == plugin::frames_for(block_size(config, client))
    &&& plugin::all_filled(handler.route_buf@, MAX_BUF_FRAMES as nat, zero)
    &&& wiring::channels_ok(
        cfgs,
        slots,
        wiring::midi_plugins(cfgs, slots, plugins, cfgs.len() as int),
        chain.midi_senders,
        handler.midi_consumers@,
    )
    &&& wiring::windows_ok(
        world,
        config.name@,
        cfgs,
        slots,
        plugins,
        chain.ui_infos,
        chain.generic_ui_infos,
    )
    &&& chain.plugin_primary_indices@ == wiring::primaries(cfgs, slots)
    &&& chain.control_bridge.plugins@.len() == cfgs.len()
    &&& forall|i: int|
        0 <= i < cfgs.len() ==> bridge::bridges(
            #[trigger] chain.control_bridge.plugins@[i],
            plugins[slots[i].primary() as int],
        )
    &&& text::texts(chain.jack_input_port_names@) == wiring::port_names(
        client.name@,
        "audio_in_"@,
        wiring::input_count(slots, plugins),
    )
    &&& text::texts(chain.jack_output_port_names@) == wiring::port_names(
        client.name@,
        "audio_out_"@,
        wiring::output_count(slots, handler.slot_mixes@, plugins),
    )
}

/// What a chain cannot be started for, where it cannot.
pub open spec fn start_error(
    config: ChainConfig,
    world: World,
    client: Result<JackClient, String>,
    instantiated: Seq<bool>,
) -> Option<ErrorView> {
    if config.plugins@.len() == 0 {
        Some(ErrorView::Config("chain has no plugins"@))
    } else {
        match client {
            Err(reason) => Some(ErrorView::Jack("failed to create JACK client: "@ + reason@)),
            Ok(_) => wiring::first_error(
                world,
                config.plugins@,
                instantiated,
                wiring::planned(config.plugins@).len() as int,
            ),
        }
    }
}

impl Chain {
    /// Names are unique, and every bridge is well-formed.
    pub open spec fn wf(self) -> bool {
        &&& self.control_bridge.wf()
        &&& self.midi_senders.wf()
        &&& self.ui_infos.wf()
        &&& self.generic_ui_infos.wf()
        &&& self.plugin_primary_indices.wf()
    }

    /// Makes a chain of the configured plugins, and the handler that processes
    /// audio for it.
    ///
    /// `client` is the JACK client, or why there is none. `instantiated` says of
    /// each instance, in the order of the plan, whether the plugin's own code
    /// could be started. The control values in `saved`, one list for each
    /// plugin, are restored. `zero` is a silent sample.
    pub fn start_with_world<S: Copy>(
        config: &ChainConfig,
        world: &World,
        client: &Result<JackClient, String>,
        features: FeatureSet,
        instantiated: &Vec<bool>,
        saved: &Vec<NameMap<u32>>,
        notify_queue: usize,
        zero: S,
    ) -> (r: Result<(Chain, ChainProcessHandler<S>), Error>)
        requires
            features.mapper.wf(),
            client is Ok ==> 4 * plugin::frames_for(block_size(*config, client->Ok_0))
                <= isize::MAX,
            wiring::ranges_known(*world, config.plugins@, instantiated@),
            saved@.len() == config.plugins@.len(),
            forall|i: int| 0 <= i < saved@.len() ==> (#[trigger] saved@[i]).wf(),
        ensures
            match r {
                Ok((chain, handler)) => {
                    &&& start_error(*config, *world, *client, instantiated@) is None
                    &&& is_started(
                        chain,
                        handler,
                        *config,
                        *world,
                        client->Ok_0,
                        features.mapper@,
                        saved@,
                        notify_queue,
                        zero,
                    )
                    &&& chain.features == features
                },
                Err(e) => start_error(*config, *world, *client, instantiated@) == Some(e@),
            },
    {
        if config.plugins.len() == 0 {
            return Err(Error::Config("chain has no plugins".to_owned()));
        }
        let client = match client {
            Ok(client) => client,
            Err(reason) => {
                return Err(
                    Error::Jack(text::join("failed to create JACK client: ", reason.as_str())),
                );
            },
        };
        let buffer_size: u32 = match config.buffer_size {
            Some(n) => n,
            None => client.buffer_size,
        };
        let made = match wiring::make_instances(
            &config.plugins,
            world,
            buffer_size,
            &features,
            instantiated,
            saved,
            zero,
        ) {
            Ok(made) => made,
            Err(e) => {
                return Err(e);
            },
        };
        let ghost cfgs = config.plugins@;
        assert forall|k: int| 0 <= k < made.plugins@.len() implies (#[trigger]
        made.plugins@[k]).wf() && made.plugins@[k].frames == plugin::frames_for(buffer_size) by {
            assert(wiring::is_made(
                made.plugins@[k],
                wiring::planned(cfgs)[k],
                cfgs,
                *world,
                buffer_size,
                features.mapper@,
                saved@,
                zero,
            ));
        }
        let (midi_senders, midi_consumers) = wiring::open_midi(
            &config.plugins,
            &made.slots,
            &made.plugins,
        );
        let (ui_infos, generic_ui_infos) = wiring::prepare_windows(
            world,
            config.name.as_str(),
            &config.plugins,
            &made.slots,
            &made.plugins,
        );
        let plugin_primary_indices = wiring::name_primaries(&config.plugins, &made.slots);
        assert forall|i: int| 0 <= i < made.primary_indices@.len() implies (#[trigger]
        made.primary_indices@[i]) < made.plugins@.len() by {
            assert(made.slots@[i].within(made.plugins@.len()));
        }
        let control_bridge = ControlBridge::new(&made.plugins, &made.primary_indices);
        let jack_input_port_names = wiring::make_port_names(
            client.name.as_str(),
            "audio_in_",
            wiring::count_inputs(&made.slots, &made.plugins),
        );
        let jack_output_port_names = wiring::make_port_names(
            client.name.as_str(),
            "audio_out_",
            wiring::count_outputs(&made.slots, &made.slot_mixes, &made.plugins),
        );
        proof {
            let places = wiring::midi_plugins(
                cfgs,
                made.slots@,
                made.plugins@,
                cfgs.len() as int,
            );
            wiring::selected_holds(
                cfgs.len() as int,
                |i: int|
                    wiring::wants_midi(
                        cfgs[i],
                        made.plugins@[made.slots@[i].primary() as int],
                    ),
            );
            assert forall|q: int| 0 <= q < midi_consumers@.len() implies (#[trigger]
            midi_consumers@[q]).0 < made.plugins@.len() by {
                assert(made.slots@[places[q]].within(made.plugins@.len()));
            }
        }
        let mut route_buf: Vec<Vec<S>> = Vec::new();
        route_buf.push(plugin::filled(MAX_BUF_FRAMES, zero));
        route_buf.push(plugin::filled(MAX_BUF_FRAMES, zero));
        let frames: usize = if (buffer_size as usize) < MAX_BUF_FRAMES {
            MAX_BUF_FRAMES
        } else {
            buffer_size as usize
        };
        let handler = ChainProcessHandler {
            plugins: made.plugins,
            slots: made.slots,
            slot_mixes: made.slot_mixes,
            midi_consumers,
            route_buf,
            frames,
        };
        let chain = Chain {
            config: config.clone(),
            active: true,
            control_bridge,
            muted: false,
            midi_senders,
            jack_input_port_names,
            jack_output_port_names,
            ui_infos,
            generic_ui_infos,
            ui_shown: Vec::new(),
            plugin_primary_indices,
            notify_queue,
            features,
        };
        Ok((chain, handler))
    }
}

/// What there is of windows: those that were opened, those that can be opened,
/// and the commands to the thread of the windows.
pub ghost struct UiState {
    pub shown: Seq<Seq<char>>,
    pub generic: Map<Seq<char>, GenericUiInfo>,
    pub native: Map<Seq<char>, PluginUiInfo>,
    pub started: bool,
    pub commands: Seq<UiCommandView>,
}

/// Whether there is a window of that name.
pub open spec fn has_window(st: UiState, chain_name: Seq<char>, name: Seq<char>) -> bool {
    ||| st.shown.contains(wiring::ui_key(chain_name, name))
    ||| st.generic.contains_key(name)
    ||| st.native.contains_key(name)
}

/// What becomes of windows when one is to be shown: one that was opened is
/// presented; one that was not is opened, sliders before the plugin's own.
pub open spec fn after_show(
    st: UiState,
    chain_name: Seq<char>,
    primaries: Map<Seq<char>, usize>,
    notify_queue: usize,
    name: Seq<char>,
) -> UiState {
    let key = wiring::ui_key(chain_name, name);
    if st.shown.contains(key) {
        UiState {
            started: true,
            commands: st.commands.push(UiCommandView::Present { plugin_name: key }),
            ..st
        }
    } else if st.generic.contains_key(name) {
        UiState {
            shown: st.shown.push(key),
            generic: st.generic.remove(name),
            native: st.native,
            started: true,
            commands: st.commands.push(UiCommandView::ShowGeneric { info: st.generic[name] }),
        }
    } else if st.native.contains_key(name) {
        let instance = if primaries.contains_key(name) {
            Some(primaries[name])
        } else {
            None
        };
        UiState {
            shown: st.shown.push(key),
            generic: st.generic,
            native: st.native.remove(name),
            started: true,
            commands: st.commands.push(
                UiCommandView::Show {
                    info: st.native[name],
                    notify_queue,
                    plugin_idx: match instance {
                        Some(i) => i,
                        None => 0,
                    },
                    instance,
                },
            ),
        }
    } else {
        st
    }
}

/// What becomes of windows when one is to be toggled: one that was opened is
/// toggled; one that was not is shown.
pub open spec fn after_toggle(
    st: UiState,
    chain_name: Seq<char>,
    primaries: Map<Seq<char>, usize>,
    notify_queue: usize,
    name: Seq<char>,
) -> UiState {
    let key = wiring::ui_key(chain_name, name);
    if st.shown.contains(key) {
        UiState {
            commands: ui::sent_if(
                st.started,
                st.commands,
                UiCommandView::Toggle { plugin_name: key },
            ),
            ..st
        }
    } else {
        after_show(st, chain_name, primaries, notify_queue, name)
    }
}

/// What becomes of windows when several are to be toggled, one after the other.
pub open spec fn after_toggles(
    st: UiState,
    chain_name: Seq<char>,
    primaries: Map<Seq<char>, usize>,
    notify_queue: usize,
    names: Seq<Seq<char>>,
) -> UiState
    decreases names.len(),
{
    if names.len() == 0 {
        st
    } else {
        after_toggle(
            after_toggles(st, chain_name, primaries, notify_queue, names.drop_last()),
            chain_name,
            primaries,
            notify_queue,
            names.last(),
        )
    }
}

/// What becomes of windows when several are to be shown, one after the other.
pub open spec fn after_shows(
    st: UiState,
    chain_name: Seq<char>,
    primaries: Map<Seq<char>, usize>,
    notify_queue: usize,
    names: Seq<Seq<char>>,
) -> UiState
    decreases names.len(),
{
    if names.len() == 0 {
        st
    } else {
        after_show(
            after_shows(st, chain_name, primaries, notify_queue, names.drop_last()),
            chain_name,
            primaries,
            notify_queue,
            names.last(),
        )
    }
}

/// `names`, with those of `more` behind them that are not there yet.
pub open spec fn joined(names: Seq<Seq<char>>, more: Seq<Seq<char>>) -> Seq<Seq<char>>
    decreases more.len(),
{
    if more.len() == 0 {
        names
    } else {
        let before = joined(names, more.drop_last());
        if before.contains(more.last()) {
            before
        } else {
            before.push(more.last())
        }
    }
}

/// The name of the plugin in the key of a window.
pub open spec fn plain_name(chain_name: Seq<char>, key: Seq<char>) -> Seq<char> {
    let prefix = chain_name + "/"@;
    if prefix.is_prefix_of(key) {
        key.skip(prefix.len() as int)
    } else {
        key
    }
}

/// Appends a name that is not there yet.
fn push_new(names: &mut Vec<String>, name: &str)
    ensures
        text::texts(final(names)@) == if text::texts(old(names)@).contains(name@) {
            text::texts(old(names)@)
        } else {
            text::texts(old(names)@).push(name@)
        },
{
    if !text::is_listed(names, name) {
        let ghost start = text::texts(names@);
        names.push(name.to_owned());
        assert(text::texts(names@) =~= start.push(name@));
    }
}

/// Pairs of texts.
pub open spec fn text_pairs(a: Seq<Seq<char>>, b: Seq<Seq<char>>) -> Seq<(Seq<char>, Seq<char>)> {
    Seq::new(bridge::pairs(a.len(), b.len()), |i: int| (a[i], b[i]))
}

/// The views of pairs of strings.
pub open spec fn pair_views(pairs: Seq<(String, String)>) -> Seq<(Seq<char>, Seq<char>)> {
    pairs.map_values(|p: (String, String)| (p.0@, p.1@))
}

/// Pairs of names, as far as both lists go.
fn zip_names(a: &Vec<String>, b: &Vec<String>) -> (r: Vec<(String, String)>)
    ensures
        pair_views(r@) == text_pairs(text::texts(a@), text::texts(b@)),
{
    let mut r: Vec<(String, String)> = Vec::new();
    let mut i: usize = 0;
    while i < a.len() && i < b.len()
        invariant
            i <= a@.len(),
            i <= b@.len(),
            r@.len() == i,
            forall|k: int|
                0 <= k < i ==> (#[trigger] r@[k]).0@ == a@[k]@ && r@[k].1@ == b@[k]@,
        decreases a@.len() - i,
    {
        r.push((a[i].clone(), b[i].clone()));
        i += 1;
    }
    assert(pair_views(r@) =~= text_pairs(text::texts(a@), text::texts(b@)));
    r
}

/// A connection that JACK refused.
pub fn connect_error(src: &str, dst: &str, reason: &str) -> (r: Error)
    ensures
        r@ == ErrorView::Config("connect "@ + src@ + " → "@ + dst@ + ": "@ + reason@),
{
    let mut what = text::join("connect ", src);
    what.append(" → ");
    what.append(dst);
    what.append(": ");
    what.append(reason);
    Error::Config(what)
}

/// Ports that JACK refused to register.
pub fn register_error(is_input: bool, reason: &str) -> (r: Error)
    ensures
        r@ == ErrorView::Jack(
            if is_input {
                "register input port: "@
            } else {
                "register output port: "@
            } + reason@,
        ),
{
    let what = if is_input {
        "register input port: "
    } else {
        "register output port: "
    };
    Error::Jack(text::join(what, reason))
}

/// A client that JACK refused to activate.
pub fn activate_error(reason: &str) -> (r: Error)
    ensures
        r@ == ErrorView::Jack("JACK activate failed: "@ + reason@),
{
    Error::Jack(text::join("JACK activate failed: ", reason))
}

impl Chain {
    /// What there is of windows.
    pub open spec fn ui_state(self, commands: UiCommands) -> UiState {
        UiState {
            shown: text::texts(self.ui_shown@),
            generic: self.generic_ui_infos@,
            native: self.ui_infos@,
            started: commands.started,
            commands: commands@,
        }
    }

    /// The names of all windows: those of plugins, then those of sliders, then
    /// those that were opened, each once.
    pub open spec fn window_names(self) -> Seq<Seq<char>> {
        let plain = text::texts(self.ui_shown@).map_values(
            |key: Seq<char>| plain_name(self.config.name@, key),
        );
        joined(joined(self.ui_infos.order(), self.generic_ui_infos.order()), plain)
    }

    /// The names of the configured plugins.
    pub open spec fn plugin_names(self) -> Seq<Seq<char>> {
        self.config.plugins@.map_values(|p: crate::config::PluginConfig| p.name@)
    }

    /// Mutes the chain, or ends that; whether it is muted now.
    pub fn toggle_mute(&mut self) -> (r: bool)
        ensures
            r == !old(self).muted,
            *final(self) == (Chain { muted: !old(self).muted, ..*old(self) }),
    {
        self.muted = !self.muted;
        self.muted
    }

    /// Whether the chain is muted.
    pub fn is_muted(&self) -> (r: bool)
        ensures
            r == self.muted,
    {
        self.muted
    }

    /// The names of the output ports.
    pub fn output_port_names(&self) -> (r: &Vec<String>)
        ensures
            *r == self.jack_output_port_names,
    {
        &self.jack_output_port_names
    }

    /// The names of the input ports.
    pub fn input_port_names(&self) -> (r: &Vec<String>)
        ensures
            *r == self.jack_input_port_names,
    {
        &self.jack_input_port_names
    }

    /// The connections that lead from this chain to another.
    pub fn connect_to(&self, target: &Chain) -> (r: Result<Vec<(String, String)>, Error>)
        ensures
            match r {
                Ok(pairs) => self.active && pair_views(pairs@) == text_pairs(
                    text::texts(self.jack_output_port_names@),
                    text::texts(target.jack_input_port_names@),
                ),
                Err(e) => !self.active && e@ == ErrorView::Config("chain not active"@),
            },
    {
        if !self.active {
            return Err(Error::Config("chain not active".to_owned()));
        }
        Ok(zip_names(&self.jack_output_port_names, &target.jack_input_port_names))
    }

    /// The connections from the hardware that are made by themselves.
    pub fn auto_inputs(&self, physical: &Vec<String>) -> (r: Vec<(String, String)>)
        ensures
            pair_views(r@) == if self.config.auto_connect_input {
                text_pairs(text::texts(physical@), text::texts(self.jack_input_port_names@))
            } else {
                Seq::empty()
            },
    {
        if self.config.auto_connect_input {
            zip_names(physical, &self.jack_input_port_names)
        } else {
            let r: Vec<(String, String)> = Vec::new();
            assert(pair_views(r@) =~= Seq::empty());
            r
        }
    }

    /// The connections to the hardware that are made by themselves.
    pub fn auto_outputs(&self, physical: &Vec<String>) -> (r: Vec<(String, String)>)
        ensures
            pair_views(r@) == if self.config.auto_connect_output {
                text_pairs(text::texts(self.jack_output_port_names@), text::texts(physical@))
            } else {
                Seq::empty()
            },
    {
        if self.config.auto_connect_output {
            zip_names(&self.jack_output_port_names, physical)
        } else {
            let r: Vec<(String, String)> = Vec::new();
            assert(pair_views(r@) =~= Seq::empty());
            r
        }
    }

    /// Set a control port value on a running plugin.
    pub fn set_control(&mut self, plugin_name: &str, port: &str, value: u32) -> (r: Result<
        (),
        Error,
    >)
        requires
            old(self).wf(),
        ensures
            final(self).wf(),
            *final(self) == (Chain { control_bridge: final(self).control_bridge, ..*old(self) }),
            match old(self).control_bridge.names().index_of_first(plugin_name@) {
                None => {
                    &&& r matches Err(e)
                    &&& e@ == ErrorView::PluginNotFound { name: plugin_name@ }
                    &&& *final(self) == *old(self)
                },
                Some(p) => {
                    let symbols = text::texts(old(self).control_bridge.plugins@[p].symbols@);
                    match symbols.index_of_last(port@) {
                        None => {
                            &&& r matches Err(e)
                            &&& e@ == ErrorView::ControlPortNotFound {
                                name: plugin_name@,
                                port: port@,
                            }
                            &&& *final(self) == *old(self)
                        },
                        Some(i) => r is Ok && final(self).control_bridge.is_set(
                            old(self).control_bridge,
                            p,
                            i,
                            value,
                        ),
                    }
                },
            },
    {
        self.control_bridge.set_control(plugin_name, port, value)
    }

    /// Get a [`MidiSender`] for pushing MIDI events to the named plugin.
    pub fn midi_sender(&mut self, plugin_name: &str) -> (r: Result<&mut MidiSender, Error>)
        requires
            old(self).wf(),
        ensures
            final(self).wf(),
            *final(self) == (Chain { midi_senders: final(self).midi_senders, ..*old(self) }),
            match r {
                Ok(sender) => {
                    &&& old(self).midi_senders@.contains_key(plugin_name@)
                    &&& *sender == old(self).midi_senders@[plugin_name@]
                    &&& final(self).midi_senders@ == old(self).midi_senders@.insert(
                        plugin_name@,
                        *final(sender),
                    )
                },
                Err(e) => {
                    &&& !old(self).midi_senders@.contains_key(plugin_name@)
                    &&& e@ == ErrorView::PluginNotFound { name: plugin_name@ }
                    &&& final(self).midi_senders@ == old(self).midi_senders@
                },
            },
    {
        match self.midi_senders.get_mut(plugin_name) {
            Some(sender) => Ok(sender),
            None => Err(Error::PluginNotFound { name: plugin_name.to_owned() }),
        }
    }

    /// Get the [`MidiSender`] when exactly one plugin in the chain accepts MIDI.
    pub fn sole_midi_sender(&mut self) -> (r: Result<&mut MidiSender, Error>)
        requires
            old(self).wf(),
        ensures
            final(self).wf(),
            *final(self) == (Chain { midi_senders: final(self).midi_senders, ..*old(self) }),
            match r {
                Ok(sender) => {
                    let names = old(self).midi_senders.order();
                    &&& names.len() == 1
                    &&& *sender == old(self).midi_senders@[names[0]]
                    &&& final(self).midi_senders@ == old(self).midi_senders@.insert(
                        names[0],
                        *final(sender),
                    )
                },
                Err(e) => {
                    &&& old(self).midi_senders.order().len() != 1
                    &&& e@ == ErrorView::AmbiguousMidi {
                        count: old(self).midi_senders.order().len(),
                    }
                    &&& final(self).midi_senders@ == old(self).midi_senders@
                },
            },
    {
        if self.midi_senders.len() != 1 {
            return Err(Error::AmbiguousMidi { count: self.midi_senders.len() });
        }
        Ok(self.midi_senders.value_at_mut(0))
    }

    /// Show the plugin UI window.
    pub fn show_ui(&mut self, commands: &mut UiCommands, plugin_name: &str) -> (r: Result<
        (),
        Error,
    >)
        requires
            old(self).wf(),
        ensures
            final(self).wf(),
            *final(self) == (Chain {
                ui_shown: final(self).ui_shown,
                ui_infos: final(self).ui_infos,
                generic_ui_infos: final(self).generic_ui_infos,
                ..*old(self)
            }),
            final(self).ui_state(*final(commands)) == after_show(
                old(self).ui_state(*old(commands)),
                old(self).config.name@,
                old(self).plugin_primary_indices@,
                old(self).notify_queue,
                plugin_name@,
            ),
            match r {
                Ok(()) => has_window(
                    old(self).ui_state(*old(commands)),
                    old(self).config.name@,
                    plugin_name@,
                ),
                Err(e) => {
                    &&& !has_window(
                        old(self).ui_state(*old(commands)),
                        old(self).config.name@,
                        plugin_name@,
                    )
                    &&& e@ == ErrorView::PluginNotFound { name: plugin_name@ }
                },
            },
            r is Ok ==> text::texts(final(self).ui_shown@).contains(
                wiring::ui_key(old(self).config.name@, plugin_name@),
            ),
    {
        let key = wiring::make_ui_key(self.config.name.as_str(), plugin_name);
        if text::is_listed(&self.ui_shown, key.as_str()) {
            ui::ui_present(commands, key.as_str());
            return Ok(());
        }
        let ghost n = self.ui_shown@.len() as int;
        let r = self.open_ui(commands, plugin_name);
        assert(r is Ok ==> text::texts(self.ui_shown@)[n] == key@);
        r
    }

    /// Hide the plugin UI window where it is visible, else show it.
    fn toggle_ui(&mut self, commands: &mut UiCommands, plugin_name: &str) -> (r: Result<
        (),
        Error,
    >)
        requires
            old(self).wf(),
        ensures
            final(self).wf(),
            *final(self) == (Chain {
                ui_shown: final(self).ui_shown,
                ui_infos: final(self).ui_infos,
                generic_ui_infos: final(self).generic_ui_infos,
                ..*old(self)
            }),
            final(self).ui_state(*final(commands)) == after_toggle(
                old(self).ui_state(*old(commands)),
                old(self).config.name@,
                old(self).plugin_primary_indices@,
                old(self).notify_queue,
                plugin_name@,
            ),
            match r {
                Ok(()) => has_window(
                    old(self).ui_state(*old(commands)),
                    old(self).config.name@,
                    plugin_name@,
                ),
                Err(e) => {
                    &&& !has_window(
                        old(self).ui_state(*old(commands)),
                        old(self).config.name@,
                        plugin_name@,
                    )
                    &&& e@ == ErrorView::PluginNotFound { name: plugin_name@ }
                },
            },
    {
        let key = wiring::make_ui_key(self.config.name.as_str(), plugin_name);
        if text::is_listed(&self.ui_shown, key.as_str()) {
            ui::ui_toggle(commands, key.as_str());
            return Ok(());
        }
        self.open_ui(commands, plugin_name)
    }

    /// Open the plugin UI window, for the first time.
    fn open_ui(&mut self, commands: &mut UiCommands, plugin_name: &str) -> (r: Result<
        (),
        Error,
    >)
        requires
            old(self).wf(),
            !text::texts(old(self).ui_shown@).contains(
                wiring::ui_key(old(self).config.name@, plugin_name@),
            ),
        ensures
            final(self).wf(),
            *final(self) == (Chain {
                ui_shown: final(self).ui_shown,
                ui_infos: final(self).ui_infos,
                generic_ui_infos: final(self).generic_ui_infos,
                ..*old(self)
            }),
            final(self).ui_state(*final(commands)) == after_show(
                old(self).ui_state(*old(commands)),
                old(self).config.name@,
                old(self).plugin_primary_indices@,
                old(self).notify_queue,
                plugin_name@,
            ),
            match r {
                Ok(()) => has_window(
                    old(self).ui_state(*old(commands)),
                    old(self).config.name@,
                    plugin_name@,
                ),
                Err(e) => {
                    &&& !has_window(
                        old(self).ui_state(*old(commands)),
                        old(self).config.name@,
                        plugin_name@,
                    )
                    &&& e@ == ErrorView::PluginNotFound { name: plugin_name@ }
                },
            },
    {
        let key = wiring::make_ui_key(self.config.name.as_str(), plugin_name);
        let ghost shown = text::texts(self.ui_shown@);
        let generic = self.generic_ui_infos.remove(plugin_name);
        match generic {
            Some(info) => {
                ui::ui_show_generic(commands, info);
                self.ui_shown.push(key);
                assert(text::texts(self.ui_shown@) =~= shown.push(key@));
                return Ok(());
            },
            None => {},
        }
        let native = self.ui_infos.remove(plugin_name);
        match native {
            Some(info) => {
                let instance: Option<usize> = match self.plugin_primary_indices.get(plugin_name) {
                    Some(i) => Some(*i),
                    None => None,
                };
                let plugin_idx: usize = match instance {
                    Some(i) => i,
                    None => 0,
                };
                ui::ui_show(commands, info, self.notify_queue, plugin_idx, instance);
                self.ui_shown.push(key);
                assert(text::texts(self.ui_shown@) =~= shown.push(key@));
                Ok(())
            },
            None => Err(Error::PluginNotFound { name: plugin_name.to_owned() }),
        }
    }

    /// Hide the plugin UI window.
    pub fn hide_ui(&self, commands: &mut UiCommands, plugin_name: &str) -> (r: Result<(), Error>)
        ensures
            r is Ok,
            final(commands).started == old(commands).started,
            final(commands)@ == ui::sent_if(
                old(commands).started,
                old(commands)@,
                UiCommandView::Hide {
                    plugin_name: wiring::ui_key(self.config.name@, plugin_name@),
                },
            ),
    {
        let key = wiring::make_ui_key(self.config.name.as_str(), plugin_name);
        ui::ui_hide(commands, key.as_str());
        Ok(())
    }

    /// The names of all windows.
    fn list_windows(&self) -> (names: Vec<String>)
        ensures
            text::texts(names@) == self.window_names(),
    {
        let prefix = text::join(self.config.name.as_str(), "/");
        let mut names: Vec<String> = Vec::new();
        let ghost native = self.ui_infos.order();
        let ghost generic = self.generic_ui_infos.order();
        let ghost plain = text::texts(self.ui_shown@).map_values(
            |key: Seq<char>| plain_name(self.config.name@, key),
        );
        let mut i: usize = 0;
        assert(text::texts(names@) =~= native.take(0));
        while i < self.ui_infos.len()
            invariant
                native == self.ui_infos.order(),
                i <= native.len(),
                text::texts(names@) == native.take(i as int),
            decreases native.len() - i,
        {
            let ghost before = text::texts(names@);
            names.push(self.ui_infos.key_at(i).to_owned());
            assert(text::texts(names@) =~= before.push(native[i as int]));
            assert(native.take(i + 1) =~= before.push(native[i as int]));
            i += 1;
        }
        assert(native.take(i as int) =~= native);
        let mut j: usize = 0;
        assert(generic.take(0) =~= Seq::empty());
        while j < self.generic_ui_infos.len()
            invariant
                generic == self.generic_ui_infos.order(),
                j <= generic.len(),
                text::texts(names@) == joined(native, generic.take(j as int)),
            decreases generic.len() - j,
        {
            proof {
                assert(generic.take(j + 1).drop_last() =~= generic.take(j as int));
                assert(generic.take(j + 1).last() == generic[j as int]);
            }
            push_new(&mut names, self.generic_ui_infos.key_at(j));
            j += 1;
        }
        assert(generic.take(j as int) =~= generic);
        let ghost both = joined(native, generic);
        let mut k: usize = 0;
        assert(plain.take(0) =~= Seq::empty());
        while k < self.ui_shown.len()
            invariant
                prefix@ == self.config.name@ + "/"@,
                plain == text::texts(self.ui_shown@).map_values(
                    |key: Seq<char>| plain_name(self.config.name@, key),
                ),
                k <= self.ui_shown@.len(),
                text::texts(names@) == joined(both, plain.take(k as int)),
            decreases self.ui_shown@.len() - k,
        {
            proof {
                assert(plain.take(k + 1).drop_last() =~= plain.take(k as int));
                assert(plain.take(k + 1).last() == plain[k as int]);
            }
            let key = self.ui_shown[k].as_str();
            let name = match text::strip_prefix(key, prefix.as_str()) {
                Some(rest) => rest,
                None => key,
            };
            assert(name@ == plain[k as int]);
            push_new(&mut names, name);
            k += 1;
        }
        assert(plain.take(k as int) =~= plain);
        names
    }

    /// Show UI windows for all plugins that have UIs.
    pub fn show_all_ui(&mut self, commands: &mut UiCommands) -> (r: Result<(), Error>)
        requires
            old(self).wf(),
        ensures
            r is Ok,
            final(self).wf(),
            *final(self) == (Chain {
                ui_shown: final(self).ui_shown,
                ui_infos: final(self).ui_infos,
                generic_ui_infos: final(self).generic_ui_infos,
                ..*old(self)
            }),
            final(self).ui_state(*final(commands)) == after_shows(
                old(self).ui_state(*old(commands)),
                old(self).config.name@,
                old(self).plugin_primary_indices@,
                old(self).notify_queue,
                old(self).window_names(),
            ),
    {
        let names = self.list_windows();
        let ghost start = *self;
        let ghost state = self.ui_state(*commands);
        let ghost all = text::texts(names@);
        let mut i: usize = 0;
        assert(all.take(0) =~= Seq::empty());
        while i < names.len()
            invariant
                start == *old(self),
                all == text::texts(names@),
                i <= names@.len(),
                self.wf(),
                *self == (Chain {
                    ui_shown: self.ui_shown,
                    ui_infos: self.ui_infos,
                    generic_ui_infos: self.generic_ui_infos,
                    ..start
                }),
                self.ui_state(*commands) == after_shows(
                    state,
                    start.config.name@,
                    start.plugin_primary_indices@,
                    start.notify_queue,
                    all.take(i as int),
                ),
            decreases names@.len() - i,
        {
            proof {
                assert(all.take(i + 1).drop_last() =~= all.take(i as int));
                assert(all.take(i + 1).last() == names@[i as int]@);
            }
            let _ = self.show_ui(commands, names[i].as_str());
            i += 1;
        }
        assert(all.take(i as int) =~= all);
        Ok(())
    }

    /// Hide UI windows for all plugins.
    pub fn hide_all_ui(&self, commands: &mut UiCommands) -> (r: Result<(), Error>)
        ensures
            r is Ok,
            final(commands).started == old(commands).started,
            final(commands)@ == old(commands)@ + if old(commands).started {
                self.plugin_names().map_values(
                    |n: Seq<char>|
                        UiCommandView::Hide { plugin_name: wiring::ui_key(self.config.name@, n) },
                )
            } else {
                Seq::empty()
            },
    {
        let ghost start = commands@;
        let ghost hides = self.plugin_names().map_values(
            |n: Seq<char>|
                UiCommandView::Hide { plugin_name: wiring::ui_key(self.config.name@, n) },
        );
        let started: bool = commands.started;
        let mut i: usize = 0;
        assert(start + hides.take(0) =~= start);
        assert(start + Seq::<UiCommandView>::empty() =~= start);
        while i < self.config.plugins.len()
            invariant
                start == old(commands)@,
                started == old(commands).started,
                hides == self.plugin_names().map_values(
                    |n: Seq<char>|
                        UiCommandView::Hide { plugin_name: wiring::ui_key(self.config.name@, n) },
                ),
                i <= self.config.plugins@.len(),
                commands.started == started,
                commands@ == start + if started {
                    hides.take(i as int)
                } else {
                    Seq::empty()
                },
            decreases self.config.plugins@.len() - i,
        {
            let ghost before = commands@;
            let _ = self.hide_ui(commands, self.config.plugins[i].name.as_str());
            assert(started ==> commands@ =~= start + hides.take(i + 1));
            i += 1;
        }
        assert(hides.take(i as int) =~= hides);
        Ok(())
    }

    /// Toggle UI windows for all plugins: those that are visible are hidden, and
    /// the others are shown.
    pub fn toggle_all_ui(&mut self, commands: &mut UiCommands) -> (r: Result<(), Error>)
        requires
            old(self).wf(),
        ensures
            r is Ok,
            final(self).wf(),
            *final(self) == (Chain {
                ui_shown: final(self).ui_shown,
                ui_infos: final(self).ui_infos,
                generic_ui_infos: final(self).generic_ui_infos,
                ..*old(self)
            }),
            final(self).ui_state(*final(commands)) == after_toggles(
                old(self).ui_state(*old(commands)),
                old(self).config.name@,
                old(self).plugin_primary_indices@,
                old(self).notify_queue,
                old(self).window_names(),
            ),
    {
        let names = self.list_windows();
        let ghost start = *self;
        let ghost state = self.ui_state(*commands);
        let ghost all = text::texts(names@);
        let mut i: usize = 0;
        assert(all.take(0) =~= Seq::empty());
        while i < names.len()
            invariant
                start == *old(self),
                all == text::texts(names@),
                i <= names@.len(),
                self.wf(),
                *self == (Chain {
                    ui_shown: self.ui_shown,
                    ui_infos: self.ui_infos,
                    generic_ui_infos: self.generic_ui_infos,
                    ..start
                }),
                self.ui_state(*commands) == after_toggles(
                    state,
                    start.config.name@,
                    start.plugin_primary_indices@,
                    start.notify_queue,
                    all.take(i as int),
                ),
            decreases names@.len() - i,
        {
            proof {
                assert(all.take(i + 1).drop_last() =~= all.take(i as int));
                assert(all.take(i + 1).last() == names@[i as int]@);
            }
            let _ = self.toggle_ui(commands, names[i].as_str());
            i += 1;
        }
        assert(all.take(i as int) =~= all);
        Ok(())
    }

    /// In-process plugins cannot die independently. This is a no-op.
    pub fn check_health(&mut self)
        ensures
            *final(self) == *old(self),
    {
    }

    /// Tear down the chain. The result is what is to be saved: for each plugin
    /// that has controls its name and their values.
    pub fn stop(&mut self) -> (saved: Vec<(String, NameMap<u32>)>)
        requires
            old(self).wf(),
        ensures
            final(self).wf(),
            !final(self).active,
            final(self).midi_senders@ == Map::<Seq<char>, MidiSender>::empty(),
            *final(self) == (Chain {
                active: false,
                midi_senders: final(self).midi_senders,
                ..*old(self)
            }),
            is_saved(old(self).control_bridge, saved@),
    {
        let saved = self.save_all_state();
        self.midi_senders.clear();
        self.active = false;
        saved
    }

    /// Returns `true` if the JACK client is still active.
    pub fn is_running(&self) -> (r: bool)
        ensures
            r == self.active,
    {
        self.active
    }

    /// Port names for the chain's JACK audio inputs.
    pub fn chain_input_ports(&self) -> (r: Option<Vec<String>>)
        ensures
            match r {
                Some(names) => names@ == self.jack_input_port_names@ && names@.len() > 0,
                None => self.jack_input_port_names@.len() == 0,
            },
    {
        if self.jack_input_port_names.len() == 0 {
            None
        } else {
            Some(text::copy_list(&self.jack_input_port_names))
        }
    }

    /// Port names for the chain's JACK audio outputs.
    pub fn chain_output_ports(&self) -> (r: Option<Vec<String>>)
        ensures
            match r {
                Some(names) => names@ == self.jack_output_port_names@ && names@.len() > 0,
                None => self.jack_output_port_names@.len() == 0,
            },
    {
        if self.jack_output_port_names.len() == 0 {
            None
        } else {
            Some(text::copy_list(&self.jack_output_port_names))
        }
    }

    /// Snapshot of control values for all plugins. Where two plugins share a
    /// name, it names the last.
    pub fn all_controls(&self) -> (r: NameMap<NameMap<u32>>)
        requires
            self.wf(),
        ensures
            r.wf(),
            forall|n: Seq<char>| #[trigger]
                r@.contains_key(n) <==> self.control_bridge.names().contains(n),
            forall|n: Seq<char>| #[trigger]
                r@.contains_key(n) ==> r@[n].wf() && r@[n]@
                    == self.control_bridge.plugins@[self.control_bridge.names().index_of_last(
                    n,
                )->0].controls(),
    {
        self.control_bridge.all_controls()
    }

    /// What is to be saved.
    fn save_all_state(&self) -> (saved: Vec<(String, NameMap<u32>)>)
        requires
            self.wf(),
        ensures
            is_saved(self.control_bridge, saved@),
    {
        let mut saved: Vec<(String, NameMap<u32>)> = Vec::new();
        let ghost names = self.control_bridge.names();
        let mut all = self.control_bridge.all_controls();
        let ghost values = all@;
        let ghost order = all.order();
        assert(saved_names(saved@) =~= Seq::empty());
        while all.entries.len() > 0
            invariant
                self.wf(),
                names == self.control_bridge.names(),
                all.wf(),
                order.no_duplicates(),
                all.order().is_prefix_of(order),
                forall|n: Seq<char>| #[trigger] values.contains_key(n) <==> names.contains(n),
                forall|n: Seq<char>| order.contains(n) <==> #[trigger] values.contains_key(n),
                forall|n: Seq<char>| #[trigger]
                    values.contains_key(n) ==> values[n].wf() && values[n]@
                        == self.control_bridge.plugins@[names.index_of_last(n)->0].controls(),
                forall|n: Seq<char>| #[trigger]
                    all@.contains_key(n) ==> values.contains_key(n) && all@[n] == values[n],
                saved_names(saved@).no_duplicates(),
                forall|i: int|
                    0 <= i < saved@.len() ==> values.contains_key((#[trigger] saved@[i]).0@)
                        && saved@[i].1 == values[saved@[i].0@] && saved@[i].1.order().len() > 0
                        && !all.order().contains(saved@[i].0@),
                forall|n: Seq<char>| #[trigger]
                    values.contains_key(n) && values[n].order().len() > 0 ==> all.order().contains(
                        n,
                    ) || saved_names(saved@).contains(n),
            decreases all.entries@.len(),
        {
            let ghost before = all;
            let ghost saved_before = saved@;
            let last = all.entries.pop();
            proof {
                let was = before.order();
                let now = all.order();
                assert(now =~= was.drop_last());
                assert(was.drop_last().is_prefix_of(order)) by {
                    assert(order.take(was.len() as int).take(was.len() - 1) =~= order.take(
                        was.len() - 1,
                    ));
                }
                assert(now.no_duplicates());
                assert forall|n: Seq<char>| #[trigger] all@.contains_key(n) implies before@.contains_key(
                    n,
                ) && all@[n] == before@[n] by {
                    let i = now.index_of(n);
                    assert(was[i] == n);
                    assert(was.index_of(n) == i);
                }
                let n = was.last();
                assert(was[was.len() - 1] == n);
                assert(before@.contains_key(n));
                assert(was.index_of(n) == was.len() - 1);
                assert(!now.contains(n));
                assert forall|m: Seq<char>| was.contains(m) implies now.contains(m) || m == n by {
                    let i = was.index_of(m);
                    if i < now.len() {
                        assert(now[i] == m);
                    }
                }
                assert forall|m: Seq<char>| now.contains(m) implies was.contains(m) by {
                    let i = now.index_of(m);
                    assert(was[i] == m);
                }
            }
            match last {
                Some((name, controls)) => {
                    if controls.len() > 0 {
                        saved.push((name, controls));
                        proof {
                            let was = saved_names(saved_before);
                            let now = saved_names(saved@);
                            assert(now =~= was.push(name@));
                            assert forall|i: int| 0 <= i < was.len() implies was[i] != name@ by {
                                assert(!before.order().contains(saved_before[i].0@));
                            }
                            assert(now.no_duplicates());
                            assert(now[was.len() as int] == name@);
                            assert forall|m: Seq<char>| was.contains(m) implies now.contains(m) by {
                                assert(now[was.index_of(m)] == m);
                            }
                        }
                    }
                },
                None => {},
            }
        }
        proof {
            assert(all.order() =~= Seq::empty());
            assert forall|i: int| 0 <= i < saved@.len() implies {
                &&& names.contains((#[trigger] saved@[i]).0@)
                &&& saved@[i].1.wf()
                &&& saved@[i].1@ == self.control_bridge.plugins@[names.index_of_last(
                    saved@[i].0@,
                )->0].controls()
            } by {
                assert(values.contains_key(saved@[i].0@));
            }
            assert forall|n: Seq<char>|
                names.contains(n) && self.control_bridge.plugins@[names.index_of_last(
                    n,
                )->0].symbols@.len() > 0 implies #[trigger] saved_names(saved@).contains(n) by {
                assert(values.contains_key(n));
                let b = self.control_bridge.plugins@[names.index_of_last(n)->0];
                let symbol = text::texts(b.symbols@)[0];
                assert(text::texts(b.symbols@).contains(symbol));
                assert(values[n]@.contains_key(symbol));
                assert(values[n].order().contains(symbol));
            }
        }
        saved
    }
}

/// The names in a list of what is to be saved.
pub open spec fn saved_names(saved: Seq<(String, NameMap<u32>)>) -> Seq<Seq<char>> {
    saved.map_values(|s: (String, NameMap<u32>)| s.0@)
}

/// Whether `saved` is what is to be saved of the control values: of each plugin
/// that has controls all of them, once. Where two plugins share a name, the last
/// counts.
pub open spec fn is_saved(bridge: ControlBridge, saved: Seq<(String, NameMap<u32>)>) -> bool {
    let names = bridge.names();
    &&& saved_names(saved).no_duplicates()
    &&& forall|i: int|
        0 <= i < saved.len() ==> {
            &&& names.contains((#[trigger] saved[i]).0@)
            &&& saved[i].1.wf()
            &&& saved[i].1.order().len() > 0
            &&& saved[i].1@ == bridge.plugins@[names.index_of_last(saved[i].0@)->0].controls()
        }
    &&& forall|n: Seq<char>|
        names.contains(n) && bridge.plugins@[names.index_of_last(n)->0].symbols@.len() > 0
            ==> #[trigger] saved_names(saved).contains(n)
}

/// Messages for a plugin that gets MIDI go to the instance that stands for it:
/// the sender of its name leads to the channel of that instance, where no later
/// plugin of the same name gets MIDI.
pub proof fn sender_leads_to_plugin<S>(
    chain: Chain,
    handler: ChainProcessHandler<S>,
    config: ChainConfig,
    world: World,
    client: JackClient,
    uris: Seq<Seq<char>>,
    saved: Seq<NameMap<u32>>,
    notify_queue: usize,
    zero: S,
    i: int,
)
    requires
        is_started(chain, handler, config, world, client, uris, saved, notify_queue, zero),
        0 <= i < config.plugins@.len(),
        wiring::wants_midi(
            config.plugins@[i],
            handler.plugins@[handler.slots@[i].primary() as int],
        ),
        forall|j: int|
            i < j < config.plugins@.len() && wiring::wants_midi(
                config.plugins@[j],
                handler.plugins@[handler.slots@[j].primary() as int],
            ) ==> (#[trigger] config.plugins@[j]).name@ != config.plugins@[i].name@,
    ensures
        chain.midi_senders@.contains_key(config.plugins@[i].name@),
        exists|q: int|
            0 <= q < handler.midi_consumers@.len() && (#[trigger] handler.midi_consumers@[q]).0
                == handler.slots@[i].primary()
                && chain.midi_senders@[config.plugins@[i].name@].ever_sent()
                == handler.midi_consumers@[q].1.coming(),
{
    let cfgs = config.plugins@;
    let plugins = handler.plugins@;
    let slots = handler.slots@;
    let n = cfgs.len() as int;
    let wants = |k: int| wiring::wants_midi(cfgs[k], plugins[slots[k].primary() as int]);
    let places = wiring::midi_plugins(cfgs, slots, plugins, n);
    assert(places == wiring::selected(n, wants));
    wiring::selected_holds(n, wants);
    wiring::selected_rises(n, wants);
    assert(wants(i));
    let a = places.index_of(i);
    let keys = wiring::names_at(cfgs, places);
    let name = cfgs[i].name@;
    assert(keys[a] == name);
    assert(keys.contains(name));
    keys.index_of_last_ensures(name);
    let q = keys.index_of_last(name)->0;
    assert(a <= q);
    assert(wants(places[q]));
    assert(places[q] == i);
    assert(handler.midi_consumers@[q].0 == slots[i].primary());
}

/// There is a MIDI route under a name just where a plugin of that name gets MIDI:
/// always or never as its configuration says, else as its ports do.
pub proof fn midi_route_where_wanted<S>(
    chain: Chain,
    handler: ChainProcessHandler<S>,
    config: ChainConfig,
    world: World,
    client: JackClient,
    uris: Seq<Seq<char>>,
    saved: Seq<NameMap<u32>>,
    notify_queue: usize,
    zero: S,
    name: Seq<char>,
)
    requires
        is_started(chain, handler, config, world, client, uris, saved, notify_queue, zero),
    ensures
        chain.midi_senders@.contains_key(name) <==> exists|i: int|
            0 <= i < config.plugins@.len() && (#[trigger] config.plugins@[i]).name@ == name
                && wiring::wants_midi(
                config.plugins@[i],
                handler.plugins@[handler.slots@[i].primary() as int],
            ),
{
    let cfgs = config.plugins@;
    let plugins = handler.plugins@;
    let slots = handler.slots@;
    let n = cfgs.len() as int;
    let wants = |k: int| wiring::wants_midi(cfgs[k], plugins[slots[k].primary() as int]);
    let places = wiring::midi_plugins(cfgs, slots, plugins, n);
    assert(places == wiring::selected(n, wants));
    wiring::selected_holds(n, wants);
    let keys = wiring::names_at(cfgs, places);
    if keys.contains(name) {
        let q = keys.index_of(name);
        assert(wants(places[q]));
        assert(cfgs[places[q]].name@ == name);
    }
    if exists|i: int|
        0 <= i < cfgs.len() && (#[trigger] cfgs[i]).name@ == name && wiring::wants_midi(
            cfgs[i],
            plugins[slots[i].primary() as int],
        ) {
        let i = choose|i: int|
            0 <= i < cfgs.len() && (#[trigger] cfgs[i]).name@ == name && wiring::wants_midi(
                cfgs[i],
                plugins[slots[i].primary() as int],
            );
        assert(wants(i));
        assert(keys[places.index_of(i)] == name);
    }
}

/// Every instance of a chain follows the control values of its own plugin, and
/// of no other.
pub proof fn instances_follow_controls(
    config: ChainConfig,
    bridges: Seq<bridge::PluginControlBridge>,
    p: int,
    vals: Seq<u32>,
)
    requires
        bridges.len() == config.plugins@.len(),
        wiring::planned(config.plugins@).len() <= usize::MAX,
        0 <= p < wiring::planned(config.plugins@).len(),
    ensures
        bridge::synced(
            bridges,
            wiring::slots_of(config.plugins@),
            bridge::pairs(bridges.len(), wiring::slots_of(config.plugins@).len()) as int,
            p,
            vals,
        ) == bridge::overlaid(
            vals,
            bridges[wiring::planned(config.plugins@)[p].plugin].values@,
        ),
{
    let cfgs = config.plugins@;
    let slots = wiring::slots_of(cfgs);
    let k = wiring::planned(cfgs)[p].plugin;
    wiring::instance_in_its_slot(cfgs, p);
    assert forall|j: int| 0 <= j < slots.len() && j != k implies !(#[trigger] slots[j]).holds(p) by {
        if slots[j].holds(p) {
            wiring::slots_share_nothing(cfgs, j, k, p);
        }
    }
    bridge::instance_follows_its_bridge(bridges, slots, slots.len() as int, k, p, vals);
}

/// Whether windows are known by the name of the chain and of their plugin.
pub open spec fn well_named(st: UiState, chain_name: Seq<char>) -> bool {
    &&& forall|n: Seq<char>| #[trigger]
        st.native.contains_key(n) ==> st.native[n].plugin_name@ == wiring::ui_key(chain_name, n)
    &&& forall|n: Seq<char>| #[trigger]
        st.generic.contains_key(n) ==> st.generic[n].plugin_name@ == wiring::ui_key(chain_name, n)
    &&& forall|i: int|
        0 <= i < st.shown.len() ==> (chain_name + "/"@).is_prefix_of(#[trigger] st.shown[i])
}

/// Two names have the same key only where they are one.
proof fn keys_are_distinct(chain_name: Seq<char>, a: Seq<char>, b: Seq<char>)
    requires
        wiring::ui_key(chain_name, a) == wiring::ui_key(chain_name, b),
    ensures
        a == b,
{
    let n = (chain_name + "/"@).len() as int;
    assert(wiring::ui_key(chain_name, a).skip(n) =~= a);
    assert(wiring::ui_key(chain_name, b).skip(n) =~= b);
}

/// A new chain knows its windows by its name and that of their plugin.
pub proof fn new_windows_are_well_named<S>(
    chain: Chain,
    handler: ChainProcessHandler<S>,
    config: ChainConfig,
    world: World,
    client: JackClient,
    uris: Seq<Seq<char>>,
    saved: Seq<NameMap<u32>>,
    notify_queue: usize,
    zero: S,
    commands: UiCommands,
)
    requires
        is_started(chain, handler, config, world, client, uris, saved, notify_queue, zero),
    ensures
        well_named(chain.ui_state(commands), config.name@),
{
    let st = chain.ui_state(commands);
    let cfgs = config.plugins@;
    let n = cfgs.len() as int;
    let windows = wiring::window_plugins(
        world,
        config.name@,
        cfgs,
        handler.slots@,
        handler.plugins@,
        n,
    );
    let window_names = wiring::names_at(cfgs, windows);
    let sliders = wiring::slider_plugins(cfgs, n);
    let slider_names = wiring::names_at(cfgs, sliders);
    assert forall|m: Seq<char>| #[trigger] st.native.contains_key(m) implies st.native[m].plugin_name@
        == wiring::ui_key(config.name@, m) by {
        window_names.index_of_last_ensures(m);
        let q = window_names.index_of_last(m)->0;
        assert(window_names[q] == cfgs[windows[q]].name@);
    }
    assert forall|m: Seq<char>| #[trigger]
        st.generic.contains_key(m) implies st.generic[m].plugin_name@ == wiring::ui_key(
        config.name@,
        m,
    ) by {
        slider_names.index_of_last_ensures(m);
        let q = slider_names.index_of_last(m)->0;
        assert(slider_names[q] == cfgs[sliders[q]].name@);
    }
    assert(st.shown.len() == 0);
}

/// A window that is to be shown is asked to be visible, whether it was opened
/// before or not, and no other; it then counts as opened, and no window is gone.
pub proof fn shown_window_is_asked_for(
    st: UiState,
    chain_name: Seq<char>,
    primaries: Map<Seq<char>, usize>,
    notify_queue: usize,
    name: Seq<char>,
)
    requires
        well_named(st, chain_name),
        has_window(st, chain_name, name),
    ensures
        ({
            let after = after_show(st, chain_name, primaries, notify_queue, name);
            &&& after.started
            &&& after.commands.len() == st.commands.len() + 1
            &&& after.commands.drop_last() == st.commands
            &&& ui::asks_for(after.commands.last(), wiring::ui_key(chain_name, name))
            &&& after.shown.contains(wiring::ui_key(chain_name, name))
            &&& well_named(after, chain_name)
            &&& forall|other: Seq<char>|
                has_window(st, chain_name, other) <==> #[trigger] has_window(
                    after,
                    chain_name,
                    other,
                )
        }),
{
    let key = wiring::ui_key(chain_name, name);
    let after = after_show(st, chain_name, primaries, notify_queue, name);
    assert(after.commands.drop_last() =~= st.commands);
    if !st.shown.contains(key) {
        assert(after.shown[st.shown.len() as int] == key);
        assert((chain_name + "/"@).is_prefix_of(key)) by {
            assert(key.take((chain_name + "/"@).len() as int) =~= chain_name + "/"@);
        }
    }
    assert forall|other: Seq<char>|
        has_window(st, chain_name, other) <==> #[trigger] has_window(after, chain_name, other) by {
        let k = wiring::ui_key(chain_name, other);
        if st.shown.contains(k) {
            let i = choose|i: int| 0 <= i < st.shown.len() && st.shown[i] == k;
            assert(after.shown[i] == k);
        }
        if after.shown.contains(k) && !st.shown.contains(k) {
            let i = choose|i: int| 0 <= i < after.shown.len() && after.shown[i] == k;
            if i < st.shown.len() {
                assert(st.shown[i] == k);
            }
            keys_are_distinct(chain_name, name, other);
        }
    }
}

/// A window that is shown twice is asked to be visible twice: the second time it is
/// not opened again, and not hidden.
pub proof fn shown_window_is_presented(
    st: UiState,
    chain_name: Seq<char>,
    primaries: Map<Seq<char>, usize>,
    notify_queue: usize,
    name: Seq<char>,
)
    requires
        well_named(st, chain_name),
        has_window(st, chain_name, name),
    ensures
        ({
            let once = after_show(st, chain_name, primaries, notify_queue, name);
            let twice = after_show(once, chain_name, primaries, notify_queue, name);
            &&& twice.shown == once.shown
            &&& twice.generic == once.generic
            &&& twice.native == once.native
            &&& twice.commands == once.commands.push(
                UiCommandView::Present { plugin_name: wiring::ui_key(chain_name, name) },
            )
            &&& ui::asks_for(once.commands.last(), wiring::ui_key(chain_name, name))
            &&& ui::asks_for(twice.commands.last(), wiring::ui_key(chain_name, name))
        }),
{
    shown_window_is_asked_for(st, chain_name, primaries, notify_queue, name);
}

/// Toggling a window leaves all windows there are, and known as before.
pub proof fn toggling_keeps_windows(
    st: UiState,
    chain_name: Seq<char>,
    primaries: Map<Seq<char>, usize>,
    notify_queue: usize,
    name: Seq<char>,
)
    requires
        well_named(st, chain_name),
    ensures
        ({
            let after = after_toggle(st, chain_name, primaries, notify_queue, name);
            &&& well_named(after, chain_name)
            &&& forall|other: Seq<char>|
                has_window(st, chain_name, other) <==> #[trigger] has_window(
                    after,
                    chain_name,
                    other,
                )
        }),
{
    if has_window(st, chain_name, name) {
        shown_window_is_asked_for(st, chain_name, primaries, notify_queue, name);
    }
}

/// What is joined to names without repeats is without repeats, and holds both.
proof fn joined_holds_both(names: Seq<Seq<char>>, more: Seq<Seq<char>>)
    requires
        names.no_duplicates(),
    ensures
        joined(names, more).no_duplicates(),
        forall|n: Seq<char>| #[trigger]
            joined(names, more).contains(n) <==> names.contains(n) || more.contains(n),
    decreases more.len(),
{
    if more.len() > 0 {
        let first = more.drop_last();
        let last = more.last();
        joined_holds_both(names, first);
        let before = joined(names, first);
        let all = joined(names, more);
        assert(more =~= first.push(last));
        assert forall|n: Seq<char>| #[trigger] all.contains(n) <==> names.contains(n)
            || more.contains(n) by {
            if more.contains(n) {
                let i = choose|i: int| 0 <= i < more.len() && more[i] == n;
                if i < first.len() {
                    assert(first[i] == n);
                }
            }
            if first.contains(n) {
                let i = choose|i: int| 0 <= i < first.len() && first[i] == n;
                assert(more[i] == n);
            }
            assert(more[more.len() - 1] == last);
            if !before.contains(last) {
                assert(all == before.push(last));
                assert(all[before.len() as int] == last);
                if before.contains(n) {
                    let i = choose|i: int| 0 <= i < before.len() && before[i] == n;
                    assert(all[i] == n);
                }
                if all.contains(n) {
                    let i = choose|i: int| 0 <= i < all.len() && all[i] == n;
                    if i < before.len() {
                        assert(before[i] == n);
                    }
                }
            }
        }
    }
}

/// The names of all windows are those of the plugins that have one, each once.
pub proof fn all_windows_are_named_once(chain: Chain, commands: UiCommands)
    requires
        chain.wf(),
        well_named(chain.ui_state(commands), chain.config.name@),
    ensures
        chain.window_names().no_duplicates(),
        forall|n: Seq<char>| #[trigger]
            chain.window_names().contains(n) <==> has_window(
                chain.ui_state(commands),
                chain.config.name@,
                n,
            ),
{
    let st = chain.ui_state(commands);
    let prefix = chain.config.name@ + "/"@;
    let native = chain.ui_infos.order();
    let generic = chain.generic_ui_infos.order();
    let plain = st.shown.map_values(|key: Seq<char>| plain_name(chain.config.name@, key));
    joined_holds_both(native, generic);
    joined_holds_both(joined(native, generic), plain);
    assert forall|n: Seq<char>| #[trigger] chain.window_names().contains(n) <==> has_window(
        st,
        chain.config.name@,
        n,
    ) by {
        let key = wiring::ui_key(chain.config.name@, n);
        if plain.contains(n) {
            let i = choose|i: int| 0 <= i < plain.len() && plain[i] == n;
            assert(prefix.is_prefix_of(st.shown[i]));
            assert(st.shown[i] =~= prefix + n);
            assert(st.shown[i] == key);
        }
        if st.shown.contains(key) {
            let i = choose|i: int| 0 <= i < st.shown.len() && st.shown[i] == key;
            assert(prefix.is_prefix_of(st.shown[i]));
            assert(key.skip(prefix.len() as int) =~= n);
            assert(plain[i] == n);
        }
    }
}

/// Where several windows are to be shown, each of them is asked to be visible,
/// once and in their order, and nothing else is asked for.
pub proof fn all_shown_windows_are_asked_for(
    st: UiState,
    chain_name: Seq<char>,
    primaries: Map<Seq<char>, usize>,
    notify_queue: usize,
    names: Seq<Seq<char>>,
)
    requires
        well_named(st, chain_name),
        forall|i: int| 0 <= i < names.len() ==> has_window(st, chain_name, #[trigger] names[i]),
    ensures
        ({
            let after = after_shows(st, chain_name, primaries, notify_queue, names);
            &&& after.commands.len() == st.commands.len() + names.len()
            &&& after.commands.take(st.commands.len() as int) == st.commands
            &&& forall|i: int|
                0 <= i < names.len() ==> ui::asks_for(
                    after.commands[st.commands.len() + i],
                    wiring::ui_key(chain_name, #[trigger] names[i]),
                )
            &&& well_named(after, chain_name)
            &&& forall|other: Seq<char>|
                has_window(st, chain_name, other) <==> #[trigger] has_window(
                    after,
                    chain_name,
                    other,
                )
        }),
    decreases names.len(),
{
    let start = st.commands.len() as int;
    if names.len() == 0 {
        assert(st.commands.take(start) =~= st.commands);
    } else {
        let first = names.drop_last();
        let last = names.last();
        assert forall|i: int| 0 <= i < first.len() implies has_window(
            st,
            chain_name,
            #[trigger] first[i],
        ) by {
            assert(first[i] == names[i]);
        }
        all_shown_windows_are_asked_for(st, chain_name, primaries, notify_queue, first);
        let before = after_shows(st, chain_name, primaries, notify_queue, first);
        assert(has_window(st, chain_name, names[names.len() - 1]));
        assert(has_window(before, chain_name, last));
        shown_window_is_asked_for(before, chain_name, primaries, notify_queue, last);
        let after = after_show(before, chain_name, primaries, notify_queue, last);
        assert(after.commands =~= before.commands.push(after.commands.last()));
        assert(after.commands.take(start) =~= before.commands.take(start));
        assert forall|i: int| 0 <= i < names.len() implies ui::asks_for(
            after.commands[start + i],
            wiring::ui_key(chain_name, #[trigger] names[i]),
        ) by {
            if i < first.len() {
                assert(first[i] == names[i]);
                assert(after.commands[start + i] == before.commands[start + i]);
            }
        }
    }
}

/// A started chain has the audio inputs of its first plugin: where the first slot is a
/// single plugin, an input for each that the plugin has, and two where it is a pair. They
/// are named after the client, and counted from one.
pub proof fn inputs_of_started_chain<S>(
    chain: Chain,
    handler: ChainProcessHandler<S>,
    config: ChainConfig,
    world: World,
    client: JackClient,
    uris: Seq<Seq<char>>,
    saved: Seq<NameMap<u32>>,
    notify_queue: usize,
    zero: S,
)
    requires
        is_started(chain, handler, config, world, client, uris, saved, notify_queue, zero),
    ensures
        handler.slots@[0] matches crate::slot::ChainSlot::Single(i)
            ==> chain.jack_input_port_names@.len() == handler.plugins@[i as int].audio_in_bufs@.len(),
        handler.slots@[0] is DualMono ==> chain.jack_input_port_names@.len() == 2,
        forall|j: int|
            0 <= j < chain.jack_input_port_names@.len() ==> (
            #[trigger] chain.jack_input_port_names@[j])@ == client.name@ + ":"@ + "audio_in_"@
                + text::decimal_of((j + 1) as nat),
{
    let names = text::texts(chain.jack_input_port_names@);
    assert(handler.slots@[0].within(handler.plugins@.len()));
    wiring::inputs_are_those_of_first_slot(handler.slots@, handler.plugins@);
    assert(names.len() == wiring::input_count(handler.slots@, handler.plugins@));
    assert forall|j: int| 0 <= j < chain.jack_input_port_names@.len() implies (
    #[trigger] chain.jack_input_port_names@[j])@ == client.name@ + ":"@ + "audio_in_"@
        + text::decimal_of((j + 1) as nat) by {
        wiring::ports_are_counted_from_one(client.name@, "audio_in_"@, names.len(), j);
        assert(names[j] == chain.jack_input_port_names@[j]@);
    }
}

/// A started chain has the audio outputs of its last plugin: two where the plugin is
/// mixed or is a pair, else an output for each that the plugin has. They are named after
/// the client, and counted from one.
pub proof fn outputs_of_started_chain<S>(
    chain: Chain,
    handler: ChainProcessHandler<S>,
    config: ChainConfig,
    world: World,
    client: JackClient,
    uris: Seq<Seq<char>>,
    saved: Seq<NameMap<u32>>,
    notify_queue: usize,
    zero: S,
)
    requires
        is_started(chain, handler, config, world, client, uris, saved, notify_queue, zero),
        config.plugins@.len() > 0,
    ensures
        config.plugins@.last().stereo_mix is Some ==> chain.jack_output_port_names@.len() == 2,
        handler.slots@.last() is DualMono ==> chain.jack_output_port_names@.len() == 2,
        config.plugins@.last().stereo_mix is None ==> (
        handler.slots@.last() matches crate::slot::ChainSlot::Single(i) ==> chain.jack_output_port_names@.len()
            == handler.plugins@[i as int].audio_out_bufs@.len()),
        forall|j: int|
            0 <= j < chain.jack_output_port_names@.len() ==> (
            #[trigger] chain.jack_output_port_names@[j])@ == client.name@ + ":"@ + "audio_out_"@
                + text::decimal_of((j + 1) as nat),
{
    let names = text::texts(chain.jack_output_port_names@);
    let last = config.plugins@.len() - 1;
    wiring::plan_of_plugin(config.plugins@, last);
    assert(handler.slots@[last].within(handler.plugins@.len()));
    assert(crate::config::same_mix(handler.slot_mixes@[last], config.plugins@[last].stereo_mix));
    wiring::outputs_are_those_of_last_slot(
        handler.slots@,
        handler.slot_mixes@,
        handler.plugins@,
    );
    assert(names.len() == wiring::output_count(
        handler.slots@,
        handler.slot_mixes@,
        handler.plugins@,
    ));
    assert forall|j: int| 0 <= j < chain.jack_output_port_names@.len() implies (
    #[trigger] chain.jack_output_port_names@[j])@ == client.name@ + ":"@ + "audio_out_"@
        + text::decimal_of((j + 1) as nat) by {
        wiring::ports_are_counted_from_one(client.name@, "audio_out_"@, names.len(), j);
        assert(names[j] == chain.jack_output_port_names@[j]@);
    }
}

/// Every plugin of the configuration has its slot in a started chain. It holds one
/// instance of the plugin under its name, or two one behind the other where it runs once
/// for each side, the right one with `_R` behind the name. The slots come in the order of
/// the plugins, and each has the mix of its plugin.
pub proof fn slot_runs_its_plugin<S>(
    chain: Chain,
    handler: ChainProcessHandler<S>,
    config: ChainConfig,
    world: World,
    client: JackClient,
    uris: Seq<Seq<char>>,
    saved: Seq<NameMap<u32>>,
    notify_queue: usize,
    zero: S,
    i: int,
)
    requires
        is_started(chain, handler, config, world, client, uris, saved, notify_queue, zero),
        0 <= i < config.plugins@.len(),
        wiring::planned(config.plugins@).len() <= usize::MAX,
    ensures
        handler.slots@.len() == config.plugins@.len(),
        handler.slot_mixes@.len() == config.plugins@.len(),
        ({
            let cfg = config.plugins@[i];
            let instances = handler.plugins@;
            match handler.slots@[i] {
                crate::slot::ChainSlot::Single(k) => {
                    &&& !cfg.dual_mono
                    &&& k < instances.len()
                    &&& instances[k as int].name@ == cfg.name@
                    &&& instances[k as int].uri@ == world.plugin_of(cfg.uri@).uri@
                },
                crate::slot::ChainSlot::DualMono { left, right } => {
                    &&& cfg.dual_mono
                    &&& right == left + 1
                    &&& right < instances.len()
                    &&& instances[left as int].name@ == cfg.name@
                    &&& instances[right as int].name@ == cfg.name@ + "_R"@
                    &&& instances[left as int].uri@ == world.plugin_of(cfg.uri@).uri@
                    &&& instances[right as int].uri@ == world.plugin_of(cfg.uri@).uri@
                },
            }
        }),
        ({
            let before = if i == 0 {
                -1
            } else {
                match handler.slots@[i - 1] {
                    crate::slot::ChainSlot::Single(k) => k as int,
                    crate::slot::ChainSlot::DualMono { left, right } => right as int,
                }
            };
            let first = match handler.slots@[i] {
                crate::slot::ChainSlot::Single(k) => k as int,
                crate::slot::ChainSlot::DualMono { left, right } => left as int,
            };
            first == before + 1
        }),
        handler.slot_mixes@[i] is Some <==> config.plugins@[i].stereo_mix is Some,
        handler.slot_mixes@[i] is Some ==> (handler.slot_mixes@[i]->0)@
            == (config.plugins@[i].stereo_mix->0)@,
{
    let cfgs = config.plugins@;
    wiring::plan_of_plugin(cfgs, i);
    wiring::plan_grows_by_plugin(cfgs, i);
    let at = wiring::planned(cfgs.take(i)).len() as int;
    assert(wiring::is_made(
        handler.plugins@[at],
        wiring::planned(cfgs)[at],
        cfgs,
        world,
        block_size(config, client),
        uris,
        saved,
        zero,
    ));
    if cfgs[i].dual_mono {
        assert(wiring::is_made(
            handler.plugins@[at + 1],
            wiring::planned(cfgs)[at + 1],
            cfgs,
            world,
            block_size(config, client),
            uris,
            saved,
            zero,
        ));
    }
    if i > 0 {
        wiring::plan_of_plugin(cfgs, i - 1);
        wiring::plan_grows_by_plugin(cfgs, i - 1);
        assert(cfgs.take(i - 1 + 1) =~= cfgs.take(i));
    }
    assert(crate::config::same_mix(handler.slot_mixes@[i], cfgs[i].stereo_mix));
}

/// A chain is started quietly: active, not muted, with no window open, and with silence
/// between its slots. Its buffers hold a block, and 8192 frames at least.
pub proof fn chain_starts_quietly<S>(
    chain: Chain,
    handler: ChainProcessHandler<S>,
    config: ChainConfig,
    world: World,
    client: JackClient,
    uris: Seq<Seq<char>>,
    saved: Seq<NameMap<u32>>,
    notify_queue: usize,
    zero: S,
)
    requires
        is_started(chain, handler, config, world, client, uris, saved, notify_queue, zero),
    ensures
        chain.active,
        !chain.muted,
        chain.ui_shown@.len() == 0,
        chain.notify_queue == notify_queue,
        handler.route_buf@.len() == 2,
        forall|ch: int, s: int|
            0 <= ch < 2 && 0 <= s < 8192 ==> #[trigger] handler.route_buf@[ch]@[s] == zero,
        handler.frames >= 8192,
        config.buffer_size matches Some(n) ==> handler.frames >= n && (handler.frames == n
            || handler.frames == 8192),
        config.buffer_size is None ==> handler.frames >= client.buffer_size && (handler.frames
            == client.buffer_size || handler.frames == 8192),
{
    assert forall|ch: int, s: int|
        0 <= ch < 2 && 0 <= s < 8192 implies #[trigger] handler.route_buf@[ch]@[s] == zero by {
        assert(handler.route_buf@[ch]@ == plugin::repeated(MAX_BUF_FRAMES as nat, zero));
    }
}

/// Every plugin of a started chain has its control values under its name and those of
/// its control inputs, with a value for each.
pub proof fn bridge_of_every_plugin<S>(
    chain: Chain,
    handler: ChainProcessHandler<S>,
    config: ChainConfig,
    world: World,
    client: JackClient,
    uris: Seq<Seq<char>>,
    saved: Seq<NameMap<u32>>,
    notify_queue: usize,
    zero: S,
    i: int,
)
    requires
        is_started(chain, handler, config, world, client, uris, saved, notify_queue, zero),
        0 <= i < config.plugins@.len(),
        wiring::planned(config.plugins@).len() <= usize::MAX,
    ensures
        chain.control_bridge.plugins@.len() == config.plugins@.len(),
        chain.control_bridge.plugins@[i].name@ == config.plugins@[i].name@,
        ({
            let instance = match handler.slots@[i] {
                crate::slot::ChainSlot::Single(k) => handler.plugins@[k as int],
                crate::slot::ChainSlot::DualMono { left, right } => handler.plugins@[left as int],
            };
            &&& chain.control_bridge.plugins@[i].values@.len() == instance.control_in_vals@.len()
            &&& chain.control_bridge.plugins@[i].symbols@.len() == instance.control_in_vals@.len()
        }),
{
    slot_runs_its_plugin(
        chain,
        handler,
        config,
        world,
        client,
        uris,
        saved,
        notify_queue,
        zero,
        i,
    );
    let b = chain.control_bridge.plugins@[i];
    let p = handler.plugins@[handler.slots@[i].primary() as int];
    assert(bridge::bridges(b, p));
    assert(handler.slots@[i].within(handler.plugins@.len()));
    assert(p.wf());
    assert(text::texts(b.symbols@).len() == b.symbols@.len());
}

/// The instance that stands for a plugin of a started chain is found by its name: the
/// only one of its slot, or the left one of two.
pub proof fn instance_of_plugin_is_found<S>(
    chain: Chain,
    handler: ChainProcessHandler<S>,
    config: ChainConfig,
    world: World,
    client: JackClient,
    uris: Seq<Seq<char>>,
    saved: Seq<NameMap<u32>>,
    notify_queue: usize,
    zero: S,
    i: int,
)
    requires
        is_started(chain, handler, config, world, client, uris, saved, notify_queue, zero),
        0 <= i < config.plugins@.len(),
        forall|j: int|
            i < j < config.plugins@.len() ==> (#[trigger] config.plugins@[j]).name@
                != config.plugins@[i].name@,
    ensures
        chain.plugin_primary_indices@.contains_key(config.plugins@[i].name@),
        handler.slots@[i] matches crate::slot::ChainSlot::Single(k)
            ==> chain.plugin_primary_indices@[config.plugins@[i].name@] == k,
        handler.slots@[i] matches crate::slot::ChainSlot::DualMono { left, right }
            ==> chain.plugin_primary_indices@[config.plugins@[i].name@] == left,
{
    wiring::plan_of_plugin(config.plugins@, i);
    wiring::instance_is_found_by_name(config.plugins@, handler.slots@, i);
}

/// A plugin of a started chain that asks for sliders has a window of sliders, and none of
/// its own, where no other plugin shares its name.
pub proof fn sliders_where_asked_for<S>(
    chain: Chain,
    handler: ChainProcessHandler<S>,
    config: ChainConfig,
    world: World,
    client: JackClient,
    uris: Seq<Seq<char>>,
    saved: Seq<NameMap<u32>>,
    notify_queue: usize,
    zero: S,
    i: int,
)
    requires
        is_started(chain, handler, config, world, client, uris, saved, notify_queue, zero),
        0 <= i < config.plugins@.len(),
        config.plugins@[i].generic_ui,
        forall|j: int|
            0 <= j < config.plugins@.len() && j != i ==> (#[trigger] config.plugins@[j]).name@
                != config.plugins@[i].name@,
    ensures
        !chain.ui_infos@.contains_key(config.plugins@[i].name@),
        chain.generic_ui_infos@.contains_key(config.plugins@[i].name@),
        ({
            let info = chain.generic_ui_infos@[config.plugins@[i].name@];
            &&& info.bridge_name@ == config.plugins@[i].name@
            &&& info.plugin_name@ == config.name@ + "/"@ + config.plugins@[i].name@
        }),
{
    let cfgs = config.plugins@;
    let n = cfgs.len() as int;
    let name = cfgs[i].name@;
    let sliders = wiring::slider_plugins(cfgs, n);
    let slider_names = wiring::names_at(cfgs, sliders);
    let slides = |k: int| cfgs[k].generic_ui;
    wiring::selected_holds(n, slides);
    assert(slides(i));
    assert(sliders.contains(i));
    let q = choose|q: int| 0 <= q < sliders.len() && sliders[q] == i;
    assert(slider_names[q] == name);
    assert(slider_names.contains(name));
    slider_names.index_of_last_ensures(name);
    let found = sliders[slider_names.index_of_last(name)->0];
    assert(cfgs[found].name@ == name);
    assert(found == i);
    assert(chain.generic_ui_infos@.contains_key(name));
    assert(wiring::is_generic_ui(
        chain.generic_ui_infos@[name],
        config.name@,
        cfgs[found],
        handler.plugins@[handler.slots@[found].primary() as int],
    ));
    let windows = wiring::window_plugins(
        world,
        config.name@,
        cfgs,
        handler.slots@,
        handler.plugins@,
        n,
    );
    let window_names = wiring::names_at(cfgs, windows);
    let has = |k: int|
        wiring::native_ui(
            world,
            config.name@,
            cfgs[k],
            handler.plugins@[handler.slots@[k].primary() as int],
        ) is Some;
    wiring::selected_holds(n, has);
    if window_names.contains(name) {
        let w = choose|w: int| 0 <= w < window_names.len() && window_names[w] == name;
        assert(has(windows[w]));
        assert(cfgs[windows[w]].name@ == name);
    }
}

/// A chain without plugins is not started, nor one for which there is no client.
pub proof fn start_needs_plugins_and_client(
    config: ChainConfig,
    world: World,
    client: Result<JackClient, String>,
    instantiated: Seq<bool>,
)
    ensures
        config.plugins@.len() == 0 ==> start_error(config, world, client, instantiated) == Some(
            ErrorView::Config("chain has no plugins"@),
        ),
        config.plugins@.len() > 0 ==> (client matches Err(reason) ==> start_error(
            config,
            world,
            client,
            instantiated,
        ) == Some(ErrorView::Jack("failed to create JACK client: "@ + reason@))),
{
}

/// A chain whose instances can all be made is started; one with an instance that cannot
/// fails with what the first of them fails with.
pub proof fn start_fails_with_first_instance(
    config: ChainConfig,
    world: World,
    client: JackClient,
    instantiated: Seq<bool>,
    k: int,
)
    requires
        config.plugins@.len() > 0,
        0 <= k <= wiring::planned(config.plugins@).len(),
        forall|j: int|
            0 <= j < k ==> {
                &&& j < instantiated.len() && instantiated[j]
                &&& exists|w: int|
                    0 <= w < world.plugins@.len() && (#[trigger] world.plugins@[w]).uri@
                        == config.plugins@[(#[trigger] wiring::planned(
                        config.plugins@,
                    )[j]).plugin].uri@
            },
    ensures
        k == wiring::planned(config.plugins@).len() ==> start_error(
            config,
            world,
            Ok(client),
            instantiated,
        ) is None,
        k < wiring::planned(config.plugins@).len() ==> {
            let uri = config.plugins@[wiring::planned(config.plugins@)[k].plugin].uri@;
            let there = exists|w: int|
                0 <= w < world.plugins@.len() && (#[trigger] world.plugins@[w]).uri@ == uri;
            let e = start_error(config, world, Ok(client), instantiated);
            &&& !there ==> e == Some(ErrorView::Lv2PluginNotFound { uri })
            &&& there && !(k < instantiated.len() && instantiated[k]) ==> e == Some(
                ErrorView::Lv2Instantiation {
                    name: wiring::planned(config.plugins@)[k].name,
                    uri,
                    reason: "lilv_plugin_instantiate returned null"@,
                },
            )
        },
{
    let cfgs = config.plugins@;
    let n = wiring::planned(cfgs).len() as int;
    assert forall|j: int| 0 <= j < k implies #[trigger] wiring::error_at(
        world,
        cfgs,
        instantiated,
        j,
    ) is None by {
        wiring::instance_fails(world, cfgs, instantiated, j);
    }
    if k == n {
        wiring::none_fails(world, cfgs, instantiated, n);
    } else {
        wiring::instance_fails(world, cfgs, instantiated, k);
        if wiring::error_at(world, cfgs, instantiated, k) is Some {
            wiring::first_failure_is_reported(world, cfgs, instantiated, n, k);
        }
    }
}

/// Ports are connected one for one in their order, as far as both sides go.
pub proof fn ports_are_connected_in_order(
    pairs: Seq<(String, String)>,
    a: Seq<String>,
    b: Seq<String>,
    i: int,
)
    requires
        pair_views(pairs) == text_pairs(text::texts(a), text::texts(b)),
        0 <= i < a.len(),
        i < b.len(),
    ensures
        pairs.len() <= a.len(),
        pairs.len() <= b.len(),
        pairs.len() == a.len() || pairs.len() == b.len(),
        pairs[i].0@ == a[i]@,
        pairs[i].1@ == b[i]@,
{
    assert(pair_views(pairs).len() == pairs.len());
    assert(pair_views(pairs)[i] == (text::texts(a)[i], text::texts(b)[i]));
}

/// What is saved of a bridge: under the name of every plugin that has controls, each name
/// once, the value of every control under its symbol.
pub proof fn every_control_is_saved(
    bridge: ControlBridge,
    saved: Seq<(String, NameMap<u32>)>,
    p: int,
    i: int,
) -> (at: int)
    requires
        bridge.wf(),
        is_saved(bridge, saved),
        0 <= p < bridge.plugins@.len(),
        forall|q: int|
            p < q < bridge.plugins@.len() ==> (#[trigger] bridge.plugins@[q]).name@
                != bridge.plugins@[p].name@,
        0 <= i < bridge.plugins@[p].symbols@.len(),
        forall|j: int|
            i < j < bridge.plugins@[p].symbols@.len() ==> (
            #[trigger] bridge.plugins@[p].symbols@[j])@ != bridge.plugins@[p].symbols@[i]@,
    ensures
        0 <= at < saved.len(),
        saved[at].0@ == bridge.plugins@[p].name@,
        saved[at].1@.contains_key(bridge.plugins@[p].symbols@[i]@),
        saved[at].1@[bridge.plugins@[p].symbols@[i]@] == bridge.plugins@[p].values@[i],
        forall|j: int|
            0 <= j < saved.len() && j != at ==> (#[trigger] saved[j]).0@
                != bridge.plugins@[p].name@,
{
    let names = bridge.names();
    let name = bridge.plugins@[p].name@;
    assert(names[p] == name);
    assert(names.contains(name));
    names.index_of_last_ensures(name);
    let found = names.index_of_last(name)->0;
    assert(names[found] == bridge.plugins@[found].name@);
    assert(found == p);
    let keys = saved_names(saved);
    assert(keys.contains(name));
    let at = choose|at: int| 0 <= at < keys.len() && keys[at] == name;
    assert(saved[at].0@ == name);
    bridge::values_are_listed_by_symbol(bridge.plugins@[p], bridge.plugins@[p].symbols@[i]@);
    assert forall|j: int| 0 <= j < saved.len() && j != at implies (#[trigger] saved[j]).0@
        != name by {
        assert(keys[j] == saved[j].0@);
    }
    at
}

/// The name of a plugin is read back from the name of its window.
pub proof fn plain_name_of_window(chain_name: Seq<char>, name: Seq<char>)
    ensures
        plain_name(chain_name, chain_name + "/"@ + name) == name,
{
    let prefix = chain_name + "/"@;
    let key = chain_name + "/"@ + name;
    assert(key =~= prefix + name);
    assert(prefix =~= key.take(prefix.len() as int));
    assert(key.skip(prefix.len() as int) =~= name);
}

/// Showing the window of a plugin: one that was opened is presented again; else a window of
/// sliders is opened where there is one, else that of the plugin, with the instance that
/// stands for it; and where there is none nothing happens. A window is opened once.
pub proof fn window_is_opened_once(
    st: UiState,
    chain_name: Seq<char>,
    primaries: Map<Seq<char>, usize>,
    notify_queue: usize,
    name: Seq<char>,
)
    ensures
        ({
            let key = chain_name + "/"@ + name;
            let after = after_show(st, chain_name, primaries, notify_queue, name);
            let opened = st.shown.contains(key);
            &&& opened ==> {
                &&& after.shown == st.shown
                &&& after.generic == st.generic
                &&& after.native == st.native
                &&& after.commands == st.commands.push(UiCommandView::Present { plugin_name: key })
            }
            &&& !opened && st.generic.contains_key(name) ==> {
                &&& after.shown == st.shown.push(key)
                &&& !after.generic.contains_key(name)
                &&& forall|n: Seq<char>|
                    n != name ==> (#[trigger] after.generic.contains_key(n)
                        <==> st.generic.contains_key(n))
                &&& after.native == st.native
                &&& after.commands == st.commands.push(
                    UiCommandView::ShowGeneric { info: st.generic[name] },
                )
            }
            &&& !opened && !st.generic.contains_key(name) && st.native.contains_key(name) ==> {
                &&& after.shown == st.shown.push(key)
                &&& after.generic == st.generic
                &&& !after.native.contains_key(name)
                &&& forall|n: Seq<char>|
                    n != name ==> (#[trigger] after.native.contains_key(n)
                        <==> st.native.contains_key(n))
                &&& primaries.contains_key(name) ==> after.commands == st.commands.push(
                    UiCommandView::Show {
                        info: st.native[name],
                        notify_queue,
                        plugin_idx: primaries[name],
                        instance: Some(primaries[name]),
                    },
                )
                &&& !primaries.contains_key(name) ==> after.commands == st.commands.push(
                    UiCommandView::Show {
                        info: st.native[name],
                        notify_queue,
                        plugin_idx: 0,
                        instance: None,
                    },
                )
            }
            &&& opened || st.generic.contains_key(name) || st.native.contains_key(name)
                ==> after.started && has_window(st, chain_name, name)
            &&& !opened && !st.generic.contains_key(name) && !st.native.contains_key(name)
                ==> after == st && !has_window(st, chain_name, name)
        }),
{
}

/// Toggling the window of a plugin: one that was opened is hidden or shown, as the thread of
/// the windows finds it, and any other is shown.
pub proof fn opened_window_is_toggled(
    st: UiState,
    chain_name: Seq<char>,
    primaries: Map<Seq<char>, usize>,
    notify_queue: usize,
    name: Seq<char>,
)
    ensures
        ({
            let key = chain_name + "/"@ + name;
            let after = after_toggle(st, chain_name, primaries, notify_queue, name);
            &&& st.shown.contains(key) ==> {
                &&& after.shown == st.shown
                &&& after.generic == st.generic
                &&& after.native == st.native
                &&& after.started == st.started
                &&& st.started ==> after.commands == st.commands.push(
                    UiCommandView::Toggle { plugin_name: key },
                )
                &&& !st.started ==> after.commands == st.commands
            }
            &&& !st.shown.contains(key) ==> after == after_show(
                st,
                chain_name,
                primaries,
                notify_queue,
                name,
            )
        }),
{
}

/// Toggling all windows sends one command for each of them, in their order: to toggle it
/// where it was opened before, else to show it.
pub proof fn every_window_is_toggled(
    st: UiState,
    chain_name: Seq<char>,
    primaries: Map<Seq<char>, usize>,
    notify_queue: usize,
    names: Seq<Seq<char>>,
)
    requires
        st.started,
        well_named(st, chain_name),
        forall|i: int| 0 <= i < names.len() ==> has_window(st, chain_name, #[trigger] names[i]),
    ensures
        ({
            let after = after_toggles(st, chain_name, primaries, notify_queue, names);
            &&& after.started
            &&& after.commands.len() == st.commands.len() + names.len()
            &&& after.commands.take(st.commands.len() as int) == st.commands
            &&& forall|i: int|
                0 <= i < names.len() ==> {
                    let key = wiring::ui_key(chain_name, #[trigger] names[i]);
                    let command = after.commands[st.commands.len() + i];
                    command == (UiCommandView::Toggle { plugin_name: key }) || ui::asks_for(
                        command,
                        key,
                    )
                }
            &&& well_named(after, chain_name)
            &&& forall|other: Seq<char>|
                has_window(st, chain_name, other) <==> #[trigger] has_window(
                    after,
                    chain_name,
                    other,
                )
        }),
    decreases names.len(),
{
    if names.len() == 0 {
        assert(st.commands.take(st.commands.len() as int) =~= st.commands);
    } else {
        let first = names.drop_last();
        assert forall|i: int| 0 <= i < first.len() implies has_window(
            st,
            chain_name,
            #[trigger] first[i],
        ) by {
            assert(first[i] == names[i]);
        }
        every_window_is_toggled(st, chain_name, primaries, notify_queue, first);
        let before = after_toggles(st, chain_name, primaries, notify_queue, first);
        let name = names.last();
        assert(name == names[names.len() - 1]);
        assert(has_window(before, chain_name, name));
        toggling_keeps_windows(before, chain_name, primaries, notify_queue, name);
        let after = after_toggle(before, chain_name, primaries, notify_queue, name);
        let key = wiring::ui_key(chain_name, name);
        if !before.shown.contains(key) {
            shown_window_is_asked_for(before, chain_name, primaries, notify_queue, name);
            assert(after.commands == before.commands.push(after.commands.last()));
        }
        assert(after.commands.len() == before.commands.len() + 1);
        assert(after.commands.take(before.commands.len() as int) =~= before.commands);
        assert(after.commands.take(st.commands.len() as int) =~= before.commands.take(
            st.commands.len() as int,
        ));
        assert forall|i: int| 0 <= i < names.len() implies {
            let k = wiring::ui_key(chain_name, #[trigger] names[i]);
            let command = after.commands[st.commands.len() + i];
            command == (UiCommandView::Toggle { plugin_name: k }) || ui::asks_for(command, k)
        } by {
            if i < first.len() {
                assert(first[i] == names[i]);
                assert(after.commands[st.commands.len() + i] == before.commands[st.commands.len()
                    + i]);
            } else {
                assert(after.commands[st.commands.len() + i] == after.commands.last());
            }
        }
    }
}

/// A plugin of a started chain that brings a window along, and does not ask for sliders, has
/// that window under its name, where no other plugin shares the name.
pub proof fn own_window_where_there_is_one<S>(
    chain: Chain,
    handler: ChainProcessHandler<S>,
    config: ChainConfig,
    world: World,
    client: JackClient,
    uris: Seq<Seq<char>>,
    saved: Seq<NameMap<u32>>,
    notify_queue: usize,
    zero: S,
    i: int,
    w: int,
    u: int,
)
    requires
        is_started(chain, handler, config, world, client, uris, saved, notify_queue, zero),
        0 <= i < config.plugins@.len(),
        !config.plugins@[i].generic_ui,
        forall|j: int|
            0 <= j < config.plugins@.len() && j != i ==> (#[trigger] config.plugins@[j]).name@
                != config.plugins@[i].name@,
        0 <= w < world.plugins@.len(),
        world.plugins@[w].uri@ == config.plugins@[i].uri@,
        forall|j: int|
            0 <= j < w ==> (#[trigger] world.plugins@[j]).uri@ != config.plugins@[i].uri@,
        world.plugins@[w].uis is Some,
        ui::best_of((world.plugins@[w].uis->0)@) == Some(u),
        !config.plugins@[i].uri@.contains('\0'),
        ({
            let window = (world.plugins@[w].uis->0)@[u];
            &&& window.uri is Some && !(window.uri->0)@.contains('\0')
            &&& window.bundle_uri is Some && !(window.bundle_uri->0)@.contains('\0')
            &&& window.binary_uri is Some && !(window.binary_uri->0)@.contains('\0')
        }),
    ensures
        !chain.generic_ui_infos@.contains_key(config.plugins@[i].name@),
        chain.ui_infos@.contains_key(config.plugins@[i].name@),
        ({
            let info = chain.ui_infos@[config.plugins@[i].name@];
            let window = (world.plugins@[w].uis->0)@[u];
            let instance = match handler.slots@[i] {
                crate::slot::ChainSlot::Single(k) => handler.plugins@[k as int],
                crate::slot::ChainSlot::DualMono { left, right } => handler.plugins@[left as int],
            };
            &&& info.plugin_name@ == config.name@ + "/"@ + config.plugins@[i].name@
            &&& info.plugin_uri@ == config.plugins@[i].uri@
            &&& info.ui_uri@ == (window.uri->0)@
            &&& info.ui_bundle_path@ == ui::path_of((window.bundle_uri->0)@)
            &&& info.ui_binary_path@ == ui::path_of((window.binary_uri->0)@)
            &&& info.port_symbol_to_index@ == wiring::port_symbols(instance.infos())
            &&& info.control_port_indices@ == wiring::control_indices(instance.infos())
        }),
{
    let cfgs = config.plugins@;
    let n = cfgs.len() as int;
    let name = cfgs[i].name@;
    let key = wiring::ui_key(config.name@, name);
    let infos = handler.plugins@[handler.slots@[i].primary() as int].infos();
    let window = (world.plugins@[w].uis->0)@[u];
    ui::window_is_found_at_plugin(
        world,
        w,
        cfgs[i].uri@,
        key,
        wiring::port_symbols(infos),
        wiring::control_indices(infos),
    );
    ui::window_with_all_texts_is_described(
        window,
        cfgs[i].uri@,
        key,
        wiring::port_symbols(infos),
        wiring::control_indices(infos),
    );
    let has = |k: int|
        wiring::native_ui(
            world,
            config.name@,
            cfgs[k],
            handler.plugins@[handler.slots@[k].primary() as int],
        ) is Some;
    wiring::selected_holds(n, has);
    assert(has(i));
    let windows = wiring::window_plugins(
        world,
        config.name@,
        cfgs,
        handler.slots@,
        handler.plugins@,
        n,
    );
    let window_names = wiring::names_at(cfgs, windows);
    assert(windows.contains(i));
    let q = choose|q: int| 0 <= q < windows.len() && windows[q] == i;
    assert(window_names[q] == name);
    assert(window_names.contains(name));
    window_names.index_of_last_ensures(name);
    let found = windows[window_names.index_of_last(name)->0];
    assert(cfgs[found].name@ == name);
    assert(found == i);
    assert(chain.ui_infos@.contains_key(name));
    ui::window_is_described(
        window,
        cfgs[i].uri@,
        key,
        wiring::port_symbols(infos),
        wiring::control_indices(infos),
    );
    let sliders = wiring::slider_plugins(cfgs, n);
    let slider_names = wiring::names_at(cfgs, sliders);
    let slides = |k: int| cfgs[k].generic_ui;
    wiring::selected_holds(n, slides);
    if slider_names.contains(name) {
        let s = choose|s: int| 0 <= s < slider_names.len() && slider_names[s] == name;
        assert(slides(sliders[s]));
        assert(cfgs[sliders[s]].name@ == name);
    }
}

/// The names of the windows of a chain begin with those of the windows that plugins bring
/// along and that were not opened; then come those of sliders, then those that were opened.
pub proof fn window_names_come_in_order(chain: Chain, i: int)
    ensures
        0 <= i < chain.ui_infos.order().len() ==> i < chain.window_names().len()
            && chain.window_names()[i] == chain.ui_infos.order()[i],
        forall|n: Seq<char>|
            chain.ui_infos.order().contains(n) || chain.generic_ui_infos.order().contains(n)
                ==> #[trigger] chain.window_names().contains(n),
        (forall|n: Seq<char>|
            chain.generic_ui_infos.order().contains(n)
                ==> !#[trigger] chain.ui_infos.order().contains(n)) && chain.generic_ui_infos.wf() ==> (chain.ui_infos.order()
            + chain.generic_ui_infos.order()).is_prefix_of(chain.window_names()),
{
    let native = chain.ui_infos.order();
    let generic = chain.generic_ui_infos.order();
    let plain = text::texts(chain.ui_shown@).map_values(
        |key: Seq<char>| plain_name(chain.config.name@, key),
    );
    let both = joined(native, generic);
    joined_begins(native, generic);
    joined_begins(both, plain);
    let all = chain.window_names();
    assert(all == joined(both, plain));
    if 0 <= i < native.len() {
        assert(both.take(native.len() as int)[i] == native[i]);
        assert(all.take(both.len() as int)[i] == both[i]);
    }
    assert forall|n: Seq<char>|
        native.contains(n) || generic.contains(n) implies #[trigger] all.contains(n) by {
        assert(both.contains(n)) by {
            if native.contains(n) {
                let k = choose|k: int| 0 <= k < native.len() && native[k] == n;
                assert(both.take(native.len() as int)[k] == n);
                assert(both[k] == n);
            }
        }
        let k = choose|k: int| 0 <= k < both.len() && both[k] == n;
        assert(all.take(both.len() as int)[k] == n);
        assert(all[k] == n);
    }
    if (forall|n: Seq<char>| generic.contains(n) ==> !#[trigger] native.contains(n))
        && chain.generic_ui_infos.wf() {
        joined_apart(native, generic);
        assert((native + generic) =~= all.take((native + generic).len() as int));
    }
}

/// Names that are joined begin with the first ones, and all of them are there.
proof fn joined_begins(names: Seq<Seq<char>>, more: Seq<Seq<char>>)
    ensures
        names.is_prefix_of(joined(names, more)),
        forall|n: Seq<char>| more.contains(n) ==> #[trigger] joined(names, more).contains(n),
    decreases more.len(),
{
    let all = joined(names, more);
    if more.len() == 0 {
        assert(names =~= names.take(names.len() as int));
    } else {
        let first = more.drop_last();
        joined_begins(names, first);
        let before = joined(names, first);
        assert(names =~= all.take(names.len() as int)) by {
            assert(before.take(names.len() as int) =~= all.take(names.len() as int));
        }
        assert forall|n: Seq<char>| more.contains(n) implies #[trigger] all.contains(n) by {
            let k = choose|k: int| 0 <= k < more.len() && more[k] == n;
            if k < first.len() {
                assert(first[k] == n);
                assert(before.contains(n));
                let j = choose|j: int| 0 <= j < before.len() && before[j] == n;
                assert(all[j] == n);
            } else if !before.contains(n) {
                assert(all.last() == n);
            }
        }
    }
}

/// Names of which none is there yet are joined as they are.
proof fn joined_apart(names: Seq<Seq<char>>, more: Seq<Seq<char>>)
    requires
        forall|n: Seq<char>| more.contains(n) ==> !#[trigger] names.contains(n),
        more.no_duplicates(),
    ensures
        joined(names, more) == names + more,
    decreases more.len(),
{
    if more.len() == 0 {
        assert(names + more =~= names);
    } else {
        let first = more.drop_last();
        assert forall|n: Seq<char>| first.contains(n) implies !#[trigger] names.contains(n) by {
            let k = choose|k: int| 0 <= k < first.len() && first[k] == n;
            assert(more[k] == n);
        }
        joined_apart(names, first);
        let last = more.last();
        let before = names + first;
        assert(more.contains(more[more.len() - 1]));
        if before.contains(last) {
            let k = choose|k: int| 0 <= k < before.len() && before[k] == last;
            if k < names.len() {
                assert(names[k] == last);
                assert(names.contains(last));
            } else {
                assert(more[k - names.len()] == last);
            }
        }
        assert(before.push(last) =~= names + more);
    }
}

/// The plugins of a chain have the names of the configuration, in their order.
pub proof fn plugins_have_names(chain: Chain, i: int)
    requires
        0 <= i < chain.config.plugins@.len(),
    ensures
        chain.plugin_names().len() == chain.config.plugins@.len(),
        chain.plugin_names()[i] == chain.config.plugins@[i].name@,
{
}

/// The window of sliders of a plugin has a slider for every control of the instance that
/// stands for the plugin, and finds its ports as the instance does.
pub proof fn sliders_have_controls_of_instance<S>(
    info: GenericUiInfo,
    chain_name: Seq<char>,
    cfg: crate::config::PluginConfig,
    p: plugin::Lv2PluginInstance<S>,
    i: int,
)
    requires
        wiring::is_generic_ui(info, chain_name, cfg, p),
        0 <= i < p.control_port_meta@.len(),
    ensures
        info.control_ports@.len() == p.control_port_meta@.len(),
        info.control_ports@[i].symbol@ == p.control_port_meta@[i].symbol@,
        info.control_ports@[i].port_index == p.control_port_meta@[i].port_index,
        info.control_ports@[i].min == p.control_port_meta@[i].min,
        info.control_ports@[i].max == p.control_port_meta@[i].max,
        info.control_ports@[i].default == p.control_port_meta@[i].default,
        info.plugin_name@ == chain_name + "/"@ + cfg.name@,
        info.bridge_name@ == cfg.name@,
        info.port_symbol_to_index@ == wiring::port_symbols(p.infos()),
        info.control_port_indices@ == wiring::control_indices(p.infos()),
{
    let a = plugin::meta_views(info.control_ports@);
    let b = plugin::meta_views(p.control_port_meta@);
    assert(a.len() == info.control_ports@.len() && b.len() == p.control_port_meta@.len());
    assert(a[i] == info.control_ports@[i]@ && b[i] == p.control_port_meta@[i]@);
}

/// A chain that [`Chain::start_with_world`] starts has an input for every audio input of a
/// single plugin in front and an output for every audio output of a single plugin at the
/// end, and two for a pair, and for a mix at the end. All are named after the client and
/// counted from one.
pub proof fn started_chain_has_ports_of_its_plugins<S: Copy>(
    config: &ChainConfig,
    world: &World,
    client: &Result<JackClient, String>,
    features: FeatureSet,
    instantiated: &Vec<bool>,
    saved: &Vec<NameMap<u32>>,
    notify_queue: usize,
    zero: S,
    chain: Chain,
    handler: ChainProcessHandler<S>,
)
    requires
        call_ensures(
            Chain::start_with_world::<S>,
            (config, world, client, features, instantiated, saved, notify_queue, zero),
            Ok((chain, handler)),
        ),
    ensures
        config.plugins@.len() > 0,
        client is Ok,
        handler.slots@.len() == config.plugins@.len(),
        handler.slots@[0] matches crate::slot::ChainSlot::Single(i)
            ==> chain.jack_input_port_names@.len()
            == handler.plugins@[i as int].audio_in_bufs@.len(),
        handler.slots@[0] is DualMono ==> chain.jack_input_port_names@.len() == 2,
        handler.slots@.last() is DualMono || config.plugins@.last().stereo_mix is Some
            ==> chain.jack_output_port_names@.len() == 2,
        config.plugins@.last().stereo_mix is None ==> (
        handler.slots@.last() matches crate::slot::ChainSlot::Single(i)
            ==> chain.jack_output_port_names@.len()
            == handler.plugins@[i as int].audio_out_bufs@.len()),
        forall|j: int|
            0 <= j < chain.jack_input_port_names@.len() ==> (
            #[trigger] chain.jack_input_port_names@[j])@ == client->Ok_0.name@ + ":"@
                + "audio_in_"@ + text::decimal_of((j + 1) as nat),
        forall|j: int|
            0 <= j < chain.jack_output_port_names@.len() ==> (
            #[trigger] chain.jack_output_port_names@[j])@ == client->Ok_0.name@ + ":"@
                + "audio_out_"@ + text::decimal_of((j + 1) as nat),
{
    inputs_of_started_chain(
        chain,
        handler,
        *config,
        *world,
        client->Ok_0,
        features.mapper@,
        saved@,
        notify_queue,
        zero,
    );
    outputs_of_started_chain(
        chain,
        handler,
        *config,
        *world,
        client->Ok_0,
        features.mapper@,
        saved@,
        notify_queue,
        zero,
    );
    wiring::plan_of_plugin(config.plugins@, 0);
}

/// [`Chain::start_with_world`] starts no chain without plugins or without a client, and says
/// why.
pub proof fn chain_is_not_started_without_plugins<S: Copy>(
    config: &ChainConfig,
    world: &World,
    client: &Result<JackClient, String>,
    features: FeatureSet,
    instantiated: &Vec<bool>,
    saved: &Vec<NameMap<u32>>,
    notify_queue: usize,
    zero: S,
    r: Result<(Chain, ChainProcessHandler<S>), Error>,
)
    requires
        call_ensures(
            Chain::start_with_world::<S>,
            (config, world, client, features, instantiated, saved, notify_queue, zero),
            r,
        ),
    ensures
        config.plugins@.len() == 0 ==> (r matches Err(Error::Config(what)) && what@
            == "chain has no plugins"@),
        config.plugins@.len() > 0 ==> (client matches Err(reason) ==> (r matches Err(
            Error::Jack(what),
        ) && what@ == "failed to create JACK client: "@ + reason@)),
        r is Ok ==> wiring::first_error(
            *world,
            config.plugins@,
            instantiated@,
            wiring::planned(config.plugins@).len() as int,
        ) is None,
{
    if let Err(e) = r {
        crate::error::view_has_all_of_error(e);
    }
}

/// [`Chain::toggle_mute`] twice leaves a chain as it was.
pub proof fn muting_twice_is_not_muting(
    chain: &mut Chain,
    again: &mut Chain,
    first: bool,
    second: bool,
)
    requires
        call_ensures(Chain::toggle_mute, (chain,), first),
        call_ensures(Chain::toggle_mute, (again,), second),
        *old(again) == *final(chain),
    ensures
        first == final(chain).muted,
        first != old(chain).muted,
        second == final(again).muted,
        *final(again) == *old(chain),
{
}

/// [`Chain::connect_to`] connects the outputs of one chain to the inputs of another, one for
/// one in their order as far as both go, and fails where the chain is not active.
pub proof fn chains_are_connected_in_order(
    chain: &Chain,
    target: &Chain,
    r: Result<Vec<(String, String)>, Error>,
    i: int,
)
    requires
        call_ensures(Chain::connect_to, (chain, target), r),
    ensures
        r is Ok <==> chain.active,
        r matches Err(e) ==> (e matches Error::Config(what) && what@ == "chain not active"@),
        r matches Ok(pairs) ==> {
            let a = chain.jack_output_port_names@;
            let b = target.jack_input_port_names@;
            &&& pairs@.len() <= a.len() && pairs@.len() <= b.len()
            &&& pairs@.len() == a.len() || pairs@.len() == b.len()
            &&& 0 <= i < pairs@.len() ==> pairs@[i].0@ == a[i]@ && pairs@[i].1@ == b[i]@
        },
{
    if let Ok(pairs) = r {
        let a = chain.jack_output_port_names@;
        let b = target.jack_input_port_names@;
        assert(pair_views(pairs@).len() == pairs@.len());
        assert(text::texts(a).len() == a.len() && text::texts(b).len() == b.len());
        if 0 <= i < pairs@.len() {
            ports_are_connected_in_order(pairs@, a, b, i);
        }
    } else {
        crate::error::view_has_all_of_error(r->Err_0);
    }
}

/// [`Chain::auto_inputs`] and [`Chain::auto_outputs`] connect physical ports to those of the
/// chain, one for one in their order, where the configuration asks for it, and none else.
pub proof fn physical_ports_are_connected_where_asked(
    chain: &Chain,
    physical: &Vec<String>,
    ins: Vec<(String, String)>,
    outs: Vec<(String, String)>,
    i: int,
)
    requires
        call_ensures(Chain::auto_inputs, (chain, physical), ins),
        call_ensures(Chain::auto_outputs, (chain, physical), outs),
    ensures
        !chain.config.auto_connect_input ==> ins@.len() == 0,
        !chain.config.auto_connect_output ==> outs@.len() == 0,
        chain.config.auto_connect_input && 0 <= i < physical@.len() && i
            < chain.jack_input_port_names@.len() ==> i < ins@.len() && ins@[i].0@ == physical@[i]@
            && ins@[i].1@ == chain.jack_input_port_names@[i]@,
        chain.config.auto_connect_output && 0 <= i < physical@.len() && i
            < chain.jack_output_port_names@.len() ==> i < outs@.len() && outs@[i].0@
            == chain.jack_output_port_names@[i]@ && outs@[i].1@ == physical@[i]@,
        chain.config.auto_connect_input ==> ins@.len() <= physical@.len() && ins@.len()
            <= chain.jack_input_port_names@.len(),
        chain.config.auto_connect_output ==> outs@.len() <= physical@.len() && outs@.len()
            <= chain.jack_output_port_names@.len(),
{
    let a = physical@;
    let b = chain.jack_input_port_names@;
    let c = chain.jack_output_port_names@;
    assert(pair_views(ins@).len() == ins@.len() && pair_views(outs@).len() == outs@.len());
    assert(text::texts(a).len() == a.len() && text::texts(b).len() == b.len());
    assert(text::texts(c).len() == c.len());
    if chain.config.auto_connect_input && 0 <= i < a.len() && i < b.len() {
        ports_are_connected_in_order(ins@, a, b, i);
    }
    if chain.config.auto_connect_output && 0 <= i < a.len() && i < c.len() {
        ports_are_connected_in_order(outs@, c, a, i);
    }
}

/// A control that [`Chain::set_control`] sets is set at the bridge of the first plugin of the
/// name, at the last place of the symbol, and nothing else of the chain changes.
pub proof fn control_of_chain_is_set(
    chain: &mut Chain,
    name: &str,
    port: &str,
    value: u32,
    r: Result<(), Error>,
    p: int,
    i: int,
)
    requires
        call_ensures(Chain::set_control, (chain, name, port, value), r),
        0 <= p < old(chain).control_bridge.plugins@.len(),
        old(chain).control_bridge.plugins@[p].name@ == name@,
        forall|q: int|
            0 <= q < p ==> (#[trigger] old(chain).control_bridge.plugins@[q]).name@ != name@,
        0 <= i < old(chain).control_bridge.plugins@[p].symbols@.len(),
        old(chain).control_bridge.plugins@[p].symbols@[i]@ == port@,
        forall|j: int|
            i < j < old(chain).control_bridge.plugins@[p].symbols@.len() ==> (
            #[trigger] old(chain).control_bridge.plugins@[p].symbols@[j])@ != port@,
    ensures
        r is Ok,
        final(chain).control_bridge.plugins@[p].values@[i] == value,
        final(chain).config == old(chain).config,
        final(chain).muted == old(chain).muted,
        final(chain).active == old(chain).active,
        final(chain).midi_senders == old(chain).midi_senders,
{
    let bridge = old(chain).control_bridge;
    let names = bridge.names();
    assert(names[p] == name@);
    assert(names.contains(name@));
    names.index_of_first_ensures(name@);
    let found = names.index_of_first(name@)->0;
    assert(names[found] == bridge.plugins@[found].name@);
    assert(found == p);
    let symbols = text::texts(bridge.plugins@[p].symbols@);
    assert(symbols[i] == port@);
    assert(symbols.contains(port@));
    symbols.index_of_last_ensures(port@);
    let at = symbols.index_of_last(port@)->0;
    assert(symbols[at] == bridge.plugins@[p].symbols@[at]@);
    assert(at == i);
    bridge::one_value_is_set(bridge, final(chain).control_bridge, p, i, value);
}

/// [`Chain::show_ui`] asks for the window of a plugin, which is then open, and fails for a
/// plugin that has none, with nothing changed.
pub proof fn window_of_plugin_is_shown(
    chain: &mut Chain,
    commands: &mut UiCommands,
    name: &str,
    r: Result<(), Error>,
)
    requires
        call_ensures(Chain::show_ui, (chain, commands, name), r),
    ensures
        ({
            let key = old(chain).config.name@ + "/"@ + name@;
            let there = text::texts(old(chain).ui_shown@).contains(key)
                || old(chain).generic_ui_infos@.contains_key(name@)
                || old(chain).ui_infos@.contains_key(name@);
            &&& r is Ok <==> there
            &&& there ==> text::texts(final(chain).ui_shown@).contains(key)
                && final(commands).started && final(commands)@.len() == old(commands)@.len() + 1
            &&& !there ==> final(commands)@ == old(commands)@ && final(chain).ui_infos@
                == old(chain).ui_infos@ && final(chain).generic_ui_infos@
                == old(chain).generic_ui_infos@
            &&& r matches Err(e) ==> (e matches Error::PluginNotFound { name: n } && n@ == name@)
            &&& final(chain).control_bridge == old(chain).control_bridge
            &&& final(chain).config == old(chain).config
        }),
{
    let st = old(chain).ui_state(*old(commands));
    window_is_opened_once(
        st,
        old(chain).config.name@,
        old(chain).plugin_primary_indices@,
        old(chain).notify_queue,
        name@,
    );
    let after = final(chain).ui_state(*final(commands));
    assert(after.commands == final(commands)@);
    if let Err(e) = r {
        crate::error::view_has_all_of_error(e);
    }
}

/// [`Chain::hide_ui`] asks for the window of the plugin to be hidden where the thread of the
/// windows runs, and does nothing else.
pub proof fn window_of_plugin_is_hidden(
    chain: &Chain,
    commands: &mut UiCommands,
    name: &str,
    r: Result<(), Error>,
)
    requires
        call_ensures(Chain::hide_ui, (chain, commands, name), r),
    ensures
        r is Ok,
        final(commands).started == old(commands).started,
        old(commands).started ==> final(commands)@ == old(commands)@.push(
            UiCommandView::Hide { plugin_name: chain.config.name@ + "/"@ + name@ },
        ),
        !old(commands).started ==> final(commands)@ == old(commands)@,
{
}

/// [`Chain::hide_all_ui`] asks for the window of every plugin to be hidden, in the order of
/// the plugins, where the thread of the windows runs.
pub proof fn windows_of_all_plugins_are_hidden(
    chain: &Chain,
    commands: &mut UiCommands,
    r: Result<(), Error>,
    i: int,
)
    requires
        call_ensures(Chain::hide_all_ui, (chain, commands), r),
        0 <= i < chain.config.plugins@.len(),
    ensures
        r is Ok,
        !old(commands).started ==> final(commands)@ == old(commands)@,
        old(commands).started ==> {
            &&& final(commands)@.len() == old(commands)@.len() + chain.config.plugins@.len()
            &&& final(commands)@[old(commands)@.len() + i] == (UiCommandView::Hide {
                plugin_name: chain.config.name@ + "/"@ + chain.config.plugins@[i].name@,
            })
        },
{
}

/// [`Chain::stop`] ends a chain: it is not active, takes no messages any more, and hands out
/// the value of every control of every plugin under its names.
pub proof fn stopped_chain_hands_out_controls(
    chain: &mut Chain,
    saved: Vec<(String, NameMap<u32>)>,
    p: int,
    i: int,
)
    requires
        old(chain).wf(),
        call_ensures(Chain::stop, (chain,), saved),
        0 <= p < old(chain).control_bridge.plugins@.len(),
        forall|q: int|
            p < q < old(chain).control_bridge.plugins@.len() ==> (
            #[trigger] old(chain).control_bridge.plugins@[q]).name@
                != old(chain).control_bridge.plugins@[p].name@,
        0 <= i < old(chain).control_bridge.plugins@[p].symbols@.len(),
        forall|j: int|
            i < j < old(chain).control_bridge.plugins@[p].symbols@.len() ==> (
            #[trigger] old(chain).control_bridge.plugins@[p].symbols@[j])@
                != old(chain).control_bridge.plugins@[p].symbols@[i]@,
    ensures
        !final(chain).active,
        forall|n: Seq<char>| !#[trigger] final(chain).midi_senders@.contains_key(n),
        final(chain).control_bridge == old(chain).control_bridge,
        exists|at: int|
            0 <= at < saved@.len() && (#[trigger] saved@[at]).0@
                == old(chain).control_bridge.plugins@[p].name@ && saved@[at].1@.contains_key(
                old(chain).control_bridge.plugins@[p].symbols@[i]@,
            ) && saved@[at].1@[old(chain).control_bridge.plugins@[p].symbols@[i]@]
                == old(chain).control_bridge.plugins@[p].values@[i],
{
    let at = every_control_is_saved(old(chain).control_bridge, saved@, p, i);
    assert(saved@[at].0@ == old(chain).control_bridge.plugins@[p].name@);
}

/// What goes wrong with the ports of a chain is told with the ports and the reason.
pub proof fn port_errors_tell_reason(
    src: &str,
    dst: &str,
    reason: &str,
    connect: Error,
    input: Error,
    output: Error,
    activate: Error,
)
    requires
        call_ensures(connect_error, (src, dst, reason), connect),
        call_ensures(register_error, (true, reason), input),
        call_ensures(register_error, (false, reason), output),
        call_ensures(activate_error, (reason,), activate),
    ensures
        connect matches Error::Config(what) && what@ == "connect "@ + src@ + " → "@ + dst@ + ": "@
            + reason@,
        input matches Error::Jack(what) && what@ == "register input port: "@ + reason@,
        output matches Error::Jack(what) && what@ == "register output port: "@ + reason@,
        activate matches Error::Jack(what) && what@ == "JACK activate failed: "@ + reason@,
{
    crate::error::view_has_all_of_error(connect);
    crate::error::view_has_all_of_error(input);
    crate::error::view_has_all_of_error(output);
    crate::error::view_has_all_of_error(activate);
}

/// A chain tells whether it is muted and runs, and what its ports are; it has no ports to
/// tell of where the list is empty.
pub proof fn chain_tells_of_itself(
    chain: &Chain,
    muted: bool,
    running: bool,
    ins: &Vec<String>,
    outs: &Vec<String>,
    first: Option<Vec<String>>,
    last: Option<Vec<String>>,
)
    requires
        call_ensures(Chain::is_muted, (chain,), muted),
        call_ensures(Chain::is_running, (chain,), running),
        call_ensures(Chain::input_port_names, (chain,), ins),
        call_ensures(Chain::output_port_names, (chain,), outs),
        call_ensures(Chain::chain_input_ports, (chain,), first),
        call_ensures(Chain::chain_output_ports, (chain,), last),
    ensures
        muted == chain.muted,
        running == chain.active,
        ins@ == chain.jack_input_port_names@,
        outs@ == chain.jack_output_port_names@,
        first is Some <==> chain.jack_input_port_names@.len() > 0,
        first is Some ==> (first->0)@ == chain.jack_input_port_names@,
        last is Some <==> chain.jack_output_port_names@.len() > 0,
        last is Some ==> (last->0)@ == chain.jack_output_port_names@,
{
}

/// [`Chain::check_health`] leaves a chain as it is.
pub proof fn checked_chain_stays(chain: &mut Chain)
    requires
        call_ensures(Chain::check_health, (chain,), ()),
    ensures
        *final(chain) == *old(chain),
{
}

/// [`Chain::all_controls`] lists every value of the last plugin of a name under the last place
/// of its symbol.
pub proof fn every_control_of_chain_is_listed(
    chain: &Chain,
    r: NameMap<NameMap<u32>>,
    p: int,
    i: int,
)
    requires
        chain.wf(),
        call_ensures(Chain::all_controls, (chain,), r),
        0 <= p < chain.control_bridge.plugins@.len(),
        forall|q: int|
            p < q < chain.control_bridge.plugins@.len() ==> (
            #[trigger] chain.control_bridge.plugins@[q]).name@
                != chain.control_bridge.plugins@[p].name@,
        0 <= i < chain.control_bridge.plugins@[p].symbols@.len(),
        forall|j: int|
            i < j < chain.control_bridge.plugins@[p].symbols@.len() ==> (
            #[trigger] chain.control_bridge.plugins@[p].symbols@[j])@
                != chain.control_bridge.plugins@[p].symbols@[i]@,
    ensures
        r@.contains_key(chain.control_bridge.plugins@[p].name@),
        r@[chain.control_bridge.plugins@[p].name@]@.contains_key(
            chain.control_bridge.plugins@[p].symbols@[i]@,
        ),
        r@[chain.control_bridge.plugins@[p].name@]@[chain.control_bridge.plugins@[p].symbols@[i]@]
            == chain.control_bridge.plugins@[p].values@[i],
{
    let bridge = chain.control_bridge;
    let names = bridge.names();
    let name = bridge.plugins@[p].name@;
    assert(names[p] == name);
    assert(names.contains(name));
    names.index_of_last_ensures(name);
    let found = names.index_of_last(name)->0;
    assert(names[found] == bridge.plugins@[found].name@);
    assert(found == p);
    assert(r@.contains_key(name));
    bridge::values_are_listed_by_symbol(bridge.plugins@[p], bridge.plugins@[p].symbols@[i]@);
}

/// [`Chain::show_all_ui`] asks for every window of the chain, once and in the order of their
/// names, and [`Chain::toggle_all_ui`] asks for each of them to be toggled or shown.
pub proof fn all_windows_are_asked_for(
    chain: &mut Chain,
    commands: &mut UiCommands,
    r: Result<(), Error>,
    toggled: &mut Chain,
    toggles: &mut UiCommands,
    t: Result<(), Error>,
    i: int,
)
    requires
        old(chain).wf(),
        old(toggled).wf(),
        well_named(old(chain).ui_state(*old(commands)), old(chain).config.name@),
        well_named(old(toggled).ui_state(*old(toggles)), old(toggled).config.name@),
        old(toggles).started,
        call_ensures(Chain::show_all_ui, (chain, commands), r),
        call_ensures(Chain::toggle_all_ui, (toggled, toggles), t),
    ensures
        r is Ok,
        t is Ok,
        final(commands)@.len() == old(commands)@.len() + old(chain).window_names().len(),
        0 <= i < old(chain).window_names().len() ==> ui::asks_for(
            final(commands)@[old(commands)@.len() + i],
            old(chain).config.name@ + "/"@ + old(chain).window_names()[i],
        ),
        final(toggles)@.len() == old(toggles)@.len() + old(toggled).window_names().len(),
        0 <= i < old(toggled).window_names().len() ==> {
            let key = old(toggled).config.name@ + "/"@ + old(toggled).window_names()[i];
            let command = final(toggles)@[old(toggles)@.len() + i];
            command == (UiCommandView::Toggle { plugin_name: key }) || ui::asks_for(command, key)
        },
{
    let st = old(chain).ui_state(*old(commands));
    let names = old(chain).window_names();
    all_windows_are_named_once(*old(chain), *old(commands));
    assert forall|k: int| 0 <= k < names.len() implies has_window(
        st,
        old(chain).config.name@,
        #[trigger] names[k],
    ) by {
        assert(names.contains(names[k]));
    }
    all_shown_windows_are_asked_for(
        st,
        old(chain).config.name@,
        old(chain).plugin_primary_indices@,
        old(chain).notify_queue,
        names,
    );
    let after = final(chain).ui_state(*final(commands));
    assert(after.commands == final(commands)@);
    let ts = old(toggled).ui_state(*old(toggles));
    let all = old(toggled).window_names();
    all_windows_are_named_once(*old(toggled), *old(toggles));
    assert forall|k: int| 0 <= k < all.len() implies has_window(
        ts,
        old(toggled).config.name@,
        #[trigger] all[k],
    ) by {
        assert(all.contains(all[k]));
    }
    every_window_is_toggled(
        ts,
        old(toggled).config.name@,
        old(toggled).plugin_primary_indices@,
        old(toggled).notify_queue,
        all,
    );
    let later = final(toggled).ui_state(*final(toggles));
    assert(later.commands == final(toggles)@);
    if 0 <= i < names.len() {
        assert(wiring::ui_key(old(chain).config.name@, names[i]) == old(chain).config.name@ + "/"@
            + names[i]);
    }
    if 0 <= i < all.len() {
        assert(wiring::ui_key(old(toggled).config.name@, all[i]) == old(toggled).config.name@ + "/"@
            + all[i]);
    }
}

/// [`Chain::midi_sender`] finds the sender of a plugin that gets messages, and says so where
/// there is none; [`Chain::sole_midi_sender`] says how many there are where there is not one.
pub proof fn sender_is_found_by_plugin(
    chain: &mut Chain,
    name: &str,
    r: Result<&mut MidiSender, Error>,
    other: &mut Chain,
    sole: Result<&mut MidiSender, Error>,
)
    requires
        call_ensures(Chain::midi_sender, (chain, name), r),
        call_ensures(Chain::sole_midi_sender, (other,), sole),
    ensures
        r is Ok <==> old(chain).midi_senders@.contains_key(name@),
        r matches Ok(s) ==> *s == old(chain).midi_senders@[name@],
        r matches Err(e) ==> (e matches Error::PluginNotFound { name: n } && n@ == name@),
        final(chain).config == old(chain).config,
        final(chain).control_bridge == old(chain).control_bridge,
        sole is Ok <==> old(other).midi_senders.entries@.len() == 1,
        sole matches Err(e) ==> (e matches Error::AmbiguousMidi { count } && count
            == old(other).midi_senders.entries@.len()),
{
    if let Err(e) = r {
        crate::error::view_has_all_of_error(e);
    }
    if let Err(e) = sole {
        crate::error::view_has_all_of_error(e);
    }
    assert(old(other).midi_senders.order().len() == old(other).midi_senders.entries@.len());
}

} // verus!
