//! What a chain is made of, and builders for it.
use vstd::prelude::*;

verus! {

/// Top-level configuration for a plugin chain.
#[derive(Debug)]
pub struct ChainConfig {
    pub name: String,
    pub plugins: Vec<PluginConfig>,
    pub jack_client_prefix: String,
    pub buffer_size: Option<u32>,
    pub auto_connect_input: bool,
    pub auto_connect_output: bool,
}

/// Configuration for a single LV2 plugin instance.
#[derive(Debug)]
pub struct PluginConfig {
    pub uri: String,
    pub name: String,
    pub generic_ui: bool,
    /// Override MIDI input detection. When `Some(true)`, the chain always
    /// creates a MIDI route to this plugin. When `Some(false)`, never.
    /// When `None`, the ports of the plugin decide.
    pub midi_in: Option<bool>,
    pub dual_mono: bool,
    /// How much of each output channel goes to the left and to the right, each
    /// as the bits of an IEEE single.
    pub stereo_mix: Option<Vec<[u32; 2]>>,
}

impl PluginConfig {
    /// Whether only the URI and the name were given.
    pub open spec fn is_plain(self, uri: Seq<char>, name: Seq<char>) -> bool {
        &&& self.uri@ == uri
        &&& self.name@ == name
        &&& !self.generic_ui
        &&& self.midi_in is None
        &&& !self.dual_mono
        &&& self.stereo_mix is None
    }
}

impl ChainConfig {
    /// Whether only the name was given.
    pub open spec fn is_plain(self, name: Seq<char>) -> bool {
        &&& self.name@ == name
        &&& self.plugins@.len() == 0
        &&& self.jack_client_prefix@ == "bn"@
        &&& self.buffer_size is None
        &&& !self.auto_connect_input
        &&& !self.auto_connect_output
    }
}

/// Whether two lists of gains hold the same.
pub open spec fn same_mix(a: Option<Vec<[u32; 2]>>, b: Option<Vec<[u32; 2]>>) -> bool {
    match (a, b) {
        (Some(x), Some(y)) => x@ == y@,
        (None, None) => true,
        _ => false,
    }
}

/// A copy of a list of gains.
pub fn copy_mix(mix: &Option<Vec<[u32; 2]>>) -> (r: Option<Vec<[u32; 2]>>)
    ensures
        same_mix(r, *mix),
{
    match mix {
        Some(v) => {
            let mut r: Vec<[u32; 2]> = Vec::new();
            let mut i: usize = 0;
            while i < v.len()
                invariant
                    i <= v@.len(),
                    r@ == v@.take(i as int),
                decreases v@.len() - i,
            {
                r.push(v[i]);
                assert(v@.take(i + 1) == v@.take(i as int).push(v@[i as int]));
                i += 1;
            }
            assert(v@.take(i as int) == v@);
            Some(r)
        },
        None => None,
    }
}

impl PluginConfig {
    /// Whether this and `other` say the same.
    pub open spec fn same(self, other: PluginConfig) -> bool {
        &&& self.uri@ == other.uri@
        &&& self.name@ == other.name@
        &&& self.generic_ui == other.generic_ui
        &&& self.midi_in == other.midi_in
        &&& self.dual_mono == other.dual_mono
        &&& same_mix(self.stereo_mix, other.stereo_mix)
    }
}

impl ChainConfig {
    /// Whether this and `other` say the same.
    pub open spec fn same(self, other: ChainConfig) -> bool {
        &&& self.name@ == other.name@
        &&& self.plugins@.len() == other.plugins@.len()
        &&& forall|i: int|
            0 <= i < self.plugins@.len() ==> (#[trigger] self.plugins@[i]).same(other.plugins@[i])
        &&& self.jack_client_prefix@ == other.jack_client_prefix@
        &&& self.buffer_size == other.buffer_size
        &&& self.auto_connect_input == other.auto_connect_input
        &&& self.auto_connect_output == other.auto_connect_output
    }
}

impl Clone for PluginConfig {
    fn clone(&self) -> (r: Self)
        ensures
            r.same(*self),
    {
        PluginConfig {
            uri: self.uri.clone(),
            name: self.name.clone(),
            generic_ui: self.generic_ui,
            midi_in: self.midi_in,
            dual_mono: self.dual_mono,
            stereo_mix: copy_mix(&self.stereo_mix),
        }
    }
}

impl Clone for ChainConfig {
    fn clone(&self) -> (r: Self)
        ensures
            r.same(*self),
    {
        let mut plugins: Vec<PluginConfig> = Vec::new();
        let mut i: usize = 0;
        while i < self.plugins.len()
            invariant
                i <= self.plugins@.len(),
                plugins@.len() == i,
                forall|k: int|
                    0 <= k < i ==> (#[trigger] plugins@[k]).same(self.plugins@[k]),
            decreases self.plugins@.len() - i,
        {
            plugins.push(self.plugins[i].clone());
            i += 1;
        }
        ChainConfig {
            name: self.name.clone(),
            plugins,
            jack_client_prefix: self.jack_client_prefix.clone(),
            buffer_size: self.buffer_size,
            auto_connect_input: self.auto_connect_input,
            auto_connect_output: self.auto_connect_output,
        }
    }
}

impl Default for PluginConfig {
    fn default() -> (r: Self)
        ensures
            r.is_plain(""@, ""@),
    {
        PluginBuilder::new("", "").build()
    }
}

impl Default for ChainConfig {
    fn default() -> (r: Self)
        ensures
            r.is_plain(""@),
    {
        ChainBuilder::new("").build()
    }
}

/// Makes a [`ChainConfig`] step by step.
pub struct ChainBuilder {
    pub config: ChainConfig,
}

impl ChainBuilder {
    /// A chain of that name, without plugins.
    pub fn new(name: &str) -> (r: Self)
        ensures
            r.config.is_plain(name@),
    {
        ChainBuilder {
            config: ChainConfig {
                name: name.to_owned(),
                plugins: Vec::new(),
                jack_client_prefix: "bn".to_owned(),
                buffer_size: None,
                auto_connect_input: false,
                auto_connect_output: false,
            },
        }
    }

    /// One more plugin behind the others.
    pub fn plugin(self, plugin: PluginConfig) -> (r: Self)
        ensures
            r.config.plugins@ == self.config.plugins@.push(plugin),
            r.config == (ChainConfig { plugins: r.config.plugins, ..self.config }),
    {
        let mut builder = self;
        builder.config.plugins.push(plugin);
        builder
    }

    /// The prefix of the JACK client's name.
    pub fn jack_client_prefix(self, prefix: &str) -> (r: Self)
        ensures
            r.config.jack_client_prefix@ == prefix@,
            r.config == (ChainConfig {
                jack_client_prefix: r.config.jack_client_prefix,
                ..self.config
            }),
    {
        let mut builder = self;
        builder.config.jack_client_prefix = prefix.to_owned();
        builder
    }

    /// The number of frames in a block.
    pub fn buffer_size(self, size: u32) -> (r: Self)
        ensures
            r.config == (ChainConfig { buffer_size: Some(size), ..self.config }),
    {
        let mut builder = self;
        builder.config.buffer_size = Some(size);
        builder
    }

    /// Connects the inputs to the hardware.
    pub fn auto_connect_input(self) -> (r: Self)
        ensures
            r.config == (ChainConfig { auto_connect_input: true, ..self.config }),
    {
        let mut builder = self;
        builder.config.auto_connect_input = true;
        builder
    }

    /// Connects the outputs to the hardware.
    pub fn auto_connect_output(self) -> (r: Self)
        ensures
            r.config == (ChainConfig { auto_connect_output: true, ..self.config }),
    {
        let mut builder = self;
        builder.config.auto_connect_output = true;
        builder
    }

    /// The configuration as it stands.
    pub fn build(self) -> (r: ChainConfig)
        ensures
            r == self.config,
    {
        self.config
    }
}

/// Makes a [`PluginConfig`] step by step.
pub struct PluginBuilder {
    pub config: PluginConfig,
}

impl PluginBuilder {
    /// A plugin by its URI, under a name.
    pub fn new(uri: &str, name: &str) -> (r: Self)
        ensures
            r.config.is_plain(uri@, name@),
    {
        PluginBuilder {
            config: PluginConfig {
                uri: uri.to_owned(),
                name: name.to_owned(),
                generic_ui: false,
                midi_in: None,
                dual_mono: false,
                stereo_mix: None,
            },
        }
    }

    /// Sliders in place of the plugin's own window.
    pub fn generic_ui(self) -> (r: Self)
        ensures
            r.config == (PluginConfig { generic_ui: true, ..self.config }),
    {
        let mut builder = self;
        builder.config.generic_ui = true;
        builder
    }

    /// Whether the plugin gets MIDI, whatever its ports.
    pub fn midi_in(self, enabled: bool) -> (r: Self)
        ensures
            r.config == (PluginConfig { midi_in: Some(enabled), ..self.config }),
    {
        let mut builder = self;
        builder.config.midi_in = Some(enabled);
        builder
    }

    /// One instance for the left channel and one for the right.
    pub fn dual_mono(self) -> (r: Self)
        ensures
            r.config == (PluginConfig { dual_mono: true, ..self.config }),
    {
        let mut builder = self;
        builder.config.dual_mono = true;
        builder
    }

    /// How the outputs are mixed down to two channels.
    pub fn stereo_mix(self, mix: Vec<[u32; 2]>) -> (r: Self)
        ensures
            r.config == (PluginConfig { stereo_mix: Some(mix), ..self.config }),
    {
        let mut builder = self;
        builder.config.stereo_mix = Some(mix);
        builder
    }

    /// The configuration as it stands.
    pub fn build(self) -> (r: PluginConfig)
        ensures
            r == self.config,
    {
        self.config
    }
}

/// A copy of a configuration has all that the configuration has, plugin by plugin.
pub proof fn copy_has_every_field(a: ChainConfig, b: ChainConfig, i: int)
    requires
        a.same(b),
        0 <= i < b.plugins@.len(),
    ensures
        a.name@ == b.name@,
        a.jack_client_prefix@ == b.jack_client_prefix@,
        a.buffer_size == b.buffer_size,
        a.auto_connect_input == b.auto_connect_input,
        a.auto_connect_output == b.auto_connect_output,
        a.plugins@.len() == b.plugins@.len(),
        a.plugins@[i].uri@ == b.plugins@[i].uri@,
        a.plugins@[i].name@ == b.plugins@[i].name@,
        a.plugins@[i].generic_ui == b.plugins@[i].generic_ui,
        a.plugins@[i].midi_in == b.plugins@[i].midi_in,
        a.plugins@[i].dual_mono == b.plugins@[i].dual_mono,
        a.plugins@[i].stereo_mix is Some <==> b.plugins@[i].stereo_mix is Some,
        b.plugins@[i].stereo_mix matches Some(mix) ==> {
            &&& (a.plugins@[i].stereo_mix->0)@.len() == mix@.len()
            &&& forall|c: int, side: int|
                0 <= c < mix@.len() && 0 <= side < 2
                    ==> #[trigger] (a.plugins@[i].stereo_mix->0)@[c]@[side] == mix@[c]@[side]
        },
{
    assert(a.plugins@[i].same(b.plugins@[i]));
}

/// A new chain has its name and the client prefix `bn`, and nothing else is set.
pub proof fn new_chain_is_bare(config: ChainConfig, name: Seq<char>)
    requires
        config.is_plain(name),
    ensures
        config.name@ == name,
        config.plugins@.len() == 0,
        config.jack_client_prefix@.len() == 2,
        config.jack_client_prefix@[0] == 'b',
        config.jack_client_prefix@[1] == 'n',
        config.buffer_size is None,
        !config.auto_connect_input,
        !config.auto_connect_output,
{
    reveal_strlit("bn");
}

/// A new plugin has its URI and name, its ports decide on MIDI, it runs once, and it is
/// neither mixed nor shown by sliders.
pub proof fn new_plugin_is_bare(config: PluginConfig, uri: Seq<char>, name: Seq<char>)
    requires
        config.is_plain(uri, name),
    ensures
        config.uri@ == uri,
        config.name@ == name,
        config.midi_in is None,
        !config.generic_ui,
        !config.dual_mono,
        config.stereo_mix is None,
{
}

/// A chain is built as it is described: [`ChainBuilder::plugin`] appends a plugin, and each
/// other step sets one thing and leaves the rest.
pub proof fn chain_is_built_as_described(
    name: &str,
    plugin: PluginConfig,
    prefix: &str,
    size: u32,
    b0: ChainBuilder,
    b1: ChainBuilder,
    b2: ChainBuilder,
    b3: ChainBuilder,
    b4: ChainBuilder,
    b5: ChainBuilder,
    r: ChainConfig,
)
    requires
        call_ensures(ChainBuilder::new, (name,), b0),
        call_ensures(ChainBuilder::plugin, (b0, plugin), b1),
        call_ensures(ChainBuilder::jack_client_prefix, (b1, prefix), b2),
        call_ensures(ChainBuilder::buffer_size, (b2, size), b3),
        call_ensures(ChainBuilder::auto_connect_input, (b3,), b4),
        call_ensures(ChainBuilder::auto_connect_output, (b4,), b5),
        call_ensures(ChainBuilder::build, (b5,), r),
    ensures
        r.name@ == name@,
        r.plugins@.len() == 1,
        r.plugins@[0] == plugin,
        r.jack_client_prefix@ == prefix@,
        r.buffer_size == Some(size),
        r.auto_connect_input,
        r.auto_connect_output,
        b0.config.jack_client_prefix@ == "bn"@,
        b0.config.buffer_size is None,
        !b3.config.auto_connect_input,
        !b4.config.auto_connect_output,
{
}

/// Plugins stay in the order in which [`ChainBuilder::plugin`] was told of them.
pub proof fn plugins_are_built_in_order(
    b: ChainBuilder,
    first: PluginConfig,
    second: PluginConfig,
    one: ChainBuilder,
    two: ChainBuilder,
)
    requires
        call_ensures(ChainBuilder::plugin, (b, first), one),
        call_ensures(ChainBuilder::plugin, (one, second), two),
    ensures
        two.config.plugins@.len() == b.config.plugins@.len() + 2,
        two.config.plugins@[b.config.plugins@.len() as int] == first,
        two.config.plugins@.last() == second,
        forall|i: int|
            0 <= i < b.config.plugins@.len() ==> #[trigger] two.config.plugins@[i]
                == b.config.plugins@[i],
        two.config.name == b.config.name,
{
}

/// A plugin is built as it is described, each step sets one thing and leaves the rest.
pub proof fn plugin_is_built_as_described(
    uri: &str,
    name: &str,
    enabled: bool,
    mix: Vec<[u32; 2]>,
    b0: PluginBuilder,
    b1: PluginBuilder,
    b2: PluginBuilder,
    b3: PluginBuilder,
    b4: PluginBuilder,
    r: PluginConfig,
)
    requires
        call_ensures(PluginBuilder::new, (uri, name), b0),
        call_ensures(PluginBuilder::generic_ui, (b0,), b1),
        call_ensures(PluginBuilder::midi_in, (b1, enabled), b2),
        call_ensures(PluginBuilder::dual_mono, (b2,), b3),
        call_ensures(PluginBuilder::stereo_mix, (b3, mix), b4),
        call_ensures(PluginBuilder::build, (b4,), r),
    ensures
        r.uri@ == uri@,
        r.name@ == name@,
        r.generic_ui,
        r.midi_in == Some(enabled),
        r.dual_mono,
        r.stereo_mix == Some(mix),
        !b0.config.generic_ui,
        b1.config.midi_in is None,
        !b2.config.dual_mono,
        b3.config.stereo_mix is None,
{
}

/// A copy of a configuration by `clone` has all that the configuration has.
pub proof fn cloned_config_is_whole(c: &ChainConfig, r: ChainConfig, i: int)
    requires
        call_ensures(<ChainConfig as Clone>::clone, (c,), r),
        0 <= i < c.plugins@.len(),
    ensures
        r.name@ == c.name@,
        r.jack_client_prefix@ == c.jack_client_prefix@,
        r.buffer_size == c.buffer_size,
        r.auto_connect_input == c.auto_connect_input,
        r.auto_connect_output == c.auto_connect_output,
        r.plugins@.len() == c.plugins@.len(),
        r.plugins@[i].uri@ == c.plugins@[i].uri@,
        r.plugins@[i].name@ == c.plugins@[i].name@,
        r.plugins@[i].generic_ui == c.plugins@[i].generic_ui,
        r.plugins@[i].midi_in == c.plugins@[i].midi_in,
        r.plugins@[i].dual_mono == c.plugins@[i].dual_mono,
        r.plugins@[i].stereo_mix is Some <==> c.plugins@[i].stereo_mix is Some,
        r.plugins@[i].stereo_mix is Some ==> (r.plugins@[i].stereo_mix->0)@
            == (c.plugins@[i].stereo_mix->0)@,
{
    copy_has_every_field(r, *c, i);
}

/// What is set by default: nothing but the prefix of the client.
pub proof fn defaults_are_bare(chain: ChainConfig, plugin: PluginConfig)
    requires
        call_ensures(<ChainConfig as Default>::default, (), chain),
        call_ensures(<PluginConfig as Default>::default, (), plugin),
    ensures
        chain.name@.len() == 0,
        chain.plugins@.len() == 0,
        chain.jack_client_prefix@ == "bn"@,
        chain.buffer_size is None,
        !chain.auto_connect_input,
        !chain.auto_connect_output,
        plugin.uri@.len() == 0,
        plugin.name@.len() == 0,
        plugin.midi_in is None,
        !plugin.generic_ui,
        !plugin.dual_mono,
        plugin.stereo_mix is None,
{
    reveal_strlit("");
}

/// A copy of a plugin has all that the plugin has, its mix included.
pub proof fn cloned_plugin_is_whole(
    p: &PluginConfig,
    r: PluginConfig,
    mix: &Option<Vec<[u32; 2]>>,
    copy: Option<Vec<[u32; 2]>>,
)
    requires
        call_ensures(<PluginConfig as Clone>::clone, (p,), r),
        call_ensures(copy_mix, (mix,), copy),
    ensures
        r.uri@ == p.uri@,
        r.name@ == p.name@,
        r.generic_ui == p.generic_ui,
        r.midi_in == p.midi_in,
        r.dual_mono == p.dual_mono,
        r.stereo_mix is Some <==> p.stereo_mix is Some,
        p.stereo_mix is Some ==> (r.stereo_mix->0)@ == (p.stereo_mix->0)@,
        copy is Some <==> *mix is Some,
        *mix is Some ==> (copy->0)@ == (mix->0)@,
{
}

} // verus!
