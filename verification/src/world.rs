//! What is known of the installed plugins.
use vstd::prelude::*;

use crate::text;

verus! {

/// A port as the plugin's author describes it.
#[derive(Debug)]
pub struct PortDesc {
    pub index: usize,
    pub symbol: Option<String>,
    pub is_input: bool,
    pub is_output: bool,
    pub is_audio: bool,
    pub is_cv: bool,
    pub is_control: bool,
    pub is_atom: bool,
    pub supports_midi: bool,
}

/// The range of a port, each number as the bits of an IEEE single. One that was
/// not given is no finite number.
#[derive(Debug, Clone, Copy)]
pub struct PortRange {
    pub min: u32,
    pub max: u32,
    pub default: u32,
}

/// A window of a plugin. Texts that cannot be had are `None`.
#[derive(Debug)]
pub struct UiDesc {
    pub uri: Option<String>,
    pub bundle_uri: Option<String>,
    pub binary_uri: Option<String>,
    pub is_gtk: bool,
    pub is_x11: bool,
    pub is_gtk3: bool,
}

/// A plugin as its author describes it.
#[derive(Debug)]
pub struct PluginDesc {
    pub uri: String,
    pub ports: Vec<PortDesc>,
    /// The ranges of the ports, by their index.
    pub ranges: Vec<PortRange>,
    /// The features that the plugin can use.
    pub features: Vec<String>,
    pub uis: Option<Vec<UiDesc>>,
}

/// The installed plugins.
#[derive(Debug)]
pub struct World {
    pub plugins: Vec<PluginDesc>,
}

impl World {
    /// The URIs of the plugins.
    pub open spec fn uris(self) -> Seq<Seq<char>> {
        self.plugins@.map_values(|p: PluginDesc| p.uri@)
    }

    /// Whether there is a plugin of that URI.
    pub open spec fn has(self, uri: Seq<char>) -> bool {
        self.uris().contains(uri)
    }

    /// The plugin of that URI, the first where there are more.
    pub open spec fn plugin_of(self, uri: Seq<char>) -> PluginDesc {
        self.plugins@[self.uris().index_of_first(uri)->0]
    }

    /// The plugin of that URI.
    pub fn plugin(&self, uri: &str) -> (r: Option<&PluginDesc>)
        ensures
            match r {
                Some(p) => self.has(uri@) && *p == self.plugin_of(uri@) && p.uri@ == uri@,
                None => !self.has(uri@),
            },
    {
        let mut i: usize = 0;
        while i < self.plugins.len()
            invariant
                i <= self.plugins@.len(),
                forall|k: int| 0 <= k < i ==> self.uris()[k] != uri@,
            decreases self.plugins@.len() - i,
        {
            assert(self.uris()[i as int] == self.plugins@[i as int].uri@);
            if text::same_text(self.plugins[i].uri.as_str(), uri) {
                proof {
                    self.uris().index_of_first_ensures(uri@);
                }
                return Some(&self.plugins[i]);
            }
            i += 1;
        }
        None
    }
}

/// Whether the bits are those of a finite number: not all bits of the exponent
/// are set.
pub open spec fn is_finite(bits: u32) -> bool {
    bits / 0x80_0000 % 0x100 != 0xff
}

/// Whether the bits are those of a finite number.
pub fn finite(bits: u32) -> (r: bool)
    ensures
        r == is_finite(bits),
{
    bits / 0x80_0000 % 0x100 != 0xff
}

/// A number is that of a finite number just where not all eight bits of its exponent
/// are set, as they are in infinities and in what is not a number.
pub proof fn finite_by_exponent(bits: u32)
    ensures
        is_finite(bits) <==> (bits & 0x7f80_0000) != 0x7f80_0000,
{
    assert((bits / 0x80_0000 % 0x100 != 0xff) <==> ((bits & 0x7f80_0000) != 0x7f80_0000))
        by (bit_vector);
}

/// The plugin of a URI is the first that has it.
pub proof fn first_plugin_of_uri(world: World, uri: Seq<char>, i: int)
    requires
        0 <= i < world.plugins@.len(),
        world.plugins@[i].uri@ == uri,
        forall|j: int| 0 <= j < i ==> (#[trigger] world.plugins@[j]).uri@ != uri,
    ensures
        world.has(uri),
        world.plugin_of(uri) == world.plugins@[i],
{
    let uris = world.uris();
    assert(uris[i] == uri);
    assert(uris.contains(uri));
    uris.index_of_first_ensures(uri);
    let found = uris.index_of_first(uri)->0;
    assert(uris[found] == world.plugins@[found].uri@);
    assert(found == i);
}

/// There is a plugin of a URI just where one has it.
pub proof fn has_uri_of_a_plugin(world: World, uri: Seq<char>)
    ensures
        world.has(uri) <==> exists|i: int|
            0 <= i < world.plugins@.len() && (#[trigger] world.plugins@[i]).uri@ == uri,
{
    let uris = world.uris();
    if world.has(uri) {
        let i = choose|i: int| 0 <= i < uris.len() && uris[i] == uri;
        assert(world.plugins@[i].uri@ == uri);
    }
    if exists|i: int| 0 <= i < world.plugins@.len() && (#[trigger] world.plugins@[i]).uri@ == uri {
        let i = choose|i: int|
            0 <= i < world.plugins@.len() && (#[trigger] world.plugins@[i]).uri@ == uri;
        assert(uris[i] == uri);
    }
}

/// [`World::plugin`] finds the first plugin of a URI, and none where none has it.
pub proof fn plugin_is_found_by_uri(world: &World, uri: &str, r: Option<&PluginDesc>, i: int)
    requires
        call_ensures(World::plugin, (world, uri), r),
        0 <= i < world.plugins@.len(),
    ensures
        world.plugins@[i].uri@ == uri@ && (forall|j: int|
            0 <= j < i ==> (#[trigger] world.plugins@[j]).uri@ != uri@) ==> r is Some && *(r->0)
            == world.plugins@[i],
        world.plugins@[i].uri@ == uri@ ==> r is Some,
        r matches Some(p) ==> p.uri@ == uri@,
{
    has_uri_of_a_plugin(*world, uri@);
    if world.plugins@[i].uri@ == uri@ && (forall|j: int|
        0 <= j < i ==> (#[trigger] world.plugins@[j]).uri@ != uri@) {
        first_plugin_of_uri(*world, uri@, i);
    }
}

/// [`finite`] says of bits whether they are those of a finite number.
pub proof fn finite_is_told_by_exponent(bits: u32, r: bool)
    requires
        call_ensures(finite, (bits,), r),
    ensures
        r <==> (bits & 0x7f80_0000) != 0x7f80_0000,
{
    finite_by_exponent(bits);
}

} // verus!
