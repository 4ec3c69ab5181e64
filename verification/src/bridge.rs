//! The control values that the user sees and sets, apart from the plugins that
//! follow them.
use vstd::prelude::*;

use crate::error::{Error, ErrorView};
use crate::names;
use crate::names::NameMap;
use crate::plugin;
use crate::plugin::Lv2PluginInstance;
use crate::slot::ChainSlot;
use crate::text;

verus! {

/// The control values of one plugin, as the bits of IEEE singles.
pub struct PluginControlBridge {
    pub name: String,
    pub symbol_to_idx: NameMap<usize>,
    pub symbols: Vec<String>,
    pub values: Vec<u32>,
}

/// The numbers below `n`.
pub open spec fn numbers(n: nat) -> Seq<usize> {
    Seq::new(n, |i: int| i as usize)
}

impl PluginControlBridge {
    /// Each symbol has a value, and is found at its last place.
    pub open spec fn wf(self) -> bool {
        &&& self.symbols@.len() == self.values@.len()
        &&& self.symbol_to_idx.wf()
        &&& self.symbol_to_idx@ == names::collected(
            text::texts(self.symbols@),
            numbers(self.symbols@.len()),
        )
        &&& self.symbols@.len() <= usize::MAX
    }

    /// The values by symbol.
    pub open spec fn controls(self) -> Map<Seq<char>, u32> {
        names::collected(text::texts(self.symbols@), self.values@)
    }
}

/// The control values of the plugins of a chain.
pub struct ControlBridge {
    pub plugins: Vec<PluginControlBridge>,
}

/// What the bridge to a plugin holds first: for each symbol the value that the
/// plugin has under it.
pub open spec fn first_values<S>(p: Lv2PluginInstance<S>) -> Seq<u32> {
    plugin::control_symbols(p.infos()).map_values(
        |s: Seq<char>| plugin::controls_by_symbol(p.infos(), p.control_in_vals@)[s],
    )
}

/// Whether `b` is a new bridge to the plugin `p`.
pub open spec fn bridges<S>(b: PluginControlBridge, p: Lv2PluginInstance<S>) -> bool {
    &&& b.wf()
    &&& b.name@ == p.name@
    &&& text::texts(b.symbols@) == plugin::control_symbols(p.infos())
    &&& b.values@ == first_values(p)
}

/// `values` laid over `vals`, as far as both go.
pub open spec fn overlaid(vals: Seq<u32>, values: Seq<u32>) -> Seq<u32> {
    Seq::new(
        vals.len(),
        |i: int|
            if i < values.len() {
                values[i]
            } else {
                vals[i]
            },
    )
}

/// The control values of the instance `p` after the first `n` bridges were laid
/// over the instances of their slots.
pub open spec fn synced(
    bridges: Seq<PluginControlBridge>,
    slots: Seq<ChainSlot>,
    n: int,
    p: int,
    vals: Seq<u32>,
) -> Seq<u32>
    decreases n,
{
    if n <= 0 {
        vals
    } else {
        let before = synced(bridges, slots, n - 1, p, vals);
        if slots[n - 1].holds(p) {
            overlaid(before, bridges[n - 1].values@)
        } else {
            before
        }
    }
}

/// How many pairs two lists make.
pub open spec fn pairs(a: nat, b: nat) -> nat {
    if a < b {
        a
    } else {
        b
    }
}

/// The places of symbols, the last of a symbol.
fn places_of(symbols: &Vec<String>) -> (r: NameMap<usize>)
    ensures
        r.wf(),
        r@ == names::collected(text::texts(symbols@), numbers(symbols@.len())),
        symbols@.len() <= usize::MAX,
{
    let mut r: NameMap<usize> = NameMap::new();
    let len: usize = symbols.len();
    let mut i: usize = 0;
    proof {
        assert(text::texts(symbols@).take(0) =~= Seq::empty());
        assert(numbers(0) =~= Seq::empty());
        names::collected_none::<usize>();
    }
    while i < len
        invariant
            len == symbols@.len(),
            i <= len,
            r.wf(),
            r@ == names::collected(text::texts(symbols@).take(i as int), numbers(i as nat)),
        decreases len - i,
    {
        r.insert(symbols[i].clone(), i);
        proof {
            let texts = text::texts(symbols@);
            assert(texts.take(i + 1) =~= texts.take(i as int).push(texts[i as int]));
            assert(numbers((i + 1) as nat) =~= numbers(i as nat).push(i));
            names::collected_push(
                texts.take(i as int),
                numbers(i as nat),
                texts[i as int],
                i,
            );
        }
        i += 1;
    }
    assert(text::texts(symbols@).take(len as int) =~= text::texts(symbols@));
    r
}

impl PluginControlBridge {
    /// A bridge to a plugin.
    pub fn new<S>(p: &Lv2PluginInstance<S>) -> (r: Self)
        requires
            p.wf(),
        ensures
            bridges(r, *p),
    {
        let symbols = p.control_port_symbols();
        let controls = p.current_controls();
        let ghost texts = text::texts(symbols@);
        let mut values: Vec<u32> = Vec::new();
        let mut i: usize = 0;
        while i < symbols.len()
            invariant
                i <= symbols@.len(),
                texts == text::texts(symbols@),
                texts == plugin::control_symbols(p.infos()),
                controls.wf(),
                controls@ == plugin::controls_by_symbol(p.infos(), p.control_in_vals@),
                values@.len() == i,
                forall|k: int| 0 <= k < i ==> #[trigger] values@[k] == controls@[texts[k]],
            decreases symbols@.len() - i,
        {
            assert(texts[i as int] == symbols@[i as int]@);
            assert(texts.contains(texts[i as int]));
            let value: u32 = match controls.get(symbols[i].as_str()) {
                Some(v) => *v,
                None => 0,
            };
            values.push(value);
            i += 1;
        }
        assert(values@ =~= first_values(*p));
        let symbol_to_idx = places_of(&symbols);
        PluginControlBridge { name: p.name.clone(), symbol_to_idx, symbols, values }
    }

    /// The values by symbol.
    fn snapshot(&self) -> (r: NameMap<u32>)
        requires
            self.wf(),
        ensures
            r.wf(),
            r@ == self.controls(),
    {
        plugin::collect_controls(&self.symbols, &self.values)
    }

    /// A symbol that is known has a place.
    proof fn symbol_has_place(self, symbol: Seq<char>)
        requires
            self.wf(),
            text::texts(self.symbols@).contains(symbol),
        ensures
            0 <= text::texts(self.symbols@).index_of_last(symbol)->0 < self.values@.len(),
            self.symbol_to_idx@[symbol] == text::texts(self.symbols@).index_of_last(symbol)->0,
    {
        text::texts(self.symbols@).index_of_last_ensures(symbol);
    }
}

impl ControlBridge {
    /// The names of the plugins.
    pub open spec fn names(self) -> Seq<Seq<char>> {
        self.plugins@.map_values(|p: PluginControlBridge| p.name@)
    }

    /// Every bridge is well-formed.
    pub open spec fn wf(self) -> bool {
        forall|i: int| 0 <= i < self.plugins@.len() ==> (#[trigger] self.plugins@[i]).wf()
    }

    /// Bridges to the plugins of those numbers.
    pub fn new<S>(plugins: &Vec<Lv2PluginInstance<S>>, primary_indices: &Vec<usize>) -> (r: Self)
        requires
            forall|i: int| 0 <= i < plugins@.len() ==> (#[trigger] plugins@[i]).wf(),
            forall|i: int|
                0 <= i < primary_indices@.len() ==> (#[trigger] primary_indices@[i])
                    < plugins@.len(),
        ensures
            r.wf(),
            r.plugins@.len() == primary_indices@.len(),
            forall|i: int|
                0 <= i < r.plugins@.len() ==> bridges(
                    #[trigger] r.plugins@[i],
                    plugins@[primary_indices@[i] as int],
                ),
    {
        let mut r: Vec<PluginControlBridge> = Vec::new();
        let mut i: usize = 0;
        while i < primary_indices.len()
            invariant
                i <= primary_indices@.len(),
                forall|k: int| 0 <= k < plugins@.len() ==> (#[trigger] plugins@[k]).wf(),
                forall|k: int|
                    0 <= k < primary_indices@.len() ==> (#[trigger] primary_indices@[k])
                        < plugins@.len(),
                r@.len() == i,
                forall|k: int|
                    0 <= k < i ==> bridges(
                        #[trigger] r@[k],
                        plugins@[primary_indices@[k] as int],
                    ),
            decreases primary_indices@.len() - i,
        {
            r.push(PluginControlBridge::new(&plugins[primary_indices[i]]));
            i += 1;
        }
        ControlBridge { plugins: r }
    }

    /// The place of the first bridge of that name.
    fn find(&self, plugin_name: &str) -> (r: Option<usize>)
        ensures
            match r {
                Some(i) => {
                    &&& i < self.plugins@.len()
                    &&& self.names().contains(plugin_name@)
                    &&& self.names().index_of_first(plugin_name@) == Some(i as int)
                },
                None => !self.names().contains(plugin_name@),
            },
    {
        let mut i: usize = 0;
        while i < self.plugins.len()
            invariant
                i <= self.plugins@.len(),
                forall|k: int| 0 <= k < i ==> self.names()[k] != plugin_name@,
            decreases self.plugins@.len() - i,
        {
            assert(self.names()[i as int] == self.plugins@[i as int].name@);
            if text::same_text(self.plugins[i].name.as_str(), plugin_name) {
                proof {
                    self.names().index_of_first_ensures(plugin_name@);
                }
                return Some(i);
            }
            i += 1;
        }
        None
    }

    /// Whether this is `before` with `value` at the place `i` of the bridge `p`.
    pub open spec fn is_set(self, before: Self, p: int, i: int, value: u32) -> bool {
        &&& 0 <= p < before.plugins@.len()
        &&& 0 <= i < before.plugins@[p].values@.len()
        &&& self.plugins@ == before.plugins@.update(p, self.plugins@[p])
        &&& self.plugins@[p] == (PluginControlBridge {
            values: self.plugins@[p].values,
            ..before.plugins@[p]
        })
        &&& self.plugins@[p].values@ == before.plugins@[p].values@.update(i, value)
    }

    /// Sets the value at a place.
    fn set_at(&mut self, p: usize, i: usize, value: u32)
        requires
            old(self).wf(),
            p < old(self).plugins@.len(),
            i < old(self).plugins@[p as int].values@.len(),
        ensures
            final(self).wf(),
            final(self).is_set(*old(self), p as int, i as int, value),
    {
        let ghost start = *self;
        self.plugins[p].values[i] = value;
        assert(self.plugins@ =~= start.plugins@.update(p as int, self.plugins@[p as int]));
    }

    /// Sets a control by the names of its plugin and port.
    pub fn set_control(&mut self, plugin_name: &str, port: &str, value: u32) -> (r: Result<
        (),
        Error,
    >)
        requires
            old(self).wf(),
        ensures
            final(self).wf(),
            match old(self).names().index_of_first(plugin_name@) {
                None => {
                    &&& r matches Err(e)
                    &&& e@ == ErrorView::PluginNotFound { name: plugin_name@ }
                    &&& *final(self) == *old(self)
                },
                Some(p) => {
                    let symbols = text::texts(old(self).plugins@[p].symbols@);
                    match symbols.index_of_last(port@) {
                        None => {
                            &&& r matches Err(e)
                            &&& e@ == ErrorView::ControlPortNotFound {
                                name: plugin_name@,
                                port: port@,
                            }
                            &&& *final(self) == *old(self)
                        },
                        Some(i) => r is Ok && final(self).is_set(*old(self), p, i, value),
                    }
                },
            },
    {
        proof {
            self.names().index_of_first_ensures(plugin_name@);
        }
        let p: usize = match self.find(plugin_name) {
            Some(p) => p,
            None => {
                return Err(Error::PluginNotFound { name: plugin_name.to_owned() });
            },
        };
        proof {
            text::texts(self.plugins@[p as int].symbols@).index_of_last_ensures(port@);
        }
        let i: usize = match self.plugins[p].symbol_to_idx.get(port) {
            Some(i) => *i,
            None => {
                return Err(
                    Error::ControlPortNotFound {
                        name: plugin_name.to_owned(),
                        port: port.to_owned(),
                    },
                );
            },
        };
        proof {
            self.plugins@[p as int].symbol_has_place(port@);
        }
        self.set_at(p, i, value);
        Ok(())
    }

    /// The values of all plugins by name and symbol. Where two plugins share a
    /// name, it names the last.
    pub fn all_controls(&self) -> (r: NameMap<NameMap<u32>>)
        requires
            self.wf(),
        ensures
            r.wf(),
            forall|n: Seq<char>| #[trigger] r@.contains_key(n) <==> self.names().contains(n),
            forall|n: Seq<char>| #[trigger]
                r@.contains_key(n) ==> r@[n].wf() && r@[n]@
                    == self.plugins@[self.names().index_of_last(n)->0].controls(),
    {
        let mut r: NameMap<NameMap<u32>> = NameMap::new();
        let ghost mut values: Seq<NameMap<u32>> = Seq::empty();
        let ghost names = self.names();
        let mut i: usize = 0;
        proof {
            assert(names.take(0) =~= Seq::empty());
            names::collected_none::<NameMap<u32>>();
        }
        while i < self.plugins.len()
            invariant
                self.wf(),
                names == self.names(),
                i <= self.plugins@.len(),
                r.wf(),
                values.len() == i,
                forall|k: int|
                    0 <= k < i ==> (#[trigger] values[k]).wf() && values[k]@
                        == self.plugins@[k].controls(),
                r@ == names::collected(names.take(i as int), values),
            decreases self.plugins@.len() - i,
        {
            let controls = self.plugins[i].snapshot();
            proof {
                names::collected_push(names.take(i as int), values, names[i as int], controls);
                assert(names.take(i + 1) =~= names.take(i as int).push(names[i as int]));
                values = values.push(controls);
            }
            r.insert(self.plugins[i].name.clone(), controls);
            i += 1;
        }
        proof {
            assert(names.take(i as int) =~= names);
            assert forall|n: Seq<char>| #[trigger] r@.contains_key(n) implies r@[n].wf() && r@[n]@
                == self.plugins@[names.index_of_last(n)->0].controls() by {
                names.index_of_last_ensures(n);
            }
        }
        r
    }

    /// The value at a place of the plugin of that name.
    pub fn get_control_by_bridge_index(&self, plugin_name: &str, idx: usize) -> (r: Option<u32>)
        ensures
            r == match self.names().index_of_first(plugin_name@) {
                Some(p) => if idx < self.plugins@[p].values@.len() {
                    Some(self.plugins@[p].values@[idx as int])
                } else {
                    None
                },
                None => None,
            },
    {
        proof {
            self.names().index_of_first_ensures(plugin_name@);
        }
        match self.find(plugin_name) {
            Some(p) => if idx < self.plugins[p].values.len() {
                Some(self.plugins[p].values[idx])
            } else {
                None
            },
            None => None,
        }
    }

    /// Sets the value at a place of the plugin of that name; nothing where there
    /// is none.
    pub fn set_control_by_bridge_index(&mut self, plugin_name: &str, idx: usize, value: u32)
        requires
            old(self).wf(),
        ensures
            final(self).wf(),
            match old(self).names().index_of_first(plugin_name@) {
                Some(p) => if idx < old(self).plugins@[p].values@.len() {
                    final(self).is_set(*old(self), p, idx as int, value)
                } else {
                    *final(self) == *old(self)
                },
                None => *final(self) == *old(self),
            },
    {
        proof {
            self.names().index_of_first_ensures(plugin_name@);
        }
        match self.find(plugin_name) {
            Some(p) => {
                if idx < self.plugins[p].values.len() {
                    self.set_at(p, idx, value);
                }
            },
            None => {},
        }
    }

    /// Hands the values to the instances: those of each bridge to the instances
    /// of its slot.
    pub fn sync_to_plugins<S>(
        &self,
        plugins: &mut Vec<Lv2PluginInstance<S>>,
        slots: &Vec<ChainSlot>,
    )
        requires
            forall|i: int| 0 <= i < old(plugins)@.len() ==> (#[trigger] old(plugins)@[i]).wf(),
            forall|i: int|
                0 <= i < slots@.len() ==> (#[trigger] slots@[i]).within(old(plugins)@.len()),
        ensures
            only_controls_differ(old(plugins)@, final(plugins)@),
            forall|p: int|
                0 <= p < final(plugins)@.len() ==> (#[trigger] final(plugins)@[p]).control_in_vals@
                    == synced(
                    self.plugins@,
                    slots@,
                    pairs(self.plugins@.len(), slots@.len()) as int,
                    p,
                    old(plugins)@[p].control_in_vals@,
                ),
    {
        let ghost start = plugins@;
        let mut n: usize = 0;
        while n < self.plugins.len() && n < slots.len()
            invariant
                start == old(plugins)@,
                n <= pairs(self.plugins@.len(), slots@.len()),
                forall|i: int|
                    0 <= i < slots@.len() ==> (#[trigger] slots@[i]).within(start.len()),
                only_controls_differ(start, plugins@),
                forall|p: int|
                    0 <= p < plugins@.len() ==> (#[trigger] plugins@[p]).control_in_vals@ == synced(
                        self.plugins@,
                        slots@,
                        n as int,
                        p,
                        start[p].control_in_vals@,
                    ),
            decreases pairs(self.plugins@.len(), slots@.len()) - n,
        {
            let ghost before = plugins@;
            assert(slots@[n as int].within(start.len()));
            match slots[n] {
                ChainSlot::Single(i) => {
                    overlay(plugins, i, &self.plugins[n].values);
                },
                ChainSlot::DualMono { left, right } => {
                    overlay(plugins, left, &self.plugins[n].values);
                    overlay(plugins, right, &self.plugins[n].values);
                    assert forall|v: Seq<u32>, w: Seq<u32>| #[trigger] overlaid(overlaid(v, w), w)
                        == overlaid(v, w) by {
                        assert(overlaid(overlaid(v, w), w) =~= overlaid(v, w));
                    }
                },
            }
            assert forall|p: int| 0 <= p < plugins@.len() implies (#[trigger]
            plugins@[p]).control_in_vals@ == synced(
                self.plugins@,
                slots@,
                n + 1,
                p,
                start[p].control_in_vals@,
            ) by {
                assert(before[p].control_in_vals@ == synced(
                    self.plugins@,
                    slots@,
                    n as int,
                    p,
                    start[p].control_in_vals@,
                ));
            }
            n += 1;
        }
    }
}

/// Whether two lists of instances are the same but for the control values, and
/// well-formed.
pub open spec fn only_controls_differ<S>(
    before: Seq<Lv2PluginInstance<S>>,
    after: Seq<Lv2PluginInstance<S>>,
) -> bool {
    &&& after.len() == before.len()
    &&& forall|p: int|
        0 <= p < after.len() ==> (#[trigger] after[p]).wf() && after[p] == (Lv2PluginInstance {
            control_in_vals: after[p].control_in_vals,
            ..before[p]
        })
}

/// Lays values over the control values of one instance.
fn overlay<S>(plugins: &mut Vec<Lv2PluginInstance<S>>, p: usize, values: &Vec<u32>)
    requires
        p < old(plugins)@.len(),
        old(plugins)@[p as int].wf(),
    ensures
        final(plugins)@ == old(plugins)@.update(p as int, final(plugins)@[p as int]),
        final(plugins)@[p as int].wf(),
        final(plugins)@[p as int] == (Lv2PluginInstance {
            control_in_vals: final(plugins)@[p as int].control_in_vals,
            ..old(plugins)@[p as int]
        }),
        final(plugins)@[p as int].control_in_vals@ == overlaid(
            old(plugins)@[p as int].control_in_vals@,
            values@,
        ),
{
    let ghost start = plugins@;
    let mut i: usize = 0;
    while i < values.len()
        invariant
            start == old(plugins)@,
            p < start.len(),
            i <= values@.len(),
            plugins@.len() == start.len(),
            plugins@ == start.update(p as int, plugins@[p as int]),
            plugins@[p as int].wf(),
            plugins@[p as int] == (Lv2PluginInstance {
                control_in_vals: plugins@[p as int].control_in_vals,
                ..start[p as int]
            }),
            plugins@[p as int].control_in_vals@ == overlaid(
                start[p as int].control_in_vals@,
                values@.take(i as int),
            ),
        decreases values@.len() - i,
    {
        plugins[p].set_control_by_index(i, values[i]);
        i += 1;
        assert(plugins@ =~= start.update(p as int, plugins@[p as int]));
        assert(plugins@[p as int].control_in_vals@ =~= overlaid(
            start[p as int].control_in_vals@,
            values@.take(i as int),
        ));
    }
    assert(values@.take(i as int) =~= values@);
    assert(start =~= start.update(p as int, start[p as int]));
}

/// A control that was set is listed with its new value under its symbol; no
/// other symbol and no other plugin is listed with a change.
pub proof fn set_control_is_listed(
    before: ControlBridge,
    after: ControlBridge,
    p: int,
    port: Seq<char>,
    value: u32,
)
    requires
        before.wf(),
        0 <= p < before.plugins@.len(),
        text::texts(before.plugins@[p].symbols@).contains(port),
        after.is_set(
            before,
            p,
            text::texts(before.plugins@[p].symbols@).index_of_last(port)->0,
            value,
        ),
    ensures
        after.names() == before.names(),
        after.plugins@[p].controls() == before.plugins@[p].controls().insert(port, value),
        forall|q: int|
            0 <= q < before.plugins@.len() && q != p ==> (#[trigger] after.plugins@[q]).controls()
                == before.plugins@[q].controls(),
{
    let symbols = text::texts(before.plugins@[p].symbols@);
    symbols.index_of_last_ensures(port);
    let a = after.plugins@[p].controls();
    let b = before.plugins@[p].controls().insert(port, value);
    assert forall|s: Seq<char>| a.contains_key(s) implies #[trigger] a[s] == b[s] by {
        symbols.index_of_last_ensures(s);
    }
    assert(a =~= b);
    assert(after.names() =~= before.names());
}

/// An instance that only one slot holds follows the bridge of that slot: its
/// control values are those of the bridge, as far as the bridge goes.
pub proof fn instance_follows_its_bridge(
    bridges: Seq<PluginControlBridge>,
    slots: Seq<ChainSlot>,
    n: int,
    k: int,
    p: int,
    vals: Seq<u32>,
)
    requires
        0 <= k < slots.len(),
        0 <= n <= slots.len(),
        n <= bridges.len(),
        slots[k].holds(p),
        forall|j: int| 0 <= j < n && j != k ==> !(#[trigger] slots[j]).holds(p),
    ensures
        synced(bridges, slots, n, p, vals) == if k < n {
            overlaid(vals, bridges[k].values@)
        } else {
            vals
        },
    decreases n,
{
    if n > 0 {
        instance_follows_its_bridge(bridges, slots, n - 1, k, p, vals);
    }
}

/// Where no symbol occurs twice, a new bridge holds just what its plugin holds.
pub proof fn new_bridge_agrees<S>(b: PluginControlBridge, p: Lv2PluginInstance<S>)
    requires
        p.wf(),
        bridges(b, p),
        plugin::control_symbols(p.infos()).no_duplicates(),
    ensures
        b.values@ == p.control_in_vals@,
        overlaid(p.control_in_vals@, b.values@) == p.control_in_vals@,
{
    let symbols = plugin::control_symbols(p.infos());
    assert forall|i: int| 0 <= i < symbols.len() implies #[trigger] b.values@[i]
        == p.control_in_vals@[i] by {
        assert(symbols.contains(symbols[i]));
        symbols.index_of_last_ensures(symbols[i]);
    }
    assert(b.values@ =~= p.control_in_vals@);
    assert(overlaid(p.control_in_vals@, b.values@) =~= p.control_in_vals@);
}

/// Laying bridges over changes no number of control values, and nothing of an
/// instance that none of the first `n` slots holds.
proof fn sync_leaves_others(
    bridges: Seq<PluginControlBridge>,
    slots: Seq<ChainSlot>,
    n: int,
    p: int,
    vals: Seq<u32>,
)
    ensures
        synced(bridges, slots, n, p, vals).len() == vals.len(),
        (forall|j: int| 0 <= j < n ==> !(#[trigger] slots[j]).holds(p)) ==> synced(
            bridges,
            slots,
            n,
            p,
            vals,
        ) == vals,
    decreases n,
{
    if n > 0 {
        sync_leaves_others(bridges, slots, n - 1, p, vals);
    }
}

/// The last slot that holds an instance decides on its values.
proof fn last_slot_decides(
    bridges: Seq<PluginControlBridge>,
    slots: Seq<ChainSlot>,
    n: int,
    k: int,
    p: int,
    vals: Seq<u32>,
    i: int,
)
    requires
        0 <= k < n,
        slots[k].holds(p),
        forall|j: int| k < j < n ==> !(#[trigger] slots[j]).holds(p),
        0 <= i < vals.len(),
        i < bridges[k].values@.len(),
    ensures
        synced(bridges, slots, n, p, vals)[i] == bridges[k].values@[i],
    decreases n,
{
    if k < n - 1 {
        last_slot_decides(bridges, slots, n - 1, k, p, vals, i);
    } else {
        sync_leaves_others(bridges, slots, n - 1, p, vals);
    }
}

/// Every control value of a bridge reaches every instance of its slot: after the
/// values were handed over, each control input of the instance that the bridge has
/// a value for holds that value, unless a later slot holds the instance too.
pub proof fn every_value_reaches_its_instances(
    bridges: Seq<PluginControlBridge>,
    slots: Seq<ChainSlot>,
    p: usize,
    before: Seq<u32>,
    after: Seq<u32>,
    k: int,
    i: int,
)
    requires
        after == synced(
            bridges,
            slots,
            pairs(bridges.len(), slots.len()) as int,
            p as int,
            before,
        ),
        0 <= k < bridges.len(),
        k < slots.len(),
        ({
            ||| slots[k] == ChainSlot::Single(p)
            ||| slots[k] matches ChainSlot::DualMono { left, right } && (left == p || right == p)
        }),
        forall|j: int|
            k < j < slots.len() ==> match #[trigger] slots[j] {
                ChainSlot::Single(q) => q != p,
                ChainSlot::DualMono { left, right } => left != p && right != p,
            },
        0 <= i < before.len(),
        i < bridges[k].values@.len(),
    ensures
        after.len() == before.len(),
        after[i] == bridges[k].values@[i],
{
    let n = pairs(bridges.len(), slots.len()) as int;
    sync_leaves_others(bridges, slots, n, p as int, before);
    last_slot_decides(bridges, slots, n, k, p as int, before, i);
}

/// A control input keeps its value where no bridge has one for it: where no slot
/// that has a bridge holds the instance, or the bridges of all that do are shorter.
pub proof fn value_without_bridge_stays(
    bridges: Seq<PluginControlBridge>,
    slots: Seq<ChainSlot>,
    p: usize,
    before: Seq<u32>,
    after: Seq<u32>,
    i: int,
)
    requires
        after == synced(
            bridges,
            slots,
            pairs(bridges.len(), slots.len()) as int,
            p as int,
            before,
        ),
        0 <= i < before.len(),
        forall|j: int|
            0 <= j < slots.len() && j < bridges.len() && match #[trigger] slots[j] {
                ChainSlot::Single(q) => q == p,
                ChainSlot::DualMono { left, right } => left == p || right == p,
            } ==> bridges[j].values@.len() <= i,
    ensures
        after.len() == before.len(),
        after[i] == before[i],
{
    short_bridges_leave(
        bridges,
        slots,
        pairs(bridges.len(), slots.len()) as int,
        p as int,
        before,
        i,
    );
}

/// Bridges that do not go as far leave a value as it is.
proof fn short_bridges_leave(
    bridges: Seq<PluginControlBridge>,
    slots: Seq<ChainSlot>,
    n: int,
    p: int,
    vals: Seq<u32>,
    i: int,
)
    requires
        0 <= i < vals.len(),
        forall|j: int|
            0 <= j < n && (#[trigger] slots[j]).holds(p) ==> bridges[j].values@.len() <= i,
    ensures
        synced(bridges, slots, n, p, vals).len() == vals.len(),
        synced(bridges, slots, n, p, vals)[i] == vals[i],
    decreases n,
{
    if n > 0 {
        short_bridges_leave(bridges, slots, n - 1, p, vals, i);
    }
}

/// A new bridge has a value for every control input of its plugin. The value under a
/// symbol is that of the last input with the symbol.
pub proof fn new_bridge_has_value_of_symbol<S>(
    b: PluginControlBridge,
    p: Lv2PluginInstance<S>,
    i: int,
    last: int,
)
    requires
        p.wf(),
        bridges(b, p),
        0 <= i <= last < b.symbols@.len(),
        b.symbols@[i]@ == b.symbols@[last]@,
        forall|j: int| last < j < b.symbols@.len() ==> (#[trigger] b.symbols@[j])@
            != b.symbols@[last]@,
    ensures
        b.name@ == p.name@,
        b.symbols@.len() == p.control_in_vals@.len(),
        b.values@.len() == p.control_in_vals@.len(),
        b.values@[i] == p.control_in_vals@[last],
{
    let symbols = text::texts(b.symbols@);
    assert(symbols[i] == b.symbols@[i]@ && symbols[last] == b.symbols@[last]@);
    assert(symbols.contains(symbols[i]));
    symbols.index_of_last_ensures(symbols[i]);
    let found = symbols.index_of_last(symbols[i])->0;
    assert(symbols[found] == b.symbols@[found]@);
    assert(found == last);
}

/// Setting a control changes one value of one bridge, and no name or symbol.
pub proof fn one_value_is_set(
    before: ControlBridge,
    after: ControlBridge,
    p: int,
    i: int,
    value: u32,
)
    requires
        after.is_set(before, p, i, value),
    ensures
        after.plugins@.len() == before.plugins@.len(),
        after.plugins@[p].values@[i] == value,
        after.plugins@[p].values@.len() == before.plugins@[p].values@.len(),
        after.plugins@[p].name == before.plugins@[p].name,
        after.plugins@[p].symbols == before.plugins@[p].symbols,
        forall|j: int|
            0 <= j < before.plugins@[p].values@.len() && j != i
                ==> #[trigger] after.plugins@[p].values@[j] == before.plugins@[p].values@[j],
        forall|q: int|
            0 <= q < before.plugins@.len() && q != p ==> #[trigger] after.plugins@[q]
                == before.plugins@[q],
{
}

/// The values of a bridge are listed under all its symbols and no others; the value
/// under a symbol is that of its last place.
pub proof fn values_are_listed_by_symbol(b: PluginControlBridge, symbol: Seq<char>)
    requires
        b.symbols@.len() == b.values@.len(),
    ensures
        b.controls().contains_key(symbol) <==> exists|i: int|
            0 <= i < b.symbols@.len() && (#[trigger] b.symbols@[i])@ == symbol,
        forall|i: int|
            0 <= i < b.symbols@.len() && (#[trigger] b.symbols@[i])@ == symbol && (forall|j: int|
                i < j < b.symbols@.len() ==> (#[trigger] b.symbols@[j])@ != symbol)
                ==> b.controls()[symbol] == b.values@[i],
{
    let symbols = text::texts(b.symbols@);
    assert forall|i: int| 0 <= i < symbols.len() implies #[trigger] symbols[i]
        == b.symbols@[i]@ by {}
    symbols.index_of_last_ensures(symbol);
    if b.controls().contains_key(symbol) {
        let i = symbols.index_of_last(symbol)->0;
        assert(b.symbols@[i]@ == symbol);
    }
    if exists|i: int| 0 <= i < b.symbols@.len() && (#[trigger] b.symbols@[i])@ == symbol {
        let i = choose|i: int| 0 <= i < b.symbols@.len() && (#[trigger] b.symbols@[i])@ == symbol;
        assert(symbols[i] == symbol);
        assert(symbols.contains(symbol));
    }
    assert forall|i: int|
        0 <= i < b.symbols@.len() && (#[trigger] b.symbols@[i])@ == symbol && (forall|j: int|
            i < j < b.symbols@.len() ==> (#[trigger] b.symbols@[j])@
                != symbol) implies b.controls().contains_key(symbol) && b.controls()[symbol]
        == b.values@[i] by {
        assert(symbols[i] == symbol);
        assert(symbols.contains(symbol));
        let found = symbols.index_of_last(symbol)->0;
        assert(symbols[found] == b.symbols@[found]@);
        assert(found == i);
    }
}

/// The bridges have the names of their plugins, in their order.
pub proof fn bridges_have_names(bridge: ControlBridge, i: int)
    requires
        0 <= i < bridge.plugins@.len(),
    ensures
        bridge.names().len() == bridge.plugins@.len(),
        bridge.names()[i] == bridge.plugins@[i].name@,
{
}

/// A control that [`ControlBridge::set_control`] sets at the first plugin of a name is read
/// there by its place; nothing else changes. Where the plugin or the port is not there, it
/// says so and changes nothing.
pub proof fn control_is_set_by_name(
    bridge: &mut ControlBridge,
    name: &str,
    port: &str,
    value: u32,
    r: Result<(), Error>,
    p: int,
)
    requires
        call_ensures(ControlBridge::set_control, (bridge, name, port, value), r),
        0 <= p < old(bridge).plugins@.len(),
        old(bridge).plugins@[p].name@ == name@,
        forall|q: int| 0 <= q < p ==> (#[trigger] old(bridge).plugins@[q]).name@ != name@,
        old(bridge).plugins@[p].symbols@.len() == old(bridge).plugins@[p].values@.len(),
    ensures
        forall|i: int|
            0 <= i < old(bridge).plugins@[p].symbols@.len() && (
            #[trigger] old(bridge).plugins@[p].symbols@[i])@ == port@ && (forall|j: int|
                i < j < old(bridge).plugins@[p].symbols@.len() ==> (
                #[trigger] old(bridge).plugins@[p].symbols@[j])@ != port@) ==> {
                &&& r is Ok
                &&& final(bridge).plugins@[p].values@[i] == value
                &&& forall|j: int|
                    0 <= j < old(bridge).plugins@[p].values@.len() && j != i
                        ==> #[trigger] final(bridge).plugins@[p].values@[j]
                        == old(bridge).plugins@[p].values@[j]
            },
        (forall|i: int|
            0 <= i < old(bridge).plugins@[p].symbols@.len() ==> (
            #[trigger] old(bridge).plugins@[p].symbols@[i])@ != port@) ==> {
            &&& r matches Err(Error::ControlPortNotFound { name: n, port: s })
            &&& n@ == name@
            &&& s@ == port@
            &&& *final(bridge) == *old(bridge)
        },
        forall|q: int|
            0 <= q < old(bridge).plugins@.len() && q != p ==> #[trigger] final(bridge).plugins@[q]
                == old(bridge).plugins@[q],
        final(bridge).plugins@.len() == old(bridge).plugins@.len(),
{
    let names = old(bridge).names();
    assert(names[p] == name@);
    assert(names.contains(name@));
    names.index_of_first_ensures(name@);
    let found = names.index_of_first(name@)->0;
    assert(names[found] == old(bridge).plugins@[found].name@);
    assert(found == p);
    let symbols = text::texts(old(bridge).plugins@[p].symbols@);
    symbols.index_of_last_ensures(port@);
    assert forall|i: int|
        0 <= i < old(bridge).plugins@[p].symbols@.len() && (
        #[trigger] old(bridge).plugins@[p].symbols@[i])@ == port@ && (forall|j: int|
            i < j < old(bridge).plugins@[p].symbols@.len() ==> (
            #[trigger] old(bridge).plugins@[p].symbols@[j])@
                != port@) implies symbols.index_of_last(port@) == Some(i) by {
        assert(symbols[i] == port@);
        assert(symbols.contains(port@));
        let at = symbols.index_of_last(port@)->0;
        assert(symbols[at] == old(bridge).plugins@[p].symbols@[at]@);
    }
    if forall|i: int|
        0 <= i < old(bridge).plugins@[p].symbols@.len() ==> (
        #[trigger] old(bridge).plugins@[p].symbols@[i])@ != port@ {
        assert forall|i: int| 0 <= i < symbols.len() implies #[trigger] symbols[i] != port@ by {
            assert(symbols[i] == old(bridge).plugins@[p].symbols@[i]@);
        }
        assert(!symbols.contains(port@));
    }
}

/// [`ControlBridge::set_control`] finds no plugin where none has the name.
pub proof fn no_control_of_unknown_plugin(
    bridge: &mut ControlBridge,
    name: &str,
    port: &str,
    value: u32,
    r: Result<(), Error>,
)
    requires
        call_ensures(ControlBridge::set_control, (bridge, name, port, value), r),
        forall|q: int|
            0 <= q < old(bridge).plugins@.len() ==> (#[trigger] old(bridge).plugins@[q]).name@
                != name@,
    ensures
        r matches Err(Error::PluginNotFound { name: n }) && n@ == name@,
        *final(bridge) == *old(bridge),
{
    let names = old(bridge).names();
    assert forall|q: int| 0 <= q < names.len() implies #[trigger] names[q] != name@ by {
        assert(names[q] == old(bridge).plugins@[q].name@);
    }
    assert(!names.contains(name@));
    names.index_of_first_ensures(name@);
}

/// A value that [`ControlBridge::set_control_by_bridge_index`] sets is what
/// [`ControlBridge::get_control_by_bridge_index`] reads at the place, and at every other
/// place it reads what was there.
pub proof fn value_is_read_where_it_is_set(
    bridge: &mut ControlBridge,
    name: &str,
    idx: usize,
    value: u32,
    other: usize,
    before: Option<u32>,
    after: Option<u32>,
)
    requires
        call_ensures(
            ControlBridge::set_control_by_bridge_index,
            (bridge, name, idx, value),
            (),
        ),
        call_ensures(
            ControlBridge::get_control_by_bridge_index,
            (&*old(bridge), name, other),
            before,
        ),
        call_ensures(
            ControlBridge::get_control_by_bridge_index,
            (&*final(bridge), name, other),
            after,
        ),
    ensures
        other != idx ==> after == before,
        other == idx ==> after == if before is Some {
            Some(value)
        } else {
            None
        },
{
    let names = old(bridge).names();
    assert(final(bridge).names() =~= names) by {
        names.index_of_first_ensures(name@);
    }
    names.index_of_first_ensures(name@);
}

/// [`ControlBridge::sync_to_plugins`] hands every value of a bridge to every instance of its
/// slot that no later slot holds, and changes nothing but control values.
pub proof fn sync_hands_over_every_value<S>(
    bridge: &ControlBridge,
    plugins: &mut Vec<Lv2PluginInstance<S>>,
    slots: &Vec<ChainSlot>,
    p: usize,
    k: int,
    i: int,
)
    requires
        call_ensures(ControlBridge::sync_to_plugins::<S>, (bridge, plugins, slots), ()),
        p < old(plugins)@.len(),
        0 <= k < bridge.plugins@.len(),
        k < slots@.len(),
        ({
            ||| slots@[k] == ChainSlot::Single(p)
            ||| slots@[k] matches ChainSlot::DualMono { left, right } && (left == p || right == p)
        }),
        forall|j: int|
            k < j < slots@.len() ==> match #[trigger] slots@[j] {
                ChainSlot::Single(q) => q != p,
                ChainSlot::DualMono { left, right } => left != p && right != p,
            },
        0 <= i < old(plugins)@[p as int].control_in_vals@.len(),
    ensures
        final(plugins)@.len() == old(plugins)@.len(),
        final(plugins)@[p as int].control_in_vals@.len()
            == old(plugins)@[p as int].control_in_vals@.len(),
        i < bridge.plugins@[k].values@.len() ==> final(plugins)@[p as int].control_in_vals@[i]
            == bridge.plugins@[k].values@[i],
        final(plugins)@[p as int] == (Lv2PluginInstance {
            control_in_vals: final(plugins)@[p as int].control_in_vals,
            ..old(plugins)@[p as int]
        }),
{
    let before = old(plugins)@[p as int].control_in_vals@;
    let after = final(plugins)@[p as int].control_in_vals@;
    let n = pairs(bridge.plugins@.len(), slots@.len()) as int;
    assert(after == synced(bridge.plugins@, slots@, n, p as int, before));
    sync_leaves_others(bridge.plugins@, slots@, n, p as int, before);
    if i < bridge.plugins@[k].values@.len() {
        every_value_reaches_its_instances(
            bridge.plugins@,
            slots@,
            p,
            before,
            after,
            k,
            i,
        );
    }
}

/// [`ControlBridge::all_controls`] lists every value of the last plugin of a name under the
/// last place of its symbol.
pub proof fn every_value_is_listed(
    bridge: &ControlBridge,
    r: NameMap<NameMap<u32>>,
    p: int,
    i: int,
)
    requires
        bridge.wf(),
        call_ensures(ControlBridge::all_controls, (bridge,), r),
        0 <= p < bridge.plugins@.len(),
        forall|q: int|
            p < q < bridge.plugins@.len() ==> (#[trigger] bridge.plugins@[q]).name@
                != bridge.plugins@[p].name@,
        0 <= i < bridge.plugins@[p].symbols@.len(),
        forall|j: int|
            i < j < bridge.plugins@[p].symbols@.len() ==> (
            #[trigger] bridge.plugins@[p].symbols@[j])@ != bridge.plugins@[p].symbols@[i]@,
    ensures
        r@.contains_key(bridge.plugins@[p].name@),
        r@[bridge.plugins@[p].name@]@.contains_key(bridge.plugins@[p].symbols@[i]@),
        r@[bridge.plugins@[p].name@]@[bridge.plugins@[p].symbols@[i]@]
            == bridge.plugins@[p].values@[i],
{
    let names = bridge.names();
    let name = bridge.plugins@[p].name@;
    assert(names[p] == name);
    assert(names.contains(name));
    names.index_of_last_ensures(name);
    let found = names.index_of_last(name)->0;
    assert(names[found] == bridge.plugins@[found].name@);
    assert(found == p);
    assert(r@.contains_key(name));
    values_are_listed_by_symbol(bridge.plugins@[p], bridge.plugins@[p].symbols@[i]@);
}

} // verus!
