//! How the plugins of a configuration become instances, slots, MIDI channels,
//! windows and ports.
use vstd::prelude::*;

use crate::config;
use crate::config::PluginConfig;
use crate::error::{Error, ErrorView};
use crate::features::FeatureSet;
use crate::midi;
use crate::midi::{MidiEvent, MidiPort, MidiSender};
use crate::names;
use crate::names::NameMap;
use crate::plugin;
use crate::plugin::{ControlPortMeta, Lv2PluginInstance, PortInfoView, PortKind};
use crate::slot::ChainSlot;
use crate::text;
use crate::ui;
use crate::ui::{GenericUiInfo, PluginUiInfo, PluginUiInfoView};
use crate::world::World;

verus! {

/// How many messages a MIDI channel holds.
pub const MIDI_RING_CAPACITY: usize = 1024;

/// An instance that is to be made: the place of its plugin in the configuration,
/// and its name.
pub ghost struct Planned {
    pub plugin: int,
    pub name: Seq<char>,
}

/// The name of the instance for the right channel.
pub open spec fn right_name(name: Seq<char>) -> Seq<char> {
    name + "_R"@
}

/// The instances that are to be made, in their order: one for each plugin, or
/// two where it runs once for each side.
pub open spec fn planned(plugins: Seq<PluginConfig>) -> Seq<Planned>
    decreases plugins.len(),
{
    if plugins.len() == 0 {
        Seq::empty()
    } else {
        let before = planned(plugins.drop_last());
        let cfg = plugins.last();
        let first = before.push(Planned { plugin: plugins.len() - 1, name: cfg.name@ });
        if cfg.dual_mono {
            first.push(Planned { plugin: plugins.len() - 1, name: right_name(cfg.name@) })
        } else {
            first
        }
    }
}

/// The slots of the plugins.
pub open spec fn slots_of(plugins: Seq<PluginConfig>) -> Seq<ChainSlot>
    decreases plugins.len(),
{
    if plugins.len() == 0 {
        Seq::empty()
    } else {
        let at = planned(plugins.drop_last()).len();
        slots_of(plugins.drop_last()).push(
            if plugins.last().dual_mono {
                ChainSlot::DualMono { left: at as usize, right: (at + 1) as usize }
            } else {
                ChainSlot::Single(at as usize)
            },
        )
    }
}

/// What the instance `k` fails with, where it does. `instantiated` says of each
/// instance whether the plugin's own code could be started.
pub open spec fn error_at(
    world: World,
    plugins: Seq<PluginConfig>,
    instantiated: Seq<bool>,
    k: int,
) -> Option<ErrorView> {
    let p = planned(plugins)[k];
    plugin::instantiation_error(
        world,
        plugins[p.plugin].uri@,
        p.name,
        k < instantiated.len() && instantiated[k],
    )
}

/// What the first of the first `n` instances that fails fails with.
pub open spec fn first_error(
    world: World,
    plugins: Seq<PluginConfig>,
    instantiated: Seq<bool>,
    n: int,
) -> Option<ErrorView>
    decreases n,
{
    if n <= 0 {
        None
    } else {
        match first_error(world, plugins, instantiated, n - 1) {
            Some(e) => Some(e),
            None => error_at(world, plugins, instantiated, n - 1),
        }
    }
}

/// Whether every control input of the plugins that can be started has a range.
pub open spec fn ranges_known(
    world: World,
    plugins: Seq<PluginConfig>,
    instantiated: Seq<bool>,
) -> bool {
    forall|k: int|
        0 <= k < planned(plugins).len() && error_at(world, plugins, instantiated, k) is None
            ==> plugin::has_ranges(
            world.plugin_of(plugins[(#[trigger] planned(plugins)[k]).plugin].uri@),
        )
}

/// Where every control input of every plugin has a range, those of a
/// configuration do.
pub proof fn complete_world_knows_ranges(
    world: World,
    plugins: Seq<PluginConfig>,
    instantiated: Seq<bool>,
)
    requires
        plugin::is_complete(world),
    ensures
        ranges_known(world, plugins, instantiated),
{
    assert forall|k: int|
        0 <= k < planned(plugins).len() && error_at(
            world,
            plugins,
            instantiated,
            k,
        ) is None implies plugin::has_ranges(
        world.plugin_of(plugins[(#[trigger] planned(plugins)[k]).plugin].uri@),
    ) by {
        world.uris().index_of_first_ensures(plugins[planned(plugins)[k].plugin].uri@);
    }
}

/// Whether `p` is what the plan `plan` asks for, with the saved control values.
pub open spec fn is_made<S>(
    p: Lv2PluginInstance<S>,
    plan: Planned,
    plugins: Seq<PluginConfig>,
    world: World,
    buffer_size: u32,
    uris: Seq<Seq<char>>,
    saved: Seq<NameMap<u32>>,
    zero: S,
) -> bool {
    let desc = world.plugin_of(plugins[plan.plugin].uri@);
    &&& p.is_fitted(desc, plan.name, buffer_size, uris, zero)
    &&& p.control_in_vals@ == plugin::restored(
        plugin::control_symbols(p.infos()),
        plugin::defaults_of(p.infos(), PortKind::ControlIn, desc.ranges@),
        saved[plan.plugin]@,
    )
}

/// Each plugin takes one instance or two, those of the first plugins come first,
/// and the slot of a plugin holds its instances.
pub proof fn plan_of_plugin(plugins: Seq<PluginConfig>, i: int)
    requires
        0 <= i < plugins.len(),
    ensures
        slots_of(plugins).len() == plugins.len(),
        planned(plugins.take(i)).len() + (if plugins[i].dual_mono {
            2int
        } else {
            1int
        }) <= planned(plugins).len(),
        planned(plugins.take(i)).is_prefix_of(planned(plugins)),
        planned(plugins)[planned(plugins.take(i)).len() as int] == (Planned {
            plugin: i,
            name: plugins[i].name@,
        }),
        plugins[i].dual_mono ==> planned(plugins)[planned(plugins.take(i)).len() as int + 1] == (
        Planned { plugin: i, name: right_name(plugins[i].name@) }),
        slots_of(plugins)[i] == if plugins[i].dual_mono {
            ChainSlot::DualMono {
                left: planned(plugins.take(i)).len() as usize,
                right: (planned(plugins.take(i)).len() + 1) as usize,
            }
        } else {
            ChainSlot::Single(planned(plugins.take(i)).len() as usize)
        },
    decreases plugins.len(),
{
    let rest = plugins.drop_last();
    slots_len(plugins);
    if i < rest.len() {
        plan_of_plugin(rest, i);
        assert(rest.take(i) =~= plugins.take(i));
        slots_len(rest);
    } else {
        assert(plugins.take(i) =~= rest);
        slots_len(rest);
    }
}

/// There is a slot for each plugin.
proof fn slots_len(plugins: Seq<PluginConfig>)
    ensures
        slots_of(plugins).len() == plugins.len(),
    decreases plugins.len(),
{
    if plugins.len() > 0 {
        slots_len(plugins.drop_last());
    }
}

/// There are at least as many instances as plugins.
pub proof fn planned_len(plugins: Seq<PluginConfig>)
    ensures
        plugins.len() <= planned(plugins).len() <= 2 * plugins.len(),
        forall|k: int|
            0 <= k < planned(plugins).len() ==> 0 <= (#[trigger] planned(plugins)[k]).plugin
                < plugins.len(),
    decreases plugins.len(),
{
    if plugins.len() > 0 {
        planned_len(plugins.drop_last());
    }
}

/// No instance belongs to two slots, and each belongs to one.
pub proof fn slots_share_nothing(plugins: Seq<PluginConfig>, a: int, b: int, p: int)
    requires
        0 <= a < plugins.len(),
        0 <= b < plugins.len(),
        planned(plugins).len() <= usize::MAX,
        slots_of(plugins)[a].holds(p),
        slots_of(plugins)[b].holds(p),
    ensures
        a == b,
        slots_of(plugins)[a].within(planned(plugins).len()),
        planned(plugins)[p].plugin == a,
{
    plan_of_plugin(plugins, a);
    plan_of_plugin(plugins, b);
}

/// Each instance belongs to the slot of its plugin.
pub proof fn instance_in_its_slot(plugins: Seq<PluginConfig>, p: int)
    requires
        planned(plugins).len() <= usize::MAX,
        0 <= p < planned(plugins).len(),
    ensures
        0 <= planned(plugins)[p].plugin < plugins.len(),
        slots_of(plugins).len() == plugins.len(),
        slots_of(plugins)[planned(plugins)[p].plugin].holds(p),
    decreases plugins.len(),
{
    let rest = plugins.drop_last();
    slots_len(plugins);
    slots_len(rest);
    if p < planned(rest).len() {
        instance_in_its_slot(rest, p);
    }
}

/// A failure among the first instances is the failure.
proof fn first_error_stays(
    world: World,
    plugins: Seq<PluginConfig>,
    instantiated: Seq<bool>,
    m: int,
    n: int,
)
    requires
        m <= n,
        first_error(world, plugins, instantiated, m) is Some,
    ensures
        first_error(world, plugins, instantiated, n) == first_error(
            world,
            plugins,
            instantiated,
            m,
        ),
    decreases n - m,
{
    if m < n {
        first_error_stays(world, plugins, instantiated, m, n - 1);
    }
}

/// The views of a plan.
pub open spec fn plan_views(plan: Seq<(usize, String)>) -> Seq<Planned> {
    plan.map_values(|p: (usize, String)| Planned { plugin: p.0 as int, name: p.1@ })
}

/// The instances that are to be made: for each the place of its plugin in the
/// configuration, and its name.
pub fn plan_instances(plugins: &Vec<PluginConfig>) -> (r: Vec<(usize, String)>)
    ensures
        plan_views(r@) == planned(plugins@),
{
    let mut r: Vec<(usize, String)> = Vec::new();
    let mut i: usize = 0;
    assert(plugins@.take(0) =~= Seq::empty());
    assert(plan_views(r@) =~= Seq::empty());
    while i < plugins.len()
        invariant
            i <= plugins@.len(),
            plan_views(r@) == planned(plugins@.take(i as int)),
        decreases plugins@.len() - i,
    {
        let cfg = &plugins[i];
        let ghost before = plan_views(r@);
        proof {
            assert(plugins@.take(i + 1).drop_last() =~= plugins@.take(i as int));
            assert(plugins@.take(i + 1).last() == *cfg);
        }
        r.push((i, cfg.name.clone()));
        let ghost first = before.push(Planned { plugin: i as int, name: cfg.name@ });
        assert(plan_views(r@) =~= first);
        if cfg.dual_mono {
            r.push((i, text::join(cfg.name.as_str(), "_R")));
            assert(plan_views(r@) =~= first.push(
                Planned { plugin: i as int, name: right_name(cfg.name@) },
            ));
        }
        i += 1;
    }
    assert(plugins@.take(i as int) =~= plugins@);
    r
}

/// Makes one instance.
fn make_instance<S: Copy>(
    world: &World,
    uri: &str,
    name: &str,
    buffer_size: u32,
    features: &FeatureSet,
    instantiated: bool,
    saved: &NameMap<u32>,
    zero: S,
) -> (r: Result<Lv2PluginInstance<S>, Error>)
    requires
        features.mapper.wf(),
        saved.wf(),
        4 * plugin::frames_for(buffer_size) <= isize::MAX,
        plugin::instantiation_error(*world, uri@, name@, instantiated) is None
            ==> plugin::has_ranges(world.plugin_of(uri@)),
    ensures
        match r {
            Ok(p) => {
                &&& plugin::instantiation_error(*world, uri@, name@, instantiated) is None
                &&& p.is_fitted(
                    world.plugin_of(uri@),
                    name@,
                    buffer_size,
                    features.mapper@,
                    zero,
                )
                &&& p.control_in_vals@ == plugin::restored(
                    plugin::control_symbols(p.infos()),
                    plugin::defaults_of(
                        p.infos(),
                        PortKind::ControlIn,
                        world.plugin_of(uri@).ranges@,
                    ),
                    saved@,
                )
            },
            Err(e) => plugin::instantiation_error(*world, uri@, name@, instantiated) == Some(e@),
        },
{
    match Lv2PluginInstance::new(world, uri, name, buffer_size, features, instantiated, zero) {
        Ok(p) => {
            let mut p = p;
            p.restore(saved);
            Ok(p)
        },
        Err(e) => Err(e),
    }
}

/// Whether the instance `k` could be started.
fn is_started(instantiated: &Vec<bool>, k: usize) -> (r: bool)
    ensures
        r == (k < instantiated@.len() && instantiated@[k as int]),
{
    k < instantiated.len() && instantiated[k]
}

/// What is made of the plugins of a configuration.
pub struct Made<S> {
    pub plugins: Vec<Lv2PluginInstance<S>>,
    pub slots: Vec<ChainSlot>,
    pub slot_mixes: Vec<Option<Vec<[u32; 2]>>>,
    /// The instances that stand for the slots.
    pub primary_indices: Vec<usize>,
}

impl<S> Made<S> {
    /// Whether this is what is made of `plugins`.
    pub open spec fn is_of(
        self,
        plugins: Seq<PluginConfig>,
        world: World,
        buffer_size: u32,
        uris: Seq<Seq<char>>,
        saved: Seq<NameMap<u32>>,
        zero: S,
    ) -> bool {
        &&& self.plugins@.len() == planned(plugins).len()
        &&& forall|k: int|
            0 <= k < self.plugins@.len() ==> is_made(
                #[trigger] self.plugins@[k],
                planned(plugins)[k],
                plugins,
                world,
                buffer_size,
                uris,
                saved,
                zero,
            )
        &&& self.slots@ == slots_of(plugins)
        &&& self.slots@.len() == plugins.len()
        &&& self.slot_mixes@.len() == plugins.len()
        &&& forall|i: int|
            0 <= i < plugins.len() ==> config::same_mix(
                #[trigger] self.slot_mixes@[i],
                plugins[i].stereo_mix,
            )
        &&& self.primary_indices@.len() == plugins.len()
        &&& forall|i: int|
            0 <= i < plugins.len() ==> #[trigger] self.primary_indices@[i]
                == self.slots@[i].primary()
        &&& forall|i: int|
            0 <= i < self.slots@.len() ==> (#[trigger] self.slots@[i]).within(self.plugins@.len())
    }
}

/// Makes the instances of a configuration, with the saved control values. The
/// first instance that fails ends it.
pub fn make_instances<S: Copy>(
    plugins: &Vec<PluginConfig>,
    world: &World,
    buffer_size: u32,
    features: &FeatureSet,
    instantiated: &Vec<bool>,
    saved: &Vec<NameMap<u32>>,
    zero: S,
) -> (r: Result<Made<S>, Error>)
    requires
        features.mapper.wf(),
        4 * plugin::frames_for(buffer_size) <= isize::MAX,
        ranges_known(*world, plugins@, instantiated@),
        saved@.len() == plugins@.len(),
        forall|i: int| 0 <= i < saved@.len() ==> (#[trigger] saved@[i]).wf(),
    ensures
        match r {
            Ok(made) => {
                &&& first_error(
                    *world,
                    plugins@,
                    instantiated@,
                    planned(plugins@).len() as int,
                ) is None
                &&& made.is_of(plugins@, *world, buffer_size, features.mapper@, saved@, zero)
            },
            Err(e) => first_error(
                *world,
                plugins@,
                instantiated@,
                planned(plugins@).len() as int,
            ) == Some(e@),
        },
{
    let mut made: Made<S> = Made {
        plugins: Vec::new(),
        slots: Vec::new(),
        slot_mixes: Vec::new(),
        primary_indices: Vec::new(),
    };
    let ghost cfgs = plugins@;
    let ghost plan = planned(cfgs);
    let mut i: usize = 0;
    assert(cfgs.take(0) =~= Seq::empty());
    while i < plugins.len()
        invariant
            features.mapper.wf(),
            4 * plugin::frames_for(buffer_size) <= isize::MAX,
            ranges_known(*world, cfgs, instantiated@),
            saved@.len() == cfgs.len(),
            forall|k: int| 0 <= k < saved@.len() ==> (#[trigger] saved@[k]).wf(),
            cfgs == plugins@,
            plan == planned(cfgs),
            i <= cfgs.len(),
            made.plugins@.len() == planned(cfgs.take(i as int)).len(),
            made.plugins@.len() <= plan.len(),
            forall|k: int|
                0 <= k < made.plugins@.len() ==> is_made(
                    #[trigger] made.plugins@[k],
                    plan[k],
                    cfgs,
                    *world,
                    buffer_size,
                    features.mapper@,
                    saved@,
                    zero,
                ),
            first_error(*world, cfgs, instantiated@, made.plugins@.len() as int) is None,
            made.slots@ == slots_of(cfgs.take(i as int)),
            made.slots@.len() == i,
            made.slot_mixes@.len() == i,
            forall|k: int|
                0 <= k < i ==> config::same_mix(
                    #[trigger] made.slot_mixes@[k],
                    cfgs[k].stereo_mix,
                ),
            made.primary_indices@.len() == i,
            forall|k: int|
                0 <= k < i ==> #[trigger] made.primary_indices@[k] == made.slots@[k].primary(),
            forall|k: int|
                0 <= k < i ==> (#[trigger] made.slots@[k]).within(made.plugins@.len()),
        decreases cfgs.len() - i,
    {
        let cfg = &plugins[i];
        let ghost so_far = cfgs.take(i as int);
        proof {
            plan_of_plugin(cfgs, i as int);
            assert(cfgs.take(i + 1).drop_last() =~= so_far);
            assert(cfgs.take(i + 1).last() == *cfg);
            slots_len(so_far);
        }
        let idx: usize = made.plugins.len();
        assert(plan[idx as int] == Planned { plugin: i as int, name: cfg.name@ });
        let first = match make_instance(
            world,
            cfg.uri.as_str(),
            cfg.name.as_str(),
            buffer_size,
            features,
            is_started(instantiated, idx),
            &saved[i],
            zero,
        ) {
            Ok(p) => p,
            Err(e) => {
                proof {
                    first_error_stays(*world, cfgs, instantiated@, idx + 1, plan.len() as int);
                }
                return Err(e);
            },
        };
        made.plugins.push(first);
        if cfg.dual_mono {
            let idx_r: usize = made.plugins.len();
            let name = text::join(cfg.name.as_str(), "_R");
            assert(plan[idx_r as int] == Planned {
                plugin: i as int,
                name: right_name(cfg.name@),
            });
            let second = match make_instance(
                world,
                cfg.uri.as_str(),
                name.as_str(),
                buffer_size,
                features,
                is_started(instantiated, idx_r),
                &saved[i],
                zero,
            ) {
                Ok(p) => p,
                Err(e) => {
                    proof {
                        first_error_stays(
                            *world,
                            cfgs,
                            instantiated@,
                            idx_r + 1,
                            plan.len() as int,
                        );
                    }
                    return Err(e);
                },
            };
            made.plugins.push(second);
            made.slots.push(ChainSlot::DualMono { left: idx, right: idx_r });
        } else {
            made.slots.push(ChainSlot::Single(idx));
        }
        made.slot_mixes.push(config::copy_mix(&cfg.stereo_mix));
        made.primary_indices.push(idx);
        i += 1;
    }
    assert(cfgs.take(i as int) =~= cfgs);
    Ok(made)
}

/// The numbers below `n` that `f` holds of, in their order.
pub open spec fn selected(n: int, f: spec_fn(int) -> bool) -> Seq<int>
    decreases n,
{
    if n <= 0 {
        Seq::empty()
    } else if f(n - 1) {
        selected(n - 1, f).push(n - 1)
    } else {
        selected(n - 1, f)
    }
}

/// What is selected is below `n`, and `f` holds of it; all such is selected.
pub proof fn selected_holds(n: int, f: spec_fn(int) -> bool)
    ensures
        forall|q: int|
            0 <= q < selected(n, f).len() ==> 0 <= (#[trigger] selected(n, f)[q]) < n && f(
                selected(n, f)[q],
            ),
        forall|i: int| 0 <= i < n && #[trigger] f(i) ==> selected(n, f).contains(i),
    decreases n,
{
    if n > 0 {
        selected_holds(n - 1, f);
        let before = selected(n - 1, f);
        let now = selected(n, f);
        assert forall|i: int| 0 <= i < n && #[trigger] f(i) implies now.contains(i) by {
            if i == n - 1 {
                assert(now[before.len() as int] == i);
            } else {
                assert(before.contains(i));
                assert(now[before.index_of(i)] == i);
            }
        }
    }
}

/// What is selected is in order.
pub proof fn selected_rises(n: int, f: spec_fn(int) -> bool)
    ensures
        forall|a: int, b: int|
            0 <= a < b < selected(n, f).len() ==> (#[trigger] selected(n, f)[a]) < (
            #[trigger] selected(n, f)[b]),
    decreases n,
{
    if n > 0 {
        selected_rises(n - 1, f);
        selected_holds(n - 1, f);
        let before = selected(n - 1, f);
        let now = selected(n, f);
        assert forall|a: int, b: int| 0 <= a < b < now.len() implies (#[trigger] now[a]) < (
        #[trigger] now[b]) by {
            assert(now[a] == before[a]);
            if b < before.len() {
                assert(now[b] == before[b]);
            }
        }
    }
}

/// Whether a plugin gets MIDI: as its configuration says, else as its ports do.
pub open spec fn wants_midi<S>(cfg: PluginConfig, p: Lv2PluginInstance<S>) -> bool {
    match cfg.midi_in {
        Some(enabled) => enabled,
        None => plugin::midi_places(p.infos()).len() > 0,
    }
}

/// The plugins that get MIDI, by their places in the configuration.
pub open spec fn midi_plugins<S>(
    cfgs: Seq<PluginConfig>,
    slots: Seq<ChainSlot>,
    plugins: Seq<Lv2PluginInstance<S>>,
    n: int,
) -> Seq<int> {
    selected(n, |i: int| wants_midi(cfgs[i], plugins[slots[i].primary() as int]))
}

/// The names of the plugins at those places.
pub open spec fn names_at(cfgs: Seq<PluginConfig>, places: Seq<int>) -> Seq<Seq<char>> {
    places.map_values(|i: int| cfgs[i].name@)
}

/// Whether the channels are right: one for each plugin that gets MIDI, and the
/// sender of a name sends to the last plugin of that name.
pub open spec fn channels_ok(
    cfgs: Seq<PluginConfig>,
    slots: Seq<ChainSlot>,
    places: Seq<int>,
    senders: NameMap<MidiSender>,
    consumers: Seq<(usize, MidiPort)>,
) -> bool {
    let keys = names_at(cfgs, places);
    &&& senders.wf()
    &&& consumers.len() == places.len()
    &&& forall|q: int|
        0 <= q < consumers.len() ==> (#[trigger] consumers[q]).0 == slots[places[q]].primary()
            && consumers[q].1.received() == Seq::<MidiEvent>::empty() && consumers[q].1.name@
            == keys[q]
    &&& forall|n: Seq<char>| #[trigger] senders@.contains_key(n) <==> keys.contains(n)
    &&& forall|n: Seq<char>| #[trigger]
        senders@.contains_key(n) ==> {
            &&& senders@[n].sent() == Seq::<MidiEvent>::empty()
            &&& senders@[n].capacity() == MIDI_RING_CAPACITY
            &&& senders@[n].ever_sent() == consumers[keys.index_of_last(n)->0].1.coming()
        }
}

/// Opens a MIDI channel to each plugin that gets MIDI.
#[verifier::spinoff_prover]
#[verifier::rlimit(40)]
pub fn open_midi<S>(
    cfgs: &Vec<PluginConfig>,
    slots: &Vec<ChainSlot>,
    plugins: &Vec<Lv2PluginInstance<S>>,
) -> (r: (NameMap<MidiSender>, Vec<(usize, MidiPort)>))
    requires
        slots@.len() == cfgs@.len(),
        forall|i: int| 0 <= i < slots@.len() ==> (#[trigger] slots@[i]).within(plugins@.len()),
        forall|p: int| 0 <= p < plugins@.len() ==> (#[trigger] plugins@[p]).wf(),
    ensures
        channels_ok(
            cfgs@,
            slots@,
            midi_plugins(cfgs@, slots@, plugins@, cfgs@.len() as int),
            r.0,
            r.1@,
        ),
{
    let mut senders: NameMap<MidiSender> = NameMap::new();
    let mut consumers: Vec<(usize, MidiPort)> = Vec::new();
    let ghost mut all: Seq<MidiSender> = Seq::empty();
    let mut i: usize = 0;
    proof {
        assert(names_at(cfgs@, Seq::empty()) =~= Seq::empty());
        names::collected_none::<MidiSender>();
    }
    while i < cfgs.len()
        invariant
            slots@.len() == cfgs@.len(),
            forall|k: int| 0 <= k < slots@.len() ==> (#[trigger] slots@[k]).within(plugins@.len()),
            forall|p: int| 0 <= p < plugins@.len() ==> (#[trigger] plugins@[p]).wf(),
            i <= cfgs@.len(),
            senders.wf(),
            ({
                let places = midi_plugins(cfgs@, slots@, plugins@, i as int);
                let keys = names_at(cfgs@, places);
                &&& consumers@.len() == places.len()
                &&& all.len() == places.len()
                &&& senders@ == names::collected(keys, all)
                &&& forall|q: int|
                    0 <= q < consumers@.len() ==> {
                        &&& (#[trigger] consumers@[q]).0 == slots@[places[q]].primary()
                        &&& consumers@[q].1.received() == Seq::<MidiEvent>::empty()
                        &&& consumers@[q].1.name@ == keys[q]
                        &&& all[q].sent() == Seq::<MidiEvent>::empty()
                        &&& all[q].capacity() == MIDI_RING_CAPACITY
                        &&& all[q].ever_sent() == consumers@[q].1.coming()
                    }
            }),
        decreases cfgs@.len() - i,
    {
        let ghost places = midi_plugins(cfgs@, slots@, plugins@, i as int);
        let ghost keys = names_at(cfgs@, places);
        assert(slots@[i as int].within(plugins@.len()));
        let primary: usize = slots[i].primary_idx();
        let wants: bool = match cfgs[i].midi_in {
            Some(enabled) => enabled,
            None => plugins[primary].has_midi_in(),
        };
        if wants {
            let (sender, port) = midi::create_midi_channel(
                cfgs[i].name.as_str(),
                MIDI_RING_CAPACITY,
            );
            proof {
                let now = midi_plugins(cfgs@, slots@, plugins@, i + 1);
                assert(now == places.push(i as int));
                assert(names_at(cfgs@, now) =~= keys.push(cfgs@[i as int].name@));
                names::collected_push(keys, all, cfgs@[i as int].name@, sender);
                all = all.push(sender);
            }
            senders.insert(cfgs[i].name.clone(), sender);
            consumers.push((primary, port));
        }
        i += 1;
    }
    proof {
        let keys = names_at(cfgs@, midi_plugins(cfgs@, slots@, plugins@, i as int));
        assert forall|n: Seq<char>| #[trigger] senders@.contains_key(n) implies {
            &&& senders@[n].sent() == Seq::<MidiEvent>::empty()
            &&& senders@[n].capacity() == MIDI_RING_CAPACITY
            &&& senders@[n].ever_sent() == consumers@[keys.index_of_last(n)->0].1.coming()
        } by {
            keys.index_of_last_ensures(n);
            let q = keys.index_of_last(n)->0;
            assert(consumers@[q].1.received() == Seq::<MidiEvent>::empty());
        }
    }
    (senders, consumers)
}

/// How a window is known: by the names of its chain and its plugin.
pub open spec fn ui_key(chain_name: Seq<char>, plugin_name: Seq<char>) -> Seq<char> {
    chain_name + "/"@ + plugin_name
}

/// How a window is known.
pub fn make_ui_key(chain_name: &str, plugin_name: &str) -> (r: String)
    ensures
        r@ == ui_key(chain_name@, plugin_name@),
{
    let mut r = text::join(chain_name, "/");
    r.append(plugin_name);
    r
}

/// The symbols of all ports with their indices.
pub open spec fn port_symbols(infos: Seq<PortInfoView>) -> Map<Seq<char>, u32> {
    names::collected(
        infos.map_values(|p: PortInfoView| p.symbol),
        infos.map_values(|p: PortInfoView| p.port_index as u32),
    )
}

/// The indices of the control inputs.
pub open spec fn control_indices(infos: Seq<PortInfoView>) -> Seq<u32> {
    plugin::of_kind(infos, PortKind::ControlIn).map_values(
        |p: PortInfoView| p.port_index as u32,
    )
}

/// The window that a plugin brought along, where it has one and no sliders are
/// asked for.
pub open spec fn native_ui<S>(
    world: World,
    chain_name: Seq<char>,
    cfg: PluginConfig,
    p: Lv2PluginInstance<S>,
) -> Option<PluginUiInfoView> {
    if cfg.generic_ui {
        None
    } else {
        ui::found_ui(
            world,
            cfg.uri@,
            ui_key(chain_name, cfg.name@),
            port_symbols(p.infos()),
            control_indices(p.infos()),
        )
    }
}

/// Whether `info` describes the window of sliders for a plugin.
pub open spec fn is_generic_ui<S>(
    info: GenericUiInfo,
    chain_name: Seq<char>,
    cfg: PluginConfig,
    p: Lv2PluginInstance<S>,
) -> bool {
    &&& info.plugin_name@ == ui_key(chain_name, cfg.name@)
    &&& info.bridge_name@ == cfg.name@
    &&& plugin::meta_views(info.control_ports@) == plugin::meta_views(p.control_port_meta@)
    &&& info.port_symbol_to_index.wf()
    &&& info.port_symbol_to_index@ == port_symbols(p.infos())
    &&& info.control_port_indices@ == control_indices(p.infos())
}

/// The symbols of ports, as pairs, are those of the ports.
proof fn pairs_are_symbols(pairs: Seq<(String, u32)>, infos: Seq<PortInfoView>)
    requires
        pairs.map_values(|p: (String, u32)| (p.0@, p.1)) == infos.map_values(
            |p: PortInfoView| (p.symbol, p.port_index as u32),
        ),
    ensures
        ui::symbols_of(pairs) == port_symbols(infos),
{
    let both = pairs.map_values(|p: (String, u32)| (p.0@, p.1));
    let same = infos.map_values(|p: PortInfoView| (p.symbol, p.port_index as u32));
    assert(both.len() == pairs.len() && same.len() == infos.len());
    assert forall|i: int| 0 <= i < pairs.len() implies (#[trigger] pairs[i]).0@ == infos[i].symbol
        && pairs[i].1 == infos[i].port_index as u32 by {
        assert(both[i] == same[i]);
    }
    assert(pairs.map_values(|p: (String, u32)| p.0@) =~= infos.map_values(
        |p: PortInfoView| p.symbol,
    ));
    assert(pairs.map_values(|p: (String, u32)| p.1) =~= infos.map_values(
        |p: PortInfoView| p.port_index as u32,
    ));
}

/// A copy of what is said of control inputs.
fn copy_metas(metas: &Vec<ControlPortMeta>) -> (r: Vec<ControlPortMeta>)
    ensures
        plugin::meta_views(r@) == plugin::meta_views(metas@),
{
    let mut r: Vec<ControlPortMeta> = Vec::new();
    let mut i: usize = 0;
    while i < metas.len()
        invariant
            i <= metas@.len(),
            r@.len() == i,
            forall|k: int| 0 <= k < i ==> (#[trigger] r@[k])@ == metas@[k]@,
        decreases metas@.len() - i,
    {
        let m = &metas[i];
        r.push(
            ControlPortMeta {
                symbol: m.symbol.clone(),
                port_index: m.port_index,
                min: m.min,
                max: m.max,
                default: m.default,
            },
        );
        i += 1;
    }
    assert(plugin::meta_views(r@) =~= plugin::meta_views(metas@));
    r
}

/// The plugins that get sliders, by their places in the configuration.
pub open spec fn slider_plugins(cfgs: Seq<PluginConfig>, n: int) -> Seq<int> {
    selected(n, |i: int| cfgs[i].generic_ui)
}

/// The plugins that brought a window along, by their places in the
/// configuration.
pub open spec fn window_plugins<S>(
    world: World,
    chain_name: Seq<char>,
    cfgs: Seq<PluginConfig>,
    slots: Seq<ChainSlot>,
    plugins: Seq<Lv2PluginInstance<S>>,
    n: int,
) -> Seq<int> {
    selected(
        n,
        |i: int| native_ui(world, chain_name, cfgs[i], plugins[slots[i].primary() as int]) is Some,
    )
}

/// Whether the windows are right: of the plugins of one name, the last counts.
pub open spec fn windows_ok<S>(
    world: World,
    chain_name: Seq<char>,
    cfgs: Seq<PluginConfig>,
    slots: Seq<ChainSlot>,
    plugins: Seq<Lv2PluginInstance<S>>,
    native: NameMap<PluginUiInfo>,
    generic: NameMap<GenericUiInfo>,
) -> bool {
    let n = cfgs.len() as int;
    let windows = window_plugins(world, chain_name, cfgs, slots, plugins, n);
    let window_names = names_at(cfgs, windows);
    let sliders = slider_plugins(cfgs, n);
    let slider_names = names_at(cfgs, sliders);
    &&& native.wf()
    &&& generic.wf()
    &&& forall|m: Seq<char>| #[trigger] native@.contains_key(m) <==> window_names.contains(m)
    &&& forall|m: Seq<char>| #[trigger]
        native@.contains_key(m) ==> {
            let i = windows[window_names.index_of_last(m)->0];
            &&& native@[m].port_symbol_to_index.wf()
            &&& native_ui(world, chain_name, cfgs[i], plugins[slots[i].primary() as int]) == Some(
                native@[m]@,
            )
        }
    &&& forall|m: Seq<char>| #[trigger] generic@.contains_key(m) <==> slider_names.contains(m)
    &&& forall|m: Seq<char>| #[trigger]
        generic@.contains_key(m) ==> {
            let i = sliders[slider_names.index_of_last(m)->0];
            is_generic_ui(generic@[m], chain_name, cfgs[i], plugins[slots[i].primary() as int])
        }
}

/// Prepares the windows of the plugins: sliders where they are asked for, else
/// the window that the plugin brought along.
pub fn prepare_windows<S>(
    world: &World,
    chain_name: &str,
    cfgs: &Vec<PluginConfig>,
    slots: &Vec<ChainSlot>,
    plugins: &Vec<Lv2PluginInstance<S>>,
) -> (r: (NameMap<PluginUiInfo>, NameMap<GenericUiInfo>))
    requires
        slots@.len() == cfgs@.len(),
        forall|i: int| 0 <= i < slots@.len() ==> (#[trigger] slots@[i]).within(plugins@.len()),
    ensures
        windows_ok(*world, chain_name@, cfgs@, slots@, plugins@, r.0, r.1),
{
    let mut native: NameMap<PluginUiInfo> = NameMap::new();
    let mut generic: NameMap<GenericUiInfo> = NameMap::new();
    let ghost mut all_native: Seq<PluginUiInfo> = Seq::empty();
    let ghost mut all_generic: Seq<GenericUiInfo> = Seq::empty();
    let mut i: usize = 0;
    proof {
        assert(names_at(cfgs@, Seq::empty()) =~= Seq::empty());
        names::collected_none::<PluginUiInfo>();
        names::collected_none::<GenericUiInfo>();
    }
    while i < cfgs.len()
        invariant
            slots@.len() == cfgs@.len(),
            forall|k: int| 0 <= k < slots@.len() ==> (#[trigger] slots@[k]).within(plugins@.len()),
            i <= cfgs@.len(),
            native.wf(),
            generic.wf(),
            ({
                let windows = window_plugins(
                    *world,
                    chain_name@,
                    cfgs@,
                    slots@,
                    plugins@,
                    i as int,
                );
                let sliders = slider_plugins(cfgs@, i as int);
                &&& all_native.len() == windows.len()
                &&& all_generic.len() == sliders.len()
                &&& native@ == names::collected(names_at(cfgs@, windows), all_native)
                &&& generic@ == names::collected(names_at(cfgs@, sliders), all_generic)
                &&& forall|q: int|
                    0 <= q < windows.len() ==> (#[trigger] all_native[q]).port_symbol_to_index.wf()
                        && native_ui(
                        *world,
                        chain_name@,
                        cfgs@[windows[q]],
                        plugins@[slots@[windows[q]].primary() as int],
                    ) == Some(all_native[q]@)
                &&& forall|q: int|
                    0 <= q < sliders.len() ==> is_generic_ui(
                        #[trigger] all_generic[q],
                        chain_name@,
                        cfgs@[sliders[q]],
                        plugins@[slots@[sliders[q]].primary() as int],
                    )
            }),
        decreases cfgs@.len() - i,
    {
        let ghost windows = window_plugins(
            *world,
            chain_name@,
            cfgs@,
            slots@,
            plugins@,
            i as int,
        );
        let ghost sliders = slider_plugins(cfgs@, i as int);
        let ghost name = cfgs@[i as int].name@;
        assert(slots@[i as int].within(plugins@.len()));
        let cfg = &cfgs[i];
        let inst = &plugins[slots[i].primary_idx()];
        let key = make_ui_key(chain_name, cfg.name.as_str());
        let pairs = inst.all_port_symbol_index_pairs();
        let indices = inst.control_in_port_indices();
        proof {
            pairs_are_symbols(pairs@, inst.infos());
        }
        if cfg.generic_ui {
            let info = GenericUiInfo {
                plugin_name: key,
                bridge_name: cfg.name.clone(),
                control_ports: copy_metas(inst.control_port_meta()),
                port_symbol_to_index: ui::collect_symbols(&pairs),
                control_port_indices: indices,
            };
            proof {
                let now = slider_plugins(cfgs@, i + 1);
                assert(now == sliders.push(i as int));
                assert(names_at(cfgs@, now) =~= names_at(cfgs@, sliders).push(name));
                names::collected_push(names_at(cfgs@, sliders), all_generic, name, info);
                all_generic = all_generic.push(info);
            }
            generic.insert(cfg.name.clone(), info);
        } else {
            match ui::discover_ui(world, cfg.uri.as_str(), key.as_str(), &pairs, &indices) {
                Some(info) => {
                    proof {
                        let now = window_plugins(
                            *world,
                            chain_name@,
                            cfgs@,
                            slots@,
                            plugins@,
                            i + 1,
                        );
                        assert(now == windows.push(i as int));
                        assert(names_at(cfgs@, now) =~= names_at(cfgs@, windows).push(name));
                        names::collected_push(names_at(cfgs@, windows), all_native, name, info);
                        all_native = all_native.push(info);
                    }
                    native.insert(cfg.name.clone(), info);
                },
                None => {},
            }
        }
        i += 1;
    }
    proof {
        let windows = window_plugins(*world, chain_name@, cfgs@, slots@, plugins@, i as int);
        let window_names = names_at(cfgs@, windows);
        let sliders = slider_plugins(cfgs@, i as int);
        let slider_names = names_at(cfgs@, sliders);
        assert forall|m: Seq<char>| #[trigger] native@.contains_key(m) implies {
            let k = windows[window_names.index_of_last(m)->0];
            &&& native@[m].port_symbol_to_index.wf()
            &&& native_ui(
                *world,
                chain_name@,
                cfgs@[k],
                plugins@[slots@[k].primary() as int],
            ) == Some(native@[m]@)
        } by {
            window_names.index_of_last_ensures(m);
            assert(all_native[window_names.index_of_last(m)->0].port_symbol_to_index.wf());
        }
        assert forall|m: Seq<char>| #[trigger] generic@.contains_key(m) implies {
            let k = sliders[slider_names.index_of_last(m)->0];
            is_generic_ui(
                generic@[m],
                chain_name@,
                cfgs@[k],
                plugins@[slots@[k].primary() as int],
            )
        } by {
            slider_names.index_of_last_ensures(m);
            let q = slider_names.index_of_last(m)->0;
            assert(is_generic_ui(
                all_generic[q],
                chain_name@,
                cfgs@[sliders[q]],
                plugins@[slots@[sliders[q]].primary() as int],
            ));
        }
    }
    (native, generic)
}

/// The instances that stand for the plugins, by name; of the plugins of one name,
/// the last counts.
pub open spec fn primaries(cfgs: Seq<PluginConfig>, slots: Seq<ChainSlot>) -> Map<
    Seq<char>,
    usize,
> {
    names::collected(
        cfgs.map_values(|c: PluginConfig| c.name@),
        slots.map_values(|s: ChainSlot| s.primary()),
    )
}

/// The instances that stand for the plugins, by name.
pub fn name_primaries(cfgs: &Vec<PluginConfig>, slots: &Vec<ChainSlot>) -> (r: NameMap<usize>)
    requires
        slots@.len() == cfgs@.len(),
    ensures
        r.wf(),
        r@ == primaries(cfgs@, slots@),
{
    let mut r: NameMap<usize> = NameMap::new();
    let ghost keys = cfgs@.map_values(|c: PluginConfig| c.name@);
    let ghost values = slots@.map_values(|s: ChainSlot| s.primary());
    let mut i: usize = 0;
    proof {
        assert(keys.take(0) =~= Seq::empty());
        assert(values.take(0) =~= Seq::empty());
        names::collected_none::<usize>();
    }
    while i < cfgs.len()
        invariant
            slots@.len() == cfgs@.len(),
            keys == cfgs@.map_values(|c: PluginConfig| c.name@),
            values == slots@.map_values(|s: ChainSlot| s.primary()),
            i <= cfgs@.len(),
            r.wf(),
            r@ == names::collected(keys.take(i as int), values.take(i as int)),
        decreases cfgs@.len() - i,
    {
        r.insert(cfgs[i].name.clone(), slots[i].primary_idx());
        proof {
            assert(keys.take(i + 1) =~= keys.take(i as int).push(keys[i as int]));
            assert(values.take(i + 1) =~= values.take(i as int).push(values[i as int]));
            names::collected_push(
                keys.take(i as int),
                values.take(i as int),
                keys[i as int],
                values[i as int],
            );
        }
        i += 1;
    }
    assert(keys.take(i as int) =~= keys);
    assert(values.take(i as int) =~= values);
    r
}

/// The names of `n` ports of a JACK client: numbered from one.
pub open spec fn port_names(client: Seq<char>, kind: Seq<char>, n: nat) -> Seq<Seq<char>> {
    Seq::new(n, |i: int| client + ":"@ + kind + text::decimal_of((i + 1) as nat))
}

/// The names of `n` ports of a JACK client.
pub fn make_port_names(client: &str, kind: &str, n: usize) -> (r: Vec<String>)
    ensures
        text::texts(r@) == port_names(client@, kind@, n as nat),
{
    let mut r: Vec<String> = Vec::new();
    let mut i: usize = 0;
    while i < n
        invariant
            i <= n,
            r@.len() == i,
            forall|k: int|
                0 <= k < i ==> (#[trigger] r@[k])@ == port_names(client@, kind@, n as nat)[k],
        decreases n - i,
    {
        i += 1;
        let number = text::decimal(i as u64);
        let mut name = text::join(client, ":");
        name.append(kind);
        name.append(number.as_str());
        r.push(name);
    }
    assert(text::texts(r@) =~= port_names(client@, kind@, n as nat));
    r
}

/// How many inputs the chain has: those of its first instance, or two where the
/// first slot runs once for each side.
pub open spec fn input_count<S>(slots: Seq<ChainSlot>, plugins: Seq<Lv2PluginInstance<S>>) -> nat {
    match slots[0] {
        ChainSlot::Single(i) => plugins[i as int].count(PortKind::AudioIn),
        ChainSlot::DualMono { .. } => 2,
    }
}

/// How many outputs the chain has: two where the last slot is mixed or runs once
/// for each side, else those of its instance.
pub open spec fn output_count<S>(
    slots: Seq<ChainSlot>,
    mixes: Seq<Option<Vec<[u32; 2]>>>,
    plugins: Seq<Lv2PluginInstance<S>>,
) -> nat {
    if mixes.last() is Some {
        2
    } else {
        match slots.last() {
            ChainSlot::Single(i) => plugins[i as int].count(PortKind::AudioOut),
            ChainSlot::DualMono { .. } => 2,
        }
    }
}

/// How many inputs the chain has.
pub fn count_inputs<S>(slots: &Vec<ChainSlot>, plugins: &Vec<Lv2PluginInstance<S>>) -> (r: usize)
    requires
        slots@.len() > 0,
        slots@[0].within(plugins@.len()),
        forall|p: int| 0 <= p < plugins@.len() ==> (#[trigger] plugins@[p]).wf(),
    ensures
        r == input_count(slots@, plugins@),
{
    match slots[0] {
        ChainSlot::Single(i) => plugins[i].audio_in_count(),
        ChainSlot::DualMono { left, right } => 2,
    }
}

/// How many outputs the chain has.
pub fn count_outputs<S>(
    slots: &Vec<ChainSlot>,
    mixes: &Vec<Option<Vec<[u32; 2]>>>,
    plugins: &Vec<Lv2PluginInstance<S>>,
) -> (r: usize)
    requires
        slots@.len() > 0,
        mixes@.len() == slots@.len(),
        slots@.last().within(plugins@.len()),
        forall|p: int| 0 <= p < plugins@.len() ==> (#[trigger] plugins@[p]).wf(),
    ensures
        r == output_count(slots@, mixes@, plugins@),
{
    let last: usize = slots.len() - 1;
    if mixes[last].is_some() {
        2
    } else {
        match slots[last] {
            ChainSlot::Single(i) => plugins[i].audio_out_count(),
            ChainSlot::DualMono { left, right } => 2,
        }
    }
}

/// A plugin that runs once for each side takes two instances more, and any other one;
/// no plugins take none.
pub proof fn plan_grows_by_plugin(plugins: Seq<PluginConfig>, i: int)
    requires
        0 <= i < plugins.len(),
    ensures
        planned(plugins.take(0)).len() == 0,
        planned(plugins.take(i + 1)).len() == planned(plugins.take(i)).len() + (
        if plugins[i].dual_mono {
            2int
        } else {
            1int
        }),
{
    assert(plugins.take(i + 1).drop_last() =~= plugins.take(i));
    assert(plugins.take(i + 1).last() == plugins[i]);
}

/// Where no plugin runs once for each side, there is one instance for each, in its
/// place and under its name.
pub proof fn plain_plugins_are_instances(plugins: Seq<PluginConfig>)
    requires
        forall|i: int| 0 <= i < plugins.len() ==> !(#[trigger] plugins[i]).dual_mono,
    ensures
        planned(plugins).len() == plugins.len(),
        forall|i: int|
            0 <= i < plugins.len() ==> (#[trigger] planned(plugins)[i]).plugin == i && planned(
                plugins,
            )[i].name == plugins[i].name@,
    decreases plugins.len(),
{
    if plugins.len() > 0 {
        let first = plugins.drop_last();
        assert forall|i: int| 0 <= i < first.len() implies !(#[trigger] first[i]).dual_mono by {
            assert(first[i] == plugins[i]);
        }
        plain_plugins_are_instances(first);
        assert(!plugins[plugins.len() - 1].dual_mono);
        assert forall|i: int| 0 <= i < plugins.len() implies (#[trigger] planned(
            plugins,
        )[i]).plugin == i && planned(plugins)[i].name == plugins[i].name@ by {
            if i < first.len() {
                assert(planned(plugins)[i] == planned(first)[i]);
                assert(first[i] == plugins[i]);
            }
        }
    }
}

/// The instance for the right side has the name of its plugin with `_R` behind it.
pub proof fn right_instance_is_named(name: Seq<char>)
    ensures
        right_name(name).len() == name.len() + 2,
        right_name(name).take(name.len() as int) == name,
        right_name(name)[name.len() as int] == '_',
        right_name(name)[name.len() as int + 1] == 'R',
{
    reveal_strlit("_R");
    assert(right_name(name).take(name.len() as int) =~= name);
}

/// The ports of a chain are as many as are asked for, and are counted from one.
pub proof fn ports_are_counted_from_one(client: Seq<char>, kind: Seq<char>, n: nat, i: int)
    requires
        0 <= i < n,
    ensures
        port_names(client, kind, n).len() == n,
        port_names(client, kind, n)[i] == client + ":"@ + kind + text::decimal_of((i + 1) as nat),
        forall|j: int|
            0 <= j < n && j != i ==> port_names(client, kind, n)[i] != #[trigger] port_names(
                client,
                kind,
                n,
            )[j],
{
    let names = port_names(client, kind, n);
    let start = client + ":"@ + kind;
    assert forall|j: int| 0 <= j < n && j != i implies names[i] != #[trigger] names[j] by {
        let a = text::decimal_of((i + 1) as nat);
        let b = text::decimal_of((j + 1) as nat);
        if names[i] == names[j] {
            assert((start + a).skip(start.len() as int) =~= a);
            assert((start + b).skip(start.len() as int) =~= b);
            text::decimals_are_distinct((i + 1) as nat, (j + 1) as nat);
        }
    }
}

/// A chain has the inputs of a single plugin that it begins with, and two where it
/// begins with a pair.
pub proof fn inputs_are_those_of_first_slot<S>(
    slots: Seq<ChainSlot>,
    plugins: Seq<Lv2PluginInstance<S>>,
)
    requires
        slots.len() > 0,
        slots[0].within(plugins.len()),
        forall|p: int| 0 <= p < plugins.len() ==> (#[trigger] plugins[p]).wf(),
    ensures
        slots[0] matches ChainSlot::Single(i) ==> input_count(slots, plugins)
            == plugins[i as int].audio_in_bufs@.len(),
        slots[0] is DualMono ==> input_count(slots, plugins) == 2,
{
}

/// A chain has the outputs of a single plugin that it ends in where nothing is mixed,
/// and two where it ends in a pair or a mix.
pub proof fn outputs_are_those_of_last_slot<S>(
    slots: Seq<ChainSlot>,
    mixes: Seq<Option<Vec<[u32; 2]>>>,
    plugins: Seq<Lv2PluginInstance<S>>,
)
    requires
        slots.len() > 0,
        slots.last().within(plugins.len()),
        forall|p: int| 0 <= p < plugins.len() ==> (#[trigger] plugins[p]).wf(),
    ensures
        mixes.last() is Some ==> output_count(slots, mixes, plugins) == 2,
        slots.last() is DualMono ==> output_count(slots, mixes, plugins) == 2,
        mixes.last() is None ==> (slots.last() matches ChainSlot::Single(i) ==> output_count(
            slots,
            mixes,
            plugins,
        ) == plugins[i as int].audio_out_bufs@.len()),
{
}

/// What an instance that cannot be made fails with: its plugin is not there, or its
/// code could not be started.
pub proof fn instance_fails(
    world: World,
    plugins: Seq<PluginConfig>,
    instantiated: Seq<bool>,
    k: int,
)
    requires
        0 <= k < planned(plugins).len(),
    ensures
        ({
            let uri = plugins[planned(plugins)[k].plugin].uri@;
            let there = exists|w: int|
                0 <= w < world.plugins@.len() && (#[trigger] world.plugins@[w]).uri@ == uri;
            let started = k < instantiated.len() && instantiated[k];
            &&& !there ==> error_at(world, plugins, instantiated, k) == Some(
                ErrorView::Lv2PluginNotFound { uri },
            )
            &&& there && !started ==> error_at(world, plugins, instantiated, k) == Some(
                ErrorView::Lv2Instantiation {
                    name: planned(plugins)[k].name,
                    uri,
                    reason: "lilv_plugin_instantiate returned null"@,
                },
            )
            &&& there && started ==> error_at(world, plugins, instantiated, k) is None
        }),
{
    crate::world::has_uri_of_a_plugin(world, plugins[planned(plugins)[k].plugin].uri@);
}

/// The first instance that fails decides on the error of all: no failure behind it,
/// and no success, changes it.
pub proof fn first_failure_is_reported(
    world: World,
    plugins: Seq<PluginConfig>,
    instantiated: Seq<bool>,
    n: int,
    k: int,
)
    requires
        0 <= k < n,
        error_at(world, plugins, instantiated, k) is Some,
        forall|j: int| 0 <= j < k ==> #[trigger] error_at(world, plugins, instantiated, j) is None,
    ensures
        first_error(world, plugins, instantiated, n) == error_at(world, plugins, instantiated, k),
{
    none_fails(world, plugins, instantiated, k);
    first_error_stays(world, plugins, instantiated, k + 1, n);
}

/// Where none of the first instances fails, there is no error.
pub proof fn none_fails(
    world: World,
    plugins: Seq<PluginConfig>,
    instantiated: Seq<bool>,
    n: int,
)
    requires
        forall|j: int| 0 <= j < n ==> #[trigger] error_at(world, plugins, instantiated, j) is None,
    ensures
        first_error(world, plugins, instantiated, n) is None,
    decreases n,
{
    if n > 0 {
        none_fails(world, plugins, instantiated, n - 1);
        assert(error_at(world, plugins, instantiated, n - 1) is None);
    }
}

/// A plugin is given MIDI messages where the configuration says so, and where it says
/// nothing, if the plugin has an atom input for them.
pub proof fn midi_is_wanted<S>(cfg: PluginConfig, p: Lv2PluginInstance<S>)
    ensures
        cfg.midi_in == Some(true) ==> wants_midi(cfg, p),
        cfg.midi_in == Some(false) ==> !wants_midi(cfg, p),
        cfg.midi_in is None ==> (wants_midi(cfg, p) <==> exists|k: int|
            0 <= k < p.port_infos@.len() && (#[trigger] p.port_infos@[k]).kind == PortKind::AtomIn
                && p.port_infos@[k].has_midi),
{
    let infos = p.infos();
    if cfg.midi_in is None {
        plugin::midi_places_of_ports(infos);
        let places = plugin::midi_places(infos);
        if places.len() > 0 {
            assert(places.contains(places[0]));
            let k = choose|k: int|
                0 <= k < infos.len() && (#[trigger] infos[k]).kind == PortKind::AtomIn
                    && infos[k].has_midi && infos[k].buf_index == places[0];
            assert(infos[k] == p.port_infos@[k]@);
        }
        if exists|k: int|
            0 <= k < p.port_infos@.len() && (#[trigger] p.port_infos@[k]).kind == PortKind::AtomIn
                && p.port_infos@[k].has_midi {
            let k = choose|k: int|
                0 <= k < p.port_infos@.len() && (#[trigger] p.port_infos@[k]).kind
                    == PortKind::AtomIn && p.port_infos@[k].has_midi;
            assert(infos[k] == p.port_infos@[k]@);
            assert(places.contains(infos[k].buf_index));
        }
    }
}

/// The window of a plugin is known by the names of its chain and its own, with a slash
/// between them.
pub proof fn window_key_has_both_names(chain_name: Seq<char>, plugin_name: Seq<char>)
    ensures
        ui_key(chain_name, plugin_name).len() == chain_name.len() + 1 + plugin_name.len(),
        ui_key(chain_name, plugin_name).take(chain_name.len() as int) == chain_name,
        ui_key(chain_name, plugin_name)[chain_name.len() as int] == '/',
        ui_key(chain_name, plugin_name).skip(chain_name.len() as int + 1) == plugin_name,
{
    reveal_strlit("/");
    let key = ui_key(chain_name, plugin_name);
    assert(key.take(chain_name.len() as int) =~= chain_name);
    assert(key.skip(chain_name.len() as int + 1) =~= plugin_name);
}

/// The symbols of all ports are listed with the index of the port, of the last where
/// two ports share a symbol.
pub proof fn ports_are_found_by_symbol(infos: Seq<PortInfoView>, k: int)
    requires
        0 <= k < infos.len(),
        forall|j: int| k < j < infos.len() ==> (#[trigger] infos[j]).symbol != infos[k].symbol,
    ensures
        port_symbols(infos).contains_key(infos[k].symbol),
        port_symbols(infos)[infos[k].symbol] == infos[k].port_index as u32,
        forall|s: Seq<char>| #[trigger]
            port_symbols(infos).contains_key(s) ==> exists|j: int|
                0 <= j < infos.len() && (#[trigger] infos[j]).symbol == s,
{
    let symbols = infos.map_values(|p: PortInfoView| p.symbol);
    let indices = infos.map_values(|p: PortInfoView| p.port_index as u32);
    assert forall|j: int| k < j < symbols.len() implies #[trigger] symbols[j] != symbols[k] by {
        assert(symbols[j] == infos[j].symbol);
    }
    names::collected_is_last(symbols, indices, k);
    assert forall|s: Seq<char>| #[trigger] port_symbols(infos).contains_key(s) implies exists|
        j: int,
    | 0 <= j < infos.len() && (#[trigger] infos[j]).symbol == s by {
        let j = choose|j: int| 0 <= j < symbols.len() && #[trigger] symbols[j] == s;
        assert(infos[j].symbol == s);
    }
}

/// The indices of the control inputs are listed in the order of their buffers.
pub proof fn control_inputs_are_listed(infos: Seq<PortInfoView>, k: int)
    requires
        plugin::places_ok(infos),
        0 <= k < infos.len(),
        infos[k].kind == PortKind::ControlIn,
    ensures
        infos[k].buf_index < control_indices(infos).len(),
        control_indices(infos)[infos[k].buf_index as int] == infos[k].port_index as u32,
        control_indices(infos).len() == plugin::of_kind(infos, PortKind::ControlIn).len(),
{
    plugin::port_at_place(infos, k);
}

/// The instance that stands for a plugin is found by the name of the plugin: the only
/// one, or the left one of two.
pub proof fn instance_is_found_by_name(cfgs: Seq<PluginConfig>, slots: Seq<ChainSlot>, i: int)
    requires
        cfgs.len() == slots.len(),
        0 <= i < cfgs.len(),
        forall|j: int| i < j < cfgs.len() ==> (#[trigger] cfgs[j]).name@ != cfgs[i].name@,
    ensures
        primaries(cfgs, slots).contains_key(cfgs[i].name@),
        slots[i] matches ChainSlot::Single(k) ==> primaries(cfgs, slots)[cfgs[i].name@] == k,
        slots[i] matches ChainSlot::DualMono { left, right } ==> primaries(
            cfgs,
            slots,
        )[cfgs[i].name@] == left,
{
    let keys = cfgs.map_values(|c: PluginConfig| c.name@);
    let values = slots.map_values(|s: ChainSlot| s.primary());
    assert forall|j: int| i < j < keys.len() implies #[trigger] keys[j] != keys[i] by {
        assert(keys[j] == cfgs[j].name@);
    }
    names::collected_is_last(keys, values, i);
}

/// An instance is made with the control values that were saved for its plugin: the last
/// control of a symbol has what was saved under it, and a control without has the default
/// of its port, or zero where that is no finite number.
pub proof fn instance_is_made_with_saved_controls<S>(
    p: Lv2PluginInstance<S>,
    plan: Planned,
    plugins: Seq<PluginConfig>,
    world: World,
    buffer_size: u32,
    uris: Seq<Seq<char>>,
    saved: Seq<NameMap<u32>>,
    zero: S,
    k: int,
)
    requires
        is_made(p, plan, plugins, world, buffer_size, uris, saved, zero),
        0 <= k < p.port_infos@.len(),
        p.port_infos@[k].kind == PortKind::ControlIn,
        p.port_infos@[k].port_index < world.plugin_of(plugins[plan.plugin].uri@).ranges@.len(),
    ensures
        p.name@ == plan.name,
        ({
            let port = p.port_infos@[k];
            let value = p.control_in_vals@[port.buf_index as int];
            let default = world.plugin_of(
                plugins[plan.plugin].uri@,
            ).ranges@[port.port_index as int].default;
            let kept = saved[plan.plugin]@;
            &&& kept.contains_key(port.symbol@) && (forall|j: int|
                k < j < p.port_infos@.len() && (#[trigger] p.port_infos@[j]).kind
                    == PortKind::ControlIn ==> p.port_infos@[j].symbol@ != port.symbol@) ==> value
                == kept[port.symbol@]
            &&& !kept.contains_key(port.symbol@) && crate::world::is_finite(default) ==> value
                == default
            &&& !kept.contains_key(port.symbol@) && !crate::world::is_finite(default) ==> value == 0
        }),
{
    let infos = p.infos();
    let desc = world.plugin_of(plugins[plan.plugin].uri@);
    let kept = saved[plan.plugin]@;
    let symbols = plugin::control_symbols(infos);
    let defaults = plugin::defaults_of(infos, PortKind::ControlIn, desc.ranges@);
    assert(infos[k] == p.port_infos@[k]@);
    plugin::port_at_place(infos, k);
    let at = infos[k].buf_index as int;
    assert(symbols[at] == infos[k].symbol);
    assert(defaults[at] == plugin::default_of(desc.ranges@, infos[k].port_index));
    plugin::saved_values_come_back(symbols, defaults, kept, at);
    if forall|j: int|
        k < j < p.port_infos@.len() && (#[trigger] p.port_infos@[j]).kind == PortKind::ControlIn
            ==> p.port_infos@[j].symbol@ != p.port_infos@[k].symbol@ {
        assert forall|i: int| at < i < symbols.len() implies #[trigger] symbols[i]
            != symbols[at] by {
            plugin::place_of_port(infos, PortKind::ControlIn, i);
            let it = plugin::of_kind(infos, PortKind::ControlIn)[i];
            let j = choose|j: int| 0 <= j < infos.len() && infos[j] == it;
            assert(infos[j] == p.port_infos@[j]@);
            if j < k {
                plugin::places_rise_from_zero(infos, j, k);
            }
            assert(j != k);
            assert(symbols[i] == infos[j].symbol);
        }
    }
}

/// Every plugin that is given messages has a channel under its name, to the instance that
/// stands for it: the only one, or the left one of two. The channel is empty and holds 1024
/// messages.
pub proof fn channels_are_empty(
    cfgs: Seq<PluginConfig>,
    slots: Seq<ChainSlot>,
    places: Seq<int>,
    senders: NameMap<MidiSender>,
    consumers: Seq<(usize, MidiPort)>,
    q: int,
)
    requires
        channels_ok(cfgs, slots, places, senders, consumers),
        0 <= q < places.len(),
    ensures
        consumers.len() == places.len(),
        consumers[q].1.name@ == cfgs[places[q]].name@,
        consumers[q].1.received().len() == 0,
        slots[places[q]] matches ChainSlot::Single(k) ==> consumers[q].0 == k,
        slots[places[q]] matches ChainSlot::DualMono { left, right } ==> consumers[q].0 == left,
        senders@.contains_key(cfgs[places[q]].name@),
        senders@[cfgs[places[q]].name@].sent().len() == 0,
        senders@[cfgs[places[q]].name@].capacity() == 1024,
{
    let keys = names_at(cfgs, places);
    assert(keys[q] == cfgs[places[q]].name@);
    assert(keys.contains(keys[q]));
    assert(consumers[q].0 == slots[places[q]].primary());
}

/// [`count_inputs`] counts the audio inputs of a single plugin in front, and two of a pair.
pub proof fn counted_inputs_are_those_of_plugin<S>(
    slots: &Vec<ChainSlot>,
    plugins: &Vec<Lv2PluginInstance<S>>,
    r: usize,
)
    requires
        call_ensures(count_inputs::<S>, (slots, plugins), r),
        slots@.len() > 0,
        slots@[0].within(plugins@.len()),
        forall|p: int| 0 <= p < plugins@.len() ==> (#[trigger] plugins@[p]).wf(),
    ensures
        slots@[0] matches ChainSlot::Single(i) ==> r == plugins@[i as int].audio_in_bufs@.len(),
        slots@[0] is DualMono ==> r == 2,
{
    inputs_are_those_of_first_slot(slots@, plugins@);
}

/// [`count_outputs`] counts two outputs of a mix or a pair at the end, else the audio outputs
/// of the single plugin there.
pub proof fn counted_outputs_are_those_of_plugin<S>(
    slots: &Vec<ChainSlot>,
    mixes: &Vec<Option<Vec<[u32; 2]>>>,
    plugins: &Vec<Lv2PluginInstance<S>>,
    r: usize,
)
    requires
        call_ensures(count_outputs::<S>, (slots, mixes, plugins), r),
        slots@.len() > 0,
        slots@.last().within(plugins@.len()),
        forall|p: int| 0 <= p < plugins@.len() ==> (#[trigger] plugins@[p]).wf(),
    ensures
        mixes@.last() is Some || slots@.last() is DualMono ==> r == 2,
        mixes@.last() is None ==> (slots@.last() matches ChainSlot::Single(i) ==> r
            == plugins@[i as int].audio_out_bufs@.len()),
{
    outputs_are_those_of_last_slot(slots@, mixes@, plugins@);
}

/// [`make_port_names`] makes as many names as are asked for, counted from one, and no two
/// alike.
pub proof fn made_port_names_are_counted(
    client: &str,
    kind: &str,
    n: usize,
    r: Vec<String>,
    i: int,
)
    requires
        call_ensures(make_port_names, (client, kind, n), r),
        0 <= i < n,
    ensures
        r@.len() == n,
        r@[i]@ == client@ + ":"@ + kind@ + text::decimal_of((i + 1) as nat),
        forall|j: int| 0 <= j < n && j != i ==> (#[trigger] r@[j])@ != r@[i]@,
{
    ports_are_counted_from_one(client@, kind@, n as nat, i);
    let names = text::texts(r@);
    assert(names.len() == r@.len());
    assert(names[i] == r@[i]@);
    assert forall|j: int| 0 <= j < n && j != i implies (#[trigger] r@[j])@ != r@[i]@ by {
        assert(names[j] == r@[j]@);
        assert(port_names(client@, kind@, n as nat)[j] == names[j]);
    }
}

/// [`plan_instances`] plans one instance for each plugin under its name, and right behind it
/// one more where the plugin runs once for each side.
pub proof fn planned_instances_are_those_of_plugins(
    plugins: &Vec<PluginConfig>,
    r: Vec<(usize, String)>,
    i: int,
)
    requires
        call_ensures(plan_instances, (plugins,), r),
        0 <= i < plugins@.len(),
    ensures
        ({
            let at = planned(plugins@.take(i)).len() as int;
            &&& at < r@.len()
            &&& r@[at].0 == i
            &&& r@[at].1@ == plugins@[i].name@
            &&& plugins@[i].dual_mono ==> at + 1 < r@.len() && r@[at + 1].0 == i && r@[at + 1].1@
                == plugins@[i].name@ + "_R"@
        }),
        plugins@.len() <= r@.len() <= 2 * plugins@.len(),
{
    plan_of_plugin(plugins@, i);
    planned_len(plugins@);
    let views = plan_views(r@);
    let at = planned(plugins@.take(i)).len() as int;
    assert(views.len() == r@.len());
    assert(views[at] == (Planned { plugin: r@[at].0 as int, name: r@[at].1@ }));
    if plugins@[i].dual_mono {
        assert(views[at + 1] == (Planned { plugin: r@[at + 1].0 as int, name: r@[at + 1].1@ }));
    }
}

/// [`make_ui_key`] puts the names of a chain and a plugin together, with a slash between
/// them.
pub proof fn made_key_has_both_names(chain_name: &str, plugin_name: &str, r: String)
    requires
        call_ensures(make_ui_key, (chain_name, plugin_name), r),
    ensures
        r@.len() == chain_name@.len() + 1 + plugin_name@.len(),
        r@.take(chain_name@.len() as int) == chain_name@,
        r@[chain_name@.len() as int] == '/',
        r@.skip(chain_name@.len() as int + 1) == plugin_name@,
{
    window_key_has_both_names(chain_name@, plugin_name@);
}

/// [`name_primaries`] finds by the name of a plugin the instance that stands for it.
pub proof fn named_instances_are_found(
    cfgs: &Vec<PluginConfig>,
    slots: &Vec<ChainSlot>,
    r: NameMap<usize>,
    i: int,
)
    requires
        call_ensures(name_primaries, (cfgs, slots), r),
        cfgs@.len() == slots@.len(),
        0 <= i < cfgs@.len(),
        forall|j: int| i < j < cfgs@.len() ==> (#[trigger] cfgs@[j]).name@ != cfgs@[i].name@,
    ensures
        r@.contains_key(cfgs@[i].name@),
        slots@[i] matches ChainSlot::Single(k) ==> r@[cfgs@[i].name@] == k,
        slots@[i] matches ChainSlot::DualMono { left, right } ==> r@[cfgs@[i].name@] == left,
{
    instance_is_found_by_name(cfgs@, slots@, i);
}

/// [`open_midi`] opens an empty channel of 1024 messages for every plugin that is to get
/// messages, to the instance that stands for it, and none for any other.
pub proof fn opened_channels_are_wanted<S>(
    cfgs: &Vec<PluginConfig>,
    slots: &Vec<ChainSlot>,
    plugins: &Vec<Lv2PluginInstance<S>>,
    r: (NameMap<MidiSender>, Vec<(usize, MidiPort)>),
    i: int,
    instance: usize,
)
    requires
        call_ensures(open_midi::<S>, (cfgs, slots, plugins), r),
        0 <= i < cfgs@.len(),
        slots@[i] == ChainSlot::Single(instance) || (slots@[i] is DualMono && slots@[i]->left
            == instance),
        forall|j: int|
            0 <= j < cfgs@.len() && j != i ==> (#[trigger] cfgs@[j]).name@ != cfgs@[i].name@,
    ensures
        ({
            let wanted = match cfgs@[i].midi_in {
                Some(enabled) => enabled,
                None => exists|k: int|
                    0 <= k < plugins@[instance as int].port_infos@.len() && (
                    #[trigger] plugins@[instance as int].port_infos@[k]).kind == PortKind::AtomIn
                        && plugins@[instance as int].port_infos@[k].has_midi,
            };
            &&& r.0@.contains_key(cfgs@[i].name@) <==> wanted
            &&& wanted ==> r.0@[cfgs@[i].name@].capacity() == 1024
            &&& wanted ==> exists|q: int|
                0 <= q < r.1@.len() && (#[trigger] r.1@[q]).0 == instance && r.1@[q].1.name@
                    == cfgs@[i].name@ && r.1@[q].1.coming()
                    == r.0@[cfgs@[i].name@].ever_sent()
        }),
{
    let n = cfgs@.len() as int;
    let name = cfgs@[i].name@;
    let places = midi_plugins(cfgs@, slots@, plugins@, n);
    let keys = names_at(cfgs@, places);
    let wants = |k: int| wants_midi(cfgs@[k], plugins@[slots@[k].primary() as int]);
    selected_holds(n, wants);
    midi_is_wanted(cfgs@[i], plugins@[instance as int]);
    if wants(i) {
        assert(places.contains(i));
        let q = choose|q: int| 0 <= q < places.len() && places[q] == i;
        assert(keys[q] == name);
        assert(keys.contains(name));
        keys.index_of_last_ensures(name);
        let at = keys.index_of_last(name)->0;
        assert(keys[at] == cfgs@[places[at]].name@);
        assert(places[at] == i);
        channels_are_empty(cfgs@, slots@, places, r.0, r.1@, at);
        assert(r.0@.contains_key(name));
        assert(r.1@[at].1.coming() == r.0@[name].ever_sent());
    }
    if keys.contains(name) {
        let q = choose|q: int| 0 <= q < keys.len() && keys[q] == name;
        assert(wants(places[q]));
        assert(cfgs@[places[q]].name@ == name);
    }
}

/// [`make_instances`] makes all instances, or fails with what the first that cannot be made
/// fails with.
pub proof fn making_fails_with_first_instance<S: Copy>(
    plugins: &Vec<PluginConfig>,
    world: &World,
    buffer_size: u32,
    features: &FeatureSet,
    instantiated: &Vec<bool>,
    saved: &Vec<NameMap<u32>>,
    zero: S,
    r: Result<Made<S>, Error>,
    k: int,
)
    requires
        call_ensures(
            make_instances::<S>,
            (plugins, world, buffer_size, features, instantiated, saved, zero),
            r,
        ),
        0 <= k < planned(plugins@).len(),
        forall|j: int|
            0 <= j < k ==> #[trigger] error_at(*world, plugins@, instantiated@, j) is None,
    ensures
        error_at(*world, plugins@, instantiated@, k) matches Some(e) ==> (r matches Err(x) && x@
            == e),
        r is Ok ==> r->Ok_0.slots@.len() == plugins@.len() && r->Ok_0.plugins@.len() == planned(
            plugins@,
        ).len(),
{
    if error_at(*world, plugins@, instantiated@, k) is Some {
        first_failure_is_reported(
            *world,
            plugins@,
            instantiated@,
            planned(plugins@).len() as int,
            k,
        );
    }
    slots_len(plugins@);
}

/// [`prepare_windows`] prepares a window of sliders for a plugin that asks for one, and no
/// other, where no other plugin shares its name.
pub proof fn prepared_sliders_are_asked_for<S>(
    world: &World,
    chain_name: &str,
    cfgs: &Vec<PluginConfig>,
    slots: &Vec<ChainSlot>,
    plugins: &Vec<Lv2PluginInstance<S>>,
    r: (NameMap<PluginUiInfo>, NameMap<GenericUiInfo>),
    i: int,
)
    requires
        call_ensures(prepare_windows::<S>, (world, chain_name, cfgs, slots, plugins), r),
        0 <= i < cfgs@.len(),
        forall|j: int|
            0 <= j < cfgs@.len() && j != i ==> (#[trigger] cfgs@[j]).name@ != cfgs@[i].name@,
    ensures
        r.1@.contains_key(cfgs@[i].name@) <==> cfgs@[i].generic_ui,
        cfgs@[i].generic_ui ==> !r.0@.contains_key(cfgs@[i].name@),
        cfgs@[i].generic_ui ==> r.1@[cfgs@[i].name@].plugin_name@ == chain_name@ + "/"@
            + cfgs@[i].name@ && r.1@[cfgs@[i].name@].bridge_name@ == cfgs@[i].name@,
{
    let n = cfgs@.len() as int;
    let name = cfgs@[i].name@;
    let sliders = slider_plugins(cfgs@, n);
    let slider_names = names_at(cfgs@, sliders);
    let slides = |k: int| cfgs@[k].generic_ui;
    selected_holds(n, slides);
    if cfgs@[i].generic_ui {
        assert(slides(i));
        assert(sliders.contains(i));
        let q = choose|q: int| 0 <= q < sliders.len() && sliders[q] == i;
        assert(slider_names[q] == name);
        assert(slider_names.contains(name));
        slider_names.index_of_last_ensures(name);
        let found = sliders[slider_names.index_of_last(name)->0];
        assert(cfgs@[found].name@ == name);
        assert(found == i);
        assert(r.1@.contains_key(name));
    }
    if slider_names.contains(name) {
        let q = choose|q: int| 0 <= q < slider_names.len() && slider_names[q] == name;
        assert(slides(sliders[q]));
        assert(cfgs@[sliders[q]].name@ == name);
    }
    let windows = window_plugins(*world, chain_name@, cfgs@, slots@, plugins@, n);
    let window_names = names_at(cfgs@, windows);
    let has = |k: int|
        native_ui(*world, chain_name@, cfgs@[k], plugins@[slots@[k].primary() as int]) is Some;
    selected_holds(n, has);
    if window_names.contains(name) {
        let q = choose|q: int| 0 <= q < window_names.len() && window_names[q] == name;
        assert(has(windows[q]));
        assert(cfgs@[windows[q]].name@ == name);
    }
}

} // verus!
