//! A plugin instance: its ports, and the buffers that they are connected to.
use vstd::prelude::*;

use crate::atom;
use crate::error::{Error, ErrorView};
use crate::features;
use crate::features::{Feature, FeatureData, FeatureSet};
use crate::names;
use crate::names::NameMap;
use crate::text;
use crate::world;
use crate::world::{PluginDesc, PortDesc, PortRange, World};

verus! {

/// The least number of frames in an audio buffer.
pub const MAX_BUF_FRAMES: usize = 8192;

/// How many bytes an atom buffer has.
pub const ATOM_BUF_SIZE: usize = 8192;

/// The bits of the IEEE single 1.0.
pub const ONE_BITS: u32 = 0x3f80_0000;

/// What goes through a port, and which way.
#[derive(Debug, Clone, Copy, PartialEq, Eq, Structural)]
pub enum PortKind {
    AudioIn,
    AudioOut,
    ControlIn,
    ControlOut,
    AtomIn,
    AtomOut,
}

/// A port that is connected to a buffer of its kind.
#[derive(Debug)]
pub struct PortInfo {
    pub port_index: usize,
    pub kind: PortKind,
    pub symbol: String,
    /// The place of its buffer among those of its kind.
    pub buf_index: usize,
    pub has_midi: bool,
}

/// A port with its symbol as a sequence.
pub ghost struct PortInfoView {
    pub port_index: usize,
    pub kind: PortKind,
    pub symbol: Seq<char>,
    pub buf_index: usize,
    pub has_midi: bool,
}

impl View for PortInfo {
    type V = PortInfoView;

    open spec fn view(&self) -> PortInfoView {
        PortInfoView {
            port_index: self.port_index,
            kind: self.kind,
            symbol: self.symbol@,
            buf_index: self.buf_index,
            has_midi: self.has_midi,
        }
    }
}

/// A control input, with its range as the bits of IEEE singles.
#[derive(Debug)]
pub struct ControlPortMeta {
    pub symbol: String,
    pub port_index: u32,
    pub min: u32,
    pub max: u32,
    pub default: u32,
}

/// A control input with its symbol as a sequence.
pub ghost struct ControlPortMetaView {
    pub symbol: Seq<char>,
    pub port_index: u32,
    pub min: u32,
    pub max: u32,
    pub default: u32,
}

impl View for ControlPortMeta {
    type V = ControlPortMetaView;

    open spec fn view(&self) -> ControlPortMetaView {
        ControlPortMetaView {
            symbol: self.symbol@,
            port_index: self.port_index,
            min: self.min,
            max: self.max,
            default: self.default,
        }
    }
}

/// The views of ports.
pub open spec fn info_views(infos: Seq<PortInfo>) -> Seq<PortInfoView> {
    infos.map_values(|p: PortInfo| p@)
}

/// The views of control inputs.
pub open spec fn meta_views(metas: Seq<ControlPortMeta>) -> Seq<ControlPortMetaView> {
    metas.map_values(|m: ControlPortMeta| m@)
}

/// The kind of a port: audio before control before atom, input before output.
pub open spec fn kind_of(port: PortDesc) -> Option<PortKind> {
    let audio = port.is_audio || port.is_cv;
    if audio && port.is_input {
        Some(PortKind::AudioIn)
    } else if audio && port.is_output {
        Some(PortKind::AudioOut)
    } else if port.is_control && port.is_input {
        Some(PortKind::ControlIn)
    } else if port.is_control && port.is_output {
        Some(PortKind::ControlOut)
    } else if port.is_atom && port.is_input {
        Some(PortKind::AtomIn)
    } else if port.is_atom && port.is_output {
        Some(PortKind::AtomOut)
    } else {
        None
    }
}

/// The symbol of a port; one made of its index where it has none.
pub open spec fn symbol_of(port: PortDesc) -> Seq<char> {
    match port.symbol {
        Some(s) => s@,
        None => "port_"@ + text::decimal_of(port.index as nat),
    }
}

/// The ports of one kind, in their order.
pub open spec fn of_kind(infos: Seq<PortInfoView>, kind: PortKind) -> Seq<PortInfoView>
    decreases infos.len(),
{
    if infos.len() == 0 {
        Seq::empty()
    } else if infos.last().kind == kind {
        of_kind(infos.drop_last(), kind).push(infos.last())
    } else {
        of_kind(infos.drop_last(), kind)
    }
}

/// What is kept of a port of the kind `kind` behind the ports `before`.
pub open spec fn info_of(
    before: Seq<PortInfoView>,
    port: PortDesc,
    kind: PortKind,
) -> PortInfoView {
    PortInfoView {
        port_index: port.index,
        kind,
        symbol: symbol_of(port),
        buf_index: of_kind(before, kind).len() as usize,
        has_midi: (kind == PortKind::AtomIn || kind == PortKind::AtomOut) && port.supports_midi,
    }
}

/// What is kept of the ports: those that have a kind.
pub open spec fn infos_of(ports: Seq<PortDesc>) -> Seq<PortInfoView>
    decreases ports.len(),
{
    if ports.len() == 0 {
        Seq::empty()
    } else {
        let before = infos_of(ports.drop_last());
        match kind_of(ports.last()) {
            Some(kind) => before.push(info_of(before, ports.last(), kind)),
            None => before,
        }
    }
}

/// The indices of the ports that have no kind.
pub open spec fn unknown_of(ports: Seq<PortDesc>) -> Seq<usize>
    decreases ports.len(),
{
    if ports.len() == 0 {
        Seq::empty()
    } else if kind_of(ports.last()) is None {
        unknown_of(ports.drop_last()).push(ports.last().index)
    } else {
        unknown_of(ports.drop_last())
    }
}

/// Whether each port has the place behind those of its kind that come before.
pub open spec fn places_ok(infos: Seq<PortInfoView>) -> bool {
    forall|k: int|
        0 <= k < infos.len() ==> (#[trigger] infos[k]).buf_index == of_kind(
            infos.take(k),
            infos[k].kind,
        ).len()
}

/// The symbols of the control inputs.
pub open spec fn control_symbols(infos: Seq<PortInfoView>) -> Seq<Seq<char>> {
    of_kind(infos, PortKind::ControlIn).map_values(|p: PortInfoView| p.symbol)
}

/// The places of the atom inputs that take MIDI.
pub open spec fn midi_places(infos: Seq<PortInfoView>) -> Seq<usize>
    decreases infos.len(),
{
    if infos.len() == 0 {
        Seq::empty()
    } else if infos.last().kind == PortKind::AtomIn && infos.last().has_midi {
        midi_places(infos.drop_last()).push(infos.last().buf_index)
    } else {
        midi_places(infos.drop_last())
    }
}

/// The first value of a control port, or zero where none is given.
pub open spec fn default_of(ranges: Seq<PortRange>, port_index: usize) -> u32 {
    if port_index < ranges.len() && world::is_finite(ranges[port_index as int].default) {
        ranges[port_index as int].default
    } else {
        0
    }
}

/// The first values of the control ports of one kind.
pub open spec fn defaults_of(
    infos: Seq<PortInfoView>,
    kind: PortKind,
    ranges: Seq<PortRange>,
) -> Seq<u32> {
    of_kind(infos, kind).map_values(|p: PortInfoView| default_of(ranges, p.port_index))
}

/// What is said of a control input: zero to one, from zero, where nothing else
/// is given.
pub open spec fn meta_of(ranges: Seq<PortRange>, p: PortInfoView) -> ControlPortMetaView {
    let r = ranges[p.port_index as int];
    ControlPortMetaView {
        symbol: p.symbol,
        port_index: p.port_index as u32,
        min: if world::is_finite(r.min) {
            r.min
        } else {
            0
        },
        max: if world::is_finite(r.max) {
            r.max
        } else {
            ONE_BITS
        },
        default: if world::is_finite(r.default) {
            r.default
        } else {
            0
        },
    }
}

/// What is said of the control inputs.
pub open spec fn metas_of(
    infos: Seq<PortInfoView>,
    ranges: Seq<PortRange>,
) -> Seq<ControlPortMetaView> {
    of_kind(infos, PortKind::ControlIn).map_values(|p: PortInfoView| meta_of(ranges, p))
}

/// Whether every control input has a range.
pub open spec fn has_ranges(desc: PluginDesc) -> bool {
    let inputs = of_kind(infos_of(desc.ports@), PortKind::ControlIn);
    forall|i: int|
        0 <= i < inputs.len() ==> (#[trigger] inputs[i]).port_index < desc.ranges@.len()
}

/// Whether every control input of every plugin has a range.
pub open spec fn is_complete(world: World) -> bool {
    forall|i: int| 0 <= i < world.plugins@.len() ==> has_ranges(#[trigger] world.plugins@[i])
}

/// How many frames an audio buffer has.
pub open spec fn frames_for(buffer_size: u32) -> usize {
    if (buffer_size as usize) < MAX_BUF_FRAMES {
        MAX_BUF_FRAMES
    } else {
        buffer_size as usize
    }
}

/// `n` times `x`.
pub open spec fn repeated<T>(n: nat, x: T) -> Seq<T> {
    Seq::new(n, |i: int| x)
}

/// Whether each of the buffers has `n` items.
pub open spec fn all_long<T>(bufs: Seq<Vec<T>>, n: nat) -> bool {
    forall|i: int| 0 <= i < bufs.len() ==> (#[trigger] bufs[i])@.len() == n
}

/// Whether each of the buffers is `n` times `x`.
pub open spec fn all_filled<T>(bufs: Seq<Vec<T>>, n: nat, x: T) -> bool {
    forall|i: int| 0 <= i < bufs.len() ==> (#[trigger] bufs[i])@ == repeated(n, x)
}

/// There are at most as many ports of a kind as ports.
proof fn of_kind_len(infos: Seq<PortInfoView>, kind: PortKind)
    ensures
        of_kind(infos, kind).len() <= infos.len(),
    decreases infos.len(),
{
    if infos.len() > 0 {
        of_kind_len(infos.drop_last(), kind);
    }
}

/// One more port.
proof fn of_kind_push(infos: Seq<PortInfoView>, p: PortInfoView, kind: PortKind)
    ensures
        of_kind(infos.push(p), kind) == if p.kind == kind {
            of_kind(infos, kind).push(p)
        } else {
            of_kind(infos, kind)
        },
{
    assert(infos.push(p).drop_last() =~= infos);
}

/// A port is found at its place.
pub proof fn port_at_place(infos: Seq<PortInfoView>, k: int)
    requires
        places_ok(infos),
        0 <= k < infos.len(),
    ensures
        infos[k].buf_index < of_kind(infos, infos[k].kind).len(),
        of_kind(infos, infos[k].kind)[infos[k].buf_index as int] == infos[k],
    decreases infos.len(),
{
    let rest = infos.drop_last();
    if k < infos.len() - 1 {
        assert forall|j: int| 0 <= j < rest.len() implies (#[trigger] rest[j]).buf_index == of_kind(
            rest.take(j),
            rest[j].kind,
        ).len() by {
            assert(rest.take(j) =~= infos.take(j));
            assert(rest[j] == infos[j]);
        }
        assert(rest[k] == infos[k]);
        port_at_place(rest, k);
    } else {
        assert(rest =~= infos.take(k));
    }
}

/// The place of each port of a kind is its number among them.
pub proof fn place_of_port(infos: Seq<PortInfoView>, kind: PortKind, j: int)
    requires
        places_ok(infos),
        0 <= j < of_kind(infos, kind).len(),
    ensures
        of_kind(infos, kind)[j].kind == kind,
        of_kind(infos, kind)[j].buf_index == j,
        infos.contains(of_kind(infos, kind)[j]),
    decreases infos.len(),
{
    let rest = infos.drop_last();
    assert forall|i: int| 0 <= i < rest.len() implies (#[trigger] rest[i]).buf_index == of_kind(
        rest.take(i),
        rest[i].kind,
    ).len() by {
        assert(rest.take(i) =~= infos.take(i));
        assert(rest[i] == infos[i]);
    }
    if infos.last().kind == kind && j == of_kind(rest, kind).len() {
        assert(rest =~= infos.take(infos.len() - 1));
        assert(infos[infos.len() - 1] == of_kind(infos, kind)[j]);
    } else {
        place_of_port(rest, kind, j);
        let p = of_kind(rest, kind)[j];
        let i = choose|i: int| 0 <= i < rest.len() && rest[i] == p;
        assert(infos[i] == p);
    }
}

/// No two ports share a place in the buffers of their kind.
pub proof fn places_are_distinct(infos: Seq<PortInfoView>, a: int, b: int)
    requires
        places_ok(infos),
        0 <= a < infos.len(),
        0 <= b < infos.len(),
        a != b,
        infos[a].kind == infos[b].kind,
    ensures
        infos[a].buf_index != infos[b].buf_index,
    decreases infos.len(),
{
    let (x, y) = if a < b {
        (a, b)
    } else {
        (b, a)
    };
    let start = infos.take(y);
    assert forall|i: int| 0 <= i < start.len() implies (#[trigger] start[i]).buf_index == of_kind(
        start.take(i),
        start[i].kind,
    ).len() by {
        assert(start.take(i) =~= infos.take(i));
        assert(start[i] == infos[i]);
    }
    assert(start[x] == infos[x]);
    port_at_place(start, x);
}

/// What is kept of ports has its places in order.
pub proof fn infos_have_places(ports: Seq<PortDesc>)
    requires
        ports.len() <= usize::MAX,
    ensures
        places_ok(infos_of(ports)),
        infos_of(ports).len() <= ports.len(),
    decreases ports.len(),
{
    if ports.len() > 0 {
        infos_have_places(ports.drop_last());
        let before = infos_of(ports.drop_last());
        let infos = infos_of(ports);
        if let Some(kind) = kind_of(ports.last()) {
            of_kind_len(before, kind);
            assert forall|k: int| 0 <= k < infos.len() implies (#[trigger] infos[k]).buf_index
                == of_kind(infos.take(k), infos[k].kind).len() by {
                assert(infos.take(k) =~= before.take(k));
                if k == before.len() {
                    assert(before.take(k) =~= before);
                } else {
                    assert(infos[k] == before[k]);
                }
            }
        }
    }
}

/// The places of the MIDI inputs are places of atom inputs.
pub proof fn midi_places_are_inputs(infos: Seq<PortInfoView>)
    requires
        places_ok(infos),
    ensures
        forall|i: int|
            0 <= i < midi_places(infos).len() ==> (#[trigger] midi_places(infos)[i]) < of_kind(
                infos,
                PortKind::AtomIn,
            ).len(),
        midi_places(infos).no_duplicates(),
    decreases infos.len(),
{
    if infos.len() > 0 {
        let rest = infos.drop_last();
        assert forall|i: int| 0 <= i < rest.len() implies (#[trigger] rest[i]).buf_index == of_kind(
            rest.take(i),
            rest[i].kind,
        ).len() by {
            assert(rest.take(i) =~= infos.take(i));
            assert(rest[i] == infos[i]);
        }
        midi_places_are_inputs(rest);
        assert(rest =~= infos.take(infos.len() - 1));
        assert(infos[infos.len() - 1] == infos.last());
    }
}

/// The kind of a port.
fn classify(port: &PortDesc) -> (r: Option<PortKind>)
    ensures
        r == kind_of(*port),
{
    let audio = port.is_audio || port.is_cv;
    if audio && port.is_input {
        Some(PortKind::AudioIn)
    } else if audio && port.is_output {
        Some(PortKind::AudioOut)
    } else if port.is_control && port.is_input {
        Some(PortKind::ControlIn)
    } else if port.is_control && port.is_output {
        Some(PortKind::ControlOut)
    } else if port.is_atom && port.is_input {
        Some(PortKind::AtomIn)
    } else if port.is_atom && port.is_output {
        Some(PortKind::AtomOut)
    } else {
        None
    }
}

/// The symbol of a port.
fn symbol(port: &PortDesc) -> (r: String)
    ensures
        r@ == symbol_of(*port),
{
    match &port.symbol {
        Some(s) => s.clone(),
        None => {
            let n = text::decimal(port.index as u64);
            text::join("port_", n.as_str())
        },
    }
}

/// How many ports of each kind there are.
struct PortCounts {
    audio_in: usize,
    audio_out: usize,
    control_in: usize,
    control_out: usize,
    atom_in: usize,
    atom_out: usize,
}

impl PortCounts {
    /// Whether these are the numbers of ports of each kind.
    spec fn count(self, infos: Seq<PortInfoView>) -> bool {
        &&& self.audio_in == of_kind(infos, PortKind::AudioIn).len()
        &&& self.audio_out == of_kind(infos, PortKind::AudioOut).len()
        &&& self.control_in == of_kind(infos, PortKind::ControlIn).len()
        &&& self.control_out == of_kind(infos, PortKind::ControlOut).len()
        &&& self.atom_in == of_kind(infos, PortKind::AtomIn).len()
        &&& self.atom_out == of_kind(infos, PortKind::AtomOut).len()
    }

    /// Counts a port and gives its place.
    fn take(&mut self, kind: PortKind, infos: Ghost<Seq<PortInfoView>>) -> (place: usize)
        requires
            old(self).count(infos@),
            infos@.len() < usize::MAX,
        ensures
            place == of_kind(infos@, kind).len(),
            forall|p: PortInfoView| p.kind == kind ==> final(self).count(#[trigger] infos@.push(p)),
    {
        proof {
            of_kind_len(infos@, kind);
            assert forall|p: PortInfoView, k: PortKind| true implies #[trigger] of_kind(
                infos@.push(p),
                k,
            ).len() == of_kind(infos@, k).len() + if p.kind == k {
                1int
            } else {
                0int
            } by {
                of_kind_push(infos@, p, k);
            }
        }
        match kind {
            PortKind::AudioIn => {
                self.audio_in += 1;
                self.audio_in - 1
            },
            PortKind::AudioOut => {
                self.audio_out += 1;
                self.audio_out - 1
            },
            PortKind::ControlIn => {
                self.control_in += 1;
                self.control_in - 1
            },
            PortKind::ControlOut => {
                self.control_out += 1;
                self.control_out - 1
            },
            PortKind::AtomIn => {
                self.atom_in += 1;
                self.atom_in - 1
            },
            PortKind::AtomOut => {
                self.atom_out += 1;
                self.atom_out - 1
            },
        }
    }
}

/// Sorts ports by kind: those that have one, how many there are of each, and
/// the indices of the others.
fn sort_ports(ports: &Vec<PortDesc>) -> (r: (Vec<PortInfo>, PortCounts, Vec<usize>))
    ensures
        info_views(r.0@) == infos_of(ports@),
        r.1.count(infos_of(ports@)),
        r.2@ == unknown_of(ports@),
        places_ok(infos_of(ports@)),
{
    let mut infos: Vec<PortInfo> = Vec::new();
    let mut unknown: Vec<usize> = Vec::new();
    let mut counts = PortCounts {
        audio_in: 0,
        audio_out: 0,
        control_in: 0,
        control_out: 0,
        atom_in: 0,
        atom_out: 0,
    };
    let len: usize = ports.len();
    let mut i: usize = 0;
    assert(ports@.take(0) =~= Seq::empty());
    assert(info_views(infos@) =~= Seq::empty());
    while i < len
        invariant
            len == ports@.len(),
            i <= len,
            info_views(infos@) == infos_of(ports@.take(i as int)),
            counts.count(info_views(infos@)),
            unknown@ == unknown_of(ports@.take(i as int)),
        decreases len - i,
    {
        let port = &ports[i];
        let ghost before = info_views(infos@);
        proof {
            assert(ports@.take(i + 1).drop_last() =~= ports@.take(i as int));
            assert(ports@.take(i + 1).last() == *port);
            infos_have_places(ports@.take(i as int));
        }
        match classify(port) {
            Some(kind) => {
                let place: usize = counts.take(kind, Ghost(before));
                let is_atom: bool = kind == PortKind::AtomIn || kind == PortKind::AtomOut;
                let info = PortInfo {
                    port_index: port.index,
                    kind,
                    symbol: symbol(port),
                    buf_index: place,
                    has_midi: is_atom && port.supports_midi,
                };
                assert(info@ == info_of(before, *port, kind));
                infos.push(info);
                assert(info_views(infos@) =~= before.push(info@));
            },
            None => {
                unknown.push(port.index);
            },
        }
        i += 1;
    }
    assert(ports@.take(len as int) =~= ports@);
    proof {
        infos_have_places(ports@);
    }
    (infos, counts, unknown)
}

/// Whether every control input of a plugin has a range.
#[verifier::spinoff_prover]
#[verifier::rlimit(40)]
fn ranges_cover(desc: &PluginDesc) -> (r: bool)
    ensures
        r == has_ranges(*desc),
{
    let (infos, _, _) = sort_ports(&desc.ports);
    let ghost views = info_views(infos@);
    let ghost inputs = of_kind(views, PortKind::ControlIn);
    let len: usize = infos.len();
    let mut i: usize = 0;
    while i < len
        invariant
            views == info_views(infos@),
            views == infos_of(desc.ports@),
            places_ok(views),
            inputs == of_kind(views, PortKind::ControlIn),
            len == infos@.len(),
            i <= len,
            forall|k: int|
                0 <= k < i && (#[trigger] views[k]).kind == PortKind::ControlIn
                    ==> views[k].port_index < desc.ranges@.len(),
        decreases len - i,
    {
        if infos[i].kind == PortKind::ControlIn && infos[i].port_index >= desc.ranges.len() {
            proof {
                port_at_place(views, i as int);
                assert(inputs[views[i as int].buf_index as int] == views[i as int]);
            }
            return false;
        }
        i += 1;
    }
    proof {
        assert forall|j: int| 0 <= j < inputs.len() implies (#[trigger] inputs[j]).port_index
            < desc.ranges@.len() by {
            place_of_port(views, PortKind::ControlIn, j);
            let k = choose|k: int| 0 <= k < views.len() && views[k] == inputs[j];
            assert(views[k].kind == PortKind::ControlIn);
        }
    }
    true
}

/// Whether every control input of every plugin has a range.
pub fn check_complete(world: &World) -> (r: bool)
    ensures
        r == is_complete(*world),
{
    let mut i: usize = 0;
    while i < world.plugins.len()
        invariant
            i <= world.plugins@.len(),
            forall|k: int| 0 <= k < i ==> has_ranges(#[trigger] world.plugins@[k]),
        decreases world.plugins@.len() - i,
    {
        if !ranges_cover(&world.plugins[i]) {
            return false;
        }
        i += 1;
    }
    true
}

/// `n` times `x`.
pub fn filled<T: Copy>(n: usize, x: T) -> (r: Vec<T>)
    ensures
        r@ == repeated(n as nat, x),
{
    let mut r: Vec<T> = Vec::new();
    let mut i: usize = 0;
    while i < n
        invariant
            i <= n,
            r@ == repeated(i as nat, x),
        decreases n - i,
    {
        r.push(x);
        i += 1;
        assert(r@ =~= repeated(i as nat, x));
    }
    r
}

/// `count` buffers of `n` times `x`.
fn buffers<T: Copy>(count: usize, n: usize, x: T) -> (r: Vec<Vec<T>>)
    ensures
        r@.len() == count,
        all_filled(r@, n as nat, x),
{
    let mut r: Vec<Vec<T>> = Vec::new();
    let mut i: usize = 0;
    while i < count
        invariant
            i <= count,
            r@.len() == i,
            all_filled(r@, n as nat, x),
        decreases count - i,
    {
        r.push(filled(n, x));
        i += 1;
    }
    r
}

/// The first value of a control port.
fn default_value(ranges: &Vec<PortRange>, port_index: usize) -> (r: u32)
    ensures
        r == default_of(ranges@, port_index),
{
    if port_index < ranges.len() && world::finite(ranges[port_index].default) {
        ranges[port_index].default
    } else {
        0
    }
}

/// The first values of the control ports of one kind.
fn default_values(infos: &Vec<PortInfo>, kind: PortKind, ranges: &Vec<PortRange>) -> (r: Vec<u32>)
    ensures
        r@ == defaults_of(info_views(infos@), kind, ranges@),
{
    let mut r: Vec<u32> = Vec::new();
    let ghost views = info_views(infos@);
    let len: usize = infos.len();
    let mut i: usize = 0;
    while i < len
        invariant
            views == info_views(infos@),
            len == infos@.len(),
            i <= len,
            r@ == defaults_of(views.take(i as int), kind, ranges@),
        decreases len - i,
    {
        proof {
            assert(views.take(i + 1) =~= views.take(i as int).push(views[i as int]));
            of_kind_push(views.take(i as int), views[i as int], kind);
        }
        if infos[i].kind == kind {
            r.push(default_value(ranges, infos[i].port_index));
            assert(r@ =~= defaults_of(views.take(i + 1), kind, ranges@));
        }
        i += 1;
    }
    assert(views.take(len as int) =~= views);
    r
}

/// A number, or another one where it is not finite.
fn finite_or(bits: u32, other: u32) -> (r: u32)
    ensures
        r == if world::is_finite(bits) {
            bits
        } else {
            other
        },
{
    if world::finite(bits) {
        bits
    } else {
        other
    }
}

/// What is said of the control inputs.
fn control_metas(infos: &Vec<PortInfo>, ranges: &Vec<PortRange>) -> (r: Vec<ControlPortMeta>)
    requires
        forall|i: int|
            0 <= i < of_kind(info_views(infos@), PortKind::ControlIn).len() ==> (#[trigger] of_kind(
                info_views(infos@),
                PortKind::ControlIn,
            )[i]).port_index < ranges@.len(),
    ensures
        meta_views(r@) == metas_of(info_views(infos@), ranges@),
{
    let mut r: Vec<ControlPortMeta> = Vec::new();
    let ghost views = info_views(infos@);
    let ghost inputs = of_kind(views, PortKind::ControlIn);
    let len: usize = infos.len();
    let mut i: usize = 0;
    assert(meta_views(r@) =~= Seq::empty());
    assert(metas_of(views.take(0), ranges@) =~= Seq::empty());
    while i < len
        invariant
            views == info_views(infos@),
            inputs == of_kind(views, PortKind::ControlIn),
            forall|k: int| 0 <= k < inputs.len() ==> (#[trigger] inputs[k]).port_index
                < ranges@.len(),
            len == infos@.len(),
            i <= len,
            meta_views(r@) == metas_of(views.take(i as int), ranges@),
        decreases len - i,
    {
        let ghost before = of_kind(views.take(i as int), PortKind::ControlIn);
        proof {
            assert(views.take(i + 1) =~= views.take(i as int).push(views[i as int]));
            of_kind_push(views.take(i as int), views[i as int], PortKind::ControlIn);
        }
        let p = &infos[i];
        if p.kind == PortKind::ControlIn {
            proof {
                of_kind_prefix(views, PortKind::ControlIn, i + 1);
                let now = of_kind(views.take(i + 1), PortKind::ControlIn);
                assert(now[before.len() as int] == p@);
                assert(inputs.take(now.len() as int)[before.len() as int]
                    == inputs[before.len() as int]);
            }
            let range = ranges[p.port_index];
            let meta = ControlPortMeta {
                symbol: p.symbol.clone(),
                port_index: p.port_index as u32,
                min: finite_or(range.min, 0),
                max: finite_or(range.max, ONE_BITS),
                default: finite_or(range.default, 0),
            };
            assert(meta@ == meta_of(ranges@, p@));
            let ghost so_far = meta_views(r@);
            r.push(meta);
            assert(meta_views(r@) =~= so_far.push(meta@));
            assert(meta_views(r@) =~= metas_of(views.take(i + 1), ranges@));
        }
        i += 1;
    }
    assert(views.take(len as int) =~= views);
    r
}

/// The ports of a kind among the first ports come first among those of the kind.
proof fn of_kind_prefix(infos: Seq<PortInfoView>, kind: PortKind, n: int)
    requires
        0 <= n <= infos.len(),
    ensures
        of_kind(infos.take(n), kind).is_prefix_of(of_kind(infos, kind)),
    decreases infos.len(),
{
    if n == infos.len() {
        assert(infos.take(n) =~= infos);
    } else {
        let rest = infos.drop_last();
        of_kind_prefix(rest, kind, n);
        assert(rest.take(n) =~= infos.take(n));
    }
}

/// The places of the control inputs by symbol, the last of a symbol.
fn symbol_places(infos: &Vec<PortInfo>) -> (r: NameMap<usize>)
    requires
        places_ok(info_views(infos@)),
    ensures
        r.wf(),
        r@ == symbol_map(info_views(infos@)),
{
    let mut r: NameMap<usize> = NameMap::new();
    let ghost views = info_views(infos@);
    let len: usize = infos.len();
    let mut i: usize = 0;
    proof {
        assert(control_symbols(views.take(0)) =~= Seq::empty());
        assert(input_places(views.take(0)) =~= Seq::empty());
        names::collected_none::<usize>();
    }
    while i < len
        invariant
            places_ok(views),
            views == info_views(infos@),
            len == infos@.len(),
            i <= len,
            r.wf(),
            r@ == symbol_map(views.take(i as int)),
        decreases len - i,
    {
        let ghost so_far = views.take(i as int);
        proof {
            assert(views.take(i + 1) =~= so_far.push(views[i as int]));
            of_kind_push(so_far, views[i as int], PortKind::ControlIn);
        }
        if infos[i].kind == PortKind::ControlIn {
            r.insert(infos[i].symbol.clone(), infos[i].buf_index);
            proof {
                assert(control_symbols(views.take(i + 1)) =~= control_symbols(so_far).push(
                    infos@[i as int].symbol@,
                ));
                assert(input_places(views.take(i + 1)) =~= input_places(so_far).push(
                    infos@[i as int].buf_index,
                ));
                names::collected_push(
                    control_symbols(so_far),
                    input_places(so_far),
                    infos@[i as int].symbol@,
                    infos@[i as int].buf_index,
                );
            }
        }
        i += 1;
    }
    assert(views.take(len as int) =~= views);
    r
}

/// The places of the control inputs.
pub open spec fn input_places(infos: Seq<PortInfoView>) -> Seq<usize> {
    of_kind(infos, PortKind::ControlIn).map_values(|p: PortInfoView| p.buf_index)
}

/// The places of the control inputs by symbol; the last one counts where a
/// symbol occurs more than once.
pub open spec fn symbol_map(infos: Seq<PortInfoView>) -> Map<Seq<char>, usize> {
    names::collected(control_symbols(infos), input_places(infos))
}

/// The places of the MIDI inputs.
fn midi_inputs(infos: &Vec<PortInfo>) -> (r: Vec<usize>)
    ensures
        r@ == midi_places(info_views(infos@)),
{
    let mut r: Vec<usize> = Vec::new();
    let ghost views = info_views(infos@);
    let len: usize = infos.len();
    let mut i: usize = 0;
    while i < len
        invariant
            views == info_views(infos@),
            len == infos@.len(),
            i <= len,
            r@ == midi_places(views.take(i as int)),
        decreases len - i,
    {
        assert(views.take(i + 1).drop_last() =~= views.take(i as int));
        assert(views.take(i + 1).last() == infos@[i as int]@);
        if infos[i].kind == PortKind::AtomIn && infos[i].has_midi {
            r.push(infos[i].buf_index);
        }
        i += 1;
    }
    assert(views.take(len as int) =~= views);
    r
}

/// A plugin that is connected to its buffers. A sample is of the type `S`.
pub struct Lv2PluginInstance<S> {
    pub name: String,
    pub uri: String,
    pub port_infos: Vec<PortInfo>,
    /// The ports that no buffer of their own is kept for.
    pub unknown_ports: Vec<usize>,
    pub control_in_symbol_map: NameMap<usize>,
    pub audio_in_bufs: Vec<Vec<S>>,
    pub audio_out_bufs: Vec<Vec<S>>,
    /// The control values, as the bits of IEEE singles.
    pub control_in_vals: Vec<u32>,
    pub control_out_vals: Vec<u32>,
    pub atom_in_bufs: Vec<Vec<u8>>,
    pub atom_out_bufs: Vec<Vec<u8>>,
    pub dummy_buf: Vec<u8>,
    pub atom_sequence_urid: u32,
    pub midi_event_urid: u32,
    pub midi_in_buf_indices: Vec<usize>,
    pub control_port_meta: Vec<ControlPortMeta>,
    pub needs_worker: bool,
    /// How many frames an audio buffer has.
    pub frames: usize,
}

impl<S> Lv2PluginInstance<S> {
    /// The ports.
    pub open spec fn infos(self) -> Seq<PortInfoView> {
        info_views(self.port_infos@)
    }

    /// How many ports of a kind there are.
    pub open spec fn count(self, kind: PortKind) -> nat {
        of_kind(self.infos(), kind).len()
    }

    /// Every port has a buffer of its own, all buffers of a kind are equally
    /// long, and symbols and MIDI inputs are found where the ports say.
    pub open spec fn wf(self) -> bool {
        &&& places_ok(self.infos())
        &&& self.audio_in_bufs@.len() == self.count(PortKind::AudioIn)
        &&& self.audio_out_bufs@.len() == self.count(PortKind::AudioOut)
        &&& self.control_in_vals@.len() == self.count(PortKind::ControlIn)
        &&& self.control_out_vals@.len() == self.count(PortKind::ControlOut)
        &&& self.atom_in_bufs@.len() == self.count(PortKind::AtomIn)
        &&& self.atom_out_bufs@.len() == self.count(PortKind::AtomOut)
        &&& self.frames >= MAX_BUF_FRAMES
        &&& all_long(self.audio_in_bufs@, self.frames as nat)
        &&& all_long(self.audio_out_bufs@, self.frames as nat)
        &&& all_long(self.atom_in_bufs@, ATOM_BUF_SIZE as nat)
        &&& all_long(self.atom_out_bufs@, ATOM_BUF_SIZE as nat)
        &&& self.control_in_symbol_map.wf()
        &&& self.control_in_symbol_map@ == symbol_map(self.infos())
        &&& self.midi_in_buf_indices@ == midi_places(self.infos())
    }

    /// Whether this is a new instance of the plugin `desc`, with whatever control
    /// values.
    pub open spec fn is_fitted(
        self,
        desc: PluginDesc,
        name: Seq<char>,
        buffer_size: u32,
        uris: Seq<Seq<char>>,
        zero: S,
    ) -> bool {
        &&& self.wf()
        &&& self.name@ == name
        &&& self.uri@ == desc.uri@
        &&& self.infos() == infos_of(desc.ports@)
        &&& self.unknown_ports@ == unknown_of(desc.ports@)
        &&& self.frames == frames_for(buffer_size)
        &&& all_filled(self.audio_in_bufs@, self.frames as nat, zero)
        &&& all_filled(self.audio_out_bufs@, self.frames as nat, zero)
        &&& self.control_out_vals@ == defaults_of(
            self.infos(),
            PortKind::ControlOut,
            desc.ranges@,
        )
        &&& all_filled(self.atom_in_bufs@, ATOM_BUF_SIZE as nat, 0u8)
        &&& all_filled(self.atom_out_bufs@, ATOM_BUF_SIZE as nat, 0u8)
        &&& self.dummy_buf@ == repeated(4 * self.frames as nat, 0u8)
        &&& self.atom_sequence_urid == features::urid_or_zero(uris, features::ATOM_SEQUENCE_URI@)
        &&& self.midi_event_urid == features::urid_or_zero(uris, features::MIDI_EVENT_URI@)
        &&& meta_views(self.control_port_meta@) == metas_of(self.infos(), desc.ranges@)
        &&& self.needs_worker == text::texts(desc.features@).contains(
            features::LV2_WORKER_SCHEDULE_URI@,
        )
    }

    /// Whether this is a new instance of the plugin `desc`.
    pub open spec fn is_new(
        self,
        desc: PluginDesc,
        name: Seq<char>,
        buffer_size: u32,
        uris: Seq<Seq<char>>,
        zero: S,
    ) -> bool {
        &&& self.is_fitted(desc, name, buffer_size, uris, zero)
        &&& self.control_in_vals@ == defaults_of(
            self.infos(),
            PortKind::ControlIn,
            desc.ranges@,
        )
    }
}

/// Control values with saved ones in place of those whose symbol was saved. A
/// symbol that occurs more than once is that of the last control that has it.
pub open spec fn restored(
    symbols: Seq<Seq<char>>,
    values: Seq<u32>,
    saved: Map<Seq<char>, u32>,
) -> Seq<u32> {
    Seq::new(
        values.len(),
        |i: int|
            if symbols.index_of_last(symbols[i]) == Some(i) && saved.contains_key(symbols[i]) {
                saved[symbols[i]]
            } else {
                values[i]
            },
    )
}

/// What a failed instantiation is reported as.
pub open spec fn instantiation_error(
    world: World,
    uri: Seq<char>,
    name: Seq<char>,
    instantiated: bool,
) -> Option<ErrorView> {
    if !world.has(uri) {
        Some(ErrorView::Lv2PluginNotFound { uri })
    } else if !instantiated {
        Some(
            ErrorView::Lv2Instantiation {
                name,
                uri,
                reason: "lilv_plugin_instantiate returned null"@,
            },
        )
    } else {
        None
    }
}

impl<S: Copy> Lv2PluginInstance<S> {
    /// The buffers for a plugin of the world. `instantiated` says whether the
    /// plugin's own code could be started; `zero` is a silent sample.
    pub fn new(
        world: &World,
        plugin_uri: &str,
        name: &str,
        buffer_size: u32,
        feature_set: &FeatureSet,
        instantiated: bool,
        zero: S,
    ) -> (r: Result<Self, Error>)
        requires
            feature_set.mapper.wf(),
            4 * frames_for(buffer_size) <= isize::MAX,
            world.has(plugin_uri@) && instantiated ==> has_ranges(world.plugin_of(plugin_uri@)),
        ensures
            match r {
                Ok(p) => {
                    &&& instantiation_error(*world, plugin_uri@, name@, instantiated) is None
                    &&& p.is_new(
                        world.plugin_of(plugin_uri@),
                        name@,
                        buffer_size,
                        feature_set.mapper@,
                        zero,
                    )
                },
                Err(e) => instantiation_error(*world, plugin_uri@, name@, instantiated) == Some(
                    e@,
                ),
            },
    {
        let desc = match world.plugin(plugin_uri) {
            Some(desc) => desc,
            None => {
                return Err(Error::Lv2PluginNotFound { uri: plugin_uri.to_owned() });
            },
        };
        if !instantiated {
            return Err(
                Error::Lv2Instantiation {
                    name: name.to_owned(),
                    uri: plugin_uri.to_owned(),
                    reason: "lilv_plugin_instantiate returned null".to_owned(),
                },
            );
        }
        let (port_infos, counts, unknown_ports) = sort_ports(&desc.ports);
        let wanted: usize = buffer_size as usize;
        let frames: usize = if wanted < MAX_BUF_FRAMES {
            MAX_BUF_FRAMES
        } else {
            wanted
        };
        let control_in_symbol_map = symbol_places(&port_infos);
        let control_in_vals = default_values(&port_infos, PortKind::ControlIn, &desc.ranges);
        let control_out_vals = default_values(&port_infos, PortKind::ControlOut, &desc.ranges);
        let control_port_meta = control_metas(&port_infos, &desc.ranges);
        let midi_in_buf_indices = midi_inputs(&port_infos);
        Ok(
            Lv2PluginInstance {
                name: name.to_owned(),
                uri: plugin_uri.to_owned(),
                port_infos,
                unknown_ports,
                control_in_symbol_map,
                audio_in_bufs: buffers(counts.audio_in, frames, zero),
                audio_out_bufs: buffers(counts.audio_out, frames, zero),
                control_in_vals,
                control_out_vals,
                atom_in_bufs: buffers(counts.atom_in, ATOM_BUF_SIZE, 0u8),
                atom_out_bufs: buffers(counts.atom_out, ATOM_BUF_SIZE, 0u8),
                dummy_buf: filled(frames * 4, 0u8),
                atom_sequence_urid: feature_set.mapper.lookup(
                    features::ATOM_SEQUENCE_URI,
                ).unwrap_or(0),
                midi_event_urid: feature_set.mapper.lookup(features::MIDI_EVENT_URI).unwrap_or(0),
                midi_in_buf_indices,
                control_port_meta,
                needs_worker: wants_worker(desc),
                frames,
            },
        )
    }
}

/// The control values by symbol; the last one counts where a symbol occurs more
/// than once.
pub open spec fn controls_by_symbol(infos: Seq<PortInfoView>, values: Seq<u32>) -> Map<
    Seq<char>,
    u32,
> {
    names::collected(control_symbols(infos), values)
}

/// The place of the first atom input of that index.
pub open spec fn atom_input(infos: Seq<PortInfoView>, port_index: usize) -> Option<usize>
    decreases infos.len(),
{
    if infos.len() == 0 {
        None
    } else if infos[0].port_index == port_index && infos[0].kind == PortKind::AtomIn {
        Some(infos[0].buf_index)
    } else {
        atom_input(infos.skip(1), port_index)
    }
}

/// An atom input that is found by its index is one of the ports.
proof fn atom_input_is_port(infos: Seq<PortInfoView>, port_index: usize)
    requires
        atom_input(infos, port_index) is Some,
    ensures
        exists|k: int|
            0 <= k < infos.len() && (#[trigger] infos[k]).kind == PortKind::AtomIn
                && infos[k].buf_index == atom_input(infos, port_index)->0,
    decreases infos.len(),
{
    if infos.len() > 0 && !(infos[0].port_index == port_index && infos[0].kind
        == PortKind::AtomIn) {
        let rest = infos.skip(1);
        atom_input_is_port(rest, port_index);
        let k = choose|k: int|
            0 <= k < rest.len() && (#[trigger] rest[k]).kind == PortKind::AtomIn
                && rest[k].buf_index == atom_input(rest, port_index)->0;
        assert(infos[k + 1] == rest[k]);
    }
}

/// An atom input that is found by its index has a buffer.
pub proof fn atom_input_has_buffer(infos: Seq<PortInfoView>, port_index: usize)
    requires
        places_ok(infos),
        atom_input(infos, port_index) is Some,
    ensures
        atom_input(infos, port_index)->0 < of_kind(infos, PortKind::AtomIn).len(),
{
    atom_input_is_port(infos, port_index);
    let k = choose|k: int|
        0 <= k < infos.len() && (#[trigger] infos[k]).kind == PortKind::AtomIn
            && infos[k].buf_index == atom_input(infos, port_index)->0;
    port_at_place(infos, k);
}

/// The atoms with the index of the port that they came out of.
pub open spec fn from_port(port_index: usize, atoms: Seq<Seq<u8>>) -> Seq<(usize, Seq<u8>)> {
    atoms.map_values(|a: Seq<u8>| (port_index, a))
}

/// The atoms in the buffers of the atom outputs, port by port.
pub open spec fn atoms_out(infos: Seq<PortInfoView>, bufs: Seq<Vec<u8>>) -> Seq<(usize, Seq<u8>)>
    decreases infos.len(),
{
    if infos.len() == 0 {
        Seq::empty()
    } else if infos.last().kind == PortKind::AtomOut {
        atoms_out(infos.drop_last(), bufs) + from_port(
            infos.last().port_index,
            atom::atoms(bufs[infos.last().buf_index as int]@),
        )
    } else {
        atoms_out(infos.drop_last(), bufs)
    }
}

/// The views of atoms with their ports.
pub open spec fn atom_views(atoms: Seq<(usize, Vec<u8>)>) -> Seq<(usize, Seq<u8>)> {
    atoms.map_values(|a: (usize, Vec<u8>)| (a.0, a.1@))
}

/// What a port is connected to: a place in the buffers of its kind, or the
/// buffer that nothing is read from.
#[derive(Debug, Clone, Copy, PartialEq, Eq, Structural)]
pub enum Connection {
    Buffer { kind: PortKind, buf_index: usize },
    Dummy,
}

/// The symbol of a control input names the last port that has it.
proof fn symbol_place(infos: Seq<PortInfoView>, symbol: Seq<char>)
    requires
        places_ok(infos),
        control_symbols(infos).contains(symbol),
    ensures
        control_symbols(infos).index_of_last(symbol) is Some,
        0 <= control_symbols(infos).index_of_last(symbol)->0 < of_kind(
            infos,
            PortKind::ControlIn,
        ).len(),
        symbol_map(infos)[symbol] == control_symbols(infos).index_of_last(symbol)->0,
{
    control_symbols(infos).index_of_last_ensures(symbol);
    place_of_port(infos, PortKind::ControlIn, control_symbols(infos).index_of_last(symbol)->0);
}

impl<S> Lv2PluginInstance<S> {
    /// How many audio inputs the plugin has.
    pub fn audio_in_count(&self) -> (r: usize)
        requires
            self.wf(),
        ensures
            r == self.count(PortKind::AudioIn),
    {
        self.audio_in_bufs.len()
    }

    /// How many audio outputs the plugin has.
    pub fn audio_out_count(&self) -> (r: usize)
        requires
            self.wf(),
        ensures
            r == self.count(PortKind::AudioOut),
    {
        self.audio_out_bufs.len()
    }

    /// Whether the plugin takes MIDI.
    pub fn has_midi_in(&self) -> (r: bool)
        requires
            self.wf(),
        ensures
            r == (midi_places(self.infos()).len() > 0),
    {
        self.midi_in_buf_indices.len() > 0
    }

    /// The audio inputs, for writing.
    pub fn audio_in_bufs_mut(&mut self) -> (r: &mut Vec<Vec<S>>)
        ensures
            *r == old(self).audio_in_bufs,
            *final(self) == (Lv2PluginInstance { audio_in_bufs: *final(r), ..*old(self) }),
    {
        &mut self.audio_in_bufs
    }

    /// The audio outputs.
    pub fn audio_out_bufs(&self) -> (r: &Vec<Vec<S>>)
        ensures
            *r == self.audio_out_bufs,
    {
        &self.audio_out_bufs
    }

    /// Sets the control input of that symbol.
    pub fn set_control(&mut self, symbol: &str, value: u32) -> (r: Result<(), Error>)
        requires
            old(self).wf(),
        ensures
            final(self).wf(),
            *final(self) == (Lv2PluginInstance {
                control_in_vals: final(self).control_in_vals,
                ..*old(self)
            }),
            match r {
                Ok(()) => {
                    &&& control_symbols(old(self).infos()).contains(symbol@)
                    &&& final(self).control_in_vals@ == old(self).control_in_vals@.update(
                        control_symbols(old(self).infos()).index_of_last(symbol@)->0,
                        value,
                    )
                },
                Err(e) => {
                    &&& !control_symbols(old(self).infos()).contains(symbol@)
                    &&& e@ == ErrorView::ControlPortNotFound {
                        name: old(self).name@,
                        port: symbol@,
                    }
                    &&& final(self).control_in_vals@ == old(self).control_in_vals@
                },
            },
    {
        match self.control_in_symbol_map.get(symbol) {
            Some(place) => {
                let place: usize = *place;
                proof {
                    symbol_place(self.infos(), symbol@);
                }
                self.control_in_vals[place] = value;
                Ok(())
            },
            None => Err(
                Error::ControlPortNotFound { name: self.name.clone(), port: symbol.to_owned() },
            ),
        }
    }

    /// Sets the controls whose symbols were saved. Other symbols are passed over.
    pub fn restore(&mut self, saved: &NameMap<u32>)
        requires
            old(self).wf(),
            saved.wf(),
        ensures
            final(self).wf(),
            *final(self) == (Lv2PluginInstance {
                control_in_vals: final(self).control_in_vals,
                ..*old(self)
            }),
            final(self).control_in_vals@ == restored(
                control_symbols(old(self).infos()),
                old(self).control_in_vals@,
                saved@,
            ),
    {
        let ghost start = *self;
        let ghost symbols = control_symbols(start.infos());
        let ghost order = saved.order();
        let mut i: usize = 0;
        while i < saved.len()
            invariant
                saved.wf(),
                start == *old(self),
                start.wf(),
                symbols == control_symbols(start.infos()),
                order == saved.order(),
                i <= order.len(),
                self.wf(),
                *self == (Lv2PluginInstance { control_in_vals: self.control_in_vals, ..start }),
                self.control_in_vals@.len() == start.control_in_vals@.len(),
                forall|k: int|
                    0 <= k < symbols.len() ==> #[trigger] self.control_in_vals@[k] == if (
                    symbols.index_of_last(symbols[k]) == Some(k) && order.take(i as int).contains(
                        symbols[k],
                    )) {
                        saved@[symbols[k]]
                    } else {
                        start.control_in_vals@[k]
                    },
            decreases order.len() - i,
        {
            let ghost before = self.control_in_vals@;
            let name = saved.key_at(i);
            let value: u32 = *saved.value_at(i);
            proof {
                symbols.index_of_last_ensures(name@);
                assert(order.take(i + 1) =~= order.take(i as int).push(name@));
                assert forall|k: int| 0 <= k < symbols.len() implies order.take(i + 1).contains(
                    #[trigger] symbols[k],
                ) == (order.take(i as int).contains(symbols[k]) || symbols[k] == name@) by {
                    let now = order.take(i + 1);
                    let was = order.take(i as int);
                    assert(now[i as int] == name@);
                    if was.contains(symbols[k]) {
                        assert(now[was.index_of(symbols[k])] == symbols[k]);
                    }
                    if now.contains(symbols[k]) && symbols[k] != name@ {
                        assert(was[now.index_of(symbols[k])] == symbols[k]);
                    }
                }
            }
            let _ = self.set_control(name, value);
            i += 1;
        }
        proof {
            assert(order.take(i as int) =~= order);
            assert(self.control_in_vals@ =~= restored(
                symbols,
                start.control_in_vals@,
                saved@,
            ));
        }
    }

    /// The values of the control inputs by symbol.
    pub fn current_controls(&self) -> (r: NameMap<u32>)
        requires
            self.wf(),
        ensures
            r.wf(),
            r@ == controls_by_symbol(self.infos(), self.control_in_vals@),
    {
        let symbols = self.control_port_symbols();
        assert(text::texts(symbols@).len() == symbols@.len());
        collect_controls(&symbols, &self.control_in_vals)
    }

    /// Sets the control input at that place; nothing where there is none.
    pub fn set_control_by_index(&mut self, idx: usize, value: u32)
        requires
            old(self).wf(),
        ensures
            final(self).wf(),
            *final(self) == (Lv2PluginInstance {
                control_in_vals: final(self).control_in_vals,
                ..*old(self)
            }),
            final(self).control_in_vals@ == if idx < old(self).control_in_vals@.len() {
                old(self).control_in_vals@.update(idx as int, value)
            } else {
                old(self).control_in_vals@
            },
    {
        if idx < self.control_in_vals.len() {
            self.control_in_vals[idx] = value;
        }
    }

    /// The symbols of the control inputs.
    pub fn control_port_symbols(&self) -> (r: Vec<String>)
        ensures
            text::texts(r@) == control_symbols(self.infos()),
    {
        let mut r: Vec<String> = Vec::new();
        let ghost views = self.infos();
        let len: usize = self.port_infos.len();
        let mut i: usize = 0;
        assert(text::texts(r@) =~= Seq::empty());
        assert(control_symbols(views.take(0)) =~= Seq::empty());
        while i < len
            invariant
                views == self.infos(),
                len == self.port_infos@.len(),
                i <= len,
                text::texts(r@) == control_symbols(views.take(i as int)),
            decreases len - i,
        {
            proof {
                assert(views.take(i + 1) =~= views.take(i as int).push(views[i as int]));
                of_kind_push(views.take(i as int), views[i as int], PortKind::ControlIn);
            }
            let ghost so_far = text::texts(r@);
            if self.port_infos[i].kind == PortKind::ControlIn {
                r.push(self.port_infos[i].symbol.clone());
                assert(text::texts(r@) =~= so_far.push(views[i as int].symbol));
                assert(control_symbols(views.take(i + 1)) =~= control_symbols(
                    views.take(i as int),
                ).push(views[i as int].symbol));
            }
            i += 1;
        }
        assert(views.take(len as int) =~= views);
        r
    }

    /// The symbols and indices of all ports.
    pub fn all_port_symbol_index_pairs(&self) -> (r: Vec<(String, u32)>)
        ensures
            r@.map_values(|p: (String, u32)| (p.0@, p.1)) == self.infos().map_values(
                |p: PortInfoView| (p.symbol, p.port_index as u32),
            ),
    {
        let mut r: Vec<(String, u32)> = Vec::new();
        let len: usize = self.port_infos.len();
        let mut i: usize = 0;
        while i < len
            invariant
                len == self.port_infos@.len(),
                i <= len,
                r@.len() == i,
                forall|k: int|
                    0 <= k < i ==> (#[trigger] r@[k]).0@ == self.infos()[k].symbol && r@[k].1
                        == self.infos()[k].port_index as u32,
            decreases len - i,
        {
            r.push((self.port_infos[i].symbol.clone(), self.port_infos[i].port_index as u32));
            i += 1;
        }
        assert(r@.map_values(|p: (String, u32)| (p.0@, p.1)) =~= self.infos().map_values(
            |p: PortInfoView| (p.symbol, p.port_index as u32),
        ));
        r
    }

    /// What is said of the control inputs.
    pub fn control_port_meta(&self) -> (r: &Vec<ControlPortMeta>)
        ensures
            *r == self.control_port_meta,
    {
        &self.control_port_meta
    }

    /// The indices of the control inputs.
    pub fn control_in_port_indices(&self) -> (r: Vec<u32>)
        ensures
            r@ == of_kind(self.infos(), PortKind::ControlIn).map_values(
                |p: PortInfoView| p.port_index as u32,
            ),
    {
        let mut r: Vec<u32> = Vec::new();
        let ghost views = self.infos();
        let ghost index = |p: PortInfoView| p.port_index as u32;
        let len: usize = self.port_infos.len();
        let mut i: usize = 0;
        while i < len
            invariant
                views == self.infos(),
                index == (|p: PortInfoView| p.port_index as u32),
                len == self.port_infos@.len(),
                i <= len,
                r@ == of_kind(views.take(i as int), PortKind::ControlIn).map_values(index),
            decreases len - i,
        {
            let ghost so_far = of_kind(views.take(i as int), PortKind::ControlIn);
            proof {
                assert(views.take(i + 1) =~= views.take(i as int).push(views[i as int]));
                of_kind_push(views.take(i as int), views[i as int], PortKind::ControlIn);
            }
            if self.port_infos[i].kind == PortKind::ControlIn {
                r.push(self.port_infos[i].port_index as u32);
                assert(so_far.push(views[i as int]).map_values(index) =~= so_far.map_values(
                    index,
                ).push(index(views[i as int])));
            }
            i += 1;
        }
        assert(views.take(len as int) =~= views);
        r
    }

    /// What each port is connected to, in the order in which that is done.
    pub fn connections(&self) -> (r: Vec<(usize, Connection)>)
        ensures
            r@ == self.infos().map_values(
                |p: PortInfoView|
                    (
                        p.port_index,
                        Connection::Buffer { kind: p.kind, buf_index: p.buf_index },
                    ),
            ) + self.unknown_ports@.map_values(|i: usize| (i, Connection::Dummy)),
    {
        let mut r: Vec<(usize, Connection)> = Vec::new();
        let len: usize = self.port_infos.len();
        let mut i: usize = 0;
        while i < len
            invariant
                len == self.port_infos@.len(),
                i <= len,
                r@.len() == i,
                forall|k: int|
                    0 <= k < i ==> #[trigger] r@[k] == (
                        self.infos()[k].port_index,
                        Connection::Buffer {
                            kind: self.infos()[k].kind,
                            buf_index: self.infos()[k].buf_index,
                        },
                    ),
            decreases len - i,
        {
            let p = &self.port_infos[i];
            r.push((p.port_index, Connection::Buffer { kind: p.kind, buf_index: p.buf_index }));
            i += 1;
        }
        let ghost known = r@;
        let mut j: usize = 0;
        assert(r@ =~= known + self.unknown_ports@.take(0).map_values(
            |i: usize| (i, Connection::Dummy),
        ));
        while j < self.unknown_ports.len()
            invariant
                j <= self.unknown_ports@.len(),
                r@ == known + self.unknown_ports@.take(j as int).map_values(
                    |i: usize| (i, Connection::Dummy),
                ),
            decreases self.unknown_ports@.len() - j,
        {
            r.push((self.unknown_ports[j], Connection::Dummy));
            j += 1;
            assert(r@ =~= known + self.unknown_ports@.take(j as int).map_values(
                |i: usize| (i, Connection::Dummy),
            ));
        }
        assert(self.unknown_ports@.take(j as int) =~= self.unknown_ports@);
        assert(known =~= self.infos().map_values(
            |p: PortInfoView|
                (p.port_index, Connection::Buffer { kind: p.kind, buf_index: p.buf_index }),
        ));
        r
    }
}

/// The values under their names.
pub fn collect_controls(symbols: &Vec<String>, values: &Vec<u32>) -> (r: NameMap<u32>)
    requires
        symbols@.len() == values@.len(),
    ensures
        r.wf(),
        r@ == names::collected(text::texts(symbols@), values@),
{
    let mut r: NameMap<u32> = NameMap::new();
    let mut i: usize = 0;
    proof {
        assert(text::texts(symbols@).take(0) =~= Seq::empty());
        assert(values@.take(0) =~= Seq::empty());
        names::collected_none::<u32>();
    }
    while i < symbols.len()
        invariant
            symbols@.len() == values@.len(),
            i <= symbols@.len(),
            r.wf(),
            r@ == names::collected(text::texts(symbols@).take(i as int), values@.take(i as int)),
        decreases symbols@.len() - i,
    {
        r.insert(symbols[i].clone(), values[i]);
        proof {
            let texts = text::texts(symbols@);
            assert(texts.take(i + 1) =~= texts.take(i as int).push(texts[i as int]));
            assert(values@.take(i + 1) =~= values@.take(i as int).push(values@[i as int]));
            names::collected_push(
                texts.take(i as int),
                values@.take(i as int),
                texts[i as int],
                values@[i as int],
            );
        }
        i += 1;
    }
    assert(text::texts(symbols@).take(i as int) =~= text::texts(symbols@));
    assert(values@.take(i as int) =~= values@);
    r
}

/// What is in buffers.
pub open spec fn contents(bufs: Seq<Vec<u8>>) -> Seq<Seq<u8>> {
    bufs.map_values(|b: Vec<u8>| b@)
}

/// Atom inputs that were made empty.
pub open spec fn cleared(inputs: Seq<Seq<u8>>, sequence_urid: u32) -> Seq<Seq<u8>> {
    inputs.map_values(|b: Seq<u8>| atom::empty_sequence(b, sequence_urid))
}

/// Atom outputs that were made ready to be written to.
pub open spec fn ready(outputs: Seq<Seq<u8>>, sequence_urid: u32) -> Seq<Seq<u8>> {
    outputs.map_values(|b: Seq<u8>| atom::output_capacity(b, sequence_urid))
}

/// Atom inputs with an event at the first port of that index.
pub open spec fn with_event(
    infos: Seq<PortInfoView>,
    sequence_urid: u32,
    inputs: Seq<Seq<u8>>,
    port_index: usize,
    data: Seq<u8>,
) -> Seq<Seq<u8>> {
    match atom_input(infos, port_index) {
        Some(place) => inputs.update(
            place as int,
            atom::appended(inputs[place as int], sequence_urid, data),
        ),
        None => inputs,
    }
}

/// Atom inputs with MIDI events in those that take MIDI, where there are any.
pub open spec fn with_messages(
    infos: Seq<PortInfoView>,
    sequence_urid: u32,
    midi_urid: u32,
    inputs: Seq<Seq<u8>>,
    events: Seq<(i64, Seq<u8>)>,
) -> Seq<Seq<u8>> {
    if events.len() == 0 {
        inputs
    } else {
        inputs.map(
            |i: int, b: Seq<u8>|
                if midi_places(infos).contains(i as usize) {
                    atom::midi_sequence(b, sequence_urid, midi_urid, events)
                } else {
                    b
                },
        )
    }
}

/// Whether each of the buffers `after` is an empty sequence.
spec fn emptied(before: Seq<Vec<u8>>, after: Seq<Vec<u8>>, sequence_urid: u32) -> bool {
    &&& after.len() == before.len()
    &&& forall|i: int|
        0 <= i < after.len() ==> (#[trigger] after[i])@ == atom::empty_sequence(
            before[i]@,
            sequence_urid,
        ) && after[i]@.len() == before[i]@.len()
}

/// Whether each of the buffers `after` is ready to be written to.
spec fn opened(before: Seq<Vec<u8>>, after: Seq<Vec<u8>>, sequence_urid: u32) -> bool {
    &&& after.len() == before.len()
    &&& forall|i: int|
        0 <= i < after.len() ==> (#[trigger] after[i])@ == atom::output_capacity(
            before[i]@,
            sequence_urid,
        ) && after[i]@.len() == before[i]@.len()
}

/// Whether the buffers `after` at the places `places` hold `events`, and the
/// others what they held before.
spec fn with_midi(
    before: Seq<Vec<u8>>,
    after: Seq<Vec<u8>>,
    places: Seq<usize>,
    sequence_urid: u32,
    midi_urid: u32,
    events: Seq<(i64, Seq<u8>)>,
) -> bool {
    &&& after.len() == before.len()
    &&& forall|i: int|
        0 <= i < after.len() ==> (#[trigger] after[i])@ == if places.contains(i as usize) {
            atom::midi_sequence(before[i]@, sequence_urid, midi_urid, events)
        } else {
            before[i]@
        }
}

/// Makes each buffer an empty sequence.
fn empty_all(bufs: &mut Vec<Vec<u8>>, sequence_urid: u32)
    ensures
        emptied(old(bufs)@, final(bufs)@, sequence_urid),
{
    let ghost start = bufs@;
    let len: usize = bufs.len();
    let mut i: usize = 0;
    while i < len
        invariant
            start == old(bufs)@,
            len == start.len(),
            bufs@.len() == len,
            i <= len,
            forall|k: int|
                0 <= k < i ==> (#[trigger] bufs@[k])@ == atom::empty_sequence(
                    start[k]@,
                    sequence_urid,
                ) && bufs@[k]@.len() == start[k]@.len(),
            forall|k: int| i <= k < len ==> #[trigger] bufs@[k] == start[k],
        decreases len - i,
    {
        atom::write_empty_atom_sequence(bufs[i].as_mut_slice(), sequence_urid);
        i += 1;
    }
}

/// Makes each buffer one that a plugin is to write to.
fn open_all(bufs: &mut Vec<Vec<u8>>, sequence_urid: u32)
    ensures
        opened(old(bufs)@, final(bufs)@, sequence_urid),
{
    let ghost start = bufs@;
    let len: usize = bufs.len();
    let mut i: usize = 0;
    while i < len
        invariant
            start == old(bufs)@,
            len == start.len(),
            bufs@.len() == len,
            i <= len,
            forall|k: int|
                0 <= k < i ==> (#[trigger] bufs@[k])@ == atom::output_capacity(
                    start[k]@,
                    sequence_urid,
                ) && bufs@[k]@.len() == start[k]@.len(),
            forall|k: int| i <= k < len ==> #[trigger] bufs@[k] == start[k],
        decreases len - i,
    {
        atom::write_atom_out_capacity(bufs[i].as_mut_slice(), sequence_urid);
        i += 1;
    }
}

impl<S> Lv2PluginInstance<S> {
    /// Whether the buffers of the atom outputs can be read.
    pub open spec fn outputs_readable(self) -> bool {
        forall|i: int|
            0 <= i < self.atom_out_bufs@.len() ==> atom::readable(
                (#[trigger] self.atom_out_bufs@[i])@,
            )
    }

    /// Makes the atom inputs empty and the atom outputs ready to be written to.
    pub fn clear_atom_buffers(&mut self)
        requires
            old(self).wf(),
        ensures
            final(self).wf(),
            *final(self) == (Lv2PluginInstance {
                atom_in_bufs: final(self).atom_in_bufs,
                atom_out_bufs: final(self).atom_out_bufs,
                ..*old(self)
            }),
            contents(final(self).atom_in_bufs@) == cleared(
                contents(old(self).atom_in_bufs@),
                old(self).atom_sequence_urid,
            ),
            contents(final(self).atom_out_bufs@) == ready(
                contents(old(self).atom_out_bufs@),
                old(self).atom_sequence_urid,
            ),
    {
        let ghost start = *self;
        empty_all(&mut self.atom_in_bufs, self.atom_sequence_urid);
        open_all(&mut self.atom_out_bufs, self.atom_sequence_urid);
        assert(contents(self.atom_in_bufs@) =~= cleared(
            contents(start.atom_in_bufs@),
            start.atom_sequence_urid,
        ));
        assert(contents(self.atom_out_bufs@) =~= ready(
            contents(start.atom_out_bufs@),
            start.atom_sequence_urid,
        ));
    }

    /// Appends an event to the first atom input of that index; nothing where
    /// there is none, or where the event has no room.
    #[verifier::spinoff_prover]
    #[verifier::rlimit(40)]
    pub fn write_atom_to_port(&mut self, port_index: usize, protocol: u32, data: &[u8])
        requires
            old(self).wf(),
        ensures
            final(self).wf(),
            *final(self) == (Lv2PluginInstance {
                atom_in_bufs: final(self).atom_in_bufs,
                ..*old(self)
            }),
            contents(final(self).atom_in_bufs@) == with_event(
                old(self).infos(),
                old(self).atom_sequence_urid,
                contents(old(self).atom_in_bufs@),
                port_index,
                data@,
            ),
    {
        let ghost start = *self;
        let len: usize = self.port_infos.len();
        let mut i: usize = 0;
        assert(self.infos().skip(0) =~= self.infos());
        while i < len
            invariant
                start == *old(self),
                *self == start,
                self.wf(),
                len == self.port_infos@.len(),
                i <= len,
                atom_input(self.infos(), port_index) == atom_input(
                    self.infos().skip(i as int),
                    port_index,
                ),
            decreases len - i,
        {
            assert(self.infos().skip(i as int)[0] == self.infos()[i as int]);
            assert(self.infos().skip(i as int).skip(1) =~= self.infos().skip(i + 1));
            if self.port_infos[i].port_index == port_index && self.port_infos[i].kind
                == PortKind::AtomIn {
                let place: usize = self.port_infos[i].buf_index;
                proof {
                    port_at_place(self.infos(), i as int);
                }
                let sequence_urid: u32 = self.atom_sequence_urid;
                atom::append_atom_event(
                    self.atom_in_bufs[place].as_mut_slice(),
                    sequence_urid,
                    protocol,
                    data,
                );
                assert(contents(self.atom_in_bufs@) =~= with_event(
                    start.infos(),
                    start.atom_sequence_urid,
                    contents(start.atom_in_bufs@),
                    port_index,
                    data@,
                ));
                return;
            }
            i += 1;
        }
    }

    /// Whether the buffers of the atom outputs can be read.
    pub fn can_drain(&self) -> (r: bool)
        ensures
            r == self.outputs_readable(),
    {
        let mut i: usize = 0;
        while i < self.atom_out_bufs.len()
            invariant
                i <= self.atom_out_bufs@.len(),
                forall|k: int| 0 <= k < i ==> atom::readable((#[trigger] self.atom_out_bufs@[k])@),
            decreases self.atom_out_bufs@.len() - i,
        {
            if !atom::can_read(self.atom_out_bufs[i].as_slice()) {
                return false;
            }
            i += 1;
        }
        true
    }

    /// The atoms that the plugin has put into its atom outputs, with the index
    /// of the port of each.
    pub fn drain_atom_output_events(&self) -> (r: Vec<(usize, Vec<u8>)>)
        requires
            self.wf(),
            self.outputs_readable(),
        ensures
            atom_views(r@) == atoms_out(self.infos(), self.atom_out_bufs@),
    {
        let mut r: Vec<(usize, Vec<u8>)> = Vec::new();
        let ghost views = self.infos();
        let len: usize = self.port_infos.len();
        let mut i: usize = 0;
        assert(atom_views(r@) =~= Seq::empty());
        while i < len
            invariant
                self.wf(),
                self.outputs_readable(),
                views == self.infos(),
                len == self.port_infos@.len(),
                i <= len,
                atom_views(r@) == atoms_out(views.take(i as int), self.atom_out_bufs@),
            decreases len - i,
        {
            proof {
                assert(views.take(i + 1).drop_last() =~= views.take(i as int));
                assert(views.take(i + 1).last() == views[i as int]);
            }
            if self.port_infos[i].kind == PortKind::AtomOut {
                proof {
                    port_at_place(views, i as int);
                }
                let atoms = atom::read_atoms(
                    self.atom_out_bufs[self.port_infos[i].buf_index].as_slice(),
                );
                push_atoms(&mut r, self.port_infos[i].port_index, atoms);
            }
            i += 1;
        }
        assert(views.take(len as int) =~= views);
        r
    }

    /// Writes MIDI events into every atom input that takes MIDI; nothing where
    /// there are no events.
    pub fn write_midi_to_atom_in(&mut self, events: &[(i64, &[u8])])
        requires
            old(self).wf(),
        ensures
            final(self).wf(),
            *final(self) == (Lv2PluginInstance {
                atom_in_bufs: final(self).atom_in_bufs,
                ..*old(self)
            }),
            contents(final(self).atom_in_bufs@) == with_messages(
                old(self).infos(),
                old(self).atom_sequence_urid,
                old(self).midi_event_urid,
                contents(old(self).atom_in_bufs@),
                atom::event_views(events@),
            ),
    {
        if events.len() == 0 {
            return;
        }
        let ghost start = *self;
        let ghost places = midi_places(start.infos());
        proof {
            midi_places_are_inputs(start.infos());
        }
        let buf_count: usize = self.atom_in_bufs.len();
        let len: usize = self.midi_in_buf_indices.len();
        let mut i: usize = 0;
        while i < len
            invariant
                start == *old(self),
                start.wf(),
                places == midi_places(start.infos()),
                places.no_duplicates(),
                forall|k: int|
                    0 <= k < places.len() ==> (#[trigger] places[k]) < start.atom_in_bufs@.len(),
                buf_count == start.atom_in_bufs@.len(),
                len == places.len(),
                i <= len,
                *self == (Lv2PluginInstance { atom_in_bufs: self.atom_in_bufs, ..start }),
                all_long(self.atom_in_bufs@, ATOM_BUF_SIZE as nat),
                with_midi(
                    start.atom_in_bufs@,
                    self.atom_in_bufs@,
                    places.take(i as int),
                    start.atom_sequence_urid,
                    start.midi_event_urid,
                    atom::event_views(events@),
                ),
            decreases len - i,
        {
            let place: usize = self.midi_in_buf_indices[i];
            let sequence_urid: u32 = self.atom_sequence_urid;
            let midi_urid: u32 = self.midi_event_urid;
            proof {
                assert(place == places[i as int]);
                assert(!places.take(i as int).contains(place));
                assert(places.take(i + 1) =~= places.take(i as int).push(place));
                assert forall|k: usize| #[trigger] places.take(i + 1).contains(k) == (places.take(
                    i as int,
                ).contains(k) || k == place) by {
                    let now = places.take(i + 1);
                    let was = places.take(i as int);
                    assert(now[i as int] == place);
                    if was.contains(k) {
                        let j = was.index_of(k);
                        assert(now[j] == k);
                    }
                    if now.contains(k) && k != place {
                        let j = now.index_of(k);
                        assert(was[j] == k);
                    }
                }
            }
            atom::write_atom_sequence_midi(
                self.atom_in_bufs[place].as_mut_slice(),
                sequence_urid,
                midi_urid,
                events,
            );
            i += 1;
        }
        assert(places.take(len as int) =~= places);
        assert(contents(self.atom_in_bufs@) =~= with_messages(
            start.infos(),
            start.atom_sequence_urid,
            start.midi_event_urid,
            contents(start.atom_in_bufs@),
            atom::event_views(events@),
        ));
    }
}

/// Appends atoms with the index of their port.
fn push_atoms(r: &mut Vec<(usize, Vec<u8>)>, port_index: usize, atoms: Vec<Vec<u8>>)
    ensures
        atom_views(final(r)@) == atom_views(old(r)@) + from_port(
            port_index,
            atoms@.map_values(|a: Vec<u8>| a@),
        ),
{
    let ghost start = atom_views(r@);
    let ghost all = atoms@.map_values(|a: Vec<u8>| a@);
    let mut i: usize = 0;
    assert(start + from_port(port_index, all.take(0)) =~= start);
    while i < atoms.len()
        invariant
            start == atom_views(old(r)@),
            all == atoms@.map_values(|a: Vec<u8>| a@),
            i <= atoms@.len(),
            atom_views(r@) == start + from_port(port_index, all.take(i as int)),
        decreases atoms@.len() - i,
    {
        let ghost before = atom_views(r@);
        let mut copy: Vec<u8> = Vec::new();
        copy.extend_from_slice(atoms[i].as_slice());
        assert(copy@ =~= atoms@[i as int]@);
        r.push((port_index, copy));
        assert(atom_views(r@) =~= before.push((port_index, all[i as int])));
        assert(start + from_port(port_index, all.take(i + 1)) =~= (start + from_port(
            port_index,
            all.take(i as int),
        )).push((port_index, all[i as int])));
        i += 1;
    }
    assert(all.take(i as int) =~= all);
}

/// The features that a plugin is offered: those of the set, and a worker where
/// it can use one.
pub open spec fn offered_to(
    base: Seq<(Seq<char>, FeatureData)>,
    needs_worker: bool,
) -> Seq<(Seq<char>, FeatureData)> {
    if needs_worker {
        base.push((features::LV2_WORKER_SCHEDULE_URI@, FeatureData::WorkerSchedule))
    } else {
        base
    }
}

/// The features that a plugin is offered.
pub fn plugin_features(feature_set: &FeatureSet, needs_worker: bool) -> (r: Vec<Feature>)
    ensures
        features::feature_views(r@) == offered_to(
            features::feature_views(feature_set.features@),
            needs_worker,
        ),
{
    let base = feature_set.as_features();
    let mut r: Vec<Feature> = Vec::new();
    let mut i: usize = 0;
    while i < base.len()
        invariant
            i <= base@.len(),
            r@.len() == i,
            base@.len() == feature_set.features@.len(),
            forall|k: int| 0 <= k < base@.len() ==> *(#[trigger] base@[k])
                == feature_set.features@[k],
            forall|k: int|
                0 <= k < i ==> (#[trigger] r@[k]).uri@ == feature_set.features@[k].uri@
                    && r@[k].data == feature_set.features@[k].data,
        decreases base@.len() - i,
    {
        r.push(Feature { uri: base[i].uri.clone(), data: base[i].data });
        i += 1;
    }
    assert(features::feature_views(r@) =~= features::feature_views(feature_set.features@));
    if needs_worker {
        let ghost before = features::feature_views(r@);
        r.push(
            Feature {
                uri: features::LV2_WORKER_SCHEDULE_URI.to_owned(),
                data: FeatureData::WorkerSchedule,
            },
        );
        assert(features::feature_views(r@) =~= before.push(
            (features::LV2_WORKER_SCHEDULE_URI@, FeatureData::WorkerSchedule),
        ));
    }
    r
}

/// Whether a plugin can hand work to a worker.
pub fn wants_worker(desc: &PluginDesc) -> (r: bool)
    ensures
        r == text::texts(desc.features@).contains(features::LV2_WORKER_SCHEDULE_URI@),
{
    text::is_listed(&desc.features, features::LV2_WORKER_SCHEDULE_URI)
}

/// What becomes of a plugin's worker.
#[derive(Debug, Clone, Copy, PartialEq, Eq, Structural)]
pub enum WorkerStart {
    /// There is none to start.
    NotWanted,
    /// It is started.
    Start,
    /// The plugin asks for one, but gives no code to work or to take answers.
    Incomplete,
}

/// Decides on a worker. `iface` says of the plugin's worker interface, where it
/// has one, whether it can work and whether it takes answers.
pub fn worker_start(needs_worker: bool, iface: Option<(bool, bool)>) -> (r: WorkerStart)
    ensures
        r is Start <==> needs_worker && iface == Some((true, true)),
        r is Incomplete <==> needs_worker && iface is Some && iface != Some((true, true)),
{
    match iface {
        Some((work, work_response)) => if !needs_worker {
            WorkerStart::NotWanted
        } else if work && work_response {
            WorkerStart::Start
        } else {
            WorkerStart::Incomplete
        },
        None => WorkerStart::NotWanted,
    }
}

/// A control that was set is seen under its symbol, and no other symbol sees a
/// change.
pub proof fn set_control_is_seen(
    infos: Seq<PortInfoView>,
    values: Seq<u32>,
    symbol: Seq<char>,
    value: u32,
)
    requires
        values.len() == of_kind(infos, PortKind::ControlIn).len(),
        control_symbols(infos).contains(symbol),
    ensures
        controls_by_symbol(
            infos,
            values.update(control_symbols(infos).index_of_last(symbol)->0, value),
        ) == controls_by_symbol(infos, values).insert(symbol, value),
{
    let symbols = control_symbols(infos);
    let i = symbols.index_of_last(symbol)->0;
    symbols.index_of_last_ensures(symbol);
    let a = controls_by_symbol(infos, values.update(i, value));
    let b = controls_by_symbol(infos, values).insert(symbol, value);
    assert forall|s: Seq<char>| a.contains_key(s) implies #[trigger] a[s] == b[s] by {
        symbols.index_of_last_ensures(s);
    }
    assert(a =~= b);
}

/// Events of three bytes each fit where there are 24 bytes for each.
proof fn short_events_fit(events: Seq<(i64, Seq<u8>)>, room: int)
    requires
        forall|i: int| 0 <= i < events.len() ==> (#[trigger] events[i]).1.len() <= 3,
        24 * events.len() <= room,
    ensures
        atom::midi_fitting(events, room) == events.len(),
    decreases events.len(),
{
    if events.len() > 0 {
        let rest = events.skip(1);
        let size = atom::pad8(16 + events[0].1.len() as int);
        assert(size <= 24);
        assert forall|i: int| 0 <= i < rest.len() implies (#[trigger] rest[i]).1.len() <= 3 by {
            assert(rest[i] == events[i + 1]);
        }
        short_events_fit(rest, room - size);
    }
}

/// MIDI messages that were written to an input are what the plugin reads there,
/// whatever was in it, as long as there are not too many of them.
pub proof fn midi_reaches_buffer(
    buf: Seq<u8>,
    sequence_urid: u32,
    midi_urid: u32,
    events: Seq<(i64, Seq<u8>)>,
)
    requires
        buf.len() == ATOM_BUF_SIZE,
        forall|i: int| 0 <= i < events.len() ==> (#[trigger] events[i]).1.len() <= 3,
        24 * events.len() + 16 <= ATOM_BUF_SIZE,
    ensures
        atom::atoms(atom::midi_sequence(buf, sequence_urid, midi_urid, events))
            == atom::midi_atoms(midi_urid, events),
{
    short_events_fit(events, buf.len() - 16);
    atom::midi_sequence_is_read(buf, sequence_urid, midi_urid, events);
    assert(events.take(events.len() as int) =~= events);
}

/// What was saved is seen after it was restored: under a symbol that was saved
/// the saved value, under another the value that was there.
pub proof fn restored_is_seen(
    infos: Seq<PortInfoView>,
    values: Seq<u32>,
    saved: Map<Seq<char>, u32>,
    symbol: Seq<char>,
)
    requires
        values.len() == of_kind(infos, PortKind::ControlIn).len(),
        control_symbols(infos).contains(symbol),
    ensures
        controls_by_symbol(infos, restored(control_symbols(infos), values, saved))[symbol]
            == if saved.contains_key(symbol) {
            saved[symbol]
        } else {
            controls_by_symbol(infos, values)[symbol]
        },
{
    control_symbols(infos).index_of_last_ensures(symbol);
}

/// Controls that are saved and restored are what they were.
pub proof fn save_and_restore(infos: Seq<PortInfoView>, saved: Seq<u32>, values: Seq<u32>)
    requires
        saved.len() == of_kind(infos, PortKind::ControlIn).len(),
        values.len() == saved.len(),
    ensures
        controls_by_symbol(
            infos,
            restored(control_symbols(infos), values, controls_by_symbol(infos, saved)),
        ) == controls_by_symbol(infos, saved),
{
    let symbols = control_symbols(infos);
    let map = controls_by_symbol(infos, saved);
    let after = controls_by_symbol(infos, restored(symbols, values, map));
    assert forall|s: Seq<char>| after.contains_key(s) implies #[trigger] after[s] == map[s] by {
        restored_is_seen(infos, values, map, s);
    }
    assert(after =~= map);
}

/// The inputs for MIDI are the buffers of the atom inputs that take it, and no others.
pub proof fn midi_places_of_ports(infos: Seq<PortInfoView>)
    ensures
        forall|m: usize| #[trigger]
            midi_places(infos).contains(m) <==> exists|k: int|
                0 <= k < infos.len() && (#[trigger] infos[k]).kind == PortKind::AtomIn
                    && infos[k].has_midi && infos[k].buf_index == m,
    decreases infos.len(),
{
    let places = midi_places(infos);
    if infos.len() > 0 {
        let first = infos.drop_last();
        let last = infos.len() - 1;
        midi_places_of_ports(first);
        assert forall|m: usize| #[trigger] places.contains(m) implies exists|k: int|
            0 <= k < infos.len() && (#[trigger] infos[k]).kind == PortKind::AtomIn
                && infos[k].has_midi && infos[k].buf_index == m by {
            if midi_places(first).contains(m) {
                let k = choose|k: int|
                    0 <= k < first.len() && (#[trigger] first[k]).kind == PortKind::AtomIn
                        && first[k].has_midi && first[k].buf_index == m;
                assert(infos[k] == first[k]);
            } else {
                let i = choose|i: int| 0 <= i < places.len() && places[i] == m;
                if i < midi_places(first).len() {
                    assert(midi_places(first)[i] == m);
                }
                assert(infos[last].buf_index == m);
            }
        }
        assert forall|m: usize|
            (exists|k: int|
                0 <= k < infos.len() && (#[trigger] infos[k]).kind == PortKind::AtomIn
                    && infos[k].has_midi && infos[k].buf_index
                    == m) implies #[trigger] places.contains(m) by {
            let k = choose|k: int|
                0 <= k < infos.len() && (#[trigger] infos[k]).kind == PortKind::AtomIn
                    && infos[k].has_midi && infos[k].buf_index == m;
            if k < last {
                assert(first[k] == infos[k]);
                assert(midi_places(first).contains(m));
                let i = choose|i: int|
                    0 <= i < midi_places(first).len() && midi_places(first)[i] == m;
                assert(places[i] == m);
            } else {
                assert(places.last() == m);
            }
        }
    }
}

/// What kind a port is, by its flags: audio comes before controls and these before atoms,
/// and a port that is an input is no output.
pub proof fn kind_by_flags(port: PortDesc)
    ensures
        ({
            let kind = kind_of(port);
            let audio = port.is_audio || port.is_cv;
            &&& kind == Some(PortKind::AudioIn) <==> audio && port.is_input
            &&& kind == Some(PortKind::AudioOut) <==> audio && !port.is_input && port.is_output
            &&& kind == Some(PortKind::ControlIn) <==> !audio && port.is_control && port.is_input
            &&& kind == Some(PortKind::ControlOut) <==> !audio && port.is_control && !port.is_input
                && port.is_output
            &&& kind == Some(PortKind::AtomIn) <==> !audio && !port.is_control && port.is_atom
                && port.is_input
            &&& kind == Some(PortKind::AtomOut) <==> !audio && !port.is_control && port.is_atom
                && !port.is_input && port.is_output
            &&& kind is None <==> (!port.is_input && !port.is_output) || (!audio
                && !port.is_control && !port.is_atom)
        }),
{
}

/// Every port of a plugin whose kind is known is among its ports here, in its order, with
/// its own index, symbol and kind. A port without a symbol is called by its index. Only
/// atom ports take MIDI.
pub proof fn known_ports_are_kept(ports: Seq<PortDesc>) -> (from: Seq<int>)
    ensures
        from.len() == infos_of(ports).len(),
        forall|a: int, b: int| 0 <= a < b < from.len() ==> #[trigger] from[a] < #[trigger] from[b],
        forall|j: int|
            0 <= j < from.len() ==> 0 <= #[trigger] from[j] < ports.len() && {
                let port = ports[from[j]];
                let info = infos_of(ports)[j];
                &&& info.port_index == port.index
                &&& Some(info.kind) == kind_of(port)
                &&& port.symbol matches Some(s) ==> info.symbol == s@
                &&& port.symbol is None ==> info.symbol == "port_"@ + text::decimal_of(
                    port.index as nat,
                )
                &&& info.has_midi <==> port.supports_midi && (info.kind == PortKind::AtomIn
                    || info.kind == PortKind::AtomOut)
            },
        forall|i: int|
            0 <= i < ports.len() && kind_of(#[trigger] ports[i]) is Some ==> from.contains(i),
    decreases ports.len(),
{
    if ports.len() == 0 {
        Seq::empty()
    } else {
        let first = ports.drop_last();
        let last = ports.len() - 1;
        let before = known_ports_are_kept(first);
        assert forall|j: int| 0 <= j < before.len() implies ports[#[trigger] before[j]]
            == first[before[j]] by {}
        let from = if kind_of(ports.last()) is Some {
            before.push(last)
        } else {
            before
        };
        assert forall|i: int|
            0 <= i < ports.len() && kind_of(#[trigger] ports[i]) is Some implies from.contains(
            i,
        ) by {
            if i < last {
                assert(first[i] == ports[i]);
                assert(before.contains(i));
                let k = choose|k: int| 0 <= k < before.len() && before[k] == i;
                assert(from[k] == i);
            } else {
                assert(from[from.len() - 1] == i);
            }
        }
        assert forall|j: int| 0 <= j < from.len() implies 0 <= #[trigger] from[j] < ports.len() && {
            let port = ports[from[j]];
            let info = infos_of(ports)[j];
            &&& info.port_index == port.index
            &&& Some(info.kind) == kind_of(port)
            &&& port.symbol matches Some(s) ==> info.symbol == s@
            &&& port.symbol is None ==> info.symbol == "port_"@ + text::decimal_of(
                port.index as nat,
            )
            &&& info.has_midi <==> port.supports_midi && (info.kind == PortKind::AtomIn
                || info.kind == PortKind::AtomOut)
        } by {
            if j < before.len() {
                assert(from[j] == before[j]);
                assert(infos_of(ports)[j] == infos_of(first)[j]);
            }
        }
        from
    }
}

/// A port whose kind is not known is kept apart by its index, in its order.
pub proof fn unknown_ports_are_kept_apart(ports: Seq<PortDesc>) -> (from: Seq<int>)
    ensures
        from.len() == unknown_of(ports).len(),
        forall|a: int, b: int| 0 <= a < b < from.len() ==> #[trigger] from[a] < #[trigger] from[b],
        forall|j: int|
            0 <= j < from.len() ==> 0 <= #[trigger] from[j] < ports.len() && unknown_of(ports)[j]
                == ports[from[j]].index && kind_of(ports[from[j]]) is None,
        forall|i: int|
            0 <= i < ports.len() && kind_of(#[trigger] ports[i]) is None ==> from.contains(i),
    decreases ports.len(),
{
    if ports.len() == 0 {
        Seq::empty()
    } else {
        let first = ports.drop_last();
        let last = ports.len() - 1;
        let before = unknown_ports_are_kept_apart(first);
        assert forall|j: int| 0 <= j < before.len() implies ports[#[trigger] before[j]]
            == first[before[j]] by {}
        let from = if kind_of(ports.last()) is None {
            before.push(last)
        } else {
            before
        };
        assert forall|i: int|
            0 <= i < ports.len() && kind_of(#[trigger] ports[i]) is None implies from.contains(
            i,
        ) by {
            if i < last {
                assert(first[i] == ports[i]);
                assert(before.contains(i));
                let k = choose|k: int| 0 <= k < before.len() && before[k] == i;
                assert(from[k] == i);
            } else {
                assert(from[from.len() - 1] == i);
            }
        }
        from
    }
}

/// The buffers of a kind are numbered from zero, in the order of the ports.
pub proof fn places_rise_from_zero(infos: Seq<PortInfoView>, a: int, b: int)
    requires
        places_ok(infos),
        0 <= a < b < infos.len(),
        infos[a].kind == infos[b].kind,
    ensures
        infos[a].buf_index < infos[b].buf_index,
        (forall|j: int| 0 <= j < a ==> (#[trigger] infos[j]).kind != infos[a].kind)
            ==> infos[a].buf_index == 0,
        (forall|j: int| a < j < b ==> (#[trigger] infos[j]).kind != infos[a].kind)
            ==> infos[b].buf_index == infos[a].buf_index + 1,
{
    let kind = infos[a].kind;
    kind_grows(infos, kind, a, b);
    assert(infos.take(a + 1).drop_last() =~= infos.take(a));
    assert(infos.take(a + 1).last() == infos[a]);
    kind_grows(infos, kind, a + 1, b);
    if forall|j: int| 0 <= j < a ==> (#[trigger] infos[j]).kind != kind {
        assert(infos.take(0) =~= Seq::empty());
        kind_stays(infos, kind, 0, a);
    }
    if forall|j: int| a < j < b ==> (#[trigger] infos[j]).kind != kind {
        kind_stays(infos, kind, a + 1, b);
    }
}

/// More ports have no fewer of a kind.
proof fn kind_grows(infos: Seq<PortInfoView>, kind: PortKind, a: int, b: int)
    requires
        0 <= a <= b <= infos.len(),
    ensures
        of_kind(infos.take(a), kind).len() <= of_kind(infos.take(b), kind).len(),
    decreases b - a,
{
    if a < b {
        kind_grows(infos, kind, a, b - 1);
        assert(infos.take(b).drop_last() =~= infos.take(b - 1));
    }
}

/// Ports of other kinds do not count.
proof fn kind_stays(infos: Seq<PortInfoView>, kind: PortKind, a: int, b: int)
    requires
        0 <= a <= b <= infos.len(),
        forall|j: int| a <= j < b ==> (#[trigger] infos[j]).kind != kind,
    ensures
        of_kind(infos.take(a), kind).len() == of_kind(infos.take(b), kind).len(),
    decreases b - a,
{
    if a < b {
        kind_stays(infos, kind, a, b - 1);
        assert(infos.take(b).drop_last() =~= infos.take(b - 1));
        assert(infos.take(b).last() == infos[b - 1]);
    }
}

/// The buffers of a new instance are silent and hold a block, and 8192 frames at least;
/// those of its atoms have 8192 bytes.
pub proof fn new_buffers_are_silent<S>(
    p: Lv2PluginInstance<S>,
    desc: PluginDesc,
    name: Seq<char>,
    buffer_size: u32,
    uris: Seq<Seq<char>>,
    zero: S,
)
    requires
        p.is_fitted(desc, name, buffer_size, uris, zero),
    ensures
        p.name@ == name,
        p.uri@ == desc.uri@,
        p.frames >= 8192,
        p.frames >= buffer_size,
        p.frames == 8192 || p.frames == buffer_size,
        forall|c: int|
            0 <= c < p.audio_in_bufs@.len() ==> (#[trigger] p.audio_in_bufs@[c])@.len() == p.frames,
        forall|c: int, s: int|
            0 <= c < p.audio_in_bufs@.len() && 0 <= s < p.frames
                ==> #[trigger] p.audio_in_bufs@[c]@[s] == zero,
        forall|c: int|
            0 <= c < p.audio_out_bufs@.len() ==> (#[trigger] p.audio_out_bufs@[c])@.len()
                == p.frames,
        forall|c: int, s: int|
            0 <= c < p.audio_out_bufs@.len() && 0 <= s < p.frames
                ==> #[trigger] p.audio_out_bufs@[c]@[s] == zero,
        forall|c: int|
            0 <= c < p.atom_in_bufs@.len() ==> (#[trigger] p.atom_in_bufs@[c])@.len() == 8192,
        forall|c: int, s: int|
            0 <= c < p.atom_in_bufs@.len() && 0 <= s < 8192
                ==> #[trigger] p.atom_in_bufs@[c]@[s] == 0,
        forall|c: int|
            0 <= c < p.atom_out_bufs@.len() ==> (#[trigger] p.atom_out_bufs@[c])@.len() == 8192,
        forall|c: int, s: int|
            0 <= c < p.atom_out_bufs@.len() && 0 <= s < 8192
                ==> #[trigger] p.atom_out_bufs@[c]@[s] == 0,
{
    assert forall|c: int, s: int| 0 <= c < p.audio_in_bufs@.len() && 0 <= s < p.frames implies
        #[trigger] p.audio_in_bufs@[c]@[s] == zero by {
        assert(p.audio_in_bufs@[c]@ == repeated(p.frames as nat, zero));
    }
    assert forall|c: int, s: int| 0 <= c < p.audio_out_bufs@.len() && 0 <= s < p.frames implies
        #[trigger] p.audio_out_bufs@[c]@[s] == zero by {
        assert(p.audio_out_bufs@[c]@ == repeated(p.frames as nat, zero));
    }
    assert forall|c: int, s: int| 0 <= c < p.atom_in_bufs@.len() && 0 <= s < 8192 implies
        #[trigger] p.atom_in_bufs@[c]@[s] == 0 by {
        assert(p.atom_in_bufs@[c]@ == repeated(ATOM_BUF_SIZE as nat, 0u8));
    }
    assert forall|c: int, s: int| 0 <= c < p.atom_out_bufs@.len() && 0 <= s < 8192 implies
        #[trigger] p.atom_out_bufs@[c]@[s] == 0 by {
        assert(p.atom_out_bufs@[c]@ == repeated(ATOM_BUF_SIZE as nat, 0u8));
    }
}

/// Every port has its own buffer of its kind.
pub proof fn every_port_has_its_buffer<S>(p: Lv2PluginInstance<S>, k: int)
    requires
        p.wf(),
        0 <= k < p.port_infos@.len(),
    ensures
        ({
            let port = p.port_infos@[k];
            &&& port.kind == PortKind::AudioIn ==> port.buf_index < p.audio_in_bufs@.len()
            &&& port.kind == PortKind::AudioOut ==> port.buf_index < p.audio_out_bufs@.len()
            &&& port.kind == PortKind::ControlIn ==> port.buf_index < p.control_in_vals@.len()
            &&& port.kind == PortKind::ControlOut ==> port.buf_index < p.control_out_vals@.len()
            &&& port.kind == PortKind::AtomIn ==> port.buf_index < p.atom_in_bufs@.len()
            &&& port.kind == PortKind::AtomOut ==> port.buf_index < p.atom_out_bufs@.len()
        }),
        forall|j: int|
            0 <= j < p.port_infos@.len() && j != k && (#[trigger] p.port_infos@[j]).kind
                == p.port_infos@[k].kind ==> p.port_infos@[j].buf_index
                != p.port_infos@[k].buf_index,
{
    let infos = p.infos();
    assert(infos[k] == p.port_infos@[k]@);
    port_at_place(infos, k);
    assert forall|j: int|
        0 <= j < p.port_infos@.len() && j != k && (#[trigger] p.port_infos@[j]).kind
            == p.port_infos@[k].kind implies p.port_infos@[j].buf_index
        != p.port_infos@[k].buf_index by {
        assert(infos[j] == p.port_infos@[j]@);
        places_are_distinct(infos, j, k);
    }
}

/// Every buffer of a kind belongs to a port of that kind.
pub proof fn every_buffer_has_its_port<S>(p: Lv2PluginInstance<S>, kind: PortKind, j: int) -> (k:
    int)
    requires
        p.wf(),
        0 <= j,
        kind == PortKind::AudioIn ==> j < p.audio_in_bufs@.len(),
        kind == PortKind::AudioOut ==> j < p.audio_out_bufs@.len(),
        kind == PortKind::ControlIn ==> j < p.control_in_vals@.len(),
        kind == PortKind::ControlOut ==> j < p.control_out_vals@.len(),
        kind == PortKind::AtomIn ==> j < p.atom_in_bufs@.len(),
        kind == PortKind::AtomOut ==> j < p.atom_out_bufs@.len(),
    ensures
        0 <= k < p.port_infos@.len(),
        p.port_infos@[k].kind == kind,
        p.port_infos@[k].buf_index == j,
{
    let infos = p.infos();
    place_of_port(infos, kind, j);
    let it = of_kind(infos, kind)[j];
    let k = choose|k: int| 0 <= k < infos.len() && infos[k] == it;
    assert(infos[k] == p.port_infos@[k]@);
    k
}

/// A new instance starts every control at the default that its author gave, and at zero
/// where that is no finite number.
pub proof fn controls_start_at_defaults<S>(
    p: Lv2PluginInstance<S>,
    desc: PluginDesc,
    name: Seq<char>,
    buffer_size: u32,
    uris: Seq<Seq<char>>,
    zero: S,
    k: int,
)
    requires
        p.is_new(desc, name, buffer_size, uris, zero),
        0 <= k < p.port_infos@.len(),
        p.port_infos@[k].port_index < desc.ranges@.len(),
    ensures
        ({
            let port = p.port_infos@[k];
            let default = desc.ranges@[port.port_index as int].default;
            &&& port.kind == PortKind::ControlIn ==> {
                &&& world::is_finite(default) ==> p.control_in_vals@[port.buf_index as int]
                    == default
                &&& !world::is_finite(default) ==> p.control_in_vals@[port.buf_index as int] == 0
            }
            &&& port.kind == PortKind::ControlOut ==> {
                &&& world::is_finite(default) ==> p.control_out_vals@[port.buf_index as int]
                    == default
                &&& !world::is_finite(default) ==> p.control_out_vals@[port.buf_index as int] == 0
            }
        }),
{
    let infos = p.infos();
    assert(infos[k] == p.port_infos@[k]@);
    port_at_place(infos, k);
}

/// What is told of a control: its symbol, its index, and its range, where zero, one and
/// zero stand for a least, a greatest and a default value that is no finite number.
pub proof fn control_is_described<S>(
    p: Lv2PluginInstance<S>,
    desc: PluginDesc,
    name: Seq<char>,
    buffer_size: u32,
    uris: Seq<Seq<char>>,
    zero: S,
    k: int,
)
    requires
        p.is_fitted(desc, name, buffer_size, uris, zero),
        0 <= k < p.port_infos@.len(),
        p.port_infos@[k].kind == PortKind::ControlIn,
        p.port_infos@[k].port_index < desc.ranges@.len(),
        p.port_infos@[k].port_index <= u32::MAX,
    ensures
        p.control_port_meta@.len() == p.control_in_vals@.len(),
        ({
            let port = p.port_infos@[k];
            let range = desc.ranges@[port.port_index as int];
            let meta = p.control_port_meta@[port.buf_index as int];
            &&& meta.symbol@ == port.symbol@
            &&& meta.port_index == port.port_index
            &&& meta.min == if world::is_finite(range.min) {
                range.min
            } else {
                0
            }
            &&& meta.max == if world::is_finite(range.max) {
                range.max
            } else {
                0x3f80_0000
            }
            &&& meta.default == if world::is_finite(range.default) {
                range.default
            } else {
                0
            }
        }),
{
    let infos = p.infos();
    assert(infos[k] == p.port_infos@[k]@);
    port_at_place(infos, k);
    let metas = meta_views(p.control_port_meta@);
    assert(metas.len() == p.control_port_meta@.len());
    let at = p.port_infos@[k].buf_index as int;
    assert(metas[at] == p.control_port_meta@[at]@);
    assert(metas[at] == meta_of(desc.ranges@, infos[k]));
}

/// Saved values come back under their symbols: the last control of a symbol gets what was
/// saved under it, and every other control keeps its value.
pub proof fn saved_values_come_back(
    symbols: Seq<Seq<char>>,
    values: Seq<u32>,
    saved: Map<Seq<char>, u32>,
    i: int,
)
    requires
        symbols.len() == values.len(),
        0 <= i < values.len(),
    ensures
        restored(symbols, values, saved).len() == values.len(),
        saved.contains_key(symbols[i]) && (forall|j: int|
            i < j < symbols.len() ==> #[trigger] symbols[j] != symbols[i]) ==> restored(
            symbols,
            values,
            saved,
        )[i] == saved[symbols[i]],
        !saved.contains_key(symbols[i]) ==> restored(symbols, values, saved)[i] == values[i],
        (exists|j: int| i < j < symbols.len() && #[trigger] symbols[j] == symbols[i]) ==> restored(
            symbols,
            values,
            saved,
        )[i] == values[i],
{
    assert(symbols.contains(symbols[i]));
    symbols.index_of_last_ensures(symbols[i]);
}

/// An atom goes to the first atom input that has the index of the port.
pub proof fn atom_goes_to_its_port(infos: Seq<PortInfoView>, port_index: usize)
    ensures
        atom_input(infos, port_index) is Some <==> exists|k: int|
            0 <= k < infos.len() && (#[trigger] infos[k]).port_index == port_index && infos[k].kind
                == PortKind::AtomIn,
        forall|k: int|
            0 <= k < infos.len() && (#[trigger] infos[k]).port_index == port_index && infos[k].kind
                == PortKind::AtomIn && (forall|j: int|
                0 <= j < k ==> !((#[trigger] infos[j]).port_index == port_index && infos[j].kind
                    == PortKind::AtomIn)) ==> atom_input(infos, port_index) == Some(
                infos[k].buf_index,
            ),
    decreases infos.len(),
{
    if infos.len() > 0 {
        let rest = infos.skip(1);
        atom_goes_to_its_port(rest, port_index);
        assert forall|j: int| 0 <= j < rest.len() implies #[trigger] rest[j] == infos[j + 1] by {}
        let hit = infos[0].port_index == port_index && infos[0].kind == PortKind::AtomIn;
        if !hit {
            if exists|k: int|
                0 <= k < infos.len() && (#[trigger] infos[k]).port_index == port_index
                    && infos[k].kind == PortKind::AtomIn {
                let k = choose|k: int|
                    0 <= k < infos.len() && (#[trigger] infos[k]).port_index == port_index
                        && infos[k].kind == PortKind::AtomIn;
                assert(rest[k - 1].port_index == port_index);
            }
            if atom_input(rest, port_index) is Some {
                let k = choose|k: int|
                    0 <= k < rest.len() && (#[trigger] rest[k]).port_index == port_index
                        && rest[k].kind == PortKind::AtomIn;
                assert(infos[k + 1].port_index == port_index);
            }
        }
        assert forall|k: int|
            0 <= k < infos.len() && (#[trigger] infos[k]).port_index == port_index && infos[k].kind
                == PortKind::AtomIn && (forall|j: int|
                0 <= j < k ==> !((#[trigger] infos[j]).port_index == port_index && infos[j].kind
                    == PortKind::AtomIn)) implies atom_input(infos, port_index) == Some(
            infos[k].buf_index,
        ) by {
            if k > 0 {
                assert(!(infos[0].port_index == port_index && infos[0].kind == PortKind::AtomIn));
                assert(rest[k - 1] == infos[k]);
                assert forall|j: int| 0 <= j < k - 1 implies !((#[trigger] rest[j]).port_index
                    == port_index && rest[j].kind == PortKind::AtomIn) by {
                    assert(rest[j] == infos[j + 1]);
                }
            }
        }
    }
}

/// An atom for a port changes the buffer of that port at most, and none where there is no
/// such atom input.
pub proof fn atom_changes_its_buffer_alone(
    infos: Seq<PortInfoView>,
    sequence_urid: u32,
    inputs: Seq<Seq<u8>>,
    port_index: usize,
    data: Seq<u8>,
    i: int,
)
    requires
        places_ok(infos),
        inputs.len() == of_kind(infos, PortKind::AtomIn).len(),
        0 <= i < inputs.len() <= usize::MAX,
    ensures
        with_event(infos, sequence_urid, inputs, port_index, data).len() == inputs.len(),
        atom_input(infos, port_index) == Some(i as usize) ==> with_event(
            infos,
            sequence_urid,
            inputs,
            port_index,
            data,
        )[i] == atom::appended(inputs[i], sequence_urid, data),
        atom_input(infos, port_index) is None || atom_input(infos, port_index)->0 != i
            ==> with_event(infos, sequence_urid, inputs, port_index, data)[i] == inputs[i],
{
    if atom_input(infos, port_index) is Some {
        atom_input_has_buffer(infos, port_index);
    }
}

/// Messages replace what is in the atom inputs that take MIDI, and leave the others; no
/// message leaves all.
pub proof fn messages_change_midi_inputs_alone(
    infos: Seq<PortInfoView>,
    sequence_urid: u32,
    midi_urid: u32,
    inputs: Seq<Seq<u8>>,
    events: Seq<(i64, Seq<u8>)>,
    i: int,
)
    requires
        0 <= i < inputs.len() <= usize::MAX,
    ensures
        ({
            let after = with_messages(infos, sequence_urid, midi_urid, inputs, events);
            let takes = exists|k: int|
                0 <= k < infos.len() && (#[trigger] infos[k]).kind == PortKind::AtomIn
                    && infos[k].has_midi && infos[k].buf_index == i;
            &&& after.len() == inputs.len()
            &&& events.len() == 0 || !takes ==> after[i] == inputs[i]
            &&& events.len() > 0 && takes ==> after[i] == atom::midi_sequence(
                inputs[i],
                sequence_urid,
                midi_urid,
                events,
            )
        }),
{
    midi_places_of_ports(infos);
    assert(midi_places(infos).contains(i as usize) <==> exists|k: int|
        0 <= k < infos.len() && (#[trigger] infos[k]).kind == PortKind::AtomIn
            && infos[k].has_midi && infos[k].buf_index == i as usize);
    if exists|k: int|
        0 <= k < infos.len() && (#[trigger] infos[k]).kind == PortKind::AtomIn
            && infos[k].has_midi && infos[k].buf_index == i {
        let k = choose|k: int|
            0 <= k < infos.len() && (#[trigger] infos[k]).kind == PortKind::AtomIn
                && infos[k].has_midi && infos[k].buf_index == i;
        assert(infos[k].buf_index == i as usize);
    }
}

/// Every atom that an instance puts out is handed on with the index of its port.
pub proof fn every_atom_comes_out(
    infos: Seq<PortInfoView>,
    bufs: Seq<Vec<u8>>,
    k: int,
    a: int,
) -> (at: int)
    requires
        0 <= k < infos.len(),
        infos[k].kind == PortKind::AtomOut,
        0 <= a < atom::atoms(bufs[infos[k].buf_index as int]@).len(),
    ensures
        0 <= at < atoms_out(infos, bufs).len(),
        atoms_out(infos, bufs)[at] == (
            infos[k].port_index,
            atom::atoms(bufs[infos[k].buf_index as int]@)[a],
        ),
    decreases infos.len(),
{
    let first = infos.drop_last();
    let before = atoms_out(first, bufs);
    if k < first.len() {
        assert(first[k] == infos[k]);
        let at = every_atom_comes_out(first, bufs, k, a);
        assert(atoms_out(infos, bufs)[at] == before[at]);
        at
    } else {
        before.len() + a
    }
}

/// Nothing else comes out: what is handed on is an atom of an atom output, under the index
/// of its port.
pub proof fn only_atoms_come_out(infos: Seq<PortInfoView>, bufs: Seq<Vec<u8>>, at: int) -> (r: (
    int,
    int,
))
    requires
        0 <= at < atoms_out(infos, bufs).len(),
    ensures
        ({
            let (k, a) = r;
            &&& 0 <= k < infos.len()
            &&& infos[k].kind == PortKind::AtomOut
            &&& 0 <= a < atom::atoms(bufs[infos[k].buf_index as int]@).len()
            &&& atoms_out(infos, bufs)[at] == (
                infos[k].port_index,
                atom::atoms(bufs[infos[k].buf_index as int]@)[a],
            )
        }),
    decreases infos.len(),
{
    let first = infos.drop_last();
    let before = atoms_out(first, bufs);
    if at < before.len() {
        let r = only_atoms_come_out(first, bufs, at);
        assert(first[r.0] == infos[r.0]);
        assert(atoms_out(infos, bufs)[at] == before[at]);
        r
    } else {
        (infos.len() - 1, at - before.len())
    }
}

/// A plugin that asks for a worker is offered one beside all else, and no other plugin is.
pub proof fn worker_is_offered(base: Seq<(Seq<char>, FeatureData)>, needs_worker: bool)
    ensures
        offered_to(base, needs_worker).take(base.len() as int) == base,
        needs_worker ==> offered_to(base, needs_worker).len() == base.len() + 1 && offered_to(
            base,
            needs_worker,
        ).last() == ("http://lv2plug.in/ns/ext/worker#schedule"@, FeatureData::WorkerSchedule),
        !needs_worker ==> offered_to(base, needs_worker).len() == base.len(),
{
    assert(offered_to(base, needs_worker).take(base.len() as int) =~= base);
}

/// The control values are listed by their symbols, the value of the last control where two
/// share a symbol.
pub proof fn controls_are_listed_by_symbol(infos: Seq<PortInfoView>, values: Seq<u32>, k: int)
    requires
        places_ok(infos),
        values.len() == of_kind(infos, PortKind::ControlIn).len(),
        0 <= k < infos.len(),
        infos[k].kind == PortKind::ControlIn,
        forall|j: int|
            k < j < infos.len() && (#[trigger] infos[j]).kind == PortKind::ControlIn
                ==> infos[j].symbol != infos[k].symbol,
    ensures
        controls_by_symbol(infos, values).contains_key(infos[k].symbol),
        controls_by_symbol(infos, values)[infos[k].symbol] == values[infos[k].buf_index as int],
{
    let symbols = control_symbols(infos);
    port_at_place(infos, k);
    let at = infos[k].buf_index as int;
    assert(symbols[at] == infos[k].symbol);
    assert forall|i: int| at < i < symbols.len() implies #[trigger] symbols[i] != symbols[at] by {
        place_of_port(infos, PortKind::ControlIn, i);
        let it = of_kind(infos, PortKind::ControlIn)[i];
        let j = choose|j: int| 0 <= j < infos.len() && infos[j] == it;
        assert(infos[j].buf_index == i);
        if j < k {
            places_rise_from_zero(infos, j, k);
        }
        assert(j != k);
        assert(symbols[i] == infos[j].symbol);
    }
    names::collected_is_last(symbols, values, at);
}

/// Atoms come out port by port, in the order of the ports and, of a port, in their own
/// order: behind those of the ports before come all those of the port, if it is an atom
/// output, and nothing else.
pub proof fn atoms_come_out_in_order(infos: Seq<PortInfoView>, bufs: Seq<Vec<u8>>, k: int)
    requires
        0 <= k < infos.len(),
    ensures
        ({
            let at = atoms_out(infos.take(k), bufs).len() as int;
            let atoms = atom::atoms(bufs[infos[k].buf_index as int]@);
            let all = atoms_out(infos, bufs);
            &&& infos[k].kind == PortKind::AtomOut ==> {
                &&& atoms_out(infos.take(k + 1), bufs).len() == at + atoms.len()
                &&& at + atoms.len() <= all.len()
                &&& forall|a: int|
                    0 <= a < atoms.len() ==> all[at + a] == (
                        infos[k].port_index,
                        #[trigger] atoms[a],
                    )
            }
            &&& infos[k].kind != PortKind::AtomOut ==> atoms_out(infos.take(k + 1), bufs).len()
                == at
        }),
        atoms_out(infos.take(0), bufs).len() == 0,
        atoms_out(infos.take(infos.len() as int), bufs) == atoms_out(infos, bufs),
    decreases infos.len(),
{
    let first = infos.drop_last();
    assert(infos.take(infos.len() as int) =~= infos);
    assert(infos.take(k + 1).drop_last() =~= infos.take(k));
    assert(infos.take(k + 1).last() == infos[k]);
    if k < first.len() {
        atoms_come_out_in_order(first, bufs, k);
        assert(first.take(k) =~= infos.take(k));
        assert(first.take(k + 1) =~= infos.take(k + 1));
        assert(first[k] == infos[k]);
    } else {
        assert(first =~= infos.take(k));
    }
}

/// A new instance knows the numbers of the types of its atoms, zero where they have none,
/// whether it asks for a worker, and has four bytes for each frame of a port that is of no
/// use.
pub proof fn new_instance_knows_its_types<S>(
    p: Lv2PluginInstance<S>,
    desc: PluginDesc,
    name: Seq<char>,
    buffer_size: u32,
    uris: Seq<Seq<char>>,
    zero: S,
    i: int,
)
    requires
        p.is_fitted(desc, name, buffer_size, uris, zero),
        uris.no_duplicates(),
        uris.len() <= u32::MAX,
        0 <= i < uris.len(),
    ensures
        uris[i] == "http://lv2plug.in/ns/ext/atom#Sequence"@ ==> p.atom_sequence_urid == i + 1,
        uris[i] == "http://lv2plug.in/ns/ext/midi#MidiEvent"@ ==> p.midi_event_urid == i + 1,
        p.needs_worker <==> exists|f: int|
            0 <= f < desc.features@.len() && (#[trigger] desc.features@[f])@
                == "http://lv2plug.in/ns/ext/worker#schedule"@,
        p.dummy_buf@.len() == 4 * p.frames,
{
    features::number_is_place(uris, i);
    let all = text::texts(desc.features@);
    let worker = "http://lv2plug.in/ns/ext/worker#schedule"@;
    if all.contains(worker) {
        let f = choose|f: int| 0 <= f < all.len() && all[f] == worker;
        assert(desc.features@[f]@ == worker);
    }
    if exists|f: int| 0 <= f < desc.features@.len() && (#[trigger] desc.features@[f])@ == worker {
        let f = choose|f: int|
            0 <= f < desc.features@.len() && (#[trigger] desc.features@[f])@ == worker;
        assert(all[f] == worker);
    }
}

/// A control is found by its symbol at the place of its buffer, that of the last control
/// where two share a symbol.
pub proof fn control_is_found_by_symbol<S>(p: Lv2PluginInstance<S>, k: int)
    requires
        p.wf(),
        0 <= k < p.port_infos@.len(),
        p.port_infos@[k].kind == PortKind::ControlIn,
        forall|j: int|
            k < j < p.port_infos@.len() && (#[trigger] p.port_infos@[j]).kind
                == PortKind::ControlIn ==> p.port_infos@[j].symbol@ != p.port_infos@[k].symbol@,
    ensures
        p.control_in_symbol_map@.contains_key(p.port_infos@[k].symbol@),
        p.control_in_symbol_map@[p.port_infos@[k].symbol@] == p.port_infos@[k].buf_index,
{
    let infos = p.infos();
    let symbols = control_symbols(infos);
    let places = input_places(infos);
    assert(infos[k] == p.port_infos@[k]@);
    port_at_place(infos, k);
    let at = infos[k].buf_index as int;
    assert forall|i: int| at < i < symbols.len() implies #[trigger] symbols[i] != symbols[at] by {
        place_of_port(infos, PortKind::ControlIn, i);
        let it = of_kind(infos, PortKind::ControlIn)[i];
        let j = choose|j: int| 0 <= j < infos.len() && infos[j] == it;
        assert(infos[j] == p.port_infos@[j]@);
        if j < k {
            places_rise_from_zero(infos, j, k);
        }
        assert(j != k);
        assert(symbols[i] == infos[j].symbol);
    }
    names::collected_is_last(symbols, places, at);
}

/// The ranges of a plugin are complete where every control input has one.
pub proof fn ranges_are_complete(desc: PluginDesc)
    requires
        desc.ports@.len() <= usize::MAX,
    ensures
        has_ranges(desc) <==> forall|i: int|
            0 <= i < desc.ports@.len() && (#[trigger] desc.ports@[i]).is_control
                && desc.ports@[i].is_input && !desc.ports@[i].is_audio && !desc.ports@[i].is_cv
                ==> desc.ports@[i].index < desc.ranges@.len(),
{
    let ports = desc.ports@;
    let infos = infos_of(ports);
    let inputs = of_kind(infos, PortKind::ControlIn);
    let from = known_ports_are_kept(ports);
    infos_have_places(ports);
    if has_ranges(desc) {
        assert forall|i: int|
            0 <= i < ports.len() && (#[trigger] ports[i]).is_control && ports[i].is_input
                && !ports[i].is_audio && !ports[i].is_cv implies ports[i].index
            < desc.ranges@.len() by {
            assert(kind_of(ports[i]) == Some(PortKind::ControlIn));
            assert(from.contains(i));
            let j = choose|j: int| 0 <= j < from.len() && from[j] == i;
            assert(infos[j].kind == PortKind::ControlIn);
            port_at_place(infos, j);
            assert(inputs[infos[j].buf_index as int].port_index < desc.ranges@.len());
        }
    }
    if forall|i: int|
        0 <= i < ports.len() && (#[trigger] ports[i]).is_control && ports[i].is_input
            && !ports[i].is_audio && !ports[i].is_cv ==> ports[i].index < desc.ranges@.len() {
        assert forall|a: int| 0 <= a < inputs.len() implies (#[trigger] inputs[a]).port_index
            < desc.ranges@.len() by {
            place_of_port(infos, PortKind::ControlIn, a);
            let j = choose|j: int| 0 <= j < infos.len() && infos[j] == inputs[a];
            let port = ports[from[j]];
            assert(Some(infos[j].kind) == kind_of(port));
            assert(port.is_control && port.is_input && !port.is_audio && !port.is_cv);
        }
    }
}

/// What is seen of ports and controls is what they have.
pub proof fn views_have_every_field(infos: Seq<PortInfo>, metas: Seq<ControlPortMeta>, i: int)
    ensures
        info_views(infos).len() == infos.len(),
        0 <= i < infos.len() ==> {
            &&& info_views(infos)[i].port_index == infos[i].port_index
            &&& info_views(infos)[i].kind == infos[i].kind
            &&& info_views(infos)[i].symbol == infos[i].symbol@
            &&& info_views(infos)[i].buf_index == infos[i].buf_index
            &&& info_views(infos)[i].has_midi == infos[i].has_midi
        },
        meta_views(metas).len() == metas.len(),
        0 <= i < metas.len() ==> {
            &&& meta_views(metas)[i].symbol == metas[i].symbol@
            &&& meta_views(metas)[i].port_index == metas[i].port_index
            &&& meta_views(metas)[i].min == metas[i].min
            &&& meta_views(metas)[i].max == metas[i].max
            &&& meta_views(metas)[i].default == metas[i].default
        },
{
}

/// What is seen of buffers and of atoms that come out is what they hold.
pub proof fn buffers_are_seen(bufs: Seq<Vec<u8>>, atoms: Seq<(usize, Vec<u8>)>, i: int)
    ensures
        contents(bufs).len() == bufs.len(),
        0 <= i < bufs.len() ==> contents(bufs)[i] == bufs[i]@,
        atom_views(atoms).len() == atoms.len(),
        0 <= i < atoms.len() ==> atom_views(atoms)[i] == (atoms[i].0, atoms[i].1@),
{
}

/// A control that [`Lv2PluginInstance::set_control`] sets is the last of the symbol, and is
/// then listed under it by [`Lv2PluginInstance::current_controls`]; every other symbol is
/// listed as before.
pub proof fn set_control_is_listed<S>(
    p: &mut Lv2PluginInstance<S>,
    symbol: &str,
    value: u32,
    r: Result<(), Error>,
    before: NameMap<u32>,
    after: NameMap<u32>,
)
    requires
        old(p).wf(),
        call_ensures(Lv2PluginInstance::<S>::set_control, (p, symbol, value), r),
        call_ensures(Lv2PluginInstance::<S>::current_controls, (&*old(p),), before),
        call_ensures(Lv2PluginInstance::<S>::current_controls, (&*final(p),), after),
    ensures
        r is Ok <==> before@.contains_key(symbol@),
        r is Ok ==> after@ == before@.insert(symbol@, value),
        r is Err ==> after@ == before@,
        r matches Err(e) ==> (e matches Error::ControlPortNotFound { name, port } && name@
            == old(p).name@ && port@ == symbol@),
        final(p).audio_in_bufs == old(p).audio_in_bufs,
        final(p).atom_in_bufs == old(p).atom_in_bufs,
{
    let infos = old(p).infos();
    assert(final(p).infos() == infos);
    if r is Ok {
        set_control_is_seen(infos, old(p).control_in_vals@, symbol@, value);
    } else {
        crate::error::view_has_all_of_error(r->Err_0);
    }
}

/// What [`Lv2PluginInstance::current_controls`] lists comes back by
/// [`Lv2PluginInstance::restore`]: whatever the instance was set to meanwhile, it then lists
/// the same again.
pub proof fn listed_controls_come_back<S>(
    saved_of: &Lv2PluginInstance<S>,
    p: &mut Lv2PluginInstance<S>,
    saved: NameMap<u32>,
    after: NameMap<u32>,
)
    requires
        saved_of.wf(),
        old(p).wf(),
        old(p).port_infos == saved_of.port_infos,
        call_ensures(Lv2PluginInstance::<S>::current_controls, (saved_of,), saved),
        call_ensures(Lv2PluginInstance::<S>::restore, (p, &saved), ()),
        call_ensures(Lv2PluginInstance::<S>::current_controls, (&*final(p),), after),
    ensures
        after@ == saved@,
{
    save_and_restore(saved_of.infos(), saved_of.control_in_vals@, old(p).control_in_vals@);
    assert(final(p).infos() == saved_of.infos());
}

/// [`Lv2PluginInstance::set_control_by_index`] sets one control, where there is one, and
/// leaves the others.
pub proof fn one_control_is_set<S>(p: &mut Lv2PluginInstance<S>, idx: usize, value: u32, i: int)
    requires
        call_ensures(Lv2PluginInstance::<S>::set_control_by_index, (p, idx, value), ()),
        0 <= i < old(p).control_in_vals@.len(),
    ensures
        final(p).control_in_vals@.len() == old(p).control_in_vals@.len(),
        i == idx ==> final(p).control_in_vals@[i] == value,
        i != idx ==> final(p).control_in_vals@[i] == old(p).control_in_vals@[i],
        final(p).audio_in_bufs == old(p).audio_in_bufs,
        final(p).port_infos == old(p).port_infos,
{
}

/// The lists of an instance go together: [`Lv2PluginInstance::control_port_symbols`] and
/// [`Lv2PluginInstance::control_in_port_indices`] have the symbol and the index of each
/// control input at the place of its buffer, and
/// [`Lv2PluginInstance::all_port_symbol_index_pairs`] has those of every port.
pub proof fn lists_of_instance_go_together<S>(
    p: &Lv2PluginInstance<S>,
    symbols: Vec<String>,
    indices: Vec<u32>,
    all: Vec<(String, u32)>,
    k: int,
)
    requires
        p.wf(),
        call_ensures(Lv2PluginInstance::<S>::control_port_symbols, (p,), symbols),
        call_ensures(Lv2PluginInstance::<S>::control_in_port_indices, (p,), indices),
        call_ensures(Lv2PluginInstance::<S>::all_port_symbol_index_pairs, (p,), all),
        0 <= k < p.port_infos@.len(),
        p.port_infos@[k].port_index <= u32::MAX,
    ensures
        symbols@.len() == p.control_in_vals@.len(),
        indices@.len() == p.control_in_vals@.len(),
        all@.len() == p.port_infos@.len(),
        all@[k].0@ == p.port_infos@[k].symbol@,
        all@[k].1 == p.port_infos@[k].port_index,
        p.port_infos@[k].kind == PortKind::ControlIn ==> {
            &&& symbols@[p.port_infos@[k].buf_index as int]@ == p.port_infos@[k].symbol@
            &&& indices@[p.port_infos@[k].buf_index as int] == p.port_infos@[k].port_index
        },
{
    let infos = p.infos();
    assert(infos[k] == p.port_infos@[k]@);
    port_at_place(infos, k);
    let texts = text::texts(symbols@);
    assert(texts.len() == symbols@.len());
    let pairs = all@.map_values(|q: (String, u32)| (q.0@, q.1));
    assert(pairs.len() == all@.len());
    assert(pairs[k] == (all@[k].0@, all@[k].1));
    assert(pairs[k] == infos.map_values(|q: PortInfoView| (q.symbol, q.port_index as u32))[k]);
    if p.port_infos@[k].kind == PortKind::ControlIn {
        let at = p.port_infos@[k].buf_index as int;
        assert(texts[at] == symbols@[at]@);
    }
}

/// [`Lv2PluginInstance::connections`] connects every port of a known kind to its own buffer,
/// in the order of the ports, and then every other port to the one that is of no use.
pub proof fn every_port_is_connected<S>(
    p: &Lv2PluginInstance<S>,
    r: Vec<(usize, Connection)>,
    k: int,
)
    requires
        call_ensures(Lv2PluginInstance::<S>::connections, (p,), r),
    ensures
        r@.len() == p.port_infos@.len() + p.unknown_ports@.len(),
        0 <= k < p.port_infos@.len() ==> {
            &&& r@[k].0 == p.port_infos@[k].port_index
            &&& r@[k].1 == (Connection::Buffer {
                kind: p.port_infos@[k].kind,
                buf_index: p.port_infos@[k].buf_index,
            })
        },
        0 <= k < p.unknown_ports@.len() ==> {
            &&& r@[p.port_infos@.len() + k].0 == p.unknown_ports@[k]
            &&& r@[p.port_infos@.len() + k].1 is Dummy
        },
{
    let infos = p.infos();
    if 0 <= k < p.port_infos@.len() {
        assert(infos[k] == p.port_infos@[k]@);
    }
}

/// [`Lv2PluginInstance::write_atom_to_port`] appends an atom to the buffer of its port, where
/// there is room, and touches no other buffer.
pub proof fn atom_is_written_to_its_port<S>(
    p: &mut Lv2PluginInstance<S>,
    port_index: usize,
    protocol: u32,
    data: &[u8],
    k: int,
    i: int,
)
    requires
        old(p).wf(),
        call_ensures(
            Lv2PluginInstance::<S>::write_atom_to_port,
            (p, port_index, protocol, data),
            (),
        ),
        0 <= k < old(p).port_infos@.len(),
        old(p).port_infos@[k].kind == PortKind::AtomIn,
        old(p).port_infos@[k].port_index == port_index,
        forall|j: int|
            0 <= j < k ==> (#[trigger] old(p).port_infos@[j]).port_index != port_index,
        0 <= i < old(p).atom_in_bufs@.len() <= usize::MAX,
    ensures
        final(p).atom_in_bufs@.len() == old(p).atom_in_bufs@.len(),
        i == old(p).port_infos@[k].buf_index ==> final(p).atom_in_bufs@[i]@ == atom::appended(
            old(p).atom_in_bufs@[i]@,
            old(p).atom_sequence_urid,
            data@,
        ),
        i != old(p).port_infos@[k].buf_index ==> final(p).atom_in_bufs@[i]@
            == old(p).atom_in_bufs@[i]@,
        final(p).control_in_vals == old(p).control_in_vals,
{
    let infos = old(p).infos();
    assert forall|j: int| 0 <= j < infos.len() implies #[trigger] infos[j]
        == old(p).port_infos@[j]@ by {}
    atom_goes_to_its_port(infos, port_index);
    assert(infos[k].port_index == port_index);
    assert(atom_input(infos, port_index) == Some(infos[k].buf_index));
    let before = contents(old(p).atom_in_bufs@);
    let after = contents(final(p).atom_in_bufs@);
    atom_changes_its_buffer_alone(
        infos,
        old(p).atom_sequence_urid,
        before,
        port_index,
        data@,
        i,
    );
    assert(after.len() == final(p).atom_in_bufs@.len());
    assert(before[i] == old(p).atom_in_bufs@[i]@);
    assert(after[i] == final(p).atom_in_bufs@[i]@);
}

/// [`Lv2PluginInstance::clear_atom_buffers`] leaves an empty sequence in every atom input, and
/// in every atom output how many bytes may be written.
pub proof fn cleared_buffers_are_empty<S>(p: &mut Lv2PluginInstance<S>, i: int)
    requires
        old(p).wf(),
        call_ensures(Lv2PluginInstance::<S>::clear_atom_buffers, (p,), ()),
    ensures
        0 <= i < old(p).atom_in_bufs@.len() ==> {
            &&& atom::number_at(final(p).atom_in_bufs@[i]@, 0) == 8
            &&& atom::number_at(final(p).atom_in_bufs@[i]@, 4) == old(p).atom_sequence_urid
            &&& atom::atoms(final(p).atom_in_bufs@[i]@).len() == 0
        },
        0 <= i < old(p).atom_out_bufs@.len() ==> {
            &&& atom::number_at(final(p).atom_out_bufs@[i]@, 0) == 8184
            &&& atom::number_at(final(p).atom_out_bufs@[i]@, 4) == old(p).atom_sequence_urid
        },
        final(p).control_in_vals == old(p).control_in_vals,
        final(p).audio_in_bufs == old(p).audio_in_bufs,
        final(p).audio_out_bufs == old(p).audio_out_bufs,
{
    let urid = old(p).atom_sequence_urid;
    let ins = contents(final(p).atom_in_bufs@);
    let outs = contents(final(p).atom_out_bufs@);
    if 0 <= i < old(p).atom_in_bufs@.len() {
        let b = old(p).atom_in_bufs@[i]@;
        assert(b.len() == 8192);
        assert(ins[i] == final(p).atom_in_bufs@[i]@);
        atom::layout_of_empty_sequence(b, urid);
        atom::empty_sequence_has_no_atoms(b, urid);
    }
    if 0 <= i < old(p).atom_out_bufs@.len() {
        let b = old(p).atom_out_bufs@[i]@;
        assert(b.len() == 8192);
        assert(outs[i] == final(p).atom_out_bufs@[i]@);
        atom::layout_of_output(b, urid);
    }
}

/// A plugin is counted by its ports: [`Lv2PluginInstance::audio_in_count`] and
/// [`Lv2PluginInstance::audio_out_count`] give its audio buffers, and
/// [`Lv2PluginInstance::has_midi_in`] whether an atom input takes MIDI.
pub proof fn instance_is_counted<S>(
    p: &Lv2PluginInstance<S>,
    ins: usize,
    outs: usize,
    midi: bool,
)
    requires
        p.wf(),
        call_ensures(Lv2PluginInstance::<S>::audio_in_count, (p,), ins),
        call_ensures(Lv2PluginInstance::<S>::audio_out_count, (p,), outs),
        call_ensures(Lv2PluginInstance::<S>::has_midi_in, (p,), midi),
    ensures
        ins == p.audio_in_bufs@.len(),
        outs == p.audio_out_bufs@.len(),
        midi <==> exists|k: int|
            0 <= k < p.port_infos@.len() && (#[trigger] p.port_infos@[k]).kind == PortKind::AtomIn
                && p.port_infos@[k].has_midi,
{
    let infos = p.infos();
    let places = midi_places(infos);
    midi_places_of_ports(infos);
    if places.len() > 0 {
        assert(places.contains(places[0]));
        let k = choose|k: int|
            0 <= k < infos.len() && (#[trigger] infos[k]).kind == PortKind::AtomIn
                && infos[k].has_midi && infos[k].buf_index == places[0];
        assert(infos[k] == p.port_infos@[k]@);
    }
    if exists|k: int|
        0 <= k < p.port_infos@.len() && (#[trigger] p.port_infos@[k]).kind == PortKind::AtomIn
            && p.port_infos@[k].has_midi {
        let k = choose|k: int|
            0 <= k < p.port_infos@.len() && (#[trigger] p.port_infos@[k]).kind == PortKind::AtomIn
                && p.port_infos@[k].has_midi;
        assert(infos[k] == p.port_infos@[k]@);
        assert(places.contains(infos[k].buf_index));
    }
}

/// [`worker_start`] starts a worker just where the plugin asks for one and gives all the code
/// that it takes.
pub proof fn worker_is_started_when_complete(
    needs_worker: bool,
    iface: Option<(bool, bool)>,
    r: WorkerStart,
)
    requires
        call_ensures(worker_start, (needs_worker, iface), r),
    ensures
        !needs_worker || iface is None ==> r is NotWanted,
        needs_worker ==> (iface matches Some((work, response)) ==> (r is Start <==> work
            && response) && (r is Incomplete <==> !work || !response)),
{
}

/// [`wants_worker`] and [`plugin_features`] go together: a plugin that names the feature is
/// offered it behind all others, and any other plugin is offered the others alone.
pub proof fn worker_is_offered_where_named(
    desc: &PluginDesc,
    feature_set: &FeatureSet,
    wants: bool,
    r: Vec<Feature>,
    i: int,
)
    requires
        call_ensures(wants_worker, (desc,), wants),
        call_ensures(plugin_features, (feature_set, wants), r),
        0 <= i < feature_set.features@.len(),
    ensures
        wants <==> exists|f: int|
            0 <= f < desc.features@.len() && (#[trigger] desc.features@[f])@
                == "http://lv2plug.in/ns/ext/worker#schedule"@,
        r@.len() == feature_set.features@.len() + if wants {
            1int
        } else {
            0int
        },
        r@[i].uri@ == feature_set.features@[i].uri@,
        r@[i].data == feature_set.features@[i].data,
        wants ==> r@.last().uri@ == "http://lv2plug.in/ns/ext/worker#schedule"@ && r@.last().data
            is WorkerSchedule,
{
    let all = text::texts(desc.features@);
    let worker = "http://lv2plug.in/ns/ext/worker#schedule"@;
    if all.contains(worker) {
        let f = choose|f: int| 0 <= f < all.len() && all[f] == worker;
        assert(desc.features@[f]@ == worker);
    }
    if exists|f: int| 0 <= f < desc.features@.len() && (#[trigger] desc.features@[f])@ == worker {
        let f = choose|f: int|
            0 <= f < desc.features@.len() && (#[trigger] desc.features@[f])@ == worker;
        assert(all[f] == worker);
    }
    let views = features::feature_views(r@);
    let base = features::feature_views(feature_set.features@);
    assert(views.len() == r@.len() && base.len() == feature_set.features@.len());
    assert(views[i] == (r@[i].uri@, r@[i].data));
    assert(base[i] == (feature_set.features@[i].uri@, feature_set.features@[i].data));
    if wants {
        assert(views.last() == (r@.last().uri@, r@.last().data));
    }
}

/// [`Lv2PluginInstance::drain_atom_output_events`] hands out the atoms of every atom output,
/// with the index of its port.
pub proof fn drained_atoms_are_those_of_outputs<S>(
    p: &Lv2PluginInstance<S>,
    r: Vec<(usize, Vec<u8>)>,
    k: int,
    a: int,
) -> (at: int)
    requires
        call_ensures(Lv2PluginInstance::<S>::drain_atom_output_events, (p,), r),
        0 <= k < p.port_infos@.len(),
        p.port_infos@[k].kind == PortKind::AtomOut,
        0 <= a < atom::atoms(p.atom_out_bufs@[p.port_infos@[k].buf_index as int]@).len(),
    ensures
        0 <= at < r@.len(),
        r@[at].0 == p.port_infos@[k].port_index,
        r@[at].1@ == atom::atoms(p.atom_out_bufs@[p.port_infos@[k].buf_index as int]@)[a],
{
    let infos = p.infos();
    assert(infos[k] == p.port_infos@[k]@);
    let at = every_atom_comes_out(infos, p.atom_out_bufs@, k, a);
    let views = atom_views(r@);
    assert(views.len() == r@.len());
    assert(views[at] == (r@[at].0, r@[at].1@));
    at
}

/// [`Lv2PluginInstance::write_midi_to_atom_in`] writes messages to every atom input that takes
/// MIDI, and to no other.
pub proof fn messages_are_written_to_midi_inputs<S>(
    p: &mut Lv2PluginInstance<S>,
    events: &[(i64, &[u8])],
    i: int,
)
    requires
        call_ensures(Lv2PluginInstance::<S>::write_midi_to_atom_in, (p, events), ()),
        0 <= i < old(p).atom_in_bufs@.len() <= usize::MAX,
    ensures
        ({
            let infos = old(p).infos();
            let takes = exists|k: int|
                0 <= k < infos.len() && (#[trigger] infos[k]).kind == PortKind::AtomIn
                    && infos[k].has_midi && infos[k].buf_index == i;
            &&& final(p).atom_in_bufs@.len() == old(p).atom_in_bufs@.len()
            &&& events@.len() == 0 || !takes ==> final(p).atom_in_bufs@[i]@
                == old(p).atom_in_bufs@[i]@
            &&& events@.len() > 0 && takes ==> final(p).atom_in_bufs@[i]@ == atom::midi_sequence(
                old(p).atom_in_bufs@[i]@,
                old(p).atom_sequence_urid,
                old(p).midi_event_urid,
                atom::event_views(events@),
            )
        }),
{
    let before = contents(old(p).atom_in_bufs@);
    let after = contents(final(p).atom_in_bufs@);
    messages_change_midi_inputs_alone(
        old(p).infos(),
        old(p).atom_sequence_urid,
        old(p).midi_event_urid,
        before,
        atom::event_views(events@),
        i,
    );
    assert(before.len() == old(p).atom_in_bufs@.len());
    assert(after.len() == final(p).atom_in_bufs@.len());
    assert(before[i] == old(p).atom_in_bufs@[i]@);
    assert(after[i] == final(p).atom_in_bufs@[i]@);
    assert(atom::event_views(events@).len() == events@.len());
}

/// [`filled`] gives as many of a value as are asked for.
pub proof fn filled_buffer_has_one_value<T: Copy>(n: usize, x: T, r: Vec<T>, i: int)
    requires
        call_ensures(filled::<T>, (n, x), r),
        0 <= i < n,
    ensures
        r@.len() == n,
        r@[i] == x,
{
}

/// An instance made by [`Lv2PluginInstance::new`] has the name and the ports of its plugin,
/// silent buffers for a block and 8192 frames at least, and its controls at their defaults.
pub proof fn made_instance_is_that_of_plugin<S: Copy>(
    world: &World,
    uri: &str,
    name: &str,
    buffer_size: u32,
    feature_set: &FeatureSet,
    instantiated: bool,
    zero: S,
    r: Result<Lv2PluginInstance<S>, Error>,
    w: int,
    k: int,
)
    requires
        call_ensures(
            Lv2PluginInstance::<S>::new,
            (world, uri, name, buffer_size, feature_set, instantiated, zero),
            r,
        ),
        0 <= w < world.plugins@.len(),
        world.plugins@[w].uri@ == uri@,
        forall|j: int| 0 <= j < w ==> (#[trigger] world.plugins@[j]).uri@ != uri@,
    ensures
        r is Ok <==> instantiated,
        r matches Err(e) ==> (e matches Error::Lv2Instantiation { name: n, uri: u, reason } && n@
            == name@ && u@ == uri@),
        r matches Ok(p) ==> {
            let desc = world.plugins@[w];
            &&& p.name@ == name@
            &&& p.uri@ == uri@
            &&& p.frames >= 8192 && p.frames >= buffer_size
            &&& p.infos() == infos_of(desc.ports@)
            &&& 0 <= k < p.port_infos@.len() && p.port_infos@[k].kind == PortKind::ControlIn
                && p.port_infos@[k].port_index < desc.ranges@.len() ==> {
                let default = desc.ranges@[p.port_infos@[k].port_index as int].default;
                let value = p.control_in_vals@[p.port_infos@[k].buf_index as int];
                &&& world::is_finite(default) ==> value == default
                &&& !world::is_finite(default) ==> value == 0
            }
        },
{
    world::first_plugin_of_uri(*world, uri@, w);
    match r {
        Ok(p) => {
            new_buffers_are_silent(
                p,
                world.plugins@[w],
                name@,
                buffer_size,
                feature_set.mapper@,
                zero,
            );
            if 0 <= k < p.port_infos@.len() && p.port_infos@[k].port_index
                < world.plugins@[w].ranges@.len() {
                controls_start_at_defaults(
                    p,
                    world.plugins@[w],
                    name@,
                    buffer_size,
                    feature_set.mapper@,
                    zero,
                    k,
                );
            }
        },
        Err(e) => {
            crate::error::view_has_all_of_error(e);
        },
    }
}

/// [`Lv2PluginInstance::new`] makes no instance of a plugin that is not there.
pub proof fn unknown_plugin_is_not_made<S: Copy>(
    world: &World,
    uri: &str,
    name: &str,
    buffer_size: u32,
    feature_set: &FeatureSet,
    instantiated: bool,
    zero: S,
    r: Result<Lv2PluginInstance<S>, Error>,
)
    requires
        call_ensures(
            Lv2PluginInstance::<S>::new,
            (world, uri, name, buffer_size, feature_set, instantiated, zero),
            r,
        ),
        forall|j: int|
            0 <= j < world.plugins@.len() ==> (#[trigger] world.plugins@[j]).uri@ != uri@,
    ensures
        r matches Err(Error::Lv2PluginNotFound { uri: u }) && u@ == uri@,
{
    world::has_uri_of_a_plugin(*world, uri@);
    if let Err(e) = r {
        crate::error::view_has_all_of_error(e);
    }
}

/// [`check_complete`] says whether every control input of every plugin has a range.
pub proof fn complete_world_has_all_ranges(world: &World, r: bool, w: int, i: int)
    requires
        call_ensures(check_complete, (world,), r),
        r,
        0 <= w < world.plugins@.len(),
        world.plugins@[w].ports@.len() <= usize::MAX,
        0 <= i < world.plugins@[w].ports@.len(),
        world.plugins@[w].ports@[i].is_control,
        world.plugins@[w].ports@[i].is_input,
        !world.plugins@[w].ports@[i].is_audio,
        !world.plugins@[w].ports@[i].is_cv,
    ensures
        world.plugins@[w].ports@[i].index < world.plugins@[w].ranges@.len(),
{
    assert(has_ranges(world.plugins@[w]));
    ranges_are_complete(world.plugins@[w]);
}

/// [`collect_controls`] lists values by their symbols, the last where two share a symbol.
pub proof fn collected_controls_are_listed(
    symbols: &Vec<String>,
    values: &Vec<u32>,
    r: NameMap<u32>,
    i: int,
)
    requires
        call_ensures(collect_controls, (symbols, values), r),
        symbols@.len() == values@.len(),
        0 <= i < symbols@.len(),
        forall|j: int| i < j < symbols@.len() ==> (#[trigger] symbols@[j])@ != symbols@[i]@,
    ensures
        r@.contains_key(symbols@[i]@),
        r@[symbols@[i]@] == values@[i],
{
    let names = text::texts(symbols@);
    assert(names[i] == symbols@[i]@);
    assert forall|j: int| i < j < names.len() implies #[trigger] names[j] != names[i] by {
        assert(names[j] == symbols@[j]@);
    }
    names::collected_is_last(names, values@, i);
}

/// [`Lv2PluginInstance::can_drain`] admits every instance whose atom outputs end in their
/// buffers, which is so when a plugin has written no more than it may.
pub proof fn bounded_outputs_can_be_drained<S>(p: &Lv2PluginInstance<S>, r: bool)
    requires
        p.wf(),
        call_ensures(Lv2PluginInstance::<S>::can_drain, (p,), r),
        forall|i: int|
            0 <= i < p.atom_out_bufs@.len() ==> atom::number_at(
                (#[trigger] p.atom_out_bufs@[i])@,
                0,
            ) <= 8184,
    ensures
        r,
{
    assert forall|i: int| 0 <= i < p.atom_out_bufs@.len() implies atom::readable(
        (#[trigger] p.atom_out_bufs@[i])@,
    ) by {
        assert(p.atom_out_bufs@[i]@.len() == 8192);
        atom::bounded_body_is_readable(p.atom_out_bufs@[i]@);
    }
}

/// An instance shows its own buffers and controls.
pub proof fn instance_shows_its_own<S>(
    p: &Lv2PluginInstance<S>,
    outs: &Vec<Vec<S>>,
    metas: &Vec<ControlPortMeta>,
)
    requires
        call_ensures(Lv2PluginInstance::<S>::audio_out_bufs, (p,), outs),
        call_ensures(Lv2PluginInstance::<S>::control_port_meta, (p,), metas),
    ensures
        outs@ == p.audio_out_bufs@,
        metas@ == p.control_port_meta@,
{
}

} // verus!
