//! What happens to audio and events in one cycle of the audio thread.
//!
//! A cycle runs like this. [`ChainProcessHandler::receive_midi`] fetches the
//! messages that wait and [`ChainProcessHandler::begin`] hands control values,
//! events and messages to the plugins; [`ChainProcessHandler::load_input`] fills
//! the first slot. The plugins of a slot are then run, and
//! [`ChainProcessHandler::advance`] takes their audio on to the next slot. At
//! the end [`ChainProcessHandler::notify_events`] gives what the plugins say to
//! their windows, and [`ChainProcessHandler::write_output`] fills the outputs.
use vstd::prelude::*;

use crate::atom;
use crate::bridge;
use crate::bridge::ControlBridge;
use crate::midi;
use crate::midi::{MidiEvent, MidiPort};
use crate::plugin;
use crate::plugin::{Lv2PluginInstance, PortInfoView, MAX_BUF_FRAMES};
use crate::slot::ChainSlot;

verus! {

/// How many channels go from one slot to the next.
pub const MAX_ROUTE_CHANNELS: usize = 2;

/// The protocol of the events that go to a window.
pub const NOTIFY_PROTOCOL: u32 = 6;

/// An atom on its way between a plugin and its window.
#[derive(Debug)]
pub struct AtomUiEvent {
    pub plugin_idx: usize,
    pub port_index: usize,
    pub protocol: u32,
    pub data: Vec<u8>,
}

/// An atom on its way, with its bytes as a sequence.
pub ghost struct AtomUiEventView {
    pub plugin_idx: usize,
    pub port_index: usize,
    pub protocol: u32,
    pub data: Seq<u8>,
}

impl View for AtomUiEvent {
    type V = AtomUiEventView;

    open spec fn view(&self) -> AtomUiEventView {
        AtomUiEventView {
            plugin_idx: self.plugin_idx,
            port_index: self.port_index,
            protocol: self.protocol,
            data: self.data@,
        }
    }
}

/// The views of events.
pub open spec fn event_views(events: Seq<AtomUiEvent>) -> Seq<AtomUiEventView> {
    events.map_values(|e: AtomUiEvent| e@)
}

/// The plugins of a chain, with what lies between them.
pub struct ChainProcessHandler<S> {
    pub plugins: Vec<Lv2PluginInstance<S>>,
    pub slots: Vec<ChainSlot>,
    pub slot_mixes: Vec<Option<Vec<[u32; 2]>>>,
    pub midi_consumers: Vec<(usize, MidiPort)>,
    pub route_buf: Vec<Vec<S>>,
    /// How many frames the audio buffers of the plugins have.
    pub frames: usize,
}

/// `dst` with the first `n` samples of `src` in place of its own.
pub open spec fn copied<S>(dst: Seq<S>, src: Seq<S>, n: int) -> Seq<S> {
    src.take(n) + dst.skip(n)
}

/// Whether `macc` may give `acc` for a sample times a gain, added to `prev`.
pub open spec fn adds<S, F: Fn(S, S, u32) -> S>(
    macc: F,
    prev: S,
    sample: S,
    gain: u32,
    acc: S,
) -> bool {
    macc.ensures((prev, sample, gain), acc)
}

/// Whether `acc` is the sample at `s` of the channels `bufs`, each times its
/// gain for one side, summed up from the first channel to the one before `n`.
/// `macc` adds a sample times a gain. A channel without gains is left out.
pub open spec fn accumulated<S, F: Fn(S, S, u32) -> S>(
    macc: F,
    zero: S,
    bufs: Seq<Vec<S>>,
    mix: Seq<[u32; 2]>,
    side: int,
    s: int,
    n: int,
    acc: S,
) -> bool
    decreases n,
{
    if n <= 0 {
        acc == zero
    } else if n - 1 < mix.len() {
        exists|prev: S| #[trigger]
            adds(macc, prev, bufs[n - 1]@[s], mix[n - 1]@[side], acc) && accumulated(
                macc,
                zero,
                bufs,
                mix,
                side,
                s,
                n - 1,
                prev,
            )
    } else {
        accumulated(macc, zero, bufs, mix, side, s, n - 1, acc)
    }
}

/// Whether the first `n` samples of `after` are the mix of `bufs` for one side,
/// and the others those of `before`.
pub open spec fn mixed<S, F: Fn(S, S, u32) -> S>(
    macc: F,
    zero: S,
    bufs: Seq<Vec<S>>,
    mix: Seq<[u32; 2]>,
    side: int,
    n: int,
    before: Seq<S>,
    after: Seq<S>,
) -> bool {
    &&& after.len() == before.len()
    &&& forall|s: int|
        0 <= s < n ==> accumulated(
            macc,
            zero,
            bufs,
            mix,
            side,
            s,
            bufs.len() as int,
            #[trigger] after[s],
        )
    &&& forall|s: int| n <= s < after.len() ==> #[trigger] after[s] == before[s]
}

/// Whether `macc` can be called with anything.
pub open spec fn callable<S, F: Fn(S, S, u32) -> S>(macc: F) -> bool {
    forall|a: S, b: S, g: u32| #[trigger] macc.requires((a, b, g))
}

/// One more channel.
proof fn accumulate<S, F: Fn(S, S, u32) -> S>(
    macc: F,
    zero: S,
    bufs: Seq<Vec<S>>,
    mix: Seq<[u32; 2]>,
    side: int,
    s: int,
    c: int,
    prev: S,
    acc: S,
)
    requires
        0 <= c < mix.len(),
        accumulated(macc, zero, bufs, mix, side, s, c, prev),
        adds(macc, prev, bufs[c]@[s], mix[c]@[side], acc),
    ensures
        accumulated(macc, zero, bufs, mix, side, s, c + 1, acc),
{
    let n = c + 1;
    assert(adds(macc, prev, bufs[n - 1]@[s], mix[n - 1]@[side], acc));
}

/// Copies the first `n` samples.
fn copy_samples<S: Copy>(dst: &mut [S], src: &[S], n: usize)
    requires
        n <= old(dst)@.len(),
        n <= src@.len(),
    ensures
        final(dst)@ == copied(old(dst)@, src@, n as int),
        final(dst)@.len() == old(dst)@.len(),
{
    let ghost start = dst@;
    let len: usize = dst.len();
    let mut i: usize = 0;
    while i < n
        invariant
            start == old(dst)@,
            n <= len,
            n <= src@.len(),
            len == start.len(),
            dst@.len() == len,
            i <= n,
            forall|k: int| 0 <= k < i ==> #[trigger] dst@[k] == src@[k],
            forall|k: int| i <= k < len ==> #[trigger] dst@[k] == start[k],
        decreases n - i,
    {
        dst[i] = src[i];
        i += 1;
    }
    assert(dst@ =~= copied(start, src@, n as int));
}

/// Makes the first `n` samples silent.
fn silence<S: Copy>(dst: &mut [S], n: usize, zero: S)
    requires
        n <= old(dst)@.len(),
    ensures
        final(dst)@ == copied(old(dst)@, plugin::repeated(n as nat, zero), n as int),
        final(dst)@.len() == old(dst)@.len(),
{
    let ghost start = dst@;
    let len: usize = dst.len();
    let mut i: usize = 0;
    while i < n
        invariant
            start == old(dst)@,
            n <= len,
            len == start.len(),
            dst@.len() == len,
            i <= n,
            forall|k: int| 0 <= k < i ==> #[trigger] dst@[k] == zero,
            forall|k: int| i <= k < len ==> #[trigger] dst@[k] == start[k],
        decreases n - i,
    {
        dst[i] = zero;
        i += 1;
    }
    assert(dst@ =~= copied(start, plugin::repeated(n as nat, zero), n as int));
}

/// Mixes channels down to one side.
fn mix_side<S: Copy, F: Fn(S, S, u32) -> S>(
    bufs: &Vec<Vec<S>>,
    mix: &Vec<[u32; 2]>,
    side: usize,
    dst: &mut [S],
    n: usize,
    zero: S,
    macc: &F,
)
    requires
        side < 2,
        n <= old(dst)@.len(),
        forall|c: int| 0 <= c < bufs@.len() ==> n <= (#[trigger] bufs@[c])@.len(),
        callable(*macc),
    ensures
        mixed(*macc, zero, bufs@, mix@, side as int, n as int, old(dst)@, final(dst)@),
{
    let ghost start = dst@;
    silence(dst, n, zero);
    let len: usize = dst.len();
    let mut c: usize = 0;
    while c < bufs.len()
        invariant
            side < 2,
            start == old(dst)@,
            len == start.len(),
            n <= len,
            dst@.len() == len,
            forall|k: int| 0 <= k < bufs@.len() ==> n <= (#[trigger] bufs@[k])@.len(),
            callable(*macc),
            c <= bufs@.len(),
            forall|s: int|
                0 <= s < n ==> accumulated(
                    *macc,
                    zero,
                    bufs@,
                    mix@,
                    side as int,
                    s,
                    c as int,
                    #[trigger] dst@[s],
                ),
            forall|s: int| n <= s < len ==> #[trigger] dst@[s] == start[s],
        decreases bufs@.len() - c,
    {
        if c < mix.len() {
            let gain: u32 = mix[c][side];
            let ghost before = dst@;
            let mut s: usize = 0;
            while s < n
                invariant
                    side < 2,
                    len == start.len(),
                    n <= len,
                    dst@.len() == len,
                    before.len() == len,
                    c < bufs@.len(),
                    c < mix@.len(),
                    n <= bufs@[c as int]@.len(),
                    gain == mix@[c as int]@[side as int],
                    callable(*macc),
                    s <= n,
                    forall|k: int|
                        0 <= k < n ==> accumulated(
                            *macc,
                            zero,
                            bufs@,
                            mix@,
                            side as int,
                            k,
                            c as int,
                            #[trigger] before[k],
                        ),
                    forall|k: int|
                        0 <= k < s ==> macc.ensures(
                            (before[k], bufs@[c as int]@[k], gain),
                            #[trigger] dst@[k],
                        ),
                    forall|k: int| s <= k < len ==> #[trigger] dst@[k] == before[k],
                decreases n - s,
            {
                assert(macc.requires((dst@[s as int], bufs@[c as int]@[s as int], gain)));
                dst[s] = macc(dst[s], bufs[c][s], gain);
                s += 1;
            }
            assert forall|k: int| 0 <= k < n implies accumulated(
                *macc,
                zero,
                bufs@,
                mix@,
                side as int,
                k,
                c + 1,
                #[trigger] dst@[k],
            ) by {
                accumulate(
                    *macc,
                    zero,
                    bufs@,
                    mix@,
                    side as int,
                    k,
                    c as int,
                    before[k],
                    dst@[k],
                );
            }
        }
        c += 1;
    }
}

impl<S> ChainProcessHandler<S> {
    /// There is a slot, every slot has its instances and its mix, messages go to
    /// instances, and the buffers have their lengths.
    pub open spec fn wf(self) -> bool {
        &&& forall|p: int|
            0 <= p < self.plugins@.len() ==> (#[trigger] self.plugins@[p]).wf()
                && self.plugins@[p].frames == self.frames
        &&& self.slots@.len() > 0
        &&& forall|k: int|
            0 <= k < self.slots@.len() ==> (#[trigger] self.slots@[k]).within(self.plugins@.len())
        &&& self.slot_mixes@.len() == self.slots@.len()
        &&& forall|k: int|
            0 <= k < self.midi_consumers@.len() ==> (#[trigger] self.midi_consumers@[k]).0
                < self.plugins@.len()
        &&& self.route_buf@.len() == MAX_ROUTE_CHANNELS
        &&& plugin::all_long(self.route_buf@, MAX_BUF_FRAMES as nat)
        &&& self.frames >= MAX_BUF_FRAMES
    }

    /// The audio outputs of the instance `p`.
    pub open spec fn outs(self, p: usize) -> Seq<Vec<S>> {
        self.plugins@[p as int].audio_out_bufs@
    }

    /// The audio inputs of the instance `p`.
    pub open spec fn ins(self, p: int) -> Seq<Vec<S>> {
        self.plugins@[p].audio_in_bufs@
    }

    /// An audio output, where there is one.
    pub open spec fn out(self, p: usize, b: int) -> Option<Seq<S>> {
        if b < self.outs(p).len() {
            Some(self.outs(p)[b]@)
        } else {
            None
        }
    }

    /// What the slot `k` has for the channel `ch`: its output of that number, or
    /// the first output of the instance for that side.
    pub open spec fn channel(self, k: int, ch: int) -> Option<Seq<S>> {
        match self.slots@[k] {
            ChainSlot::Single(i) => self.out(i, ch),
            ChainSlot::DualMono { left, right } => if ch == 0 {
                self.out(left, 0)
            } else {
                self.out(right, 0)
            },
        }
    }
}

/// The channel that the input `b` of the instance `p` takes its audio from, for
/// a slot behind another.
pub open spec fn fed_by(slot: ChainSlot, p: int, b: int) -> Option<int> {
    match slot {
        ChainSlot::Single(i) => if p == i && b < MAX_ROUTE_CHANNELS {
            Some(b)
        } else {
            None
        },
        ChainSlot::DualMono { left, right } => if b == 0 && p == right {
            Some(1)
        } else if b == 0 && p == left {
            Some(0)
        } else {
            None
        },
    }
}

/// The instance, and its input, that an input of the chain goes to.
pub open spec fn input_target(slot: ChainSlot, port: usize) -> Option<(usize, usize)> {
    match slot {
        ChainSlot::Single(i) => Some((i, port)),
        ChainSlot::DualMono { left, right } => if port == 0 {
            Some((left, 0))
        } else if port == 1 {
            Some((right, 0))
        } else {
            None
        },
    }
}

/// Whether two lists of instances are the same but for the audio inputs, and
/// well-formed.
pub open spec fn only_inputs_differ<S>(
    before: Seq<Lv2PluginInstance<S>>,
    after: Seq<Lv2PluginInstance<S>>,
) -> bool {
    &&& after.len() == before.len()
    &&& forall|p: int|
        0 <= p < after.len() ==> (#[trigger] after[p]).wf() && after[p] == (Lv2PluginInstance {
            audio_in_bufs: after[p].audio_in_bufs,
            ..before[p]
        })
}

/// Whether the audio inputs of `after` are those of `before`, with samples of
/// `src` at the input `b` of the instance `p`, where there is such an input.
pub open spec fn input_written<S>(
    before: Seq<Lv2PluginInstance<S>>,
    after: Seq<Lv2PluginInstance<S>>,
    p: int,
    b: int,
    src: Seq<S>,
    n: int,
) -> bool {
    &&& only_inputs_differ(before, after)
    &&& forall|q: int, c: int|
        0 <= q < after.len() && 0 <= c < after[q].audio_in_bufs@.len() ==> (
        #[trigger] after[q].audio_in_bufs@[c])@ == if q == p && c == b {
            copied(before[q].audio_in_bufs@[c]@, src, n)
        } else {
            before[q].audio_in_bufs@[c]@
        }
}

/// Copies samples to the input `b` of the instance `p`, where there is such an
/// input.
fn write_input<S: Copy>(
    plugins: &mut Vec<Lv2PluginInstance<S>>,
    p: usize,
    b: usize,
    src: &[S],
    n: usize,
)
    requires
        forall|i: int| 0 <= i < old(plugins)@.len() ==> (#[trigger] old(plugins)@[i]).wf(),
        p < old(plugins)@.len(),
        b < old(plugins)@[p as int].audio_in_bufs@.len() ==> n <= old(plugins)@[p as int].frames
            && n <= src@.len(),
    ensures
        input_written(old(plugins)@, final(plugins)@, p as int, b as int, src@, n as int),
{
    let ghost start = plugins@;
    if b < plugins[p].audio_in_bufs.len() {
        copy_samples(plugins[p].audio_in_bufs[b].as_mut_slice(), src, n);
    }
}

/// Copies the output `b` of the instance `p` to a buffer, where there is such an
/// output.
fn route_output<S: Copy>(
    dst: &mut Vec<S>,
    plugins: &Vec<Lv2PluginInstance<S>>,
    p: usize,
    b: usize,
    n: usize,
)
    requires
        p < plugins@.len(),
        plugins@[p as int].wf(),
        b < plugins@[p as int].audio_out_bufs@.len() ==> n <= plugins@[p as int].frames && n
            <= old(dst)@.len(),
    ensures
        final(dst)@.len() == old(dst)@.len(),
        final(dst)@ == if b < plugins@[p as int].audio_out_bufs@.len() {
            copied(old(dst)@, plugins@[p as int].audio_out_bufs@[b as int]@, n as int)
        } else {
            old(dst)@
        },
{
    if b < plugins[p].audio_out_bufs.len() {
        let src = &plugins[p].audio_out_bufs[b];
        copy_samples(dst.as_mut_slice(), src.as_slice(), n);
    }
}

impl<S> ChainProcessHandler<S> {
    /// Whether the channels `route` are right after the slot `k` was read: its
    /// mix where it has one, else its outputs, and what was there before where
    /// it has none.
    pub open spec fn routes<F: Fn(S, S, u32) -> S>(
        self,
        k: int,
        n: int,
        zero: S,
        macc: F,
        route: Seq<Vec<S>>,
    ) -> bool {
        forall|ch: int|
            0 <= ch < MAX_ROUTE_CHANNELS ==> match self.slot_mixes@[k] {
                Some(mix) => mixed(
                    macc,
                    zero,
                    self.outs(self.slots@[k].primary()),
                    mix@,
                    ch,
                    n,
                    self.route_buf@[ch]@,
                    (#[trigger] route[ch])@,
                ),
                None => route[ch]@ == match self.channel(k, ch) {
                    Some(src) => copied(self.route_buf@[ch]@, src, n),
                    None => self.route_buf@[ch]@,
                },
            }
    }

    /// Whether the instances `after` are right after the input `port` of the chain
    /// was taken to the first slot.
    pub open spec fn loads(
        self,
        port: usize,
        samples: Seq<S>,
        n: int,
        after: Seq<Lv2PluginInstance<S>>,
    ) -> bool {
        match input_target(self.slots@[0], port) {
            Some((p, b)) => input_written(
                self.plugins@,
                after,
                p as int,
                b as int,
                samples,
                n,
            ),
            None => after == self.plugins@,
        }
    }

    /// Whether the instances `after` are right after the slot `k` was given the
    /// channels `route`.
    pub open spec fn feeds(
        self,
        k: int,
        n: int,
        route: Seq<Vec<S>>,
        after: Seq<Lv2PluginInstance<S>>,
    ) -> bool {
        &&& only_inputs_differ(self.plugins@, after)
        &&& forall|p: int, b: int|
            0 <= p < after.len() && 0 <= b < after[p].audio_in_bufs@.len() ==> (
            #[trigger] after[p].audio_in_bufs@[b])@ == match fed_by(self.slots@[k], p, b) {
                Some(ch) => copied(self.ins(p)[b]@, route[ch]@, n),
                None => self.ins(p)[b]@,
            }
    }
}

impl<S: Copy> ChainProcessHandler<S> {
    /// Takes the audio that comes out of the slot `k` to the channels.
    pub fn read_slot_output<F: Fn(S, S, u32) -> S>(
        &mut self,
        k: usize,
        nframes: usize,
        zero: S,
        macc: &F,
    )
        requires
            old(self).wf(),
            k < old(self).slots@.len(),
            nframes <= MAX_BUF_FRAMES,
            callable(*macc),
        ensures
            final(self).wf(),
            *final(self) == (ChainProcessHandler {
                route_buf: final(self).route_buf,
                ..*old(self)
            }),
            old(self).routes(k as int, nframes as int, zero, *macc, final(self).route_buf@),
    {
        let slot = self.slots[k];
        assert(self.slots@[k as int].within(self.plugins@.len()));
        if let Some(mix) = &self.slot_mixes[k] {
            let out = &self.plugins[slot.primary_idx()].audio_out_bufs;
            mix_side(out, mix, 0, self.route_buf[0].as_mut_slice(), nframes, zero, macc);
            mix_side(out, mix, 1, self.route_buf[1].as_mut_slice(), nframes, zero, macc);
            return;
        }
        match slot {
            ChainSlot::Single(i) => {
                route_output(&mut self.route_buf[0], &self.plugins, i, 0, nframes);
                route_output(&mut self.route_buf[1], &self.plugins, i, 1, nframes);
            },
            ChainSlot::DualMono { left, right } => {
                route_output(&mut self.route_buf[0], &self.plugins, left, 0, nframes);
                route_output(&mut self.route_buf[1], &self.plugins, right, 0, nframes);
            },
        }
    }

    /// Takes the audio of the channels to the inputs of the slot `k`.
    pub fn write_slot_input(&mut self, k: usize, nframes: usize)
        requires
            old(self).wf(),
            k < old(self).slots@.len(),
            nframes <= MAX_BUF_FRAMES,
        ensures
            final(self).wf(),
            *final(self) == (ChainProcessHandler { plugins: final(self).plugins, ..*old(self) }),
            old(self).feeds(
                k as int,
                nframes as int,
                old(self).route_buf@,
                final(self).plugins@,
            ),
    {
        let ghost start = *self;
        assert(self.slots@[k as int].within(self.plugins@.len()));
        match self.slots[k] {
            ChainSlot::Single(i) => {
                write_input(&mut self.plugins, i, 0, self.route_buf[0].as_slice(), nframes);
                write_input(&mut self.plugins, i, 1, self.route_buf[1].as_slice(), nframes);
            },
            ChainSlot::DualMono { left, right } => {
                write_input(&mut self.plugins, left, 0, self.route_buf[0].as_slice(), nframes);
                write_input(&mut self.plugins, right, 0, self.route_buf[1].as_slice(), nframes);
            },
        }
        assert forall|p: int, b: int|
            0 <= p < self.plugins@.len() && 0 <= b < self.plugins@[p].audio_in_bufs@.len() implies (
        #[trigger] self.plugins@[p].audio_in_bufs@[b])@ == match fed_by(
            start.slots@[k as int],
            p,
            b,
        ) {
            Some(ch) => copied(start.ins(p)[b]@, start.route_buf@[ch]@, nframes as int),
            None => start.ins(p)[b]@,
        } by {
            assert(start.plugins@[p].wf());
        }
    }
}

/// What an output of the chain gets from the last slot: nothing at all, silence,
/// or samples.
pub ghost enum OutputSource<S> {
    Untouched,
    Silence,
    Samples(Seq<S>),
}

impl<S> ChainProcessHandler<S> {
    /// What the output `port` of the chain gets where nothing is mixed.
    pub open spec fn output_source(self, port: usize) -> OutputSource<S> {
        let source = |samples: Option<Seq<S>>|
            match samples {
                Some(s) => OutputSource::Samples(s),
                None => OutputSource::Silence,
            };
        match self.slots@.last() {
            ChainSlot::Single(i) => source(self.out(i, port as int)),
            ChainSlot::DualMono { left, right } => if port == 0 {
                source(self.out(left, 0))
            } else if port == 1 {
                source(self.out(right, 0))
            } else {
                OutputSource::Untouched
            },
        }
    }

    /// Whether the output `port` of the chain, with what was in it before, is
    /// right after a cycle of `n` frames.
    pub open spec fn output_is<F: Fn(S, S, u32) -> S>(
        self,
        port: usize,
        before: Seq<S>,
        after: Seq<S>,
        n: int,
        muted: bool,
        zero: S,
        macc: F,
    ) -> bool {
        let silent = copied(before, plugin::repeated(n as nat, zero), n);
        if muted {
            after == silent
        } else {
            match self.slot_mixes@.last() {
                Some(mix) => if port < 2 {
                    mixed(
                        macc,
                        zero,
                        self.outs(self.slots@.last().primary()),
                        mix@,
                        port as int,
                        n,
                        before,
                        after,
                    )
                } else {
                    after == silent
                },
                None => match self.output_source(port) {
                    OutputSource::Untouched => after == before,
                    OutputSource::Silence => after == silent,
                    OutputSource::Samples(src) => after == copied(before, src, n),
                },
            }
        }
    }
}

/// Copies the output `b` of an instance, or silence where there is none.
fn copy_output<S: Copy>(bufs: &Vec<Vec<S>>, b: usize, dst: &mut [S], n: usize, zero: S)
    requires
        n <= old(dst)@.len(),
        b < bufs@.len() ==> n <= bufs@[b as int]@.len(),
    ensures
        final(dst)@.len() == old(dst)@.len(),
        final(dst)@ == copied(
            old(dst)@,
            if b < bufs@.len() {
                bufs@[b as int]@
            } else {
                plugin::repeated(n as nat, zero)
            },
            n as int,
        ),
{
    if b < bufs.len() {
        copy_samples(dst, bufs[b].as_slice(), n);
    } else {
        silence(dst, n, zero);
    }
}

impl<S: Copy> ChainProcessHandler<S> {
    /// Takes an input of the chain to the first slot.
    pub fn load_input(&mut self, port: usize, samples: &[S], nframes: usize)
        requires
            old(self).wf(),
            nframes <= old(self).frames,
            nframes <= samples@.len(),
        ensures
            final(self).wf(),
            *final(self) == (ChainProcessHandler { plugins: final(self).plugins, ..*old(self) }),
            old(self).loads(port, samples@, nframes as int, final(self).plugins@),
    {
        assert(self.slots@[0].within(self.plugins@.len()));
        match self.slots[0] {
            ChainSlot::Single(i) => {
                write_input(&mut self.plugins, i, port, samples, nframes);
            },
            ChainSlot::DualMono { left, right } => {
                if port == 0 {
                    write_input(&mut self.plugins, left, 0, samples, nframes);
                } else if port == 1 {
                    write_input(&mut self.plugins, right, 0, samples, nframes);
                }
            },
        }
    }

    /// Takes the audio of the slot before `k` on to the slot `k`.
    pub fn advance<F: Fn(S, S, u32) -> S>(
        &mut self,
        k: usize,
        nframes: usize,
        zero: S,
        macc: &F,
    )
        requires
            old(self).wf(),
            0 < k < old(self).slots@.len(),
            nframes <= MAX_BUF_FRAMES,
            callable(*macc),
        ensures
            final(self).wf(),
            *final(self) == (ChainProcessHandler {
                plugins: final(self).plugins,
                route_buf: final(self).route_buf,
                ..*old(self)
            }),
            old(self).routes(k - 1, nframes as int, zero, *macc, final(self).route_buf@),
            old(self).feeds(
                k as int,
                nframes as int,
                final(self).route_buf@,
                final(self).plugins@,
            ),
    {
        self.read_slot_output(k - 1, nframes, zero, macc);
        self.write_slot_input(k, nframes);
    }

    /// Fills an output of the chain from the last slot, or with silence.
    pub fn write_output<F: Fn(S, S, u32) -> S>(
        &self,
        port: usize,
        out: &mut [S],
        nframes: usize,
        muted: bool,
        zero: S,
        macc: &F,
    )
        requires
            self.wf(),
            nframes <= self.frames,
            nframes <= old(out)@.len(),
            callable(*macc),
        ensures
            self.output_is(
                port,
                old(out)@,
                final(out)@,
                nframes as int,
                muted,
                zero,
                *macc,
            ),
    {
        let ghost start = out@;
        let last: usize = self.slots.len() - 1;
        assert(self.slots@[last as int].within(self.plugins@.len()));
        if muted {
            silence(out, nframes, zero);
            return;
        }
        if let Some(mix) = &self.slot_mixes[last] {
            if port < 2 {
                let bufs = &self.plugins[self.slots[last].primary_idx()].audio_out_bufs;
                mix_side(bufs, mix, port, out, nframes, zero, macc);
            } else {
                silence(out, nframes, zero);
            }
            return;
        }
        match self.slots[last] {
            ChainSlot::Single(i) => {
                copy_output(&self.plugins[i].audio_out_bufs, port, out, nframes, zero);
            },
            ChainSlot::DualMono { left, right } => {
                if port == 0 {
                    copy_output(&self.plugins[left].audio_out_bufs, 0, out, nframes, zero);
                } else if port == 1 {
                    copy_output(&self.plugins[right].audio_out_bufs, 0, out, nframes, zero);
                }
            },
        }
    }
}

/// Atom inputs of the instance `p` with the events for it.
pub open spec fn with_events(
    infos: Seq<PortInfoView>,
    sequence_urid: u32,
    inputs: Seq<Seq<u8>>,
    p: int,
    events: Seq<AtomUiEventView>,
) -> Seq<Seq<u8>>
    decreases events.len(),
{
    if events.len() == 0 {
        inputs
    } else {
        let before = with_events(infos, sequence_urid, inputs, p, events.drop_last());
        let e = events.last();
        if e.plugin_idx == p {
            plugin::with_event(infos, sequence_urid, before, e.port_index, e.data)
        } else {
            before
        }
    }
}

/// Atom inputs of the instance `p` with the messages of the first `n` channels.
pub open spec fn with_midi_of(
    infos: Seq<PortInfoView>,
    sequence_urid: u32,
    midi_urid: u32,
    inputs: Seq<Seq<u8>>,
    p: int,
    consumers: Seq<(usize, MidiPort)>,
    midi: Seq<Vec<MidiEvent>>,
    n: int,
) -> Seq<Seq<u8>>
    decreases n,
{
    if n <= 0 {
        inputs
    } else {
        let before = with_midi_of(
            infos,
            sequence_urid,
            midi_urid,
            inputs,
            p,
            consumers,
            midi,
            n - 1,
        );
        if consumers[n - 1].0 == p {
            plugin::with_messages(
                infos,
                sequence_urid,
                midi_urid,
                before,
                midi::messages(midi[n - 1]@),
            )
        } else {
            before
        }
    }
}

/// Whether two lists of instances are the same but for the atom inputs, and
/// well-formed.
pub open spec fn only_atom_inputs_differ<S>(
    before: Seq<Lv2PluginInstance<S>>,
    after: Seq<Lv2PluginInstance<S>>,
) -> bool {
    &&& after.len() == before.len()
    &&& forall|p: int|
        0 <= p < after.len() ==> (#[trigger] after[p]).wf() && after[p] == (Lv2PluginInstance {
            atom_in_bufs: after[p].atom_in_bufs,
            ..before[p]
        })
}

/// Clears the atom buffers of all instances.
fn clear_all<S>(plugins: &mut Vec<Lv2PluginInstance<S>>)
    requires
        forall|p: int| 0 <= p < old(plugins)@.len() ==> (#[trigger] old(plugins)@[p]).wf(),
    ensures
        all_cleared(old(plugins)@, final(plugins)@),
{
    let ghost start = plugins@;
    let len: usize = plugins.len();
    let mut i: usize = 0;
    while i < len
        invariant
            start == old(plugins)@,
            len == start.len(),
            plugins@.len() == len,
            i <= len,
            forall|p: int| 0 <= p < len ==> (#[trigger] start[p]).wf(),
            forall|p: int| 0 <= p < i ==> is_cleared(start[p], #[trigger] plugins@[p]),
            forall|p: int| i <= p < len ==> #[trigger] plugins@[p] == start[p],
        decreases len - i,
    {
        plugins[i].clear_atom_buffers();
        i += 1;
    }
}

/// Whether `after` is `before` with its atom buffers cleared.
pub open spec fn is_cleared<S>(before: Lv2PluginInstance<S>, after: Lv2PluginInstance<S>) -> bool {
    &&& after.wf()
    &&& after == (Lv2PluginInstance {
        atom_in_bufs: after.atom_in_bufs,
        atom_out_bufs: after.atom_out_bufs,
        ..before
    })
    &&& plugin::contents(after.atom_in_bufs@) == plugin::cleared(
        plugin::contents(before.atom_in_bufs@),
        before.atom_sequence_urid,
    )
    &&& plugin::contents(after.atom_out_bufs@) == plugin::ready(
        plugin::contents(before.atom_out_bufs@),
        before.atom_sequence_urid,
    )
}

/// Whether the instances `after` are those `before` with their atom buffers
/// cleared.
pub open spec fn all_cleared<S>(
    before: Seq<Lv2PluginInstance<S>>,
    after: Seq<Lv2PluginInstance<S>>,
) -> bool {
    &&& after.len() == before.len()
    &&& forall|p: int| 0 <= p < after.len() ==> is_cleared(before[p], #[trigger] after[p])
}

/// Hands the events to the instances.
fn deliver_events<S>(plugins: &mut Vec<Lv2PluginInstance<S>>, events: &Vec<AtomUiEvent>)
    requires
        forall|p: int| 0 <= p < old(plugins)@.len() ==> (#[trigger] old(plugins)@[p]).wf(),
    ensures
        only_atom_inputs_differ(old(plugins)@, final(plugins)@),
        forall|p: int|
            0 <= p < final(plugins)@.len() ==> plugin::contents(
                (#[trigger] final(plugins)@[p]).atom_in_bufs@,
            ) == with_events(
                old(plugins)@[p].infos(),
                old(plugins)@[p].atom_sequence_urid,
                plugin::contents(old(plugins)@[p].atom_in_bufs@),
                p,
                event_views(events@),
            ),
{
    let ghost start = plugins@;
    let ghost views = event_views(events@);
    let mut i: usize = 0;
    while i < events.len()
        invariant
            start == old(plugins)@,
            views == event_views(events@),
            i <= events@.len(),
            only_atom_inputs_differ(start, plugins@),
            forall|p: int|
                0 <= p < plugins@.len() ==> plugin::contents(
                    (#[trigger] plugins@[p]).atom_in_bufs@,
                ) == with_events(
                    start[p].infos(),
                    start[p].atom_sequence_urid,
                    plugin::contents(start[p].atom_in_bufs@),
                    p,
                    views.take(i as int),
                ),
        decreases events@.len() - i,
    {
        let ghost before = plugins@;
        let event = &events[i];
        proof {
            assert(views.take(i + 1).drop_last() =~= views.take(i as int));
            assert(views.take(i + 1).last() == event@);
        }
        if event.plugin_idx < plugins.len() {
            let p: usize = event.plugin_idx;
            plugins[p].write_atom_to_port(event.port_index, event.protocol, event.data.as_slice());
        }
        assert forall|p: int| 0 <= p < plugins@.len() implies plugin::contents(
            (#[trigger] plugins@[p]).atom_in_bufs@,
        ) == with_events(
            start[p].infos(),
            start[p].atom_sequence_urid,
            plugin::contents(start[p].atom_in_bufs@),
            p,
            views.take(i + 1),
        ) by {
            assert(before[p].infos() == start[p].infos());
            assert(before[p].atom_sequence_urid == start[p].atom_sequence_urid);
        }
        i += 1;
    }
    assert(views.take(i as int) =~= views);
}

/// Hands messages to one instance.
fn deliver_messages<S>(p: &mut Lv2PluginInstance<S>, events: &Vec<MidiEvent>)
    requires
        old(p).wf(),
        forall|i: int| 0 <= i < events@.len() ==> midi::playable(#[trigger] events@[i]),
    ensures
        final(p).wf(),
        *final(p) == (Lv2PluginInstance { atom_in_bufs: final(p).atom_in_bufs, ..*old(p) }),
        plugin::contents(final(p).atom_in_bufs@) == plugin::with_messages(
            old(p).infos(),
            old(p).atom_sequence_urid,
            old(p).midi_event_urid,
            plugin::contents(old(p).atom_in_bufs@),
            midi::messages(events@),
        ),
{
    let encoded = midi::encode_all(events);
    let mut refs: Vec<(i64, &[u8])> = Vec::new();
    let mut i: usize = 0;
    while i < encoded.len()
        invariant
            forall|k: int| 0 <= k < events@.len() ==> midi::playable(#[trigger] events@[k]),
            encoded@.len() == events@.len(),
            forall|k: int|
                0 <= k < encoded@.len() ==> (#[trigger] encoded@[k]).0 == events@[k].encoded_len()
                    && encoded@[k].1@ == events@[k].encoding(),
            i <= encoded@.len(),
            refs@.len() == i,
            forall|k: int|
                0 <= k < i ==> (#[trigger] refs@[k]).0 == 0 && refs@[k].1@ == midi::message(
                    events@[k],
                ),
        decreases encoded@.len() - i,
    {
        let len: usize = encoded[i].0;
        assert(midi::playable(events@[i as int]));
        let bytes = vstd::slice::slice_subrange(encoded[i].1.as_slice(), 0, len);
        assert(bytes@ =~= midi::message(events@[i as int]));
        refs.push((0i64, bytes));
        i += 1;
    }
    assert(atom::event_views(refs@) =~= midi::messages(events@));
    p.write_midi_to_atom_in(refs.as_slice());
}

/// Hands the messages of each channel to its instance.
fn deliver_midi<S>(
    plugins: &mut Vec<Lv2PluginInstance<S>>,
    consumers: &Vec<(usize, MidiPort)>,
    midi: &Vec<Vec<MidiEvent>>,
)
    requires
        forall|p: int| 0 <= p < old(plugins)@.len() ==> (#[trigger] old(plugins)@[p]).wf(),
        forall|k: int|
            0 <= k < consumers@.len() ==> (#[trigger] consumers@[k]).0 < old(plugins)@.len(),
        midi@.len() == consumers@.len(),
        all_midi_playable(midi@),
    ensures
        only_atom_inputs_differ(old(plugins)@, final(plugins)@),
        forall|p: int|
            0 <= p < final(plugins)@.len() ==> plugin::contents(
                (#[trigger] final(plugins)@[p]).atom_in_bufs@,
            ) == with_midi_of(
                old(plugins)@[p].infos(),
                old(plugins)@[p].atom_sequence_urid,
                old(plugins)@[p].midi_event_urid,
                plugin::contents(old(plugins)@[p].atom_in_bufs@),
                p,
                consumers@,
                midi@,
                midi@.len() as int,
            ),
{
    let ghost start = plugins@;
    let mut i: usize = 0;
    while i < midi.len()
        invariant
            start == old(plugins)@,
            forall|k: int|
                0 <= k < consumers@.len() ==> (#[trigger] consumers@[k]).0 < start.len(),
            midi@.len() == consumers@.len(),
            all_midi_playable(midi@),
            i <= midi@.len(),
            only_atom_inputs_differ(start, plugins@),
            forall|p: int|
                0 <= p < plugins@.len() ==> plugin::contents(
                    (#[trigger] plugins@[p]).atom_in_bufs@,
                ) == with_midi_of(
                    start[p].infos(),
                    start[p].atom_sequence_urid,
                    start[p].midi_event_urid,
                    plugin::contents(start[p].atom_in_bufs@),
                    p,
                    consumers@,
                    midi@,
                    i as int,
                ),
        decreases midi@.len() - i,
    {
        let ghost before = plugins@;
        let p: usize = consumers[i].0;
        deliver_messages(&mut plugins[p], &midi[i]);
        assert forall|p: int| 0 <= p < plugins@.len() implies plugin::contents(
            (#[trigger] plugins@[p]).atom_in_bufs@,
        ) == with_midi_of(
            start[p].infos(),
            start[p].atom_sequence_urid,
            start[p].midi_event_urid,
            plugin::contents(start[p].atom_in_bufs@),
            p,
            consumers@,
            midi@,
            i + 1,
        ) by {
            assert(before[p].infos() == start[p].infos());
            assert(before[p].atom_sequence_urid == start[p].atom_sequence_urid);
            assert(before[p].midi_event_urid == start[p].midi_event_urid);
        }
        i += 1;
    }
}

/// Whether all messages of all channels have bytes that can be sent.
pub open spec fn all_midi_playable(midi: Seq<Vec<MidiEvent>>) -> bool {
    forall|k: int, i: int|
        0 <= k < midi.len() && 0 <= i < midi[k]@.len() ==> midi::playable(#[trigger] midi[k]@[i])
}

/// What the atom inputs of the instance `p` hold when a cycle begins: the events
/// from its window, then the messages for it.
pub open spec fn inputs_at_start<S>(
    plugin: Lv2PluginInstance<S>,
    p: int,
    events: Seq<AtomUiEventView>,
    consumers: Seq<(usize, MidiPort)>,
    midi: Seq<Vec<MidiEvent>>,
) -> Seq<Seq<u8>> {
    let empty = plugin::cleared(
        plugin::contents(plugin.atom_in_bufs@),
        plugin.atom_sequence_urid,
    );
    let told = with_events(plugin.infos(), plugin.atom_sequence_urid, empty, p, events);
    with_midi_of(
        plugin.infos(),
        plugin.atom_sequence_urid,
        plugin.midi_event_urid,
        told,
        p,
        consumers,
        midi,
        midi.len() as int,
    )
}

/// Whether the instance `after` is `before` at the start of a cycle.
pub open spec fn begun<S>(
    before: Lv2PluginInstance<S>,
    after: Lv2PluginInstance<S>,
    p: int,
    bridges: Seq<bridge::PluginControlBridge>,
    slots: Seq<ChainSlot>,
    events: Seq<AtomUiEventView>,
    consumers: Seq<(usize, MidiPort)>,
    midi: Seq<Vec<MidiEvent>>,
) -> bool {
    &&& after.wf()
    &&& after == (Lv2PluginInstance {
        control_in_vals: after.control_in_vals,
        atom_in_bufs: after.atom_in_bufs,
        atom_out_bufs: after.atom_out_bufs,
        ..before
    })
    &&& after.control_in_vals@ == bridge::synced(
        bridges,
        slots,
        bridge::pairs(bridges.len(), slots.len()) as int,
        p,
        before.control_in_vals@,
    )
    &&& plugin::contents(after.atom_in_bufs@) == inputs_at_start(
        before,
        p,
        events,
        consumers,
        midi,
    )
    &&& plugin::contents(after.atom_out_bufs@) == plugin::ready(
        plugin::contents(before.atom_out_bufs@),
        before.atom_sequence_urid,
    )
}

/// The events for a window that the atoms from one instance make.
pub open spec fn notices(p: usize, atoms: Seq<(usize, Seq<u8>)>) -> Seq<AtomUiEventView> {
    atoms.map_values(
        |a: (usize, Seq<u8>)|
            AtomUiEventView {
                plugin_idx: p,
                port_index: a.0,
                protocol: NOTIFY_PROTOCOL,
                data: a.1,
            },
    )
}

/// The events for the windows from the first `n` instances.
pub open spec fn notices_of<S>(plugins: Seq<Lv2PluginInstance<S>>, n: int) -> Seq<
    AtomUiEventView,
>
    decreases n,
{
    if n <= 0 {
        Seq::empty()
    } else {
        notices_of(plugins, n - 1) + notices(
            (n - 1) as usize,
            plugin::atoms_out(plugins[n - 1].infos(), plugins[n - 1].atom_out_bufs@),
        )
    }
}

/// Whether two lists of channels are the same but for what was received.
pub open spec fn same_channels(
    before: Seq<(usize, MidiPort)>,
    after: Seq<(usize, MidiPort)>,
) -> bool {
    &&& after.len() == before.len()
    &&& forall|k: int|
        0 <= k < after.len() ==> (#[trigger] after[k]).0 == before[k].0 && after[k].1.name
            == before[k].1.name && after[k].1.coming() == before[k].1.coming()
}

impl<S> ChainProcessHandler<S> {
    /// Whether the atom outputs of all instances can be read.
    pub open spec fn outputs_readable(self) -> bool {
        forall|p: int|
            0 <= p < self.plugins@.len() ==> (#[trigger] self.plugins@[p]).outputs_readable()
    }

    /// Fetches the messages that wait, channel by channel, until there is none.
    pub fn receive_midi(&mut self) -> (r: Vec<Vec<MidiEvent>>)
        requires
            old(self).wf(),
        ensures
            final(self).wf(),
            *final(self) == (ChainProcessHandler {
                midi_consumers: final(self).midi_consumers,
                ..*old(self)
            }),
            same_channels(old(self).midi_consumers@, final(self).midi_consumers@),
            r@.len() == old(self).midi_consumers@.len(),
            forall|k: int|
                0 <= k < r@.len() ==> final(self).midi_consumers@[k].1.received() == old(
                    self).midi_consumers@[k].1.received() + (#[trigger] r@[k])@,
            forall|k: int|
                0 <= k < r@.len() ==> (#[trigger] final(
                    self).midi_consumers@[k]).1.received().is_prefix_of(
                    final(self).midi_consumers@[k].1.coming(),
                ),
            forall|k: int|
                0 <= k < r@.len() ==> (#[trigger] final(self).midi_consumers@[k]).1.seen() == 0,
            forall|k: int|
                0 <= k < r@.len() ==> (#[trigger] r@[k])@.len() >= old(
                    self).midi_consumers@[k].1.seen(),
    {
        let ghost start = *self;
        let mut r: Vec<Vec<MidiEvent>> = Vec::new();
        let len: usize = self.midi_consumers.len();
        let mut i: usize = 0;
        while i < len
            invariant
                start == *old(self),
                start.wf(),
                len == start.midi_consumers@.len(),
                i <= len,
                r@.len() == i,
                *self == (ChainProcessHandler { midi_consumers: self.midi_consumers, ..start }),
                same_channels(start.midi_consumers@, self.midi_consumers@),
                forall|k: int|
                    0 <= k < i ==> self.midi_consumers@[k].1.received()
                        == start.midi_consumers@[k].1.received() + (#[trigger] r@[k])@,
                forall|k: int|
                    0 <= k < i ==> (#[trigger] self.midi_consumers@[k]).1.received().is_prefix_of(
                        self.midi_consumers@[k].1.coming(),
                    ),
                forall|k: int| 0 <= k < i ==> (#[trigger] self.midi_consumers@[k]).1.seen() == 0,
                forall|k: int|
                    0 <= k < i ==> (#[trigger] r@[k])@.len() >= start.midi_consumers@[k].1.seen(),
                forall|k: int|
                    i <= k < len ==> #[trigger] self.midi_consumers@[k] == start.midi_consumers@[k],
            decreases len - i,
        {
            let events = self.midi_consumers[i].1.receive_all();
            r.push(events);
            i += 1;
        }
        r
    }

    /// Begins a cycle: the instances get the control values, the events from
    /// their windows and the messages for them.
    pub fn begin(
        &mut self,
        bridge: &ControlBridge,
        events: &Vec<AtomUiEvent>,
        midi: &Vec<Vec<MidiEvent>>,
    )
        requires
            old(self).wf(),
            midi@.len() == old(self).midi_consumers@.len(),
            all_midi_playable(midi@),
        ensures
            final(self).wf(),
            *final(self) == (ChainProcessHandler { plugins: final(self).plugins, ..*old(self) }),
            final(self).plugins@.len() == old(self).plugins@.len(),
            forall|p: int|
                0 <= p < final(self).plugins@.len() ==> begun(
                    old(self).plugins@[p],
                    #[trigger] final(self).plugins@[p],
                    p,
                    bridge.plugins@,
                    old(self).slots@,
                    event_views(events@),
                    old(self).midi_consumers@,
                    midi@,
                ),
    {
        let ghost start = *self;
        bridge.sync_to_plugins(&mut self.plugins, &self.slots);
        let ghost synced = self.plugins@;
        clear_all(&mut self.plugins);
        let ghost clear = self.plugins@;
        deliver_events(&mut self.plugins, events);
        let ghost told = self.plugins@;
        deliver_midi(&mut self.plugins, &self.midi_consumers, midi);
        assert forall|p: int| 0 <= p < self.plugins@.len() implies begun(
            start.plugins@[p],
            #[trigger] self.plugins@[p],
            p,
            bridge.plugins@,
            start.slots@,
            event_views(events@),
            start.midi_consumers@,
            midi@,
        ) by {
            let now = self.plugins@[p];
            let was = start.plugins@[p];
            assert(synced[p].infos() == was.infos());
            assert(is_cleared(synced[p], clear[p]));
            assert(told[p].wf() && told[p].infos() == was.infos());
            assert(now.wf());
        }
    }

    /// Whether the atom outputs of all instances can be read.
    pub fn can_notify(&self) -> (r: bool)
        ensures
            r == self.outputs_readable(),
    {
        let mut i: usize = 0;
        while i < self.plugins.len()
            invariant
                i <= self.plugins@.len(),
                forall|p: int| 0 <= p < i ==> (#[trigger] self.plugins@[p]).outputs_readable(),
            decreases self.plugins@.len() - i,
        {
            if !self.plugins[i].can_drain() {
                return false;
            }
            i += 1;
        }
        true
    }

    /// What the instances say to their windows.
    pub fn notify_events(&self) -> (r: Vec<AtomUiEvent>)
        requires
            self.wf(),
            self.outputs_readable(),
        ensures
            event_views(r@) == notices_of(self.plugins@, self.plugins@.len() as int),
    {
        let mut r: Vec<AtomUiEvent> = Vec::new();
        let mut i: usize = 0;
        assert(event_views(r@) =~= Seq::empty());
        while i < self.plugins.len()
            invariant
                self.wf(),
                self.outputs_readable(),
                i <= self.plugins@.len(),
                event_views(r@) == notices_of(self.plugins@, i as int),
            decreases self.plugins@.len() - i,
        {
            assert(self.plugins@[i as int].outputs_readable());
            let atoms = self.plugins[i].drain_atom_output_events();
            push_notices(&mut r, i, atoms);
            i += 1;
        }
        r
    }
}

/// How far the cycle of a block has come: what is done next.
#[derive(Debug, Clone, Copy, PartialEq, Eq, Structural)]
pub enum CycleStage {
    /// The messages that wait are fetched.
    Fetch,
    /// The instances get control values, events and messages.
    Begin,
    /// The inputs of the chain go to the first slot.
    Load,
    /// The instances of a slot run.
    Run { slot: usize },
    /// The audio of the slot before goes on to this one.
    Advance { slot: usize },
    /// What the instances say goes to their windows.
    Notify,
    /// The outputs of the chain are filled.
    Output,
    /// The block is done.
    Done,
}

impl CycleStage {
    /// The stage behind this one, in a chain of so many slots: the slots run in
    /// their order, each with the audio of the one before.
    pub open spec fn successor(self, slots: nat) -> CycleStage {
        match self {
            CycleStage::Fetch => CycleStage::Begin,
            CycleStage::Begin => CycleStage::Load,
            CycleStage::Load => CycleStage::Run { slot: 0 },
            CycleStage::Run { slot } => if slot + 1 < slots {
                CycleStage::Advance { slot: (slot + 1) as usize }
            } else {
                CycleStage::Notify
            },
            CycleStage::Advance { slot } => CycleStage::Run { slot },
            CycleStage::Notify => CycleStage::Output,
            CycleStage::Output => CycleStage::Done,
            CycleStage::Done => CycleStage::Done,
        }
    }

    /// The stage behind this one, in a chain of so many slots.
    pub fn next(self, slots: usize) -> (r: CycleStage)
        ensures
            r == self.successor(slots as nat),
    {
        match self {
            CycleStage::Fetch => CycleStage::Begin,
            CycleStage::Begin => CycleStage::Load,
            CycleStage::Load => CycleStage::Run { slot: 0 },
            CycleStage::Run { slot } => if slot < slots && slot + 1 < slots {
                CycleStage::Advance { slot: slot + 1 }
            } else {
                CycleStage::Notify
            },
            CycleStage::Advance { slot } => CycleStage::Run { slot },
            CycleStage::Notify => CycleStage::Output,
            CycleStage::Output => CycleStage::Done,
            CycleStage::Done => CycleStage::Done,
        }
    }
}

/// The stage that a cycle comes to after so many steps.
pub open spec fn stage_after(slots: nat, steps: nat) -> CycleStage
    decreases steps,
{
    if steps == 0 {
        CycleStage::Fetch
    } else {
        stage_after(slots, (steps - 1) as nat).successor(slots)
    }
}

/// The order of a cycle: messages are fetched, the instances begin, the inputs are
/// loaded, every slot runs once and in its order, each but the first right after
/// it got the audio of the one before, the windows are told, and the outputs are
/// filled.
pub proof fn cycle_runs_slots_in_order(slots: nat, k: int)
    requires
        0 <= k < slots <= usize::MAX,
    ensures
        stage_after(slots, 0) == CycleStage::Fetch,
        stage_after(slots, 1) == CycleStage::Begin,
        stage_after(slots, 2) == CycleStage::Load,
        stage_after(slots, (3 + 2 * k) as nat) == (CycleStage::Run { slot: k as usize }),
        k > 0 ==> stage_after(slots, (2 + 2 * k) as nat) == (CycleStage::Advance {
            slot: k as usize,
        }),
        stage_after(slots, 2 + 2 * slots) == CycleStage::Notify,
        stage_after(slots, 3 + 2 * slots) == CycleStage::Output,
        stage_after(slots, 4 + 2 * slots) == CycleStage::Done,
{
    reveal_with_fuel(stage_after, 4);
    slot_runs_in_turn(slots, k);
    slot_runs_in_turn(slots, slots - 1);
    let last = (1 + 2 * slots) as nat;
    assert(last == 3 + 2 * (slots - 1));
    assert(stage_after(slots, (last + 1) as nat) == stage_after(slots, last).successor(slots));
    assert(stage_after(slots, (last + 2) as nat) == stage_after(slots, (last + 1) as nat).successor(
        slots,
    ));
    assert(stage_after(slots, (last + 3) as nat) == stage_after(slots, (last + 2) as nat).successor(
        slots,
    ));
}

/// A slot runs after the one before it, with its audio.
proof fn slot_runs_in_turn(slots: nat, k: int)
    requires
        0 <= k < slots <= usize::MAX,
    ensures
        stage_after(slots, (3 + 2 * k) as nat) == (CycleStage::Run { slot: k as usize }),
        k > 0 ==> stage_after(slots, (2 + 2 * k) as nat) == (CycleStage::Advance {
            slot: k as usize,
        }),
    decreases k,
{
    if k == 0 {
        reveal_with_fuel(stage_after, 4);
    } else {
        slot_runs_in_turn(slots, k - 1);
        let n = (1 + 2 * k) as nat;
        assert(n == 3 + 2 * (k - 1));
        assert(stage_after(slots, (n + 1) as nat) == stage_after(slots, n).successor(slots));
        assert(stage_after(slots, (n + 2) as nat) == stage_after(slots, (n + 1) as nat).successor(
            slots,
        ));
    }
}

/// Appends the events for a window that atoms make.
fn push_notices(r: &mut Vec<AtomUiEvent>, p: usize, atoms: Vec<(usize, Vec<u8>)>)
    ensures
        event_views(final(r)@) == event_views(old(r)@) + notices(p, plugin::atom_views(atoms@)),
{
    let ghost start = event_views(r@);
    let ghost all = plugin::atom_views(atoms@);
    let mut i: usize = 0;
    assert(start + notices(p, all.take(0)) =~= start);
    while i < atoms.len()
        invariant
            start == event_views(old(r)@),
            all == plugin::atom_views(atoms@),
            i <= atoms@.len(),
            event_views(r@) == start + notices(p, all.take(i as int)),
        decreases atoms@.len() - i,
    {
        let ghost before = event_views(r@);
        let mut data: Vec<u8> = Vec::new();
        data.extend_from_slice(atoms[i].1.as_slice());
        assert(data@ =~= atoms@[i as int].1@);
        let event = AtomUiEvent {
            plugin_idx: p,
            port_index: atoms[i].0,
            protocol: NOTIFY_PROTOCOL,
            data,
        };
        r.push(event);
        assert(event_views(r@) =~= before.push(event@));
        assert(start + notices(p, all.take(i + 1)) =~= (start + notices(
            p,
            all.take(i as int),
        )).push(event@));
        i += 1;
    }
    assert(all.take(i as int) =~= all);
}

/// Audio is passed on from slot to slot: where the slot before has samples for a
/// channel and nothing is mixed, an input that the channel feeds gets them.
pub proof fn audio_is_passed_on<S, F: Fn(S, S, u32) -> S>(
    before: ChainProcessHandler<S>,
    k: int,
    n: int,
    zero: S,
    macc: F,
    route: Seq<Vec<S>>,
    after: Seq<Lv2PluginInstance<S>>,
    p: int,
    b: int,
)
    requires
        before.wf(),
        0 < k < before.slots@.len(),
        0 <= n <= MAX_BUF_FRAMES,
        before.slot_mixes@[k - 1] is None,
        before.routes(k - 1, n, zero, macc, route),
        before.feeds(k, n, route, after),
        0 <= p < after.len(),
        0 <= b < after[p].audio_in_bufs@.len(),
        fed_by(before.slots@[k], p, b) is Some,
        before.channel(k - 1, fed_by(before.slots@[k], p, b)->0) is Some,
    ensures
        after[p].audio_in_bufs@[b]@.take(n) == before.channel(
            k - 1,
            fed_by(before.slots@[k], p, b)->0,
        )->0.take(n),
        after[p].audio_in_bufs@[b]@.skip(n) == before.ins(p)[b]@.skip(n),
{
    let ch = fed_by(before.slots@[k], p, b)->0;
    let src = before.channel(k - 1, ch)->0;
    assert(before.slots@[k - 1].within(before.plugins@.len()));
    assert(src.len() >= n);
    assert(route[ch]@ == copied(before.route_buf@[ch]@, src, n));
    assert(after[p].audio_in_bufs@[b]@ == copied(before.ins(p)[b]@, route[ch]@, n));
    assert(after[p].wf());
    assert(before.ins(p).len() == after[p].audio_in_bufs@.len());
    assert(before.ins(p)[b]@.len() >= n);
    assert(route[ch]@.take(n) =~= src.take(n));
    assert(after[p].audio_in_bufs@[b]@.take(n) =~= src.take(n));
    assert(after[p].audio_in_bufs@[b]@.skip(n) =~= before.ins(p)[b]@.skip(n));
}

/// A muted chain puts out silence, whatever its plugins do.
pub proof fn muted_is_silent<S, F: Fn(S, S, u32) -> S>(
    handler: ChainProcessHandler<S>,
    port: usize,
    before: Seq<S>,
    after: Seq<S>,
    n: int,
    zero: S,
    macc: F,
)
    requires
        0 <= n <= before.len(),
        handler.output_is(port, before, after, n, true, zero, macc),
    ensures
        after.len() == before.len(),
        forall|s: int| 0 <= s < n ==> #[trigger] after[s] == zero,
        forall|s: int| n <= s < after.len() ==> #[trigger] after[s] == before[s],
{
}

/// Channels to other instances leave the inputs of `p` as they are.
proof fn other_channels_leave<S>(
    plugin: Lv2PluginInstance<S>,
    p: int,
    inputs: Seq<Seq<u8>>,
    consumers: Seq<(usize, MidiPort)>,
    midi: Seq<Vec<MidiEvent>>,
    n: int,
)
    requires
        forall|j: int| 0 <= j < n ==> (#[trigger] consumers[j]).0 != p,
    ensures
        with_midi_of(
            plugin.infos(),
            plugin.atom_sequence_urid,
            plugin.midi_event_urid,
            inputs,
            p,
            consumers,
            midi,
            n,
        ) == inputs,
    decreases n,
{
    if n > 0 {
        other_channels_leave(plugin, p, inputs, consumers, midi, n - 1);
    }
}

/// A channel hands its messages to its instance, where no other channel leads
/// to it.
proof fn one_channel_hands_over<S>(
    plugin: Lv2PluginInstance<S>,
    p: int,
    inputs: Seq<Seq<u8>>,
    consumers: Seq<(usize, MidiPort)>,
    midi: Seq<Vec<MidiEvent>>,
    k: int,
    n: int,
)
    requires
        0 <= k < n,
        consumers[k].0 == p,
        forall|j: int| 0 <= j < n && j != k ==> (#[trigger] consumers[j]).0 != p,
    ensures
        with_midi_of(
            plugin.infos(),
            plugin.atom_sequence_urid,
            plugin.midi_event_urid,
            inputs,
            p,
            consumers,
            midi,
            n,
        ) == plugin::with_messages(
            plugin.infos(),
            plugin.atom_sequence_urid,
            plugin.midi_event_urid,
            inputs,
            midi::messages(midi[k]@),
        ),
    decreases n,
{
    if k == n - 1 {
        other_channels_leave(plugin, p, inputs, consumers, midi, n - 1);
    } else {
        one_channel_hands_over(plugin, p, inputs, consumers, midi, k, n - 1);
    }
}

/// Events leave the number and the lengths of the inputs as they are.
proof fn events_keep_lengths<S>(
    plugin: Lv2PluginInstance<S>,
    p: int,
    inputs: Seq<Seq<u8>>,
    events: Seq<AtomUiEventView>,
)
    requires
        plugin.wf(),
        inputs.len() == plugin.atom_in_bufs@.len(),
        forall|i: int|
            0 <= i < inputs.len() ==> (#[trigger] inputs[i]).len() == plugin::ATOM_BUF_SIZE,
    ensures
        ({
            let told = with_events(
                plugin.infos(),
                plugin.atom_sequence_urid,
                inputs,
                p,
                events,
            );
            &&& told.len() == inputs.len()
            &&& forall|i: int|
                0 <= i < told.len() ==> (#[trigger] told[i]).len() == plugin::ATOM_BUF_SIZE
        }),
    decreases events.len(),
{
    if events.len() > 0 {
        events_keep_lengths(plugin, p, inputs, events.drop_last());
        let before = with_events(
            plugin.infos(),
            plugin.atom_sequence_urid,
            inputs,
            p,
            events.drop_last(),
        );
        let e = events.last();
        if let Some(place) = plugin::atom_input(plugin.infos(), e.port_index) {
            plugin::atom_input_has_buffer(plugin.infos(), e.port_index);
            atom::appended_keeps_length(before[place as int], plugin.atom_sequence_urid, e.data);
        }
    }
}

/// What is in the buffers of a cleared instance.
proof fn cleared_lengths<S>(plugin: Lv2PluginInstance<S>)
    requires
        plugin.wf(),
    ensures
        ({
            let empty = plugin::cleared(
                plugin::contents(plugin.atom_in_bufs@),
                plugin.atom_sequence_urid,
            );
            &&& empty.len() == plugin.atom_in_bufs@.len()
            &&& forall|i: int|
                0 <= i < empty.len() ==> (#[trigger] empty[i]).len() == plugin::ATOM_BUF_SIZE
                    && atom::is_sequence(empty[i]) && atom::atoms(empty[i]) == Seq::<
                    Seq<u8>,
                >::empty()
        }),
{
    let empty = plugin::cleared(
        plugin::contents(plugin.atom_in_bufs@),
        plugin.atom_sequence_urid,
    );
    assert forall|i: int| 0 <= i < empty.len() implies (#[trigger] empty[i]).len()
        == plugin::ATOM_BUF_SIZE && atom::is_sequence(empty[i]) && atom::atoms(empty[i]) == Seq::<
        Seq<u8>,
    >::empty() by {
        assert(plugin.atom_in_bufs@[i]@.len() == plugin::ATOM_BUF_SIZE);
        atom::empty_sequence_has_no_atoms(
            plugin.atom_in_bufs@[i]@,
            plugin.atom_sequence_urid,
        );
    }
}

/// Messages reach their plugin: when a cycle begins, every MIDI input of the
/// instance that a channel leads to holds the messages of the channel, in their
/// order, where there are not too many for the buffer.
pub proof fn messages_reach_plugin<S>(
    plugin: Lv2PluginInstance<S>,
    p: int,
    events: Seq<AtomUiEventView>,
    consumers: Seq<(usize, MidiPort)>,
    midi: Seq<Vec<MidiEvent>>,
    k: int,
    m: usize,
)
    requires
        plugin.wf(),
        consumers.len() == midi.len(),
        0 <= k < consumers.len(),
        consumers[k].0 == p,
        forall|j: int| 0 <= j < consumers.len() && j != k ==> (#[trigger] consumers[j]).0 != p,
        all_midi_playable(midi),
        0 < midi[k]@.len(),
        24 * midi[k]@.len() + 16 <= plugin::ATOM_BUF_SIZE,
        plugin::midi_places(plugin.infos()).contains(m),
    ensures
        atom::atoms(inputs_at_start(plugin, p, events, consumers, midi)[m as int])
            == atom::midi_atoms(plugin.midi_event_urid, midi::messages(midi[k]@)),
{
    let empty = plugin::cleared(
        plugin::contents(plugin.atom_in_bufs@),
        plugin.atom_sequence_urid,
    );
    cleared_lengths(plugin);
    plugin::midi_places_are_inputs(plugin.infos());
    events_keep_lengths(plugin, p, empty, events);
    let told = with_events(plugin.infos(), plugin.atom_sequence_urid, empty, p, events);
    one_channel_hands_over(plugin, p, told, consumers, midi, k, midi.len() as int);
    let sent = midi::messages(midi[k]@);
    assert forall|i: int| 0 <= i < sent.len() implies (#[trigger] sent[i]).1.len() <= 3 by {
        assert(midi::playable(midi[k]@[i]));
        assert(midi[k]@[i].encoding().len() == 3);
    }
    plugin::midi_reaches_buffer(
        told[m as int],
        plugin.atom_sequence_urid,
        plugin.midi_event_urid,
        sent,
    );
}

/// Whether an event is for the atom input `m` of the instance `p`.
pub open spec fn is_for(infos: Seq<PortInfoView>, p: int, m: usize, e: AtomUiEventView) -> bool {
    e.plugin_idx == p && plugin::atom_input(infos, e.port_index) == Some(m)
}

/// The atoms of the events for the atom input `m` of the instance `p`.
pub open spec fn atoms_for(
    infos: Seq<PortInfoView>,
    p: int,
    m: usize,
    events: Seq<AtomUiEventView>,
) -> Seq<Seq<u8>>
    decreases events.len(),
{
    if events.len() == 0 {
        Seq::empty()
    } else {
        let before = atoms_for(infos, p, m, events.drop_last());
        if is_for(infos, p, m, events.last()) {
            before.push(events.last().data)
        } else {
            before
        }
    }
}

/// How many bytes those events take.
pub open spec fn room_for(
    infos: Seq<PortInfoView>,
    p: int,
    m: usize,
    events: Seq<AtomUiEventView>,
) -> int
    decreases events.len(),
{
    if events.len() == 0 {
        0
    } else {
        let before = room_for(infos, p, m, events.drop_last());
        if is_for(infos, p, m, events.last()) {
            before + atom::pad8(8 + events.last().data.len() as int)
        } else {
            before
        }
    }
}

/// Events that have room are appended one behind the other.
proof fn events_are_appended<S>(
    plugin: Lv2PluginInstance<S>,
    p: int,
    m: usize,
    events: Seq<AtomUiEventView>,
)
    requires
        plugin.wf(),
        m < plugin.atom_in_bufs@.len(),
        forall|i: int|
            0 <= i < events.len() && is_for(plugin.infos(), p, m, #[trigger] events[i])
                ==> atom::is_atom(events[i].data),
        16 + room_for(plugin.infos(), p, m, events) <= plugin::ATOM_BUF_SIZE,
    ensures
        ({
            let empty = plugin::cleared(
                plugin::contents(plugin.atom_in_bufs@),
                plugin.atom_sequence_urid,
            );
            let told = with_events(plugin.infos(), plugin.atom_sequence_urid, empty, p, events);
            &&& told.len() == empty.len()
            &&& told[m as int].len() == plugin::ATOM_BUF_SIZE
            &&& atom::is_sequence(told[m as int])
            &&& atom::body_size(told[m as int]) == 8 + room_for(plugin.infos(), p, m, events)
            &&& atom::atoms(told[m as int]) == atoms_for(plugin.infos(), p, m, events)
        }),
    decreases events.len(),
{
    let empty = plugin::cleared(
        plugin::contents(plugin.atom_in_bufs@),
        plugin.atom_sequence_urid,
    );
    cleared_lengths(plugin);
    if events.len() == 0 {
        atom::empty_sequence_has_no_atoms(
            plugin.atom_in_bufs@[m as int]@,
            plugin.atom_sequence_urid,
        );
    } else {
        let first = events.drop_last();
        let e = events.last();
        assert forall|i: int|
            0 <= i < first.len() && is_for(
                plugin.infos(),
                p,
                m,
                #[trigger] first[i],
            ) implies atom::is_atom(first[i].data) by {
            assert(first[i] == events[i]);
        }
        events_are_appended(plugin, p, m, first);
        let before = with_events(plugin.infos(), plugin.atom_sequence_urid, empty, p, first);
        if plugin::atom_input(plugin.infos(), e.port_index) is Some {
            plugin::atom_input_has_buffer(plugin.infos(), e.port_index);
        }
        if is_for(plugin.infos(), p, m, e) {
            assert(atom::is_atom(events[events.len() - 1].data));
            atom::appended_event_is_read(before[m as int], plugin.atom_sequence_urid, e.data);
        }
    }
}

/// Channels without messages, and those to other instances, leave the input `m`
/// of `p` as it is; so do all where it takes no MIDI.
proof fn quiet_channels_leave<S>(
    plugin: Lv2PluginInstance<S>,
    p: int,
    m: usize,
    inputs: Seq<Seq<u8>>,
    consumers: Seq<(usize, MidiPort)>,
    midi: Seq<Vec<MidiEvent>>,
    n: int,
)
    requires
        m < inputs.len(),
        forall|j: int|
            0 <= j < n && (#[trigger] consumers[j]).0 == p && plugin::midi_places(
                plugin.infos(),
            ).contains(m) ==> midi[j]@.len() == 0,
    ensures
        ({
            let after = with_midi_of(
                plugin.infos(),
                plugin.atom_sequence_urid,
                plugin.midi_event_urid,
                inputs,
                p,
                consumers,
                midi,
                n,
            );
            &&& after.len() == inputs.len()
            &&& after[m as int] == inputs[m as int]
        }),
    decreases n,
{
    if n > 0 {
        quiet_channels_leave(plugin, p, m, inputs, consumers, midi, n - 1);
    }
}

/// Atoms from windows reach their plugin: when a cycle begins, an atom input
/// holds the atoms that were sent to it, in their order, where there is room for
/// them and no MIDI messages go there.
pub proof fn window_events_reach_plugin<S>(
    plugin: Lv2PluginInstance<S>,
    p: int,
    m: usize,
    events: Seq<AtomUiEventView>,
    consumers: Seq<(usize, MidiPort)>,
    midi: Seq<Vec<MidiEvent>>,
)
    requires
        plugin.wf(),
        m < plugin.atom_in_bufs@.len(),
        forall|i: int|
            0 <= i < events.len() && is_for(plugin.infos(), p, m, #[trigger] events[i])
                ==> atom::is_atom(events[i].data),
        16 + room_for(plugin.infos(), p, m, events) <= plugin::ATOM_BUF_SIZE,
        consumers.len() == midi.len(),
        forall|j: int|
            0 <= j < consumers.len() && (#[trigger] consumers[j]).0 == p && plugin::midi_places(
                plugin.infos(),
            ).contains(m) ==> midi[j]@.len() == 0,
    ensures
        atom::atoms(inputs_at_start(plugin, p, events, consumers, midi)[m as int]) == atoms_for(
            plugin.infos(),
            p,
            m,
            events,
        ),
{
    let empty = plugin::cleared(
        plugin::contents(plugin.atom_in_bufs@),
        plugin.atom_sequence_urid,
    );
    cleared_lengths(plugin);
    events_are_appended(plugin, p, m, events);
    let told = with_events(plugin.infos(), plugin.atom_sequence_urid, empty, p, events);
    quiet_channels_leave(plugin, p, m, told, consumers, midi, midi.len() as int);
}

/// The sums that lead to a mixed sample.
proof fn sums_of_channels<S, F: Fn(S, S, u32) -> S>(
    macc: F,
    zero: S,
    bufs: Seq<Vec<S>>,
    mix: Seq<[u32; 2]>,
    side: int,
    s: int,
    n: int,
    acc: S,
) -> (sums: Seq<S>)
    requires
        0 <= n,
        accumulated(macc, zero, bufs, mix, side, s, n, acc),
    ensures
        sums.len() == 1 + if n < mix.len() {
            n
        } else {
            mix.len() as int
        },
        sums[0] == zero,
        sums.last() == acc,
        forall|c: int|
            0 <= c < n && c < mix.len() ==> macc.ensures(
                (sums[c], bufs[c]@[s], (#[trigger] mix[c])@[side]),
                sums[c + 1],
            ),
    decreases n,
{
    if n <= 0 {
        seq![acc]
    } else if n - 1 < mix.len() {
        let prev = choose|prev: S| #[trigger]
            adds(macc, prev, bufs[n - 1]@[s], mix[n - 1]@[side], acc) && accumulated(
                macc,
                zero,
                bufs,
                mix,
                side,
                s,
                n - 1,
                prev,
            );
        let first = sums_of_channels(macc, zero, bufs, mix, side, s, n - 1, prev);
        first.push(acc)
    } else {
        sums_of_channels(macc, zero, bufs, mix, side, s, n - 1, acc)
    }
}

/// Every channel takes part in a mix: a mixed sample is what a row of sums ends
/// with. It starts with silence, and each step adds the sample of the next channel
/// times its gain for that side, for every channel that has gains.
pub proof fn every_channel_is_mixed<S, F: Fn(S, S, u32) -> S>(
    macc: F,
    zero: S,
    bufs: Seq<Vec<S>>,
    mix: Seq<[u32; 2]>,
    side: int,
    n: int,
    before: Seq<S>,
    after: Seq<S>,
    s: int,
) -> (sums: Seq<S>)
    requires
        mixed(macc, zero, bufs, mix, side, n, before, after),
        0 <= s < n,
    ensures
        sums.len() == 1 + if bufs.len() < mix.len() {
            bufs.len()
        } else {
            mix.len()
        },
        sums[0] == zero,
        forall|c: int|
            0 <= c < bufs.len() && c < mix.len() ==> macc.ensures(
                (sums[c], bufs[c]@[s], (#[trigger] mix[c])@[side]),
                sums[c + 1],
            ),
        sums.last() == after[s],
{
    sums_of_channels(macc, zero, bufs, mix, side, s, bufs.len() as int, after[s])
}

/// The first two outputs of a chain whose last slot is mixed hold, sample by
/// sample, the sum over every output of the plugin in that slot, each times its
/// gain for that side.
pub proof fn output_is_mixed_from_every_channel<S, F: Fn(S, S, u32) -> S>(
    handler: ChainProcessHandler<S>,
    port: usize,
    before: Seq<S>,
    after: Seq<S>,
    n: int,
    zero: S,
    macc: F,
    i: usize,
    s: int,
) -> (sums: Seq<S>)
    requires
        handler.output_is(port, before, after, n, false, zero, macc),
        handler.slot_mixes@.last() is Some,
        handler.slots@.last() == ChainSlot::Single(i) || (handler.slots@.last() is DualMono
            && handler.slots@.last()->left == i),
        port < 2,
        0 <= s < n,
    ensures
        ({
            let outs = handler.plugins@[i as int].audio_out_bufs@;
            let gains = (handler.slot_mixes@.last()->0)@;
            &&& sums.len() == 1 + if outs.len() < gains.len() {
                outs.len()
            } else {
                gains.len()
            }
            &&& sums[0] == zero
            &&& forall|c: int|
                0 <= c < outs.len() && c < gains.len() ==> macc.ensures(
                    (sums[c], outs[c]@[s], (#[trigger] gains[c])@[port as int]),
                    sums[c + 1],
                )
            &&& sums.last() == after[s]
        }),
        after.len() == before.len(),
        forall|t: int| n <= t < after.len() ==> #[trigger] after[t] == before[t],
{
    every_channel_is_mixed(
        macc,
        zero,
        handler.plugins@[i as int].audio_out_bufs@,
        (handler.slot_mixes@.last()->0)@,
        port as int,
        n,
        before,
        after,
        s,
    )
}

/// A chain whose last slot is mixed is silent at every output behind the second.
pub proof fn mix_has_two_sides<S, F: Fn(S, S, u32) -> S>(
    handler: ChainProcessHandler<S>,
    port: usize,
    before: Seq<S>,
    after: Seq<S>,
    n: int,
    muted: bool,
    zero: S,
    macc: F,
)
    requires
        handler.output_is(port, before, after, n, muted, zero, macc),
        handler.slot_mixes@.last() is Some,
        port >= 2,
        0 <= n <= before.len(),
    ensures
        after.len() == before.len(),
        forall|s: int| 0 <= s < n ==> #[trigger] after[s] == zero,
        forall|s: int| n <= s < after.len() ==> #[trigger] after[s] == before[s],
{
}

/// Every output of a chain that ends in a single plugin plays the output of the
/// plugin that has its number, and is silent where the plugin has none.
pub proof fn output_plays_single<S, F: Fn(S, S, u32) -> S>(
    handler: ChainProcessHandler<S>,
    port: usize,
    before: Seq<S>,
    after: Seq<S>,
    n: int,
    zero: S,
    macc: F,
    i: usize,
)
    requires
        handler.wf(),
        handler.output_is(port, before, after, n, false, zero, macc),
        handler.slot_mixes@.last() is None,
        handler.slots@.last() == ChainSlot::Single(i),
        0 <= n <= before.len(),
        n <= handler.frames,
    ensures
        after.len() == before.len(),
        after.skip(n) == before.skip(n),
        port < handler.plugins@[i as int].audio_out_bufs@.len() ==> after.take(n)
            == handler.plugins@[i as int].audio_out_bufs@[port as int]@.take(n),
        port >= handler.plugins@[i as int].audio_out_bufs@.len() ==> forall|s: int|
            0 <= s < n ==> #[trigger] after[s] == zero,
{
    let last = handler.slots@.len() - 1;
    assert(handler.slots@[last].within(handler.plugins@.len()));
    assert(handler.plugins@[i as int].wf());
    let outs = handler.plugins@[i as int].audio_out_bufs@;
    if port < outs.len() {
        assert(outs[port as int]@.len() >= n);
        assert(after.take(n) =~= outs[port as int]@.take(n));
    }
    assert(after.skip(n) =~= before.skip(n));
}

/// A chain that ends in a pair of plugins plays the first output of the left one
/// at its first output and that of the right one at its second, silence where
/// there is none, and leaves all other outputs alone.
pub proof fn output_plays_pair<S, F: Fn(S, S, u32) -> S>(
    handler: ChainProcessHandler<S>,
    port: usize,
    before: Seq<S>,
    after: Seq<S>,
    n: int,
    zero: S,
    macc: F,
    left: usize,
    right: usize,
)
    requires
        handler.wf(),
        handler.output_is(port, before, after, n, false, zero, macc),
        handler.slot_mixes@.last() is None,
        handler.slots@.last() == (ChainSlot::DualMono { left, right }),
        0 <= n <= before.len(),
        n <= handler.frames,
    ensures
        after.len() == before.len(),
        after.skip(n) == before.skip(n),
        port == 0 && handler.plugins@[left as int].audio_out_bufs@.len() > 0 ==> after.take(n)
            == handler.plugins@[left as int].audio_out_bufs@[0]@.take(n),
        port == 0 && handler.plugins@[left as int].audio_out_bufs@.len() == 0 ==> forall|s: int|
            0 <= s < n ==> #[trigger] after[s] == zero,
        port == 1 && handler.plugins@[right as int].audio_out_bufs@.len() > 0 ==> after.take(n)
            == handler.plugins@[right as int].audio_out_bufs@[0]@.take(n),
        port == 1 && handler.plugins@[right as int].audio_out_bufs@.len() == 0 ==> forall|s: int|
            0 <= s < n ==> #[trigger] after[s] == zero,
        port >= 2 ==> after == before,
{
    let last = handler.slots@.len() - 1;
    assert(handler.slots@[last].within(handler.plugins@.len()));
    assert(handler.plugins@[left as int].wf());
    assert(handler.plugins@[right as int].wf());
    let of_left = handler.plugins@[left as int].audio_out_bufs@;
    let of_right = handler.plugins@[right as int].audio_out_bufs@;
    if port == 0 && of_left.len() > 0 {
        assert(of_left[0]@.len() >= n);
        assert(after.take(n) =~= of_left[0]@.take(n));
    }
    if port == 1 && of_right.len() > 0 {
        assert(of_right[0]@.len() >= n);
        assert(after.take(n) =~= of_right[0]@.take(n));
    }
    assert(after.skip(n) =~= before.skip(n));
}

/// An input of a chain that begins with a single plugin goes to the input of the
/// plugin that has its number, and nothing else changes.
pub proof fn input_reaches_single<S>(
    handler: ChainProcessHandler<S>,
    after: Seq<Lv2PluginInstance<S>>,
    port: usize,
    samples: Seq<S>,
    n: int,
    i: usize,
)
    requires
        handler.wf(),
        handler.loads(port, samples, n, after),
        handler.slots@[0] == ChainSlot::Single(i),
        0 <= n <= handler.frames,
        n <= samples.len(),
    ensures
        after.len() == handler.plugins@.len(),
        port < after[i as int].audio_in_bufs@.len()
            ==> after[i as int].audio_in_bufs@[port as int]@.take(n) == samples.take(n),
        port < after[i as int].audio_in_bufs@.len()
            ==> after[i as int].audio_in_bufs@[port as int]@.skip(n) == handler.plugins@[i as int].audio_in_bufs@[port as int]@.skip(n),
        forall|p: int, b: int|
            0 <= p < after.len() && 0 <= b < after[p].audio_in_bufs@.len() && !(p == i && b == port)
                ==> (#[trigger] after[p].audio_in_bufs@[b])@
                == handler.plugins@[p].audio_in_bufs@[b]@,
        forall|p: int|
            0 <= p < after.len() ==> (#[trigger] after[p]) == (Lv2PluginInstance {
                audio_in_bufs: after[p].audio_in_bufs,
                ..handler.plugins@[p]
            }) && after[p].audio_in_bufs@.len() == handler.plugins@[p].audio_in_bufs@.len(),
{
    assert(handler.slots@[0].within(handler.plugins@.len()));
    assert(after[i as int].wf());
    let ins = after[i as int].audio_in_bufs@;
    let was = handler.plugins@[i as int].audio_in_bufs@;
    assert(handler.plugins@[i as int].wf());
    if port < ins.len() {
        assert(was[port as int]@.len() >= n);
        assert(ins[port as int]@ == copied(was[port as int]@, samples, n));
        assert(ins[port as int]@.take(n) =~= samples.take(n));
        assert(ins[port as int]@.skip(n) =~= was[port as int]@.skip(n));
    }
    assert forall|p: int| 0 <= p < after.len() implies (#[trigger] after[p])
        == (Lv2PluginInstance {
        audio_in_bufs: after[p].audio_in_bufs,
        ..handler.plugins@[p]
    }) && after[p].audio_in_bufs@.len() == handler.plugins@[p].audio_in_bufs@.len() by {
        assert(handler.plugins@[p].wf());
        assert(after[p].wf());
    }
}

/// The first two inputs of a chain that begins with a pair of plugins go to the
/// first input of the left one and of the right one; other inputs go nowhere, and
/// nothing else changes.
pub proof fn input_reaches_pair<S>(
    handler: ChainProcessHandler<S>,
    after: Seq<Lv2PluginInstance<S>>,
    port: usize,
    samples: Seq<S>,
    n: int,
    left: usize,
    right: usize,
)
    requires
        handler.wf(),
        handler.loads(port, samples, n, after),
        handler.slots@[0] == (ChainSlot::DualMono { left, right }),
        0 <= n <= handler.frames,
        n <= samples.len(),
    ensures
        after.len() == handler.plugins@.len(),
        port == 0 && after[left as int].audio_in_bufs@.len() > 0
            ==> after[left as int].audio_in_bufs@[0]@.take(n) == samples.take(n)
            && after[left as int].audio_in_bufs@[0]@.skip(n)
            == handler.plugins@[left as int].audio_in_bufs@[0]@.skip(n),
        port == 1 && after[right as int].audio_in_bufs@.len() > 0
            ==> after[right as int].audio_in_bufs@[0]@.take(n) == samples.take(n)
            && after[right as int].audio_in_bufs@[0]@.skip(n)
            == handler.plugins@[right as int].audio_in_bufs@[0]@.skip(n),
        port >= 2 ==> after == handler.plugins@,
        forall|p: int, b: int|
            0 <= p < after.len() && 0 <= b < after[p].audio_in_bufs@.len() && !(b == 0 && ((p
                == left && port == 0) || (p == right && port == 1))) ==> (
            #[trigger] after[p].audio_in_bufs@[b])@ == handler.plugins@[p].audio_in_bufs@[b]@,
        forall|p: int|
            0 <= p < after.len() ==> (#[trigger] after[p]) == (Lv2PluginInstance {
                audio_in_bufs: after[p].audio_in_bufs,
                ..handler.plugins@[p]
            }) && after[p].audio_in_bufs@.len() == handler.plugins@[p].audio_in_bufs@.len(),
{
    assert(handler.slots@[0].within(handler.plugins@.len()));
    assert forall|p: int| 0 <= p < after.len() implies (#[trigger] after[p])
        == (Lv2PluginInstance {
        audio_in_bufs: after[p].audio_in_bufs,
        ..handler.plugins@[p]
    }) && after[p].audio_in_bufs@.len() == handler.plugins@[p].audio_in_bufs@.len() by {
        assert(handler.plugins@[p].wf());
    }
    if port < 2 {
        let i = if port == 0 {
            left
        } else {
            right
        };
        assert(after[i as int].wf());
        assert(handler.plugins@[i as int].wf());
        let ins = after[i as int].audio_in_bufs@;
        let was = handler.plugins@[i as int].audio_in_bufs@;
        if ins.len() > 0 {
            assert(was[0]@.len() >= n);
            assert(ins[0]@ == copied(was[0]@, samples, n));
            assert(ins[0]@.take(n) =~= samples.take(n));
            assert(ins[0]@.skip(n) =~= was[0]@.skip(n));
        }
    }
}

/// Audio goes from slot to slot channel by channel. A single plugin plays its first
/// two outputs on the two channels, and hears them at its first two inputs. Of a
/// pair, the left plugin plays and hears the first channel, and the right one the
/// second, each at its first port. Nothing is mixed here.
pub proof fn channel_goes_from_slot_to_slot<S, F: Fn(S, S, u32) -> S>(
    before: ChainProcessHandler<S>,
    k: int,
    n: int,
    zero: S,
    macc: F,
    route: Seq<Vec<S>>,
    after: Seq<Lv2PluginInstance<S>>,
    ch: int,
    i: usize,
    c: int,
    p: usize,
    b: int,
)
    requires
        before.wf(),
        0 < k < before.slots@.len(),
        0 <= n <= MAX_BUF_FRAMES,
        before.routes(k - 1, n, zero, macc, route),
        before.feeds(k, n, route, after),
        before.slot_mixes@[k - 1] is None,
        ({
            ||| before.slots@[k - 1] == ChainSlot::Single(i) && c == ch
            ||| before.slots@[k - 1] matches ChainSlot::DualMono { left, right } && c == 0 && ((ch
                == 0 && i == left) || (ch == 1 && i == right))
        }),
        ch == 0 || ch == 1,
        ({
            ||| before.slots@[k] == ChainSlot::Single(p) && b == ch
            ||| before.slots@[k] matches ChainSlot::DualMono { left, right } && b == 0 && ((ch == 0
                && p == left && left != right) || (ch == 1 && p == right))
        }),
        0 <= b < after[p as int].audio_in_bufs@.len(),
        0 <= c < before.plugins@[i as int].audio_out_bufs@.len(),
    ensures
        after[p as int].audio_in_bufs@[b]@.take(n)
            == before.plugins@[i as int].audio_out_bufs@[c]@.take(n),
        after[p as int].audio_in_bufs@[b]@.skip(n)
            == before.plugins@[p as int].audio_in_bufs@[b]@.skip(n),
{
    assert(before.slots@[k - 1].within(before.plugins@.len()));
    assert(before.slots@[k].within(before.plugins@.len()));
    assert(after[p as int].wf());
    assert(before.plugins@[p as int].wf());
    let ins = after[p as int].audio_in_bufs@;
    let was = before.plugins@[p as int].audio_in_bufs@;
    assert(ins.len() == was.len());
    assert(was[b]@.len() >= n);
    assert(before.route_buf@[ch]@.len() >= n);
    assert(fed_by(before.slots@[k], p as int, b) == Some(ch));
    assert(ins[b]@ == copied(was[b]@, route[ch]@, n));
    assert(before.plugins@[i as int].wf());
    let src = before.plugins@[i as int].audio_out_bufs@[c]@;
    assert(src.len() >= n);
    assert(before.channel(k - 1, ch) == Some(src));
    assert(route[ch]@ == copied(before.route_buf@[ch]@, src, n));
    assert(route[ch]@.take(n) =~= src.take(n));
    assert(ins[b]@.take(n) =~= src.take(n));
    assert(ins[b]@.skip(n) =~= was[b]@.skip(n));
}

/// Where the slot before plays nothing on a channel and nothing is mixed, the
/// channel still holds what it held, and the slot hears that.
pub proof fn silent_channel_keeps_its_samples<S, F: Fn(S, S, u32) -> S>(
    before: ChainProcessHandler<S>,
    k: int,
    n: int,
    zero: S,
    macc: F,
    route: Seq<Vec<S>>,
    after: Seq<Lv2PluginInstance<S>>,
    ch: int,
    i: usize,
    c: int,
    p: usize,
    b: int,
)
    requires
        before.wf(),
        0 < k < before.slots@.len(),
        0 <= n <= MAX_BUF_FRAMES,
        before.routes(k - 1, n, zero, macc, route),
        before.feeds(k, n, route, after),
        before.slot_mixes@[k - 1] is None,
        ({
            ||| before.slots@[k - 1] == ChainSlot::Single(i) && c == ch
            ||| before.slots@[k - 1] matches ChainSlot::DualMono { left, right } && c == 0 && ((ch
                == 0 && i == left) || (ch == 1 && i == right))
        }),
        ch == 0 || ch == 1,
        ({
            ||| before.slots@[k] == ChainSlot::Single(p) && b == ch
            ||| before.slots@[k] matches ChainSlot::DualMono { left, right } && b == 0 && ((ch == 0
                && p == left && left != right) || (ch == 1 && p == right))
        }),
        0 <= b < after[p as int].audio_in_bufs@.len(),
        c >= before.plugins@[i as int].audio_out_bufs@.len(),
    ensures
        after[p as int].audio_in_bufs@[b]@.take(n) == before.route_buf@[ch]@.take(n),
        after[p as int].audio_in_bufs@[b]@.skip(n)
            == before.plugins@[p as int].audio_in_bufs@[b]@.skip(n),
{
    assert(before.slots@[k - 1].within(before.plugins@.len()));
    assert(before.slots@[k].within(before.plugins@.len()));
    assert(after[p as int].wf());
    assert(before.plugins@[p as int].wf());
    let ins = after[p as int].audio_in_bufs@;
    let was = before.plugins@[p as int].audio_in_bufs@;
    assert(ins.len() == was.len());
    assert(was[b]@.len() >= n);
    assert(before.route_buf@[ch]@.len() >= n);
    assert(fed_by(before.slots@[k], p as int, b) == Some(ch));
    assert(ins[b]@ == copied(was[b]@, route[ch]@, n));
    assert(before.channel(k - 1, ch) is None);
    assert(route[ch]@ == before.route_buf@[ch]@);
    assert(ins[b]@.take(n) =~= before.route_buf@[ch]@.take(n));
    assert(ins[b]@.skip(n) =~= was[b]@.skip(n));
}

/// What a slot hears of a mixed one: every sample is the sum over every output of
/// the plugin before, each times its gain for that channel.
pub proof fn slot_hears_every_mixed_channel<S, F: Fn(S, S, u32) -> S>(
    before: ChainProcessHandler<S>,
    k: int,
    n: int,
    zero: S,
    macc: F,
    route: Seq<Vec<S>>,
    after: Seq<Lv2PluginInstance<S>>,
    ch: int,
    i: usize,
    p: usize,
    b: int,
    s: int,
) -> (sums: Seq<S>)
    requires
        before.wf(),
        0 < k < before.slots@.len(),
        0 <= n <= MAX_BUF_FRAMES,
        before.routes(k - 1, n, zero, macc, route),
        before.feeds(k, n, route, after),
        before.slot_mixes@[k - 1] is Some,
        before.slots@[k - 1] == ChainSlot::Single(i) || (before.slots@[k - 1] is DualMono
            && before.slots@[k - 1]->left == i),
        ch == 0 || ch == 1,
        ({
            ||| before.slots@[k] == ChainSlot::Single(p) && b == ch
            ||| before.slots@[k] matches ChainSlot::DualMono { left, right } && b == 0 && ((ch == 0
                && p == left && left != right) || (ch == 1 && p == right))
        }),
        0 <= b < after[p as int].audio_in_bufs@.len(),
        0 <= s < n,
    ensures
        ({
            let outs = before.plugins@[i as int].audio_out_bufs@;
            let gains = (before.slot_mixes@[k - 1]->0)@;
            &&& sums.len() == 1 + if outs.len() < gains.len() {
                outs.len()
            } else {
                gains.len()
            }
            &&& sums[0] == zero
            &&& forall|c: int|
                0 <= c < outs.len() && c < gains.len() ==> macc.ensures(
                    (sums[c], outs[c]@[s], (#[trigger] gains[c])@[ch]),
                    sums[c + 1],
                )
            &&& sums.last() == after[p as int].audio_in_bufs@[b]@[s]
        }),
        after[p as int].audio_in_bufs@[b]@.skip(n)
            == before.plugins@[p as int].audio_in_bufs@[b]@.skip(n),
{
    assert(before.slots@[k - 1].within(before.plugins@.len()));
    assert(before.slots@[k].within(before.plugins@.len()));
    assert(after[p as int].wf());
    assert(before.plugins@[p as int].wf());
    let ins = after[p as int].audio_in_bufs@;
    let was = before.plugins@[p as int].audio_in_bufs@;
    assert(ins.len() == was.len());
    assert(was[b]@.len() >= n);
    assert(before.route_buf@[ch]@.len() >= n);
    assert(fed_by(before.slots@[k], p as int, b) == Some(ch));
    assert(ins[b]@ == copied(was[b]@, route[ch]@, n));
    let outs = before.plugins@[i as int].audio_out_bufs@;
    let gains = (before.slot_mixes@[k - 1]->0)@;
    assert(mixed(macc, zero, outs, gains, ch, n, before.route_buf@[ch]@, route[ch]@));
    assert(ins[b]@[s] == route[ch]@[s]);
    assert(ins[b]@.skip(n) =~= was[b]@.skip(n));
    every_channel_is_mixed(
        macc,
        zero,
        outs,
        gains,
        ch,
        n,
        before.route_buf@[ch]@,
        route[ch]@,
        s,
    )
}

/// Passing audio on to a slot changes the first two inputs of its plugins at most:
/// every other input, and all else of every plugin, stays as it is.
pub proof fn only_heard_inputs_change<S>(
    before: ChainProcessHandler<S>,
    k: int,
    n: int,
    route: Seq<Vec<S>>,
    after: Seq<Lv2PluginInstance<S>>,
    p: int,
)
    requires
        before.wf(),
        0 < k < before.slots@.len(),
        0 <= n <= MAX_BUF_FRAMES,
        before.feeds(k, n, route, after),
        0 <= p < after.len(),
    ensures
        after.len() == before.plugins@.len(),
        after[p] == (Lv2PluginInstance {
            audio_in_bufs: after[p].audio_in_bufs,
            ..before.plugins@[p]
        }),
        after[p].audio_in_bufs@.len() == before.plugins@[p].audio_in_bufs@.len(),
        forall|b: int|
            0 <= b < after[p].audio_in_bufs@.len() && ({
                ||| b >= 2
                ||| before.slots@[k] is Single && before.slots@[k]->0 != p
                ||| before.slots@[k] is DualMono && b > 0
                ||| before.slots@[k] is DualMono && before.slots@[k]->left != p
                    && before.slots@[k]->right != p
            }) ==> (#[trigger] after[p].audio_in_bufs@[b])@
                == before.plugins@[p].audio_in_bufs@[b]@,
{
    assert(after[p].wf());
    assert(before.plugins@[p].wf());
}

/// When a cycle begins, every control input of an instance that the bridge of its slot has a
/// value for holds that value.
pub proof fn cycle_begins_with_bridge_values<S>(
    before: Lv2PluginInstance<S>,
    after: Lv2PluginInstance<S>,
    p: usize,
    bridges: Seq<bridge::PluginControlBridge>,
    slots: Seq<ChainSlot>,
    events: Seq<AtomUiEventView>,
    consumers: Seq<(usize, MidiPort)>,
    midi: Seq<Vec<MidiEvent>>,
    k: int,
    i: int,
)
    requires
        begun(before, after, p as int, bridges, slots, events, consumers, midi),
        0 <= k < bridges.len(),
        k < slots.len(),
        ({
            ||| slots[k] == ChainSlot::Single(p)
            ||| slots[k] matches ChainSlot::DualMono { left, right } && (left == p || right == p)
        }),
        forall|j: int|
            k < j < slots.len() ==> match #[trigger] slots[j] {
                ChainSlot::Single(q) => q != p,
                ChainSlot::DualMono { left, right } => left != p && right != p,
            },
        0 <= i < before.control_in_vals@.len(),
        i < bridges[k].values@.len(),
    ensures
        after.control_in_vals@.len() == before.control_in_vals@.len(),
        after.control_in_vals@[i] == bridges[k].values@[i],
{
    bridge::every_value_reaches_its_instances(
        bridges,
        slots,
        p,
        before.control_in_vals@,
        after.control_in_vals@,
        k,
        i,
    );
}

/// When a cycle begins, every atom output of an instance says how many bytes the plugin may
/// write, and the audio of the instance and all that it is stays as it was.
pub proof fn cycle_begins_with_room_for_atoms<S>(
    before: Lv2PluginInstance<S>,
    after: Lv2PluginInstance<S>,
    p: int,
    bridges: Seq<bridge::PluginControlBridge>,
    slots: Seq<ChainSlot>,
    events: Seq<AtomUiEventView>,
    consumers: Seq<(usize, MidiPort)>,
    midi: Seq<Vec<MidiEvent>>,
    b: int,
)
    requires
        before.wf(),
        begun(before, after, p, bridges, slots, events, consumers, midi),
        0 <= b < before.atom_out_bufs@.len(),
    ensures
        after.atom_out_bufs@.len() == before.atom_out_bufs@.len(),
        atom::number_at(after.atom_out_bufs@[b]@, 0) == 8184,
        atom::number_at(after.atom_out_bufs@[b]@, 4) == before.atom_sequence_urid,
        after.audio_in_bufs == before.audio_in_bufs,
        after.audio_out_bufs == before.audio_out_bufs,
        after.port_infos == before.port_infos,
        after.name == before.name,
{
    let outs = plugin::contents(after.atom_out_bufs@);
    assert(outs.len() == after.atom_out_bufs@.len());
    assert(outs[b] == after.atom_out_bufs@[b]@);
    assert(before.atom_out_bufs@[b]@.len() == 8192);
    atom::layout_of_output(before.atom_out_bufs@[b]@, before.atom_sequence_urid);
}

/// Every atom that an instance puts out is told to its window: by the number of the
/// instance and the index of the port, and with its bytes.
pub proof fn every_atom_is_told<S>(
    plugins: Seq<Lv2PluginInstance<S>>,
    n: int,
    p: int,
    k: int,
    a: int,
) -> (at: int)
    requires
        0 <= p < n <= plugins.len() <= usize::MAX,
        0 <= k < plugins[p].port_infos@.len(),
        plugins[p].port_infos@[k].kind == plugin::PortKind::AtomOut,
        0 <= a < atom::atoms(
            plugins[p].atom_out_bufs@[plugins[p].port_infos@[k].buf_index as int]@,
        ).len(),
    ensures
        0 <= at < notices_of(plugins, n).len(),
        notices_of(plugins, n)[at].plugin_idx == p,
        notices_of(plugins, n)[at].port_index == plugins[p].port_infos@[k].port_index,
        notices_of(plugins, n)[at].protocol == NOTIFY_PROTOCOL,
        notices_of(plugins, n)[at].data == atom::atoms(
            plugins[p].atom_out_bufs@[plugins[p].port_infos@[k].buf_index as int]@,
        )[a],
    decreases n,
{
    let before = notices_of(plugins, n - 1);
    if p < n - 1 {
        let at = every_atom_is_told(plugins, n - 1, p, k, a);
        assert(notices_of(plugins, n)[at] == before[at]);
        at
    } else {
        let infos = plugins[p].infos();
        assert(infos[k] == plugins[p].port_infos@[k]@);
        let at = plugin::every_atom_comes_out(infos, plugins[p].atom_out_bufs@, k, a);
        let told = notices(
            p as usize,
            plugin::atoms_out(infos, plugins[p].atom_out_bufs@),
        );
        assert(notices_of(plugins, n)[before.len() + at] == told[at]);
        before.len() + at
    }
}

/// Nothing else is told: what a window hears is an atom that its instance put out.
pub proof fn only_atoms_are_told<S>(
    plugins: Seq<Lv2PluginInstance<S>>,
    n: int,
    at: int,
) -> (r: (int, int, int))
    requires
        0 <= n <= plugins.len() <= usize::MAX,
        0 <= at < notices_of(plugins, n).len(),
    ensures
        ({
            let (p, k, a) = r;
            let told = notices_of(plugins, n)[at];
            &&& 0 <= p < n
            &&& 0 <= k < plugins[p].port_infos@.len()
            &&& plugins[p].port_infos@[k].kind == plugin::PortKind::AtomOut
            &&& told.plugin_idx == p
            &&& told.port_index == plugins[p].port_infos@[k].port_index
            &&& told.protocol == NOTIFY_PROTOCOL
            &&& 0 <= a < atom::atoms(
                plugins[p].atom_out_bufs@[plugins[p].port_infos@[k].buf_index as int]@,
            ).len()
            &&& told.data == atom::atoms(
                plugins[p].atom_out_bufs@[plugins[p].port_infos@[k].buf_index as int]@,
            )[a]
        }),
    decreases n,
{
    let before = notices_of(plugins, n - 1);
    if at < before.len() {
        let r = only_atoms_are_told(plugins, n - 1, at);
        assert(notices_of(plugins, n)[at] == before[at]);
        r
    } else {
        let p = n - 1;
        let infos = plugins[p].infos();
        let told = notices(
            p as usize,
            plugin::atoms_out(infos, plugins[p].atom_out_bufs@),
        );
        assert(notices_of(plugins, n)[at] == told[at - before.len()]);
        let (k, a) = plugin::only_atoms_come_out(
            infos,
            plugins[p].atom_out_bufs@,
            at - before.len(),
        );
        assert(infos[k] == plugins[p].port_infos@[k]@);
        (p, k, a)
    }
}

/// The atoms for an atom input are the data of the events for its instance and its port,
/// each once and in their order.
pub proof fn atoms_are_those_of_events(
    infos: Seq<PortInfoView>,
    p: int,
    m: usize,
    events: Seq<AtomUiEventView>,
) -> (from: Seq<int>)
    ensures
        from.len() == atoms_for(infos, p, m, events).len(),
        forall|a: int, b: int| 0 <= a < b < from.len() ==> #[trigger] from[a] < #[trigger] from[b],
        forall|j: int|
            0 <= j < from.len() ==> 0 <= #[trigger] from[j] < events.len()
                && events[from[j]].plugin_idx == p && atoms_for(infos, p, m, events)[j]
                == events[from[j]].data,
        forall|j: int|
            0 <= j < from.len() ==> plugin::atom_input(infos, events[#[trigger] from[j]].port_index)
                == Some(m),
        forall|i: int|
            0 <= i < events.len() && (#[trigger] events[i]).plugin_idx == p && plugin::atom_input(
                infos,
                events[i].port_index,
            ) == Some(m) ==> from.contains(i),
    decreases events.len(),
{
    if events.len() == 0 {
        Seq::empty()
    } else {
        let first = events.drop_last();
        let last = events.len() - 1;
        let before = atoms_are_those_of_events(infos, p, m, first);
        assert forall|j: int| 0 <= j < before.len() implies events[#[trigger] before[j]]
            == first[before[j]] by {}
        let from = if is_for(infos, p, m, events.last()) {
            before.push(last)
        } else {
            before
        };
        assert forall|i: int|
            0 <= i < events.len() && (#[trigger] events[i]).plugin_idx == p && plugin::atom_input(
                infos,
                events[i].port_index,
            ) == Some(m) implies from.contains(i) by {
            if i < last {
                assert(first[i] == events[i]);
                assert(before.contains(i));
                let k = choose|k: int| 0 <= k < before.len() && before[k] == i;
                assert(from[k] == i);
            } else {
                assert(from[from.len() - 1] == i);
            }
        }
        from
    }
}

/// What goes to a window goes there by the protocol that hands over atoms, under the number
/// that its URI has from the start.
pub proof fn windows_are_told_by_atoms()
    ensures
        crate::features::urid_of(
            crate::features::well_known(),
            "http://lv2plug.in/ns/ext/atom#eventTransfer"@,
        ) == Some(NOTIFY_PROTOCOL),
{
    crate::features::well_known_numbers(5);
}

/// Windows are told instance by instance, in the order of the instances and, of an
/// instance, in the order in which its atoms come out: each atom once, and nothing else.
pub proof fn atoms_are_told_in_order<S>(
    plugins: Seq<Lv2PluginInstance<S>>,
    n: int,
    p: int,
)
    requires
        0 <= p < n <= plugins.len() <= usize::MAX,
    ensures
        ({
            let at = notices_of(plugins, p).len() as int;
            let atoms = plugin::atoms_out(plugins[p].infos(), plugins[p].atom_out_bufs@);
            let all = notices_of(plugins, n);
            &&& notices_of(plugins, p + 1).len() == at + atoms.len()
            &&& at + atoms.len() <= all.len()
            &&& forall|a: int|
                0 <= a < atoms.len() ==> all[at + a] == (AtomUiEventView {
                    plugin_idx: p as usize,
                    port_index: (#[trigger] atoms[a]).0,
                    protocol: NOTIFY_PROTOCOL,
                    data: atoms[a].1,
                })
        }),
        notices_of(plugins, 0).len() == 0,
    decreases n,
{
    if p < n - 1 {
        atoms_are_told_in_order(plugins, n - 1, p);
    }
}

/// What is seen of events is what they have.
pub proof fn events_are_seen(events: Seq<AtomUiEvent>, i: int)
    requires
        0 <= i < events.len(),
    ensures
        event_views(events).len() == events.len(),
        event_views(events)[i].plugin_idx == events[i].plugin_idx,
        event_views(events)[i].port_index == events[i].port_index,
        event_views(events)[i].protocol == events[i].protocol,
        event_views(events)[i].data == events[i].data@,
{
}

/// [`ChainProcessHandler::write_output`] of a chain that ends in a single plugin, neither
/// mixed nor muted, plays at every output what the plugin has at its output of that number.
pub proof fn written_output_is_that_of_plugin<S: Copy, F: Fn(S, S, u32) -> S>(
    handler: &ChainProcessHandler<S>,
    port: usize,
    out: &mut [S],
    n: usize,
    zero: S,
    macc: &F,
    i: usize,
)
    requires
        call_ensures(
            ChainProcessHandler::<S>::write_output::<F>,
            (handler, port, out, n, false, zero, macc),
            (),
        ),
        handler.wf(),
        handler.slot_mixes@.last() is None,
        handler.slots@.last() == ChainSlot::Single(i),
        n <= old(out)@.len(),
        n <= handler.frames,
    ensures
        final(out)@.len() == old(out)@.len(),
        forall|s: int| n <= s < final(out)@.len() ==> #[trigger] final(out)@[s] == old(out)@[s],
        port < handler.plugins@[i as int].audio_out_bufs@.len() ==> final(out)@.take(n as int)
            == handler.plugins@[i as int].audio_out_bufs@[port as int]@.take(n as int),
        port >= handler.plugins@[i as int].audio_out_bufs@.len() ==> forall|s: int|
            0 <= s < n ==> #[trigger] final(out)@[s] == zero,
{
    output_plays_single(*handler, port, old(out)@, final(out)@, n as int, zero, *macc, i);
    assert forall|s: int| n <= s < final(out)@.len() implies #[trigger] final(out)@[s]
        == old(out)@[s] by {
        assert(final(out)@.skip(n as int)[s - n] == final(out)@[s]);
        assert(old(out)@.skip(n as int)[s - n] == old(out)@[s]);
    }
}

/// Whether a row of sums leads from silence to `acc`, where each step adds the sample at
/// `s` of the next channel times its gain for the side, over every channel that has gains.
pub open spec fn sums_lead_to<S, F: Fn(S, S, u32) -> S>(
    sums: Seq<S>,
    macc: F,
    zero: S,
    outs: Seq<Vec<S>>,
    gains: Seq<[u32; 2]>,
    side: int,
    s: int,
    acc: S,
) -> bool {
    &&& sums.len() == 1 + if outs.len() < gains.len() {
        outs.len()
    } else {
        gains.len()
    }
    &&& sums[0] == zero
    &&& forall|c: int|
        0 <= c < outs.len() && c < gains.len() ==> macc.ensures(
            (sums[c], outs[c]@[s], (#[trigger] gains[c])@[side]),
            sums[c + 1],
        )
    &&& sums.last() == acc
}

/// [`ChainProcessHandler::write_output`] of a chain that ends in a mixed plugin sums up every
/// output of the plugin that has gains, each times its gain for that side.
pub proof fn written_output_is_mixed<S: Copy, F: Fn(S, S, u32) -> S>(
    handler: &ChainProcessHandler<S>,
    port: usize,
    out: &mut [S],
    n: usize,
    zero: S,
    macc: &F,
    i: usize,
    s: int,
)
    requires
        call_ensures(
            ChainProcessHandler::<S>::write_output::<F>,
            (handler, port, out, n, false, zero, macc),
            (),
        ),
        handler.slot_mixes@.last() is Some,
        handler.slots@.last() == ChainSlot::Single(i) || (handler.slots@.last() is DualMono
            && handler.slots@.last()->left == i),
        port < 2,
        0 <= s < n,
    ensures
        exists|sums: Seq<S>| #[trigger]
            sums_lead_to(
                sums,
                *macc,
                zero,
                handler.plugins@[i as int].audio_out_bufs@,
                (handler.slot_mixes@.last()->0)@,
                port as int,
                s,
                final(out)@[s],
            ),
{
    let sums = output_is_mixed_from_every_channel(
        *handler,
        port,
        old(out)@,
        final(out)@,
        n as int,
        zero,
        *macc,
        i,
        s,
    );
    assert(sums_lead_to(
        sums,
        *macc,
        zero,
        handler.plugins@[i as int].audio_out_bufs@,
        (handler.slot_mixes@.last()->0)@,
        port as int,
        s,
        final(out)@[s],
    ));
}

/// [`ChainProcessHandler::write_output`] of a muted chain is silent.
pub proof fn written_output_is_silent_when_muted<S: Copy, F: Fn(S, S, u32) -> S>(
    handler: &ChainProcessHandler<S>,
    port: usize,
    out: &mut [S],
    n: usize,
    zero: S,
    macc: &F,
)
    requires
        call_ensures(
            ChainProcessHandler::<S>::write_output::<F>,
            (handler, port, out, n, true, zero, macc),
            (),
        ),
        n <= old(out)@.len(),
    ensures
        final(out)@.len() == old(out)@.len(),
        forall|s: int| 0 <= s < n ==> #[trigger] final(out)@[s] == zero,
        forall|s: int| n <= s < final(out)@.len() ==> #[trigger] final(out)@[s] == old(out)@[s],
{
    muted_is_silent(*handler, port, old(out)@, final(out)@, n as int, zero, *macc);
}

/// [`ChainProcessHandler::load_input`] takes an input of the chain to the input of its number
/// of a single plugin, to the first input of one of a pair, and nowhere else.
pub proof fn loaded_input_reaches_plugin<S: Copy>(
    handler: &mut ChainProcessHandler<S>,
    port: usize,
    samples: &[S],
    n: usize,
)
    requires
        call_ensures(ChainProcessHandler::<S>::load_input, (handler, port, samples, n), ()),
        old(handler).wf(),
        n <= old(handler).frames,
        n <= samples@.len(),
    ensures
        final(handler).slots == old(handler).slots,
        final(handler).plugins@.len() == old(handler).plugins@.len(),
        old(handler).slots@[0] matches ChainSlot::Single(i) ==> port
            < old(handler).plugins@[i as int].audio_in_bufs@.len()
            ==> final(handler).plugins@[i as int].audio_in_bufs@[port as int]@.take(n as int)
            == samples@.take(n as int),
        old(handler).slots@[0] matches ChainSlot::DualMono { left, right } ==> {
            &&& port == 0 && old(handler).plugins@[left as int].audio_in_bufs@.len() > 0
                ==> final(handler).plugins@[left as int].audio_in_bufs@[0]@.take(n as int)
                == samples@.take(n as int)
            &&& port == 1 && old(handler).plugins@[right as int].audio_in_bufs@.len() > 0
                ==> final(handler).plugins@[right as int].audio_in_bufs@[0]@.take(n as int)
                == samples@.take(n as int)
        },
        forall|p: int|
            0 <= p < old(handler).plugins@.len() ==> (
            #[trigger] final(handler).plugins@[p]).audio_out_bufs
                == old(handler).plugins@[p].audio_out_bufs,
{
    let after = final(handler).plugins@;
    match old(handler).slots@[0] {
        ChainSlot::Single(i) => {
            input_reaches_single(*old(handler), after, port, samples@, n as int, i);
            assert(old(handler).slots@[0].within(old(handler).plugins@.len()));
            assert(after[i as int].audio_in_bufs@.len()
                == old(handler).plugins@[i as int].audio_in_bufs@.len());
        },
        ChainSlot::DualMono { left, right } => {
            input_reaches_pair(*old(handler), after, port, samples@, n as int, left, right);
            assert(old(handler).slots@[0].within(old(handler).plugins@.len()));
            assert(after[left as int].audio_in_bufs@.len()
                == old(handler).plugins@[left as int].audio_in_bufs@.len());
            assert(after[right as int].audio_in_bufs@.len()
                == old(handler).plugins@[right as int].audio_in_bufs@.len());
        },
    }
}

/// [`ChainProcessHandler::advance`] takes what one slot plays on a channel to the inputs at
/// which the next slot hears the channel, where nothing is mixed.
pub proof fn advanced_audio_is_heard<S: Copy, F: Fn(S, S, u32) -> S>(
    handler: &mut ChainProcessHandler<S>,
    k: usize,
    n: usize,
    zero: S,
    macc: &F,
    ch: int,
    i: usize,
    c: int,
    p: usize,
    b: int,
)
    requires
        call_ensures(
            ChainProcessHandler::<S>::advance::<F>,
            (handler, k, n, zero, macc),
            (),
        ),
        old(handler).wf(),
        0 < k < old(handler).slots@.len(),
        n <= MAX_BUF_FRAMES,
        old(handler).slot_mixes@[k - 1] is None,
        ({
            ||| old(handler).slots@[k - 1] == ChainSlot::Single(i) && c == ch
            ||| old(handler).slots@[k - 1] matches ChainSlot::DualMono { left, right } && c == 0
                && ((ch == 0 && i == left) || (ch == 1 && i == right))
        }),
        ch == 0 || ch == 1,
        ({
            ||| old(handler).slots@[k as int] == ChainSlot::Single(p) && b == ch
            ||| old(handler).slots@[k as int] matches ChainSlot::DualMono { left, right } && b == 0
                && ((ch == 0 && p == left && left != right) || (ch == 1 && p == right))
        }),
        0 <= b < old(handler).plugins@[p as int].audio_in_bufs@.len(),
        0 <= c < old(handler).plugins@[i as int].audio_out_bufs@.len(),
    ensures
        final(handler).plugins@[p as int].audio_in_bufs@[b]@.take(n as int)
            == old(handler).plugins@[i as int].audio_out_bufs@[c]@.take(n as int),
        final(handler).plugins@[p as int].audio_out_bufs
            == old(handler).plugins@[p as int].audio_out_bufs,
{
    let after = final(handler).plugins@;
    assert(old(handler).slots@[k as int].within(old(handler).plugins@.len()));
    only_heard_inputs_change(
        *old(handler),
        k as int,
        n as int,
        final(handler).route_buf@,
        after,
        p as int,
    );
    channel_goes_from_slot_to_slot(
        *old(handler),
        k as int,
        n as int,
        zero,
        *macc,
        final(handler).route_buf@,
        after,
        ch,
        i,
        c,
        p,
        b,
    );
}

/// [`ChainProcessHandler::advance`] takes the sum over every output of a mixed plugin to the
/// inputs of the next slot.
pub proof fn advanced_mix_is_heard<S: Copy, F: Fn(S, S, u32) -> S>(
    handler: &mut ChainProcessHandler<S>,
    k: usize,
    n: usize,
    zero: S,
    macc: &F,
    ch: int,
    i: usize,
    p: usize,
    b: int,
    s: int,
)
    requires
        call_ensures(
            ChainProcessHandler::<S>::advance::<F>,
            (handler, k, n, zero, macc),
            (),
        ),
        old(handler).wf(),
        0 < k < old(handler).slots@.len(),
        n <= MAX_BUF_FRAMES,
        old(handler).slot_mixes@[k - 1] is Some,
        old(handler).slots@[k - 1] == ChainSlot::Single(i) || (
        old(handler).slots@[k - 1] is DualMono && old(handler).slots@[k - 1]->left == i),
        ch == 0 || ch == 1,
        ({
            ||| old(handler).slots@[k as int] == ChainSlot::Single(p) && b == ch
            ||| old(handler).slots@[k as int] matches ChainSlot::DualMono { left, right } && b == 0
                && ((ch == 0 && p == left && left != right) || (ch == 1 && p == right))
        }),
        0 <= b < old(handler).plugins@[p as int].audio_in_bufs@.len(),
        0 <= s < n,
    ensures
        exists|sums: Seq<S>| #[trigger]
            sums_lead_to(
                sums,
                *macc,
                zero,
                old(handler).plugins@[i as int].audio_out_bufs@,
                (old(handler).slot_mixes@[k - 1]->0)@,
                ch,
                s,
                final(handler).plugins@[p as int].audio_in_bufs@[b]@[s],
            ),
{
    let after = final(handler).plugins@;
    assert(old(handler).slots@[k as int].within(old(handler).plugins@.len()));
    only_heard_inputs_change(
        *old(handler),
        k as int,
        n as int,
        final(handler).route_buf@,
        after,
        p as int,
    );
    let sums = slot_hears_every_mixed_channel(
        *old(handler),
        k as int,
        n as int,
        zero,
        *macc,
        final(handler).route_buf@,
        after,
        ch,
        i,
        p,
        b,
        s,
    );
    assert(sums_lead_to(
        sums,
        *macc,
        zero,
        old(handler).plugins@[i as int].audio_out_bufs@,
        (old(handler).slot_mixes@[k - 1]->0)@,
        ch,
        s,
        after[p as int].audio_in_bufs@[b]@[s],
    ));
}

/// [`CycleStage::next`] goes on to the next slot while there is one, and then to the windows
/// and the outputs.
pub proof fn next_stage_follows(stage: CycleStage, slots: usize, r: CycleStage)
    requires
        call_ensures(CycleStage::next, (stage, slots), r),
    ensures
        stage is Fetch ==> r is Begin,
        stage is Begin ==> r is Load,
        stage is Load ==> r == (CycleStage::Run { slot: 0 }),
        stage matches CycleStage::Run { slot } ==> {
            &&& slot + 1 < slots ==> r is Advance && r->Advance_slot == slot + 1
            &&& slot + 1 >= slots ==> r is Notify
        },
        stage matches CycleStage::Advance { slot } ==> r == (CycleStage::Run { slot }),
        stage is Notify ==> r is Output,
        stage is Output ==> r is Done,
        stage is Done ==> r is Done,
{
}

/// [`ChainProcessHandler::begin`] gives every instance the values that its bridge has, and
/// leaves the audio alone.
pub proof fn begun_instances_have_bridge_values<S>(
    handler: &mut ChainProcessHandler<S>,
    bridge: &ControlBridge,
    events: &Vec<AtomUiEvent>,
    midi: &Vec<Vec<MidiEvent>>,
    p: usize,
    k: int,
    i: int,
)
    requires
        call_ensures(ChainProcessHandler::<S>::begin, (handler, bridge, events, midi), ()),
        p < old(handler).plugins@.len(),
        0 <= k < bridge.plugins@.len(),
        k < old(handler).slots@.len(),
        ({
            ||| old(handler).slots@[k] == ChainSlot::Single(p)
            ||| old(handler).slots@[k] matches ChainSlot::DualMono { left, right } && (left == p
                || right == p)
        }),
        forall|j: int|
            k < j < old(handler).slots@.len() ==> match #[trigger] old(handler).slots@[j] {
                ChainSlot::Single(q) => q != p,
                ChainSlot::DualMono { left, right } => left != p && right != p,
            },
        0 <= i < old(handler).plugins@[p as int].control_in_vals@.len(),
        i < bridge.plugins@[k].values@.len(),
    ensures
        final(handler).plugins@[p as int].control_in_vals@[i] == bridge.plugins@[k].values@[i],
        final(handler).plugins@[p as int].audio_in_bufs
            == old(handler).plugins@[p as int].audio_in_bufs,
        final(handler).plugins@[p as int].audio_out_bufs
            == old(handler).plugins@[p as int].audio_out_bufs,
{
    cycle_begins_with_bridge_values(
        old(handler).plugins@[p as int],
        final(handler).plugins@[p as int],
        p,
        bridge.plugins@,
        old(handler).slots@,
        event_views(events@),
        old(handler).midi_consumers@,
        midi@,
        k,
        i,
    );
}

/// [`ChainProcessHandler::notify_events`] tells the windows of every instance all atoms that
/// it puts out, in their order and nothing else.
pub proof fn notified_events_are_atoms<S>(
    handler: &ChainProcessHandler<S>,
    r: Vec<AtomUiEvent>,
    p: int,
    a: int,
)
    requires
        call_ensures(ChainProcessHandler::<S>::notify_events, (handler,), r),
        handler.plugins@.len() <= usize::MAX,
        0 <= p < handler.plugins@.len(),
        0 <= a < plugin::atoms_out(
            handler.plugins@[p].infos(),
            handler.plugins@[p].atom_out_bufs@,
        ).len(),
    ensures
        ({
            let at = notices_of(handler.plugins@, p).len() + a;
            let atom = plugin::atoms_out(
                handler.plugins@[p].infos(),
                handler.plugins@[p].atom_out_bufs@,
            )[a];
            &&& at < r@.len()
            &&& r@[at].plugin_idx == p
            &&& r@[at].port_index == atom.0
            &&& r@[at].data@ == atom.1
        }),
{
    let n = handler.plugins@.len() as int;
    atoms_are_told_in_order(handler.plugins@, n, p);
    let at = notices_of(handler.plugins@, p).len() + a;
    let views = event_views(r@);
    assert(views.len() == r@.len());
    let atoms = plugin::atoms_out(handler.plugins@[p].infos(), handler.plugins@[p].atom_out_bufs@);
    assert(notices_of(handler.plugins@, n)[at].data == atoms[a].1);
    assert(views[at] == r@[at]@);
}

/// [`ChainProcessHandler::receive_midi`] fetches the messages of every channel behind those
/// that were fetched before, and leaves none that was known to wait.
pub proof fn received_messages_come_next<S>(
    handler: &mut ChainProcessHandler<S>,
    r: Vec<Vec<MidiEvent>>,
    k: int,
)
    requires
        call_ensures(ChainProcessHandler::<S>::receive_midi, (handler,), r),
        0 <= k < old(handler).midi_consumers@.len(),
    ensures
        r@.len() == old(handler).midi_consumers@.len(),
        final(handler).midi_consumers@[k].1.received()
            == old(handler).midi_consumers@[k].1.received() + r@[k]@,
        final(handler).midi_consumers@[k].1.received().is_prefix_of(
            old(handler).midi_consumers@[k].1.coming(),
        ),
        final(handler).midi_consumers@[k].0 == old(handler).midi_consumers@[k].0,
        r@[k]@.len() >= old(handler).midi_consumers@[k].1.seen(),
        final(handler).plugins == old(handler).plugins,
{
    assert(final(handler).midi_consumers@[k].1.received()
        == old(handler).midi_consumers@[k].1.received() + r@[k]@);
}

/// [`ChainProcessHandler::read_slot_output`] and [`ChainProcessHandler::write_slot_input`] one
/// after the other take what one single plugin plays to another.
pub proof fn read_and_written_audio_is_heard<S: Copy, F: Fn(S, S, u32) -> S>(
    reader: &mut ChainProcessHandler<S>,
    writer: &mut ChainProcessHandler<S>,
    k: usize,
    m: usize,
    n: usize,
    zero: S,
    macc: &F,
    i: usize,
    p: usize,
    ch: int,
)
    requires
        old(reader).wf(),
        call_ensures(
            ChainProcessHandler::<S>::read_slot_output::<F>,
            (reader, k, n, zero, macc),
            (),
        ),
        *old(writer) == *final(reader),
        call_ensures(ChainProcessHandler::<S>::write_slot_input, (writer, m, n), ()),
        k < old(reader).slots@.len(),
        m < old(reader).slots@.len(),
        n <= MAX_BUF_FRAMES,
        old(reader).slot_mixes@[k as int] is None,
        old(reader).slots@[k as int] == ChainSlot::Single(i),
        old(reader).slots@[m as int] == ChainSlot::Single(p),
        0 <= ch < 2,
        ch < old(reader).plugins@[i as int].audio_out_bufs@.len(),
        ch < old(reader).plugins@[p as int].audio_in_bufs@.len(),
    ensures
        final(writer).plugins@[p as int].audio_in_bufs@[ch]@.take(n as int)
            == old(reader).plugins@[i as int].audio_out_bufs@[ch]@.take(n as int),
{
    let before = *old(reader);
    let route = final(reader).route_buf@;
    let after = final(writer).plugins@;
    assert(before.slots@[k as int].within(before.plugins@.len()));
    assert(before.slots@[m as int].within(before.plugins@.len()));
    assert(before.plugins@[i as int].wf() && before.plugins@[p as int].wf());
    assert(after[p as int].wf());
    let src = before.plugins@[i as int].audio_out_bufs@[ch]@;
    let was = before.plugins@[p as int].audio_in_bufs@[ch]@;
    assert(src.len() >= n && was.len() >= n && before.route_buf@[ch]@.len() >= n);
    assert(before.channel(k as int, ch) == Some(src));
    assert(route[ch]@ == copied(before.route_buf@[ch]@, src, n as int));
    assert(fed_by(before.slots@[m as int], p as int, ch) == Some(ch));
    assert(old(writer).ins(p as int) == before.plugins@[p as int].audio_in_bufs@);
    assert(after[p as int].audio_in_bufs@.len()
        == before.plugins@[p as int].audio_in_bufs@.len());
    assert(after[p as int].audio_in_bufs@[ch]@ == copied(was, route[ch]@, n as int));
    assert(after[p as int].audio_in_bufs@[ch]@.take(n as int) =~= src.take(n as int));
}

/// [`ChainProcessHandler::can_notify`] admits every chain whose plugins have written no more to
/// their atom outputs than they may.
pub proof fn bounded_outputs_can_be_told<S>(handler: &ChainProcessHandler<S>, r: bool)
    requires
        handler.wf(),
        call_ensures(ChainProcessHandler::<S>::can_notify, (handler,), r),
        forall|p: int, i: int|
            0 <= p < handler.plugins@.len() && 0 <= i < handler.plugins@[p].atom_out_bufs@.len()
                ==> atom::number_at((#[trigger] handler.plugins@[p].atom_out_bufs@[i])@, 0) <= 8184,
    ensures
        r,
{
    assert forall|p: int| 0 <= p < handler.plugins@.len() implies (
    #[trigger] handler.plugins@[p]).outputs_readable() by {
        let plugin = handler.plugins@[p];
        assert(plugin.wf());
        assert forall|i: int| 0 <= i < plugin.atom_out_bufs@.len() implies atom::readable(
            (#[trigger] plugin.atom_out_bufs@[i])@,
        ) by {
            assert(handler.plugins@[p].atom_out_bufs@[i]@.len() == 8192);
            atom::bounded_body_is_readable(plugin.atom_out_bufs@[i]@);
        }
    }
}

} // verus!
