//! LV2 atom sequences in byte buffers.
//!
//! A sequence is an atom: four bytes of size, four of type, then as many bytes
//! of body as the size says. The body starts with eight bytes (a time unit and
//! a pad) and goes on with events. An event is eight bytes of time and an atom,
//! filled up to a multiple of eight bytes. Numbers are in the machine's order.
use vstd::prelude::*;

use crate::bytes;

verus! {

broadcast use {bytes::native32_len, bytes::native64_len};

/// `n` rounded up to a multiple of eight.
pub open spec fn pad8(n: int) -> int {
    (n + 7) / 8 * 8
}

/// `n` bytes of zero.
pub open spec fn zeros(n: int) -> Seq<u8> {
    Seq::new(n as nat, |i: int| 0u8)
}

/// `buf` with `bytes` written over it from `at` on.
pub open spec fn overwrite(buf: Seq<u8>, at: int, bytes: Seq<u8>) -> Seq<u8> {
    buf.take(at) + bytes + buf.skip(at + bytes.len())
}

/// The header of an atom: its size, in 32 bits, and its type.
pub open spec fn atom_header(size: int, urid: u32) -> Seq<u8> {
    bytes::native32(bytes::low32(size)) + bytes::native32(urid)
}

/// The number at `at` in `buf`.
pub open spec fn number_at(buf: Seq<u8>, at: int) -> int {
    bytes::native32_value(buf.subrange(at, at + 4)) as int
}

/// The size that the header of a sequence gives for its body.
pub open spec fn body_size(buf: Seq<u8>) -> int {
    number_at(buf, 0)
}

/// A sequence without events at the start of `buf`; `buf` itself where it is
/// too short.
pub open spec fn empty_sequence(buf: Seq<u8>, sequence_urid: u32) -> Seq<u8> {
    if buf.len() < 16 {
        buf
    } else {
        overwrite(buf, 0, atom_header(8, sequence_urid) + zeros(8))
    }
}

/// What a plugin finds in a buffer that it is to write to: the size is the
/// room behind the header.
pub open spec fn output_capacity(buf: Seq<u8>, sequence_urid: u32) -> Seq<u8> {
    if buf.len() < 16 {
        buf
    } else {
        overwrite(buf, 0, atom_header(buf.len() - 8, sequence_urid) + zeros(8))
    }
}

/// Whether `append_atom_event` writes anything.
pub open spec fn event_fits(buf: Seq<u8>, atom: Seq<u8>) -> bool {
    &&& buf.len() >= 16
    &&& atom.len() >= 8
    &&& 8 + body_size(buf) + pad8(8 + atom.len() as int) <= buf.len()
}

/// The bytes from the start of an event, at `offset`, to the next multiple of
/// eight behind its atom.
pub open spec fn event_at(offset: int, atom: Seq<u8>) -> Seq<u8> {
    let end = offset + 8 + atom.len();
    zeros(8) + atom + zeros(pad8(end) - end)
}

/// `buf` with an event behind the body of its sequence; `buf` itself where the
/// event has no room.
pub open spec fn appended(buf: Seq<u8>, sequence_urid: u32, atom: Seq<u8>) -> Seq<u8> {
    if event_fits(buf, atom) {
        let body = body_size(buf);
        overwrite(
            overwrite(buf, 8 + body, event_at(8 + body, atom)),
            0,
            atom_header(body + pad8(8 + atom.len() as int), sequence_urid),
        )
    } else {
        buf
    }
}

/// The atom of a MIDI event.
pub open spec fn midi_atom(midi_urid: u32, midi: Seq<u8>) -> Seq<u8> {
    atom_header(midi.len() as int, midi_urid) + midi
}

/// A MIDI event of a sequence: its frame, its atom and the filling.
pub open spec fn midi_event(midi_urid: u32, frame: i64, midi: Seq<u8>) -> Seq<u8> {
    bytes::native64(frame) + midi_atom(midi_urid, midi) + zeros(
        pad8(16 + midi.len() as int) - (16 + midi.len()),
    )
}

/// How many of `events`, from the first on, fit into `room` bytes.
pub open spec fn midi_fitting(events: Seq<(i64, Seq<u8>)>, room: int) -> nat
    decreases events.len(),
{
    if events.len() == 0 || pad8(16 + events[0].1.len() as int) > room {
        0
    } else {
        1 + midi_fitting(events.skip(1), room - pad8(16 + events[0].1.len() as int))
    }
}

/// The bytes of `events`, one behind the other.
pub open spec fn midi_events(midi_urid: u32, events: Seq<(i64, Seq<u8>)>) -> Seq<u8>
    decreases events.len(),
{
    if events.len() == 0 {
        Seq::empty()
    } else {
        midi_events(midi_urid, events.drop_last()) + midi_event(
            midi_urid,
            events.last().0,
            events.last().1,
        )
    }
}

/// `buf` with a sequence of as many of `events` as fit.
pub open spec fn midi_sequence(
    buf: Seq<u8>,
    sequence_urid: u32,
    midi_urid: u32,
    events: Seq<(i64, Seq<u8>)>,
) -> Seq<u8> {
    let body = zeros(8) + midi_events(
        midi_urid,
        events.take(midi_fitting(events, buf.len() - 16) as int),
    );
    overwrite(buf, 0, atom_header(body.len() as int, sequence_urid) + body)
}

/// The views of events that borrow their bytes.
pub open spec fn event_views(events: Seq<(i64, &[u8])>) -> Seq<(i64, Seq<u8>)> {
    events.map_values(|e: (i64, &[u8])| (e.0, e.1@))
}

/// The atoms of the events from `pos` on, of a sequence whose body has `body`
/// bytes, up to one that does not lie in `buf`.
pub open spec fn atoms_from(buf: Seq<u8>, pos: int, body: int) -> Seq<Seq<u8>>
    decreases (if pos < body { body - pos } else { 0 }),
{
    if pos >= body {
        Seq::empty()
    } else {
        let total = 8 + number_at(buf, pos + 8);
        if pos + 8 + total > buf.len() {
            Seq::empty()
        } else {
            seq![buf.subrange(pos + 8, pos + 8 + total)] + atoms_from(
                buf,
                pos + 8 + pad8(total),
                body,
            )
        }
    }
}

/// The atoms of the events of the sequence in `buf`.
pub open spec fn atoms(buf: Seq<u8>) -> Seq<Seq<u8>> {
    if buf.len() < 16 || body_size(buf) <= 8 {
        Seq::empty()
    } else {
        atoms_from(buf, 16, body_size(buf))
    }
}

/// Whether the header of every event from `pos` on lies in `buf`.
pub open spec fn readable_from(buf: Seq<u8>, pos: int, body: int) -> bool
    decreases (if pos < body { body - pos } else { 0 }),
{
    pos < body ==> {
        &&& pos + 12 <= buf.len()
        &&& pos + 16 + number_at(buf, pos + 8) <= buf.len() ==> readable_from(
            buf,
            pos + 8 + pad8(8 + number_at(buf, pos + 8)),
            body,
        )
    }
}

/// Whether the events of the sequence in `buf` can be walked.
pub open spec fn readable(buf: Seq<u8>) -> bool {
    buf.len() >= 16 && body_size(buf) > 8 ==> readable_from(buf, 16, body_size(buf))
}

/// Writing `a` and then `b` right behind it is writing `a + b`.
proof fn overwrite_behind(buf: Seq<u8>, at: int, a: Seq<u8>, b: Seq<u8>)
    requires
        0 <= at,
        at + a.len() + b.len() <= buf.len(),
    ensures
        overwrite(overwrite(buf, at, a), at + a.len(), b) == overwrite(buf, at, a + b),
{
    assert(overwrite(overwrite(buf, at, a), at + a.len(), b) =~= overwrite(buf, at, a + b));
}

/// Writing `b` and then `a` right before it is writing `a + b`.
proof fn overwrite_before(buf: Seq<u8>, at: int, a: Seq<u8>, b: Seq<u8>)
    requires
        0 <= at,
        at + a.len() + b.len() <= buf.len(),
    ensures
        overwrite(overwrite(buf, at + a.len(), b), at, a) == overwrite(buf, at, a + b),
{
    assert(overwrite(overwrite(buf, at + a.len(), b), at, a) =~= overwrite(buf, at, a + b));
}

/// Writes `bytes` over `buf` from `at` on.
pub fn copy_at(buf: &mut [u8], at: usize, bytes: &[u8])
    requires
        at + bytes@.len() <= old(buf)@.len(),
    ensures
        final(buf)@ == overwrite(old(buf)@, at as int, bytes@),
{
    let len: usize = buf.len();
    let mut i: usize = 0;
    let ghost start = buf@;
    while i < bytes.len()
        invariant
            at + bytes@.len() <= len,
            len == start.len(),
            buf@.len() == len,
            i <= bytes@.len(),
            buf@ =~= overwrite(start, at as int, bytes@.take(i as int)),
        decreases bytes@.len() - i,
    {
        buf[at + i] = bytes[i];
        i += 1;
    }
    assert(bytes@.take(i as int) =~= bytes@);
}

/// Writes `n` zeros over `buf` from `at` on.
pub fn zero_at(buf: &mut [u8], at: usize, n: usize)
    requires
        at + n <= old(buf)@.len(),
    ensures
        final(buf)@ == overwrite(old(buf)@, at as int, zeros(n as int)),
{
    let len: usize = buf.len();
    let mut i: usize = 0;
    let ghost start = buf@;
    while i < n
        invariant
            at + n <= len,
            len == start.len(),
            buf@.len() == len,
            i <= n,
            buf@ =~= overwrite(start, at as int, zeros(i as int)),
        decreases n - i,
    {
        buf[at + i] = 0;
        i += 1;
    }
}

/// Writes the header of an atom at the start of `buf`.
fn header_at_start(buf: &mut [u8], size: u32, urid: u32)
    requires
        old(buf)@.len() >= 8,
    ensures
        final(buf)@ == overwrite(old(buf)@, 0, bytes::native32(size) + bytes::native32(urid)),
{
    let ghost start = buf@;
    let s = bytes::to_native32(size);
    let t = bytes::to_native32(urid);
    copy_at(buf, 0, s.as_slice());
    copy_at(buf, 4, t.as_slice());
    assert(buf@ =~= overwrite(start, 0, bytes::native32(size) + bytes::native32(urid)));
}

/// The number at `at` in `buf`.
pub fn read_number(buf: &[u8], at: usize) -> (r: u32)
    requires
        at + 4 <= buf@.len(),
    ensures
        r == number_at(buf@, at as int),
{
    let b: [u8; 4] = [buf[at], buf[at + 1], buf[at + 2], buf[at + 3]];
    assert(b@ =~= buf@.subrange(at as int, at + 4));
    bytes::from_native32(b)
}

/// How many bytes take `n` up to a multiple of eight.
fn filling(n: usize) -> (r: usize)
    ensures
        r < 8,
        n + r == pad8(n as int),
{
    let rest: usize = n % 8;
    if rest == 0 {
        0
    } else {
        8 - rest
    }
}

/// Writes an event at time zero, filled up with `fill` zeros.
fn put_event(buf: &mut [u8], offset: usize, atom: &[u8], fill: usize)
    requires
        offset + 8 + atom@.len() + fill <= old(buf)@.len(),
        offset + 8 + atom@.len() + fill == pad8(offset + 8 + atom@.len()),
    ensures
        final(buf)@ == overwrite(old(buf)@, offset as int, event_at(offset as int, atom@)),
{
    let len: usize = buf.len();
    let ghost start = buf@;
    zero_at(buf, offset, 8);
    copy_at(buf, offset + 8, atom);
    zero_at(buf, offset + 8 + atom.len(), fill);
    proof {
        overwrite_behind(start, offset as int, zeros(8), atom@);
        overwrite_behind(start, offset as int, zeros(8) + atom@, zeros(fill as int));
    }
}

/// Writes a MIDI event, filled up with `fill` zeros.
fn put_midi_event(
    buf: &mut [u8],
    offset: usize,
    midi_urid: u32,
    frame: i64,
    midi: &[u8],
    fill: usize,
)
    requires
        offset + 16 + midi@.len() + fill <= old(buf)@.len(),
        16 + midi@.len() + fill == pad8(16 + midi@.len() as int),
    ensures
        final(buf)@ == overwrite(
            old(buf)@,
            offset as int,
            midi_event(midi_urid, frame, midi@),
        ),
        final(buf)@.len() == old(buf)@.len(),
{
    let len: usize = buf.len();
    let ghost start = buf@;
    let n: usize = midi.len();
    let time = bytes::to_native64(frame);
    let size = bytes::to_native32(bytes::cut32(n as u64));
    let kind = bytes::to_native32(midi_urid);
    copy_at(buf, offset, time.as_slice());
    copy_at(buf, offset + 8, size.as_slice());
    copy_at(buf, offset + 12, kind.as_slice());
    copy_at(buf, offset + 16, midi);
    zero_at(buf, offset + 16 + n, fill);
    proof {
        let at = offset as int;
        overwrite_behind(start, at, time@, size@);
        overwrite_behind(start, at, time@ + size@, kind@);
        overwrite_behind(start, at, time@ + size@ + kind@, midi@);
        overwrite_behind(start, at, time@ + size@ + kind@ + midi@, zeros(fill as int));
        assert(time@ + size@ + kind@ + midi@ + zeros(fill as int) =~= midi_event(
            midi_urid,
            frame,
            midi@,
        ));
    }
}

/// Puts a sequence without events at the start of `buf`.
pub fn write_empty_atom_sequence(buf: &mut [u8], sequence_urid: u32)
    ensures
        final(buf)@ == empty_sequence(old(buf)@, sequence_urid),
        final(buf)@.len() == old(buf)@.len(),
{
    if buf.len() < 16 {
        return;
    }
    let ghost start = buf@;
    header_at_start(buf, 8, sequence_urid);
    zero_at(buf, 8, 8);
    assert(buf@ =~= overwrite(start, 0, atom_header(8, sequence_urid) + zeros(8)));
}

/// Prepares `buf` for a plugin to write a sequence to: the size in the header
/// is the room behind it.
pub fn write_atom_out_capacity(buf: &mut [u8], sequence_urid: u32)
    ensures
        final(buf)@ == output_capacity(old(buf)@, sequence_urid),
        final(buf)@.len() == old(buf)@.len(),
{
    if buf.len() < 16 {
        return;
    }
    let ghost start = buf@;
    let capacity: u32 = bytes::cut32(buf.len() as u64 - 8);
    header_at_start(buf, capacity, sequence_urid);
    zero_at(buf, 8, 8);
    assert(buf@ =~= overwrite(
        start,
        0,
        atom_header(start.len() - 8, sequence_urid) + zeros(8),
    ));
}

/// Appends an event at time zero to the sequence in `buf`, where it has room.
/// The atom is taken as it is; the protocol it came by is not looked at.
pub fn append_atom_event(buf: &mut [u8], sequence_urid: u32, _protocol: u32, atom_data: &[u8])
    requires
        event_fits(old(buf)@, atom_data@) ==> pad8(
            16 + body_size(old(buf)@) + atom_data@.len(),
        ) <= old(buf)@.len(),
    ensures
        final(buf)@ == appended(old(buf)@, sequence_urid, atom_data@),
        final(buf)@.len() == old(buf)@.len(),
{
    if buf.len() < 16 || atom_data.len() < 8 {
        return;
    }
    let ghost start = buf@;
    let len: usize = buf.len();
    let body: u32 = read_number(buf, 0);
    if (body as u64) + 8 > len as u64 {
        return;
    }
    let offset: usize = 8 + body as usize;
    let room: usize = len - offset;
    let n: usize = atom_data.len();
    if room < 8 || room - 8 < n {
        return;
    }
    let fill: usize = filling(8 + n);
    if room - 8 - n < fill {
        return;
    }
    let padded: usize = 8 + n + fill;
    assert(event_fits(start, atom_data@));
    let end_fill: usize = filling(offset + 8 + n);
    put_event(buf, offset, atom_data, end_fill);
    let size: u32 = bytes::cut32(body as u64 + padded as u64);
    header_at_start(buf, size, sequence_urid);
}

/// Writing the body of a sequence and one more event behind it is writing the
/// body with that event.
proof fn one_more_midi_event(
    buf: Seq<u8>,
    midi_urid: u32,
    events: Seq<(i64, Seq<u8>)>,
    i: int,
    body: Seq<u8>,
)
    requires
        0 <= i < events.len(),
        body == zeros(8) + midi_events(midi_urid, events.take(i)),
        8 + body.len() + pad8(16 + events[i].1.len() as int) <= buf.len(),
    ensures
        ({
            let event = midi_event(midi_urid, events[i].0, events[i].1);
            &&& event.len() == pad8(16 + events[i].1.len() as int)
            &&& body + event == zeros(8) + midi_events(midi_urid, events.take(i + 1))
            &&& overwrite(overwrite(buf, 8, body), 8 + body.len() as int, event) == overwrite(
                buf,
                8,
                body + event,
            )
        }),
{
    let event = midi_event(midi_urid, events[i].0, events[i].1);
    let taken = events.take(i + 1);
    assert(taken.drop_last() =~= events.take(i));
    assert(taken.last() == events[i]);
    assert(body + event =~= zeros(8) + midi_events(midi_urid, taken));
    overwrite_behind(buf, 8, body, event);
}

/// Puts a sequence of as many of `events` as fit at the start of `buf`.
#[verifier::rlimit(40)]
pub fn write_atom_sequence_midi(
    buf: &mut [u8],
    sequence_urid: u32,
    midi_event_urid: u32,
    events: &[(i64, &[u8])],
)
    requires
        old(buf)@.len() >= 16,
    ensures
        final(buf)@ == midi_sequence(
            old(buf)@,
            sequence_urid,
            midi_event_urid,
            event_views(events@),
        ),
        final(buf)@.len() == old(buf)@.len(),
{
    let ghost start = buf@;
    let ghost views = event_views(events@);
    let len: usize = buf.len();
    let mut offset: usize = 16;
    let mut i: usize = 0;
    zero_at(buf, 8, 8);
    let ghost mut body: Seq<u8> = zeros(8);
    let ghost fitting = midi_fitting(views, len - 16);
    let mut full = false;
    proof {
        assert(views.skip(0) =~= views);
        assert(views.take(0) =~= Seq::empty());
        assert(body =~= zeros(8) + midi_events(midi_event_urid, views.take(0)));
        assert(buf@ =~= overwrite(start, 8, body));
    }
    while i < events.len() && !full
        invariant
            views == event_views(events@),
            len == start.len(),
            buf@.len() == len,
            16 <= offset <= len,
            offset % 8 == 0,
            i <= events@.len(),
            fitting == midi_fitting(views, len - 16),
            fitting == i + midi_fitting(views.skip(i as int), len - offset),
            full ==> fitting == i,
            body == zeros(8) + midi_events(midi_event_urid, views.take(i as int)),
            body.len() == offset - 8,
            buf@ == overwrite(start, 8, body),
        decreases events@.len() - i, (if full { 0int } else { 1int }),
    {
        let frame: i64 = events[i].0;
        let midi: &[u8] = events[i].1;
        let n: usize = midi.len();
        let room: usize = len - offset;
        let ghost tail = views.skip(i as int);
        assert(tail[0] == views[i as int]);
        assert(views[i as int] == (frame, midi@));
        if room < 16 || room - 16 < n {
            assert(pad8(16 + n) > room);
            full = true;
        } else {
            let fill: usize = filling(16 + n);
            if room - 16 - n < fill {
                full = true;
            } else {
                put_midi_event(buf, offset, midi_event_urid, frame, midi, fill);
                proof {
                    let event = midi_event(midi_event_urid, frame, midi@);
                    one_more_midi_event(start, midi_event_urid, views, i as int, body);
                    body = body + event;
                    assert(tail.skip(1) =~= views.skip(i + 1));
                }
                offset = offset + 16 + n + fill;
                i += 1;
            }
        }
    }
    proof {
        if !full {
            assert(views.skip(i as int) =~= Seq::empty());
        }
        assert(fitting == i);
    }
    let size: u32 = bytes::cut32((offset - 8) as u64);
    header_at_start(buf, size, sequence_urid);
    proof {
        overwrite_before(start, 0, atom_header(body.len() as int, sequence_urid), body);
    }
}

/// The atoms of the events of the sequence in `buf`, up to one that does not
/// lie in it.
pub fn read_atoms(buf: &[u8]) -> (r: Vec<Vec<u8>>)
    requires
        readable(buf@),
    ensures
        r@.map_values(|a: Vec<u8>| a@) == atoms(buf@),
{
    let mut r: Vec<Vec<u8>> = Vec::new();
    assert(r@.map_values(|a: Vec<u8>| a@) =~= Seq::empty());
    if buf.len() < 16 {
        return r;
    }
    let len: u64 = buf.len() as u64;
    let body: u64 = read_number(buf, 0) as u64;
    if body <= 8 {
        return r;
    }
    let mut pos: u64 = 16;
    let mut over = false;
    assert(Seq::<Seq<u8>>::empty() + atoms_from(buf@, 16, body as int) =~= atoms_from(
        buf@,
        16,
        body as int,
    ));
    while pos < body && !over
        invariant
            len == buf@.len(),
            len <= usize::MAX,
            body == body_size(buf@),
            body <= u32::MAX,
            16 <= pos,
            pos <= 0x10_0000_0000,
            !over ==> readable_from(buf@, pos as int, body as int),
            atoms(buf@) == r@.map_values(|a: Vec<u8>| a@) + if over {
                Seq::empty()
            } else {
                atoms_from(buf@, pos as int, body as int)
            },
        decreases (if pos < body { body - pos } else { 0 }), (if over { 0int } else { 1int }),
    {
        let size: u64 = read_number(buf, (pos + 8) as usize) as u64;
        let total: u64 = 8 + size;
        let ghost from_here = atoms_from(buf@, pos as int, body as int);
        if pos + 8 + total > len {
            over = true;
            assert(from_here =~= Seq::empty());
        } else {
            let atom = vstd::slice::slice_to_vec(
                vstd::slice::slice_subrange(buf, (pos + 8) as usize, (pos + 8 + total) as usize),
            );
            let ghost before = r@.map_values(|a: Vec<u8>| a@);
            r.push(atom);
            let next: u64 = pos + 8 + (total + 7) / 8 * 8;
            proof {
                let one = seq![buf@.subrange(pos + 8, pos + 8 + total)];
                assert(r@.map_values(|a: Vec<u8>| a@) =~= before + one);
                assert(from_here =~= one + atoms_from(buf@, next as int, body as int));
                assert(before + from_here =~= (before + one) + atoms_from(
                    buf@,
                    next as int,
                    body as int,
                ));
            }
            pos = next;
        }
    }
    proof {
        if !over {
            assert(atoms_from(buf@, pos as int, body as int) =~= Seq::empty());
        }
        assert(atoms(buf@) =~= r@.map_values(|a: Vec<u8>| a@));
    }
    r
}

/// Whether the events of a buffer can be read: whether the header of each lies in
/// it.
pub fn can_read(buf: &[u8]) -> (r: bool)
    ensures
        r == readable(buf@),
{
    if buf.len() < 16 {
        return true;
    }
    let len: u64 = buf.len() as u64;
    let body: u64 = read_number(buf, 0) as u64;
    if body <= 8 {
        return true;
    }
    let mut pos: u64 = 16;
    while pos < body
        invariant
            len == buf@.len(),
            len <= usize::MAX,
            16 <= len,
            8 < body,
            body == body_size(buf@),
            body <= u32::MAX,
            16 <= pos,
            pos <= 0x10_0000_0000,
            readable(buf@) == readable_from(buf@, pos as int, body as int),
        decreases (if pos < body { body - pos } else { 0 }),
    {
        if pos + 12 > len {
            return false;
        }
        let total: u64 = 8 + read_number(buf, (pos + 8) as usize) as u64;
        if pos + 8 + total > len {
            return true;
        }
        pos = pos + 8 + (total + 7) / 8 * 8;
    }
    true
}

/// Whether the events from `pos` on fill a body of `body` bytes to its end.
pub open spec fn ends_with_body(buf: Seq<u8>, pos: int, body: int) -> bool
    decreases body + 8 - pos,
{
    ||| pos == body + 8
    ||| {
        &&& pos < body
        &&& pos + 16 + number_at(buf, pos + 8) <= buf.len()
        &&& pos + 8 + pad8(8 + number_at(buf, pos + 8)) <= body + 8
        &&& ends_with_body(buf, pos + 8 + pad8(8 + number_at(buf, pos + 8)), body)
    }
}

/// Whether `buf` holds a sequence whose events fill its body.
pub open spec fn is_sequence(buf: Seq<u8>) -> bool {
    let body = body_size(buf);
    &&& body >= 8
    &&& body % 8 == 0
    &&& 8 + body <= buf.len()
    &&& ends_with_body(buf, 16, body)
}

/// Whether the size in the header of `atom` is the number of bytes behind it.
pub open spec fn is_atom(atom: Seq<u8>) -> bool {
    atom.len() >= 8 && number_at(atom, 0) == atom.len() - 8
}

/// The atoms of MIDI events.
pub open spec fn midi_atoms(midi_urid: u32, events: Seq<(i64, Seq<u8>)>) -> Seq<Seq<u8>> {
    events.map_values(|e: (i64, Seq<u8>)| midi_atom(midi_urid, e.1))
}

/// A sequence that one more event stands behind, whatever its time: what was
/// read before is still read, and then the new atom.
#[verifier::rlimit(40)]
proof fn one_more_event(before: Seq<u8>, after: Seq<u8>, pos: int, body: int, atom: Seq<u8>)
    requires
        before.len() == after.len(),
        16 <= pos <= body + 8,
        ends_with_body(before, pos, body),
        is_atom(atom),
        8 + body + pad8(8 + atom.len() as int) <= after.len(),
        after.subrange(8, 8 + body) == before.subrange(8, 8 + body),
        after.subrange(16 + body, 16 + body + atom.len()) == atom,
    ensures
        ends_with_body(after, pos, body + pad8(8 + atom.len() as int)),
        atoms_from(after, pos, body + pad8(8 + atom.len() as int)) == atoms_from(
            before,
            pos,
            body,
        ).push(atom),
    decreases body + 8 - pos,
{
    let grown = body + pad8(8 + atom.len() as int);
    let n = atom.len() as int;
    assert(pad8(8 + n) == 8 + pad8(n));
    if pos == body + 8 {
        assert(after.subrange(pos + 8, pos + 12) =~= atom.subrange(0, 4)) by {
            assert(atom.subrange(0, 4) =~= after.subrange(
                16 + body,
                16 + body + atom.len(),
            ).subrange(0, 4));
        }
        assert(number_at(after, pos + 8) == n - 8);
        let next = pos + 8 + pad8(n);
        assert(next == grown + 8);
        assert(ends_with_body(after, next, grown));
        assert(atoms_from(after, next, grown) =~= Seq::empty());
        assert(atoms_from(after, pos, grown) =~= seq![atom]);
        assert(atoms_from(before, pos, body) =~= Seq::empty());
        assert(atoms_from(before, pos, body).push(atom) =~= seq![atom]);
    } else {
        let size = number_at(before, pos + 8);
        let next = pos + 8 + pad8(8 + size);
        assert(pad8(8 + size) >= 8 + size);
        assert(after.subrange(pos + 8, pos + 12) =~= before.subrange(pos + 8, pos + 12)) by {
            assert forall|i: int| pos + 8 <= i < pos + 12 implies after[i] == before[i] by {
                assert(after[i] == after.subrange(8, 8 + body)[i - 8]);
                assert(before[i] == before.subrange(8, 8 + body)[i - 8]);
            }
        }
        one_more_event(before, after, next, body, atom);
        assert(after.subrange(pos + 8, pos + 16 + size) =~= before.subrange(
            pos + 8,
            pos + 16 + size,
        )) by {
            assert forall|i: int| pos + 8 <= i < pos + 16 + size implies after[i] == before[i] by {
                assert(after[i] == after.subrange(8, 8 + body)[i - 8]);
                assert(before[i] == before.subrange(8, 8 + body)[i - 8]);
            }
        }
        let one = seq![before.subrange(pos + 8, pos + 16 + size)];
        assert(atoms_from(before, pos, body) == one + atoms_from(before, next, body));
        assert(atoms_from(after, pos, grown) == one + atoms_from(after, next, grown));
        assert(one + atoms_from(before, next, body).push(atom) =~= (one + atoms_from(
            before,
            next,
            body,
        )).push(atom));
    }
}

/// What `overwrite` leaves and what it writes.
proof fn overwritten(buf: Seq<u8>, at: int, new: Seq<u8>, from: int, to: int)
    requires
        0 <= at,
        at + new.len() <= buf.len(),
        0 <= from <= to <= buf.len(),
    ensures
        overwrite(buf, at, new).len() == buf.len(),
        to <= at || at + new.len() <= from ==> overwrite(buf, at, new).subrange(from, to)
            == buf.subrange(from, to),
        at <= from && to <= at + new.len() ==> overwrite(buf, at, new).subrange(from, to)
            == new.subrange(from - at, to - at),
{
    let o = overwrite(buf, at, new);
    if to <= at || at + new.len() <= from {
        assert(o.subrange(from, to) =~= buf.subrange(from, to));
    }
    if at <= from && to <= at + new.len() {
        assert(o.subrange(from, to) =~= new.subrange(from - at, to - at));
    }
}

/// The size that a header written at the start of a buffer gives.
proof fn header_size(buf: Seq<u8>, size: int, urid: u32, rest: Seq<u8>)
    requires
        0 <= size <= u32::MAX,
        8 + rest.len() <= buf.len(),
    ensures
        body_size(overwrite(buf, 0, atom_header(size, urid) + rest)) == size,
{
    let new = atom_header(size, urid) + rest;
    overwritten(buf, 0, new, 0, 4);
    let b = bytes::native32(bytes::low32(size));
    assert(new.subrange(0, 4) =~= b);
    bytes::native32_inverse(bytes::low32(size), b);
}

/// A part of the body that was written behind a header.
proof fn body_part(buf: Seq<u8>, size: int, urid: u32, body: Seq<u8>, from: int, to: int)
    requires
        8 + body.len() <= buf.len(),
        0 <= from <= to <= body.len(),
    ensures
        overwrite(buf, 0, atom_header(size, urid) + body).subrange(8 + from, 8 + to)
            == body.subrange(from, to),
{
    let new = atom_header(size, urid) + body;
    overwritten(buf, 0, new, 8 + from, 8 + to);
    assert(new.subrange(8 + from, 8 + to) =~= body.subrange(from, to));
}

/// The atom of a MIDI event is an atom, and lies behind the time of the event.
proof fn midi_atom_in_event(midi_urid: u32, frame: i64, midi: Seq<u8>)
    requires
        midi.len() <= u32::MAX,
    ensures
        is_atom(midi_atom(midi_urid, midi)),
        midi_atom(midi_urid, midi).len() == 8 + midi.len(),
        midi_event(midi_urid, frame, midi).len() == pad8(16 + midi.len() as int),
        midi_event(midi_urid, frame, midi).subrange(8, 16 + midi.len() as int) == midi_atom(
            midi_urid,
            midi,
        ),
{
    let atom = midi_atom(midi_urid, midi);
    let size = bytes::low32(midi.len() as int);
    assert(atom.subrange(0, 4) =~= bytes::native32(size));
    bytes::native32_inverse(size, atom.subrange(0, 4));
    assert(midi_event(midi_urid, frame, midi).subrange(8, 16 + midi.len() as int) =~= atom);
}

/// An empty sequence is a sequence, and nothing is read from it.
pub proof fn empty_sequence_has_no_atoms(buf: Seq<u8>, sequence_urid: u32)
    requires
        buf.len() >= 16,
    ensures
        is_sequence(empty_sequence(buf, sequence_urid)),
        empty_sequence(buf, sequence_urid).len() == buf.len(),
        atoms(empty_sequence(buf, sequence_urid)) == Seq::<Seq<u8>>::empty(),
        body_size(empty_sequence(buf, sequence_urid)) == 8,
{
    header_size(buf, 8, sequence_urid, zeros(8));
}

/// Where the parts of a sequence with one more event lie.
#[verifier::rlimit(40)]
proof fn appended_layout(buf: Seq<u8>, sequence_urid: u32, atom: Seq<u8>)
    requires
        body_size(buf) >= 8,
        body_size(buf) % 8 == 0,
        event_fits(buf, atom),
        buf.len() <= u32::MAX,
    ensures
        ({
            let body = body_size(buf);
            let after = appended(buf, sequence_urid, atom);
            &&& after.len() == buf.len()
            &&& body_size(after) == body + pad8(8 + atom.len() as int)
            &&& after.subrange(8, 8 + body) == buf.subrange(8, 8 + body)
            &&& after.subrange(16 + body, 16 + body + atom.len()) == atom
        }),
{
    let body = body_size(buf);
    let n = atom.len() as int;
    let grown = body + pad8(8 + n);
    let event = event_at(8 + body, atom);
    assert(event.len() == pad8(8 + n)) by {
        assert(pad8(16 + body + n) == body + 8 + pad8(8 + n));
    }
    let mid = overwrite(buf, 8 + body, event);
    let head = atom_header(grown, sequence_urid);
    assert(mid.len() == buf.len() && mid.subrange(8, 8 + body) == buf.subrange(8, 8 + body)) by {
        overwritten(buf, 8 + body, event, 8, 8 + body);
    }
    assert(mid.subrange(16 + body, 16 + body + n) == atom) by {
        overwritten(buf, 8 + body, event, 16 + body, 16 + body + n);
        assert(event.subrange(8, 8 + n) =~= atom);
    }
    overwritten(mid, 0, head, 8, 8 + body);
    overwritten(mid, 0, head, 16 + body, 16 + body + n);
    assert(body_size(overwrite(mid, 0, head)) == grown) by {
        assert(head + Seq::<u8>::empty() =~= head);
        header_size(mid, grown, sequence_urid, Seq::empty());
    }
}

/// An event that is appended is read back: behind those that were there, which
/// are still read as they were. The buffer stays a sequence.
pub proof fn appended_event_is_read(buf: Seq<u8>, sequence_urid: u32, atom: Seq<u8>)
    requires
        is_sequence(buf),
        is_atom(atom),
        event_fits(buf, atom),
        buf.len() <= u32::MAX,
    ensures
        is_sequence(appended(buf, sequence_urid, atom)),
        appended(buf, sequence_urid, atom).len() == buf.len(),
        atoms(appended(buf, sequence_urid, atom)) == atoms(buf).push(atom),
        body_size(appended(buf, sequence_urid, atom)) == body_size(buf) + pad8(
            8 + atom.len() as int,
        ),
{
    let body = body_size(buf);
    appended_layout(buf, sequence_urid, atom);
    one_more_event(buf, appended(buf, sequence_urid, atom), 16, body, atom);
    if body == 8 {
        assert(atoms_from(buf, 16, body) =~= Seq::empty());
    }
}

/// An event leaves the length of the buffer as it is, where the length is a
/// multiple of eight.
pub proof fn appended_keeps_length(buf: Seq<u8>, sequence_urid: u32, atom: Seq<u8>)
    requires
        buf.len() % 8 == 0,
    ensures
        appended(buf, sequence_urid, atom).len() == buf.len(),
{
    if event_fits(buf, atom) {
        let body = body_size(buf);
        assert(pad8(16 + body + atom.len()) <= buf.len());
        let mid = overwrite(buf, 8 + body, event_at(8 + body, atom));
        assert(mid.len() == buf.len());
        let head = atom_header(body + pad8(8 + atom.len() as int), sequence_urid);
        assert(overwrite(mid, 0, head).len() == buf.len());
    }
}

/// An event for which there is room is the only one behind an empty sequence.
pub proof fn empty_sequence_takes_event(buf: Seq<u8>, sequence_urid: u32, atom: Seq<u8>)
    requires
        16 + pad8(8 + atom.len() as int) <= buf.len() <= u32::MAX,
        is_atom(atom),
    ensures
        atoms(appended(empty_sequence(buf, sequence_urid), sequence_urid, atom)) == Seq::<
            Seq<u8>,
        >::empty().push(atom),
{
    let empty = empty_sequence(buf, sequence_urid);
    empty_sequence_has_no_atoms(buf, sequence_urid);
    header_size(buf, 8, sequence_urid, zeros(8));
    appended_event_is_read(empty, sequence_urid, atom);
}

/// An event without room changes nothing.
pub proof fn event_without_room_is_dropped(buf: Seq<u8>, sequence_urid: u32, atom: Seq<u8>)
    requires
        !event_fits(buf, atom),
    ensures
        appended(buf, sequence_urid, atom) == buf,
{
}

/// An event can be appended to a sequence: its filling stays in the buffer.
pub proof fn sequence_takes_event(buf: Seq<u8>, atom: Seq<u8>)
    requires
        is_sequence(buf),
        event_fits(buf, atom),
    ensures
        pad8(16 + body_size(buf) + atom.len()) <= buf.len(),
{
}

/// The number of events that fit is at most the number of events, and they do
/// fit.
proof fn fitting_bounds(midi_urid: u32, events: Seq<(i64, Seq<u8>)>, room: int)
    requires
        room >= 0,
    ensures
        midi_fitting(events, room) <= events.len(),
        midi_events(midi_urid, events.take(midi_fitting(events, room) as int)).len() <= room,
    decreases events.len(),
{
    let k = midi_fitting(events, room);
    if k == 0 {
        assert(events.take(0).len() == 0);
    } else {
        let first = events[0];
        let size = pad8(16 + first.1.len() as int);
        fitting_bounds(midi_urid, events.skip(1), room - size);
        let rest = events.skip(1).take(k - 1);
        assert(events.take(k as int) =~= seq![first] + rest);
        midi_events_first(midi_urid, first, rest);
    }
}

/// The bytes of events start with those of the first.
proof fn midi_events_first(midi_urid: u32, first: (i64, Seq<u8>), rest: Seq<(i64, Seq<u8>)>)
    ensures
        midi_events(midi_urid, seq![first] + rest) == midi_event(midi_urid, first.0, first.1)
            + midi_events(midi_urid, rest),
        midi_event(midi_urid, first.0, first.1).len() == pad8(16 + first.1.len() as int),
    decreases rest.len(),
{
    let all = seq![first] + rest;
    if rest.len() == 0 {
        assert(all.drop_last() =~= Seq::empty());
        assert(all.last() == first);
        assert(midi_events(midi_urid, all.drop_last()) =~= Seq::empty());
        assert(midi_events(midi_urid, all) =~= midi_event(midi_urid, first.0, first.1));
        assert(midi_event(midi_urid, first.0, first.1) + midi_events(midi_urid, rest)
            =~= midi_event(midi_urid, first.0, first.1));
    } else {
        assert(all.drop_last() =~= seq![first] + rest.drop_last());
        midi_events_first(midi_urid, first, rest.drop_last());
        assert(midi_events(midi_urid, all) =~= midi_event(midi_urid, first.0, first.1)
            + midi_events(midi_urid, rest));
    }
}

/// A buffer with a sequence of exactly `events`.
#[verifier::opaque]
spec fn with_midi(
    buf: Seq<u8>,
    sequence_urid: u32,
    midi_urid: u32,
    events: Seq<(i64, Seq<u8>)>,
) -> Seq<u8> {
    let body = zeros(8) + midi_events(midi_urid, events);
    overwrite(buf, 0, atom_header(body.len() as int, sequence_urid) + body)
}

/// Where the last of `events` lies, and that those before it lie where they
/// would without it.
#[verifier::rlimit(40)]
proof fn last_event_layout(
    buf: Seq<u8>,
    sequence_urid: u32,
    midi_urid: u32,
    events: Seq<(i64, Seq<u8>)>,
)
    requires
        events.len() > 0,
        16 + midi_events(midi_urid, events).len() <= buf.len(),
        buf.len() <= u32::MAX,
    ensures
        ({
            let less = with_midi(buf, sequence_urid, midi_urid, events.drop_last());
            let all = with_midi(buf, sequence_urid, midi_urid, events);
            let b = 8 + midi_events(midi_urid, events.drop_last()).len() as int;
            let atom = midi_atom(midi_urid, events.last().1);
            &&& is_atom(atom)
            &&& 8 + midi_events(midi_urid, events).len() == b + pad8(8 + atom.len() as int)
            &&& all.subrange(8, 8 + b) == less.subrange(8, 8 + b)
            &&& all.subrange(16 + b, 16 + b + atom.len()) == atom
        }),
{
    reveal(with_midi);
    let last = events.last();
    let event = midi_event(midi_urid, last.0, last.1);
    let atom = midi_atom(midi_urid, last.1);
    let body = zeros(8) + midi_events(midi_urid, events);
    let small = zeros(8) + midi_events(midi_urid, events.drop_last());
    let b = small.len() as int;
    let n = last.1.len() as int;
    assert(body =~= small + event);
    midi_atom_in_event(midi_urid, last.0, last.1);
    assert(with_midi(buf, sequence_urid, midi_urid, events).subrange(8, 8 + b) == with_midi(
        buf,
        sequence_urid,
        midi_urid,
        events.drop_last(),
    ).subrange(8, 8 + b)) by {
        body_part(buf, body.len() as int, sequence_urid, body, 0, b);
        body_part(buf, b, sequence_urid, small, 0, b);
        assert(body.subrange(0, b) =~= small.subrange(0, b));
    }
    assert(with_midi(buf, sequence_urid, midi_urid, events).subrange(16 + b, 16 + b + atom.len())
        == atom) by {
        body_part(buf, body.len() as int, sequence_urid, body, 8 + b, 16 + b + n);
        assert(body.subrange(8 + b, 16 + b + n) =~= event.subrange(8, 16 + n));
    }
}

/// The size that a sequence of `events` gives.
proof fn with_midi_size(
    buf: Seq<u8>,
    sequence_urid: u32,
    midi_urid: u32,
    events: Seq<(i64, Seq<u8>)>,
)
    requires
        16 + midi_events(midi_urid, events).len() <= buf.len(),
        buf.len() <= u32::MAX,
    ensures
        with_midi(buf, sequence_urid, midi_urid, events).len() == buf.len(),
        body_size(with_midi(buf, sequence_urid, midi_urid, events)) == 8 + midi_events(
            midi_urid,
            events,
        ).len(),
{
    reveal(with_midi);
    let body = zeros(8) + midi_events(midi_urid, events);
    header_size(buf, body.len() as int, sequence_urid, body);
}

/// Reading a buffer that `events` were written to.
#[verifier::rlimit(40)]
proof fn midi_prefix_is_read(
    buf: Seq<u8>,
    sequence_urid: u32,
    midi_urid: u32,
    events: Seq<(i64, Seq<u8>)>,
)
    requires
        16 + midi_events(midi_urid, events).len() <= buf.len(),
        buf.len() <= u32::MAX,
    ensures
        ({
            let after = with_midi(buf, sequence_urid, midi_urid, events);
            let body = 8 + midi_events(midi_urid, events).len() as int;
            &&& after.len() == buf.len()
            &&& body_size(after) == body
            &&& body % 8 == 0
            &&& ends_with_body(after, 16, body)
            &&& atoms_from(after, 16, body) == midi_atoms(midi_urid, events)
        }),
    decreases events.len(),
{
    let after = with_midi(buf, sequence_urid, midi_urid, events);
    with_midi_size(buf, sequence_urid, midi_urid, events);
    if events.len() == 0 {
        assert(midi_atoms(midi_urid, events) =~= Seq::empty());
        assert(atoms_from(after, 16, 8) =~= Seq::empty());
    } else {
        let less = events.drop_last();
        let atom = midi_atom(midi_urid, events.last().1);
        let b = 8 + midi_events(midi_urid, less).len() as int;
        last_event_layout(buf, sequence_urid, midi_urid, events);
        midi_prefix_is_read(buf, sequence_urid, midi_urid, less);
        one_more_event(
            with_midi(buf, sequence_urid, midi_urid, less),
            after,
            16,
            b,
            atom,
        );
        assert(midi_atoms(midi_urid, less).push(atom) =~= midi_atoms(midi_urid, events));
    }
}

/// The MIDI events that were written are read back in their order, each with
/// its type and its bytes; those that did not fit are left out from the first
/// such on.
#[verifier::rlimit(40)]
pub proof fn midi_sequence_is_read(
    buf: Seq<u8>,
    sequence_urid: u32,
    midi_urid: u32,
    events: Seq<(i64, Seq<u8>)>,
)
    requires
        16 <= buf.len() <= u32::MAX,
    ensures
        is_sequence(midi_sequence(buf, sequence_urid, midi_urid, events)),
        midi_sequence(buf, sequence_urid, midi_urid, events).len() == buf.len(),
        midi_fitting(events, buf.len() - 16) <= events.len(),
        atoms(midi_sequence(buf, sequence_urid, midi_urid, events)) == midi_atoms(
            midi_urid,
            events.take(midi_fitting(events, buf.len() - 16) as int),
        ),
{
    let k = midi_fitting(events, buf.len() - 16);
    fitting_bounds(midi_urid, events, buf.len() - 16);
    let fit = events.take(k as int);
    midi_prefix_is_read(buf, sequence_urid, midi_urid, fit);
    assert(midi_sequence(buf, sequence_urid, midi_urid, events) == with_midi(
        buf,
        sequence_urid,
        midi_urid,
        fit,
    )) by {
        reveal(with_midi);
    }
    if body_size(midi_sequence(buf, sequence_urid, midi_urid, events)) <= 8 {
        if k > 0 {
            midi_events_first(midi_urid, fit[0], fit.skip(1));
            assert(fit =~= seq![fit[0]] + fit.skip(1));
        }
        assert(midi_atoms(midi_urid, fit) =~= Seq::empty());
    }
}

/// The events of a sequence can be walked.
pub proof fn sequence_is_readable(buf: Seq<u8>)
    requires
        is_sequence(buf),
    ensures
        readable(buf),
{
    walk_of_sequence(buf, 16, body_size(buf));
}

proof fn walk_of_sequence(buf: Seq<u8>, pos: int, body: int)
    requires
        ends_with_body(buf, pos, body),
    ensures
        readable_from(buf, pos, body),
    decreases body + 8 - pos,
{
    if pos < body {
        walk_of_sequence(buf, pos + 8 + pad8(8 + number_at(buf, pos + 8)), body);
    }
}

/// Whatever a plugin leaves in a buffer of whole groups of eight bytes can be
/// walked, as long as the size in its header stays within the room.
pub proof fn bounded_body_is_readable(buf: Seq<u8>)
    requires
        buf.len() % 8 == 0,
        8 + body_size(buf) <= buf.len(),
    ensures
        readable(buf),
{
    if buf.len() >= 16 {
        walk_of_bounded(buf, 16, body_size(buf));
    }
}

proof fn walk_of_bounded(buf: Seq<u8>, pos: int, body: int)
    requires
        buf.len() % 8 == 0,
        pos % 8 == 0,
        8 + body <= buf.len(),
    ensures
        readable_from(buf, pos, body),
    decreases (if pos < body { body - pos } else { 0 }),
{
    if pos < body {
        walk_of_bounded(buf, pos + 8 + pad8(8 + number_at(buf, pos + 8)), body);
    }
}

/// A buffer made ready for a plugin's output can be walked, even if the plugin
/// writes nothing.
pub proof fn output_capacity_is_readable(buf: Seq<u8>, sequence_urid: u32)
    requires
        buf.len() % 8 == 0,
        buf.len() <= u32::MAX,
    ensures
        readable(output_capacity(buf, sequence_urid)),
{
    if buf.len() >= 16 {
        header_size(buf, buf.len() - 8, sequence_urid, zeros(8));
        bounded_body_is_readable(output_capacity(buf, sequence_urid));
    }
}

/// Padding goes up to the next multiple of eight, and no further.
pub proof fn padding_is_least(n: int)
    requires
        0 <= n,
    ensures
        n <= pad8(n) < n + 8,
        pad8(n) % 8 == 0,
{
}

/// A number of 32 bits in a buffer is read in the machine's order.
pub proof fn number_is_read(buf: Seq<u8>, at: int)
    requires
        0 <= at,
        at + 4 <= buf.len(),
    ensures
        buf.subrange(at, at + 4) == bytes::native32(number_at(buf, at) as u32),
{
    bytes::native32_inverse(0, buf.subrange(at, at + 4));
}

/// A number that was written into a buffer is read there.
proof fn written_number_is_read(buf: Seq<u8>, at: int, x: u32)
    requires
        0 <= at,
        at + 4 <= buf.len(),
        buf.subrange(at, at + 4) == bytes::native32(x),
    ensures
        number_at(buf, at) == x,
{
    bytes::native32_inverse(x, buf.subrange(at, at + 4));
}

/// A header gives the size and the type, each in four bytes.
proof fn header_is_read(buf: Seq<u8>, at: int, size: int, urid: u32)
    requires
        0 <= at,
        at + 8 <= buf.len(),
        0 <= size <= u32::MAX,
        buf.subrange(at, at + 8) == atom_header(size, urid),
    ensures
        number_at(buf, at) == size,
        number_at(buf, at + 4) == urid,
{
    let header = atom_header(size, urid);
    assert(buf.subrange(at, at + 4) =~= header.subrange(0, 4));
    assert(buf.subrange(at + 4, at + 8) =~= header.subrange(4, 8));
    bytes::native32_len(bytes::low32(size));
    bytes::native32_len(urid);
    assert(header.subrange(0, 4) =~= bytes::native32(bytes::low32(size)));
    assert(header.subrange(4, 8) =~= bytes::native32(urid));
    written_number_is_read(buf, at, bytes::low32(size));
    written_number_is_read(buf, at + 4, urid);
}

/// The layout of an empty sequence: its size, which is eight, its type, and eight zeros.
/// Whatever lies behind stays, and a buffer that is too short for it stays as it is.
pub proof fn layout_of_empty_sequence(buf: Seq<u8>, sequence_urid: u32)
    ensures
        buf.len() < 16 ==> empty_sequence(buf, sequence_urid) == buf,
        buf.len() >= 16 ==> {
            let after = empty_sequence(buf, sequence_urid);
            &&& after.len() == buf.len()
            &&& number_at(after, 0) == 8
            &&& number_at(after, 4) == sequence_urid
            &&& forall|i: int| 8 <= i < 16 ==> #[trigger] after[i] == 0
            &&& forall|i: int| 16 <= i < buf.len() ==> #[trigger] after[i] == buf[i]
        },
{
    if buf.len() >= 16 {
        let after = empty_sequence(buf, sequence_urid);
        let header = atom_header(8, sequence_urid);
        bytes::native32_len(bytes::low32(8));
        bytes::native32_len(sequence_urid);
        assert(header.len() == 8);
        assert(after.subrange(0, 8) =~= header);
        header_is_read(after, 0, 8, sequence_urid);
    }
}

/// The layout of a buffer that a plugin may write to: how many bytes there are behind the
/// header, the type, and eight zeros. Whatever lies behind stays.
pub proof fn layout_of_output(buf: Seq<u8>, sequence_urid: u32)
    requires
        buf.len() <= u32::MAX,
    ensures
        buf.len() < 16 ==> output_capacity(buf, sequence_urid) == buf,
        buf.len() >= 16 ==> {
            let after = output_capacity(buf, sequence_urid);
            &&& after.len() == buf.len()
            &&& number_at(after, 0) == buf.len() - 8
            &&& number_at(after, 4) == sequence_urid
            &&& forall|i: int| 8 <= i < 16 ==> #[trigger] after[i] == 0
            &&& forall|i: int| 16 <= i < buf.len() ==> #[trigger] after[i] == buf[i]
        },
{
    if buf.len() >= 16 {
        let after = output_capacity(buf, sequence_urid);
        let size = buf.len() - 8;
        let header = atom_header(size, sequence_urid);
        bytes::native32_len(bytes::low32(size));
        bytes::native32_len(sequence_urid);
        assert(header.len() == 8);
        assert(after.subrange(0, 8) =~= header);
        header_is_read(after, 0, size, sequence_urid);
    }
}

/// The layout of a sequence that an event was appended to: the event stands behind what
/// was there, with a time of zero, then its atom, then zeros up to the next multiple of
/// eight. The size grows by that, and all else stays.
pub proof fn layout_of_appended_event(buf: Seq<u8>, sequence_urid: u32, atom: Seq<u8>)
    requires
        16 <= buf.len() <= u32::MAX,
        atom.len() >= 8,
        8 <= number_at(buf, 0),
        number_at(buf, 0) % 8 == 0,
        8 + number_at(buf, 0) + pad8(8 + atom.len() as int) <= buf.len(),
    ensures
        ({
            let after = appended(buf, sequence_urid, atom);
            let end = 8 + number_at(buf, 0);
            &&& after.len() == buf.len()
            &&& number_at(after, 0) == number_at(buf, 0) + pad8(8 + atom.len() as int)
            &&& number_at(after, 4) == sequence_urid
            &&& forall|i: int| 8 <= i < end ==> #[trigger] after[i] == buf[i]
            &&& forall|i: int| end <= i < end + 8 ==> #[trigger] after[i] == 0
            &&& after.subrange(end + 8, end + 8 + atom.len()) == atom
            &&& forall|i: int|
                end + 8 + atom.len() <= i < end + pad8(8 + atom.len() as int)
                    ==> #[trigger] after[i] == 0
            &&& forall|i: int|
                end + pad8(8 + atom.len() as int) <= i < buf.len() ==> #[trigger] after[i] == buf[i]
        }),
{
    let body = number_at(buf, 0);
    let n = atom.len() as int;
    let end = 8 + body;
    let pad = pad8(8 + n);
    assert(event_fits(buf, atom));
    let event = event_at(end, atom);
    assert(pad8(end + 8 + n) == end + pad);
    assert(event.len() == pad);
    let once = overwrite(buf, end, event);
    assert(once.len() == buf.len());
    let size = body + pad;
    let header = atom_header(size, sequence_urid);
    bytes::native32_len(bytes::low32(size));
    bytes::native32_len(sequence_urid);
    assert(header.len() == 8);
    let after = appended(buf, sequence_urid, atom);
    assert(after == overwrite(once, 0, header));
    assert(after.len() == buf.len());
    assert(after.subrange(0, 8) =~= header);
    header_is_read(after, 0, size, sequence_urid);
    assert forall|i: int| 8 <= i < buf.len() implies #[trigger] after[i] == once[i] by {}
    assert forall|i: int| end <= i < end + pad implies #[trigger] once[i] == event[i - end] by {}
    assert(after.subrange(end + 8, end + 8 + n) =~= atom);
}

/// An atom that has no header, or for which there is no room, changes nothing.
pub proof fn atom_without_room_changes_nothing(buf: Seq<u8>, sequence_urid: u32, atom: Seq<u8>)
    requires
        buf.len() < 16 || atom.len() < 8 || 8 + number_at(buf, 0) + pad8(8 + atom.len() as int)
            > buf.len(),
    ensures
        appended(buf, sequence_urid, atom) == buf,
{
}

/// The layout of a MIDI event: its time, the number of its bytes, its type, its bytes, and
/// zeros up to the next multiple of eight.
pub proof fn layout_of_midi_event(midi_urid: u32, frame: i64, midi: Seq<u8>)
    requires
        midi.len() <= u32::MAX,
    ensures
        ({
            let event = midi_event(midi_urid, frame, midi);
            let n = midi.len() as int;
            &&& event.len() == pad8(16 + n)
            &&& event.subrange(0, 8) == bytes::native64(frame)
            &&& number_at(event, 8) == n
            &&& number_at(event, 12) == midi_urid
            &&& event.subrange(16, 16 + n) == midi
            &&& forall|i: int| 16 + n <= i < event.len() ==> #[trigger] event[i] == 0
        }),
{
    let event = midi_event(midi_urid, frame, midi);
    let n = midi.len() as int;
    let header = atom_header(n, midi_urid);
    bytes::native64_len(frame);
    bytes::native32_len(bytes::low32(n));
    bytes::native32_len(midi_urid);
    assert(header.len() == 8);
    assert(event.subrange(0, 8) =~= bytes::native64(frame));
    assert(event.subrange(8, 16) =~= header);
    header_is_read(event, 8, n, midi_urid);
    assert(event.subrange(16, 16 + n) =~= midi);
}

/// MIDI events stand one behind the other, in their order.
pub proof fn midi_events_come_in_order(
    midi_urid: u32,
    events: Seq<(i64, Seq<u8>)>,
    k: int,
)
    requires
        0 <= k < events.len(),
    ensures
        ({
            let all = midi_events(midi_urid, events);
            let at = midi_events(midi_urid, events.take(k)).len() as int;
            let event = midi_event(midi_urid, events[k].0, events[k].1);
            &&& at + event.len() <= all.len()
            &&& all.subrange(at, at + event.len()) == event
            &&& midi_events(midi_urid, events.take(k + 1)).len() == at + event.len()
        }),
        midi_events(midi_urid, events.take(0)).len() == 0,
    decreases events.len(),
{
    let all = midi_events(midi_urid, events);
    let first = events.drop_last();
    let at = midi_events(midi_urid, events.take(k)).len() as int;
    let event = midi_event(midi_urid, events[k].0, events[k].1);
    assert(events.take(k + 1).drop_last() =~= events.take(k));
    assert(events.take(k + 1).last() == events[k]);
    if k < first.len() {
        midi_events_come_in_order(midi_urid, first, k);
        assert(first.take(k) =~= events.take(k));
        assert(first.take(k + 1) =~= events.take(k + 1));
        assert(all.subrange(at, at + event.len()) =~= midi_events(midi_urid, first).subrange(
            at,
            at + event.len(),
        ));
    } else {
        assert(first =~= events.take(k));
        assert(all.subrange(at, at + event.len()) =~= event);
    }
}

/// As many MIDI events are taken as have room, from the first on: those that are taken fit,
/// and the next would not.
pub proof fn midi_events_are_taken_as_they_fit(
    midi_urid: u32,
    events: Seq<(i64, Seq<u8>)>,
    room: int,
)
    requires
        0 <= room,
        forall|i: int| 0 <= i < events.len() ==> (#[trigger] events[i]).1.len() <= u32::MAX,
    ensures
        ({
            let m = midi_fitting(events, room) as int;
            &&& m <= events.len()
            &&& midi_events(midi_urid, events.take(m)).len() <= room
            &&& m < events.len() ==> midi_events(midi_urid, events.take(m + 1)).len() > room
        }),
    decreases events.len(),
{
    let m = midi_fitting(events, room) as int;
    assert(events.take(0) =~= Seq::empty());
    if events.len() > 0 {
        let size = pad8(16 + events[0].1.len() as int);
        layout_of_midi_event(midi_urid, events[0].0, events[0].1);
        let one = events.take(1);
        assert(one.drop_last() =~= Seq::<(i64, Seq<u8>)>::empty());
        assert(one.last() == events[0]);
        reveal_with_fuel(midi_events, 2);
        assert(midi_events(midi_urid, one).len() == size);
        if size <= room {
            let rest = events.skip(1);
            assert forall|i: int| 0 <= i < rest.len() implies (#[trigger] rest[i]).1.len()
                <= u32::MAX by {
                assert(rest[i] == events[i + 1]);
            }
            midi_events_are_taken_as_they_fit(midi_urid, rest, room - size);
            first_midi_event(midi_urid, events, m);
            if m < events.len() {
                first_midi_event(midi_urid, events, m + 1);
            }
        }
    }
}

/// The first of MIDI events, apart from the others.
proof fn first_midi_event(midi_urid: u32, events: Seq<(i64, Seq<u8>)>, m: int)
    requires
        0 < m <= events.len(),
    ensures
        midi_events(midi_urid, events.take(m)).len() == midi_event(
            midi_urid,
            events[0].0,
            events[0].1,
        ).len() + midi_events(midi_urid, events.skip(1).take(m - 1)).len(),
    decreases m,
{
    let some = events.take(m);
    assert(some.drop_last() =~= events.take(m - 1));
    assert(some.last() == events[m - 1]);
    if m > 1 {
        first_midi_event(midi_urid, events, m - 1);
        let rest = events.skip(1).take(m - 1);
        assert(rest.drop_last() =~= events.skip(1).take(m - 2));
        assert(rest.last() == events[m - 1]);
    } else {
        assert(events.take(0) =~= Seq::empty());
        assert(events.skip(1).take(0) =~= Seq::empty());
    }
}

/// The layout of a sequence of MIDI events: its size, its type and eight zeros, then the
/// events that have room, and all that lies behind them stays.
pub proof fn layout_of_midi_sequence(
    buf: Seq<u8>,
    sequence_urid: u32,
    midi_urid: u32,
    events: Seq<(i64, Seq<u8>)>,
)
    requires
        16 <= buf.len() <= u32::MAX,
        forall|i: int| 0 <= i < events.len() ==> (#[trigger] events[i]).1.len() <= u32::MAX,
    ensures
        ({
            let after = midi_sequence(buf, sequence_urid, midi_urid, events);
            let m = midi_fitting(events, buf.len() - 16) as int;
            let written = midi_events(midi_urid, events.take(m));
            let n = written.len() as int;
            &&& after.len() == buf.len()
            &&& 16 + n <= buf.len()
            &&& number_at(after, 0) == 8 + n
            &&& number_at(after, 4) == sequence_urid
            &&& forall|i: int| 8 <= i < 16 ==> #[trigger] after[i] == 0
            &&& after.subrange(16, 16 + n) == written
            &&& forall|i: int| 16 + n <= i < buf.len() ==> #[trigger] after[i] == buf[i]
        }),
{
    midi_events_are_taken_as_they_fit(midi_urid, events, buf.len() - 16);
    let after = midi_sequence(buf, sequence_urid, midi_urid, events);
    let m = midi_fitting(events, buf.len() - 16) as int;
    let written = midi_events(midi_urid, events.take(m));
    let n = written.len() as int;
    let header = atom_header(8 + n, sequence_urid);
    bytes::native32_len(bytes::low32(8 + n));
    bytes::native32_len(sequence_urid);
    assert(header.len() == 8);
    assert(after.subrange(0, 8) =~= header);
    header_is_read(after, 0, 8 + n, sequence_urid);
    assert(after.subrange(16, 16 + n) =~= written);
}

/// Atoms are read from the events of a sequence one by one: behind eight bytes of time an
/// atom of its header and as many bytes as that says; the next event begins at the next
/// multiple of eight. Reading ends with the body, and before an atom that is cut off.
pub proof fn atoms_are_read_one_by_one(buf: Seq<u8>, pos: int, body: int)
    requires
        0 <= pos,
    ensures
        pos >= body ==> atoms_from(buf, pos, body).len() == 0,
        pos < body && pos + 16 + number_at(buf, pos + 8) > buf.len() ==> atoms_from(
            buf,
            pos,
            body,
        ).len() == 0,
        pos < body && pos + 16 + number_at(buf, pos + 8) <= buf.len() ==> {
            let size = number_at(buf, pos + 8);
            &&& atoms_from(buf, pos, body).len() == 1 + atoms_from(
                buf,
                pos + 8 + pad8(8 + size),
                body,
            ).len()
            &&& atoms_from(buf, pos, body)[0] == buf.subrange(pos + 8, pos + 16 + size)
            &&& atoms_from(buf, pos, body).skip(1) == atoms_from(
                buf,
                pos + 8 + pad8(8 + size),
                body,
            )
        },
        buf.len() >= 16 && number_at(buf, 0) > 8 ==> atoms(buf) == atoms_from(
            buf,
            16,
            number_at(buf, 0),
        ),
        buf.len() < 16 || number_at(buf, 0) <= 8 ==> atoms(buf).len() == 0,
{
    if pos < body && pos + 16 + number_at(buf, pos + 8) <= buf.len() {
        let rest = atoms_from(buf, pos + 8 + pad8(8 + number_at(buf, pos + 8)), body);
        assert(atoms_from(buf, pos, body).skip(1) =~= rest);
    }
}

/// The atom of a MIDI message gives the number of its bytes and its type, and then has its
/// bytes.
pub proof fn midi_atom_holds_message(midi_urid: u32, events: Seq<(i64, Seq<u8>)>, i: int)
    requires
        0 <= i < events.len(),
        events[i].1.len() <= u32::MAX,
    ensures
        midi_atoms(midi_urid, events).len() == events.len(),
        ({
            let atom = midi_atoms(midi_urid, events)[i];
            &&& atom.len() == 8 + events[i].1.len()
            &&& number_at(atom, 0) == events[i].1.len()
            &&& number_at(atom, 4) == midi_urid
            &&& atom.skip(8) == events[i].1
        }),
{
    let atom = midi_atoms(midi_urid, events)[i];
    let n = events[i].1.len() as int;
    let header = atom_header(n, midi_urid);
    bytes::native32_len(bytes::low32(n));
    bytes::native32_len(midi_urid);
    assert(header.len() == 8);
    assert(atom.subrange(0, 8) =~= header);
    header_is_read(atom, 0, n, midi_urid);
    assert(atom.skip(8) =~= events[i].1);
}

/// An event that [`append_atom_event`] appends is what [`read_atoms`] reads behind all that was
/// there, where there is room for it, and all that was there is still read.
pub proof fn appended_atom_is_read(
    buf: &mut [u8],
    sequence_urid: u32,
    protocol: u32,
    atom: &[u8],
    before: Vec<Vec<u8>>,
    after: Vec<Vec<u8>>,
)
    requires
        call_ensures(append_atom_event, (buf, sequence_urid, protocol, atom), ()),
        call_ensures(read_atoms, (&*old(buf),), before),
        call_ensures(read_atoms, (&*final(buf),), after),
        is_sequence(old(buf)@),
        is_atom(atom@),
        old(buf)@.len() <= u32::MAX,
    ensures
        8 + number_at(old(buf)@, 0) + pad8(8 + atom@.len() as int) <= old(buf)@.len() ==> {
            &&& after@.len() == before@.len() + 1
            &&& after@.last()@ == atom@
            &&& forall|i: int| 0 <= i < before@.len() ==> (#[trigger] after@[i])@ == before@[i]@
        },
        8 + number_at(old(buf)@, 0) + pad8(8 + atom@.len() as int) > old(buf)@.len()
            ==> final(buf)@ == old(buf)@ && after@.len() == before@.len(),
{
    let a = before@.map_values(|v: Vec<u8>| v@);
    let b = after@.map_values(|v: Vec<u8>| v@);
    assert(a.len() == before@.len() && b.len() == after@.len());
    if 8 + number_at(old(buf)@, 0) + pad8(8 + atom@.len() as int) <= old(buf)@.len() {
        appended_event_is_read(old(buf)@, sequence_urid, atom@);
        assert(b == a.push(atom@));
        assert(b.last() == after@.last()@);
        assert forall|i: int| 0 <= i < before@.len() implies (#[trigger] after@[i])@
            == before@[i]@ by {
            assert(b[i] == after@[i]@);
            assert(a[i] == before@[i]@);
        }
    }
}

/// Messages that [`write_atom_sequence_midi`] writes are what [`read_atoms`] reads, each with
/// the number of its bytes, the type of MIDI and its bytes, in their order, as many as have
/// room.
pub proof fn written_messages_are_read(
    buf: &mut [u8],
    sequence_urid: u32,
    midi_urid: u32,
    events: &[(i64, &[u8])],
    r: Vec<Vec<u8>>,
    i: int,
)
    requires
        call_ensures(write_atom_sequence_midi, (buf, sequence_urid, midi_urid, events), ()),
        call_ensures(read_atoms, (&*final(buf),), r),
        16 <= old(buf)@.len() <= u32::MAX,
        0 <= i < r@.len(),
        forall|k: int| 0 <= k < events@.len() ==> (#[trigger] events@[k]).1@.len() <= u32::MAX,
    ensures
        r@.len() <= events@.len(),
        r@[i]@.len() == 8 + events@[i].1@.len(),
        number_at(r@[i]@, 0) == events@[i].1@.len(),
        number_at(r@[i]@, 4) == midi_urid,
        r@[i]@.skip(8) == events@[i].1@,
{
    let all = event_views(events@);
    let m = midi_fitting(all, old(buf)@.len() - 16) as int;
    midi_sequence_is_read(old(buf)@, sequence_urid, midi_urid, all);
    let atoms = r@.map_values(|v: Vec<u8>| v@);
    assert(atoms.len() == r@.len());
    assert(atoms[i] == r@[i]@);
    let some = all.take(m);
    assert(some[i] == all[i]);
    assert(all[i].1 == events@[i].1@);
    assert(all[i].1.len() <= u32::MAX);
    midi_atom_holds_message(midi_urid, some, i);
}

/// A buffer that [`write_empty_atom_sequence`] wrote holds no atom, and one that
/// [`write_atom_out_capacity`] wrote says how many bytes follow its header.
pub proof fn fresh_buffers_are_empty(
    a: &mut [u8],
    b: &mut [u8],
    urid: u32,
    r: Vec<Vec<u8>>,
)
    requires
        call_ensures(write_empty_atom_sequence, (a, urid), ()),
        call_ensures(read_atoms, (&*final(a),), r),
        call_ensures(write_atom_out_capacity, (b, urid), ()),
        16 <= old(a)@.len(),
        16 <= old(b)@.len() <= u32::MAX,
    ensures
        r@.len() == 0,
        number_at(final(a)@, 0) == 8,
        number_at(final(a)@, 4) == urid,
        number_at(final(b)@, 0) == old(b)@.len() - 8,
        number_at(final(b)@, 4) == urid,
        final(a)@.len() == old(a)@.len(),
        final(b)@.len() == old(b)@.len(),
{
    empty_sequence_has_no_atoms(old(a)@, urid);
    layout_of_empty_sequence(old(a)@, urid);
    layout_of_output(old(b)@, urid);
    assert(r@.map_values(|v: Vec<u8>| v@).len() == r@.len());
}

/// A number that stands in a buffer is read by [`read_number`].
pub proof fn number_in_buffer_is_read(buf: &[u8], at: usize, r: u32)
    requires
        call_ensures(read_number, (buf, at), r),
        at + 4 <= buf@.len(),
    ensures
        bytes::native32(r) == buf@.subrange(at as int, at + 4),
{
    number_is_read(buf@, at as int);
}

/// [`copy_at`] and [`zero_at`] write where they are told to, and leave all else.
pub proof fn bytes_are_written_in_place(
    buf: &mut [u8],
    at: usize,
    bytes: &[u8],
    other: &mut [u8],
    from: usize,
    n: usize,
    i: int,
)
    requires
        call_ensures(copy_at, (buf, at, bytes), ()),
        at + bytes@.len() <= old(buf)@.len(),
        call_ensures(zero_at, (other, from, n), ()),
        from + n <= old(other)@.len(),
    ensures
        final(buf)@.len() == old(buf)@.len(),
        at <= i < at + bytes@.len() ==> final(buf)@[i] == bytes@[i - at],
        0 <= i < at || at + bytes@.len() <= i < old(buf)@.len() ==> final(buf)@[i]
            == old(buf)@[i],
        final(other)@.len() == old(other)@.len(),
        from <= i < from + n ==> final(other)@[i] == 0,
        0 <= i < from || from + n <= i < old(other)@.len() ==> final(other)@[i] == old(other)@[i],
{
}

/// [`can_read`] admits every buffer of whole eights whose body ends in it.
pub proof fn bounded_buffer_can_be_read(buf: &[u8], r: bool)
    requires
        call_ensures(can_read, (buf,), r),
        buf@.len() % 8 == 0,
        8 + number_at(buf@, 0) <= buf@.len(),
    ensures
        r,
{
    bounded_body_is_readable(buf@);
}

} // verus!
