//! MIDI messages, and the channel by which they reach a plugin.
use std::sync::Arc;

use vstd::prelude::*;
use vstd::rwlock::{RwLock, RwLockPredicate};

use crate::error::{Error, ErrorView};
use crate::ring;
use crate::text;

verus! {

/// A MIDI message that can be sent to a plugin by a [`MidiSender`].
///
/// Covers the most common channel messages. Use [`MidiEvent::Raw`] for
/// anything else of at most three bytes.
#[derive(Debug, Clone, Copy)]
#[allow(inconsistent_fields)]
pub enum MidiEvent {
    NoteOn { channel: u8, note: u8, velocity: u8 },
    NoteOff { channel: u8, note: u8, velocity: u8 },
    Cc { channel: u8, controller: u8, value: u8 },
    PitchBend { channel: u8, value: i16 },
    ProgramChange { channel: u8, program: u8 },
    Raw { len: u8, data: [u8; 3] },
}

/// A status byte: the kind of message in the high half, the channel in the low.
pub open spec fn status(kind: u8, channel: u8) -> u8 {
    (kind + channel % 16) as u8
}

/// The low seven bits of a number.
pub open spec fn seven_bits(v: int) -> u8 {
    (v % 128) as u8
}

impl MidiEvent {
    /// Whether the message can be encoded: a bend of 24576 or more, with the
    /// 8192 of the center added, is no `i16`.
    pub open spec fn encodable(self) -> bool {
        self matches MidiEvent::PitchBend { value, .. } ==> value < 24576
    }

    /// How many bytes the message has: at most three, as many as there are.
    pub open spec fn encoded_len(self) -> usize {
        match self {
            MidiEvent::ProgramChange { .. } => 2,
            MidiEvent::Raw { len, .. } => if len <= 3 {
                len as usize
            } else {
                3
            },
            _ => 3,
        }
    }

    /// The bytes of the message, filled up to three.
    pub open spec fn encoding(self) -> Seq<u8> {
        match self {
            MidiEvent::NoteOn { channel, note, velocity } => seq![
                status(0x90, channel),
                seven_bits(note as int),
                seven_bits(velocity as int),
            ],
            MidiEvent::NoteOff { channel, note, velocity } => seq![
                status(0x80, channel),
                seven_bits(note as int),
                seven_bits(velocity as int),
            ],
            MidiEvent::Cc { channel, controller, value } => seq![
                status(0xb0, channel),
                seven_bits(controller as int),
                seven_bits(value as int),
            ],
            MidiEvent::PitchBend { channel, value } => seq![
                status(0xe0, channel),
                seven_bits(value + 8192),
                seven_bits((value + 8192) / 128),
            ],
            MidiEvent::ProgramChange { channel, program } => seq![
                status(0xc0, channel),
                seven_bits(program as int),
                0,
            ],
            MidiEvent::Raw { len, data } => data@,
        }
    }

    /// Whether [`MidiEvent::to_bytes`] can be called.
    pub fn can_encode(&self) -> (r: bool)
        ensures
            r == self.encodable(),
    {
        match *self {
            MidiEvent::PitchBend { channel, value } => value < 24576,
            _ => true,
        }
    }

    /// Encode as raw MIDI bytes. Returns `(length, bytes)`; only the first
    /// `length` bytes of the array are valid.
    pub fn to_bytes(&self) -> (r: (usize, [u8; 3]))
        requires
            self.encodable(),
        ensures
            r.0 == self.encoded_len(),
            r.0 <= 3,
            r.1@ == self.encoding(),
    {
        match *self {
            MidiEvent::NoteOn { channel, note, velocity } => three(
                0x90,
                channel,
                note,
                velocity,
            ),
            MidiEvent::NoteOff { channel, note, velocity } => three(
                0x80,
                channel,
                note,
                velocity,
            ),
            MidiEvent::Cc { channel, controller, value } => three(
                0xb0,
                channel,
                controller,
                value,
            ),
            MidiEvent::PitchBend { channel, value } => {
                let centered: u32 = (value as i32 + 8192 + 0x1_0000) as u32;
                let lsb: u8 = (centered % 128) as u8;
                let msb: u8 = (centered / 128 % 128) as u8;
                assert(centered % 128 == (value + 8192) % 128);
                assert(centered / 128 == (value + 8192) / 128 + 512);
                assert(lsb == lsb % 128 && msb == msb % 128);
                three(0xe0, channel, lsb, msb)
            },
            MidiEvent::ProgramChange { channel, program } => {
                let r = three(0xc0, channel, program, 0);
                (2, r.1)
            },
            MidiEvent::Raw { len, data } => {
                let valid: usize = if len <= 3 {
                    len as usize
                } else {
                    3
                };
                (valid, data)
            },
        }
    }
}

/// A message of a status byte and two bytes of seven bits.
fn three(kind: u8, channel: u8, a: u8, b: u8) -> (r: (usize, [u8; 3]))
    requires
        kind <= 0xf0,
    ensures
        r.0 == 3,
        r.1@ == seq![status(kind, channel), seven_bits(a as int), seven_bits(b as int)],
{
    let bytes: [u8; 3] = [kind + channel % 16, a % 128, b % 128];
    assert(bytes@ =~= seq![status(kind, channel), seven_bits(a as int), seven_bits(b as int)]);
    (3, bytes)
}

/// The producer side of a plugin's MIDI channel.
/// Obtained from [`Chain::midi_sender`](crate::chain::Chain::midi_sender). It can be
/// shared by [`MidiSender::share`], for handles that can be cloned.
pub struct MidiSender {
    pub producer: rtrb::Producer<MidiEvent>,
}

impl MidiSender {
    /// The messages sent so far.
    pub open spec fn sent(self) -> Seq<MidiEvent> {
        ring::events_put(self.producer)
    }

    /// All the messages that are ever sent.
    pub open spec fn ever_sent(self) -> Seq<MidiEvent> {
        ring::events_ever_put(self.producer)
    }

    /// How many messages the channel can hold.
    pub open spec fn capacity(self) -> nat {
        ring::events_capacity(self.producer)
    }

    /// How many free places the sender knows of.
    pub open spec fn free(self) -> nat {
        ring::events_free(self.producer)
    }

    /// Enqueue a MIDI event. Returns `Err(event)` if the ring buffer is full.
    pub fn send(&mut self, event: MidiEvent) -> (r: Result<(), MidiEvent>)
        ensures
            is_sent(*old(self), *final(self), event, r),
    {
        ring::put_event(&mut self.producer, event)
    }

    /// Gives the channel to handles that can be cloned.
    pub fn share(self) -> (r: SharedMidiSender)
        ensures
            r.ever_sent() == self.ever_sent(),
            r.capacity() == self.capacity(),
    {
        let ghost channel = SameChannel { stream: self.ever_sent(), capacity: self.capacity() };
        SharedMidiSender { sender: Arc::new(RwLock::new(self, Ghost(channel))) }
    }
}

/// What a sender makes of an event: the event is enqueued where a place is free,
/// else it is handed back.
pub open spec fn is_sent(
    before: MidiSender,
    after: MidiSender,
    event: MidiEvent,
    r: Result<(), MidiEvent>,
) -> bool {
    &&& match r {
        Ok(()) => after.sent() == before.sent().push(event),
        Err(e) => e == event && after.sent() == before.sent(),
    }
    &&& after.sent().is_prefix_of(after.ever_sent())
    &&& after.ever_sent() == before.ever_sent()
    &&& after.capacity() == before.capacity()
    &&& before.sent().len() < before.capacity() ==> r is Ok
    &&& ring::answered(before.free(), after.free(), 1, before.capacity(), r is Ok)
}

/// The senders of one channel, at whatever moment.
pub ghost struct SameChannel {
    pub stream: Seq<MidiEvent>,
    pub capacity: nat,
}

impl RwLockPredicate<MidiSender> for SameChannel {
    open spec fn inv(self, sender: MidiSender) -> bool {
        sender.ever_sent() == self.stream && sender.capacity() == self.capacity
    }
}

/// A handle on a sender that several parts of one thread may hold. All clones feed
/// one channel, one at a time. A producer cannot be used from two threads at once,
/// so the handles stay in their thread.
pub struct SharedMidiSender {
    pub sender: Arc<RwLock<MidiSender, SameChannel>>,
}

impl SharedMidiSender {
    /// All the messages that are ever sent by any of the handles.
    pub open spec fn ever_sent(self) -> Seq<MidiEvent> {
        self.sender.pred().stream
    }

    /// How many messages the channel can hold.
    pub open spec fn capacity(self) -> nat {
        self.sender.pred().capacity
    }

    /// Whether that is the sender of the channel at some moment.
    pub open spec fn may_hold(self, sender: MidiSender) -> bool {
        sender.ever_sent() == self.ever_sent() && sender.capacity() == self.capacity()
    }

    /// Enqueue a MIDI event, as the sender itself does at one moment between the
    /// events of other handles.
    pub fn send(&self, event: MidiEvent) -> (r: Result<(), MidiEvent>)
        ensures
            exists|before: MidiSender, after: MidiSender|
                self.may_hold(before) && self.may_hold(after) && #[trigger] is_sent(
                    before,
                    after,
                    event,
                    r,
                ),
    {
        let (mut sender, handle) = self.sender.acquire_write();
        let ghost before = sender;
        let r = sender.send(event);
        assert(is_sent(before, sender, event, r));
        handle.release_write(sender);
        r
    }
}

impl Clone for SharedMidiSender {
    fn clone(&self) -> (r: Self)
        ensures
            r == *self,
    {
        SharedMidiSender { sender: self.sender.clone() }
    }
}

/// The consumer side of a plugin's MIDI channel, and the name of the port that
/// it belongs to.
pub struct MidiPort {
    pub name: String,
    pub consumer: rtrb::Consumer<MidiEvent>,
}

impl MidiPort {
    /// The messages received so far.
    pub open spec fn received(self) -> Seq<MidiEvent> {
        ring::events_taken(self.consumer)
    }

    /// All the messages that the sender ever sends.
    pub open spec fn coming(self) -> Seq<MidiEvent> {
        ring::events_coming(self.consumer)
    }

    /// How many messages the port knows to wait.
    pub open spec fn seen(self) -> nat {
        ring::events_seen(self.consumer)
    }

    /// Takes out the messages that wait, in the order in which they were sent,
    /// until there is none.
    pub fn receive_all(&mut self) -> (r: Vec<MidiEvent>)
        ensures
            final(self).received() == old(self).received() + r@,
            final(self).received().is_prefix_of(final(self).coming()),
            final(self).coming() == old(self).coming(),
            final(self).name == old(self).name,
            final(self).seen() == 0,
            r@.len() >= old(self).seen(),
    {
        let mut r: Vec<MidiEvent> = Vec::new();
        let ghost start = *self;
        assert(start.received() + r@ =~= start.received());
        loop
            invariant
                start == *old(self),
                self.received() == start.received() + r@,
                self.coming() == start.coming(),
                self.name == start.name,
                start.seen() <= self.seen() + r@.len(),
            decreases start.coming().len() - self.received().len(),
        {
            let ghost before = self.received();
            match ring::take_event(&mut self.consumer) {
                Some(event) => {
                    assert(before.push(event) =~= start.received() + r@.push(event));
                    r.push(event);
                },
                None => {
                    return r;
                },
            }
        }
    }
}

/// Create a MIDI channel of the given capacity: a [`MidiSender`] for the caller
/// and a [`MidiPort`] for the audio thread.
pub fn create_midi_channel(name: &str, capacity: usize) -> (r: (MidiSender, MidiPort))
    requires
        8 * capacity <= isize::MAX,
    ensures
        r.0.sent() == Seq::<MidiEvent>::empty(),
        r.0.capacity() == capacity,
        r.0.free() == capacity,
        r.0.ever_sent() == r.1.coming(),
        r.1.seen() == 0,
        r.1.received() == Seq::<MidiEvent>::empty(),
        r.1.name@ == name@,
{
    let (producer, consumer) = ring::event_ring(capacity);
    (MidiSender { producer }, MidiPort { name: name.to_owned(), consumer })
}

/// Whether the message has bytes that can be sent.
pub open spec fn playable(event: MidiEvent) -> bool {
    event.encodable()
}

/// The bytes of a message.
pub open spec fn message(event: MidiEvent) -> Seq<u8> {
    event.encoding().take(event.encoded_len() as int)
}

/// Messages as events at the start of a block.
pub open spec fn messages(events: Seq<MidiEvent>) -> Seq<(i64, Seq<u8>)> {
    events.map_values(|e: MidiEvent| (0i64, message(e)))
}

/// Whether all the messages have bytes that can be sent.
pub open spec fn all_can_be_sent(events: Seq<MidiEvent>) -> bool {
    forall|i: int| 0 <= i < events.len() ==> (#[trigger] events[i]).encodable()
}

/// Whether all the messages have bytes that can be sent.
pub fn all_playable(events: &Vec<MidiEvent>) -> (r: bool)
    ensures
        r == (forall|i: int| 0 <= i < events@.len() ==> playable(#[trigger] events@[i])),
        r == all_can_be_sent(events@),
{
    let mut i: usize = 0;
    while i < events.len()
        invariant
            i <= events@.len(),
            forall|k: int| 0 <= k < i ==> playable(#[trigger] events@[k]),
        decreases events@.len() - i,
    {
        if !events[i].can_encode() {
            assert(!playable(events@[i as int]));
            return false;
        }
        i += 1;
    }
    true
}

/// The bytes of messages, as [`MidiEvent::to_bytes`] gives them.
pub fn encode_all(events: &Vec<MidiEvent>) -> (r: Vec<(usize, [u8; 3])>)
    requires
        forall|i: int| 0 <= i < events@.len() ==> (#[trigger] events@[i]).encodable(),
    ensures
        r@.len() == events@.len(),
        forall|i: int|
            0 <= i < r@.len() ==> (#[trigger] r@[i]).0 == events@[i].encoded_len() && r@[i].1@
                == events@[i].encoding(),
{
    let mut r: Vec<(usize, [u8; 3])> = Vec::new();
    let mut i: usize = 0;
    while i < events.len()
        invariant
            i <= events@.len(),
            r@.len() == i,
            forall|k: int| 0 <= k < events@.len() ==> (#[trigger] events@[k]).encodable(),
            forall|k: int|
                0 <= k < i ==> (#[trigger] r@[k]).0 == events@[k].encoded_len() && r@[k].1@
                    == events@[k].encoding(),
        decreases events@.len() - i,
    {
        r.push(events[i].to_bytes());
        i += 1;
    }
    r
}

/// A router that could not be made a JACK client.
pub fn router_client_error(reason: &str) -> (r: Error)
    ensures
        r@ == ErrorView::Wiring("JACK client failed: "@ + reason@),
{
    Error::Wiring(text::join("JACK client failed: ", reason))
}

/// A port of a router that JACK refused to register.
pub fn router_port_error(port: &MidiPort, reason: &str) -> (r: Error)
    ensures
        r@ == ErrorView::Wiring(
            "failed to register MIDI port '"@ + port.name@ + "': "@ + reason@,
        ),
{
    let mut what = text::join("failed to register MIDI port '", port.name.as_str());
    what.append("': ");
    what.append(reason);
    Error::Wiring(what)
}

/// A router that JACK refused to activate.
pub fn router_activate_error(reason: &str) -> (r: Error)
    ensures
        r@ == ErrorView::Wiring("JACK activate failed: "@ + reason@),
{
    Error::Wiring(text::join("JACK activate failed: ", reason))
}

/// What is received is what was sent: two ends of one channel agree on every
/// message that both have seen.
pub proof fn received_is_sent(sender: MidiSender, port: MidiPort, i: int)
    requires
        sender.ever_sent() == port.coming(),
        sender.sent().is_prefix_of(sender.ever_sent()),
        port.received().is_prefix_of(port.coming()),
        0 <= i < sender.sent().len(),
        i < port.received().len(),
    ensures
        port.received()[i] == sender.sent()[i],
{
    let all = port.coming();
    assert(all.take(sender.sent().len() as int)[i] == all[i]);
    assert(all.take(port.received().len() as int)[i] == all[i]);
}

/// The status byte of a message has its high bit set and every byte behind it
/// has not, so the bytes of one message cannot be taken for another's.
pub proof fn status_and_data_bytes(event: MidiEvent)
    requires
        event !is Raw,
    ensures
        event.encoding().len() == 3,
        event.encoded_len() == 2 || event.encoded_len() == 3,
        event.encoding()[0] >= 0x80,
        event.encoding()[1] < 0x80,
        event.encoding()[2] < 0x80,
{
}

/// A receiver of a bend reads the value that was sent: the two data bytes hold it
/// with the 8192 of the center added, the low seven bits first.
pub proof fn bend_is_decoded(channel: u8, value: i16)
    requires
        -8192 <= value <= 8191,
    ensures
        ({
            let bytes = (MidiEvent::PitchBend { channel, value }).encoding();
            bytes[1] + 128 * bytes[2] - 8192 == value
        }),
{
    let v = value + 8192;
    assert(v / 128 % 128 == v / 128);
}

/// A higher bend is sent as a higher number, so two bends are never sent alike.
pub proof fn bends_keep_their_order(channel: u8, low: i16, high: i16)
    requires
        -8192 <= low < high <= 8191,
    ensures
        ({
            let a = (MidiEvent::PitchBend { channel, value: low }).encoding();
            let b = (MidiEvent::PitchBend { channel, value: high }).encoding();
            &&& a[1] + 128 * a[2] < b[1] + 128 * b[2]
            &&& a != b
        }),
{
    bend_is_decoded(channel, low);
    bend_is_decoded(channel, high);
}

/// A bend beyond the range of the message is sent as one that differs from it by
/// a multiple of 16384, the number of bends that there are.
pub proof fn bend_wraps(channel: u8, value: i16)
    ensures
        ({
            let bytes = (MidiEvent::PitchBend { channel, value }).encoding();
            (value + 8192 - (bytes[1] + 128 * bytes[2])) % 16384 == 0
        }),
{
    let v = value + 8192;
    assert(v == 128 * (v / 128) + v % 128);
    assert(v / 128 == 128 * (v / 128 / 128) + v / 128 % 128);
}

/// A bend can be sent where its sum with the center is a number of 16 bits; every
/// other message can always be sent.
pub proof fn bends_that_can_be_sent(event: MidiEvent)
    ensures
        event is PitchBend ==> (event.encodable() <==> event->PitchBend_value + 8192 <= i16::MAX),
        event !is PitchBend ==> event.encodable(),
{
}

/// A receiver reads from the high half of the first byte what kind of message it
/// is, and from the low half the channel, one of sixteen.
pub proof fn kind_and_channel_are_decoded(event: MidiEvent)
    ensures
        event matches MidiEvent::NoteOff { channel, .. } ==> event.encoding()[0] / 16 == 8
            && event.encoding()[0] % 16 == channel % 16,
        event matches MidiEvent::NoteOn { channel, .. } ==> event.encoding()[0] / 16 == 9
            && event.encoding()[0] % 16 == channel % 16,
        event matches MidiEvent::Cc { channel, .. } ==> event.encoding()[0] / 16 == 11
            && event.encoding()[0] % 16 == channel % 16,
        event matches MidiEvent::ProgramChange { channel, .. } ==> event.encoding()[0] / 16 == 12
            && event.encoding()[0] % 16 == channel % 16,
        event matches MidiEvent::PitchBend { channel, .. } ==> event.encoding()[0] / 16 == 14
            && event.encoding()[0] % 16 == channel % 16,
{
}

/// A receiver reads the numbers of a message from its data bytes, in their order;
/// of a number of more than seven bits the low seven are sent.
pub proof fn numbers_are_decoded(event: MidiEvent)
    ensures
        event matches MidiEvent::NoteOn { note, velocity, .. } ==> (note < 128
            ==> event.encoding()[1] == note) && (velocity < 128 ==> event.encoding()[2]
            == velocity) && (note - event.encoding()[1]) % 128 == 0 && (velocity
            - event.encoding()[2]) % 128 == 0,
        event matches MidiEvent::NoteOff { note, velocity, .. } ==> (note < 128
            ==> event.encoding()[1] == note) && (velocity < 128 ==> event.encoding()[2]
            == velocity) && (note - event.encoding()[1]) % 128 == 0 && (velocity
            - event.encoding()[2]) % 128 == 0,
        event matches MidiEvent::Cc { controller, value, .. } ==> (controller < 128
            ==> event.encoding()[1] == controller) && (value < 128 ==> event.encoding()[2]
            == value) && (controller - event.encoding()[1]) % 128 == 0 && (value
            - event.encoding()[2]) % 128 == 0,
        event matches MidiEvent::ProgramChange { program, .. } ==> (program < 128
            ==> event.encoding()[1] == program) && (program - event.encoding()[1]) % 128 == 0,
{
}

/// A message of bytes is sent as it is: as many of its bytes as it says, at most the
/// three that there are, in their order.
pub proof fn raw_message_is_sent_as_it_is(len: u8, data: [u8; 3])
    ensures
        ({
            let sent = message(MidiEvent::Raw { len, data });
            &&& len <= 3 ==> sent.len() == len
            &&& len > 3 ==> sent.len() == 3
            &&& forall|i: int| 0 <= i < sent.len() ==> #[trigger] sent[i] == data@[i]
        }),
{
}

/// A program change is sent as two bytes, and every other channel message as three.
pub proof fn messages_have_their_length(event: MidiEvent)
    requires
        event !is Raw,
    ensures
        event is ProgramChange ==> message(event).len() == 2,
        event !is ProgramChange ==> message(event).len() == 3,
        forall|i: int|
            0 <= i < message(event).len() ==> #[trigger] message(event)[i] == event.encoding()[i],
{
}

/// Every message that a plugin gets comes at the start of the block, and the
/// messages come in the order in which they were sent.
pub proof fn messages_keep_their_order(events: Seq<MidiEvent>, i: int)
    requires
        0 <= i < events.len(),
    ensures
        messages(events).len() == events.len(),
        messages(events)[i].0 == 0,
        messages(events)[i].1 == events[i].encoding().take(events[i].encoded_len() as int),
{
}

/// A message that is sent comes behind all that were sent before; one that is not is handed
/// back, and only where the channel may be full.
pub proof fn message_is_sent_or_handed_back(
    before: MidiSender,
    after: MidiSender,
    event: MidiEvent,
    r: Result<(), MidiEvent>,
)
    requires
        is_sent(before, after, event, r),
    ensures
        r is Ok ==> after.sent().len() == before.sent().len() + 1 && after.sent().last() == event
            && after.sent().drop_last() == before.sent(),
        r matches Err(e) ==> e == event && after.sent() == before.sent() && before.sent().len()
            >= before.capacity(),
{
    if r is Ok {
        assert(after.sent().drop_last() =~= before.sent());
    }
}

/// [`MidiEvent::to_bytes`] sends a bend so that a receiver reads the value that was meant,
/// and its kind and channel.
pub proof fn bend_is_sent_as_its_bytes(channel: u8, value: i16, r: (usize, [u8; 3]))
    requires
        -8192 <= value <= 8191,
        call_ensures(
            MidiEvent::to_bytes,
            (&(MidiEvent::PitchBend { channel, value }),),
            r,
        ),
    ensures
        r.0 == 3,
        r.1@[0] / 16 == 14,
        r.1@[0] % 16 == channel % 16,
        r.1@[1] < 128,
        r.1@[2] < 128,
        r.1@[1] + 128 * r.1@[2] - 8192 == value,
{
    bend_is_decoded(channel, value);
}

/// [`MidiEvent::to_bytes`] sends notes and controllers so that a receiver reads the numbers
/// that were meant.
pub proof fn notes_are_sent_as_their_bytes(event: MidiEvent, r: (usize, [u8; 3]))
    requires
        call_ensures(MidiEvent::to_bytes, (&event,), r),
    ensures
        event matches MidiEvent::NoteOn { channel, note, velocity } ==> r.0 == 3 && r.1@[0] == 0x90
            + channel % 16 && r.1@[1] == note % 128 && r.1@[2] == velocity % 128,
        event matches MidiEvent::NoteOff { channel, note, velocity } ==> r.0 == 3 && r.1@[0] == 0x80
            + channel % 16 && r.1@[1] == note % 128 && r.1@[2] == velocity % 128,
        event matches MidiEvent::Cc { channel, controller, value } ==> r.0 == 3 && r.1@[0] == 0xb0
            + channel % 16 && r.1@[1] == controller % 128 && r.1@[2] == value % 128,
        event matches MidiEvent::ProgramChange { channel, program } ==> r.0 == 2 && r.1@[0] == 0xc0
            + channel % 16 && r.1@[1] == program % 128,
        event matches MidiEvent::Raw { len, data } ==> r.1@ == data@ && r.0 <= 3 && (r.0 == len
            || (r.0 == 3 && len > 3)),
{
}

/// Two messages that [`MidiEvent::to_bytes`] sends alike are of one kind, on one channel.
pub proof fn bytes_tell_kind_and_channel(
    a: MidiEvent,
    b: MidiEvent,
    ra: (usize, [u8; 3]),
    rb: (usize, [u8; 3]),
)
    requires
        a !is Raw,
        b !is Raw,
        call_ensures(MidiEvent::to_bytes, (&a,), ra),
        call_ensures(MidiEvent::to_bytes, (&b,), rb),
        ra.1@[0] == rb.1@[0],
    ensures
        a is NoteOn <==> b is NoteOn,
        a is NoteOff <==> b is NoteOff,
        a is Cc <==> b is Cc,
        a is PitchBend <==> b is PitchBend,
        a is ProgramChange <==> b is ProgramChange,
        ra.0 == rb.0,
{
    kind_and_channel_are_decoded(a);
    kind_and_channel_are_decoded(b);
}

/// What [`MidiSender::send`] sends through a channel of [`create_midi_channel`] is what
/// [`MidiPort::receive_all`] receives, in the order in which it was sent.
pub proof fn sent_messages_are_received(
    name: &str,
    capacity: usize,
    ends: (MidiSender, MidiPort),
    sender: MidiSender,
    port: &mut MidiPort,
    r: Vec<MidiEvent>,
    i: int,
)
    requires
        call_ensures(create_midi_channel, (name, capacity), ends),
        *old(port) == ends.1,
        call_ensures(MidiPort::receive_all, (port,), r),
        sender.ever_sent() == ends.0.ever_sent(),
        sender.sent().is_prefix_of(sender.ever_sent()),
        0 <= i < r@.len(),
        i < sender.sent().len(),
    ensures
        r@[i] == sender.sent()[i],
        ends.0.capacity() == capacity,
        ends.1.name@ == name@,
{
    assert(final(port).received() =~= r@);
    received_is_sent(sender, *final(port), i);
}

/// [`MidiEvent::can_encode`] is false for a bend that has no bytes, and for no other message.
pub proof fn message_without_bytes_is_found(event: &MidiEvent, r: bool)
    requires
        call_ensures(MidiEvent::can_encode, (event,), r),
    ensures
        *event !is PitchBend ==> r,
        *event matches MidiEvent::PitchBend { value, .. } ==> (r <==> value + 8192 <= i16::MAX),
{
    bends_that_can_be_sent(*event);
}

/// What goes wrong with a router is told with the reason.
pub proof fn router_errors_tell_reason(
    port: &MidiPort,
    reason: &str,
    client: Error,
    register: Error,
    activate: Error,
)
    requires
        call_ensures(router_client_error, (reason,), client),
        call_ensures(router_port_error, (port, reason), register),
        call_ensures(router_activate_error, (reason,), activate),
    ensures
        client matches Error::Wiring(what) && what@ == "JACK client failed: "@ + reason@,
        register matches Error::Wiring(what) && what@ == "failed to register MIDI port '"@
            + port.name@ + "': "@ + reason@,
        activate matches Error::Wiring(what) && what@ == "JACK activate failed: "@ + reason@,
{
    crate::error::view_has_all_of_error(client);
    crate::error::view_has_all_of_error(register);
    crate::error::view_has_all_of_error(activate);
}

/// [`MidiSender::send`] puts a message behind all others, or hands it back and changes
/// nothing; it never refuses one while the channel has held fewer than it can hold.
pub proof fn message_is_put_last(
    sender: &mut MidiSender,
    event: MidiEvent,
    r: Result<(), MidiEvent>,
)
    requires
        call_ensures(MidiSender::send, (sender, event), r),
    ensures
        r is Ok ==> final(sender).sent() == old(sender).sent().push(event),
        r matches Err(e) ==> e == event && final(sender).sent() == old(sender).sent()
            && old(sender).sent().len() >= old(sender).capacity(),
        final(sender).capacity() == old(sender).capacity(),
{
    message_is_sent_or_handed_back(*old(sender), *final(sender), event, r);
}

/// [`encode_all`] gives the bytes of every message, in their order.
pub proof fn all_messages_are_encoded(
    events: &Vec<MidiEvent>,
    r: Vec<(usize, [u8; 3])>,
    i: int,
)
    requires
        call_ensures(encode_all, (events,), r),
        0 <= i < events@.len(),
    ensures
        r@.len() == events@.len(),
        r@[i].0 == events@[i].encoded_len(),
        r@[i].1@ == events@[i].encoding(),
{
}

/// [`all_playable`] says of messages whether every one has bytes that can be sent.
pub proof fn playable_messages_have_bytes(events: &Vec<MidiEvent>, r: bool, i: int)
    requires
        call_ensures(all_playable, (events,), r),
        0 <= i < events@.len(),
    ensures
        r ==> (events@[i] matches MidiEvent::PitchBend { value, .. } ==> value + 8192 <= i16::MAX),
        (forall|k: int| 0 <= k < events@.len() ==> (#[trigger] events@[k]) !is PitchBend) ==> r,
{
    bends_that_can_be_sent(events@[i]);
    if r {
        assert(events@[i].encodable());
    }
    if forall|k: int| 0 <= k < events@.len() ==> (#[trigger] events@[k]) !is PitchBend {
        assert forall|k: int| 0 <= k < events@.len() implies (
        #[trigger] events@[k]).encodable() by {
            bends_that_can_be_sent(events@[k]);
        }
    }
}

} // verus!
