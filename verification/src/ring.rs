//! The ring buffers of `rtrb`: a producer at one end, a consumer at the other,
//! often on two threads.
//!
//! Each end knows what passed through it: what was put in at a producer, what
//! was taken out at a consumer. The two are tied by the stream of the ring, all
//! that is put in over its whole life: what was put in up to some moment is a
//! start of it, and so is what was taken out, for nothing is lost, repeated or
//! moved on the way. How much is in the ring at one moment is not spoken of,
//! for the other end may change it at any time; but each end keeps what it found
//! when it last looked: what a consumer found stays there until it takes it out,
//! and slots that a producer found free stay free until it fills them.
use vstd::prelude::*;

use crate::midi::MidiEvent;

verus! {

/// The producer end of a ring.
#[verifier::external_type_specification]
#[verifier::external_body]
#[verifier::reject_recursive_types(T)]
pub struct ExProducer<T>(rtrb::Producer<T>);

/// The consumer end of a ring.
#[verifier::external_type_specification]
#[verifier::external_body]
#[verifier::reject_recursive_types(T)]
pub struct ExConsumer<T>(rtrb::Consumer<T>);

/// The bytes put in so far at a producer.
pub uninterp spec fn bytes_put(tx: rtrb::Producer<u8>) -> Seq<u8>;

/// All the bytes that are ever put in at a producer.
pub uninterp spec fn bytes_ever_put(tx: rtrb::Producer<u8>) -> Seq<u8>;

/// How many bytes the ring of a producer was made for.
pub uninterp spec fn bytes_capacity(tx: rtrb::Producer<u8>) -> nat;

/// How many slots a producer of bytes knows to be free, for it found them when it
/// last looked: its `cached_slots`.
pub uninterp spec fn bytes_free(tx: rtrb::Producer<u8>) -> nat;

/// The bytes taken out so far at a consumer.
pub uninterp spec fn bytes_taken(rx: rtrb::Consumer<u8>) -> Seq<u8>;

/// All the bytes that are ever put in at the other end of a consumer's ring.
pub uninterp spec fn bytes_coming(rx: rtrb::Consumer<u8>) -> Seq<u8>;

/// How many bytes a consumer knows to be there, for it found them when it last
/// looked: its `cached_slots`.
pub uninterp spec fn bytes_seen(rx: rtrb::Consumer<u8>) -> nat;

/// The events put in so far at a producer.
pub uninterp spec fn events_put(tx: rtrb::Producer<MidiEvent>) -> Seq<MidiEvent>;

/// All the events that are ever put in at a producer.
pub uninterp spec fn events_ever_put(tx: rtrb::Producer<MidiEvent>) -> Seq<MidiEvent>;

/// How many events the ring of a producer was made for.
pub uninterp spec fn events_capacity(tx: rtrb::Producer<MidiEvent>) -> nat;

/// How many slots a producer of events knows to be free, for it found them when
/// it last looked: its `cached_slots`.
pub uninterp spec fn events_free(tx: rtrb::Producer<MidiEvent>) -> nat;

/// The events taken out so far at a consumer.
pub uninterp spec fn events_taken(rx: rtrb::Consumer<MidiEvent>) -> Seq<MidiEvent>;

/// All the events that are ever put in at the other end of a consumer's ring.
pub uninterp spec fn events_coming(rx: rtrb::Consumer<MidiEvent>) -> Seq<MidiEvent>;

/// How many events a consumer knows to be there, for it found them when it last
/// looked: its `cached_slots`.
pub uninterp spec fn events_seen(rx: rtrb::Consumer<MidiEvent>) -> nat;

/// Whether a producer that is asked to put in `n` items answers by the free slots
/// that it finds: it refuses just where they are too few. `before` and `after` are
/// the free slots that it knows of then and now.
pub open spec fn answered(before: nat, after: nat, n: nat, capacity: nat, done: bool) -> bool {
    let found = if done {
        after + n
    } else {
        after
    };
    &&& before <= found <= capacity
    &&& done == (n <= found)
}

/// `rtrb::RingBuffer::new`, for bytes: the two ends of a new ring, through
/// which nothing has passed. It panics where twice the capacity is no `usize`.
#[verifier::external_body]
pub(crate) fn byte_ring(capacity: usize) -> (r: (rtrb::Producer<u8>, rtrb::Consumer<u8>))
    requires
        capacity <= isize::MAX,
    ensures
        bytes_put(r.0) == Seq::<u8>::empty(),
        bytes_taken(r.1) == Seq::<u8>::empty(),
        bytes_ever_put(r.0) == bytes_coming(r.1),
        bytes_capacity(r.0) == capacity,
        bytes_free(r.0) == capacity,
        bytes_seen(r.1) == 0,
{
    rtrb::RingBuffer::new(capacity)
}

/// `rtrb::Producer::push_entire_slice`, for bytes: puts in all of a slice, or
/// nothing just where it finds too few free slots. It never finds more than the
/// capacity, nor fewer than it knew of. All that was put in before cannot take
/// more slots than it has bytes, so the slice goes in where both together are
/// within the capacity.
#[verifier::external_body]
pub(crate) fn put_bytes(tx: &mut rtrb::Producer<u8>, bytes: &[u8]) -> (done: bool)
    ensures
        bytes_put(*final(tx)) == if done {
            bytes_put(*old(tx)) + bytes@
        } else {
            bytes_put(*old(tx))
        },
        bytes_put(*final(tx)).is_prefix_of(bytes_ever_put(*final(tx))),
        bytes_ever_put(*final(tx)) == bytes_ever_put(*old(tx)),
        bytes_capacity(*final(tx)) == bytes_capacity(*old(tx)),
        bytes_put(*old(tx)).len() + bytes@.len() <= bytes_capacity(*old(tx)) ==> done,
        answered(
            bytes_free(*old(tx)),
            bytes_free(*final(tx)),
            bytes@.len(),
            bytes_capacity(*old(tx)),
            done,
        ),
{
    tx.push_entire_slice(bytes).is_ok()
}

/// `rtrb::Consumer::slots`, for bytes: looks how many bytes can be taken out
/// just now, and keeps that number. It is not below what was seen before, for
/// nobody else takes bytes out. A ring holds at most half of `usize::MAX` items.
#[verifier::external_body]
pub(crate) fn waiting_bytes(rx: &mut rtrb::Consumer<u8>) -> (n: usize)
    ensures
        n <= isize::MAX,
        bytes_seen(*final(rx)) == n,
        bytes_seen(*old(rx)) <= n,
        bytes_taken(*final(rx)) == bytes_taken(*old(rx)),
        bytes_coming(*final(rx)) == bytes_coming(*old(rx)),
{
    rx.slots()
}

/// `rtrb::Consumer::pop_entire_slice`, for bytes: takes out the next `n` bytes
/// of the stream. Where it has seen fewer it looks again, and takes out nothing
/// where it still sees fewer. What was seen and not taken out stays seen.
#[verifier::external_body]
pub(crate) fn take_bytes(rx: &mut rtrb::Consumer<u8>, n: usize) -> (r: Option<Vec<u8>>)
    requires
        n <= isize::MAX,
    ensures
        match r {
            Some(v) => {
                &&& v@.len() == n
                &&& bytes_taken(*final(rx)) == bytes_taken(*old(rx)) + v@
                &&& bytes_seen(*old(rx)) <= bytes_seen(*final(rx)) + n
            },
            None => {
                &&& bytes_taken(*final(rx)) == bytes_taken(*old(rx))
                &&& bytes_seen(*old(rx)) <= bytes_seen(*final(rx)) < n
            },
        },
        bytes_taken(*final(rx)).is_prefix_of(bytes_coming(*final(rx))),
        bytes_coming(*final(rx)) == bytes_coming(*old(rx)),
{
    let mut v = vec![0u8; n];
    match rx.pop_entire_slice(&mut v) {
        Ok(()) => Some(v),
        Err(_) => None,
    }
}

/// `rtrb::RingBuffer::new`, for events: the two ends of a new ring, through
/// which nothing has passed. It panics where the ring would take more bytes
/// than `isize::MAX`; an event takes at most eight.
#[verifier::external_body]
pub(crate) fn event_ring(capacity: usize) -> (r: (
    rtrb::Producer<MidiEvent>,
    rtrb::Consumer<MidiEvent>,
))
    requires
        8 * capacity <= isize::MAX,
    ensures
        events_put(r.0) == Seq::<MidiEvent>::empty(),
        events_taken(r.1) == Seq::<MidiEvent>::empty(),
        events_ever_put(r.0) == events_coming(r.1),
        events_capacity(r.0) == capacity,
        events_free(r.0) == capacity,
        events_seen(r.1) == 0,
{
    rtrb::RingBuffer::new(capacity)
}

/// `rtrb::Producer::push`, for events: puts in an event, or hands it back just
/// where it finds no free slot. It never finds more than the capacity, nor fewer
/// than it knew of, and it finds one while fewer events were put in than the ring
/// was made for.
#[verifier::external_body]
pub(crate) fn put_event(tx: &mut rtrb::Producer<MidiEvent>, event: MidiEvent) -> (r: Result<
    (),
    MidiEvent,
>)
    ensures
        match r {
            Ok(()) => events_put(*final(tx)) == events_put(*old(tx)).push(event),
            Err(e) => e == event && events_put(*final(tx)) == events_put(*old(tx)),
        },
        events_put(*final(tx)).is_prefix_of(events_ever_put(*final(tx))),
        events_ever_put(*final(tx)) == events_ever_put(*old(tx)),
        events_capacity(*final(tx)) == events_capacity(*old(tx)),
        events_put(*old(tx)).len() < events_capacity(*old(tx)) ==> r is Ok,
        answered(
            events_free(*old(tx)),
            events_free(*final(tx)),
            1,
            events_capacity(*old(tx)),
            r is Ok,
        ),
{
    match tx.push(event) {
        Ok(()) => Ok(()),
        Err(rtrb::PushError::Full(e)) => Err(e),
    }
}

/// `rtrb::Consumer::pop`, for events: takes out the next event of the stream. Where
/// it has seen none it looks again, and takes out nothing where it still sees
/// none. What was seen and not taken out stays seen.
#[verifier::external_body]
pub(crate) fn take_event(rx: &mut rtrb::Consumer<MidiEvent>) -> (r: Option<MidiEvent>)
    ensures
        match r {
            Some(e) => {
                &&& events_taken(*final(rx)) == events_taken(*old(rx)).push(e)
                &&& events_seen(*old(rx)) <= events_seen(*final(rx)) + 1
            },
            None => {
                &&& events_taken(*final(rx)) == events_taken(*old(rx))
                &&& events_seen(*old(rx)) == 0
                &&& events_seen(*final(rx)) == 0
            },
        },
        events_taken(*final(rx)).is_prefix_of(events_coming(*final(rx))),
        events_coming(*final(rx)) == events_coming(*old(rx)),
{
    match rx.pop() {
        Ok(e) => Some(e),
        Err(_) => None,
    }
}

} // verus!
