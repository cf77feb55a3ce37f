//! The history of a device: register accesses and pauses, in order.

use vstd::prelude::*;

use crate::codec;
use crate::interface::{Entry, Transfer};
use crate::types::Error;

verus! {

/// One thing that the driver did.
pub enum Event<X> {
    /// It accessed the registers of the device.
    Access(Transfer<X>),
    /// It waited for this many microseconds.
    Pause(nat),
}

/// What the driver did, in order.
pub type Trace<E> = Seq<Event<Error<E>>>;

/// `value` was written to `register`.
pub open spec fn wrote<E>(register: u8, value: u8, reply: Result<(), Error<E>>) -> Event<Error<E>> {
    Event::Access(Transfer::Write { bytes: seq![register, value], reply })
}

/// `value` was written to `register` and the register after it, the low byte
/// first.
pub open spec fn wrote_word<E>(register: u8, value: u16, reply: Result<(), Error<E>>) -> Event<
    Error<E>,
> {
    Event::Access(
        Transfer::Write {
            bytes: seq![register, codec::low_byte(value), codec::high_byte(value)],
            reply,
        },
    )
}

/// `register` was read.
pub open spec fn read<E>(register: u8, reply: Result<u8, Error<E>>) -> Event<Error<E>> {
    Event::Access(Transfer::Read { register, reply })
}

/// The registers from `register` on were read into `buffer`.
pub open spec fn burst<E>(
    register: u8,
    buffer: Seq<u8>,
    reply: Result<Seq<u8>, Error<E>>,
) -> Event<Error<E>> {
    Event::Access(Transfer::Burst { register, buffer, reply })
}

/// The driver waited for `us` microseconds.
pub open spec fn paused<E>(us: nat) -> Event<Error<E>> {
    Event::Pause(us)
}

/// The error of an access that failed.
pub open spec fn fault<X>(event: Event<X>) -> Option<X> {
    match event {
        Event::Access(Transfer::Write { reply: Err(e), .. }) => Some(e),
        Event::Access(Transfer::Read { reply: Err(e), .. }) => Some(e),
        Event::Access(Transfer::Burst { reply: Err(e), .. }) => Some(e),
        _ => None,
    }
}

/// All accesses of a history write or read registers.
pub open spec fn plain<X>(trace: Seq<Event<X>>) -> bool {
    forall|i: int| 0 <= i < trace.len() ==> #[trigger] trace[i] != Event::<X>::Access(
        Transfer::Other,
    )
}

/// The register accesses of a history, as an interface at `target` logs them.
pub open spec fn entries<X>(target: int, trace: Seq<Event<X>>) -> Seq<Entry<X>>
    decreases trace.len(),
{
    if trace.len() == 0 {
        Seq::empty()
    } else {
        let before = entries(target, trace.drop_last());
        match trace.last() {
            Event::Access(transfer) => before.push(Entry { target, transfer }),
            Event::Pause(_) => before,
        }
    }
}

/// The pauses of a history.
pub open spec fn pauses<X>(trace: Seq<Event<X>>) -> Seq<nat>
    decreases trace.len(),
{
    if trace.len() == 0 {
        Seq::empty()
    } else {
        let before = pauses(trace.drop_last());
        match trace.last() {
            Event::Access(_) => before,
            Event::Pause(us) => before.push(us),
        }
    }
}

/// One more event adds to one of the two projections.
pub proof fn lemma_push<X>(target: int, trace: Seq<Event<X>>, event: Event<X>)
    ensures
        entries(target, trace.push(event)) == (match event {
            Event::Access(transfer) => entries(target, trace).push(Entry { target, transfer }),
            Event::Pause(_) => entries(target, trace),
        }),
        pauses(trace.push(event)) == (match event {
            Event::Access(_) => pauses(trace),
            Event::Pause(us) => pauses(trace).push(us),
        }),
{
    assert(trace.push(event).drop_last() =~= trace);
}

} // verus!
