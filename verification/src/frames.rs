//! How the accesses of a device appear on an I2C bus.

use vstd::prelude::*;

use crate::bus::{BusEvent, Delay, I2cBus};
use crate::interface;
use crate::interface::{Entry, I2cInterface, Transfer, Transport, DUMMY_LEN};
use crate::link::Link;
use crate::trace;
use crate::trace::Event;
use crate::types::Error;

verus! {

/// The transaction that an access takes on the bus: a write sends its bytes, a
/// reading sends the register address and asks for the data with the dummy
/// bytes in front.
pub open spec fn framed<X, E>(transfer: Transfer<X>, address: u8, event: BusEvent<E>) -> bool {
    match transfer {
        Transfer::Write { bytes, .. } => event matches BusEvent::Write {
            address: to,
            bytes: sent,
            ..
        } && to == address && sent == bytes,
        Transfer::Read { register, .. } => event matches BusEvent::WriteRead {
            address: to,
            bytes: sent,
            len: asked,
            ..
        } && to == address && sent == seq![register] && asked == DUMMY_LEN + 1,
        Transfer::Burst { register, buffer, .. } => event matches BusEvent::WriteRead {
            address: to,
            bytes: sent,
            len: asked,
            ..
        } && to == address && sent == seq![register] && asked == DUMMY_LEN + buffer.len(),
        Transfer::Other => false,
    }
}

proof fn lemma_entries<X>(target: int, t: Seq<Event<X>>, i: int)
    requires
        trace::plain(t),
        0 <= i < trace::entries(target, t).len(),
    ensures
        trace::entries(target, t)[i].target == target,
        !(trace::entries(target, t)[i].transfer is Other),
    decreases t.len(),
{
    if t.len() > 0 && i < trace::entries(target, t.drop_last()).len() {
        lemma_entries(target, t.drop_last(), i);
    }
}

/// Since it was made, a link has made one transaction on the bus for each of its
/// accesses, in their order, each with its own address and framed as the access
/// asks.
pub proof fn transactions<I2C: I2cBus, D: Delay>(link: Link<I2cInterface<I2C>, D>, i: int)
    requires
        link.wf(),
        0 <= i < trace::entries(link.iface().target(), link.history()).len(),
    ensures
        link.iface().i2c().log().len() == link.origin().entries.len() + trace::entries(
            link.iface().target(),
            link.history(),
        ).len(),
        framed(
            trace::entries(link.iface().target(), link.history())[i].transfer,
            link.iface().address(),
            link.iface().i2c().log()[link.origin().entries.len() + i],
        ),
{
    let entries = trace::entries(link.iface().target(), link.history());
    let k = link.origin().entries.len() + i;
    lemma_entries(link.iface().target(), link.history(), i);
    let event = link.iface().i2c().log()[k];
    assert(link.iface().log().len() == link.iface().i2c().log().len());
    assert(link.iface().log()[k] == interface::access(event, link.iface().buffer(k)));
    assert(link.iface().log()[k] == entries[i]);
    if let BusEvent::WriteRead { address, bytes, len, reply } = event {
        assert(bytes =~= seq![bytes[0]]);
    }
}

/// What an access tells is what the bus brought: a write succeeds or fails with
/// the bus, a reading of one register tells the third of three bytes, and a
/// reading of several tells all bytes but the first two. A failure of the bus is a
/// failure to communicate.
pub proof fn answers<I2C: I2cBus, D: Delay>(link: Link<I2cInterface<I2C>, D>, i: int)
    requires
        link.wf(),
        0 <= i < trace::entries(link.iface().target(), link.history()).len(),
    ensures
        match (
            trace::entries(link.iface().target(), link.history())[i].transfer,
            link.iface().i2c().log()[link.origin().entries.len() + i],
        ) {
            (
                Transfer::Write { bytes, reply },
                BusEvent::Write { address, bytes: frame, reply: answer },
            ) => address == link.iface().address() && frame == bytes && match answer {
                Ok(_) => reply is Ok,
                Err(e) => reply is Err && reply->Err_0 == Error::Comm(e),
            },
            (
                Transfer::Read { register, reply },
                BusEvent::WriteRead { address, bytes: frame, len, reply: answer },
            ) => address == link.iface().address() && frame == seq![register] && len == 3
                && match answer {
                Ok(data) => reply is Ok && reply->Ok_0 == data[2],
                Err(e) => reply is Err && reply->Err_0 == Error::Comm(e),
            },
            (
                Transfer::Burst { register, buffer, reply },
                BusEvent::WriteRead { address, bytes: frame, len, reply: answer },
            ) => address == link.iface().address() && frame == seq![register] && len
                == buffer.len() + 2 && match answer {
                Ok(data) => reply is Ok && reply->Ok_0 == data.subrange(2, data.len() as int),
                Err(e) => reply is Err && reply->Err_0 == Error::Comm(e),
            },
            _ => false,
        },
{
    let entries = trace::entries(link.iface().target(), link.history());
    let k = link.origin().entries.len() + i;
    lemma_entries(link.iface().target(), link.history(), i);
    transactions(link, i);
    let event = link.iface().i2c().log()[k];
    assert(link.iface().log()[k] == interface::access(event, link.iface().buffer(k)));
    assert(link.iface().log()[k] == entries[i]);
}

proof fn lemma_filters<X>(target: int, t: Seq<Event<X>>)
    ensures
        trace::entries(target, t) == t.filter(|event: Event<X>| event is Access).map_values(
            |event: Event<X>| Entry { target, transfer: event->Access_0 },
        ),
        trace::pauses(t) == t.filter(|event: Event<X>| event is Pause).map_values(
            |event: Event<X>| event->Pause_0,
        ),
    decreases t.len(),
{
    reveal(Seq::filter);
    if t.len() > 0 {
        lemma_filters(target, t.drop_last());
    }
    assert(trace::entries(target, t) =~= t.filter(
        |event: Event<X>| event is Access,
    ).map_values(|event: Event<X>| Entry { target, transfer: event->Access_0 }));
    assert(trace::pauses(t) =~= t.filter(|event: Event<X>| event is Pause).map_values(
        |event: Event<X>| event->Pause_0,
    ));
}

/// Since the link was made, the interface has seen exactly the accesses of the
/// history and the clock exactly its pauses, each in their order.
pub proof fn history_is_whole<DI: Transport, D: Delay>(link: Link<DI, D>)
    requires
        link.wf(),
    ensures
        link.iface().log() == link.origin().entries + link.history().filter(
            |event: Event<DI::Error>| event is Access,
        ).map_values(
            |event: Event<DI::Error>|
                Entry { target: link.iface().target(), transfer: event->Access_0 },
        ),
        link.delay().pauses() == link.origin().pauses + link.history().filter(
            |event: Event<DI::Error>| event is Pause,
        ).map_values(|event: Event<DI::Error>| event->Pause_0),
{
    lemma_filters(link.iface().target(), link.history());
}

} // verus!
