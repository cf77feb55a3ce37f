//! The bus and the clock that the driver works with.
//!
//! Both traits follow embedded-hal in what their methods do. Their contracts
//! are a history: each call appends to a log what was asked and what came back.
//! Nothing is said about which answers come back, so what is proved of the
//! driver holds for every device, and for every fault of the bus.

use vstd::prelude::*;

verus! {

/// One transaction on the bus, with its outcome.
#[allow(inconsistent_fields)]
pub enum BusEvent<E> {
    /// `bytes` were written to the device at `address`.
    Write { address: u8, bytes: Seq<u8>, reply: Result<(), E> },
    /// `bytes` were written to the device at `address` and `len` bytes were
    /// asked of it in the same transaction.
    WriteRead { address: u8, bytes: Seq<u8>, len: nat, reply: Result<Seq<u8>, E> },
}

/// An I2C bus.
pub trait I2cBus {
    /// What the bus reports when a transaction fails.
    type Error;

    /// What no transaction changes of the bus.
    type Setup;

    /// What no transaction changes of the bus.
    spec fn setup(&self) -> Self::Setup;

    /// The transactions so far.
    spec fn log(&self) -> Seq<BusEvent<Self::Error>>;

    /// Writes `bytes` to the device at `address`.
    fn write(&mut self, address: u8, bytes: &[u8]) -> (reply: Result<(), Self::Error>)
        ensures
            final(self).setup() == old(self).setup(),
            final(self).log() == old(self).log().push(
                BusEvent::Write { address, bytes: bytes@, reply },
            ),
    ;

    /// Writes `bytes` to the device at `address`, then fills `buffer` from it.
    fn write_read(&mut self, address: u8, bytes: &[u8], buffer: &mut [u8]) -> (reply: Result<
        (),
        Self::Error,
    >)
        ensures
            final(buffer)@.len() == old(buffer)@.len(),
            final(self).setup() == old(self).setup(),
            final(self).log() == old(self).log().push(
                BusEvent::WriteRead {
                    address,
                    bytes: bytes@,
                    len: old(buffer)@.len(),
                    reply: match reply {
                        Ok(_) => Ok(final(buffer)@),
                        Err(e) => Err(e),
                    },
                },
            ),
    ;
}

/// A clock to wait with.
pub trait Delay {
    /// The pauses so far, in microseconds.
    spec fn pauses(&self) -> Seq<nat>;

    /// Waits for `us` microseconds.
    fn delay_us(&mut self, us: u32)
        ensures
            final(self).pauses() == old(self).pauses().push(us as nat),
    ;

    /// Waits for `ms` milliseconds.
    fn delay_ms(&mut self, ms: u32)
        ensures
            final(self).pauses() == old(self).pauses().push(1000 * ms as nat),
    ;
}

} // verus!
