//! The link to a device: its registers and a clock, with a record of their use.
//!
//! The record is private. Only the functions of this module, each of which makes
//! one access or one pause, add to it, so that it holds the accesses and the
//! pauses in the order in which they were made.

use vstd::prelude::*;

use crate::bus::Delay;
use crate::codec;
use crate::interface;
use crate::interface::{Entry, ReadData, Transport, WriteData};
use crate::trace;
use crate::trace::Event;
use crate::types::Error;

verus! {

/// Where the logs stood when the link was made.
pub struct Origin<X> {
    /// The log of the interface.
    pub entries: Seq<Entry<X>>,
    /// The log of the clock.
    pub pauses: Seq<nat>,
}

/// Register access and a clock, with a record of their use.
pub struct Link<DI: Transport, D: Delay> {
    /// Register access.
    iface: DI,
    /// The clock.
    delay: D,
    /// Where the logs stood when the link was made.
    origin: Ghost<Origin<DI::Error>>,
    /// What was done since then, accesses and pauses in order.
    trace: Ghost<Seq<Event<DI::Error>>>,
}

impl<DI: Transport, D: Delay> Link<DI, D> {
    /// Register access.
    pub closed spec fn spec_iface(&self) -> &DI {
        &self.iface
    }

    /// The clock.
    pub closed spec fn spec_delay(&self) -> &D {
        &self.delay
    }

    /// Where the logs stood when the link was made.
    pub closed spec fn origin(&self) -> Origin<DI::Error> {
        self.origin@
    }

    /// What was done since the link was made, accesses and pauses in order.
    pub closed spec fn history(&self) -> Seq<Event<DI::Error>> {
        self.trace@
    }

    /// The history is what the interface and the clock have logged since the
    /// link was made.
    pub open spec fn wf(self) -> bool {
        &&& self.iface().log() == self.origin().entries + trace::entries(
            self.iface().target(),
            self.history(),
        )
        &&& self.delay().pauses() == self.origin().pauses + trace::pauses(self.history())
        &&& trace::plain(self.history())
    }

    /// This is the link `before` with more of a history, to the same address.
    pub open spec fn follows(self, before: Self) -> bool {
        &&& self.wf()
        &&& self.origin() == before.origin()
        &&& self.iface().setup() == before.iface().setup()
        &&& self.iface().target() == before.iface().target()
        &&& before.history().is_prefix_of(self.history())
    }

    /// What was done since the link was `before`.
    pub open spec fn since(self, before: Self) -> Seq<Event<DI::Error>> {
        self.history().skip(before.history().len() as int)
    }

    /// A link of which no use was made yet.
    pub fn new(iface: DI, delay: D) -> (link: Self)
        ensures
            link.wf(),
            *link.iface() == iface,
            *link.delay() == delay,
            link.history().len() == 0,
    {
        let ghost origin = Origin { entries: iface.log(), pauses: delay.pauses() };
        let link = Link { iface, delay, origin: Ghost(origin), trace: Ghost(Seq::empty()) };
        proof {
            assert(link.iface().log() =~= link.origin().entries + trace::entries(
                link.iface().target(),
                link.history(),
            ));
            assert(link.delay().pauses() =~= link.origin().pauses + trace::pauses(link.history()));
        }
        link
    }

    /// Register access.
    #[verifier::when_used_as_spec(spec_iface)]
    pub fn iface(&self) -> (iface: &DI)
        ensures
            iface == self.iface(),
    {
        &self.iface
    }

    /// The clock.
    #[verifier::when_used_as_spec(spec_delay)]
    pub fn delay(&self) -> (delay: &D)
        ensures
            delay == self.delay(),
    {
        &self.delay
    }

    /// Gives the register access and the clock back.
    pub fn release(self) -> (parts: (DI, D))
        ensures
            parts.0 == *self.iface(),
            parts.1 == *self.delay(),
    {
        (self.iface, self.delay)
    }
}

impl<DI, D, E> Link<DI, D>
where
    DI: ReadData<Error = Error<E>> + WriteData<Error = Error<E>>,
    D: Delay,
{
    /// Writes `value` to a register.
    pub fn write_register(&mut self, reg: u8, value: u8) -> (r: Result<(), Error<E>>)
        requires
            old(self).wf(),
        ensures
            final(self).follows(*old(self)),
            final(self).history() == old(self).history().push(trace::wrote::<E>(reg, value, r)),
            r is Ok ==> r == Ok::<(), Error<E>>(()),
    {
        let bytes: [u8; 2] = [reg, value];
        let r = self.iface.write_data(&bytes);
        proof {
            assert(bytes@ =~= seq![reg, value]);
            if r is Ok {
                assert(r->Ok_0 == ());
            }
            let event = trace::wrote::<E>(reg, value, r);
            trace::lemma_push(self.iface.target(), self.trace@, event);
            self.trace@ = self.trace@.push(event);
            assert(self.iface.log() =~= self.origin@.entries + trace::entries(
                self.iface.target(),
                self.trace@,
            ));
        }
        r
    }

    /// Writes `value` to a register and the one after it, the low byte first.
    pub fn write_register_16bit(&mut self, reg: u8, value: u16) -> (r: Result<(), Error<E>>)
        requires
            old(self).wf(),
        ensures
            final(self).follows(*old(self)),
            final(self).history() == old(self).history().push(
                trace::wrote_word::<E>(reg, value, r),
            ),
            r is Ok ==> r == Ok::<(), Error<E>>(()),
    {
        let (low, high) = codec::le_bytes(value);
        let bytes: [u8; 3] = [reg, low, high];
        let r = self.iface.write_data(&bytes);
        proof {
            assert(bytes@ =~= seq![reg, low, high]);
            if r is Ok {
                assert(r->Ok_0 == ());
            }
            let event = trace::wrote_word::<E>(reg, value, r);
            trace::lemma_push(self.iface.target(), self.trace@, event);
            self.trace@ = self.trace@.push(event);
            assert(self.iface.log() =~= self.origin@.entries + trace::entries(
                self.iface.target(),
                self.trace@,
            ));
        }
        r
    }

    /// Reads a register.
    pub fn read_register(&mut self, reg: u8) -> (r: Result<u8, Error<E>>)
        requires
            old(self).wf(),
        ensures
            final(self).follows(*old(self)),
            final(self).history() == old(self).history().push(trace::read::<E>(reg, r)),
    {
        let r = self.iface.read_register(reg);
        proof {
            let event = trace::read::<E>(reg, r);
            trace::lemma_push(self.iface.target(), self.trace@, event);
            self.trace@ = self.trace@.push(event);
            assert(self.iface.log() =~= self.origin@.entries + trace::entries(
                self.iface.target(),
                self.trace@,
            ));
        }
        r
    }

    /// Reads registers: the first byte of `data` is the register address, the bytes
    /// after it take what is read.
    pub fn read_data<'a>(&mut self, data: &'a mut [u8]) -> (r: Result<&'a [u8], Error<E>>)
        requires
            old(self).wf(),
            1 <= old(data)@.len() <= interface::MAX_PAYLOAD,
        ensures
            final(self).follows(*old(self)),
            final(self).history() == old(self).history().push(
                trace::burst::<E>(
                    old(data)@[0],
                    old(data)@.skip(1),
                    interface::all_bytes(r),
                ),
            ),
            match r {
                Ok(bytes) => {
                    &&& bytes@.len() == old(data)@.len() - 1
                    &&& final(data)@ == seq![old(data)@[0]] + bytes@
                },
                Err(_) => final(data)@ == old(data)@,
            },
    {
        let ghost register = data@[0];
        let ghost buffer = data@.skip(1);
        let r = self.iface.read_data(data);
        proof {
            let event = trace::burst::<E>(register, buffer, interface::all_bytes(r));
            trace::lemma_push(self.iface.target(), self.trace@, event);
            self.trace@ = self.trace@.push(event);
            assert(self.iface.log() =~= self.origin@.entries + trace::entries(
                self.iface.target(),
                self.trace@,
            ));
        }
        r
    }

    /// Waits for `us` microseconds.
    pub fn pause_us(&mut self, us: u32)
        requires
            old(self).wf(),
        ensures
            final(self).follows(*old(self)),
            final(self).history() == old(self).history().push(trace::paused::<E>(us as nat)),
    {
        self.delay.delay_us(us);
        proof {
            let event = trace::paused::<E>(us as nat);
            trace::lemma_push(self.iface.target(), self.trace@, event);
            self.trace@ = self.trace@.push(event);
            assert(self.delay.pauses() =~= self.origin@.pauses + trace::pauses(self.trace@));
        }
    }

    /// Waits for `ms` milliseconds.
    pub fn pause_ms(&mut self, ms: u32)
        requires
            old(self).wf(),
        ensures
            final(self).follows(*old(self)),
            final(self).history() == old(self).history().push(trace::paused::<E>(1000 * ms as nat)),
    {
        self.delay.delay_ms(ms);
        proof {
            let event = trace::paused::<E>(1000 * ms as nat);
            trace::lemma_push(self.iface.target(), self.trace@, event);
            self.trace@ = self.trace@.push(event);
            assert(self.delay.pauses() =~= self.origin@.pauses + trace::pauses(self.trace@));
        }
    }
}

} // verus!
