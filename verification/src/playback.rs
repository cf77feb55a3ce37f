//! A bus that answers from a list, and a clock that only takes notes.
//!
//! With these two an operation of the driver runs without hardware. The bus
//! answers with the replies that it was given, in order, and notes each request.
//! A request beyond the last reply stays pending and fails, which ends the
//! operation. Whoever owns the hardware serves the pauses and the pending
//! request, adds the reply to the list, and runs the operation again from its
//! start; the driver then comes one request further, until none is pending.

use vstd::prelude::*;

use crate::bus::{BusEvent, Delay, I2cBus};

verus! {

/// What was asked of the bus.
#[derive(Debug, PartialEq, Eq)]
pub enum Request {
    /// Write `bytes` to the device at `address`.
    Write { address: u8, bytes: Vec<u8> },
    /// Write `bytes` to the device at `address`, then read `len` bytes.
    WriteRead { address: u8, bytes: Vec<u8>, len: usize },
}

/// There is no usable reply to a request.
#[derive(Debug, Clone, Copy, PartialEq, Eq, Structural)]
pub struct NoReply;

/// A bus that answers from a list. A reply is the bytes that were read (none
/// for a request that only writes), or `None` for a transaction that failed.
#[derive(Debug)]
pub struct Playback {
    /// The replies.
    pub replies: Vec<Option<Vec<u8>>>,
    /// The requests so far. The first was answered by the first reply, and so on.
    pub asked: Vec<Request>,
}

/// The reply with number `i`, to a request for `len` bytes.
pub open spec fn reply_to(replies: Seq<Option<Vec<u8>>>, i: int, len: nat) -> Result<
    Seq<u8>,
    NoReply,
> {
    if 0 <= i < replies.len() && replies[i] is Some && replies[i]->Some_0@.len() == len {
        Ok(replies[i]->Some_0@)
    } else {
        Err(NoReply)
    }
}

impl Playback {
    /// The transaction that request number `i` amounts to.
    pub open spec fn event(self, i: int) -> BusEvent<NoReply> {
        match self.asked@[i] {
            Request::Write { address, bytes } => BusEvent::Write {
                address,
                bytes: bytes@,
                reply: match reply_to(self.replies@, i, 0) {
                    Ok(_) => Ok(()),
                    Err(e) => Err(e),
                },
            },
            Request::WriteRead { address, bytes, len } => BusEvent::WriteRead {
                address,
                bytes: bytes@,
                len: len as nat,
                reply: reply_to(self.replies@, i, len as nat),
            },
        }
    }

    /// A bus with these replies, of which nothing was asked yet.
    pub fn new(replies: Vec<Option<Vec<u8>>>) -> (bus: Self)
        ensures
            bus.replies == replies,
            bus.asked@.len() == 0,
            bus.log() == Seq::<BusEvent<NoReply>>::empty(),
    {
        Playback { replies, asked: Vec::new() }
    }

    /// The first request beyond the replies.
    pub fn pending(&self) -> (request: Option<&Request>)
        ensures
            request is Some <==> self.asked@.len() > self.replies@.len(),
            request is Some ==> *request->Some_0 == self.asked@[self.replies@.len() as int],
    {
        if self.asked.len() > self.replies.len() {
            Some(&self.asked[self.replies.len()])
        } else {
            None
        }
    }

    /// Whether there is a reply with number `i` of `len` bytes.
    fn has_reply(&self, i: usize, len: usize) -> (b: bool)
        ensures
            b == (reply_to(self.replies@, i as int, len as nat) is Ok),
    {
        if i < self.replies.len() {
            match &self.replies[i] {
                Some(bytes) => bytes.len() == len,
                None => false,
            }
        } else {
            false
        }
    }
}

impl I2cBus for Playback {
    type Error = NoReply;

    type Setup = Seq<Option<Vec<u8>>>;

    open spec fn setup(&self) -> Seq<Option<Vec<u8>>> {
        self.replies@
    }

    open spec fn log(&self) -> Seq<BusEvent<NoReply>> {
        Seq::new(self.asked@.len(), |i: int| self.event(i))
    }

    fn write(&mut self, address: u8, bytes: &[u8]) -> (reply: Result<(), NoReply>)
        ensures
            final(self).replies == old(self).replies,
    {
        let i: usize = self.asked.len();
        let ok: bool = self.has_reply(i, 0);
        self.asked.push(Request::Write { address, bytes: vstd::slice::slice_to_vec(bytes) });
        let reply: Result<(), NoReply> = if ok {
            Ok(())
        } else {
            Err(NoReply)
        };
        proof {
            assert(self.log() =~= old(self).log().push(
                BusEvent::Write { address, bytes: bytes@, reply },
            ));
        }
        reply
    }

    fn write_read(&mut self, address: u8, bytes: &[u8], buffer: &mut [u8]) -> (reply: Result<
        (),
        NoReply,
    >)
        ensures
            final(self).replies == old(self).replies,
    {
        let i: usize = self.asked.len();
        let len: usize = buffer.len();
        let ok: bool = self.has_reply(i, len);
        self.asked.push(
            Request::WriteRead { address, bytes: vstd::slice::slice_to_vec(bytes), len },
        );
        let ghost noted = *self;
        if !ok {
            proof {
                assert(self.log() =~= old(self).log().push(self.event(i as int)));
            }
            return Err(NoReply);
        }
        match &self.replies[i] {
            Some(data) => {
                let mut j: usize = 0;
                while j < len
                    invariant
                        j <= len,
                        len == buffer@.len(),
                        len == data@.len(),
                        forall|k: int| 0 <= k < j ==> buffer@[k] == data@[k],
                    decreases len - j,
                {
                    buffer[j] = data[j];
                    j += 1;
                }
                assert(buffer@ =~= data@);
            },
            None => {},
        }
        proof {
            assert(self.log() =~= old(self).log().push(self.event(i as int)));
        }
        Ok(())
    }
}

/// The bus answers request number `i` with reply number `i` if that has the length
/// that the request asks for, and with nothing else.
pub proof fn playback_answers(bus: Playback, i: int)
    requires
        0 <= i < bus.asked@.len(),
    ensures
        bus.log().len() == bus.asked@.len(),
        match (bus.asked@[i], bus.log()[i]) {
            (
                Request::Write { address, bytes },
                BusEvent::Write { address: to, bytes: frame, reply },
            ) => address == to && bytes@ == frame && (reply is Ok <==> i < bus.replies@.len()
                && bus.replies@[i] is Some && bus.replies@[i]->Some_0@.len() == 0),
            (
                Request::WriteRead { address, bytes, len },
                BusEvent::WriteRead { address: to, bytes: frame, len: asked, reply },
            ) => address == to && bytes@ == frame && len == asked && (reply is Ok <==> i
                < bus.replies@.len() && bus.replies@[i] is Some && bus.replies@[i]->Some_0@.len()
                == len) && (reply matches Ok(data) ==> data == bus.replies@[i]->Some_0@),
            _ => false,
        },
{
}

/// A clock that notes the pauses and does not wait.
#[derive(Debug)]
pub struct Pauses {
    /// The pauses so far, in microseconds.
    pub us: Vec<u64>,
}

impl Pauses {
    /// A clock that was asked for no pause yet.
    pub fn new() -> (clock: Self)
        ensures
            clock.us@.len() == 0,
            clock.pauses() == Seq::<nat>::empty(),
    {
        Pauses { us: Vec::new() }
    }
}

impl Delay for Pauses {
    open spec fn pauses(&self) -> Seq<nat> {
        Seq::new(self.us@.len(), |i: int| self.us@[i] as nat)
    }

    fn delay_us(&mut self, us: u32) {
        self.us.push(us as u64);
        proof {
            assert(self.pauses() =~= old(self).pauses().push(us as nat));
        }
    }

    fn delay_ms(&mut self, ms: u32) {
        self.us.push(1000 * ms as u64);
        proof {
            assert(self.pauses() =~= old(self).pauses().push(1000 * ms as nat));
        }
    }
}

} // verus!
