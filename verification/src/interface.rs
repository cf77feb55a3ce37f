//! Register access over I2C.

use vstd::prelude::*;

use crate::bus::{BusEvent, I2cBus};
use crate::types::Error;

verus! {

/// The longest payload that [`ReadData::read_data`] takes.
pub const MAX_PAYLOAD: usize = 127;

/// The device sends this many bytes of no meaning before the data of a reading.
pub const DUMMY_LEN: usize = 2;

/// One access to the registers of the device, with its outcome.
#[allow(inconsistent_fields)]
pub enum Transfer<X> {
    /// `bytes` were written: a register address and what goes there.
    Write { bytes: Seq<u8>, reply: Result<(), X> },
    /// `register` was read.
    Read { register: u8, reply: Result<u8, X> },
    /// The registers from `register` on were read into `buffer`, one for each of
    /// its bytes; these are the bytes that it was handed over with.
    Burst { register: u8, buffer: Seq<u8>, reply: Result<Seq<u8>, X> },
    /// Anything else on the wire.
    Other,
}

/// One line of the log of an interface: the device that was addressed, and the
/// access.
pub struct Entry<X> {
    /// The address of the device.
    pub target: int,
    /// The access.
    pub transfer: Transfer<X>,
}

/// What reading and writing have in common: the error and the log.
pub trait Transport {
    /// What an access reports when it fails.
    type Error;

    /// What no access changes of the interface.
    type Setup;

    /// What no access changes of the interface.
    spec fn setup(&self) -> Self::Setup;

    /// The address of the device.
    spec fn target(&self) -> int;

    /// The accesses so far.
    spec fn log(&self) -> Seq<Entry<Self::Error>>;
}

/// Trait for writing data to the BMM350
pub trait WriteData: Transport {
    /// Write a single byte to a register
    ///
    /// # Arguments
    ///
    /// * `register` - The register address
    /// * `data` - The byte to write
    fn write_register(&mut self, register: u8, data: u8) -> (reply: Result<(), Self::Error>)
        ensures
            final(self).setup() == old(self).setup(),
            final(self).target() == old(self).target(),
            final(self).log() == old(self).log().push(
                Entry {
                    target: old(self).target(),
                    transfer: Transfer::Write { bytes: seq![register, data], reply },
                },
            ),
    ;

    /// Write multiple bytes of data
    ///
    /// # Arguments
    ///
    /// * `payload` - The data to write
    fn write_data(&mut self, payload: &[u8]) -> (reply: Result<(), Self::Error>)
        ensures
            final(self).setup() == old(self).setup(),
            final(self).target() == old(self).target(),
            final(self).log() == old(self).log().push(
                Entry {
                    target: old(self).target(),
                    transfer: Transfer::Write { bytes: payload@, reply },
                },
            ),
    ;
}

/// The bytes that a reading of several registers brought.
pub open spec fn all_bytes<X>(reply: Result<&[u8], X>) -> Result<Seq<u8>, X> {
    match reply {
        Ok(data) => Ok(data@),
        Err(e) => Err(e),
    }
}

/// Trait for reading data from the BMM350
pub trait ReadData: Transport {
    /// Read a single byte from a register
    ///
    /// # Arguments
    ///
    /// * `register` - The register address to read from
    fn read_register(&mut self, register: u8) -> (reply: Result<u8, Self::Error>)
        ensures
            final(self).setup() == old(self).setup(),
            final(self).target() == old(self).target(),
            final(self).log() == old(self).log().push(
                Entry {
                    target: old(self).target(),
                    transfer: Transfer::Read { register, reply },
                },
            ),
    ;

    /// Read multiple bytes of data
    ///
    /// # Arguments
    ///
    /// * `payload` - Buffer to store the read data: the first byte is the register
    ///   address, the bytes after it take the data, which is also returned
    fn read_data<'a>(&mut self, payload: &'a mut [u8]) -> (reply: Result<&'a [u8], Self::Error>)
        requires
            1 <= old(payload)@.len() <= MAX_PAYLOAD,
        ensures
            match reply {
                Ok(data) => {
                    &&& data@.len() == old(payload)@.len() - 1
                    &&& final(payload)@ == seq![old(payload)@[0]] + data@
                },
                Err(_) => final(payload)@ == old(payload)@,
            },
            final(self).setup() == old(self).setup(),
            final(self).target() == old(self).target(),
            final(self).log() == old(self).log().push(
                Entry {
                    target: old(self).target(),
                    transfer: Transfer::Burst {
                        register: old(payload)@[0],
                        buffer: old(payload)@.skip(1),
                        reply: all_bytes(reply),
                    },
                },
            ),
    ;
}

/// I2C communication interface for BMM350
pub struct I2cInterface<I2C> {
    /// The bus.
    i2c: I2C,
    /// The address of the device on the bus.
    address: u8,
    /// The buffers that readings of several registers were handed, by the number
    /// of the transaction on the bus.
    buffers: Ghost<Map<int, Seq<u8>>>,
}

impl<I2C> I2cInterface<I2C> {
    /// The bus.
    pub closed spec fn spec_i2c(&self) -> &I2C {
        &self.i2c
    }

    /// The address of the device on the bus.
    pub closed spec fn spec_address(&self) -> u8 {
        self.address
    }

    /// The buffer of transaction `i`, if that read several registers.
    pub closed spec fn buffer(&self, i: int) -> Option<Seq<u8>> {
        if self.buffers@.dom().contains(i) {
            Some(self.buffers@[i])
        } else {
            None
        }
    }

    /// The interface to the device at `address` of the bus.
    pub fn new(i2c: I2C, address: u8) -> (iface: Self)
        ensures
            *iface.i2c() == i2c,
            iface.address() == address,
            forall|i: int| iface.buffer(i) is None,
    {
        I2cInterface { i2c, address, buffers: Ghost(Map::empty()) }
    }

    /// The bus.
    #[verifier::when_used_as_spec(spec_i2c)]
    pub fn i2c(&self) -> (i2c: &I2C)
        ensures
            i2c == self.i2c(),
    {
        &self.i2c
    }

    /// The address of the device on the bus.
    #[verifier::when_used_as_spec(spec_address)]
    pub fn address(&self) -> (address: u8)
        ensures
            address == self.address(),
    {
        self.address
    }

    /// Gives the bus back.
    pub fn release(self) -> (i2c: I2C)
        ensures
            i2c == *self.i2c(),
    {
        self.i2c
    }
}

/// What the interface makes of an outcome of the bus: its error becomes
/// [`Error::Comm`].
pub open spec fn comm<T, E>(reply: Result<T, E>) -> Result<T, Error<E>> {
    match reply {
        Ok(value) => Ok(value),
        Err(e) => Err(Error::Comm(e)),
    }
}

/// The access that a transaction on the bus amounts to; `buffer` is the buffer of
/// a reading of several registers. A reading sends the register address and asks
/// for the data with the dummy bytes in front.
pub open spec fn access<E>(event: BusEvent<E>, buffer: Option<Seq<u8>>) -> Entry<Error<E>> {
    match event {
        BusEvent::Write { address, bytes, reply } => Entry {
            target: address as int,
            transfer: Transfer::Write { bytes, reply: comm(reply) },
        },
        BusEvent::WriteRead { address, bytes, len, reply } => Entry {
            target: address as int,
            transfer: match buffer {
                None => if bytes.len() == 1 && len == DUMMY_LEN + 1 {
                    Transfer::Read {
                        register: bytes[0],
                        reply: match reply {
                            Ok(data) => Ok(data[DUMMY_LEN as int]),
                            Err(e) => Err(Error::Comm(e)),
                        },
                    }
                } else {
                    Transfer::Other
                },
                Some(room) => if bytes.len() == 1 && len == DUMMY_LEN + room.len() {
                    Transfer::Burst {
                        register: bytes[0],
                        buffer: room,
                        reply: match reply {
                            Ok(data) => Ok(data.skip(DUMMY_LEN as int)),
                            Err(e) => Err(Error::Comm(e)),
                        },
                    }
                } else {
                    Transfer::Other
                },
            },
        },
    }
}

impl<I2C: I2cBus> Transport for I2cInterface<I2C> {
    type Error = Error<I2C::Error>;

    type Setup = I2C::Setup;

    open spec fn setup(&self) -> Self::Setup {
        self.i2c().setup()
    }

    open spec fn target(&self) -> int {
        self.address() as int
    }

    open spec fn log(&self) -> Seq<Entry<Self::Error>> {
        Seq::new(
            self.i2c().log().len(),
            |i: int| access(self.i2c().log()[i], self.buffer(i)),
        )
    }
}

impl<I2C: I2cBus> WriteData for I2cInterface<I2C> {
    fn write_register(&mut self, register: u8, data: u8) -> (reply: Result<(), Self::Error>)
        ensures
            final(self).address() == old(self).address(),
            final(self).i2c().log().len() == old(self).i2c().log().len() + 1,
            final(self).i2c().log().drop_last() == old(self).i2c().log(),
            final(self).i2c().log().last() matches BusEvent::Write { address, bytes, reply: answer }
                && address == old(self).address() && bytes == seq![register, data] && reply == comm(
                answer,
            ),
    {
        let payload: [u8; 2] = [register, data];
        self.write_data(&payload)
    }

    fn write_data(&mut self, payload: &[u8]) -> (reply: Result<(), Self::Error>)
        ensures
            final(self).address() == old(self).address(),
            final(self).i2c().log().len() == old(self).i2c().log().len() + 1,
            final(self).i2c().log().drop_last() == old(self).i2c().log(),
            final(self).i2c().log().last() matches BusEvent::Write { address, bytes, reply: answer }
                && address == old(self).address() && bytes == payload@ && reply == comm(answer),
    {
        let reply = match self.i2c.write(self.address, payload) {
            Ok(done) => Ok(done),
            Err(e) => Err(Error::Comm(e)),
        };
        assert(self.log() =~= old(self).log().push(self.log().last()));
        reply
    }
}

impl<I2C: I2cBus> ReadData for I2cInterface<I2C> {
    fn read_register(&mut self, register: u8) -> (reply: Result<u8, Self::Error>)
        ensures
            final(self).address() == old(self).address(),
            final(self).i2c().log().len() == old(self).i2c().log().len() + 1,
            final(self).i2c().log().drop_last() == old(self).i2c().log(),
            final(self).i2c().log().last() matches BusEvent::WriteRead {
                address,
                bytes,
                len,
                reply: answer,
            } && address == old(self).address() && bytes == seq![register] && len == DUMMY_LEN + 1
                && match answer {
                Ok(data) => data.len() == DUMMY_LEN + 1 && reply == Ok::<u8, Self::Error>(data[2]),
                Err(e) => reply == Err::<u8, Self::Error>(Error::Comm(e)),
            },
    {
        let ghost number = self.i2c.log().len() as int;
        let mut temp_data: [u8; 3] = [0u8; 3];
        let reply = match self.i2c.write_read(self.address, &[register], &mut temp_data) {
            Ok(_) => Ok(temp_data[2]),
            Err(e) => Err(Error::Comm(e)),
        };
        proof {
            self.buffers@ = self.buffers@.remove(number);
            assert(self.log() =~= old(self).log().push(self.log().last()));
        }
        reply
    }

    fn read_data<'a>(&mut self, payload: &'a mut [u8]) -> (reply: Result<&'a [u8], Self::Error>)
        ensures
            final(self).address() == old(self).address(),
            final(self).i2c().log().len() == old(self).i2c().log().len() + 1,
            final(self).i2c().log().drop_last() == old(self).i2c().log(),
            final(self).i2c().log().last() matches BusEvent::WriteRead {
                address,
                bytes,
                len,
                reply: answer,
            } && address == old(self).address() && bytes == seq![old(payload)@[0]] && len
                == old(payload)@.len() - 1 + DUMMY_LEN && match answer {
                Ok(data) => reply is Ok && reply->Ok_0@ == data.skip(DUMMY_LEN as int),
                Err(e) => reply == Err::<&'a [u8], Self::Error>(Error::Comm(e)),
            },
    {
        let address: u8 = payload[0];
        let ghost before = payload@;
        let (head, data) = payload.split_at_mut(1);
        let total_len: usize = data.len() + 2;
        // Takes the dummy bytes and the data
        let mut temp_buf: [u8; 128] = [0u8; 128];
        let (window, _) = temp_buf.split_at_mut(total_len);
        let ghost number = self.i2c.log().len() as int;
        let done = self.i2c.write_read(self.address, &[address], window);
        proof {
            self.buffers@ = self.buffers@.insert(number, before.skip(1));
            assert(data@ =~= before.skip(1));
            assert(self.log() =~= old(self).log().push(self.log().last()));
        }
        match done {
            Ok(_) => {},
            Err(e) => {
                assert(head@ + data@ =~= before);
                return Err(Error::Comm(e));
            },
        }
        // The data, without the dummy bytes
        let n: usize = data.len();
        let mut i: usize = 0;
        while i < n
            invariant
                i <= n,
                n == data@.len(),
                window@.len() == n + 2,
                n <= 126,
                forall|j: int| 0 <= j < i ==> data@[j] == window@[j + 2],
            decreases n - i,
        {
            data[i] = window[i + 2];
            i += 1;
        }
        assert(data@ =~= window@.skip(2));
        assert(head@ =~= seq![before[0]]);
        Ok(data)
    }
}

} // verus!
