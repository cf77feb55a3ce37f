//! The driver.

use vstd::prelude::*;

use crate::bus::{Delay, I2cBus};
use crate::codec;
use crate::effects;
use crate::interface;
use crate::interface::{I2cInterface, ReadData, Transfer, Transport, WriteData};
use crate::link::Link;
use crate::protocol;
use crate::protocol::{Calibration, OTP_POLLS, READY_POLLS};
use crate::register::Register;
use crate::trace;
use crate::trace::Event;
use crate::types::{
    AverageNum, AxisEnableDisable, DataRate, Error, InterruptDrive, InterruptEnableDisable,
    InterruptLatch, InterruptMap, InterruptPolarity, MagCompensation, MagConfig, PerformanceMode,
    PmuCmdStatus0, PowerMode, Sensor3DData,
};

verus! {

/// A BMM350 magnetometer.
pub struct Bmm350<DI: Transport, D: Delay> {
    /// Register access and the clock.
    pub link: Link<DI, D>,
    /// The measuring range, in microtesla.
    pub mag_range: u16,
    /// The variant of the device.
    pub var_id: u8,
    /// The offsets of the magnetometer.
    pub mag_comp: MagCompensation,
}

impl<DI: Transport, D: Delay> Bmm350<DI, D> {
    /// The history of the driver is what the interface and the clock have
    /// logged since the driver was made.
    pub open spec fn wf(self) -> bool {
        self.link.wf()
    }

    /// What the driver did since it was made, accesses and pauses in order.
    pub open spec fn history(self) -> Seq<Event<DI::Error>> {
        self.link.history()
    }

    /// This is the device `before` with more of a history, talking to the same
    /// address.
    pub open spec fn follows(self, before: Self) -> bool {
        &&& self.link.follows(before.link)
        &&& self.mag_range == before.mag_range
    }

    /// What the driver did since it was `before`.
    pub open spec fn since(self, before: Self) -> Seq<Event<DI::Error>> {
        self.link.since(before.link)
    }

    /// What the driver knows of the individual device.
    pub open spec fn calibration(self) -> Calibration {
        Calibration { var_id: self.var_id, mag_comp: self.mag_comp }
    }

    /// What happened from `a` to `c` is what happened from `a` to `b` and then
    /// from `b` to `c`.
    pub proof fn lemma_since(a: Self, b: Self, c: Self)
        requires
            b.follows(a),
            c.follows(b),
        ensures
            c.follows(a),
            c.since(a) == b.since(a) + c.since(b),
    {
        assert(c.since(a) =~= b.since(a) + c.since(b));
    }
}

impl<I2C, D> Bmm350<I2cInterface<I2C>, D>
where
    I2C: I2cBus,
    D: Delay,
{
    /// Create a new BMM350 device instance
    ///
    /// # Arguments
    ///
    /// * `i2c` - The I2C interface
    /// * `address` - The I2C address of the device
    /// * `delay` - A delay provider
    pub fn new_with_i2c(i2c: I2C, address: u8, delay: D) -> (device: Self)
        ensures
            device.wf(),
            *device.link.iface().i2c() == i2c,
            device.link.iface().address() == address,
            forall|i: int| device.link.iface().buffer(i) is None,
            *device.link.delay() == delay,
            device.mag_range == 1000,
            device.var_id == 0,
            device.mag_comp == (MagCompensation { offset_x: 0, offset_y: 0, offset_z: 0 }),
            device.history().len() == 0,
    {
        Bmm350 {
            link: Link::new(I2cInterface::new(i2c, address), delay),
            mag_range: 1000,
            var_id: 0,
            mag_comp: MagCompensation::default(),
        }
    }
}

impl<DI, D, E> Bmm350<DI, D>
where
    DI: ReadData<Error = Error<E>> + WriteData<Error = Error<E>>,
    D: Delay,
{
    fn write_register(&mut self, reg: u8, value: u8) -> (r: Result<(), Error<E>>)
        requires
            old(self).wf(),
        ensures
            final(self).follows(*old(self)),
            final(self).calibration() == old(self).calibration(),
            final(self).history() == old(self).history().push(trace::wrote::<E>(reg, value, r)),
            r is Ok ==> r == Ok::<(), Error<E>>(()),
    {
        self.link.write_register(reg, value)
    }

    fn write_register_16bit(&mut self, reg: u8, value: u16) -> (r: Result<(), Error<E>>)
        requires
            old(self).wf(),
        ensures
            final(self).follows(*old(self)),
            final(self).calibration() == old(self).calibration(),
            final(self).history() == old(self).history().push(
                trace::wrote_word::<E>(reg, value, r),
            ),
            r is Ok ==> r == Ok::<(), Error<E>>(()),
    {
        self.link.write_register_16bit(reg, value)
    }

    fn read_register(&mut self, reg: u8) -> (r: Result<u8, Error<E>>)
        requires
            old(self).wf(),
        ensures
            final(self).follows(*old(self)),
            final(self).calibration() == old(self).calibration(),
            final(self).history() == old(self).history().push(trace::read::<E>(reg, r)),
    {
        self.link.read_register(reg)
    }

    fn read_data<'a>(&mut self, data: &'a mut [u8]) -> (r: Result<&'a [u8], Error<E>>)
        requires
            old(self).wf(),
            1 <= old(data)@.len() <= interface::MAX_PAYLOAD,
        ensures
            final(self).follows(*old(self)),
            final(self).calibration() == old(self).calibration(),
            final(self).history() == old(self).history().push(
                trace::burst::<E>(old(data)@[0], old(data)@.skip(1), interface::all_bytes(r)),
            ),
            match r {
                Ok(bytes) => {
                    &&& bytes@.len() == old(data)@.len() - 1
                    &&& final(data)@ == seq![old(data)@[0]] + bytes@
                },
                Err(_) => final(data)@ == old(data)@,
            },
    {
        self.link.read_data(data)
    }

    /// Waits for `us` microseconds.
    fn pause_us(&mut self, us: u32)
        requires
            old(self).wf(),
        ensures
            final(self).follows(*old(self)),
            final(self).calibration() == old(self).calibration(),
            final(self).history() == old(self).history().push(trace::paused::<E>(us as nat)),
    {
        self.link.pause_us(us)
    }

    /// Waits for `ms` milliseconds.
    fn pause_ms(&mut self, ms: u32)
        requires
            old(self).wf(),
        ensures
            final(self).follows(*old(self)),
            final(self).calibration() == old(self).calibration(),
            final(self).history() == old(self).history().push(
                trace::paused::<E>(1000 * ms as nat),
            ),
    {
        self.link.pause_ms(ms)
    }

    fn power_mode(&mut self, mode: PowerMode) -> (r: Result<(), Error<E>>)
        requires
            old(self).wf(),
        ensures
            final(self).follows(*old(self)),
            final(self).calibration() == old(self).calibration(),
            protocol::mode_run(mode, final(self).since(*old(self)), r),
    {
        let reply = self.write_register(Register::REG_PMU_CMD, mode.code());
        proof {
            if reply is Err {
                assert(self.since(*old(self)) =~= seq![
                    trace::wrote::<E>(Register::PMU_CMD, mode.spec_code(), reply),
                ]);
            }
        }
        reply?;
        let reply = self.read_register(Register::REG_PMU_CMD_AGGR_SET);
        proof {
            if reply is Err {
                assert(self.since(*old(self)) =~= seq![
                    trace::wrote::<E>(Register::PMU_CMD, mode.spec_code(), Ok(())),
                    trace::read::<E>(Register::PMU_CMD_AGGR_SET, reply),
                ]);
            }
        }
        let get_avg: u8 = reply?;
        self.pause_us(codec::settle_delay(mode, get_avg));
        proof {
            assert(self.since(*old(self)) =~= seq![
                trace::wrote::<E>(Register::PMU_CMD, mode.spec_code(), Ok(())),
                trace::read::<E>(Register::PMU_CMD_AGGR_SET, Ok(get_avg)),
                trace::paused::<E>(codec::settle_time(mode, get_avg) as nat),
            ]);
        }
        Ok(())
    }

    /// Set the power mode of the sensor
    ///
    /// # Arguments
    ///
    /// * `mode` - The power mode to set
    pub fn set_power_mode(&mut self, mode: PowerMode) -> (r: Result<(), Error<E>>)
        requires
            old(self).wf(),
        ensures
            final(self).follows(*old(self)),
            final(self).calibration() == old(self).calibration(),
            protocol::switch_run(mode, final(self).since(*old(self)), r),
            r is Ok ==> ({
                let t = final(self).since(*old(self));
                &&& t.len() > 3
                &&& t[t.len() - 3] == effects::sent::<E>(
                    0x06,
                    effects::mode_field(mode),
                    Ok(()),
                )
            }),
    {
        let reply = self.read_register(Register::REG_PMU_CMD);
        proof {
            assert(self.since(*old(self)) =~= seq![trace::read::<E>(Register::PMU_CMD, reply)]);
        }
        let last_pwr: u8 = reply?;
        if last_pwr > Register::PMU_CMD_NM_TC {
            proof {
                assert(protocol::switch_from_run::<E>(
                    last_pwr,
                    mode,
                    self.since(*old(self)),
                    Err(Error::InvalidConfig),
                ));
            }
            return Err(Error::InvalidConfig);
        }
        if last_pwr == Register::PMU_CMD_NM || last_pwr == Register::PMU_CMD_UPD_OAE {
            let reply = self.write_register(Register::REG_PMU_CMD, Register::PMU_CMD_SUS);
            proof {
                if reply is Err {
                    assert(self.since(*old(self)) =~= seq![
                        trace::read::<E>(Register::PMU_CMD, Ok(last_pwr)),
                        trace::wrote::<E>(Register::PMU_CMD, Register::PMU_CMD_SUS, reply),
                    ]);
                    assert(protocol::switch_from_run(
                        last_pwr,
                        mode,
                        self.since(*old(self)),
                        reply,
                    ));
                }
            }
            reply?;
            self.pause_us(6_000);
        }
        let ghost prepared = *self;
        proof {
            assert(prepared.since(*old(self)) =~= protocol::mode_prelude::<E>(last_pwr));
        }
        let r = self.power_mode(mode);
        proof {
            Self::lemma_since(*old(self), prepared, *self);
            assert(protocol::mode_run(mode, self.since(prepared), r));
            assert(protocol::switch_from_run(last_pwr, mode, self.since(*old(self)), r));
            if r is Ok {
                let u = self.since(prepared);
                effects::power_mode_sends(mode, u, r);
                assert(self.since(*old(self))[prepared.since(*old(self)).len() as int] == u[0]);
                assert(u[0] == effects::sent::<E>(0x06, effects::mode_field(mode), Ok(())));
            }
        }
        r
    }

    /// Read the PMU command status register 0
    fn read_pmu_cmd_status_0(&mut self) -> (r: Result<PmuCmdStatus0, Error<E>>)
        requires
            old(self).wf(),
        ensures
            final(self).follows(*old(self)),
            final(self).calibration() == old(self).calibration(),
            final(self).history().len() == old(self).history().len() + 1,
            protocol::status_run(final(self).since(*old(self)), r),
    {
        let reply = self.read_register(Register::PMU_CMD_STATUS_0);
        proof {
            assert(self.since(*old(self)) =~= seq![
                trace::read::<E>(Register::PMU_CMD_STATUS_0, reply),
            ]);
        }
        let status: u8 = reply?;
        Ok(codec::pmu_status(status))
    }

    /// One reset: writes the command, waits, and looks for the confirmation.
    fn reset_pulse(&mut self, command: PowerMode, us: u32, confirmation: u8) -> (r: Result<
        (),
        Error<E>,
    >)
        requires
            old(self).wf(),
        ensures
            final(self).follows(*old(self)),
            final(self).calibration() == old(self).calibration(),
            protocol::pulse_run(
                command,
                us as nat,
                confirmation,
                final(self).since(*old(self)),
                r,
            ),
    {
        let reply = self.write_register(Register::PMU_CMD, command.code());
        proof {
            if reply is Err {
                assert(self.since(*old(self)) =~= seq![
                    trace::wrote::<E>(Register::PMU_CMD, command.spec_code(), reply),
                ]);
            }
        }
        reply?;
        self.pause_us(us);
        let ghost waited = *self;
        let reply = self.read_pmu_cmd_status_0();
        proof {
            Self::lemma_since(*old(self), waited, *self);
            assert(waited.since(*old(self)) =~= seq![
                trace::wrote::<E>(Register::PMU_CMD, command.spec_code(), Ok(())),
                trace::paused::<E>(us as nat),
            ]);
            assert(self.since(waited).len() == 1);
            assert(self.since(*old(self)) =~= seq![
                trace::wrote::<E>(Register::PMU_CMD, command.spec_code(), Ok(())),
                trace::paused::<E>(us as nat),
                self.since(waited)[0],
            ]);
        }
        let pmu_status: PmuCmdStatus0 = reply?;
        if pmu_status.pmu_cmd_value != confirmation {
            return Err(Error::ResetUnfinished);
        }
        Ok(())
    }

    /// Perform magnetic reset of the sensor.
    /// This is necessary after a field shock (400mT field applied to sensor).
    /// It performs both a bit reset and flux guide reset in suspend mode.
    pub fn magnetic_reset(&mut self) -> (r: Result<(), Error<E>>)
        requires
            old(self).wf(),
        ensures
            final(self).follows(*old(self)),
            final(self).calibration() == old(self).calibration(),
            protocol::reset_run(final(self).since(*old(self)), r),
    {
        // Check if we're in normal mode
        let mut restore_normal: bool = false;
        let reply = self.read_pmu_cmd_status_0();
        let ghost asked = *self;
        let ghost t0 = self.since(*old(self));
        proof {
            if reply is Err {
                assert(protocol::enter_run::<E>(t0, Err(reply->Err_0)));
            }
        }
        let pmu_status: PmuCmdStatus0 = reply?;
        let ghost status = choose|status: u8|
            t0 == seq![#[trigger] trace::read::<E>(Register::PMU_CMD_STATUS_0, Ok(status))]
                && pmu_status == codec::pmu_status_of(status);

        // If we're in normal mode, we need to go to suspend first
        if pmu_status.power_mode_is_normal == 0x1 {
            restore_normal = true;
            let reply = self.set_power_mode(PowerMode::Suspend);
            proof {
                Self::lemma_since(*old(self), asked, *self);
                assert(protocol::switch_run(PowerMode::Suspend, self.since(asked), reply));
                if reply is Ok {
                    assert(reply->Ok_0 == ());
                    assert(protocol::suspend_run::<E>(self.since(asked), Ok(true)));
                    assert(protocol::enter_from_run::<E>(
                        status,
                        self.since(*old(self)),
                        Ok(true),
                    ));
                } else {
                    assert(protocol::suspend_run::<E>(self.since(asked), Err(reply->Err_0)));
                    assert(protocol::enter_from_run::<E>(
                        status,
                        self.since(*old(self)),
                        Err(reply->Err_0),
                    ));
                }
            }
            reply?;
        } else {
            proof {
                assert(protocol::enter_from_run::<E>(status, self.since(*old(self)), Ok(false)));
            }
        }
        let ghost entered = *self;
        let ghost a = entered.since(*old(self));
        proof {
            assert(protocol::enter_run::<E>(a, Ok(restore_normal)));
        }

        // Bit Reset (BR)
        let reply = self.reset_pulse(
            PowerMode::BitReset,
            14_000,
            Register::PMU_CMD_STATUS_0_BR,
        );
        let ghost bit_reset = *self;
        proof {
            Self::lemma_since(*old(self), entered, bit_reset);
            if reply is Err {
                assert(protocol::after_enter_run(restore_normal, bit_reset.since(entered), reply));
            } else {
                assert(reply->Ok_0 == ());
            }
        }
        reply?;

        // Flux Guide Reset (FGR)
        let reply = self.reset_pulse(
            PowerMode::FluxGuideReset,
            18_000,
            Register::PMU_CMD_STATUS_0_FGR,
        );
        let ghost flux_reset = *self;
        proof {
            Self::lemma_since(entered, bit_reset, flux_reset);
            Self::lemma_since(*old(self), entered, flux_reset);
            assert(protocol::bit_reset_run::<E>(bit_reset.since(entered), Ok(())));
            if reply is Err {
                assert(protocol::after_bit_reset_run(
                    restore_normal,
                    flux_reset.since(bit_reset),
                    reply,
                ));
                assert(protocol::after_enter_run(restore_normal, flux_reset.since(entered), reply));
            } else {
                assert(reply->Ok_0 == ());
                assert(protocol::flux_guide_reset_run::<E>(flux_reset.since(bit_reset), Ok(())));
            }
        }
        reply?;

        // Restore normal mode if we were in it before
        let r = if restore_normal {
            self.set_power_mode(PowerMode::Normal)
        } else {
            Ok(())
        };
        proof {
            assert(protocol::restore_run(restore_normal, self.since(flux_reset), r));
            Self::lemma_since(bit_reset, flux_reset, *self);
            assert(protocol::after_bit_reset_run(restore_normal, self.since(bit_reset), r));
            Self::lemma_since(entered, bit_reset, *self);
            assert(protocol::after_enter_run(restore_normal, self.since(entered), r));
            Self::lemma_since(*old(self), entered, *self);
        }
        r
    }

    /// Waits for a reading of the memory to complete.
    fn await_otp(&mut self) -> (r: Result<(), Error<E>>)
        requires
            old(self).wf(),
        ensures
            final(self).follows(*old(self)),
            final(self).calibration() == old(self).calibration(),
            protocol::otp_wait_run(final(self).since(*old(self)), r),
    {
        let ghost mut statuses: Seq<u8> = Seq::empty();
        let mut polls: usize = 0;
        let mut done: bool = false;
        proof {
            assert(self.since(*old(self)) =~= protocol::otp_polls::<E>(statuses));
        }
        while polls < OTP_POLLS && !done
            invariant
                self.follows(*old(self)),
                self.calibration() == old(self).calibration(),
                polls == statuses.len(),
                polls <= OTP_POLLS,
                done ==> polls > 0 && codec::otp_done(statuses.last()),
                forall|i: int|
                    0 <= i < statuses.len() - (if done {
                        1int
                    } else {
                        0
                    }) ==> !codec::otp_done(#[trigger] statuses[i]),
                self.since(*old(self)) == protocol::otp_polls::<E>(statuses),
            decreases OTP_POLLS - polls,
        {
            let ghost before = *self;
            self.pause_us(300);
            let reply = self.read_register(Register::OTP_STATUS_REG);
            proof {
                assert(self.since(*old(self)) =~= before.since(*old(self)) + seq![
                    trace::paused::<E>(300),
                    trace::read::<E>(Register::OTP_STATUS_REG, reply),
                ]);
                if reply is Err {
                    assert(protocol::otp_waited::<E>(
                        statuses,
                        self.since(*old(self)),
                        Err(reply->Err_0),
                    ));
                }
            }
            let status: u8 = reply?;
            proof {
                assert(statuses.push(status).drop_last() =~= statuses);
                statuses = statuses.push(status);
            }
            polls += 1;
            done = codec::otp_complete(status);
        }
        proof {
            assert(protocol::otp_waited::<E>(statuses, self.since(*old(self)), Ok(())));
        }
        Ok(())
    }

    fn read_otp_word(&mut self, addr: u8) -> (r: Result<u16, Error<E>>)
        requires
            old(self).wf(),
        ensures
            final(self).follows(*old(self)),
            final(self).calibration() == old(self).calibration(),
            protocol::otp_word_run(addr, final(self).since(*old(self)), r),
    {
        // OTP read command
        let reply = self.write_register(Register::OTP_CMD_REG, codec::otp_command(addr));
        let ghost commanded = *self;
        proof {
            assert(self.since(*old(self)) =~= seq![
                trace::wrote::<E>(Register::OTP_CMD_REG, codec::otp_read_command(addr), reply),
            ]);
        }
        reply?;

        // Wait for OTP read to complete
        let reply = self.await_otp();
        let ghost waited = *self;
        proof {
            Self::lemma_since(*old(self), commanded, waited);
            if reply is Err {
                assert(protocol::otp_fetch_run::<E>(waited.since(commanded), Err(reply->Err_0)));
            } else {
                assert(reply->Ok_0 == ());
            }
        }
        reply?;

        let reply = self.read_register(Register::OTP_DATA_MSB_REG);
        proof {
            Self::lemma_since(commanded, waited, *self);
            Self::lemma_since(*old(self), commanded, *self);
            assert(self.since(waited) =~= seq![
                trace::read::<E>(Register::OTP_DATA_MSB_REG, reply),
            ]);
            if reply is Err {
                assert(protocol::otp_data_run::<E>(self.since(waited), Err(reply->Err_0)));
                assert(protocol::otp_fetch_run::<E>(self.since(commanded), Err(reply->Err_0)));
            }
        }
        let msb: u8 = reply?;
        let reply = self.read_register(Register::OTP_DATA_LSB_REG);
        proof {
            Self::lemma_since(commanded, waited, *self);
            Self::lemma_since(*old(self), commanded, *self);
            assert(self.since(waited) =~= seq![
                trace::read::<E>(Register::OTP_DATA_MSB_REG, Ok(msb)),
                trace::read::<E>(Register::OTP_DATA_LSB_REG, reply),
            ]);
            if reply is Err {
                assert(protocol::otp_data_run::<E>(self.since(waited), Err(reply->Err_0)));
                assert(protocol::otp_fetch_run::<E>(self.since(commanded), Err(reply->Err_0)));
            }
        }
        let lsb: u8 = reply?;
        proof {
            assert(protocol::otp_data_run::<E>(self.since(waited), Ok(codec::word(msb, lsb))));
            assert(protocol::otp_fetch_run::<E>(self.since(commanded), Ok(codec::word(msb, lsb))));
        }
        Ok(codec::otp_word(msb, lsb))
    }

    fn update_mag_compensation(&mut self, otp_data: &[u16; 32]) -> (r: Result<(), Error<E>>)
        requires
            old(self).wf(),
        ensures
            r == Ok::<(), Error<E>>(()),
            final(self).follows(*old(self)),
            final(self).link == old(self).link,
            final(self).var_id == old(self).var_id,
            final(self).mag_comp == codec::offsets_of(otp_data@),
    {
        self.mag_comp = codec::offsets(otp_data);
        Ok(())
    }

    fn otp_dump_after_boot(&mut self) -> (r: Result<(), Error<E>>)
        requires
            old(self).wf(),
        ensures
            final(self).follows(*old(self)),
            protocol::boot_run(
                old(self).calibration(),
                final(self).calibration(),
                final(self).since(*old(self)),
                r,
            ),
    {
        let mut otp_data: [u16; 32] = [0u16; 32];
        let mut i: usize = 0;
        while i < 32
            invariant
                i <= 32,
                self.follows(*old(self)),
                self.calibration() == old(self).calibration(),
                protocol::otp_words_run::<E>(
                    otp_data@.take(i as int),
                    self.since(*old(self)),
                ),
            decreases 32 - i,
        {
            let ghost before = *self;
            let ghost words = otp_data@.take(i as int);
            let reply = self.read_otp_word(i as u8);
            proof {
                Self::lemma_since(*old(self), before, *self);
                assert(protocol::otp_words_run::<E>(words, before.since(*old(self))));
                assert(words.len() as u8 == i as u8);
                if reply is Err {
                    assert(protocol::otp_dump_run::<E>(
                        self.since(*old(self)),
                        Err(reply->Err_0),
                    ));
                }
            }
            let value: u16 = reply?;
            otp_data[i] = value;
            i += 1;
            proof {
                let now = otp_data@.take(i as int);
                assert(now.drop_last() =~= words);
                assert(now.last() == value);
                assert(protocol::otp_word_run::<E>(
                    (now.len() - 1) as u8,
                    self.since(before),
                    Ok(now.last()),
                ));
                assert(protocol::otp_words_run::<E>(now, self.since(*old(self))));
            }
        }
        proof {
            assert(otp_data@.take(32) =~= otp_data@);
            assert(protocol::otp_dump_run::<E>(self.since(*old(self)), Ok(otp_data@)));
        }
        self.var_id = codec::variant_id(&otp_data);

        // Update magnetometer offset and sensitivity data
        self.update_mag_compensation(&otp_data)?;
        proof {
            assert(self.calibration() == protocol::calibration_of(otp_data@));
        }
        Ok(())
    }

    /// Initialize the device
    pub fn init(&mut self) -> (r: Result<(), Error<E>>)
        requires
            old(self).wf(),
        ensures
            final(self).follows(*old(self)),
            protocol::init_run(
                old(self).calibration(),
                final(self).calibration(),
                final(self).since(*old(self)),
                r,
            ),
            r is Ok ==> final(self).since(*old(self)).len() > 3 && final(self).since(*old(self))[3]
                == effects::got::<E>(0x00, Ok(0x33)),
    {
        self.pause_us(3_000);
        let reply = self.write_register_16bit(Register::CMD, Register::CMD_SOFT_RESET);
        proof {
            if reply is Err {
                assert(self.since(*old(self)) =~= seq![
                    trace::paused::<E>(3_000),
                    trace::wrote_word::<E>(Register::CMD, Register::CMD_SOFT_RESET, reply),
                ]);
            }
        }
        reply?;
        self.pause_us(24_000);

        let reply = self.read_register(Register::CHIPID);
        proof {
            assert(self.since(*old(self)) =~= protocol::greeting(reply));
        }
        let chip_id: u8 = reply?;
        if chip_id != Register::BMM350_CHIP_ID {
            return Err(Error::InvalidDevice);
        }
        let ghost greeted = *self;

        // Perform OTP dump after boot
        let reply = self.otp_dump_after_boot();
        let ghost booted = *self;
        let ghost known = self.calibration();
        proof {
            Self::lemma_since(*old(self), greeted, booted);
            if reply is Err {
                assert(protocol::setup_run(
                    old(self).calibration(),
                    known,
                    booted.since(greeted),
                    reply,
                ));
            } else {
                assert(reply->Ok_0 == ());
            }
        }
        reply?;

        // Power off OTP
        let reply = self.write_register(Register::OTP_CMD_REG, Register::OTP_CMD_PWR_OFF_OTP);
        let ghost powered_off = *self;
        proof {
            Self::lemma_since(greeted, booted, powered_off);
            Self::lemma_since(*old(self), greeted, powered_off);
            assert(powered_off.since(booted) =~= seq![
                trace::wrote::<E>(Register::OTP_CMD_REG, Register::OTP_CMD_PWR_OFF_OTP, reply),
            ]);
            if reply is Err {
                assert(protocol::after_boot_run(powered_off.since(booted), reply));
                assert(protocol::setup_run(
                    old(self).calibration(),
                    known,
                    powered_off.since(greeted),
                    reply,
                ));
            }
        }
        reply?;

        let r = self.magnetic_reset();
        proof {
            Self::lemma_since(booted, powered_off, *self);
            Self::lemma_since(greeted, booted, *self);
            Self::lemma_since(*old(self), greeted, *self);
            assert(protocol::reset_run(self.since(powered_off), r));
            assert(protocol::after_boot_run(self.since(booted), r));
            assert(protocol::boot_run::<E>(
                old(self).calibration(),
                known,
                booted.since(greeted),
                Ok(()),
            ));
            assert(protocol::setup_run(old(self).calibration(), known, self.since(greeted), r));
        }
        r
    }

    /// Read the interrupt status
    pub fn get_interrupt_status(&mut self) -> (r: Result<bool, Error<E>>)
        requires
            old(self).wf(),
        ensures
            final(self).follows(*old(self)),
            final(self).calibration() == old(self).calibration(),
            protocol::interrupt_status_run(final(self).since(*old(self)), r),
            r matches Ok(ready) ==> exists|status: u8|
                final(self).since(*old(self)) == seq![
                    #[trigger] effects::got::<E>(0x30, Ok(status)),
                ] && ready == (status as int / 4 % 2 == 1),
    {
        let reply = self.read_register(Register::STATUS);
        proof {
            assert(self.since(*old(self)) =~= seq![trace::read::<E>(Register::STATUS, reply)]);
        }
        let status: u8 = reply?;
        assert(self.since(*old(self)) =~= seq![effects::got::<E>(0x30, Ok(status))]);
        Ok(codec::is_data_ready(status))
    }

    fn wait_for_data_ready(&mut self) -> (r: Result<(), Error<E>>)
        requires
            old(self).wf(),
        ensures
            final(self).follows(*old(self)),
            final(self).calibration() == old(self).calibration(),
            protocol::ready_run(final(self).since(*old(self)), r),
    {
        let ghost mut statuses: Seq<u8> = Seq::empty();
        let mut polls: usize = 0;
        proof {
            assert(self.since(*old(self)) =~= protocol::ready_polls::<E>(statuses));
        }
        while polls < READY_POLLS
            invariant
                self.follows(*old(self)),
                self.calibration() == old(self).calibration(),
                polls == statuses.len(),
                polls <= READY_POLLS,
                forall|i: int|
                    0 <= i < statuses.len() ==> !codec::data_ready(#[trigger] statuses[i]),
                self.since(*old(self)) == protocol::ready_polls::<E>(statuses),
            decreases READY_POLLS - polls,
        {
            let ghost before = *self;
            let reply = self.get_interrupt_status();
            proof {
                Self::lemma_since(*old(self), before, *self);
                if reply is Err {
                    assert(protocol::ready_waited::<E>(
                        statuses,
                        self.since(*old(self)),
                        Err(reply->Err_0),
                    ));
                }
            }
            let ready: bool = reply?;
            let ghost status = choose|status: u8|
                self.since(before) == seq![
                    #[trigger] trace::read::<E>(Register::STATUS, Ok(status)),
                ] && ready == codec::data_ready(status);
            let ghost asked = *self;
            if ready {
                proof {
                    assert(protocol::ready_waited::<E>(statuses, self.since(*old(self)), Ok(())));
                }
                return Ok(());
            }
            self.pause_ms(1);
            proof {
                assert(self.since(*old(self)) =~= asked.since(*old(self)).push(
                    trace::paused::<E>(1_000),
                ));
                assert(self.since(*old(self)) =~= protocol::ready_polls::<E>(statuses) + seq![
                    trace::read::<E>(Register::STATUS, Ok(status)),
                    trace::paused::<E>(1_000),
                ]);
                assert(statuses.push(status).drop_last() =~= statuses);
                statuses = statuses.push(status);
            }
            polls += 1;
        }
        proof {
            assert(protocol::ready_waited::<E>(
                statuses,
                self.since(*old(self)),
                Err(Error::Timeout),
            ));
        }
        Err(Error::Timeout)
    }

    /// Set the magnetometer configuration
    ///
    /// # Arguments
    ///
    /// * `config` - The magnetometer configuration
    pub fn set_mag_config(&mut self, config: MagConfig) -> (r: Result<(), Error<E>>)
        requires
            old(self).wf(),
        ensures
            final(self).follows(*old(self)),
            final(self).calibration() == old(self).calibration(),
            protocol::config_run(config, final(self).since(*old(self)), r),
            r is Ok ==> (final(self).since(*old(self))[0] matches Event::Access(
                Transfer::Write { bytes, reply },
            ) && reply is Ok && bytes.len() == 3 && bytes[0] == 0x04 && bytes[1] as int % 16
                == effects::rate_field(config.odr) && bytes[1] as int / 16
                == effects::performance_field(config.performance) && bytes[2] == 0),
    {
        let reg_data: u16 = u16::from(config);
        let reply = self.write_register_16bit(Register::PMU_CMD_AGGR_SET, reg_data);
        let ghost configured = *self;
        proof {
            assert(self.since(*old(self)) =~= seq![
                trace::wrote_word::<E>(Register::PMU_CMD_AGGR_SET, config.spec_bits(), reply),
            ]);
        }
        reply?;

        // Wait for magnetometer data to be ready
        let r = self.wait_for_data_ready();
        proof {
            Self::lemma_since(*old(self), configured, *self);
            assert(protocol::ready_run(self.since(configured), r));
            effects::set_mag_config_sends(config, self.since(*old(self)), r);
        }
        r
    }

    /// Enable or disable axes
    ///
    /// # Arguments
    ///
    /// * `x` - Enable or disable X axis
    /// * `y` - Enable or disable Y axis
    /// * `z` - Enable or disable Z axis
    pub fn enable_axes(
        &mut self,
        x: AxisEnableDisable,
        y: AxisEnableDisable,
        z: AxisEnableDisable,
    ) -> (r: Result<(), Error<E>>)
        requires
            old(self).wf(),
        ensures
            final(self).follows(*old(self)),
            final(self).calibration() == old(self).calibration(),
            protocol::write_run(
                Register::PMU_CMD_AXIS_EN,
                codec::axes_byte(x, y, z),
                final(self).since(*old(self)),
                r,
            ),
            exists|b: u8|
                {
                    &&& final(self).since(*old(self)) == seq![
                        #[trigger] effects::sent::<E>(0x05, b, r),
                    ]
                    &&& b < 8
                    &&& (b as int % 2 == 1) == (x is Enable)
                    &&& (b as int / 2 % 2 == 1) == (y is Enable)
                    &&& (b as int / 4 % 2 == 1) == (z is Enable)
                },
    {
        let r = self.write_register(Register::PMU_CMD_AXIS_EN, codec::axes_bits(x, y, z));
        proof {
            assert(self.since(*old(self)) =~= seq![
                trace::wrote::<E>(Register::PMU_CMD_AXIS_EN, codec::axes_byte(x, y, z), r),
            ]);
            effects::enable_axes_sends(x, y, z, self.since(*old(self)), r);
        }
        r
    }

    /// Read the raw magnetometer data
    pub fn read_mag_data(&mut self) -> (r: Result<Sensor3DData, Error<E>>)
        requires
            old(self).wf(),
        ensures
            final(self).follows(*old(self)),
            final(self).calibration() == old(self).calibration(),
            protocol::sample_run(final(self).since(*old(self)), r),
            r matches Ok(data) ==> final(self).since(*old(self)).len() == 1 && (
            final(self).since(*old(self))[0] matches Event::Access(
                Transfer::Burst { register, buffer, reply },
            ) && register == 0x31 && buffer == seq![0u8, 0, 0, 0, 0, 0, 0, 0, 0]
                && match reply {
                Ok(b) => {
                    &&& b.len() == 9
                    &&& -0x800000 <= data.x < 0x800000
                    &&& -0x800000 <= data.y < 0x800000
                    &&& -0x800000 <= data.z < 0x800000
                    &&& data.x as int % 0x1000000 == b[0] + 256 * b[1] + 65536 * b[2]
                    &&& data.y as int % 0x1000000 == b[3] + 256 * b[4] + 65536 * b[5]
                    &&& data.z as int % 0x1000000 == b[6] + 256 * b[7] + 65536 * b[8]
                },
                Err(_) => false,
            }),
    {
        // 1 byte for start address + 9 bytes for data (X, Y, Z)
        let mut buffer: [u8; 10] = [0u8; 10];
        buffer[0] = Register::MAG_X_LSB;
        assert(buffer@.skip(1) =~= protocol::empty_sample());
        let reply = self.read_data(&mut buffer);
        proof {
            assert(self.since(*old(self)) =~= seq![
                trace::burst::<E>(
                    Register::MAG_X_LSB,
                    protocol::empty_sample(),
                    interface::all_bytes(reply),
                ),
            ]);
        }
        let sensor_data_slice = reply?;
        let data = codec::sample(sensor_data_slice);
        proof {
            effects::read_mag_data_tells::<E>(self.since(*old(self)), Ok(data));
        }
        Ok(data)
    }

    /// Perform a self-test
    #[allow(dead_code)]
    fn perform_self_test(&mut self) -> (r: Result<bool, Error<E>>)
        requires
            old(self).wf(),
        ensures
            final(self).follows(*old(self)),
            final(self).calibration() == old(self).calibration(),
            protocol::self_test_run(final(self).since(*old(self)), r),
    {
        // Save current configuration
        let reply = self.read_register(Register::PMU_CMD);
        proof {
            assert(self.since(*old(self)) =~= seq![trace::read::<E>(Register::PMU_CMD, reply)]);
        }
        let current_power_mode: u8 = reply?;
        let reply = self.read_register(Register::PMU_CMD_AGGR_SET);
        proof {
            assert(self.since(*old(self)) =~= seq![
                trace::read::<E>(Register::PMU_CMD, Ok(current_power_mode)),
                trace::read::<E>(Register::PMU_CMD_AGGR_SET, reply),
            ]);
        }
        let current_odr: u8 = reply?;
        let ghost saved = *self;

        // Set device to normal mode and 100Hz ODR
        let reply = self.set_power_mode(PowerMode::Normal);
        let ghost normal = *self;
        proof {
            Self::lemma_since(*old(self), saved, normal);
            if reply is Err {
                assert(protocol::self_test_mode_run::<E>(
                    current_power_mode,
                    current_odr,
                    normal.since(saved),
                    Err(reply->Err_0),
                ));
            } else {
                assert(reply->Ok_0 == ());
            }
        }
        reply?;
        let config = MagConfig::builder().odr(DataRate::ODR100Hz).performance(
            PerformanceMode::Regular,
        ).build();
        let reply = self.set_mag_config(config);
        let ghost configured = *self;
        proof {
            Self::lemma_since(saved, normal, configured);
            Self::lemma_since(*old(self), saved, configured);
            if reply is Err {
                assert(protocol::self_test_config_run::<E>(
                    current_power_mode,
                    current_odr,
                    configured.since(normal),
                    Err(reply->Err_0),
                ));
                assert(protocol::self_test_mode_run::<E>(
                    current_power_mode,
                    current_odr,
                    configured.since(saved),
                    Err(reply->Err_0),
                ));
            } else {
                assert(reply->Ok_0 == ());
            }
        }
        reply?;

        // Perform self-test
        let self_test_passed: bool = true;

        // Restore original configuration
        let reply = self.write_register(Register::PMU_CMD, current_power_mode);
        proof {
            Self::lemma_since(normal, configured, *self);
            Self::lemma_since(saved, normal, *self);
            Self::lemma_since(*old(self), saved, *self);
            if reply is Err {
                assert(self.since(configured) =~= seq![
                    trace::wrote::<E>(Register::PMU_CMD, current_power_mode, reply),
                ]);
                assert(protocol::self_test_restore_run::<E>(
                    current_power_mode,
                    current_odr,
                    self.since(configured),
                    Err(reply->Err_0),
                ));
                assert(protocol::self_test_config_run::<E>(
                    current_power_mode,
                    current_odr,
                    self.since(normal),
                    Err(reply->Err_0),
                ));
                assert(protocol::self_test_mode_run::<E>(
                    current_power_mode,
                    current_odr,
                    self.since(saved),
                    Err(reply->Err_0),
                ));
            }
        }
        reply?;
        let reply = self.write_register(Register::PMU_CMD_AGGR_SET, current_odr);
        let ghost outcome = if reply is Ok {
            Ok::<bool, Error<E>>(true)
        } else {
            Err(reply->Err_0)
        };
        proof {
            Self::lemma_since(normal, configured, *self);
            Self::lemma_since(saved, normal, *self);
            Self::lemma_since(*old(self), saved, *self);
            assert(self.since(configured) =~= seq![
                trace::wrote::<E>(Register::PMU_CMD, current_power_mode, Ok(())),
                trace::wrote::<E>(Register::PMU_CMD_AGGR_SET, current_odr, reply),
            ]);
            assert(protocol::self_test_restore_run::<E>(
                current_power_mode,
                current_odr,
                self.since(configured),
                outcome,
            ));
            assert(protocol::self_test_config_run::<E>(
                current_power_mode,
                current_odr,
                self.since(normal),
                outcome,
            ));
            assert(protocol::self_test_mode_run::<E>(
                current_power_mode,
                current_odr,
                self.since(saved),
                outcome,
            ));
        }
        reply?;
        Ok(self_test_passed)
    }

    /// Set the output data rate and performance mode
    pub fn set_odr_performance(&mut self, odr: DataRate, performance: AverageNum) -> (r: Result<
        (),
        Error<E>,
    >)
        requires
            old(self).wf(),
        ensures
            final(self).follows(*old(self)),
            final(self).calibration() == old(self).calibration(),
            protocol::rate_run(
                codec::rate_byte(odr, performance),
                final(self).since(*old(self)),
                r,
            ),
            r is Ok ==> exists|b: u8|
                {
                    &&& final(self).since(*old(self)) == seq![
                        #[trigger] effects::sent::<E>(0x04, b, Ok(())),
                        effects::sent::<E>(0x06, 0x02, Ok(())),
                        Event::Pause(1_000),
                    ]
                    &&& b as int % 16 == effects::rate_field(odr)
                    &&& b as int / 16 == effects::averaging_field(performance)
                },
    {
        let reg_data: u8 = codec::rate_bits(odr, performance);
        let reply = self.write_register(Register::PMU_CMD_AGGR_SET, reg_data);
        proof {
            assert(self.since(*old(self)) =~= seq![
                trace::wrote::<E>(Register::PMU_CMD_AGGR_SET, reg_data, reply),
            ]);
        }
        reply?;
        let reply = self.write_register(Register::PMU_CMD, Register::PMU_CMD_UPD_OAE);
        proof {
            assert(self.since(*old(self)) =~= seq![
                trace::wrote::<E>(Register::PMU_CMD_AGGR_SET, reg_data, Ok(())),
                trace::wrote::<E>(Register::PMU_CMD, Register::PMU_CMD_UPD_OAE, reply),
            ]);
        }
        reply?;
        self.pause_us(1_000);
        proof {
            assert(self.since(*old(self)) =~= seq![
                trace::wrote::<E>(Register::PMU_CMD_AGGR_SET, reg_data, Ok(())),
                trace::wrote::<E>(Register::PMU_CMD, Register::PMU_CMD_UPD_OAE, Ok(())),
                trace::paused::<E>(1_000),
            ]);
            assert(self.since(*old(self))[0] == effects::sent::<E>(0x04, reg_data, Ok(())));
            effects::set_odr_performance_sends(odr, performance, self.since(*old(self)), Ok(()));
            assert(self.since(*old(self)) =~= seq![
                effects::sent::<E>(0x04, reg_data, Ok(())),
                effects::sent::<E>(0x06, 0x02, Ok(())),
                Event::Pause(1_000),
            ]);
        }
        Ok(())
    }

    /// Reads the interrupt control register and sets it to `value`.
    fn set_interrupt_control(&mut self, value: u8) -> (r: Result<(), Error<E>>)
        requires
            old(self).wf(),
        ensures
            final(self).follows(*old(self)),
            final(self).calibration() == old(self).calibration(),
            protocol::interrupt_control_run(value, final(self).since(*old(self)), r),
    {
        let reply = self.read_register(Register::INT_CTRL);
        proof {
            assert(self.since(*old(self)) =~= seq![trace::read::<E>(Register::INT_CTRL, reply)]);
        }
        let ghost previous = reply->Ok_0;
        reply?;
        let r = self.write_register(Register::INT_CTRL, value);
        proof {
            assert(self.since(*old(self)) =~= seq![
                trace::read::<E>(Register::INT_CTRL, Ok(previous)),
                trace::wrote::<E>(Register::INT_CTRL, value, r),
            ]);
        }
        r
    }

    /// Enable or disable the data ready interrupt
    pub fn enable_interrupt(&mut self, enable: InterruptEnableDisable) -> (r: Result<
        (),
        Error<E>,
    >)
        requires
            old(self).wf(),
        ensures
            final(self).follows(*old(self)),
            final(self).calibration() == old(self).calibration(),
            protocol::interrupt_control_run(
                codec::data_ready_byte(enable),
                final(self).since(*old(self)),
                r,
            ),
            effects::asks_then_sends(
                final(self).since(*old(self)),
                r,
                if enable is Enable {
                    0x80
                } else {
                    0x00
                },
            ),
    {
        let r = self.set_interrupt_control(codec::data_ready_bits(enable));
        proof {
            effects::enable_interrupt_sends(enable, self.since(*old(self)), r);
        }
        r
    }

    /// Configure interrupt settings
    pub fn configure_interrupt(
        &mut self,
        latch: InterruptLatch,
        polarity: InterruptPolarity,
        drive: InterruptDrive,
        map: InterruptMap,
    ) -> (r: Result<(), Error<E>>)
        requires
            old(self).wf(),
        ensures
            final(self).follows(*old(self)),
            final(self).calibration() == old(self).calibration(),
            protocol::interrupt_control_run(
                codec::interrupt_byte(latch, polarity, drive, map),
                final(self).since(*old(self)),
                r,
            ),
            exists|b: u8|
                {
                    &&& #[trigger] effects::asks_then_sends(final(self).since(*old(self)), r, b)
                    &&& b < 16
                    &&& (b as int % 2 == 1) == (latch is Latched)
                    &&& (b as int / 2 % 2 == 1) == (polarity is ActiveHigh)
                    &&& (b as int / 4 % 2 == 1) == (drive is PushPull)
                    &&& (b as int / 8 == 1) == (map is MapToPin)
                },
    {
        let r = self.set_interrupt_control(codec::interrupt_bits(latch, polarity, drive, map));
        proof {
            effects::configure_interrupt_sends(
                latch,
                polarity,
                drive,
                map,
                self.since(*old(self)),
                r,
            );
        }
        r
    }

    /// Set the I2C watchdog timer
    pub fn set_i2c_watchdog(&mut self, enable: bool, long_timeout: bool) -> (r: Result<
        (),
        Error<E>,
    >)
        requires
            old(self).wf(),
        ensures
            final(self).follows(*old(self)),
            final(self).calibration() == old(self).calibration(),
            protocol::write_run(
                Register::I2C_WDT_SET,
                codec::watchdog_byte(enable, long_timeout),
                final(self).since(*old(self)),
                r,
            ),
            exists|b: u8|
                {
                    &&& final(self).since(*old(self)) == seq![
                        #[trigger] effects::sent::<E>(0x0A, b, r),
                    ]
                    &&& b < 4
                    &&& (b as int % 2 == 1) == enable
                    &&& (b as int / 2 == 1) == long_timeout
                },
    {
        let r = self.write_register(
            Register::I2C_WDT_SET,
            codec::watchdog_bits(enable, long_timeout),
        );
        proof {
            assert(self.since(*old(self)) =~= seq![
                trace::wrote::<E>(
                    Register::I2C_WDT_SET,
                    codec::watchdog_byte(enable, long_timeout),
                    r,
                ),
            ]);
            effects::set_i2c_watchdog_sends(enable, long_timeout, self.since(*old(self)), r);
        }
        r
    }
}

} // verus!
