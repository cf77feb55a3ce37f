//! What each operation of the driver does.
//!
//! An operation is described by the histories that it can leave behind: a
//! predicate `.._run` holds of a history `t` and a result `r` exactly when the
//! operation, with the device answering as `t` records, does what `t` records
//! and returns `r`. An access that fails ends the operation; each description
//! lists where that can happen.

use vstd::prelude::*;

use crate::codec;
use crate::codec::{OTP_WORDS, SAMPLE_LEN};
use crate::register::Register;
use crate::trace;
use crate::trace::Trace;
use crate::types::{
    DataRate, Error, MagCompensation, MagConfig, PerformanceMode, PmuCmdStatus0, PowerMode,
    Sensor3DData,
};

verus! {

/// What the driver knows of the individual device.
pub struct Calibration {
    /// The variant of the device.
    pub var_id: u8,
    /// The offsets of the magnetometer.
    pub mag_comp: MagCompensation,
}

/// The number of times that the memory's status is read.
pub const OTP_POLLS: usize = 10;

/// The number of times that the data ready bit is read.
pub const READY_POLLS: usize = 100;

/// The command for `mode` is written, the data rate and averaging register is
/// read, and the time that the mode takes is waited out.
pub open spec fn mode_run<E>(mode: PowerMode, t: Trace<E>, r: Result<(), Error<E>>) -> bool {
    match r {
        Ok(_) => exists|set: u8|
            t == seq![
                trace::wrote::<E>(Register::PMU_CMD, mode.spec_code(), Ok(())),
                #[trigger] trace::read::<E>(Register::PMU_CMD_AGGR_SET, Ok(set)),
                trace::paused::<E>(codec::settle_time(mode, set) as nat),
            ],
        Err(e) => {
            ||| t == seq![trace::wrote::<E>(Register::PMU_CMD, mode.spec_code(), Err(e))]
            ||| t == seq![
                trace::wrote::<E>(Register::PMU_CMD, mode.spec_code(), Ok(())),
                trace::read::<E>(Register::PMU_CMD_AGGR_SET, Err(e)),
            ]
        },
    }
}

/// A change of mode out of this command goes through suspend.
pub open spec fn must_suspend(last: u8) -> bool {
    last == Register::PMU_CMD_NM || last == Register::PMU_CMD_UPD_OAE
}

/// What precedes the command for a mode when the last command was `last`.
pub open spec fn mode_prelude<E>(last: u8) -> Trace<E> {
    if must_suspend(last) {
        seq![
            trace::read::<E>(Register::PMU_CMD, Ok(last)),
            trace::wrote::<E>(Register::PMU_CMD, Register::PMU_CMD_SUS, Ok(())),
            trace::paused::<E>(6_000),
        ]
    } else {
        seq![trace::read::<E>(Register::PMU_CMD, Ok(last))]
    }
}

/// A change of mode when the last command was `last`: refused for a command
/// that is not known.
pub open spec fn switch_from_run<E>(
    last: u8,
    mode: PowerMode,
    t: Trace<E>,
    r: Result<(), Error<E>>,
) -> bool {
    if last > Register::PMU_CMD_NM_TC {
        &&& t == seq![trace::read::<E>(Register::PMU_CMD, Ok(last))]
        &&& r == Err::<(), Error<E>>(Error::InvalidConfig)
    } else {
        ||| must_suspend(last) && r is Err && t == seq![
            trace::read::<E>(Register::PMU_CMD, Ok(last)),
            trace::wrote::<E>(Register::PMU_CMD, Register::PMU_CMD_SUS, Err(r->Err_0)),
        ]
        ||| exists|tail: Trace<E>|
            t == mode_prelude::<E>(last) + tail && #[trigger] mode_run(mode, tail, r)
    }
}

/// A change of mode.
pub open spec fn switch_run<E>(mode: PowerMode, t: Trace<E>, r: Result<(), Error<E>>) -> bool {
    ||| r is Err && t == seq![trace::read::<E>(Register::PMU_CMD, Err(r->Err_0))]
    ||| exists|last: u8| #[trigger] switch_from_run(last, mode, t, r)
}

/// The power management status is read.
pub open spec fn status_run<E>(t: Trace<E>, r: Result<PmuCmdStatus0, Error<E>>) -> bool {
    match r {
        Ok(fields) => exists|status: u8|
            t == seq![#[trigger] trace::read::<E>(Register::PMU_CMD_STATUS_0, Ok(status))] && fields
                == codec::pmu_status_of(status),
        Err(e) => t == seq![trace::read::<E>(Register::PMU_CMD_STATUS_0, Err(e))],
    }
}

/// The beginning of a magnetic reset: a device in normal mode is suspended. The
/// result says whether it was in normal mode.
pub open spec fn enter_run<E>(t: Trace<E>, r: Result<bool, Error<E>>) -> bool {
    ||| r is Err && t == seq![trace::read::<E>(Register::PMU_CMD_STATUS_0, Err(r->Err_0))]
    ||| exists|status: u8| #[trigger] enter_from_run(status, t, r)
}

/// A device in normal mode is suspended.
pub open spec fn suspend_run<E>(t: Trace<E>, r: Result<bool, Error<E>>) -> bool {
    match r {
        Ok(normal) => normal && switch_run(PowerMode::Suspend, t, Ok(())),
        Err(e) => switch_run(PowerMode::Suspend, t, Err(e)),
    }
}

/// The beginning of a magnetic reset when the status is `status`.
pub open spec fn enter_from_run<E>(status: u8, t: Trace<E>, r: Result<bool, Error<E>>) -> bool {
    if codec::bit(status, 3) == 1 {
        exists|tail: Trace<E>|
            t == seq![trace::read::<E>(Register::PMU_CMD_STATUS_0, Ok(status))] + tail
                && #[trigger] suspend_run(tail, r)
    } else {
        &&& t == seq![trace::read::<E>(Register::PMU_CMD_STATUS_0, Ok(status))]
        &&& r == Ok::<bool, Error<E>>(false)
    }
}

/// One reset: `command` is written, `us` microseconds are waited out, and the
/// status must show `confirmation`.
pub open spec fn pulse_run<E>(
    command: PowerMode,
    us: nat,
    confirmation: u8,
    t: Trace<E>,
    r: Result<(), Error<E>>,
) -> bool {
    match r {
        Ok(_) => exists|status: u8|
            t == seq![
                trace::wrote::<E>(Register::PMU_CMD, command.spec_code(), Ok(())),
                trace::paused::<E>(us),
                #[trigger] trace::read::<E>(Register::PMU_CMD_STATUS_0, Ok(status)),
            ] && status as int / 32 == confirmation,
        Err(e) => {
            ||| t == seq![trace::wrote::<E>(Register::PMU_CMD, command.spec_code(), Err(e))]
            ||| t == seq![
                trace::wrote::<E>(Register::PMU_CMD, command.spec_code(), Ok(())),
                trace::paused::<E>(us),
                trace::read::<E>(Register::PMU_CMD_STATUS_0, Err(e)),
            ]
            ||| e == Error::<E>::ResetUnfinished && exists|status: u8|
                t == seq![
                    trace::wrote::<E>(Register::PMU_CMD, command.spec_code(), Ok(())),
                    trace::paused::<E>(us),
                    #[trigger] trace::read::<E>(Register::PMU_CMD_STATUS_0, Ok(status)),
                ] && status as int / 32 != confirmation
        },
    }
}

/// The bit reset.
pub open spec fn bit_reset_run<E>(t: Trace<E>, r: Result<(), Error<E>>) -> bool {
    pulse_run(PowerMode::BitReset, 14_000, Register::PMU_CMD_STATUS_0_BR, t, r)
}

/// The flux guide reset.
pub open spec fn flux_guide_reset_run<E>(t: Trace<E>, r: Result<(), Error<E>>) -> bool {
    pulse_run(PowerMode::FluxGuideReset, 18_000, Register::PMU_CMD_STATUS_0_FGR, t, r)
}

/// The end of a magnetic reset: a device that was in normal mode returns there.
pub open spec fn restore_run<E>(normal: bool, t: Trace<E>, r: Result<(), Error<E>>) -> bool {
    if normal {
        switch_run(PowerMode::Normal, t, r)
    } else {
        t.len() == 0 && r == Ok::<(), Error<E>>(())
    }
}

/// The flux guide reset and the end.
pub open spec fn after_bit_reset_run<E>(
    normal: bool,
    t: Trace<E>,
    r: Result<(), Error<E>>,
) -> bool {
    ||| r is Err && flux_guide_reset_run(t, r)
    ||| exists|a: Trace<E>, b: Trace<E>|
        t == a + b && #[trigger] flux_guide_reset_run(a, Ok(())) && #[trigger] restore_run(
            normal,
            b,
            r,
        )
}

/// Both resets and the end.
pub open spec fn after_enter_run<E>(normal: bool, t: Trace<E>, r: Result<(), Error<E>>) -> bool {
    ||| r is Err && bit_reset_run(t, r)
    ||| exists|a: Trace<E>, b: Trace<E>|
        t == a + b && #[trigger] bit_reset_run(a, Ok(())) && #[trigger] after_bit_reset_run(
            normal,
            b,
            r,
        )
}

/// A magnetic reset: bit reset and flux guide reset, in suspend mode.
pub open spec fn reset_run<E>(t: Trace<E>, r: Result<(), Error<E>>) -> bool {
    ||| r is Err && enter_run(t, Err(r->Err_0))
    ||| exists|normal: bool, a: Trace<E>, b: Trace<E>|
        t == a + b && #[trigger] enter_run(a, Ok(normal)) && #[trigger] after_enter_run(
            normal,
            b,
            r,
        )
}

/// Readings of the memory's status, with a pause before each.
pub open spec fn otp_polls<E>(statuses: Seq<u8>) -> Trace<E>
    decreases statuses.len(),
{
    if statuses.len() == 0 {
        Seq::empty()
    } else {
        otp_polls::<E>(statuses.drop_last()) + seq![
            trace::paused::<E>(300),
            trace::read::<E>(Register::OTP_STATUS_REG, Ok(statuses.last())),
        ]
    }
}

/// The events of the readings of the memory's status.
pub proof fn lemma_otp_polls<E>(statuses: Seq<u8>)
    ensures
        otp_polls::<E>(statuses).len() == 2 * statuses.len(),
        forall|i: int|
            0 <= i < statuses.len() ==> {
                &&& otp_polls::<E>(statuses)[2 * i] == trace::paused::<E>(300)
                &&& otp_polls::<E>(statuses)[2 * i + 1] == trace::read::<E>(
                    Register::OTP_STATUS_REG,
                    Ok(#[trigger] statuses[i]),
                )
            },
    decreases statuses.len(),
{
    if statuses.len() > 0 {
        let less = statuses.drop_last();
        lemma_otp_polls::<E>(less);
        assert forall|i: int| 0 <= i < statuses.len() implies {
            &&& otp_polls::<E>(statuses)[2 * i] == trace::paused::<E>(300)
            &&& otp_polls::<E>(statuses)[2 * i + 1] == trace::read::<E>(
                Register::OTP_STATUS_REG,
                Ok(#[trigger] statuses[i]),
            )
        } by {
            if i < less.len() {
                assert(less[i] == statuses[i]);
            }
        }
    }
}

/// The memory's status is read until it is complete, but no more than
/// [`OTP_POLLS`] times; `statuses` came back.
pub open spec fn otp_waited<E>(statuses: Seq<u8>, t: Trace<E>, r: Result<(), Error<E>>) -> bool {
    match r {
        Ok(_) => {
            &&& 0 < statuses.len() <= OTP_POLLS
            &&& forall|i: int|
                0 <= i < statuses.len() - 1 ==> !codec::otp_done(#[trigger] statuses[i])
            &&& statuses.len() == OTP_POLLS || codec::otp_done(statuses.last())
            &&& t == otp_polls::<E>(statuses)
        },
        Err(e) => {
            &&& statuses.len() < OTP_POLLS
            &&& forall|i: int| 0 <= i < statuses.len() ==> !codec::otp_done(#[trigger] statuses[i])
            &&& t == otp_polls::<E>(statuses) + seq![
                trace::paused::<E>(300),
                trace::read::<E>(Register::OTP_STATUS_REG, Err(e)),
            ]
        },
    }
}

/// The memory completes a reading, or the driver stops waiting for it.
pub open spec fn otp_wait_run<E>(t: Trace<E>, r: Result<(), Error<E>>) -> bool {
    exists|statuses: Seq<u8>| #[trigger] otp_waited(statuses, t, r)
}

/// The two bytes of a word are read.
pub open spec fn otp_data_run<E>(t: Trace<E>, r: Result<u16, Error<E>>) -> bool {
    match r {
        Ok(value) => exists|msb: u8, lsb: u8|
            t == seq![
                #[trigger] trace::read::<E>(Register::OTP_DATA_MSB_REG, Ok(msb)),
                #[trigger] trace::read::<E>(Register::OTP_DATA_LSB_REG, Ok(lsb)),
            ] && value == codec::word(msb, lsb),
        Err(e) => {
            ||| t == seq![trace::read::<E>(Register::OTP_DATA_MSB_REG, Err(e))]
            ||| exists|msb: u8|
                t == seq![
                    #[trigger] trace::read::<E>(Register::OTP_DATA_MSB_REG, Ok(msb)),
                    trace::read::<E>(Register::OTP_DATA_LSB_REG, Err(e)),
                ]
        },
    }
}

/// What follows the command to read a word.
pub open spec fn otp_fetch_run<E>(t: Trace<E>, r: Result<u16, Error<E>>) -> bool {
    ||| r is Err && otp_wait_run(t, Err(r->Err_0))
    ||| exists|a: Trace<E>, b: Trace<E>|
        t == a + b && #[trigger] otp_wait_run(a, Ok(())) && #[trigger] otp_data_run(b, r)
}

/// The word at `addr` is read.
pub open spec fn otp_word_run<E>(addr: u8, t: Trace<E>, r: Result<u16, Error<E>>) -> bool {
    ||| r is Err && t == seq![
        trace::wrote::<E>(Register::OTP_CMD_REG, codec::otp_read_command(addr), Err(r->Err_0)),
    ]
    ||| exists|tail: Trace<E>|
        t == seq![
            trace::wrote::<E>(Register::OTP_CMD_REG, codec::otp_read_command(addr), Ok(())),
        ] + tail && #[trigger] otp_fetch_run(tail, r)
}

/// `words` are read, from address 0 on.
pub open spec fn otp_words_run<E>(words: Seq<u16>, t: Trace<E>) -> bool
    decreases words.len(),
{
    if words.len() == 0 {
        t.len() == 0
    } else {
        exists|a: Trace<E>, b: Trace<E>|
            t == #[trigger] (a + b) && otp_words_run(words.drop_last(), a) && otp_word_run(
                (words.len() - 1) as u8,
                b,
                Ok(words.last()),
            )
    }
}

/// The whole memory is read.
pub open spec fn otp_dump_run<E>(t: Trace<E>, r: Result<Seq<u16>, Error<E>>) -> bool {
    match r {
        Ok(words) => words.len() == OTP_WORDS && otp_words_run(words, t),
        Err(e) => exists|words: Seq<u16>, a: Trace<E>, b: Trace<E>|
            t == a + b && words.len() < OTP_WORDS && #[trigger] otp_words_run(words, a)
                && #[trigger] otp_word_run(words.len() as u8, b, Err(e)),
    }
}

/// What the driver keeps of the memory.
pub open spec fn calibration_of(words: Seq<u16>) -> Calibration {
    Calibration { var_id: codec::variant_of(words), mag_comp: codec::offsets_of(words) }
}

/// The memory is read and what it says is kept.
pub open spec fn boot_run<E>(
    before: Calibration,
    after: Calibration,
    t: Trace<E>,
    r: Result<(), Error<E>>,
) -> bool {
    match r {
        Ok(_) => exists|words: Seq<u16>| #[trigger]
            otp_dump_run(t, Ok(words)) && after == calibration_of(words),
        Err(e) => otp_dump_run(t, Err(e)) && after == before,
    }
}

/// The end of the initialization: the memory is powered off, and the sensor is
/// reset.
pub open spec fn after_boot_run<E>(t: Trace<E>, r: Result<(), Error<E>>) -> bool {
    ||| r is Err && t == seq![
        trace::wrote::<E>(Register::OTP_CMD_REG, Register::OTP_CMD_PWR_OFF_OTP, Err(r->Err_0)),
    ]
    ||| exists|tail: Trace<E>|
        t == seq![
            trace::wrote::<E>(Register::OTP_CMD_REG, Register::OTP_CMD_PWR_OFF_OTP, Ok(())),
        ] + tail && #[trigger] reset_run(tail, r)
}

/// What follows the identification of the device.
pub open spec fn setup_run<E>(
    before: Calibration,
    after: Calibration,
    t: Trace<E>,
    r: Result<(), Error<E>>,
) -> bool {
    ||| r is Err && boot_run(before, after, t, r)
    ||| exists|a: Trace<E>, b: Trace<E>|
        t == a + b && #[trigger] boot_run(before, after, a, Ok(()))
            && #[trigger] after_boot_run(b, r)
}

/// The soft reset and the identification; `id` came back.
pub open spec fn greeting<E>(id: Result<u8, Error<E>>) -> Trace<E> {
    seq![
        trace::paused::<E>(3_000),
        trace::wrote_word::<E>(Register::CMD, Register::CMD_SOFT_RESET, Ok(())),
        trace::paused::<E>(24_000),
        trace::read::<E>(Register::CHIPID, id),
    ]
}

/// The initialization.
pub open spec fn init_run<E>(
    before: Calibration,
    after: Calibration,
    t: Trace<E>,
    r: Result<(), Error<E>>,
) -> bool {
    ||| {
        &&& r is Err
        &&& after == before
        &&& {
            ||| t == seq![
                trace::paused::<E>(3_000),
                trace::wrote_word::<E>(Register::CMD, Register::CMD_SOFT_RESET, Err(r->Err_0)),
            ]
            ||| t == greeting::<E>(Err(r->Err_0))
            ||| r->Err_0 == Error::<E>::InvalidDevice && exists|id: u8|
                id != Register::BMM350_CHIP_ID && t == #[trigger] greeting::<E>(Ok(id))
        }
    }
    ||| exists|tail: Trace<E>|
        t == greeting::<E>(Ok(Register::BMM350_CHIP_ID)) + tail && #[trigger] setup_run(
            before,
            after,
            tail,
            r,
        )
}

/// Readings of the interrupt status that show no data, with a pause after each.
pub open spec fn ready_polls<E>(statuses: Seq<u8>) -> Trace<E>
    decreases statuses.len(),
{
    if statuses.len() == 0 {
        Seq::empty()
    } else {
        ready_polls::<E>(statuses.drop_last()) + seq![
            trace::read::<E>(Register::STATUS, Ok(statuses.last())),
            trace::paused::<E>(1_000),
        ]
    }
}

/// The events of the readings of the interrupt status.
pub proof fn lemma_ready_polls<E>(statuses: Seq<u8>)
    ensures
        ready_polls::<E>(statuses).len() == 2 * statuses.len(),
        forall|i: int|
            0 <= i < statuses.len() ==> {
                &&& ready_polls::<E>(statuses)[2 * i] == trace::read::<E>(
                    Register::STATUS,
                    Ok(#[trigger] statuses[i]),
                )
                &&& ready_polls::<E>(statuses)[2 * i + 1] == trace::paused::<E>(1_000)
            },
    decreases statuses.len(),
{
    if statuses.len() > 0 {
        let less = statuses.drop_last();
        lemma_ready_polls::<E>(less);
        assert forall|i: int| 0 <= i < statuses.len() implies {
            &&& ready_polls::<E>(statuses)[2 * i] == trace::read::<E>(
                Register::STATUS,
                Ok(#[trigger] statuses[i]),
            )
            &&& ready_polls::<E>(statuses)[2 * i + 1] == trace::paused::<E>(1_000)
        } by {
            if i < less.len() {
                assert(less[i] == statuses[i]);
            }
        }
    }
}

/// The interrupt status is read until data is ready, but no more than
/// [`READY_POLLS`] times; `statuses` came back before that and show no data.
pub open spec fn ready_waited<E>(statuses: Seq<u8>, t: Trace<E>, r: Result<(), Error<E>>) -> bool {
    &&& forall|i: int| 0 <= i < statuses.len() ==> !codec::data_ready(#[trigger] statuses[i])
    &&& match r {
        Ok(_) => {
            &&& statuses.len() < READY_POLLS
            &&& exists|last: u8|
                codec::data_ready(last) && t == ready_polls::<E>(statuses) + seq![
                    #[trigger] trace::read::<E>(Register::STATUS, Ok(last)),
                ]
        },
        Err(e) => {
            ||| statuses.len() == READY_POLLS && t == ready_polls::<E>(statuses) && e == Error::<
                E,
            >::Timeout
            ||| statuses.len() < READY_POLLS && t == ready_polls::<E>(statuses) + seq![
                trace::read::<E>(Register::STATUS, Err(e)),
            ]
        },
    }
}

/// Data becomes ready, or the driver gives up.
pub open spec fn ready_run<E>(t: Trace<E>, r: Result<(), Error<E>>) -> bool {
    exists|statuses: Seq<u8>| #[trigger] ready_waited(statuses, t, r)
}

/// The interrupt status is read.
pub open spec fn interrupt_status_run<E>(t: Trace<E>, r: Result<bool, Error<E>>) -> bool {
    match r {
        Ok(ready) => exists|status: u8|
            t == seq![#[trigger] trace::read::<E>(Register::STATUS, Ok(status))] && ready
                == codec::data_ready(status),
        Err(e) => t == seq![trace::read::<E>(Register::STATUS, Err(e))],
    }
}

/// The magnetometer is configured, and data is waited for.
pub open spec fn config_run<E>(config: MagConfig, t: Trace<E>, r: Result<(), Error<E>>) -> bool {
    ||| r is Err && t == seq![
        trace::wrote_word::<E>(Register::PMU_CMD_AGGR_SET, config.spec_bits(), Err(r->Err_0)),
    ]
    ||| exists|tail: Trace<E>|
        t == seq![
            trace::wrote_word::<E>(Register::PMU_CMD_AGGR_SET, config.spec_bits(), Ok(())),
        ] + tail && #[trigger] ready_run(tail, r)
}

/// One byte is written.
pub open spec fn write_run<E>(
    register: u8,
    value: u8,
    t: Trace<E>,
    r: Result<(), Error<E>>,
) -> bool {
    t == seq![trace::wrote::<E>(register, value, r)]
}

/// The interrupt control register is read and set to `value`.
pub open spec fn interrupt_control_run<E>(
    value: u8,
    t: Trace<E>,
    r: Result<(), Error<E>>,
) -> bool {
    ||| r is Err && t == seq![trace::read::<E>(Register::INT_CTRL, Err(r->Err_0))]
    ||| exists|previous: u8|
        t == seq![
            #[trigger] trace::read::<E>(Register::INT_CTRL, Ok(previous)),
            trace::wrote::<E>(Register::INT_CTRL, value, r),
        ]
}

/// The data rate and averaging byte is written, and the update command.
pub open spec fn rate_run<E>(value: u8, t: Trace<E>, r: Result<(), Error<E>>) -> bool {
    match r {
        Ok(_) => t == seq![
            trace::wrote::<E>(Register::PMU_CMD_AGGR_SET, value, Ok(())),
            trace::wrote::<E>(Register::PMU_CMD, Register::PMU_CMD_UPD_OAE, Ok(())),
            trace::paused::<E>(1_000),
        ],
        Err(e) => {
            ||| t == seq![trace::wrote::<E>(Register::PMU_CMD_AGGR_SET, value, Err(e))]
            ||| t == seq![
                trace::wrote::<E>(Register::PMU_CMD_AGGR_SET, value, Ok(())),
                trace::wrote::<E>(Register::PMU_CMD, Register::PMU_CMD_UPD_OAE, Err(e)),
            ]
        },
    }
}

/// The buffer that a measurement is read into.
pub open spec fn empty_sample() -> Seq<u8> {
    Seq::new(SAMPLE_LEN as nat, |i: int| 0u8)
}

/// A measurement is read.
pub open spec fn sample_run<E>(t: Trace<E>, r: Result<Sensor3DData, Error<E>>) -> bool {
    match r {
        Ok(data) => exists|bytes: Seq<u8>|
            bytes.len() == SAMPLE_LEN && t == seq![
                #[trigger] trace::burst::<E>(Register::MAG_X_LSB, empty_sample(), Ok(bytes)),
            ] && data == codec::sample_of(bytes),
        Err(e) => t == seq![trace::burst::<E>(Register::MAG_X_LSB, empty_sample(), Err(e))],
    }
}

/// The configuration of the self-test.
pub open spec fn self_test_config() -> MagConfig {
    MagConfig { odr: DataRate::ODR100Hz, performance: PerformanceMode::Regular }
}

/// The end of a self-test: what the two registers held is written back.
pub open spec fn self_test_restore_run<E>(
    power: u8,
    odr: u8,
    t: Trace<E>,
    r: Result<bool, Error<E>>,
) -> bool {
    match r {
        Ok(passed) => passed && t == seq![
            trace::wrote::<E>(Register::PMU_CMD, power, Ok(())),
            trace::wrote::<E>(Register::PMU_CMD_AGGR_SET, odr, Ok(())),
        ],
        Err(e) => {
            ||| t == seq![trace::wrote::<E>(Register::PMU_CMD, power, Err(e))]
            ||| t == seq![
                trace::wrote::<E>(Register::PMU_CMD, power, Ok(())),
                trace::wrote::<E>(Register::PMU_CMD_AGGR_SET, odr, Err(e)),
            ]
        },
    }
}

/// The configuration and the end of a self-test.
pub open spec fn self_test_config_run<E>(
    power: u8,
    odr: u8,
    t: Trace<E>,
    r: Result<bool, Error<E>>,
) -> bool {
    ||| r is Err && config_run(self_test_config(), t, Err(r->Err_0))
    ||| exists|a: Trace<E>, b: Trace<E>|
        t == a + b && #[trigger] config_run(self_test_config(), a, Ok(()))
            && #[trigger] self_test_restore_run(power, odr, b, r)
}

/// A self-test after the two registers were read.
pub open spec fn self_test_mode_run<E>(
    power: u8,
    odr: u8,
    t: Trace<E>,
    r: Result<bool, Error<E>>,
) -> bool {
    ||| r is Err && switch_run(PowerMode::Normal, t, Err(r->Err_0))
    ||| exists|a: Trace<E>, b: Trace<E>|
        t == a + b && #[trigger] switch_run(PowerMode::Normal, a, Ok(()))
            && #[trigger] self_test_config_run(power, odr, b, r)
}

/// A self-test.
pub open spec fn self_test_run<E>(t: Trace<E>, r: Result<bool, Error<E>>) -> bool {
    ||| r is Err && t == seq![trace::read::<E>(Register::PMU_CMD, Err(r->Err_0))]
    ||| r is Err && exists|power: u8|
        t == seq![
            #[trigger] trace::read::<E>(Register::PMU_CMD, Ok(power)),
            trace::read::<E>(Register::PMU_CMD_AGGR_SET, Err(r->Err_0)),
        ]
    ||| exists|power: u8, odr: u8, tail: Trace<E>|
        t == seq![
            trace::read::<E>(Register::PMU_CMD, Ok(power)),
            trace::read::<E>(Register::PMU_CMD_AGGR_SET, Ok(odr)),
        ] + tail && #[trigger] self_test_mode_run(power, odr, tail, r)
}

} // verus!
