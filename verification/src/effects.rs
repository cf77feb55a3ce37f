//! What each operation is for, byte by byte.
//!
//! The laws here relate the arguments and the result of an operation to the bytes
//! that went over the bus and to the time that was waited, and to nothing else:
//! addresses, codes and times are written as numbers.

use vstd::prelude::*;

use crate::codec;
use crate::interface::Transfer;
use crate::protocol;
use crate::protocol::Calibration;
use crate::register::Register;
use crate::trace;
use crate::trace::{Event, Trace};
use crate::types::{
    AverageNum, AxisEnableDisable, DataRate, Error, InterruptDrive, InterruptEnableDisable,
    InterruptLatch, InterruptMap, InterruptPolarity, MagConfig, PerformanceMode, PmuCmdStatus0,
    PowerMode, Sensor3DData,
};

verus! {

/// One byte was sent to a register.
pub open spec fn sent<E>(register: u8, value: u8, reply: Result<(), Error<E>>) -> Event<Error<E>> {
    Event::Access(Transfer::Write { bytes: seq![register, value], reply })
}

/// One byte was asked of a register.
pub open spec fn got<E>(register: u8, reply: Result<u8, Error<E>>) -> Event<Error<E>> {
    Event::Access(Transfer::Read { register, reply })
}

/// The field of an output data rate: 400 Hz is 2, and each halving adds one.
pub open spec fn rate_field(odr: DataRate) -> int {
    match odr {
        DataRate::ODR400Hz => 2,
        DataRate::ODR200Hz => 3,
        DataRate::ODR100Hz => 4,
        DataRate::ODR50Hz => 5,
        DataRate::ODR25Hz => 6,
        DataRate::ODR12_5Hz => 7,
        DataRate::ODR6_25Hz => 8,
        DataRate::ODR3_125Hz => 9,
        DataRate::ODR1_5625Hz => 10,
    }
}

/// The field of an averaging: its logarithm.
pub open spec fn averaging_field(performance: AverageNum) -> int {
    match performance {
        AverageNum::NoAverage => 0,
        AverageNum::Average2 => 1,
        AverageNum::Average4 => 2,
        AverageNum::Average8 => 3,
    }
}

/// The field of a performance mode: less noise takes more averaging.
pub open spec fn performance_field(performance: PerformanceMode) -> int {
    match performance {
        PerformanceMode::LowPower => 0,
        PerformanceMode::Regular => 1,
        PerformanceMode::LowNoise => 2,
        PerformanceMode::UltraLowNoise => 3,
    }
}

/// The axis enable register, 5, gets one byte. It has a one in bit 0, 1 or 2
/// exactly if X, Y or Z is enabled, and no other bit.
pub proof fn enable_axes_sends<E>(
    x: AxisEnableDisable,
    y: AxisEnableDisable,
    z: AxisEnableDisable,
    t: Trace<E>,
    r: Result<(), Error<E>>,
)
    requires
        protocol::write_run(Register::PMU_CMD_AXIS_EN, codec::axes_byte(x, y, z), t, r),
    ensures
        exists|b: u8|
            {
                &&& t == seq![#[trigger] sent::<E>(5, b, r)]
                &&& b < 8
                &&& (b as int % 2 == 1) == (x is Enable)
                &&& (b as int / 2 % 2 == 1) == (y is Enable)
                &&& (b as int / 4 % 2 == 1) == (z is Enable)
            },
{
    let b = codec::axes_byte(x, y, z);
    assert(t[0] == sent::<E>(5, b, r));
}

/// Two settings of the axes that send the same are the same.
pub proof fn enable_axes_differ<E>(
    a: (AxisEnableDisable, AxisEnableDisable, AxisEnableDisable),
    b: (AxisEnableDisable, AxisEnableDisable, AxisEnableDisable),
    t: Trace<E>,
    q: Result<(), Error<E>>,
    r: Result<(), Error<E>>,
)
    requires
        protocol::write_run(Register::PMU_CMD_AXIS_EN, codec::axes_byte(a.0, a.1, a.2), t, q),
        protocol::write_run(Register::PMU_CMD_AXIS_EN, codec::axes_byte(b.0, b.1, b.2), t, r),
    ensures
        a == b,
        q == r,
{
    let m = codec::axes_byte(a.0, a.1, a.2);
    let n = codec::axes_byte(b.0, b.1, b.2);
    assert(t[0] == sent::<E>(5, m, q));
    assert(t[0] == sent::<E>(5, n, r));
    assert(seq![5u8, m][1] == seq![5u8, n][1]);
}

/// The watchdog register, 10, gets one byte: bit 0 switches it on, bit 1 makes
/// its timeout long, and there is no other bit.
pub proof fn set_i2c_watchdog_sends<E>(
    enable: bool,
    long_timeout: bool,
    t: Trace<E>,
    r: Result<(), Error<E>>,
)
    requires
        protocol::write_run(
            Register::I2C_WDT_SET,
            codec::watchdog_byte(enable, long_timeout),
            t,
            r,
        ),
    ensures
        exists|b: u8|
            {
                &&& t == seq![#[trigger] sent::<E>(10, b, r)]
                &&& b < 4
                &&& (b as int % 2 == 1) == enable
                &&& (b as int / 2 == 1) == long_timeout
            },
{
    let b = codec::watchdog_byte(enable, long_timeout);
    assert(t[0] == sent::<E>(10, b, r));
}

/// The interrupt control register, 46, is asked first. A failure of that is the
/// result; after it one byte is sent, and its outcome is the result.
pub open spec fn asks_then_sends<E>(t: Trace<E>, r: Result<(), Error<E>>, b: u8) -> bool {
    &&& t.len() > 0
    &&& t[0] matches Event::Access(Transfer::Read { register, reply }) && register == 46
        && match reply {
        Ok(_) => t.len() == 2 && t[1] == sent::<E>(46, b, r),
        Err(e) => t.len() == 1 && r == Err::<(), Error<E>>(e),
    }
}

/// The interrupt control register gets one byte. Its bits 0 to 3 are ones exactly
/// if the interrupt is latched, active high, push-pull and mapped to the pin, and
/// there is no other bit.
pub proof fn configure_interrupt_sends<E>(
    latch: InterruptLatch,
    polarity: InterruptPolarity,
    drive: InterruptDrive,
    map: InterruptMap,
    t: Trace<E>,
    r: Result<(), Error<E>>,
)
    requires
        protocol::interrupt_control_run(
            codec::interrupt_byte(latch, polarity, drive, map),
            t,
            r,
        ),
    ensures
        exists|b: u8|
            {
                &&& #[trigger] asks_then_sends(t, r, b)
                &&& b < 16
                &&& (b as int % 2 == 1) == (latch is Latched)
                &&& (b as int / 2 % 2 == 1) == (polarity is ActiveHigh)
                &&& (b as int / 4 % 2 == 1) == (drive is PushPull)
                &&& (b as int / 8 == 1) == (map is MapToPin)
            },
{
    let b = codec::interrupt_byte(latch, polarity, drive, map);
    if t.len() > 1 {
        assert(t[1] == sent::<E>(46, b, r));
    }
    assert(asks_then_sends(t, r, b));
}

/// Two configurations of the interrupt that send the same are the same.
pub proof fn configure_interrupt_differ<E>(
    a: (InterruptLatch, InterruptPolarity, InterruptDrive, InterruptMap),
    b: (InterruptLatch, InterruptPolarity, InterruptDrive, InterruptMap),
    t: Trace<E>,
    r: Result<(), Error<E>>,
)
    requires
        protocol::interrupt_control_run(codec::interrupt_byte(a.0, a.1, a.2, a.3), t, r),
        protocol::interrupt_control_run(codec::interrupt_byte(b.0, b.1, b.2, b.3), t, r),
        t.len() > 1,
    ensures
        a == b,
{
    let m = codec::interrupt_byte(a.0, a.1, a.2, a.3);
    let n = codec::interrupt_byte(b.0, b.1, b.2, b.3);
    assert(t[1] == sent::<E>(46, m, r));
    assert(t[1] == sent::<E>(46, n, r));
    assert(seq![46u8, m][1] == seq![46u8, n][1]);
}

/// The interrupt control register gets 128 to enable the data ready interrupt and
/// 0 to disable it.
pub proof fn enable_interrupt_sends<E>(
    enable: InterruptEnableDisable,
    t: Trace<E>,
    r: Result<(), Error<E>>,
)
    requires
        protocol::interrupt_control_run(codec::data_ready_byte(enable), t, r),
    ensures
        asks_then_sends(
            t,
            r,
            if enable is Enable {
                128
            } else {
                0
            },
        ),
{
    let b = codec::data_ready_byte(enable);
    if t.len() > 1 {
        assert(t[1] == sent::<E>(46, b, r));
    }
}

/// The data rate and averaging register, 4, gets the rate in its low four bits
/// and the averaging in the two above. If that succeeds, the power management
/// unit, at 6, gets the update command, 2; if that succeeds too, 1 ms is waited.
pub proof fn set_odr_performance_sends<E>(
    odr: DataRate,
    performance: AverageNum,
    t: Trace<E>,
    r: Result<(), Error<E>>,
)
    requires
        protocol::rate_run(codec::rate_byte(odr, performance), t, r),
    ensures
        exists|b: u8, first: Result<(), Error<E>>|
            {
                &&& t.len() > 0
                &&& t[0] == #[trigger] sent::<E>(4, b, first)
                &&& b as int % 16 == rate_field(odr)
                &&& b as int / 16 == averaging_field(performance)
                &&& first is Err ==> t.len() == 1 && r == first
                &&& first is Ok && r is Err ==> t.len() == 2 && t[1] == sent::<E>(6, 2, r)
                &&& first is Ok && r is Ok ==> t.len() == 3 && t[1] == sent::<E>(6, 2, Ok(()))
                    && t[2] == Event::<Error<E>>::Pause(1_000)
            },
{
    let b = codec::rate_byte(odr, performance);
    let first = if t.len() == 1 {
        r
    } else {
        Ok(())
    };
    assert(t[0] == sent::<E>(4, b, first));
}

/// The interrupt status, at 48, is asked once, and bit 2 of it is the result.
pub proof fn get_interrupt_status_tells<E>(t: Trace<E>, r: Result<bool, Error<E>>)
    requires
        protocol::interrupt_status_run(t, r),
    ensures
        t.len() == 1,
        t[0] matches Event::Access(Transfer::Read { register, reply }) && register == 48
            && match reply {
            Ok(s) => r == Ok::<bool, Error<E>>(s as int / 4 % 2 == 1),
            Err(e) => r == Err::<bool, Error<E>>(e),
        },
{
}

/// Nine bytes are asked of the registers from 49 on, into a buffer of zeros. Each
/// component of the result is a signed number of 24 bits that agrees with its
/// three bytes, the lowest first, up to a multiple of 2 to the 24.
pub proof fn read_mag_data_tells<E>(t: Trace<E>, r: Result<Sensor3DData, Error<E>>)
    requires
        protocol::sample_run(t, r),
    ensures
        t.len() == 1,
        t[0] matches Event::Access(Transfer::Burst { register, buffer, reply }) && register == 49
            && buffer == seq![0u8, 0, 0, 0, 0, 0, 0, 0, 0] && match (reply, r) {
            (Ok(b), Ok(data)) => {
                &&& b.len() == 9
                &&& -0x800000 <= data.x < 0x800000
                &&& -0x800000 <= data.y < 0x800000
                &&& -0x800000 <= data.z < 0x800000
                &&& data.x as int % 0x1000000 == b[0] + 256 * b[1] + 65536 * b[2]
                &&& data.y as int % 0x1000000 == b[3] + 256 * b[4] + 65536 * b[5]
                &&& data.z as int % 0x1000000 == b[6] + 256 * b[7] + 65536 * b[8]
            },
            (Err(e), Err(f)) => e == f,
            _ => false,
        },
{
    assert(protocol::empty_sample() =~= seq![0u8, 0, 0, 0, 0, 0, 0, 0, 0]);
    if let Ok(data) = r {
        let b = choose|b: Seq<u8>|
            b.len() == 9 && t == seq![
                #[trigger] trace::burst::<E>(49, protocol::empty_sample(), Ok(b)),
            ] && data == codec::sample_of(b);
        assert(t[0] == trace::burst::<E>(49, protocol::empty_sample(), Ok(b)));
        codec::bytes_survive(b[0], b[1], b[2]);
        codec::bytes_survive(b[3], b[4], b[5]);
        codec::bytes_survive(b[6], b[7], b[8]);
    }
}

/// A device that sends the three numbers of a measurement in two's complement,
/// the lowest byte first, is understood.
pub proof fn measurements_survive<E>(
    register: u8,
    buffer: Seq<u8>,
    b: Seq<u8>,
    x: i32,
    y: i32,
    z: i32,
    t: Trace<E>,
    r: Result<Sensor3DData, Error<E>>,
)
    requires
        protocol::sample_run(t, r),
        t[0] == Event::<Error<E>>::Access(Transfer::Burst { register, buffer, reply: Ok(b) }),
        -0x800000 <= x < 0x800000,
        -0x800000 <= y < 0x800000,
        -0x800000 <= z < 0x800000,
        b[0] + 256 * b[1] + 65536 * b[2] == x as int % 0x1000000,
        b[3] + 256 * b[4] + 65536 * b[5] == y as int % 0x1000000,
        b[6] + 256 * b[7] + 65536 * b[8] == z as int % 0x1000000,
    ensures
        r == Ok::<Sensor3DData, Error<E>>(Sensor3DData { x, y, z }),
{
    read_mag_data_tells(t, r);
}

/// The fields of the status at 7 are its bits: five single bits from the lowest
/// on, and the last command in the three highest.
pub proof fn read_pmu_cmd_status_0_tells<E>(t: Trace<E>, r: Result<PmuCmdStatus0, Error<E>>)
    requires
        protocol::status_run(t, r),
    ensures
        t.len() == 1,
        t[0] matches Event::Access(Transfer::Read { register, reply }) && register == 7 && match (
            reply,
            r,
        ) {
            (Ok(s), Ok(f)) => {
                &&& f.pmu_cmd_busy < 2
                &&& f.odr_overwrite < 2
                &&& f.avg_overwrite < 2
                &&& f.power_mode_is_normal < 2
                &&& f.cmd_is_illegal < 2
                &&& s == f.pmu_cmd_busy + 2 * f.odr_overwrite + 4 * f.avg_overwrite + 8
                    * f.power_mode_is_normal + 16 * f.cmd_is_illegal + 32 * f.pmu_cmd_value
            },
            (Err(e), Err(f)) => e == f,
            _ => false,
        },
{
    if let Ok(f) = r {
        let s = choose|s: u8|
            t == seq![#[trigger] trace::read::<E>(7, Ok(s))] && f == codec::pmu_status_of(s);
        assert(t[0] == trace::read::<E>(7, Ok(s)));
        codec::pmu_status_survives(s);
    }
}

/// A wait for data asks the interrupt status, at 48, and waits 1 ms after each
/// answer without bit 2. The first answer with bit 2 ends it well, a failure ends
/// it with its error, and a hundred answers without the bit end it with a timeout.
pub proof fn wait_for_data_ready_tells<E>(t: Trace<E>, r: Result<(), Error<E>>)
    requires
        protocol::ready_run(t, r),
    ensures
        0 < t.len() <= 200,
        forall|i: int|
            0 <= i < t.len() && i % 2 == 0 ==> (#[trigger] t[i] matches Event::Access(
                Transfer::Read { register, reply },
            ) && register == 48 && match reply {
                Ok(s) => if s as int / 4 % 2 == 1 {
                    i + 1 == t.len() && r == Ok::<(), Error<E>>(())
                } else {
                    i + 1 < t.len()
                },
                Err(e) => i + 1 == t.len() && r == Err::<(), Error<E>>(e),
            }),
        forall|i: int|
            0 <= i < t.len() && i % 2 == 1 ==> #[trigger] t[i] == Event::<Error<E>>::Pause(1_000),
        t.len() % 2 == 0 ==> t.len() == 200 && r == Err::<(), Error<E>>(Error::Timeout),
{
    let statuses = choose|statuses: Seq<u8>| #[trigger] protocol::ready_waited(statuses, t, r);
    let polls = protocol::ready_polls::<E>(statuses);
    protocol::lemma_ready_polls::<E>(statuses);
    if r is Ok {
        let last = choose|last: u8|
            codec::data_ready(last) && t == polls + seq![
                #[trigger] trace::read::<E>(Register::STATUS, Ok(last)),
            ];
        assert(t.last() == trace::read::<E>(Register::STATUS, Ok(last)));
        assert(r->Ok_0 == ());
    }
    assert forall|i: int| 0 <= i < t.len() && i % 2 == 0 implies (
    #[trigger] t[i] matches Event::Access(Transfer::Read { register, reply }) && register == 48
        && match reply {
        Ok(s) => if s as int / 4 % 2 == 1 {
            i + 1 == t.len() && r == Ok::<(), Error<E>>(())
        } else {
            i + 1 < t.len()
        },
        Err(e) => i + 1 == t.len() && r == Err::<(), Error<E>>(e),
    }) by {
        if i < polls.len() {
            let status = statuses[i / 2];
            assert(i == 2 * (i / 2));
            assert(t[i] == polls[i]);
        }
    }
    assert forall|i: int| 0 <= i < t.len() && i % 2 == 1 implies #[trigger] t[i] == Event::<
        Error<E>,
    >::Pause(1_000) by {
        let status = statuses[i / 2];
        assert(i == 2 * (i / 2) + 1);
        assert(t[i] == polls[i]);
    }
}

/// The registers 4 and 5 get two bytes in one frame: the rate in the low four
/// bits and the averaging of the performance mode above, then zero. A failure of
/// that is the result; after it data is waited for.
pub proof fn set_mag_config_sends<E>(config: MagConfig, t: Trace<E>, r: Result<(), Error<E>>)
    requires
        protocol::config_run(config, t, r),
    ensures
        t.len() > 0,
        t[0] matches Event::Access(Transfer::Write { bytes, reply }) && {
            &&& bytes.len() == 3
            &&& bytes[0] == 4
            &&& bytes[1] as int % 16 == rate_field(config.odr)
            &&& bytes[1] as int / 16 == performance_field(config.performance)
            &&& bytes[2] == 0
            &&& match reply {
                Ok(_) => protocol::ready_run(t.skip(1), r),
                Err(e) => t.len() == 1 && r == Err::<(), Error<E>>(e),
            }
        },
{
    let bits = config.spec_bits();
    if r is Err && t == seq![
        trace::wrote_word::<E>(Register::PMU_CMD_AGGR_SET, bits, Err(r->Err_0)),
    ] {
        assert(t[0] == trace::wrote_word::<E>(Register::PMU_CMD_AGGR_SET, bits, Err(r->Err_0)));
    } else {
        let first = seq![trace::wrote_word::<E>(Register::PMU_CMD_AGGR_SET, bits, Ok(()))];
        let tail = choose|tail: Trace<E>|
            t == first + tail && #[trigger] protocol::ready_run(tail, r);
        assert(t[0] == first[0]);
        assert(t.skip(1) =~= tail);
    }
}

/// Two configurations that send the same are the same.
pub proof fn set_mag_config_differ<E>(
    a: MagConfig,
    b: MagConfig,
    s: Trace<E>,
    q: Result<(), Error<E>>,
    t: Trace<E>,
    r: Result<(), Error<E>>,
)
    requires
        protocol::config_run(a, s, q),
        protocol::config_run(b, t, r),
        s[0] == t[0],
    ensures
        a == b,
{
    set_mag_config_sends(a, s, q);
    set_mag_config_sends(b, t, r);
}

/// The command of a power mode.
pub open spec fn mode_field(mode: PowerMode) -> u8 {
    match mode {
        PowerMode::Suspend => 0,
        PowerMode::Normal => 1,
        PowerMode::Forced => 3,
        PowerMode::ForcedFast => 4,
        PowerMode::FluxGuideReset => 5,
        PowerMode::BitReset => 7,
    }
}

/// The time to enter a power mode with an averaging, in microseconds: one wait
/// for normal mode, one for each averaging for the forced modes, none for others.
pub open spec fn mode_time(mode: PowerMode, averaging: int) -> nat {
    match mode {
        PowerMode::Normal => 38_000,
        PowerMode::Forced => seq![15_000nat, 17_000, 20_000, 28_000][averaging],
        PowerMode::ForcedFast => seq![4_000nat, 5_000, 9_000, 16_000][averaging],
        _ => 0,
    }
}

/// The power management unit, at 6, gets the command of the mode. Then the
/// averaging is asked, in bits 4 and 5 of 4, and the time that the mode takes with
/// it is waited out. A failure is the result.
pub proof fn power_mode_sends<E>(mode: PowerMode, t: Trace<E>, r: Result<(), Error<E>>)
    requires
        protocol::mode_run(mode, t, r),
    ensures
        t.len() > 0,
        t[0] matches Event::Access(Transfer::Write { bytes, reply }) && bytes == seq![
            6u8,
            mode_field(mode),
        ] && match reply {
            Err(e) => t.len() == 1 && r == Err::<(), Error<E>>(e),
            Ok(_) => t.len() > 1 && (t[1] matches Event::Access(Transfer::Read { register, reply })
                && register == 4 && match reply {
                Err(e) => t.len() == 2 && r == Err::<(), Error<E>>(e),
                Ok(set) => t.len() == 3 && t[2] == Event::<Error<E>>::Pause(
                    mode_time(mode, set as int / 16 % 4),
                ) && r == Ok::<(), Error<E>>(()),
            }),
        },
{
    if r is Ok {
        let set = choose|set: u8|
            t == seq![
                trace::wrote::<E>(Register::PMU_CMD, mode.spec_code(), Ok(())),
                #[trigger] trace::read::<E>(Register::PMU_CMD_AGGR_SET, Ok(set)),
                trace::paused::<E>(codec::settle_time(mode, set) as nat),
            ];
        assert(t[1] == got::<E>(4, Ok(set)));
        assert(r->Ok_0 == ());
    }
}

/// The last command is asked of the power management unit. One above 9 is
/// refused, with nothing sent. After 1 and 2 the unit first gets the command to
/// suspend, 0, and 6 ms. Then the mode is entered. A failure is the result.
pub proof fn set_power_mode_sends<E>(mode: PowerMode, t: Trace<E>, r: Result<(), Error<E>>)
    requires
        protocol::switch_run(mode, t, r),
    ensures
        t.len() > 0,
        t[0] matches Event::Access(Transfer::Read { register, reply }) && register == 6
            && match reply {
            Err(e) => t.len() == 1 && r == Err::<(), Error<E>>(e),
            Ok(last) => if last > 9 {
                t.len() == 1 && r == Err::<(), Error<E>>(Error::InvalidConfig)
            } else if last == 1 || last == 2 {
                t.len() > 1 && (t[1] matches Event::Access(Transfer::Write { bytes, reply })
                    && bytes == seq![6u8, 0u8] && match reply {
                    Err(e) => t.len() == 2 && r == Err::<(), Error<E>>(e),
                    Ok(_) => t.len() > 3 && t[2] == Event::<Error<E>>::Pause(6_000)
                        && protocol::mode_run(mode, t.skip(3), r),
                })
            } else {
                protocol::mode_run(mode, t.skip(1), r)
            },
        },
{
    if !(r is Err && t == seq![trace::read::<E>(Register::PMU_CMD, Err(r->Err_0))]) {
        let last = choose|last: u8| #[trigger] protocol::switch_from_run(last, mode, t, r);
        assert(t[0] == got::<E>(6, Ok(last)));
        if last <= 9 {
            let lead = protocol::mode_prelude::<E>(last);
            if exists|tail: Trace<E>|
                t == lead + tail && #[trigger] protocol::mode_run(mode, tail, r) {
                let tail = choose|tail: Trace<E>|
                    t == lead + tail && #[trigger] protocol::mode_run(mode, tail, r);
                power_mode_sends(mode, tail, r);
                assert(t.skip(lead.len() as int) =~= tail);
                if last == 1 || last == 2 {
                    assert(t[1] == lead[1]);
                    assert(t[2] == lead[2]);
                }
            }
        }
    }
}

/// A change of mode that no failed access ended succeeds exactly if the last
/// command was 9 or less.
pub proof fn set_power_mode_succeeds<E>(
    mode: PowerMode,
    last: u8,
    t: Trace<E>,
    r: Result<(), Error<E>>,
)
    requires
        protocol::switch_run(mode, t, r),
        t[0] == got::<E>(6, Ok(last)),
        trace::fault(t.last()) is None,
    ensures
        r is Ok <==> last <= 9,
{
    set_power_mode_sends(mode, t, r);
    if last <= 9 {
        let k: int = if last == 1 || last == 2 {
            3
        } else {
            1
        };
        let u = t.skip(k);
        if k == 3 {
            assert(t[1] == t.last() || t.len() > 3);
        }
        power_mode_sends(mode, u, r);
        assert(u.last() == t.last());
    }
}

proof fn lemma_pulse<E>(
    command: PowerMode,
    us: nat,
    confirmation: u8,
    t: Trace<E>,
    r: Result<(), Error<E>>,
)
    requires
        protocol::pulse_run(command, us, confirmation, t, r),
    ensures
        t.len() > 0,
        t[0] matches Event::Access(Transfer::Write { bytes, reply }) && bytes == seq![
            6u8,
            mode_field(command),
        ] && match reply {
            Err(e) => t.len() == 1 && r == Err::<(), Error<E>>(e),
            Ok(_) => t.len() == 3 && t[1] == Event::<Error<E>>::Pause(us) && (
            t[2] matches Event::Access(Transfer::Read { register, reply }) && register == 7
                && match reply {
                Err(e) => r == Err::<(), Error<E>>(e),
                Ok(s) => if s as int / 32 == confirmation {
                    r == Ok::<(), Error<E>>(())
                } else {
                    r == Err::<(), Error<E>>(Error::ResetUnfinished)
                },
            }),
        },
{
    if r is Ok {
        let status = choose|status: u8|
            t == seq![
                trace::wrote::<E>(Register::PMU_CMD, command.spec_code(), Ok(())),
                trace::paused::<E>(us),
                #[trigger] trace::read::<E>(Register::PMU_CMD_STATUS_0, Ok(status)),
            ] && status as int / 32 == confirmation;
        assert(t[2] == got::<E>(7, Ok(status)));
        assert(r->Ok_0 == ());
    }
}

/// The bit reset: the power management unit gets 7, 14 ms are waited out, and the
/// highest three bits of the status at 7 must then be 7. Any other status leaves
/// the reset unfinished. A failure is the result.
pub proof fn bit_reset_sends<E>(t: Trace<E>, r: Result<(), Error<E>>)
    requires
        protocol::bit_reset_run(t, r),
    ensures
        t.len() > 0,
        t[0] matches Event::Access(Transfer::Write { bytes, reply }) && bytes == seq![6u8, 7u8]
            && match reply {
            Err(e) => t.len() == 1 && r == Err::<(), Error<E>>(e),
            Ok(_) => t.len() == 3 && t[1] == Event::<Error<E>>::Pause(14_000) && (
            t[2] matches Event::Access(Transfer::Read { register, reply }) && register == 7
                && match reply {
                Err(e) => r == Err::<(), Error<E>>(e),
                Ok(s) => if s as int / 32 == 7 {
                    r == Ok::<(), Error<E>>(())
                } else {
                    r == Err::<(), Error<E>>(Error::ResetUnfinished)
                },
            }),
        },
{
    lemma_pulse(PowerMode::BitReset, 14_000, Register::PMU_CMD_STATUS_0_BR, t, r);
}

/// The flux guide reset: the power management unit gets 5, 18 ms are waited out,
/// and the highest three bits of the status at 7 must then be 5. Any other status
/// leaves the reset unfinished. A failure is the result.
pub proof fn flux_guide_reset_sends<E>(t: Trace<E>, r: Result<(), Error<E>>)
    requires
        protocol::flux_guide_reset_run(t, r),
    ensures
        t.len() > 0,
        t[0] matches Event::Access(Transfer::Write { bytes, reply }) && bytes == seq![6u8, 5u8]
            && match reply {
            Err(e) => t.len() == 1 && r == Err::<(), Error<E>>(e),
            Ok(_) => t.len() == 3 && t[1] == Event::<Error<E>>::Pause(18_000) && (
            t[2] matches Event::Access(Transfer::Read { register, reply }) && register == 7
                && match reply {
                Err(e) => r == Err::<(), Error<E>>(e),
                Ok(s) => if s as int / 32 == 5 {
                    r == Ok::<(), Error<E>>(())
                } else {
                    r == Err::<(), Error<E>>(Error::ResetUnfinished)
                },
            }),
        },
{
    lemma_pulse(PowerMode::FluxGuideReset, 18_000, Register::PMU_CMD_STATUS_0_FGR, t, r);
}

/// A change to suspend or normal mode gives no reset command.
proof fn lemma_quiet<E>(mode: PowerMode, t: Trace<E>, r: Result<(), Error<E>>, c: u8, i: int)
    requires
        protocol::switch_run(mode, t, r),
        mode is Suspend || mode is Normal,
        c >= 2,
        0 <= i < t.len(),
    ensures
        t[i] != sent::<E>(6, c, Ok(())),
{
    set_power_mode_sends(mode, t, r);
    assert(seq![6u8, c][1] == c);
    assert(seq![6u8, 0u8][1] == 0);
    assert(seq![6u8, mode_field(mode)][1] == mode_field(mode));
    if let Event::Access(Transfer::Read { register, reply }) = t[0] {
        if let Ok(last) = reply {
            if last <= 9 {
                let k: int = if last == 1 || last == 2 {
                    3
                } else {
                    1
                };
                if t.len() >= k {
                    let u = t.skip(k);
                    if protocol::mode_run(mode, u, r) {
                        power_mode_sends(mode, u, r);
                        if i >= k {
                            assert(t[i] == u[i - k]);
                        }
                    }
                }
            }
        }
    }
}

/// The status at 7 is asked first. If its bit 3 shows normal mode, the device is
/// suspended. The bit reset follows, at the returned index, and the flux guide
/// reset after it. A device that was in normal mode is put back there. What ends
/// one of these ends the magnetic reset.
pub proof fn magnetic_reset_sends<E>(t: Trace<E>, r: Result<(), Error<E>>) -> (k: int)
    requires
        protocol::reset_run(t, r),
    ensures
        t.len() > 0,
        t[0] matches Event::Access(Transfer::Read { register, reply }) && register == 7
            && match reply {
            Err(e) => k == 1 && t.len() == 1 && r == Err::<(), Error<E>>(e),
            Ok(status) => {
                let normal = status as int / 8 % 2 == 1;
                ||| k == t.len() && normal && r is Err && protocol::switch_run(
                    PowerMode::Suspend,
                    t.skip(1),
                    r,
                )
                ||| {
                    &&& 1 <= k < t.len()
                    &&& if normal {
                        protocol::switch_run::<E>(PowerMode::Suspend, t.subrange(1, k), Ok(()))
                    } else {
                        k == 1
                    }
                    &&& {
                        ||| r is Err && protocol::bit_reset_run(t.skip(k), r)
                        ||| k + 3 < t.len() && protocol::bit_reset_run::<E>(
                            t.subrange(k, k + 3),
                            Ok(()),
                        ) && {
                            ||| r is Err && protocol::flux_guide_reset_run(t.skip(k + 3), r)
                            ||| k + 6 <= t.len() && protocol::flux_guide_reset_run::<E>(
                                t.subrange(k + 3, k + 6),
                                Ok(()),
                            ) && if normal {
                                protocol::switch_run(PowerMode::Normal, t.skip(k + 6), r)
                            } else {
                                t.len() == k + 6 && r == Ok::<(), Error<E>>(())
                            }
                        }
                    }
                }
            },
        },
{
    if r is Err && protocol::enter_run::<E>(t, Err(r->Err_0)) {
        if t == seq![trace::read::<E>(Register::PMU_CMD_STATUS_0, Err(r->Err_0))] {
            assert(t[0] == got::<E>(7, Err(r->Err_0)));
            1
        } else {
            let er = Err::<bool, Error<E>>(r->Err_0);
            let status = choose|status: u8| #[trigger] protocol::enter_from_run(status, t, er);
            let first = seq![trace::read::<E>(Register::PMU_CMD_STATUS_0, Ok(status))];
            let tail = choose|tail: Trace<E>|
                t == first + tail && #[trigger] protocol::suspend_run(tail, er);
            assert(t[0] == got::<E>(7, Ok(status)));
            assert(t.skip(1) =~= tail);
            t.len() as int
        }
    } else {
        let (normal, a, b) = choose|normal: bool, a: Trace<E>, b: Trace<E>|
            t == a + b && #[trigger] protocol::enter_run(a, Ok(normal))
                && #[trigger] protocol::after_enter_run(normal, b, r);
        let on = Ok::<bool, Error<E>>(normal);
        let status = choose|status: u8| #[trigger] protocol::enter_from_run(status, a, on);
        let first = seq![trace::read::<E>(Register::PMU_CMD_STATUS_0, Ok(status))];
        let k = a.len() as int;
        if codec::bit(status, 3) == 1 {
            let tail = choose|tail: Trace<E>|
                a == first + tail && #[trigger] protocol::suspend_run(tail, on);
            assert(t.subrange(1, k) =~= tail);
        }
        assert(a[0] == got::<E>(7, Ok(status)));
        assert(t[0] == a[0]);
        assert(t.skip(k) =~= b);
        if r is Err && protocol::bit_reset_run(b, r) {
            bit_reset_sends(b, r);
        } else {
            let (c, d) = choose|c: Trace<E>, d: Trace<E>|
                b == c + d && #[trigger] protocol::bit_reset_run(c, Ok(()))
                    && #[trigger] protocol::after_bit_reset_run(normal, d, r);
            bit_reset_sends::<E>(c, Ok(()));
            assert(t.subrange(k, k + 3) =~= c);
            assert(t.skip(k + 3) =~= d);
            if r is Err && protocol::flux_guide_reset_run(d, r) {
                flux_guide_reset_sends(d, r);
            } else {
                let (e, f) = choose|e: Trace<E>, f: Trace<E>|
                    d == e + f && #[trigger] protocol::flux_guide_reset_run(e, Ok(()))
                        && #[trigger] protocol::restore_run(normal, f, r);
                flux_guide_reset_sends::<E>(e, Ok(()));
                assert(t.subrange(k + 3, k + 6) =~= e);
                assert(t.skip(k + 6) =~= f);
            }
        }
        k
    }
}

/// Wherever a magnetic reset has given a reset command `c`, 7 or 5, it has waited
/// out the time of the command and asked the status. A status whose highest three
/// bits are not the command leaves the reset unfinished, with nothing more done.
pub proof fn magnetic_reset_confirms<E>(t: Trace<E>, r: Result<(), Error<E>>, c: u8, i: int)
    requires
        protocol::reset_run(t, r),
        c == 7 || c == 5,
        0 <= i < t.len(),
        t[i] == sent::<E>(6, c, Ok(())),
    ensures
        i + 2 < t.len(),
        t[i + 1] == Event::<Error<E>>::Pause(
            if c == 7 {
                14_000
            } else {
                18_000
            },
        ),
        t[i + 2] matches Event::Access(Transfer::Read { register, reply }) && register == 7
            && match reply {
            Err(e) => r == Err::<(), Error<E>>(e) && t.len() == i + 3,
            Ok(s) => s as int / 32 != c ==> r == Err::<(), Error<E>>(Error::ResetUnfinished)
                && t.len() == i + 3,
        },
{
    let k = magnetic_reset_sends(t, r);
    assert(seq![6u8, c][1] == c);
    assert(seq![6u8, 5u8][1] == 5);
    assert(seq![6u8, 7u8][1] == 7);
    if k == t.len() {
        if i > 0 {
            lemma_quiet(PowerMode::Suspend, t.skip(1), r, c, i - 1);
        }
    } else if i < k {
        if i > 0 {
            lemma_quiet::<E>(PowerMode::Suspend, t.subrange(1, k), Ok(()), c, i - 1);
        }
    } else {
        let last = t.skip(k);
        if r is Err && protocol::bit_reset_run(last, r) {
            bit_reset_sends(last, r);
            assert(t[i] == last[i - k]);
        } else {
            let bits = t.subrange(k, k + 3);
            bit_reset_sends::<E>(bits, Ok(()));
            if i < k + 3 {
                assert(t[i] == bits[i - k]);
                assert(t[k + 1] == bits[1]);
                assert(t[k + 2] == bits[2]);
            } else {
                let rest = t.skip(k + 3);
                if r is Err && protocol::flux_guide_reset_run(rest, r) {
                    flux_guide_reset_sends(rest, r);
                    assert(t[i] == rest[i - k - 3]);
                } else {
                    let flux = t.subrange(k + 3, k + 6);
                    flux_guide_reset_sends::<E>(flux, Ok(()));
                    if i < k + 6 {
                        assert(t[i] == flux[i - k - 3]);
                        assert(t[k + 4] == flux[1]);
                        assert(t[k + 5] == flux[2]);
                    } else {
                        lemma_quiet(PowerMode::Normal, t.skip(k + 6), r, c, i - k - 6);
                    }
                }
            }
        }
    }
}

/// A magnetic reset that succeeds has given both reset commands, 7 and then 5,
/// and each was confirmed.
pub proof fn magnetic_reset_gives_both<E>(t: Trace<E>) -> (k: int)
    requires
        protocol::reset_run(t, Ok(())),
    ensures
        0 < k,
        k + 5 < t.len(),
        t[k] == sent::<E>(6, 7, Ok(())),
        t[k + 1] == Event::<Error<E>>::Pause(14_000),
        t[k + 2] matches Event::Access(Transfer::Read { register, reply }) && register == 7
            && reply is Ok && reply->Ok_0 as int / 32 == 7,
        t[k + 3] == sent::<E>(6, 5, Ok(())),
        t[k + 4] == Event::<Error<E>>::Pause(18_000),
        t[k + 5] matches Event::Access(Transfer::Read { register, reply }) && register == 7
            && reply is Ok && reply->Ok_0 as int / 32 == 5,
{
    let k = magnetic_reset_sends::<E>(t, Ok(()));
    let bits = t.subrange(k, k + 3);
    let flux = t.subrange(k + 3, k + 6);
    bit_reset_sends::<E>(bits, Ok(()));
    flux_guide_reset_sends::<E>(flux, Ok(()));
    assert(t[k] == bits[0] && t[k + 1] == bits[1] && t[k + 2] == bits[2]);
    assert(t[k + 3] == flux[0] && t[k + 4] == flux[1] && t[k + 5] == flux[2]);
    if let Event::Access(Transfer::Write { bytes, reply }) = bits[0] {
        assert(reply->Ok_0 == ());
    }
    if let Event::Access(Transfer::Write { bytes, reply }) = flux[0] {
        assert(reply->Ok_0 == ());
    }
    k
}

/// A wait for the memory waits 300 us before it asks the status, at 85. An answer
/// with bit 0 ends it, as do ten answers without; a failure is the result.
pub proof fn await_otp_tells<E>(t: Trace<E>, r: Result<(), Error<E>>)
    requires
        protocol::otp_wait_run(t, r),
    ensures
        0 < t.len() <= 20,
        t.len() % 2 == 0,
        forall|i: int|
            0 <= i < t.len() && i % 2 == 0 ==> #[trigger] t[i] == Event::<Error<E>>::Pause(300),
        forall|i: int|
            0 <= i < t.len() && i % 2 == 1 ==> (#[trigger] t[i] matches Event::Access(
                Transfer::Read { register, reply },
            ) && register == 85 && match reply {
                Ok(s) => if s as int % 2 == 1 || i == 19 {
                    i + 1 == t.len() && r == Ok::<(), Error<E>>(())
                } else {
                    i + 1 < t.len()
                },
                Err(e) => i + 1 == t.len() && r == Err::<(), Error<E>>(e),
            }),
{
    let statuses = choose|statuses: Seq<u8>| #[trigger] protocol::otp_waited(statuses, t, r);
    let polls = protocol::otp_polls::<E>(statuses);
    protocol::lemma_otp_polls::<E>(statuses);
    if r is Ok {
        assert(r->Ok_0 == ());
    }
    assert forall|i: int| 0 <= i < t.len() && i % 2 == 0 implies #[trigger] t[i] == Event::<
        Error<E>,
    >::Pause(300) by {
        if i < polls.len() {
            let status = statuses[i / 2];
            assert(i == 2 * (i / 2));
            assert(t[i] == polls[i]);
        }
    }
    assert forall|i: int| 0 <= i < t.len() && i % 2 == 1 implies (
    #[trigger] t[i] matches Event::Access(Transfer::Read { register, reply }) && register == 85
        && match reply {
        Ok(s) => if s as int % 2 == 1 || i == 19 {
            i + 1 == t.len() && r == Ok::<(), Error<E>>(())
        } else {
            i + 1 < t.len()
        },
        Err(e) => i + 1 == t.len() && r == Err::<(), Error<E>>(e),
    }) by {
        if i < polls.len() {
            let status = statuses[i / 2];
            assert(i == 2 * (i / 2) + 1);
            assert(t[i] == polls[i]);
        }
    }
}

/// The memory, at 80, gets the read command: 32 and the address of the word. Once
/// it was waited for, up to the returned index, the high byte of the word is asked
/// of 82 and the low byte of 83. A failure is the result.
pub proof fn read_otp_word_tells<E>(addr: u8, t: Trace<E>, r: Result<u16, Error<E>>) -> (k: int)
    requires
        protocol::otp_word_run(addr, t, r),
        addr < 32,
    ensures
        t.len() > 0,
        t[0] matches Event::Access(Transfer::Write { bytes, reply }) && bytes.len() == 2
            && bytes[0] == 80 && bytes[1] == 32 + addr && match reply {
            Err(e) => t.len() == 1 && r == Err::<u16, Error<E>>(e),
            Ok(_) => {
                ||| r is Err && protocol::otp_wait_run::<E>(t.skip(1), Err(r->Err_0))
                ||| {
                    &&& 1 < k < t.len()
                    &&& protocol::otp_wait_run::<E>(t.subrange(1, k), Ok(()))
                    &&& t[k] matches Event::Access(Transfer::Read { register, reply }) && register
                        == 82 && match reply {
                        Err(e) => t.len() == k + 1 && r == Err::<u16, Error<E>>(e),
                        Ok(high) => t.len() == k + 2 && (t[k + 1] matches Event::Access(
                            Transfer::Read { register, reply },
                        ) && register == 83 && match reply {
                            Err(e) => r == Err::<u16, Error<E>>(e),
                            Ok(low) => r is Ok && r->Ok_0 == 256 * high + low,
                        }),
                    }
                }
            },
        },
{
    let command = codec::otp_read_command(addr);
    if r is Err && t == seq![trace::wrote::<E>(Register::OTP_CMD_REG, command, Err(r->Err_0))] {
        0
    } else {
        let first = seq![trace::wrote::<E>(Register::OTP_CMD_REG, command, Ok(()))];
        let tail = choose|tail: Trace<E>|
            t == first + tail && #[trigger] protocol::otp_fetch_run(tail, r);
        assert(t[0] == first[0]);
        assert(t.skip(1) =~= tail);
        if r is Err && protocol::otp_wait_run::<E>(tail, Err(r->Err_0)) {
            0
        } else {
            let (a, b) = choose|a: Trace<E>, b: Trace<E>|
                tail == a + b && #[trigger] protocol::otp_wait_run(a, Ok(()))
                    && #[trigger] protocol::otp_data_run(b, r);
            await_otp_tells::<E>(a, Ok(()));
            let k = 1 + a.len() as int;
            assert(t.subrange(1, k) =~= a);
            assert(b.len() > 0);
            assert(t[k] == b[0]);
            if b.len() > 1 {
                assert(t[k + 1] == b[1]);
            }
            if r is Ok {
                let (m, n) = choose|m: u8, n: u8|
                    b == seq![
                        #[trigger] trace::read::<E>(Register::OTP_DATA_MSB_REG, Ok(m)),
                        #[trigger] trace::read::<E>(Register::OTP_DATA_LSB_REG, Ok(n)),
                    ] && r->Ok_0 == codec::word(m, n);
                assert(b[0] == got::<E>(82, Ok(m)));
                assert(b[1] == got::<E>(83, Ok(n)));
            }
            k
        }
    }
}

/// What is kept of the memory agrees with it: the offsets are signed numbers of
/// twelve bits whose bits are the low ones of word 14, the high four of word 14
/// over the low eight of word 15, and the next four of word 15 over the low eight
/// of word 16; the variant is bits 9 to 14 of word 30.
pub proof fn memory_tells(words: Seq<u16>)
    requires
        words.len() == 32,
    ensures
        ({
            let known = protocol::calibration_of(words);
            &&& -2048 <= known.mag_comp.offset_x < 2048
            &&& -2048 <= known.mag_comp.offset_y < 2048
            &&& -2048 <= known.mag_comp.offset_z < 2048
            &&& known.mag_comp.offset_x as int % 4096 == words[14] as int % 4096
            &&& known.mag_comp.offset_y as int % 4096 == words[14] as int / 4096 * 256
                + words[15] as int % 256
            &&& known.mag_comp.offset_z as int % 4096 == words[15] as int / 256 % 16 * 256
                + words[16] as int % 256
            &&& known.var_id as int == words[30] as int / 512 % 64
        }),
{
    let x = (words[14] as int % 4096) as u16;
    let y = (words[14] as int / 4096 * 256 + words[15] as int % 256) as u16;
    let z = (words[15] as int / 256 % 16 * 256 + words[16] as int % 256) as u16;
    codec::signed_12_bits(x);
    codec::signed_12_bits(y);
    codec::signed_12_bits(z);
}

/// A memory that holds three offsets in two's complement and a variant is
/// understood.
pub proof fn offsets_survive(words: Seq<u16>, x: i16, y: i16, z: i16, variant: u8)
    requires
        words.len() == 32,
        -2048 <= x < 2048,
        -2048 <= y < 2048,
        -2048 <= z < 2048,
        words[14] as int % 4096 == x as int % 4096,
        words[14] as int / 4096 * 256 + words[15] as int % 256 == y as int % 4096,
        words[15] as int / 256 % 16 * 256 + words[16] as int % 256 == z as int % 4096,
        words[30] as int / 512 % 64 == variant,
    ensures
        protocol::calibration_of(words).mag_comp.offset_x == x,
        protocol::calibration_of(words).mag_comp.offset_y == y,
        protocol::calibration_of(words).mag_comp.offset_z == z,
        protocol::calibration_of(words).var_id == variant,
{
    memory_tells(words);
}

/// A word whose bit 11 is set stands for the negative number of twelve bits that
/// agrees with it in these; any other word stands for the signed word that agrees
/// with it in all its bits.
pub proof fn twelve_bits_tell(value: u16)
    ensures
        -32768 <= codec::signed_12(value) < 32768,
        value as int / 2048 % 2 == 1 ==> -2048 <= codec::signed_12(value) < 0 && codec::signed_12(
            value,
        ) % 4096 == value as int % 4096,
        value as int / 2048 % 2 == 0 ==> codec::signed_12(value) % 65536 == value,
{
}

/// The read command has bit 5 and the low five bits of the address, and no other.
pub proof fn otp_command_tells(addr: u8)
    ensures
        32 <= codec::otp_read_command(addr) < 64,
        codec::otp_read_command(addr) as int % 32 == addr as int % 32,
{
}

/// The word at address `a` is read between two cuts.
pub open spec fn reads_word<E>(t: Trace<E>, cuts: Seq<int>, words: Seq<u16>, a: int) -> bool {
    &&& 0 <= cuts[a] < cuts[a + 1] <= t.len()
    &&& protocol::otp_word_run::<E>(a as u8, t.subrange(cuts[a], cuts[a + 1]), Ok(words[a]))
}

/// `cuts` take `t` apart into the readings of `words`, from address 0 on.
pub open spec fn reads_words<E>(t: Trace<E>, cuts: Seq<int>, words: Seq<u16>) -> bool {
    &&& cuts.len() == words.len() + 1
    &&& cuts[0] == 0
    &&& forall|a: int| 0 <= a < words.len() ==> #[trigger] reads_word(t, cuts, words, a)
}

proof fn lemma_words<E>(words: Seq<u16>, t: Trace<E>) -> (cuts: Seq<int>)
    requires
        protocol::otp_words_run(words, t),
        words.len() <= 32,
    ensures
        reads_words(t, cuts, words),
        cuts.last() == t.len(),
    decreases words.len(),
{
    if words.len() == 0 {
        seq![0int]
    } else {
        let less = words.drop_last();
        let n = less.len() as int;
        let (a, b) = choose|a: Trace<E>, b: Trace<E>|
            t == #[trigger] (a + b) && protocol::otp_words_run(less, a) && protocol::otp_word_run(
                (words.len() - 1) as u8,
                b,
                Ok(words.last()),
            );
        let shorter = lemma_words(less, a);
        let cuts = shorter.push(t.len() as int);
        assert(b.len() > 0) by {
            read_otp_word_tells::<E>((words.len() - 1) as u8, b, Ok(words.last()));
        }
        assert forall|i: int| 0 <= i < words.len() implies #[trigger] reads_word(
            t,
            cuts,
            words,
            i,
        ) by {
            if i < n {
                assert(reads_word(a, shorter, less, i));
                assert(t.subrange(cuts[i], cuts[i + 1]) =~= a.subrange(shorter[i], shorter[i + 1]));
            } else {
                assert(cuts[i] == a.len());
                assert(t.subrange(a.len() as int, t.len() as int) =~= b);
            }
        }
        cuts
    }
}

proof fn lemma_longer<E>(a: Trace<E>, b: Trace<E>, cuts: Seq<int>, words: Seq<u16>)
    requires
        reads_words(a, cuts, words),
    ensures
        reads_words(a + b, cuts, words),
{
    assert forall|i: int| 0 <= i < words.len() implies #[trigger] reads_word(
        a + b,
        cuts,
        words,
        i,
    ) by {
        assert(reads_word(a, cuts, words, i));
        assert((a + b).subrange(cuts[i], cuts[i + 1]) =~= a.subrange(cuts[i], cuts[i + 1]));
    }
}

/// After 3 ms the device, at 126, gets the reset word 182, 0, and 24 ms. It must
/// then identify itself, at 0, as 51. The rest is the setup.
pub proof fn init_sends<E>(
    before: Calibration,
    after: Calibration,
    t: Trace<E>,
    r: Result<(), Error<E>>,
)
    requires
        protocol::init_run(before, after, t, r),
    ensures
        t.len() > 1,
        t[0] == Event::<Error<E>>::Pause(3_000),
        t[1] matches Event::Access(Transfer::Write { bytes, reply }) && bytes == seq![
            126u8,
            182u8,
            0u8,
        ] && match reply {
            Err(e) => t.len() == 2 && r == Err::<(), Error<E>>(e) && after == before,
            Ok(_) => t.len() > 3 && t[2] == Event::<Error<E>>::Pause(24_000) && (
            t[3] matches Event::Access(Transfer::Read { register, reply }) && register == 0
                && match reply {
                Err(e) => t.len() == 4 && r == Err::<(), Error<E>>(e) && after == before,
                Ok(id) => if id == 51 {
                    protocol::setup_run(before, after, t.skip(4), r)
                } else {
                    t.len() == 4 && r == Err::<(), Error<E>>(Error::InvalidDevice) && after
                        == before
                },
            }),
        },
{
    let hello = protocol::greeting::<E>(Ok(Register::BMM350_CHIP_ID));
    assert(codec::low_byte(Register::CMD_SOFT_RESET) == 182);
    assert(codec::high_byte(Register::CMD_SOFT_RESET) == 0);
    if exists|tail: Trace<E>|
        t == hello + tail && #[trigger] protocol::setup_run(before, after, tail, r) {
        let tail = choose|tail: Trace<E>|
            t == hello + tail && #[trigger] protocol::setup_run(before, after, tail, r);
        assert(t[0] == hello[0] && t[1] == hello[1] && t[2] == hello[2] && t[3] == hello[3]);
        assert(t[3] == got::<E>(0, Ok(51)));
        assert(t.skip(4) =~= tail);
    } else if t.len() > 2 && t != protocol::greeting::<E>(Err(r->Err_0)) {
        let id = choose|id: u8|
            id != Register::BMM350_CHIP_ID && t == #[trigger] protocol::greeting::<E>(Ok(id));
        assert(t[3] == got::<E>(0, Ok(id)));
    }
}

/// The setup reads the 32 words of the memory, from address 0 on. The first that
/// fails ends it, and what was known stays. When all are read, what is kept agrees
/// with them. The memory, at 80, then gets the command to power off, 128, and the
/// sensor is reset. A failure is the result.
pub proof fn setup_tells<E>(
    before: Calibration,
    after: Calibration,
    t: Trace<E>,
    r: Result<(), Error<E>>,
) -> (parts: (Seq<u16>, Seq<int>))
    requires
        protocol::setup_run(before, after, t, r),
    ensures
        ({
            let (words, cuts) = parts;
            let k = cuts.last();
            &&& words.len() <= 32
            &&& reads_words(t, cuts, words)
            &&& 0 <= k < t.len()
            &&& words.len() < 32 ==> r is Err && after == before && protocol::otp_word_run::<E>(
                words.len() as u8,
                t.skip(k),
                Err(r->Err_0),
            )
            &&& words.len() == 32 ==> {
                &&& -2048 <= after.mag_comp.offset_x < 2048
                &&& -2048 <= after.mag_comp.offset_y < 2048
                &&& -2048 <= after.mag_comp.offset_z < 2048
                &&& after.mag_comp.offset_x as int % 4096 == words[14] as int % 4096
                &&& after.mag_comp.offset_y as int % 4096 == words[14] as int / 4096 * 256
                    + words[15] as int % 256
                &&& after.mag_comp.offset_z as int % 4096 == words[15] as int / 256 % 16 * 256
                    + words[16] as int % 256
                &&& after.var_id as int == words[30] as int / 512 % 64
                &&& t[k] matches Event::Access(Transfer::Write { bytes, reply }) && bytes == seq![
                    80u8,
                    128u8,
                ] && match reply {
                    Err(e) => t.len() == k + 1 && r == Err::<(), Error<E>>(e),
                    Ok(_) => protocol::reset_run(t.skip(k + 1), r),
                }
            }
        }),
{
    let off = Register::OTP_CMD_PWR_OFF_OTP;
    if r is Err && protocol::boot_run(before, after, t, r) {
        let (words, a, b) = choose|words: Seq<u16>, a: Trace<E>, b: Trace<E>|
            t == a + b && words.len() < codec::OTP_WORDS
                && #[trigger] protocol::otp_words_run(words, a)
                && #[trigger] protocol::otp_word_run::<E>(words.len() as u8, b, Err(r->Err_0));
        let cuts = lemma_words(words, a);
        lemma_longer(a, b, cuts, words);
        assert(b.len() > 0) by {
            read_otp_word_tells::<E>(words.len() as u8, b, Err(r->Err_0));
        }
        assert(t.skip(a.len() as int) =~= b);
        (words, cuts)
    } else {
        let (a, b) = choose|a: Trace<E>, b: Trace<E>|
            t == a + b && #[trigger] protocol::boot_run(before, after, a, Ok(()))
                && #[trigger] protocol::after_boot_run(b, r);
        let words = choose|words: Seq<u16>| #[trigger]
            protocol::otp_dump_run::<E>(a, Ok(words)) && after == protocol::calibration_of(words);
        let cuts = lemma_words(words, a);
        lemma_longer(a, b, cuts, words);
        memory_tells(words);
        let k = a.len() as int;
        if r is Err && b == seq![trace::wrote::<E>(Register::OTP_CMD_REG, off, Err(r->Err_0))] {
            assert(t[k] == b[0]);
        } else {
            let first = seq![trace::wrote::<E>(Register::OTP_CMD_REG, off, Ok(()))];
            let c = choose|c: Trace<E>| b == first + c && #[trigger] protocol::reset_run(c, r);
            assert(t[k] == b[0]);
            assert(b[0] == first[0]);
            assert(t.skip(k + 1) =~= c);
        }
        (words, cuts)
    }
}

/// A device that answers every reading of its memory with the words that are there
/// is known after a successful initialization: the variant and the offsets are
/// those that its memory holds.
pub proof fn init_learns<E>(
    before: Calibration,
    after: Calibration,
    t: Trace<E>,
    memory: Seq<u16>,
    x: i16,
    y: i16,
    z: i16,
    variant: u8,
)
    requires
        protocol::init_run(before, after, t, Ok(())),
        memory.len() == 32,
        forall|i: int, j: int, a: u8, w: u16|
            a < 32 && #[trigger] protocol::otp_word_run::<E>(a, t.skip(4).subrange(i, j), Ok(w))
                ==> w == memory[a as int],
        -2048 <= x < 2048,
        -2048 <= y < 2048,
        -2048 <= z < 2048,
        memory[14] as int % 4096 == x as int % 4096,
        memory[14] as int / 4096 * 256 + memory[15] as int % 256 == y as int % 4096,
        memory[15] as int / 256 % 16 * 256 + memory[16] as int % 256 == z as int % 4096,
        memory[30] as int / 512 % 64 == variant,
    ensures
        after.mag_comp.offset_x == x,
        after.mag_comp.offset_y == y,
        after.mag_comp.offset_z == z,
        after.var_id == variant,
{
    let u = t.skip(4);
    assert(protocol::setup_run::<E>(before, after, u, Ok(()))) by {
        init_sends::<E>(before, after, t, Ok(()));
    }
    let (words, cuts) = setup_tells::<E>(before, after, u, Ok(()));
    lemma_honest(u, cuts, words, memory, 14);
    lemma_honest(u, cuts, words, memory, 15);
    lemma_honest(u, cuts, words, memory, 16);
    lemma_honest(u, cuts, words, memory, 30);
    lemma_twelve(after.mag_comp.offset_x, x);
    lemma_twelve(after.mag_comp.offset_y, y);
    lemma_twelve(after.mag_comp.offset_z, z);
}

/// A word that was read is the one that is there.
proof fn lemma_honest<E>(
    u: Trace<E>,
    cuts: Seq<int>,
    words: Seq<u16>,
    memory: Seq<u16>,
    a: int,
)
    requires
        reads_words(u, cuts, words),
        words.len() == 32,
        0 <= a < 32,
        forall|i: int, j: int, a: u8, w: u16|
            a < 32 && #[trigger] protocol::otp_word_run::<E>(a, u.subrange(i, j), Ok(w)) ==> w
                == memory[a as int],
    ensures
        words[a] == memory[a],
{
    assert(reads_word(u, cuts, words, a));
}

/// Numbers of twelve bits with the same bits are the same.
proof fn lemma_twelve(p: i16, q: i16)
    requires
        -2048 <= p < 2048,
        -2048 <= q < 2048,
    ensures
        p as int % 4096 == q as int % 4096 ==> p == q,
{
}

/// A self-test asks the registers 6 and 4, enters normal mode, up to the first
/// returned index, and configures 100 Hz and regular performance, up to the
/// second. Then it sends back what the two registers held, in the same order. What
/// ends one of these is the result; else the self-test has passed.
pub proof fn self_test_sends<E>(t: Trace<E>, r: Result<bool, Error<E>>) -> (cuts: (int, int))
    requires
        protocol::self_test_run(t, r),
    ensures
        t.len() > 0,
        t[0] matches Event::Access(Transfer::Read { register, reply }) && register == 6
            && match reply {
            Err(e) => t.len() == 1 && r == Err::<bool, Error<E>>(e),
            Ok(power) => t.len() > 1 && (t[1] matches Event::Access(
                Transfer::Read { register, reply },
            ) && register == 4 && match reply {
                Err(e) => t.len() == 2 && r == Err::<bool, Error<E>>(e),
                Ok(odr) => {
                    ||| r is Err && protocol::switch_run::<E>(
                        PowerMode::Normal,
                        t.skip(2),
                        Err(r->Err_0),
                    )
                    ||| {
                        let (m, n) = cuts;
                        let config = MagConfig {
                            odr: DataRate::ODR100Hz,
                            performance: PerformanceMode::Regular,
                        };
                        &&& 2 < m < t.len()
                        &&& protocol::switch_run::<E>(PowerMode::Normal, t.subrange(2, m), Ok(()))
                        &&& {
                            ||| r is Err && protocol::config_run::<E>(
                                config,
                                t.skip(m),
                                Err(r->Err_0),
                            )
                            ||| {
                                &&& m < n < t.len()
                                &&& protocol::config_run::<E>(config, t.subrange(m, n), Ok(()))
                                &&& match r {
                                    Ok(passed) => passed && t.len() == n + 2 && t[n] == sent::<E>(
                                        6,
                                        power,
                                        Ok(()),
                                    ) && t[n + 1] == sent::<E>(4, odr, Ok(())),
                                    Err(e) => {
                                        ||| t.len() == n + 1 && t[n] == sent::<E>(6, power, Err(e))
                                        ||| t.len() == n + 2 && t[n] == sent::<E>(6, power, Ok(()))
                                            && t[n + 1] == sent::<E>(4, odr, Err(e))
                                    },
                                }
                            }
                        }
                    }
                },
            }),
        },
{
    let config = protocol::self_test_config();
    if exists|power: u8, odr: u8, tail: Trace<E>|
        t == seq![
            trace::read::<E>(Register::PMU_CMD, Ok(power)),
            trace::read::<E>(Register::PMU_CMD_AGGR_SET, Ok(odr)),
        ] + tail && #[trigger] protocol::self_test_mode_run(power, odr, tail, r) {
        let (power, odr, tail) = choose|power: u8, odr: u8, tail: Trace<E>|
            t == seq![
                trace::read::<E>(Register::PMU_CMD, Ok(power)),
                trace::read::<E>(Register::PMU_CMD_AGGR_SET, Ok(odr)),
            ] + tail && #[trigger] protocol::self_test_mode_run(power, odr, tail, r);
        assert(t[0] == got::<E>(6, Ok(power)));
        assert(t[1] == got::<E>(4, Ok(odr)));
        assert(t.skip(2) =~= tail);
        if r is Err && protocol::switch_run::<E>(PowerMode::Normal, tail, Err(r->Err_0)) {
            (0, 0)
        } else {
            let (a, b) = choose|a: Trace<E>, b: Trace<E>|
                tail == a + b && #[trigger] protocol::switch_run(PowerMode::Normal, a, Ok(()))
                    && #[trigger] protocol::self_test_config_run(power, odr, b, r);
            let m = 2 + a.len() as int;
            assert(a.len() > 0) by {
                set_power_mode_sends::<E>(PowerMode::Normal, a, Ok(()));
            }
            assert(t.subrange(2, m) =~= a);
            assert(t.skip(m) =~= b);
            if r is Err && protocol::config_run::<E>(config, b, Err(r->Err_0)) {
                assert(b.len() > 0) by {
                    set_mag_config_sends::<E>(config, b, Err(r->Err_0));
                }
                (m, 0)
            } else {
                let (c, d) = choose|c: Trace<E>, d: Trace<E>|
                    b == c + d && #[trigger] protocol::config_run(config, c, Ok(()))
                        && #[trigger] protocol::self_test_restore_run(power, odr, d, r);
                assert(c.len() > 0) by {
                    set_mag_config_sends::<E>(config, c, Ok(()));
                }
                let n = m + c.len() as int;
                assert(t.subrange(m, n) =~= c);
                assert(d.len() > 0);
                assert(t[n] == d[0]);
                if d.len() > 1 {
                    assert(t[n + 1] == d[1]);
                }
                (m, n)
            }
        }
    } else {
        if t.len() > 1 {
            assert(t[1] == got::<E>(4, Err(r->Err_0)));
        }
        (0, 0)
    }
}

} // verus!
