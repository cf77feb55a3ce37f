//! What the bits of the device's registers mean.
//!
//! Each function here has no effect: it turns settings into the byte that is
//! written, or bytes that were read into values. The specifications are plain
//! arithmetic on the register contents.

use vstd::prelude::*;

use crate::register::Register;
use crate::types::{
    AverageNum, AxisEnableDisable, DataRate, InterruptDrive, InterruptEnableDisable, InterruptLatch,
    InterruptMap, InterruptPolarity, MagCompensation, MagConfig, PmuCmdStatus0, PowerMode,
    Sensor3DData,
};

verus! {

/// Number of words in the one-time-programmable memory.
pub const OTP_WORDS: usize = 32;

/// Number of bytes in one measurement.
pub const SAMPLE_LEN: usize = 9;

/// Bit `n` of a byte, as a number.
pub open spec fn bit(byte: u8, n: nat) -> int
    recommends
        n < 8,
{
    if n == 0 {
        byte as int % 2
    } else if n == 1 {
        byte as int / 2 % 2
    } else if n == 2 {
        byte as int / 4 % 2
    } else if n == 3 {
        byte as int / 8 % 2
    } else if n == 4 {
        byte as int / 16 % 2
    } else if n == 5 {
        byte as int / 32 % 2
    } else if n == 6 {
        byte as int / 64 % 2
    } else {
        byte as int / 128
    }
}

/// The low byte of a word.
pub open spec fn low_byte(value: u16) -> u8 {
    (value as int % 256) as u8
}

/// The high byte of a word.
pub open spec fn high_byte(value: u16) -> u8 {
    (value as int / 256) as u8
}

/// A word as its two bytes, the low byte first.
pub fn le_bytes(value: u16) -> (bytes: (u8, u8))
    ensures
        bytes.0 == low_byte(value),
        bytes.1 == high_byte(value),
{
    assert(value & 0xff == value % 256 && value >> 8 == value / 256 && value >> 8 < 256)
        by (bit_vector);
    ((value & 0xff) as u8, (value >> 8) as u8)
}

/// The word that two bytes stand for.
pub open spec fn word(msb: u8, lsb: u8) -> u16 {
    (256 * msb + lsb) as u16
}

/// Joins the two bytes of a word of the one-time-programmable memory.
pub fn otp_word(msb: u8, lsb: u8) -> (value: u16)
    ensures
        value == word(msb, lsb),
{
    let high: u16 = msb as u16;
    let low: u16 = lsb as u16;
    assert((high << 8) | low & 0xFFFF == 256 * high + low) by (bit_vector)
        requires
            high < 256,
            low < 256,
    ;
    (high << 8) | low & 0xFFFF
}

/// The command that reads one word of the one-time-programmable memory: the
/// read bit and the five address bits.
pub open spec fn otp_read_command(addr: u8) -> u8 {
    (32 + addr as int % 32) as u8
}

/// The command that reads the word at `addr`.
pub fn otp_command(addr: u8) -> (command: u8)
    ensures
        command == otp_read_command(addr),
{
    assert(0x20 | (addr & 0x1F) == 32 + addr % 32) by (bit_vector);
    0x20 | (addr & 0x1F)
}

/// A reading of the one-time-programmable memory is complete.
pub open spec fn otp_done(status: u8) -> bool {
    bit(status, 0) == 1
}

/// Tests the completion bit of the memory's status.
pub fn otp_complete(status: u8) -> (done: bool)
    ensures
        done == otp_done(status),
{
    assert((status & 0x01 != 0) == (status % 2 == 1)) by (bit_vector);
    status & 0x01 != 0
}

/// The variant of the device: bits 9 to 14 of word 30.
pub open spec fn variant_of(words: Seq<u16>) -> u8 {
    (words[30] as int / 512 % 64) as u8
}

/// The variant of the device.
pub fn variant_id(words: &[u16; 32]) -> (id: u8)
    ensures
        id == variant_of(words@),
{
    let w: u16 = words[30];
    assert((w & 0x7f00) >> 9 == w / 512 % 64 && (w & 0x7f00) >> 9 < 64) by (bit_vector);
    ((w & 0x7f00) >> 9) as u8
}

/// The number that a word stands for when its bit 11 is the sign: with that bit
/// set, the low twelve bits in two's complement; else the word itself, as a
/// signed word.
pub open spec fn signed_12(value: u16) -> int {
    if value as int / 2048 % 2 == 1 {
        value as int % 4096 - 4096
    } else if value < 0x8000 {
        value as int
    } else {
        value as int - 0x10000
    }
}

/// Extends the sign of a twelve-bit number.
pub fn extract_signed_12bit(value: u16) -> (number: i16)
    ensures
        number == signed_12(value),
{
    assert((value & 0x0800 != 0) == (value / 2048 % 2 == 1)) by (bit_vector);
    if value & 0x0800 != 0 {
        assert((value | 0xF000) as i16 == value % 4096 - 4096) by (bit_vector)
            requires
                value & 0x0800 != 0,
        ;
        #[verifier::truncate]
        let number: i16 = (value | 0xF000) as i16;
        number
    } else {
        assert(value < 0x8000 ==> value as i16 == value) by (bit_vector);
        assert(value >= 0x8000 ==> value as i16 == value - 0x10000) by (bit_vector);
        #[verifier::truncate]
        let number: i16 = value as i16;
        number
    }
}

/// The offsets that the memory holds, twelve bits each: X in word 14, Y across
/// words 14 and 15, Z across words 15 and 16.
pub open spec fn offsets_of(words: Seq<u16>) -> MagCompensation {
    MagCompensation {
        offset_x: signed_12((words[14] as int % 4096) as u16) as i16,
        offset_y: signed_12(
            (words[14] as int / 4096 * 256 + words[15] as int % 256) as u16,
        ) as i16,
        offset_z: signed_12(
            (words[15] as int / 256 % 16 * 256 + words[16] as int % 256) as u16,
        ) as i16,
    }
}

/// The offsets that the memory holds.
pub fn offsets(words: &[u16; 32]) -> (comp: MagCompensation)
    ensures
        comp == offsets_of(words@),
{
    let e: u16 = words[0x0E];
    let f: u16 = words[0x0F];
    let g: u16 = words[0x10];
    assert(e & 0x0FFF == e % 4096) by (bit_vector);
    assert((e & 0xF000) >> 4 == e / 4096 * 256 && (e & 0xF000) >> 4 <= 0x0F00) by (bit_vector);
    assert(f & 0x00FF == f % 256 && f & 0x0F00 == f / 256 % 16 * 256 && f & 0x0F00 <= 0x0F00)
        by (bit_vector);
    assert(g & 0x00FF == g % 256) by (bit_vector);
    MagCompensation {
        offset_x: extract_signed_12bit(e & 0x0FFF),
        offset_y: extract_signed_12bit(((e & 0xF000) >> 4) + (f & 0x00FF)),
        offset_z: extract_signed_12bit((f & 0x0F00) + (g & 0x00FF)),
    }
}

/// The fields of the power management status.
pub open spec fn pmu_status_of(status: u8) -> PmuCmdStatus0 {
    PmuCmdStatus0 {
        pmu_cmd_busy: bit(status, 0) as u8,
        odr_overwrite: bit(status, 1) as u8,
        avg_overwrite: bit(status, 2) as u8,
        power_mode_is_normal: bit(status, 3) as u8,
        cmd_is_illegal: bit(status, 4) as u8,
        pmu_cmd_value: (status as int / 32) as u8,
    }
}

/// Takes the power management status apart.
pub fn pmu_status(status: u8) -> (fields: PmuCmdStatus0)
    ensures
        fields == pmu_status_of(status),
{
    assert(status & 0x01 == status % 2) by (bit_vector);
    assert((status & 0x2) >> 0x1 == status / 2 % 2) by (bit_vector);
    assert((status & 0x4) >> 0x2 == status / 4 % 2) by (bit_vector);
    assert((status & 0x8) >> 0x3 == status / 8 % 2) by (bit_vector);
    assert((status & 0x10) >> 0x4 == status / 16 % 2) by (bit_vector);
    assert((status & 0xE0) >> 5 == status / 32) by (bit_vector);
    PmuCmdStatus0 {
        pmu_cmd_busy: (status & 0x01),
        odr_overwrite: (status & 0x2) >> 0x1,
        avg_overwrite: (status & 0x4) >> 0x2,
        power_mode_is_normal: (status & 0x8) >> 0x3,
        cmd_is_illegal: (status & 0x10) >> 0x4,
        pmu_cmd_value: (status & 0xE0) >> 5,
    }
}

/// The averaging field of the data rate and averaging register.
pub open spec fn averaging_of(aggr_set: u8) -> int {
    aggr_set as int / 16 % 4
}

/// How long the device takes to enter `mode`, in microseconds, with the data
/// rate and averaging register at `aggr_set`.
pub open spec fn settle_time(mode: PowerMode, aggr_set: u8) -> u32 {
    let averaging = averaging_of(aggr_set);
    match mode {
        PowerMode::Normal => 38_000,
        PowerMode::Forced => if averaging == 0 {
            15_000
        } else if averaging == 1 {
            17_000
        } else if averaging == 2 {
            20_000
        } else {
            28_000
        },
        PowerMode::ForcedFast => if averaging == 0 {
            4_000
        } else if averaging == 1 {
            5_000
        } else if averaging == 2 {
            9_000
        } else {
            16_000
        },
        _ => 0,
    }
}

/// How long to wait after the command for `mode`.
pub fn settle_delay(mode: PowerMode, aggr_set: u8) -> (us: u32)
    ensures
        us == settle_time(mode, aggr_set),
{
    let sus_to_forced_mode: [u32; 4] = [
        Register::SUS_TO_FORCEDMODE_NO_AVG_DELAY,
        Register::SUS_TO_FORCEDMODE_AVG_2_DELAY,
        Register::SUS_TO_FORCEDMODE_AVG_4_DELAY,
        Register::SUS_TO_FORCEDMODE_AVG_8_DELAY,
    ];
    let sus_to_forced_mode_fast: [u32; 4] = [
        Register::SUS_TO_FORCEDMODE_FAST_NO_AVG_DELAY,
        Register::SUS_TO_FORCEDMODE_FAST_AVG_2_DELAY,
        Register::SUS_TO_FORCEDMODE_FAST_AVG_4_DELAY,
        Register::SUS_TO_FORCEDMODE_FAST_AVG_8_DELAY,
    ];
    assert((aggr_set & 0x30) >> 4 == aggr_set / 16 % 4) by (bit_vector);
    let avg: u8 = (aggr_set & Register::AVG_MASK) >> Register::AVG_POS;
    match mode {
        PowerMode::Normal => 38_000,
        PowerMode::Forced => sus_to_forced_mode[avg as usize],
        PowerMode::ForcedFast => sus_to_forced_mode_fast[avg as usize],
        _ => 0,
    }
}

/// A measurement is ready.
pub open spec fn data_ready(status: u8) -> bool {
    bit(status, 2) == 1
}

/// Tests the data ready bit of the interrupt status.
pub fn is_data_ready(status: u8) -> (ready: bool)
    ensures
        ready == data_ready(status),
{
    assert((status & 0x04 != 0) == (status / 4 % 2 == 1)) by (bit_vector);
    (status & 0x04) != 0
}

/// The number that three bytes stand for in two's complement, the lowest byte
/// first.
pub open spec fn signed_24(xlsb: u8, lsb: u8, msb: u8) -> int {
    let unsigned = xlsb + 256 * lsb + 65536 * msb;
    if msb >= 128 {
        unsigned - 0x1000000
    } else {
        unsigned
    }
}

/// Joins three bytes and extends the sign.
pub fn reconstruct_signed_24bit(xlsb: u8, lsb: u8, msb: u8) -> (number: i32)
    ensures
        number == signed_24(xlsb, lsb, msb),
{
    let a: u32 = xlsb as u32;
    let b: u32 = lsb as u32;
    let c: u32 = msb as u32;
    assert(a | (b << 8) | (c << 16) == a + 256 * b + 65536 * c) by (bit_vector)
        requires
            a < 256,
            b < 256,
            c < 256,
    ;
    let unsigned_val: u32 = a | (b << 8) | (c << 16);
    assert((msb & 0x80 != 0) == (msb >= 128)) by (bit_vector);
    if (msb & 0x80) != 0 {
        assert((unsigned_val | 0xFF000000) as i32 == unsigned_val - 0x1000000) by (bit_vector)
            requires
                0x800000 <= unsigned_val < 0x1000000,
        ;
        #[verifier::truncate]
        let number: i32 = (unsigned_val | 0xFF000000) as i32;
        number
    } else {
        unsigned_val as i32
    }
}

/// The measurement that nine bytes hold: X, Y and Z, three bytes each.
pub open spec fn sample_of(bytes: Seq<u8>) -> Sensor3DData {
    Sensor3DData {
        x: signed_24(bytes[0], bytes[1], bytes[2]) as i32,
        y: signed_24(bytes[3], bytes[4], bytes[5]) as i32,
        z: signed_24(bytes[6], bytes[7], bytes[8]) as i32,
    }
}

/// Takes a measurement apart.
pub fn sample(bytes: &[u8]) -> (data: Sensor3DData)
    requires
        bytes@.len() == SAMPLE_LEN,
    ensures
        data == sample_of(bytes@),
{
    Sensor3DData {
        x: reconstruct_signed_24bit(bytes[0], bytes[1], bytes[2]),
        y: reconstruct_signed_24bit(bytes[3], bytes[4], bytes[5]),
        z: reconstruct_signed_24bit(bytes[6], bytes[7], bytes[8]),
    }
}

/// The axis enable byte: X in bit 0, Y in bit 1, Z in bit 2.
pub open spec fn axes_byte(
    x: AxisEnableDisable,
    y: AxisEnableDisable,
    z: AxisEnableDisable,
) -> u8 {
    (x.spec_code() + 2 * y.spec_code() + 4 * z.spec_code()) as u8
}

/// The axis enable byte.
pub fn axes_bits(x: AxisEnableDisable, y: AxisEnableDisable, z: AxisEnableDisable) -> (byte: u8)
    ensures
        byte == axes_byte(x, y, z),
{
    let a: u8 = x.code();
    let b: u8 = y.code();
    let c: u8 = z.code();
    assert((a & 0x01) | ((b << 0x1) & 0x02) | ((c << 0x2) & 0x04) == a + 2 * b + 4 * c)
        by (bit_vector)
        requires
            a < 2,
            b < 2,
            c < 2,
    ;
    (a & 0x01) | ((b << 0x1) & 0x02) | ((c << 0x2) & 0x04)
}

/// The data rate and averaging byte: the rate in the low four bits, the
/// averaging in the two above.
pub open spec fn rate_byte(odr: DataRate, performance: AverageNum) -> u8 {
    (odr.spec_code() + 16 * performance.spec_code()) as u8
}

/// The data rate and averaging byte.
pub fn rate_bits(odr: DataRate, performance: AverageNum) -> (byte: u8)
    ensures
        byte == rate_byte(odr, performance),
{
    let a: u8 = odr.code();
    let b: u8 = performance.code();
    assert((a & 0xf) | ((b << 4) & 0x30) == a + 16 * b) by (bit_vector)
        requires
            a < 16,
            b < 4,
    ;
    (a & 0xf) | ((b << Register::AVG_POS) & Register::AVG_MASK)
}

/// The interrupt control byte that enables or disables the data ready
/// interrupt: bit 7, all others clear.
pub open spec fn data_ready_byte(enable: InterruptEnableDisable) -> u8 {
    (128 * enable.spec_code()) as u8
}

/// The interrupt control byte that enables or disables the data ready interrupt.
pub fn data_ready_bits(enable: InterruptEnableDisable) -> (byte: u8)
    ensures
        byte == data_ready_byte(enable),
{
    let a: u8 = enable.code();
    assert((a << 0x7) & 0x80 == 128 * a) by (bit_vector)
        requires
            a < 2,
    ;
    (a << 0x7) & 0x80
}

/// The interrupt control byte for a configuration: latch in bit 0, polarity in
/// bit 1, drive in bit 2, map in bit 3, all others clear.
pub open spec fn interrupt_byte(
    latch: InterruptLatch,
    polarity: InterruptPolarity,
    drive: InterruptDrive,
    map: InterruptMap,
) -> u8 {
    (latch.spec_code() + 2 * polarity.spec_code() + 4 * drive.spec_code() + 8
        * map.spec_code()) as u8
}

/// The interrupt control byte for a configuration.
pub fn interrupt_bits(
    latch: InterruptLatch,
    polarity: InterruptPolarity,
    drive: InterruptDrive,
    map: InterruptMap,
) -> (byte: u8)
    ensures
        byte == interrupt_byte(latch, polarity, drive, map),
{
    let a: u8 = latch.code();
    let b: u8 = polarity.code();
    let c: u8 = drive.code();
    let d: u8 = map.code();
    assert((a & 0x1) | ((b << 0x1) & 0x2) | ((c << 0x2) & 0x4) | ((d << 0x3) & 0x8) == a + 2 * b + 4
        * c + 8 * d) by (bit_vector)
        requires
            a < 2,
            b < 2,
            c < 2,
            d < 2,
    ;
    (a & 0x1) | ((b << 0x1) & 0x2) | ((c << 0x2) & 0x4) | ((d << 0x3) & 0x8)
}

/// The watchdog byte: on or off in bit 0, the long timeout in bit 1.
pub open spec fn watchdog_byte(enable: bool, long_timeout: bool) -> u8 {
    ((if enable {
        1int
    } else {
        0
    }) + (if long_timeout {
        2int
    } else {
        0
    })) as u8
}

/// The watchdog byte.
pub fn watchdog_bits(enable: bool, long_timeout: bool) -> (byte: u8)
    ensures
        byte == watchdog_byte(enable, long_timeout),
{
    let a: u8 = if enable {
        1
    } else {
        0
    };
    let b: u8 = if long_timeout {
        1
    } else {
        0
    };
    assert(a | (b << 1) == a + 2 * b) by (bit_vector)
        requires
            a < 2,
            b < 2,
    ;
    a | (b << 1)
}

/// The three bytes of a number in two's complement, the lowest first.
pub open spec fn bytes_24(number: int) -> (u8, u8, u8) {
    let unsigned = number % 0x1000000;
    ((unsigned % 256) as u8, (unsigned / 256 % 256) as u8, (unsigned / 65536) as u8)
}

/// Every number of 24 bits is read as itself.
pub proof fn numbers_survive(number: int)
    requires
        -0x800000 <= number < 0x800000,
    ensures
        signed_24(bytes_24(number).0, bytes_24(number).1, bytes_24(number).2) == number,
{
}

/// What is read is a number of 24 bits, and its bytes are those that were read.
pub proof fn bytes_survive(xlsb: u8, lsb: u8, msb: u8)
    ensures
        -0x800000 <= signed_24(xlsb, lsb, msb) < 0x800000,
        bytes_24(signed_24(xlsb, lsb, msb)) == (xlsb, lsb, msb),
{
    let unsigned = xlsb + 256 * lsb + 65536 * msb;
    assert(signed_24(xlsb, lsb, msb) % 0x1000000 == unsigned);
}

/// Different bytes are different measurements.
pub proof fn samples_differ(a: Seq<u8>, b: Seq<u8>)
    requires
        a.len() == SAMPLE_LEN,
        b.len() == SAMPLE_LEN,
        sample_of(a) == sample_of(b),
    ensures
        a == b,
{
    bytes_survive(a[0], a[1], a[2]);
    bytes_survive(a[3], a[4], a[5]);
    bytes_survive(a[6], a[7], a[8]);
    bytes_survive(b[0], b[1], b[2]);
    bytes_survive(b[3], b[4], b[5]);
    bytes_survive(b[6], b[7], b[8]);
    assert(a =~= b);
}

/// Every number of twelve bits is read as itself.
pub proof fn twelve_bits_survive(number: int)
    requires
        -2048 <= number < 2048,
    ensures
        signed_12((number % 4096) as u16) == number,
{
}

/// What is read out of twelve bits is a number of twelve bits, and its bits are
/// those that were read.
pub proof fn signed_12_bits(value: u16)
    requires
        value < 4096,
    ensures
        -2048 <= signed_12(value) < 2048,
        signed_12(value) % 4096 == value,
{
}

/// The two bytes of a word make the word.
pub proof fn words_survive(value: u16)
    ensures
        word(high_byte(value), low_byte(value)) == value,
{
}

/// The commands that read the words of the memory are all different, and none
/// of them powers the memory off.
pub proof fn otp_commands_differ(a: u8, b: u8)
    requires
        a < OTP_WORDS,
        b < OTP_WORDS,
    ensures
        otp_read_command(a) == otp_read_command(b) ==> a == b,
        otp_read_command(a) != Register::OTP_CMD_PWR_OFF_OTP,
{
}

/// The fields of the power management status make the status.
pub proof fn pmu_status_survives(status: u8)
    ensures
        ({
            let fields = pmu_status_of(status);
            status == fields.pmu_cmd_busy + 2 * fields.odr_overwrite + 4 * fields.avg_overwrite + 8
                * fields.power_mode_is_normal + 16 * fields.cmd_is_illegal + 32
                * fields.pmu_cmd_value
        }),
        pmu_status_of(status).pmu_cmd_busy < 2,
        pmu_status_of(status).odr_overwrite < 2,
        pmu_status_of(status).avg_overwrite < 2,
        pmu_status_of(status).power_mode_is_normal < 2,
        pmu_status_of(status).cmd_is_illegal < 2,
        pmu_status_of(status).pmu_cmd_value < 8,
{
    assert(status == status % 2 + 2 * (status / 2 % 2) + 4 * (status / 4 % 2) + 8 * (status / 8 % 2)
        + 16 * (status / 16 % 2) + 32 * (status / 32)) by (bit_vector);
}

/// Each axis has its own bit.
pub proof fn axes_survive(x: AxisEnableDisable, y: AxisEnableDisable, z: AxisEnableDisable)
    ensures
        bit(axes_byte(x, y, z), 0) == x.spec_code(),
        bit(axes_byte(x, y, z), 1) == y.spec_code(),
        bit(axes_byte(x, y, z), 2) == z.spec_code(),
        axes_byte(x, y, z) < 8,
{
}

/// The rate and the averaging have their own fields.
pub proof fn rate_survives(odr: DataRate, performance: AverageNum)
    ensures
        rate_byte(odr, performance) as int % 16 == odr.spec_code(),
        averaging_of(rate_byte(odr, performance)) == performance.spec_code(),
        rate_byte(odr, performance) < 64,
{
}

/// A configuration has the rate and the averaging in the same fields, and
/// nothing in the high byte.
pub proof fn config_survives(config: MagConfig, performance: AverageNum)
    ensures
        high_byte(config.spec_bits()) == 0,
        performance.spec_code() == config.performance.spec_code() ==> low_byte(config.spec_bits())
            == rate_byte(config.odr, performance),
{
}

/// Each setting of the interrupt has its own bit, and the data ready interrupt
/// has another.
pub proof fn interrupts_survive(
    enable: InterruptEnableDisable,
    latch: InterruptLatch,
    polarity: InterruptPolarity,
    drive: InterruptDrive,
    map: InterruptMap,
)
    ensures
        bit(interrupt_byte(latch, polarity, drive, map), 0) == latch.spec_code(),
        bit(interrupt_byte(latch, polarity, drive, map), 1) == polarity.spec_code(),
        bit(interrupt_byte(latch, polarity, drive, map), 2) == drive.spec_code(),
        bit(interrupt_byte(latch, polarity, drive, map), 3) == map.spec_code(),
        interrupt_byte(latch, polarity, drive, map) < 16,
        bit(data_ready_byte(enable), 7) == enable.spec_code(),
        data_ready_byte(enable) as int % 128 == 0,
{
}

/// Both settings of the watchdog have their own bit.
pub proof fn watchdog_survives(enable: bool, long_timeout: bool)
    ensures
        (bit(watchdog_byte(enable, long_timeout), 0) == 1) == enable,
        (bit(watchdog_byte(enable, long_timeout), 1) == 1) == long_timeout,
        watchdog_byte(enable, long_timeout) < 4,
{
}

/// Different rates, averagings and modes have different codes.
pub proof fn codes_differ(
    a: DataRate,
    b: DataRate,
    m: AverageNum,
    n: AverageNum,
    x: PowerMode,
    y: PowerMode,
)
    ensures
        a.spec_code() == b.spec_code() ==> a == b,
        m.spec_code() == n.spec_code() ==> m == n,
        x.spec_code() == y.spec_code() ==> x == y,
{
}

/// More averaging never shortens the time that a mode takes.
pub proof fn settle_time_grows(mode: PowerMode, a: u8, b: u8)
    requires
        averaging_of(a) <= averaging_of(b),
    ensures
        settle_time(mode, a) <= settle_time(mode, b),
{
}

} // verus!
