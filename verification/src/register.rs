//! The register map of the BMM350.

use vstd::prelude::*;

verus! {

/// Register addresses, command codes, field masks and timings of the BMM350.
pub struct Register;

impl Register {
    /// Chip identification.
    pub const CHIPID: u8 = 0x00;

    /// Output data rate and averaging.
    pub const PMU_CMD_AGGR_SET: u8 = 0x04;

    /// Axis enable bits.
    pub const PMU_CMD_AXIS_EN: u8 = 0x05;

    /// Power management command.
    pub const PMU_CMD: u8 = 0x06;

    /// Status of the last power management command.
    pub const PMU_CMD_STATUS_0: u8 = 0x07;

    /// I2C watchdog control.
    pub const I2C_WDT_SET: u8 = 0x0A;

    /// Interrupt control.
    pub const INT_CTRL: u8 = 0x2E;

    /// Interrupt status.
    pub const STATUS: u8 = 0x30;

    /// First byte of the measurement data.
    pub const MAG_X_LSB: u8 = 0x31;

    /// One-time-programmable memory: command.
    pub const OTP_CMD_REG: u8 = 0x50;

    /// One-time-programmable memory: high byte of the word that was read.
    pub const OTP_DATA_MSB_REG: u8 = 0x52;

    /// One-time-programmable memory: low byte of the word that was read.
    pub const OTP_DATA_LSB_REG: u8 = 0x53;

    /// One-time-programmable memory: status.
    pub const OTP_STATUS_REG: u8 = 0x55;

    /// Device command.
    pub const CMD: u8 = 0x7E;

    /// The power management command register under its full name.
    pub const REG_PMU_CMD: u8 = 0x06;

    /// The data rate and averaging register under its full name.
    pub const REG_PMU_CMD_AGGR_SET: u8 = 0x04;

    /// What `CHIPID` holds in a BMM350.
    pub const BMM350_CHIP_ID: u8 = 0x33;

    /// Soft reset, for `CMD`.
    pub const CMD_SOFT_RESET: u16 = 0x00B6;

    /// Powers the one-time-programmable memory off, for `OTP_CMD_REG`.
    pub const OTP_CMD_PWR_OFF_OTP: u8 = 0x80;

    /// Suspend, for `PMU_CMD`.
    pub const PMU_CMD_SUS: u8 = 0x00;

    /// Normal mode, for `PMU_CMD`.
    pub const PMU_CMD_NM: u8 = 0x01;

    /// Update of data rate and averaging, for `PMU_CMD`.
    pub const PMU_CMD_UPD_OAE: u8 = 0x02;

    /// The highest command that `PMU_CMD` knows.
    pub const PMU_CMD_NM_TC: u8 = 0x09;

    /// Command value in `PMU_CMD_STATUS_0` after a bit reset.
    pub const PMU_CMD_STATUS_0_BR: u8 = 0x07;

    /// Command value in `PMU_CMD_STATUS_0` after a flux guide reset.
    pub const PMU_CMD_STATUS_0_FGR: u8 = 0x05;

    /// The averaging field of `PMU_CMD_AGGR_SET`.
    pub const AVG_MASK: u8 = 0x30;

    /// Lowest bit of the averaging field.
    pub const AVG_POS: u8 = 4;

    /// Suspend to forced mode, in microseconds: no averaging.
    pub const SUS_TO_FORCEDMODE_NO_AVG_DELAY: u32 = 15_000;

    /// Suspend to forced mode, in microseconds: average of 2.
    pub const SUS_TO_FORCEDMODE_AVG_2_DELAY: u32 = 17_000;

    /// Suspend to forced mode, in microseconds: average of 4.
    pub const SUS_TO_FORCEDMODE_AVG_4_DELAY: u32 = 20_000;

    /// Suspend to forced mode, in microseconds: average of 8.
    pub const SUS_TO_FORCEDMODE_AVG_8_DELAY: u32 = 28_000;

    /// Suspend to fast forced mode, in microseconds: no averaging.
    pub const SUS_TO_FORCEDMODE_FAST_NO_AVG_DELAY: u32 = 4_000;

    /// Suspend to fast forced mode, in microseconds: average of 2.
    pub const SUS_TO_FORCEDMODE_FAST_AVG_2_DELAY: u32 = 5_000;

    /// Suspend to fast forced mode, in microseconds: average of 4.
    pub const SUS_TO_FORCEDMODE_FAST_AVG_4_DELAY: u32 = 9_000;

    /// Suspend to fast forced mode, in microseconds: average of 8.
    pub const SUS_TO_FORCEDMODE_FAST_AVG_8_DELAY: u32 = 16_000;
}

} // verus!
