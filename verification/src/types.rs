//! Settings, results and errors of the driver.

use vstd::prelude::*;

verus! {

/// What can go wrong in an operation.
#[derive(Debug, PartialEq, Eq)]
pub enum Error<E> {
    /// The bus failed.
    Comm(E),
    /// The device does not identify itself as a BMM350.
    InvalidDevice,
    /// The device holds a power management command that the driver does not know.
    InvalidConfig,
    /// The device did not confirm a bit reset or a flux guide reset.
    ResetUnfinished,
    /// No measurement became ready in time.
    Timeout,
}

/// Power modes and reset commands, as written to the power management register.
#[derive(Debug, Clone, Copy, PartialEq, Eq, Structural)]
pub enum PowerMode {
    /// Suspend.
    Suspend,
    /// Continuous measurement.
    Normal,
    /// One measurement.
    Forced,
    /// One measurement, with a shortened start.
    ForcedFast,
    /// Flux guide reset.
    FluxGuideReset,
    /// Bit reset.
    BitReset,
}

impl PowerMode {
    /// The command code of the mode.
    pub open spec fn spec_code(self) -> u8 {
        match self {
            PowerMode::Suspend => 0x00,
            PowerMode::Normal => 0x01,
            PowerMode::Forced => 0x03,
            PowerMode::ForcedFast => 0x04,
            PowerMode::FluxGuideReset => 0x05,
            PowerMode::BitReset => 0x07,
        }
    }

    /// The command code of the mode.
    #[verifier::when_used_as_spec(spec_code)]
    pub fn code(self) -> (code: u8)
        ensures
            code == self.spec_code(),
    {
        match self {
            PowerMode::Suspend => 0x00,
            PowerMode::Normal => 0x01,
            PowerMode::Forced => 0x03,
            PowerMode::ForcedFast => 0x04,
            PowerMode::FluxGuideReset => 0x05,
            PowerMode::BitReset => 0x07,
        }
    }
}

/// Output data rates.
#[allow(non_camel_case_types)]
#[derive(Debug, Clone, Copy, PartialEq, Eq, Structural)]
pub enum DataRate {
    /// 400 Hz
    ODR400Hz,
    /// 200 Hz
    ODR200Hz,
    /// 100 Hz
    ODR100Hz,
    /// 50 Hz
    ODR50Hz,
    /// 25 Hz
    ODR25Hz,
    /// 12.5 Hz
    ODR12_5Hz,
    /// 6.25 Hz
    ODR6_25Hz,
    /// 3.125 Hz
    ODR3_125Hz,
    /// 1.5625 Hz
    ODR1_5625Hz,
}

impl DataRate {
    /// The register code of the rate.
    pub open spec fn spec_code(self) -> u8 {
        match self {
            DataRate::ODR400Hz => 0x2,
            DataRate::ODR200Hz => 0x3,
            DataRate::ODR100Hz => 0x4,
            DataRate::ODR50Hz => 0x5,
            DataRate::ODR25Hz => 0x6,
            DataRate::ODR12_5Hz => 0x7,
            DataRate::ODR6_25Hz => 0x8,
            DataRate::ODR3_125Hz => 0x9,
            DataRate::ODR1_5625Hz => 0xA,
        }
    }

    /// The register code of the rate.
    #[verifier::when_used_as_spec(spec_code)]
    pub fn code(self) -> (code: u8)
        ensures
            code == self.spec_code(),
    {
        match self {
            DataRate::ODR400Hz => 0x2,
            DataRate::ODR200Hz => 0x3,
            DataRate::ODR100Hz => 0x4,
            DataRate::ODR50Hz => 0x5,
            DataRate::ODR25Hz => 0x6,
            DataRate::ODR12_5Hz => 0x7,
            DataRate::ODR6_25Hz => 0x8,
            DataRate::ODR3_125Hz => 0x9,
            DataRate::ODR1_5625Hz => 0xA,
        }
    }
}

/// How many samples make one measurement.
#[derive(Debug, Clone, Copy, PartialEq, Eq, Structural)]
pub enum AverageNum {
    /// No averaging.
    NoAverage,
    /// Average of 2.
    Average2,
    /// Average of 4.
    Average4,
    /// Average of 8.
    Average8,
}

impl AverageNum {
    /// The code in the averaging field.
    pub open spec fn spec_code(self) -> u8 {
        match self {
            AverageNum::NoAverage => 0,
            AverageNum::Average2 => 1,
            AverageNum::Average4 => 2,
            AverageNum::Average8 => 3,
        }
    }

    /// The code in the averaging field.
    #[verifier::when_used_as_spec(spec_code)]
    pub fn code(self) -> (code: u8)
        ensures
            code == self.spec_code(),
    {
        match self {
            AverageNum::NoAverage => 0,
            AverageNum::Average2 => 1,
            AverageNum::Average4 => 2,
            AverageNum::Average8 => 3,
        }
    }
}

/// Noise against power consumption; each mode stands for an averaging.
#[derive(Debug, Clone, Copy, PartialEq, Eq, Structural)]
pub enum PerformanceMode {
    /// No averaging.
    LowPower,
    /// Average of 2.
    Regular,
    /// Average of 4.
    LowNoise,
    /// Average of 8.
    UltraLowNoise,
}

impl PerformanceMode {
    /// The code in the averaging field.
    pub open spec fn spec_code(self) -> u8 {
        match self {
            PerformanceMode::LowPower => 0,
            PerformanceMode::Regular => 1,
            PerformanceMode::LowNoise => 2,
            PerformanceMode::UltraLowNoise => 3,
        }
    }

    /// The code in the averaging field.
    #[verifier::when_used_as_spec(spec_code)]
    pub fn code(self) -> (code: u8)
        ensures
            code == self.spec_code(),
    {
        match self {
            PerformanceMode::LowPower => 0,
            PerformanceMode::Regular => 1,
            PerformanceMode::LowNoise => 2,
            PerformanceMode::UltraLowNoise => 3,
        }
    }
}

/// Whether an axis measures.
#[derive(Debug, Clone, Copy, PartialEq, Eq, Structural)]
pub enum AxisEnableDisable {
    /// The axis is off.
    Disable,
    /// The axis measures.
    Enable,
}

impl AxisEnableDisable {
    /// The bit of the setting.
    pub open spec fn spec_code(self) -> u8 {
        match self {
            AxisEnableDisable::Disable => 0,
            AxisEnableDisable::Enable => 1,
        }
    }

    /// The bit of the setting.
    #[verifier::when_used_as_spec(spec_code)]
    pub fn code(self) -> (code: u8)
        ensures
            code == self.spec_code(),
    {
        match self {
            AxisEnableDisable::Disable => 0,
            AxisEnableDisable::Enable => 1,
        }
    }
}

/// Whether a finished measurement raises the interrupt.
#[derive(Debug, Clone, Copy, PartialEq, Eq, Structural)]
pub enum InterruptEnableDisable {
    /// No interrupt.
    Disable,
    /// Interrupt when data is ready.
    Enable,
}

impl InterruptEnableDisable {
    /// The bit of the setting.
    pub open spec fn spec_code(self) -> u8 {
        match self {
            InterruptEnableDisable::Disable => 0,
            InterruptEnableDisable::Enable => 1,
        }
    }

    /// The bit of the setting.
    #[verifier::when_used_as_spec(spec_code)]
    pub fn code(self) -> (code: u8)
        ensures
            code == self.spec_code(),
    {
        match self {
            InterruptEnableDisable::Disable => 0,
            InterruptEnableDisable::Enable => 1,
        }
    }
}

/// How long the interrupt stays raised.
#[derive(Debug, Clone, Copy, PartialEq, Eq, Structural)]
pub enum InterruptLatch {
    /// For a pulse.
    Pulsed,
    /// Until the status is read.
    Latched,
}

impl InterruptLatch {
    /// The bit of the setting.
    pub open spec fn spec_code(self) -> u8 {
        match self {
            InterruptLatch::Pulsed => 0,
            InterruptLatch::Latched => 1,
        }
    }

    /// The bit of the setting.
    #[verifier::when_used_as_spec(spec_code)]
    pub fn code(self) -> (code: u8)
        ensures
            code == self.spec_code(),
    {
        match self {
            InterruptLatch::Pulsed => 0,
            InterruptLatch::Latched => 1,
        }
    }
}

/// The level of the raised interrupt pin.
#[derive(Debug, Clone, Copy, PartialEq, Eq, Structural)]
pub enum InterruptPolarity {
    /// Raised is low.
    ActiveLow,
    /// Raised is high.
    ActiveHigh,
}

impl InterruptPolarity {
    /// The bit of the setting.
    pub open spec fn spec_code(self) -> u8 {
        match self {
            InterruptPolarity::ActiveLow => 0,
            InterruptPolarity::ActiveHigh => 1,
        }
    }

    /// The bit of the setting.
    #[verifier::when_used_as_spec(spec_code)]
    pub fn code(self) -> (code: u8)
        ensures
            code == self.spec_code(),
    {
        match self {
            InterruptPolarity::ActiveLow => 0,
            InterruptPolarity::ActiveHigh => 1,
        }
    }
}

/// The driver of the interrupt pin.
#[derive(Debug, Clone, Copy, PartialEq, Eq, Structural)]
pub enum InterruptDrive {
    /// Open drain.
    OpenDrain,
    /// Push-pull.
    PushPull,
}

impl InterruptDrive {
    /// The bit of the setting.
    pub open spec fn spec_code(self) -> u8 {
        match self {
            InterruptDrive::OpenDrain => 0,
            InterruptDrive::PushPull => 1,
        }
    }

    /// The bit of the setting.
    #[verifier::when_used_as_spec(spec_code)]
    pub fn code(self) -> (code: u8)
        ensures
            code == self.spec_code(),
    {
        match self {
            InterruptDrive::OpenDrain => 0,
            InterruptDrive::PushPull => 1,
        }
    }
}

/// Whether the interrupt reaches the pin.
#[derive(Debug, Clone, Copy, PartialEq, Eq, Structural)]
pub enum InterruptMap {
    /// The pin stays quiet.
    UnmapFromPin,
    /// The pin follows the interrupt.
    MapToPin,
}

impl InterruptMap {
    /// The bit of the setting.
    pub open spec fn spec_code(self) -> u8 {
        match self {
            InterruptMap::UnmapFromPin => 0,
            InterruptMap::MapToPin => 1,
        }
    }

    /// The bit of the setting.
    #[verifier::when_used_as_spec(spec_code)]
    pub fn code(self) -> (code: u8)
        ensures
            code == self.spec_code(),
    {
        match self {
            InterruptMap::UnmapFromPin => 0,
            InterruptMap::MapToPin => 1,
        }
    }
}

/// Output data rate and performance of the magnetometer.
#[derive(Debug, Clone, Copy, PartialEq, Eq, Structural)]
pub struct MagConfig {
    /// Output data rate.
    pub odr: DataRate,
    /// Performance mode.
    pub performance: PerformanceMode,
}

impl MagConfig {
    /// The register value: the rate in the low four bits, the averaging in the
    /// two above.
    pub open spec fn spec_bits(self) -> u16 {
        (self.odr.spec_code() + 16 * self.performance.spec_code()) as u16
    }

    /// Starts from 100 Hz and regular performance.
    pub fn builder() -> (builder: MagConfigBuilder)
        ensures
            builder.config == (MagConfig {
                odr: DataRate::ODR100Hz,
                performance: PerformanceMode::Regular,
            }),
    {
        MagConfigBuilder {
            config: MagConfig {
                odr: DataRate::ODR100Hz,
                performance: PerformanceMode::Regular,
            },
        }
    }
}

impl From<MagConfig> for u16 {
    fn from(config: MagConfig) -> (bits: u16) {
        let odr: u16 = config.odr.code() as u16;
        let performance: u16 = config.performance.code() as u16;
        assert(odr | (performance << 4) == odr + 16 * performance) by (bit_vector)
            requires
                odr < 16,
                performance < 4,
        ;
        odr | (performance << 4)
    }
}

impl vstd::std_specs::convert::FromSpecImpl<MagConfig> for u16 {
    open spec fn obeys_from_spec() -> bool {
        true
    }

    open spec fn from_spec(config: MagConfig) -> u16 {
        config.spec_bits()
    }
}

/// Builds a [`MagConfig`] field by field.
#[derive(Debug, Clone, Copy)]
pub struct MagConfigBuilder {
    /// The configuration so far.
    pub config: MagConfig,
}

impl MagConfigBuilder {
    /// Sets the output data rate.
    pub fn odr(self, odr: DataRate) -> (builder: Self)
        ensures
            builder.config == (MagConfig { odr, performance: self.config.performance }),
    {
        MagConfigBuilder { config: MagConfig { odr, performance: self.config.performance } }
    }

    /// Sets the performance mode.
    pub fn performance(self, performance: PerformanceMode) -> (builder: Self)
        ensures
            builder.config == (MagConfig { odr: self.config.odr, performance }),
    {
        MagConfigBuilder { config: MagConfig { odr: self.config.odr, performance } }
    }

    /// The configuration.
    pub fn build(self) -> (config: MagConfig)
        ensures
            config == self.config,
    {
        self.config
    }
}

/// One raw measurement.
#[derive(Debug, Clone, Copy, PartialEq, Eq, Structural)]
pub struct Sensor3DData {
    /// X axis.
    pub x: i32,
    /// Y axis.
    pub y: i32,
    /// Z axis.
    pub z: i32,
}

/// Offsets of the magnetometer, out of the one-time-programmable memory.
#[derive(Debug, Clone, Copy, PartialEq, Eq, Structural)]
pub struct MagCompensation {
    /// Offset of the X axis.
    pub offset_x: i16,
    /// Offset of the Y axis.
    pub offset_y: i16,
    /// Offset of the Z axis.
    pub offset_z: i16,
}

impl Default for MagCompensation {
    fn default() -> (comp: Self)
        ensures
            comp == (MagCompensation { offset_x: 0, offset_y: 0, offset_z: 0 }),
    {
        MagCompensation { offset_x: 0, offset_y: 0, offset_z: 0 }
    }
}

/// The fields of the status register of the power management unit.
#[derive(Debug, Clone, Copy, PartialEq, Eq, Structural)]
pub struct PmuCmdStatus0 {
    /// A command is running.
    pub pmu_cmd_busy: u8,
    /// The data rate was overwritten.
    pub odr_overwrite: u8,
    /// The averaging was overwritten.
    pub avg_overwrite: u8,
    /// The device is in normal mode.
    pub power_mode_is_normal: u8,
    /// The command was illegal.
    pub cmd_is_illegal: u8,
    /// The last command.
    pub pmu_cmd_value: u8,
}

} // verus!
