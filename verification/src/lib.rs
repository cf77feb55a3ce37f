//! Driver for the BMM350 magnetometer.
//!
//! [`Bmm350`] is the driver, [`I2cInterface`] the register access that it needs,
//! over any [`bus::I2cBus`]. What the driver does is stated as a history of
//! register accesses and pauses: [`trace`] defines it, [`protocol`] says which
//! histories and results an operation can have, and the driver's methods are
//! proved to have no others. [`link`] keeps the history, one access or pause at a
//! time. [`codec`] is the arithmetic of the registers.
//!
//! The remaining modules state what holds of the driver as a whole:
//!
//! - [`effects`]: what each operation is for, byte by byte;
//! - [`faults`]: a failed access ends an operation, with its error;
//! - [`verdicts`]: any other error is called for by the answers of the device;
//! - [`determinism`]: the answers of the device decide what an operation does;
//! - [`bounds`]: how long an operation takes at most, and what it writes;
//! - [`outcomes`]: what a result says about the device;
//! - [`frames`]: how the accesses appear on the bus;
//! - [`replay`]: how an operation is continued with [`playback`].

pub mod bounds;
pub mod bus;
pub mod codec;
pub mod determinism;
pub mod device;
pub mod effects;
pub mod faults;
pub mod frames;
pub mod interface;
pub mod link;
pub mod outcomes;
pub mod playback;
pub mod protocol;
pub mod register;
pub mod replay;
pub mod trace;
pub mod types;
pub mod verdicts;

pub use crate::device::Bmm350;
pub use crate::interface::{I2cInterface, ReadData, WriteData};
pub use crate::register::Register;
pub use crate::types::{
    AverageNum, AxisEnableDisable, DataRate, Error, InterruptDrive, InterruptEnableDisable,
    InterruptLatch, InterruptMap, InterruptPolarity, MagCompensation, MagConfig, PerformanceMode,
    PmuCmdStatus0, PowerMode, Sensor3DData,
};
