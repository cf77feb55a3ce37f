use bmm350::playback::{NoReply, Pauses, Playback, Request};
use bmm350::{
    AverageNum, AxisEnableDisable, Bmm350, DataRate, Error, I2cInterface, InterruptEnableDisable,
    MagConfig, PowerMode, Register, Sensor3DData,
};

type Device = Bmm350<I2cInterface<Playback>, Pauses>;

/// A device with registers, a memory and a power management unit.
struct Chip {
    registers: [u8; 256],
    memory: [u16; 32],
    commands: Vec<u8>,
}

impl Chip {
    fn new() -> Self {
        let mut registers = [0u8; 256];
        registers[Register::CHIPID as usize] = Register::BMM350_CHIP_ID;
        Chip { registers, memory: [0; 32], commands: Vec::new() }
    }

    fn store(&mut self, register: u8, value: u8) {
        self.registers[register as usize] = value;
        if register == Register::PMU_CMD {
            self.commands.push(value);
            let normal = if value == Register::PMU_CMD_NM { 0x08 } else { 0x00 };
            self.registers[Register::PMU_CMD_STATUS_0 as usize] = (value & 0x07) << 5 | normal;
        }
        if register == Register::OTP_CMD_REG && value & 0xE0 == 0x20 {
            let word = self.memory[(value & 0x1F) as usize];
            self.registers[Register::OTP_DATA_MSB_REG as usize] = (word >> 8) as u8;
            self.registers[Register::OTP_DATA_LSB_REG as usize] = word as u8;
            self.registers[Register::OTP_STATUS_REG as usize] = 0x01;
        }
    }

    fn answer(&mut self, request: &Request) -> Vec<u8> {
        match request {
            Request::Write { address, bytes } => {
                assert_eq!(*address, 0x14);
                for (i, value) in bytes[1..].iter().enumerate() {
                    self.store(bytes[0] + i as u8, *value);
                }
                vec![]
            }
            Request::WriteRead { address, bytes, len } => {
                assert_eq!(*address, 0x14);
                let start = bytes[0] as usize;
                let mut reply = vec![0x7F, 0x7F];
                reply.extend_from_slice(&self.registers[start..start + len - 2]);
                reply
            }
        }
    }
}

/// Runs an operation on a chip: each run has one reply more, until all requests
/// are answered.
fn drive<T>(
    chip: &mut Chip,
    operation: impl Fn(&mut Device) -> Result<T, Error<NoReply>>,
) -> (Result<T, Error<NoReply>>, Device) {
    let mut replies = Vec::new();
    loop {
        let bus = Playback::new(replies);
        let mut device = Bmm350::new_with_i2c(bus, 0x14, Pauses::new());
        let result = operation(&mut device);
        let reply = match device.link.iface().i2c().pending() {
            Some(request) => chip.answer(request),
            None => return (result, device),
        };
        replies = device.link.release().0.release().replies;
        replies.push(Some(reply));
    }
}

#[test]
fn a_simulated_device_is_initialized() {
    let mut chip = Chip::new();
    chip.memory[14] = 0x1800;
    chip.memory[15] = 0x0234;
    chip.memory[16] = 0x0056;
    chip.memory[30] = 0x0400;
    let (result, device) = drive(&mut chip, |d| d.init());
    assert_eq!(result, Ok(()));
    assert_eq!(device.var_id, 2);
    assert_eq!(device.mag_comp.offset_x, -2048);
    assert_eq!(device.mag_comp.offset_y, 0x134);
    assert_eq!(device.mag_comp.offset_z, 0x256);
    assert_eq!(chip.commands, vec![0x07, 0x05]);
    assert_eq!(chip.registers[Register::OTP_CMD_REG as usize], 0x80);
}

#[test]
fn a_simulated_stranger_is_refused() {
    let mut chip = Chip::new();
    chip.registers[Register::CHIPID as usize] = 0x40;
    let (result, _) = drive(&mut chip, |d| d.init());
    assert_eq!(result, Err(Error::InvalidDevice));
    assert!(chip.commands.is_empty());
    assert_eq!(chip.registers[Register::OTP_CMD_REG as usize], 0x00);
}

#[test]
fn a_simulated_reset_ends_in_the_mode_that_it_began_in() {
    let mut chip = Chip::new();
    assert_eq!(drive(&mut chip, |d| d.set_power_mode(PowerMode::Normal)).0, Ok(()));
    assert_eq!(drive(&mut chip, |d| d.magnetic_reset()).0, Ok(()));
    assert_eq!(chip.registers[Register::PMU_CMD as usize], 0x01);
    assert_eq!(chip.commands, vec![0x01, 0x00, 0x00, 0x07, 0x05, 0x01]);
    assert_eq!(drive(&mut chip, |d| d.set_power_mode(PowerMode::Suspend)).0, Ok(()));
    chip.commands.clear();
    assert_eq!(drive(&mut chip, |d| d.magnetic_reset()).0, Ok(()));
    assert_eq!(chip.commands, vec![0x07, 0x05]);
}

#[test]
fn settings_reach_their_registers() {
    let mut chip = Chip::new();
    let on = AxisEnableDisable::Enable;
    assert_eq!(drive(&mut chip, |d| d.enable_axes(on, on, on)).0, Ok(()));
    let rate = |d: &mut Device| d.set_odr_performance(DataRate::ODR100Hz, AverageNum::Average8);
    assert_eq!(drive(&mut chip, rate).0, Ok(()));
    let enable = |d: &mut Device| d.enable_interrupt(InterruptEnableDisable::Enable);
    assert_eq!(drive(&mut chip, enable).0, Ok(()));
    assert_eq!(drive(&mut chip, |d| d.set_i2c_watchdog(true, false)).0, Ok(()));
    assert_eq!(chip.registers[0x05], 0x07);
    assert_eq!(chip.registers[0x04], 0x34);
    assert_eq!(chip.registers[0x06], 0x02);
    assert_eq!(chip.registers[0x2E], 0x80);
    assert_eq!(chip.registers[0x0A], 0x01);
}

#[test]
fn a_configuration_also_clears_the_register_after_its_own() {
    let mut chip = Chip::new();
    chip.registers[0x05] = 0x07;
    chip.registers[Register::STATUS as usize] = 0x04;
    let configure = |d: &mut Device| d.set_mag_config(MagConfig::builder().build());
    assert_eq!(drive(&mut chip, configure).0, Ok(()));
    assert_eq!(chip.registers[0x04], 0x14);
    assert_eq!(chip.registers[0x05], 0x00);
}

#[test]
fn a_simulated_measurement_is_read() {
    let mut chip = Chip::new();
    for (i, value) in [5u8, 0, 0, 0xFB, 0xFF, 0xFF, 0, 0, 1].iter().enumerate() {
        chip.registers[0x31 + i] = *value;
    }
    let (result, device) = drive(&mut chip, |d| d.read_mag_data());
    assert_eq!(result, Ok(Sensor3DData { x: 5, y: -5, z: 65_536 }));
    assert_eq!(device.link.iface().i2c().asked.len(), 1);
}
