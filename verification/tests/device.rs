use bmm350::playback::{NoReply, Pauses, Playback, Request};
use bmm350::{
    AverageNum, AxisEnableDisable, Bmm350, DataRate, Error, I2cInterface, InterruptDrive,
    InterruptEnableDisable, InterruptLatch, InterruptMap, InterruptPolarity, MagCompensation,
    MagConfig, PerformanceMode, PowerMode, Register, Sensor3DData,
};

const ADDRESS: u8 = 0x14;

type Device = Bmm350<I2cInterface<Playback>, Pauses>;

type Reply = Option<Vec<u8>>;

fn device(replies: Vec<Reply>) -> Device {
    Bmm350::new_with_i2c(Playback::new(replies), ADDRESS, Pauses::new())
}

/// The reply to a write.
fn ack() -> Reply {
    Some(vec![])
}

/// The reply to a reading of one register.
fn byte(value: u8) -> Reply {
    Some(vec![0xAA, 0x55, value])
}

fn write(register: u8, value: u8) -> Request {
    Request::Write { address: ADDRESS, bytes: vec![register, value] }
}

fn read(register: u8) -> Request {
    Request::WriteRead { address: ADDRESS, bytes: vec![register], len: 3 }
}

#[test]
fn a_new_device_knows_nothing() {
    let d = device(vec![]);
    assert_eq!(d.link.iface().address(), ADDRESS);
    assert_eq!(d.mag_range, 1000);
    assert_eq!(d.var_id, 0);
    assert_eq!(d.mag_comp, MagCompensation::default());
    assert!(d.link.iface().i2c().asked.is_empty());
    assert!(d.link.delay().us.is_empty());
}

#[test]
fn a_mode_is_entered_from_suspend() {
    let mut d = device(vec![byte(0x00), ack(), byte(0x14)]);
    assert_eq!(d.set_power_mode(PowerMode::Normal), Ok(()));
    assert_eq!(d.link.iface().i2c().asked, vec![read(0x06), write(0x06, 0x01), read(0x04)]);
    assert_eq!(d.link.delay().us, vec![38_000]);
}

#[test]
fn a_mode_is_left_through_suspend() {
    for last in [0x01, 0x02] {
        let mut d = device(vec![byte(last), ack(), ack(), byte(0x24)]);
        assert_eq!(d.set_power_mode(PowerMode::Forced), Ok(()));
        assert_eq!(
            d.link.iface().i2c().asked,
            vec![read(0x06), write(0x06, 0x00), write(0x06, 0x03), read(0x04)]
        );
        assert_eq!(d.link.delay().us, vec![6_000, 20_000]);
    }
}

#[test]
fn the_fast_forced_mode_waits_less() {
    let mut d = device(vec![byte(0x03), ack(), byte(0x3A)]);
    assert_eq!(d.set_power_mode(PowerMode::ForcedFast), Ok(()));
    assert_eq!(d.link.iface().i2c().asked, vec![read(0x06), write(0x06, 0x04), read(0x04)]);
    assert_eq!(d.link.delay().us, vec![16_000]);
}

#[test]
fn suspend_waits_for_nothing() {
    let mut d = device(vec![byte(0x09), ack(), byte(0x14)]);
    assert_eq!(d.set_power_mode(PowerMode::Suspend), Ok(()));
    assert_eq!(d.link.delay().us, vec![0]);
}

#[test]
fn an_unknown_command_is_refused_without_a_write() {
    for last in [0x0A, 0xFF] {
        let mut d = device(vec![byte(last), ack(), ack(), ack()]);
        assert_eq!(d.set_power_mode(PowerMode::Normal), Err(Error::InvalidConfig));
        assert_eq!(d.link.iface().i2c().asked, vec![read(0x06)]);
        assert!(d.link.delay().us.is_empty());
    }
}

#[test]
fn a_change_of_mode_stops_at_each_failure() {
    let good = [byte(0x01), ack(), ack(), byte(0x04)];
    for n in 0..good.len() {
        let mut replies = good[..n].to_vec();
        replies.push(None);
        let mut d = device(replies);
        assert_eq!(d.set_power_mode(PowerMode::Normal), Err(Error::Comm(NoReply)));
        assert_eq!(d.link.iface().i2c().asked.len(), n + 1);
        assert_eq!(d.link.delay().us, if n < 2 { vec![] } else { vec![6_000] });
    }
}

/// The replies to a magnetic reset of a device that is not in normal mode.
fn quiet_reset() -> Vec<Reply> {
    vec![byte(0x00), ack(), byte(0xE0), ack(), byte(0xA0)]
}

#[test]
fn a_reset_is_both_resets() {
    let mut d = device(quiet_reset());
    assert_eq!(d.magnetic_reset(), Ok(()));
    assert_eq!(
        d.link.iface().i2c().asked,
        vec![read(0x07), write(0x06, 0x07), read(0x07), write(0x06, 0x05), read(0x07)]
    );
    assert_eq!(d.link.delay().us, vec![14_000, 18_000]);
}

#[test]
fn a_reset_returns_to_normal_mode() {
    let mut d = device(vec![
        byte(0x08),
        // To suspend
        byte(0x01),
        ack(),
        ack(),
        byte(0x14),
        // Resets
        ack(),
        byte(0xE0),
        ack(),
        byte(0xBF),
        // To normal mode
        byte(0x05),
        ack(),
        byte(0x14),
    ]);
    assert_eq!(d.magnetic_reset(), Ok(()));
    assert_eq!(
        d.link.iface().i2c().asked,
        vec![
            read(0x07),
            read(0x06),
            write(0x06, 0x00),
            write(0x06, 0x00),
            read(0x04),
            write(0x06, 0x07),
            read(0x07),
            write(0x06, 0x05),
            read(0x07),
            read(0x06),
            write(0x06, 0x01),
            read(0x04),
        ]
    );
    assert_eq!(d.link.delay().us, vec![6_000, 0, 14_000, 18_000, 38_000]);
}

#[test]
fn an_unconfirmed_bit_reset_ends_the_reset() {
    let mut d = device(vec![byte(0x00), ack(), byte(0xA0), ack(), byte(0xA0)]);
    assert_eq!(d.magnetic_reset(), Err(Error::ResetUnfinished));
    assert_eq!(d.link.iface().i2c().asked.len(), 3);
    assert_eq!(d.link.delay().us, vec![14_000]);
}

#[test]
fn an_unconfirmed_flux_guide_reset_ends_the_reset() {
    let mut d = device(vec![byte(0x00), ack(), byte(0xE0), ack(), byte(0xE0)]);
    assert_eq!(d.magnetic_reset(), Err(Error::ResetUnfinished));
    assert_eq!(d.link.iface().i2c().asked.len(), 5);
    assert_eq!(d.link.delay().us, vec![14_000, 18_000]);
}

#[test]
fn a_reset_passes_on_what_a_change_of_mode_refuses() {
    let mut d = device(vec![byte(0x08), byte(0x0A)]);
    assert_eq!(d.magnetic_reset(), Err(Error::InvalidConfig));
    assert_eq!(d.link.iface().i2c().asked, vec![read(0x07), read(0x06)]);
}

#[test]
fn a_reset_stops_at_each_failure() {
    let good = quiet_reset();
    for n in 0..good.len() {
        let mut replies = good[..n].to_vec();
        replies.push(None);
        let mut d = device(replies);
        assert_eq!(d.magnetic_reset(), Err(Error::Comm(NoReply)));
        assert_eq!(d.link.iface().i2c().asked.len(), n + 1);
    }
}

/// The memory of a device: the offsets are -1, 0x512 and 2, the variant is 5.
fn memory() -> [u16; 32] {
    let mut words = [0x1111u16; 32];
    words[14] = 0x5FFF;
    words[15] = 0x7012;
    words[16] = 0xFF02;
    words[30] = 0x0A00;
    words
}

/// The replies to an initialization up to the end of the memory.
fn boot(words: &[u16; 32]) -> Vec<Reply> {
    let mut replies = vec![ack(), byte(0x33)];
    for word in words {
        replies.push(ack());
        replies.push(byte(0x01));
        replies.push(byte((word >> 8) as u8));
        replies.push(byte(*word as u8));
    }
    replies
}

#[test]
fn an_initialization_reads_the_memory_and_resets() {
    let mut replies = boot(&memory());
    replies.push(ack());
    replies.extend(quiet_reset());
    let mut d = device(replies);
    assert_eq!(d.init(), Ok(()));
    assert_eq!(d.var_id, 5);
    assert_eq!(d.mag_comp, MagCompensation { offset_x: -1, offset_y: 0x512, offset_z: 2 });
    assert_eq!(d.mag_range, 1000);

    let mut asked = vec![
        Request::Write { address: ADDRESS, bytes: vec![0x7E, 0xB6, 0x00] },
        read(0x00),
    ];
    for i in 0..32 {
        asked.push(write(0x50, 0x20 | i));
        asked.push(read(0x55));
        asked.push(read(0x52));
        asked.push(read(0x53));
    }
    asked.push(write(0x50, 0x80));
    asked.extend(vec![
        read(0x07),
        write(0x06, 0x07),
        read(0x07),
        write(0x06, 0x05),
        read(0x07),
    ]);
    assert_eq!(d.link.iface().i2c().asked, asked);
    let mut pauses = vec![3_000, 24_000];
    pauses.extend(vec![300; 32]);
    pauses.extend(vec![14_000, 18_000]);
    assert_eq!(d.link.delay().us, pauses);
}

#[test]
fn what_was_known_before_an_initialization_does_not_matter() {
    let mut replies = boot(&memory());
    replies.push(ack());
    replies.extend(quiet_reset());
    let mut fresh = device(replies.clone());
    let mut used = device(replies);
    used.var_id = 63;
    used.mag_comp = MagCompensation { offset_x: 7, offset_y: 8, offset_z: 9 };
    assert_eq!(fresh.init(), Ok(()));
    assert_eq!(used.init(), Ok(()));
    assert_eq!(used.var_id, fresh.var_id);
    assert_eq!(used.mag_comp, fresh.mag_comp);
    assert_eq!(used.link.iface().i2c().asked, fresh.link.iface().i2c().asked);
    assert_eq!(used.link.delay().us, fresh.link.delay().us);
}

#[test]
fn another_device_gets_nothing_but_the_soft_reset() {
    for id in [0x00, 0x32, 0xFF] {
        let mut d = device(vec![ack(), byte(id), ack()]);
        assert_eq!(d.init(), Err(Error::InvalidDevice));
        assert_eq!(
            d.link.iface().i2c().asked,
            vec![
                Request::Write { address: ADDRESS, bytes: vec![0x7E, 0xB6, 0x00] },
                read(0x00),
            ]
        );
        assert_eq!(d.link.delay().us, vec![3_000, 24_000]);
        assert_eq!(d.var_id, 0);
    }
}

#[test]
fn a_slow_memory_is_asked_ten_times() {
    let mut replies = vec![ack(), byte(0x33), ack()];
    for _ in 0..10 {
        replies.push(byte(0xFE));
    }
    replies.push(byte(0x12));
    replies.push(byte(0x34));
    let mut d = device(replies);
    // The word is read all the same, and the next command has no reply
    assert_eq!(d.init(), Err(Error::Comm(NoReply)));
    assert_eq!(d.link.iface().i2c().asked.len(), 3 + 10 + 2 + 1);
    assert_eq!(d.link.iface().i2c().asked[12], read(0x55));
    assert_eq!(d.link.iface().i2c().asked[13], read(0x52));
    assert_eq!(d.link.iface().i2c().asked[14], read(0x53));
    assert_eq!(d.link.iface().i2c().asked[15], write(0x50, 0x21));
    let mut pauses = vec![3_000, 24_000];
    pauses.extend(vec![300; 10]);
    assert_eq!(d.link.delay().us, pauses);
}

#[test]
fn the_memory_is_asked_until_it_is_complete() {
    let mut d = device(vec![
        ack(),
        byte(0x33),
        ack(),
        byte(0x00),
        byte(0x00),
        byte(0x01),
        byte(0x12),
        byte(0x34),
    ]);
    assert_eq!(d.init(), Err(Error::Comm(NoReply)));
    assert_eq!(d.link.iface().i2c().asked[6], read(0x52));
    assert_eq!(d.link.delay().us, vec![3_000, 24_000, 300, 300, 300]);
}

#[test]
fn a_failed_memory_leaves_what_was_known() {
    let good = boot(&memory());
    for n in [0, 1, 2, 3, 4, 5, 70, good.len() - 1] {
        let mut replies = good[..n].to_vec();
        replies.push(None);
        let mut d = device(replies);
        d.var_id = 9;
        assert_eq!(d.init(), Err(Error::Comm(NoReply)));
        assert_eq!(d.link.iface().i2c().asked.len(), n + 1);
        assert_eq!(d.var_id, 9);
        assert_eq!(d.mag_comp, MagCompensation::default());
    }
}

#[test]
fn a_failure_after_the_memory_keeps_what_it_says() {
    let mut replies = boot(&memory());
    replies.push(None);
    let mut d = device(replies);
    assert_eq!(d.init(), Err(Error::Comm(NoReply)));
    assert_eq!(d.var_id, 5);
    assert_eq!(d.mag_comp.offset_x, -1);
}

#[test]
fn an_initialization_passes_on_what_the_reset_says() {
    let mut replies = boot(&memory());
    replies.push(ack());
    replies.extend(vec![byte(0x00), ack(), byte(0x00)]);
    let mut d = device(replies);
    assert_eq!(d.init(), Err(Error::ResetUnfinished));
    assert_eq!(d.var_id, 5);
}

#[test]
fn a_configuration_waits_for_data() {
    let config = MagConfig::builder()
        .odr(DataRate::ODR50Hz)
        .performance(PerformanceMode::UltraLowNoise)
        .build();
    let mut d = device(vec![ack(), byte(0x00), byte(0xFB), byte(0x04)]);
    assert_eq!(d.set_mag_config(config), Ok(()));
    assert_eq!(
        d.link.iface().i2c().asked,
        vec![
            Request::Write { address: ADDRESS, bytes: vec![0x04, 0x35, 0x00] },
            read(0x30),
            read(0x30),
            read(0x30),
        ]
    );
    assert_eq!(d.link.delay().us, vec![1_000, 1_000]);
}

#[test]
fn a_configuration_gives_up_after_a_hundred_readings() {
    let mut replies = vec![ack()];
    replies.extend(vec![byte(0x00); 200]);
    let mut d = device(replies);
    assert_eq!(d.set_mag_config(MagConfig::builder().build()), Err(Error::Timeout));
    assert_eq!(d.link.iface().i2c().asked.len(), 101);
    assert_eq!(d.link.delay().us, vec![1_000; 100]);
}

#[test]
fn data_at_the_last_reading_is_in_time() {
    let mut replies = vec![ack()];
    replies.extend(vec![byte(0x00); 99]);
    replies.push(byte(0x04));
    let mut d = device(replies);
    assert_eq!(d.set_mag_config(MagConfig::builder().build()), Ok(()));
    assert_eq!(d.link.delay().us, vec![1_000; 99]);
}

#[test]
fn a_configuration_stops_at_each_failure() {
    let good = [ack(), byte(0x00), byte(0x00)];
    for n in 0..=good.len() {
        let mut replies = good[..n].to_vec();
        replies.push(None);
        let mut d = device(replies);
        let r = d.set_mag_config(MagConfig::builder().build());
        assert_eq!(r, Err(Error::Comm(NoReply)));
        assert_eq!(d.link.iface().i2c().asked.len(), n + 1);
    }
}

#[test]
fn the_interrupt_status_is_the_data_ready_bit() {
    let mut d = device(vec![byte(0x04), byte(0xFB), None]);
    assert_eq!(d.get_interrupt_status(), Ok(true));
    assert_eq!(d.get_interrupt_status(), Ok(false));
    assert_eq!(d.get_interrupt_status(), Err(Error::Comm(NoReply)));
    assert_eq!(d.link.iface().i2c().asked, vec![read(0x30), read(0x30), read(0x30)]);
    assert!(d.link.delay().us.is_empty());
}

#[test]
fn a_measurement_is_read_in_one_burst() {
    let mut d = device(vec![
        Some(vec![0xAA, 0x55, 0x10, 0x27, 0x00, 0xF0, 0xD8, 0xFF, 0x00, 0x00, 0x80]),
        None,
    ]);
    assert_eq!(d.read_mag_data(), Ok(Sensor3DData { x: 10_000, y: -10_000, z: -8_388_608 }));
    assert_eq!(d.read_mag_data(), Err(Error::Comm(NoReply)));
    let burst = || Request::WriteRead { address: ADDRESS, bytes: vec![0x31], len: 11 };
    assert_eq!(d.link.iface().i2c().asked, vec![burst(), burst()]);
}

#[test]
fn axes_are_written_in_one_byte() {
    let mut d = device(vec![ack(), None]);
    let on = AxisEnableDisable::Enable;
    let off = AxisEnableDisable::Disable;
    assert_eq!(d.enable_axes(on, off, on), Ok(()));
    assert_eq!(d.enable_axes(off, on, off), Err(Error::Comm(NoReply)));
    assert_eq!(d.link.iface().i2c().asked, vec![write(0x05, 0x05), write(0x05, 0x02)]);
}

#[test]
fn rate_and_averaging_are_written_and_updated() {
    let mut d = device(vec![ack(), ack()]);
    assert_eq!(d.set_odr_performance(DataRate::ODR25Hz, AverageNum::Average4), Ok(()));
    assert_eq!(d.link.iface().i2c().asked, vec![write(0x04, 0x26), write(0x06, 0x02)]);
    assert_eq!(d.link.delay().us, vec![1_000]);
}

#[test]
fn a_change_of_rate_stops_at_each_failure() {
    for n in 0..2 {
        let mut replies = vec![ack(); n];
        replies.push(None);
        let mut d = device(replies);
        let r = d.set_odr_performance(DataRate::ODR400Hz, AverageNum::NoAverage);
        assert_eq!(r, Err(Error::Comm(NoReply)));
        assert_eq!(d.link.iface().i2c().asked.len(), n + 1);
        assert!(d.link.delay().us.is_empty());
    }
}

#[test]
fn the_data_ready_interrupt_is_switched() {
    let mut d = device(vec![byte(0x0F), ack(), byte(0x0F), ack(), None, byte(0), None]);
    assert_eq!(d.enable_interrupt(InterruptEnableDisable::Enable), Ok(()));
    assert_eq!(d.enable_interrupt(InterruptEnableDisable::Disable), Ok(()));
    assert_eq!(
        d.link.iface().i2c().asked,
        vec![read(0x2E), write(0x2E, 0x80), read(0x2E), write(0x2E, 0x00)]
    );
    let r = d.enable_interrupt(InterruptEnableDisable::Enable);
    assert_eq!(r, Err(Error::Comm(NoReply)));
    assert_eq!(d.link.iface().i2c().asked.len(), 5);
    let r = d.enable_interrupt(InterruptEnableDisable::Enable);
    assert_eq!(r, Err(Error::Comm(NoReply)));
    assert_eq!(d.link.iface().i2c().asked.len(), 7);
}

#[test]
fn the_interrupt_is_configured() {
    let mut d = device(vec![byte(0xFF), ack(), None]);
    let r = d.configure_interrupt(
        InterruptLatch::Latched,
        InterruptPolarity::ActiveLow,
        InterruptDrive::PushPull,
        InterruptMap::MapToPin,
    );
    assert_eq!(r, Ok(()));
    assert_eq!(d.link.iface().i2c().asked, vec![read(0x2E), write(0x2E, 0x0D)]);
    let r = d.configure_interrupt(
        InterruptLatch::Pulsed,
        InterruptPolarity::ActiveHigh,
        InterruptDrive::OpenDrain,
        InterruptMap::UnmapFromPin,
    );
    assert_eq!(r, Err(Error::Comm(NoReply)));
    assert_eq!(d.link.iface().i2c().asked.len(), 3);
}

#[test]
fn the_watchdog_is_set() {
    let mut d = device(vec![ack(), ack(), None]);
    assert_eq!(d.set_i2c_watchdog(true, true), Ok(()));
    assert_eq!(d.set_i2c_watchdog(false, false), Ok(()));
    assert_eq!(d.set_i2c_watchdog(true, false), Err(Error::Comm(NoReply)));
    assert_eq!(
        d.link.iface().i2c().asked,
        vec![write(0x0A, 0x03), write(0x0A, 0x00), write(0x0A, 0x01)]
    );
}

#[test]
fn operations_leave_what_is_known_of_the_device() {
    let mut d = device(vec![ack(), byte(0x04), byte(0x04), ack()]);
    d.var_id = 7;
    d.mag_comp = MagCompensation { offset_x: 1, offset_y: 2, offset_z: 3 };
    assert_eq!(d.set_mag_config(MagConfig::builder().build()), Ok(()));
    assert_eq!(d.get_interrupt_status(), Ok(true));
    assert_eq!(d.set_i2c_watchdog(true, true), Ok(()));
    assert_eq!(d.var_id, 7);
    assert_eq!(d.mag_comp, MagCompensation { offset_x: 1, offset_y: 2, offset_z: 3 });
}

#[test]
fn the_longest_initialization_waits_205_ms() {
    let mut replies = vec![ack(), byte(Register::BMM350_CHIP_ID)];
    for _ in 0..32 {
        replies.push(ack());
        replies.extend(vec![byte(0x00); 10]);
        replies.extend(vec![byte(0x00); 2]);
    }
    replies.push(ack());
    // In normal mode, and suspended twice
    replies.extend(vec![byte(0x08), byte(0x02), ack(), ack(), byte(0x00)]);
    replies.extend(vec![ack(), byte(0xE0), ack(), byte(0xA0)]);
    replies.extend(vec![byte(0x02), ack(), ack(), byte(0x00)]);
    let mut d = device(replies);
    assert_eq!(d.init(), Ok(()));
    assert_eq!(d.link.iface().i2c().pending(), None);
    assert_eq!(d.link.delay().us.iter().sum::<u64>(), 205_000);
    assert_eq!(d.link.iface().i2c().asked.len() + d.link.delay().us.len(), 760);
}
