use bmm350::codec;
use bmm350::{
    AverageNum, AxisEnableDisable, DataRate, InterruptDrive, InterruptEnableDisable,
    InterruptLatch, InterruptMap, InterruptPolarity, MagCompensation, MagConfig, PerformanceMode,
    PmuCmdStatus0, PowerMode, Sensor3DData,
};

const RATES: [(DataRate, u8); 9] = [
    (DataRate::ODR400Hz, 2),
    (DataRate::ODR200Hz, 3),
    (DataRate::ODR100Hz, 4),
    (DataRate::ODR50Hz, 5),
    (DataRate::ODR25Hz, 6),
    (DataRate::ODR12_5Hz, 7),
    (DataRate::ODR6_25Hz, 8),
    (DataRate::ODR3_125Hz, 9),
    (DataRate::ODR1_5625Hz, 10),
];

const AVERAGES: [(AverageNum, u8); 4] = [
    (AverageNum::NoAverage, 0),
    (AverageNum::Average2, 1),
    (AverageNum::Average4, 2),
    (AverageNum::Average8, 3),
];

const MODES: [(PowerMode, u8); 6] = [
    (PowerMode::Suspend, 0),
    (PowerMode::Normal, 1),
    (PowerMode::Forced, 3),
    (PowerMode::ForcedFast, 4),
    (PowerMode::FluxGuideReset, 5),
    (PowerMode::BitReset, 7),
];

#[test]
fn a_word_is_split_low_byte_first() {
    assert_eq!(codec::le_bytes(0x00B6), (0xB6, 0x00));
    assert_eq!(codec::le_bytes(0x1234), (0x34, 0x12));
    assert_eq!(codec::le_bytes(0xFFFF), (0xFF, 0xFF));
}

#[test]
fn a_split_word_is_joined_again() {
    for value in 0..=u16::MAX {
        let (low, high) = codec::le_bytes(value);
        assert_eq!(codec::otp_word(high, low), value);
    }
}

#[test]
fn memory_words_are_joined() {
    assert_eq!(codec::otp_word(0x12, 0x34), 0x1234);
    assert_eq!(codec::otp_word(0x00, 0xFF), 0x00FF);
    assert_eq!(codec::otp_word(0xFF, 0x00), 0xFF00);
}

#[test]
fn memory_commands_have_the_read_bit_and_five_address_bits() {
    assert_eq!(codec::otp_command(0), 0x20);
    assert_eq!(codec::otp_command(14), 0x2E);
    assert_eq!(codec::otp_command(31), 0x3F);
    assert_eq!(codec::otp_command(32), 0x20);
    assert_eq!(codec::otp_command(255), 0x3F);
}

#[test]
fn memory_completion_is_bit_zero() {
    assert!(codec::otp_complete(0x01));
    assert!(codec::otp_complete(0xFF));
    assert!(!codec::otp_complete(0x00));
    assert!(!codec::otp_complete(0xFE));
}

#[test]
fn the_variant_is_six_bits_of_word_thirty() {
    let mut words = [0u16; 32];
    assert_eq!(codec::variant_id(&words), 0);
    words[30] = 0x7F00;
    assert_eq!(codec::variant_id(&words), 63);
    words[30] = 0x8100;
    assert_eq!(codec::variant_id(&words), 0);
    words[30] = 0x0A00;
    assert_eq!(codec::variant_id(&words), 5);
    words[29] = 0xFFFF;
    words[31] = 0xFFFF;
    assert_eq!(codec::variant_id(&words), 5);
}

#[test]
fn twelve_bits_have_a_sign() {
    assert_eq!(codec::extract_signed_12bit(0x000), 0);
    assert_eq!(codec::extract_signed_12bit(0x001), 1);
    assert_eq!(codec::extract_signed_12bit(0x7FF), 2047);
    assert_eq!(codec::extract_signed_12bit(0x800), -2048);
    assert_eq!(codec::extract_signed_12bit(0xFFF), -1);
}

#[test]
fn wider_words_keep_their_high_bits_without_a_sign() {
    assert_eq!(codec::extract_signed_12bit(0x1000), 0x1000);
    assert_eq!(codec::extract_signed_12bit(0x1800), -2048);
    assert_eq!(codec::extract_signed_12bit(0xF000), -4096);
    assert_eq!(codec::extract_signed_12bit(0x8001), -32767);
}

#[test]
fn every_twelve_bit_number_is_read_as_itself() {
    for number in -2048i32..2048 {
        let value = (number & 0xFFF) as u16;
        assert_eq!(codec::extract_signed_12bit(value) as i32, number);
    }
}

#[test]
fn offsets_are_spread_over_three_words() {
    let mut words = [0u16; 32];
    words[14] = 0x5ABC;
    words[15] = 0x9812;
    words[16] = 0xFF34;
    assert_eq!(
        codec::offsets(&words),
        MagCompensation {
            offset_x: 0xABC - 0x1000,
            offset_y: 0x512,
            offset_z: 0x834 - 0x1000,
        }
    );
}

#[test]
fn offsets_ignore_the_other_words() {
    let mut words = [0xFFFFu16; 32];
    words[14] = 0;
    words[15] = 0;
    words[16] = 0;
    assert_eq!(codec::offsets(&words), MagCompensation::default());
}

#[test]
fn the_default_offsets_are_zero() {
    assert_eq!(
        MagCompensation::default(),
        MagCompensation { offset_x: 0, offset_y: 0, offset_z: 0 }
    );
}

#[test]
fn the_status_is_taken_apart() {
    assert_eq!(
        codec::pmu_status(0b1010_1001),
        PmuCmdStatus0 {
            pmu_cmd_busy: 1,
            odr_overwrite: 0,
            avg_overwrite: 0,
            power_mode_is_normal: 1,
            cmd_is_illegal: 0,
            pmu_cmd_value: 5,
        }
    );
    assert_eq!(
        codec::pmu_status(0b1111_0110),
        PmuCmdStatus0 {
            pmu_cmd_busy: 0,
            odr_overwrite: 1,
            avg_overwrite: 1,
            power_mode_is_normal: 0,
            cmd_is_illegal: 1,
            pmu_cmd_value: 7,
        }
    );
}

#[test]
fn the_fields_of_the_status_make_the_status() {
    for status in 0..=u8::MAX {
        let f = codec::pmu_status(status);
        assert_eq!(
            f.pmu_cmd_busy
                | f.odr_overwrite << 1
                | f.avg_overwrite << 2
                | f.power_mode_is_normal << 3
                | f.cmd_is_illegal << 4
                | f.pmu_cmd_value << 5,
            status
        );
    }
}

#[test]
fn settling_times() {
    let normal = [38_000u32; 4];
    let forced = [15_000u32, 17_000, 20_000, 28_000];
    let fast = [4_000u32, 5_000, 9_000, 16_000];
    for averaging in 0..4usize {
        // The rate and the high bits do not matter
        for other in [0x00u8, 0x0F, 0xC4] {
            let set = (averaging as u8) << 4 | other;
            assert_eq!(codec::settle_delay(PowerMode::Normal, set), normal[averaging]);
            assert_eq!(codec::settle_delay(PowerMode::Forced, set), forced[averaging]);
            assert_eq!(codec::settle_delay(PowerMode::ForcedFast, set), fast[averaging]);
            assert_eq!(codec::settle_delay(PowerMode::Suspend, set), 0);
            assert_eq!(codec::settle_delay(PowerMode::BitReset, set), 0);
            assert_eq!(codec::settle_delay(PowerMode::FluxGuideReset, set), 0);
        }
    }
}

#[test]
fn data_is_ready_by_bit_two() {
    assert!(codec::is_data_ready(0x04));
    assert!(codec::is_data_ready(0xFF));
    assert!(!codec::is_data_ready(0x00));
    assert!(!codec::is_data_ready(0xFB));
}

#[test]
fn three_bytes_have_a_sign() {
    assert_eq!(codec::reconstruct_signed_24bit(0x00, 0x00, 0x00), 0);
    assert_eq!(codec::reconstruct_signed_24bit(0x01, 0x02, 0x03), 0x030201);
    assert_eq!(codec::reconstruct_signed_24bit(0xFF, 0xFF, 0x7F), 8_388_607);
    assert_eq!(codec::reconstruct_signed_24bit(0x00, 0x00, 0x80), -8_388_608);
    assert_eq!(codec::reconstruct_signed_24bit(0xFF, 0xFF, 0xFF), -1);
    assert_eq!(codec::reconstruct_signed_24bit(0x18, 0xFC, 0xFF), -1000);
}

#[test]
fn numbers_of_three_bytes_are_read_as_themselves() {
    let mut number = -0x800000i32;
    while number < 0x800000 {
        let b = number.to_le_bytes();
        assert_eq!(codec::reconstruct_signed_24bit(b[0], b[1], b[2]), number);
        number += 997;
    }
}

#[test]
fn a_measurement_is_x_y_z() {
    let bytes = [0x01, 0x00, 0x00, 0xFE, 0xFF, 0xFF, 0x00, 0x01, 0x00];
    assert_eq!(codec::sample(&bytes), Sensor3DData { x: 1, y: -2, z: 256 });
}

#[test]
fn axes_have_one_bit_each() {
    let off = AxisEnableDisable::Disable;
    let on = AxisEnableDisable::Enable;
    assert_eq!(codec::axes_bits(off, off, off), 0);
    assert_eq!(codec::axes_bits(on, off, off), 1);
    assert_eq!(codec::axes_bits(off, on, off), 2);
    assert_eq!(codec::axes_bits(off, off, on), 4);
    assert_eq!(codec::axes_bits(on, on, on), 7);
}

#[test]
fn rate_and_averaging_share_a_byte() {
    for (odr, rate) in RATES {
        assert_eq!(odr.code(), rate);
        for (performance, averaging) in AVERAGES {
            assert_eq!(performance.code(), averaging);
            assert_eq!(codec::rate_bits(odr, performance), rate | averaging << 4);
        }
    }
}

#[test]
fn a_configuration_has_the_bits_of_the_rate_byte() {
    let modes = [
        PerformanceMode::LowPower,
        PerformanceMode::Regular,
        PerformanceMode::LowNoise,
        PerformanceMode::UltraLowNoise,
    ];
    for (odr, _) in RATES {
        for (mode, (average, _)) in modes.iter().zip(AVERAGES) {
            let config = MagConfig::builder().odr(odr).performance(*mode).build();
            assert_eq!(u16::from(config), codec::rate_bits(odr, average) as u16);
        }
    }
}

#[test]
fn the_builder_starts_at_100_hz_and_regular() {
    let config = MagConfig::builder().build();
    assert_eq!(config.odr, DataRate::ODR100Hz);
    assert_eq!(config.performance, PerformanceMode::Regular);
    assert_eq!(u16::from(config), 0x14);
}

#[test]
fn the_builder_sets_one_field_at_a_time() {
    let config = MagConfig::builder().odr(DataRate::ODR400Hz).build();
    assert_eq!(config.performance, PerformanceMode::Regular);
    let config = MagConfig::builder().performance(PerformanceMode::LowNoise).build();
    assert_eq!(config.odr, DataRate::ODR100Hz);
    assert_eq!(u16::from(config), 0x24);
}

#[test]
fn the_data_ready_interrupt_is_bit_seven() {
    assert_eq!(codec::data_ready_bits(InterruptEnableDisable::Enable), 0x80);
    assert_eq!(codec::data_ready_bits(InterruptEnableDisable::Disable), 0x00);
}

#[test]
fn interrupt_settings_have_one_bit_each() {
    let none = (
        InterruptLatch::Pulsed,
        InterruptPolarity::ActiveLow,
        InterruptDrive::OpenDrain,
        InterruptMap::UnmapFromPin,
    );
    assert_eq!(codec::interrupt_bits(none.0, none.1, none.2, none.3), 0);
    assert_eq!(codec::interrupt_bits(InterruptLatch::Latched, none.1, none.2, none.3), 1);
    assert_eq!(codec::interrupt_bits(none.0, InterruptPolarity::ActiveHigh, none.2, none.3), 2);
    assert_eq!(codec::interrupt_bits(none.0, none.1, InterruptDrive::PushPull, none.3), 4);
    assert_eq!(codec::interrupt_bits(none.0, none.1, none.2, InterruptMap::MapToPin), 8);
}

#[test]
fn the_watchdog_has_two_bits() {
    assert_eq!(codec::watchdog_bits(false, false), 0);
    assert_eq!(codec::watchdog_bits(true, false), 1);
    assert_eq!(codec::watchdog_bits(false, true), 2);
    assert_eq!(codec::watchdog_bits(true, true), 3);
}

#[test]
fn mode_codes() {
    for (mode, code) in MODES {
        assert_eq!(mode.code(), code);
        assert!(code <= bmm350::Register::PMU_CMD_NM_TC);
    }
}
