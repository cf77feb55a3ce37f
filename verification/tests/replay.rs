use bmm350::playback::{NoReply, Pauses, Playback, Request};
use bmm350::{Bmm350, Error, I2cInterface, MagConfig, PowerMode};

type Device = Bmm350<I2cInterface<Playback>, Pauses>;

type Reply = Option<Vec<u8>>;

fn run<T>(
    replies: &[Reply],
    operation: fn(&mut Device) -> Result<T, Error<NoReply>>,
) -> (Result<T, Error<NoReply>>, Device) {
    let bus = Playback::new(replies.to_vec());
    let mut device = Bmm350::new_with_i2c(bus, 0x14, Pauses::new());
    let result = operation(&mut device);
    (result, device)
}

/// Feeds the replies one by one: each run asks for one more, and repeats the
/// requests and pauses of the run before.
fn feed<T: std::fmt::Debug + PartialEq>(
    replies: &[Reply],
    operation: fn(&mut Device) -> Result<T, Error<NoReply>>,
) {
    let (result, whole) = run(replies, operation);
    assert!(whole.link.iface().i2c().pending().is_none());
    for n in 0..replies.len() {
        let (early, device) = run(&replies[..n], operation);
        assert_eq!(early, Err(Error::Comm(NoReply)));
        assert_eq!(device.link.iface().i2c().asked.len(), n + 1);
        assert_eq!(device.link.iface().i2c().pending(), Some(&whole.link.iface().i2c().asked[n]));
        assert_eq!(device.link.iface().i2c().asked[..], whole.link.iface().i2c().asked[..n + 1]);
        let pauses = device.link.delay().us.len();
        assert_eq!(device.link.delay().us[..], whole.link.delay().us[..pauses]);
    }
    let (again, device) = run(replies, operation);
    assert_eq!(again, result);
    assert_eq!(device.link.iface().i2c().asked, whole.link.iface().i2c().asked);
    assert_eq!(device.link.delay().us, whole.link.delay().us);
}

fn ack() -> Reply {
    Some(vec![])
}

fn byte(value: u8) -> Reply {
    Some(vec![0, 0, value])
}

#[test]
fn a_change_of_mode_is_continued() {
    feed(&[byte(0x01), ack(), ack(), byte(0x14)], |d| d.set_power_mode(PowerMode::Normal));
}

#[test]
fn a_reset_is_continued() {
    feed(&[byte(0x00), ack(), byte(0xE0), ack(), byte(0xA0)], |d| d.magnetic_reset());
    feed(&[byte(0x00), ack(), byte(0xE0), ack(), byte(0x00)], |d| d.magnetic_reset());
}

#[test]
fn a_configuration_is_continued() {
    feed(&[ack(), byte(0), byte(0), byte(4)], |d| d.set_mag_config(MagConfig::builder().build()));
}

#[test]
fn an_initialization_is_continued() {
    let mut replies = vec![ack(), byte(0x33)];
    for i in 0..32 {
        replies.extend(vec![ack(), byte(0x00), byte(0x01), byte(i), byte(2 * i)]);
    }
    replies.extend(vec![ack(), byte(0x00), ack(), byte(0xE0), ack(), byte(0xA0)]);
    feed(&replies, |d| d.init());
}

#[test]
fn answers_decide() {
    let (first, a) = run(&[byte(0x00), ack(), byte(0x00)], |d| d.set_power_mode(PowerMode::Forced));
    let (second, b) = run(&[byte(0x00), ack(), byte(0x30)], |d| d.set_power_mode(PowerMode::Forced));
    assert_eq!(first, second);
    assert_eq!(a.link.iface().i2c().asked, b.link.iface().i2c().asked);
    // The answers differ at the end, and only then does the driver
    assert_eq!(a.link.delay().us, vec![15_000]);
    assert_eq!(b.link.delay().us, vec![28_000]);
}

#[test]
fn a_failed_request_is_the_last() {
    let (result, device) = run(&[byte(0x00), None, byte(0x00)], |d| d.set_power_mode(PowerMode::Normal));
    assert_eq!(result, Err(Error::Comm(NoReply)));
    assert_eq!(
        device.link.iface().i2c().asked,
        vec![
            Request::WriteRead { address: 0x14, bytes: vec![0x06], len: 3 },
            Request::Write { address: 0x14, bytes: vec![0x06, 0x01] },
        ]
    );
}
