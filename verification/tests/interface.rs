use bmm350::bus::I2cBus;
use bmm350::playback::{NoReply, Playback, Request};
use bmm350::{Error, I2cInterface, ReadData, WriteData};

fn interface(replies: Vec<Option<Vec<u8>>>) -> I2cInterface<Playback> {
    I2cInterface::new(Playback::new(replies), 0x15)
}

#[test]
fn a_register_is_written_in_one_frame() {
    let mut iface = interface(vec![Some(vec![])]);
    assert_eq!(iface.write_register(0x06, 0x01), Ok(()));
    assert_eq!(iface.i2c().asked, vec![Request::Write { address: 0x15, bytes: vec![0x06, 0x01] }]);
}

#[test]
fn data_is_written_as_it_is() {
    let mut iface = interface(vec![Some(vec![]), Some(vec![])]);
    assert_eq!(iface.write_data(&[0x7E, 0xB6, 0x00]), Ok(()));
    assert_eq!(iface.write_data(&[]), Ok(()));
    assert_eq!(
        iface.i2c().asked,
        vec![
            Request::Write { address: 0x15, bytes: vec![0x7E, 0xB6, 0x00] },
            Request::Write { address: 0x15, bytes: vec![] },
        ]
    );
}

#[test]
fn a_register_is_the_byte_after_the_dummy_bytes() {
    let mut iface = interface(vec![Some(vec![0xAA, 0xBB, 0x33])]);
    assert_eq!(iface.read_register(0x00), Ok(0x33));
    assert_eq!(
        iface.i2c().asked,
        vec![Request::WriteRead { address: 0x15, bytes: vec![0x00], len: 3 }]
    );
}

#[test]
fn data_is_what_follows_the_dummy_bytes() {
    let mut iface = interface(vec![Some(vec![0xAA, 0xBB, 1, 2, 3])]);
    let mut payload = [0x31, 0, 0, 0];
    assert_eq!(iface.read_data(&mut payload), Ok(&[1u8, 2, 3][..]));
    assert_eq!(payload, [0x31, 1, 2, 3]);
    assert_eq!(
        iface.i2c().asked,
        vec![Request::WriteRead { address: 0x15, bytes: vec![0x31], len: 5 }]
    );
}

#[test]
fn the_shortest_payload_asks_for_the_dummy_bytes_alone() {
    let mut iface = interface(vec![Some(vec![0xAA, 0xBB])]);
    let mut payload = [0x31];
    assert_eq!(iface.read_data(&mut payload), Ok(&[][..]));
    assert_eq!(payload, [0x31]);
}

#[test]
fn the_longest_payload_fills_the_buffer() {
    let reply: Vec<u8> = (0..128).collect();
    let mut iface = interface(vec![Some(reply)]);
    let mut payload = [0u8; 127];
    payload[0] = 0x40;
    let expected: Vec<u8> = (2..128).collect();
    assert_eq!(iface.read_data(&mut payload), Ok(&expected[..]));
    assert_eq!(payload[0], 0x40);
    assert_eq!(payload[1..], expected[..]);
}

#[test]
fn a_failed_reading_leaves_the_payload() {
    let mut iface = interface(vec![None]);
    let mut payload = [0x31, 7, 8, 9];
    assert_eq!(iface.read_data(&mut payload), Err(Error::Comm(NoReply)));
    assert_eq!(payload, [0x31, 7, 8, 9]);
}

#[test]
fn failures_of_the_bus_are_passed_on() {
    let mut iface = interface(vec![None, None, None]);
    assert_eq!(iface.write_register(1, 2), Err(Error::Comm(NoReply)));
    assert_eq!(iface.write_data(&[1]), Err(Error::Comm(NoReply)));
    assert_eq!(iface.read_register(1), Err(Error::Comm(NoReply)));
    assert_eq!(iface.i2c().asked.len(), 3);
}

#[test]
fn a_reply_of_another_length_is_none() {
    let mut bus = Playback::new(vec![Some(vec![1, 2]), Some(vec![1])]);
    let mut buffer = [9u8; 3];
    assert_eq!(bus.write_read(0x15, &[0], &mut buffer), Err(NoReply));
    assert_eq!(buffer, [9, 9, 9]);
    assert_eq!(bus.write(0x15, &[0]), Err(NoReply));
}

#[test]
fn a_request_beyond_the_replies_is_pending() {
    let mut bus = Playback::new(vec![Some(vec![])]);
    assert_eq!(bus.pending(), None);
    assert_eq!(bus.write(0x15, &[1]), Ok(()));
    assert_eq!(bus.pending(), None);
    assert_eq!(bus.write(0x15, &[2]), Err(NoReply));
    assert_eq!(bus.pending(), Some(&Request::Write { address: 0x15, bytes: vec![2] }));
    assert_eq!(bus.write(0x15, &[3]), Err(NoReply));
    assert_eq!(bus.pending(), Some(&Request::Write { address: 0x15, bytes: vec![2] }));
}
