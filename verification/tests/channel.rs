use sozu_control::channel::{Channel, ChannelError};

fn frame(payload: &[u8]) -> Vec<u8> {
    let l = payload.len() as u32;
    let mut f = vec![
        (l & 0xff) as u8,
        ((l >> 8) & 0xff) as u8,
        ((l >> 16) & 0xff) as u8,
        ((l >> 24) & 0xff) as u8,
    ];
    f.extend_from_slice(payload);
    f
}

#[test]
fn a_megabyte_dump_rides_a_two_megabyte_channel() {
    let payload: Vec<u8> = (0..1024 * 1024).map(|i| (i % 251) as u8).collect();
    let mut sender = Channel::new(2 * 1024 * 1024);
    assert_eq!(sender.write_message(&payload), Ok(()));
    let wire = sender.outgoing().clone();
    assert_eq!(wire.len(), payload.len() + 4);
    sender.advance_send(wire.len());
    assert_eq!(sender.outgoing().len(), 0);

    let mut receiver = Channel::new(2 * 1024 * 1024);
    assert_eq!(receiver.feed_incoming(&wire), Ok(()));
    let got = receiver.read_message().expect("a full frame was fed");
    assert_eq!(got, payload);
    assert_eq!(receiver.read_message(), None);
}

#[test]
fn a_full_send_buffer_refuses_and_stays_unchanged() {
    let payload: Vec<u8> = vec![7u8; 1024 * 1024];
    let mut sender = Channel::new(512 * 1024);
    assert_eq!(sender.write_message(&payload), Err(ChannelError::ChannelFull));
    assert_eq!(sender.outgoing().len(), 0);
    // a message that fits still goes through afterwards
    let small: Vec<u8> = vec![1u8; 16];
    assert_eq!(sender.write_message(&small), Ok(()));
    assert_eq!(sender.outgoing().len(), 20);
}

#[test]
fn the_length_prefix_is_four_little_endian_bytes() {
    let mut sender = Channel::new(64);
    sender.write_message(&b"hello".to_vec()).unwrap();
    assert_eq!(
        sender.outgoing().as_slice(),
        &[5u8, 0, 0, 0, b'h', b'e', b'l', b'l', b'o']
    );
}

#[test]
fn partial_reads_reassemble_a_frame() {
    let payload = b"ordered message".to_vec();
    let wire = frame(&payload);
    let mut receiver = Channel::new(4096);
    let (head, tail) = wire.split_at(6);
    assert_eq!(receiver.feed_incoming(&head.to_vec()), Ok(()));
    assert_eq!(receiver.read_message(), None);
    assert_eq!(receiver.feed_incoming(&tail.to_vec()), Ok(()));
    assert_eq!(receiver.read_message(), Some(payload));
}

#[test]
fn two_frames_come_out_in_order() {
    let first = b"first".to_vec();
    let second = b"second".to_vec();
    let mut wire = frame(&first);
    wire.extend_from_slice(&frame(&second));
    let mut receiver = Channel::new(4096);
    assert_eq!(receiver.feed_incoming(&wire), Ok(()));
    assert_eq!(receiver.read_message(), Some(first));
    assert_eq!(receiver.read_message(), Some(second));
    assert_eq!(receiver.read_message(), None);
}

#[test]
fn partial_writes_keep_the_rest_queued() {
    let payload = b"backpressure".to_vec();
    let mut sender = Channel::new(4096);
    sender.write_message(&payload).unwrap();
    let total = sender.outgoing().len();
    sender.advance_send(5);
    assert_eq!(sender.outgoing().len(), total - 5);
}

#[test]
fn a_poisoned_channel_refuses_everything() {
    let mut ch = Channel::new(4096);
    ch.poison();
    assert_eq!(ch.write_message(&vec![1u8]), Err(ChannelError::ChannelClosed));
    assert_eq!(ch.feed_incoming(&vec![1u8]), Err(ChannelError::ChannelClosed));
}

#[test]
fn an_overfull_receive_buffer_refuses_and_stays_unchanged() {
    let mut receiver = Channel::new(8);
    assert_eq!(receiver.feed_incoming(&vec![0u8; 9]), Err(ChannelError::ChannelFull));
    assert_eq!(receiver.feed_incoming(&vec![0u8; 8]), Ok(()));
}

#[test]
fn blocking_mode_is_remembered() {
    let mut ch = Channel::new(64);
    assert!(!ch.blocking);
    ch.set_blocking(true);
    assert!(ch.blocking);
    ch.set_nonblocking(true);
    assert!(!ch.blocking);
    ch.set_nonblocking(false);
    assert!(ch.blocking);
}
