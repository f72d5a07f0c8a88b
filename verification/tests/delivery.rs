use motion_capture_mk5::delivery::{Closed, DeliveryChannel, Frame};
use motion_capture_mk5::format::Resolution;
use motion_capture_mk5::pool::BufferPool;

#[test]
fn new_channel_is_empty_and_connected() {
    let channel = DeliveryChannel::new();
    assert_eq!(channel.len(), 0);
    assert!(channel.is_connected());
}

#[test]
fn receive_on_an_empty_channel_is_none() {
    let mut channel = DeliveryChannel::new();
    assert!(channel.receive().is_none());
    assert_eq!(channel.len(), 0);
}

#[test]
fn frames_come_out_in_the_order_they_went_in() {
    let mut pool = BufferPool::new(3);
    let mut channel = DeliveryChannel::new();
    for sequence in [5u64, 6, 9] {
        let buffer = pool.acquire(1, 1).unwrap();
        assert_eq!(channel.send(Frame { sequence, buffer }), Ok(()));
    }
    assert_eq!(channel.len(), 3);
    let first = channel.receive().unwrap();
    let second = channel.receive().unwrap();
    let third = channel.receive().unwrap();
    assert_eq!((first.sequence, second.sequence, third.sequence), (5, 6, 9));
    assert_eq!((first.buffer.id(), second.buffer.id(), third.buffer.id()), (0, 1, 2));
    assert!(channel.receive().is_none());
}

#[test]
fn send_after_disconnect_is_closed() {
    let mut pool = BufferPool::new(2);
    let mut channel = DeliveryChannel::new();
    let buffer = pool.acquire(1, 1).unwrap();
    assert_eq!(channel.send(Frame { sequence: 1, buffer }), Ok(()));
    channel.disconnect();
    assert!(!channel.is_connected());
    assert_eq!(channel.len(), 0);
    let buffer = pool.acquire(1, 1).unwrap();
    assert_eq!(channel.send(Frame { sequence: 2, buffer }), Err(Closed));
    assert_eq!(channel.len(), 0);
}

#[test]
fn snapshot_copies_the_frame() {
    let mut pool = BufferPool::new(1);
    let mut buffer = pool.acquire(1, 2).unwrap();
    assert_eq!(buffer.write_frame(1, 2, &[1, 2, 3, 4, 5, 6]), Ok(()));
    let frame = Frame { sequence: 42, buffer };
    let copy = frame.snapshot();
    assert_eq!(copy.sequence, 42);
    assert_eq!(copy.resolution, Resolution { width: 1, height: 2 });
    assert_eq!(copy.pixels, vec![1, 2, 3, 4, 5, 6]);
    assert_eq!(frame.buffer.as_raw(), &[1u8, 2, 3, 4, 5, 6][..]);
}
