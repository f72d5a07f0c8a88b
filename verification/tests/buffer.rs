use motion_capture_mk5::buffer::FrameError;
use motion_capture_mk5::format::Resolution;
use motion_capture_mk5::pool::BufferPool;

#[test]
fn new_buffer_is_black_and_fills_its_shape() {
    let mut pool = BufferPool::new(1);
    let buffer = pool.acquire(5, 7).unwrap();
    assert_eq!(buffer.resolution(), Resolution { width: 5, height: 7 });
    assert_eq!(buffer.as_raw(), vec![0u8; 105].as_slice());
}

#[test]
fn buffer_of_an_empty_shape_has_no_bytes() {
    let mut pool = BufferPool::new(1);
    let buffer = pool.acquire(0, 9).unwrap();
    assert_eq!(buffer.as_raw().len(), 0);
}

#[test]
fn write_frame_stores_the_bytes() {
    let mut pool = BufferPool::new(1);
    let mut buffer = pool.acquire(2, 2).unwrap();
    let raw: Vec<u8> = (1..=12).collect();
    assert_eq!(buffer.write_frame(2, 2, &raw), Ok(()));
    assert_eq!(buffer.as_raw(), raw.as_slice());
    assert_eq!(buffer.width(), 2);
    assert_eq!(buffer.height(), 2);
}

#[test]
fn write_frame_refuses_another_shape() {
    let mut pool = BufferPool::new(1);
    let mut buffer = pool.acquire(2, 2).unwrap();
    let raw = vec![9u8; 12];
    assert_eq!(buffer.write_frame(4, 1, &raw), Err(FrameError::ShapeMismatch));
    assert_eq!(buffer.write_frame(2, 3, &raw), Err(FrameError::ShapeMismatch));
    assert_eq!(buffer.as_raw(), vec![0u8; 12].as_slice());
}

#[test]
fn write_frame_refuses_a_wrong_length() {
    let mut pool = BufferPool::new(1);
    let mut buffer = pool.acquire(2, 2).unwrap();
    assert_eq!(buffer.write_frame(2, 2, &[1u8; 11]), Err(FrameError::LengthMismatch));
    assert_eq!(buffer.write_frame(2, 2, &[1u8; 13]), Err(FrameError::LengthMismatch));
    assert_eq!(buffer.write_frame(2, 2, &[]), Err(FrameError::LengthMismatch));
    assert_eq!(buffer.as_raw(), vec![0u8; 12].as_slice());
}

#[test]
fn write_frame_keeps_identity() {
    let mut pool = BufferPool::new(2);
    let first = pool.acquire(1, 1).unwrap();
    let mut second = pool.acquire(1, 1).unwrap();
    let id = second.id();
    assert_ne!(first.id(), id);
    assert_eq!(second.write_frame(1, 1, &[7, 8, 9]), Ok(()));
    assert_eq!(second.id(), id);
}

#[test]
fn to_vec_copies_the_bytes() {
    let mut pool = BufferPool::new(1);
    let mut buffer = pool.acquire(1, 2).unwrap();
    assert_eq!(buffer.write_frame(1, 2, &[1, 2, 3, 4, 5, 6]), Ok(()));
    let copy = buffer.to_vec();
    assert_eq!(copy, vec![1, 2, 3, 4, 5, 6]);
    assert_eq!(buffer.as_raw(), &[1u8, 2, 3, 4, 5, 6][..]);
}

#[test]
fn buffer_without_rows_may_be_as_wide_as_can_be() {
    let mut pool = BufferPool::new(2);
    let buffer = pool.acquire(u32::MAX, 0).unwrap();
    assert_eq!(buffer.resolution(), Resolution { width: u32::MAX, height: 0 });
    assert_eq!(buffer.as_raw().len(), 0);
    let other = pool.acquire(1_431_655_766, 0).unwrap();
    assert_eq!(other.as_raw().len(), 0);
    assert_ne!(other.id(), buffer.id());
}

#[test]
fn buffer_without_columns_has_no_bytes() {
    let mut pool = BufferPool::new(1);
    let mut buffer = pool.acquire(0, u32::MAX).unwrap();
    assert_eq!(buffer.as_raw().len(), 0);
    assert_eq!(buffer.write_frame(0, u32::MAX, &[]), Ok(()));
    assert_eq!(buffer.write_frame(0, u32::MAX, &[1]), Err(FrameError::LengthMismatch));
}

#[test]
fn buffer_of_one_row_is_black() {
    let mut pool = BufferPool::new(1);
    let buffer = pool.acquire(7, 1).unwrap();
    assert_eq!(buffer.as_raw(), vec![0u8; 21].as_slice());
}
