use motion_capture_mk5::format::{
    frame_interval_nanos, CameraFormat, PixelEncoding, Resolution,
};

#[test]
fn byte_len_is_three_bytes_per_pixel() {
    assert_eq!(Resolution::new(640, 480).checked_byte_len(), Some(921_600));
    assert_eq!(Resolution::new(1280, 720).checked_byte_len(), Some(2_764_800));
    assert_eq!(Resolution::new(1, 1).checked_byte_len(), Some(3));
}

#[test]
fn byte_len_of_an_empty_shape_is_zero() {
    assert_eq!(Resolution::new(0, 480).checked_byte_len(), Some(0));
    assert_eq!(Resolution::new(640, 0).checked_byte_len(), Some(0));
}

#[test]
fn byte_len_that_no_allocation_can_hold_is_none() {
    assert_eq!(Resolution::new(u32::MAX, u32::MAX).checked_byte_len(), None);
}

#[test]
fn byte_len_at_the_edge_of_what_fits() {
    let limit = (isize::MAX as u64) / 3;
    // The widest single row that still fits, and the first that does not.
    if limit > u32::MAX as u64 {
        let height = (limit / (u32::MAX as u64)) as u32;
        let fits = Resolution::new(u32::MAX, height);
        assert_eq!(
            fits.checked_byte_len(),
            Some((u32::MAX as usize) * (height as usize) * 3)
        );
        if height < u32::MAX {
            assert_eq!(Resolution::new(u32::MAX, height + 1).checked_byte_len(), None);
        }
    } else {
        assert_eq!(
            Resolution::new(limit as u32, 1).checked_byte_len(),
            Some((limit as usize) * 3)
        );
        assert_eq!(Resolution::new(limit as u32 + 1, 1).checked_byte_len(), None);
    }
}

#[test]
fn camera_format_keeps_what_it_was_given() {
    let format = CameraFormat::new_from(640, 480, PixelEncoding::Mjpeg, 30);
    assert_eq!(format.resolution, Resolution { width: 640, height: 480 });
    assert_eq!(format.encoding, PixelEncoding::Mjpeg);
    assert_eq!(format.frame_rate, 30);
}

#[test]
fn frame_interval_is_the_reciprocal_of_the_rate() {
    assert_eq!(frame_interval_nanos(30), Some(33_333_333));
    assert_eq!(frame_interval_nanos(60), Some(16_666_666));
    assert_eq!(frame_interval_nanos(1), Some(1_000_000_000));
    assert_eq!(frame_interval_nanos(u32::MAX), Some(0));
}

#[test]
fn frame_interval_of_an_unknown_rate_is_none() {
    assert_eq!(frame_interval_nanos(0), None);
}
