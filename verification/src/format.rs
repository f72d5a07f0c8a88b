use vstd::prelude::*;

verus! {

/// Bytes per pixel of the RGB frames the engine stores.
pub const RGB_CHANNELS: u64 = 3;

/// Nanoseconds in one second, the unit of the pacing interval.
pub const NANOS_PER_SECOND: u64 = 1_000_000_000;

/// Width and height of a frame, in pixels.
#[derive(Clone, Copy, Debug, PartialEq, Eq, Structural)]
pub struct Resolution {
    pub width: u32,
    pub height: u32,
}

/// How a device encodes the frames it produces.
#[derive(Clone, Copy, Debug, PartialEq, Eq, Structural)]
pub enum PixelEncoding {
    Mjpeg,
    Yuyv,
    Nv12,
    Gray,
    RawRgb,
    RawBgr,
}

/// One concrete stream format: resolution, encoding and frames per second.
#[derive(Clone, Copy, Debug, PartialEq, Eq, Structural)]
pub struct CameraFormat {
    pub resolution: Resolution,
    pub encoding: PixelEncoding,
    pub frame_rate: u32,
}

/// What a caller asks of a device when opening it.
#[derive(Clone, Copy, Debug, PartialEq, Eq, Structural)]
pub enum RequestedFormat {
    /// Exactly this format, or the open fails.
    Exact(CameraFormat),
    /// The format the device offers that is nearest to this one.
    Closest(CameraFormat),
    /// The highest frame rate the device offers, at any resolution.
    HighestFrameRate,
}

/// What a device reports once its stream is open.
#[derive(Clone, Copy, Debug, PartialEq, Eq, Structural)]
pub struct StreamInfo {
    pub resolution: Resolution,
    pub frame_rate: u32,
}

impl Resolution {
    pub fn new(width: u32, height: u32) -> (r: Resolution)
        ensures
            r == (Resolution { width, height }),
    {
        Resolution { width, height }
    }

    /// Number of bytes an RGB frame of this resolution occupies.
    pub open spec fn byte_len(self) -> int {
        3 * (self.width as int) * (self.height as int)
    }

    /// Whether a frame of this resolution can be held in one allocation.
    pub open spec fn representable(self) -> bool {
        self.byte_len() <= isize::MAX as int
    }

    /// The byte length of a frame, or `None` when no allocation can hold it.
    pub fn checked_byte_len(self) -> (len: Option<usize>)
        ensures
            len == (if self.representable() {
                Some(self.byte_len() as usize)
            } else {
                None::<usize>
            }),
    {
        let ghost w = self.width as int;
        let ghost h = self.height as int;
        assert(w * h <= 0xffff_ffff * 0xffff_ffff) by (nonlinear_arith)
            requires
                0 <= w <= 0xffff_ffff,
                0 <= h <= 0xffff_ffff,
        ;
        let area: u64 = (self.width as u64) * (self.height as u64);
        assert(3 * w * h == 3 * (w * h)) by (nonlinear_arith);
        let limit: u64 = (isize::MAX as u64) / RGB_CHANNELS;
        if area > limit {
            None
        } else {
            Some((area * RGB_CHANNELS) as usize)
        }
    }
}

impl CameraFormat {
    pub fn new_from(width: u32, height: u32, encoding: PixelEncoding, frame_rate: u32) -> (f:
        CameraFormat)
        ensures
            f == (CameraFormat { resolution: Resolution { width, height }, encoding, frame_rate }),
    {
        CameraFormat { resolution: Resolution { width, height }, encoding, frame_rate }
    }
}

/// The pause between two frames at `frame_rate` frames per second, in whole
/// nanoseconds; zero stands for a rate that is not known.
pub open spec fn spec_frame_interval_nanos(frame_rate: u32) -> Option<u64> {
    if frame_rate == 0 {
        None
    } else {
        Some((1_000_000_000int / (frame_rate as int)) as u64)
    }
}

/// How long the capture worker rests after publishing a frame: the reciprocal
/// of the frame rate, rounded down to whole nanoseconds. With no known rate
/// (zero) the worker does not pace itself.
pub fn frame_interval_nanos(frame_rate: u32) -> (interval: Option<u64>)
    ensures
        interval == spec_frame_interval_nanos(frame_rate),
{
    if frame_rate == 0 {
        None
    } else {
        Some(NANOS_PER_SECOND / (frame_rate as u64))
    }
}

} // verus!
