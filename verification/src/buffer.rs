use vstd::prelude::*;
use crate::format::Resolution;

verus! {

/// What a pixel buffer is to a contract: its identity, its shape and its
/// bytes, three per pixel, row by row.
pub struct BufferView {
    pub id: u64,
    pub resolution: Resolution,
    pub pixels: Seq<u8>,
}

impl BufferView {
    /// The bytes fill the shape exactly.
    pub open spec fn wf(self) -> bool {
        self.pixels.len() == self.resolution.byte_len()
    }

    /// The same buffer holding other bytes.
    pub open spec fn with_pixels(self, pixels: Seq<u8>) -> BufferView {
        BufferView { id: self.id, resolution: self.resolution, pixels }
    }
}

/// The bytes of a black frame of the given shape.
pub open spec fn blank_pixels(resolution: Resolution) -> Seq<u8> {
    Seq::new(resolution.byte_len() as nat, |i: int| 0u8)
}

/// Why a raw frame was not stored in a buffer.
#[derive(Clone, Copy, Debug, PartialEq, Eq, Structural)]
pub enum FrameError {
    /// The frame's width or height differs from the buffer's.
    ShapeMismatch,
    /// The frame does not hold three bytes for each pixel.
    LengthMismatch,
}

/// What `PixelBuffer::write_frame` does with a raw frame of the stated shape.
pub open spec fn spec_write_frame(buffer: BufferView, width: u32, height: u32, raw: Seq<u8>) -> (
    BufferView,
    Result<(), FrameError>,
) {
    if buffer.resolution != (Resolution { width, height }) {
        (buffer, Err(FrameError::ShapeMismatch))
    } else if raw.len() != buffer.resolution.byte_len() {
        (buffer, Err(FrameError::LengthMismatch))
    } else {
        (buffer.with_pixels(raw), Ok(()))
    }
}

/// A reusable RGB image of fixed shape. Its identity tells it apart from every
/// other buffer the same pool has made; it cannot be copied, so whoever holds
/// the value is the only one who can read or write its bytes.
#[derive(Debug)]
pub struct PixelBuffer {
    id: u64,
    resolution: Resolution,
    pixels: Vec<u8>,
}

impl View for PixelBuffer {
    type V = BufferView;

    closed spec fn view(&self) -> BufferView {
        BufferView { id: self.id, resolution: self.resolution, pixels: self.pixels@ }
    }
}

/// Allocates the bytes of a black image through `image::RgbImage::new` and
/// takes them out with `into_raw`. The image crate sizes the vector at three
/// bytes per pixel and fills it with zeroes. It works the size out as three
/// times the width, then times the height, and panics when either product
/// or the allocation is beyond what the machine can hold. With at least one
/// row the first product is no larger than the whole, so the precondition
/// rules both out.
#[verifier::external_body]
fn zeroed_rgb(width: u32, height: u32) -> (raw: Vec<u8>)
    requires
        (Resolution { width, height }).representable(),
        height > 0,
    ensures
        raw@ == blank_pixels(Resolution { width, height }),
{
    image::RgbImage::new(width, height).into_raw()
}

impl PixelBuffer {
    /// Every buffer holds exactly the bytes of its shape.
    #[verifier::type_invariant]
    pub open spec fn inv(self) -> bool {
        self@.wf()
    }

    /// A black buffer of the given shape.
    pub(crate) fn blank(id: u64, resolution: Resolution) -> (buffer: PixelBuffer)
        requires
            resolution.representable(),
        ensures
            buffer@ == (BufferView { id, resolution, pixels: blank_pixels(resolution) }),
    {
        let pixels = if resolution.height == 0 {
            // An image without rows has no bytes, however wide it is.
            let empty: Vec<u8> = Vec::new();
            assert(resolution.byte_len() == 0) by (nonlinear_arith)
                requires
                    resolution.height == 0,
                    resolution.byte_len() == 3 * (resolution.width as int) * (
                    resolution.height as int),
            ;
            assert(empty@ =~= blank_pixels(resolution));
            empty
        } else {
            zeroed_rgb(resolution.width, resolution.height)
        };
        PixelBuffer { id, resolution, pixels }
    }

    pub fn id(&self) -> (id: u64)
        ensures
            id == self@.id,
    {
        self.id
    }

    pub fn resolution(&self) -> (resolution: Resolution)
        ensures
            resolution == self@.resolution,
    {
        self.resolution
    }

    pub fn width(&self) -> (width: u32)
        ensures
            width == self@.resolution.width,
    {
        self.resolution.width
    }

    pub fn height(&self) -> (height: u32)
        ensures
            height == self@.resolution.height,
    {
        self.resolution.height
    }

    /// The bytes of the image, three per pixel, row by row.
    pub fn as_raw(&self) -> (raw: &[u8])
        ensures
            raw@ == self@.pixels,
            self@.wf(),
    {
        proof {
            use_type_invariant(self);
        }
        self.pixels.as_slice()
    }

    /// Stores a decoded frame. The frame is taken only when it has the
    /// buffer's own shape and three bytes for each pixel; otherwise the buffer
    /// keeps what it held. Identity and shape never change.
    pub fn write_frame(&mut self, width: u32, height: u32, raw: &[u8]) -> (res: Result<
        (),
        FrameError,
    >)
        ensures
            final(self)@ == spec_write_frame(old(self)@, width, height, raw@).0,
            res == spec_write_frame(old(self)@, width, height, raw@).1,
    {
        proof {
            use_type_invariant(&*self);
        }
        if width != self.resolution.width || height != self.resolution.height {
            return Err(FrameError::ShapeMismatch);
        }
        if raw.len() != self.pixels.len() {
            return Err(FrameError::LengthMismatch);
        }
        let mut i: usize = 0;
        while i < raw.len()
            invariant
                i <= raw@.len(),
                self.pixels@.len() == raw@.len(),
                self.id == old(self).id,
                self.resolution == old(self).resolution,
                raw@.len() == self.resolution.byte_len(),
                forall|j: int| 0 <= j < i ==> self.pixels@[j] == raw@[j],
            decreases raw@.len() - i,
        {
            self.pixels[i] = raw[i];
            i += 1;
        }
        assert(self.pixels@ =~= raw@);
        Ok(())
    }

    /// A copy of the bytes for a reader who wants to keep them; the buffer
    /// itself stays as it is.
    pub fn to_vec(&self) -> (pixels: Vec<u8>)
        ensures
            pixels@ == self@.pixels,
    {
        let mut pixels: Vec<u8> = Vec::with_capacity(self.pixels.len());
        pixels.extend_from_slice(self.pixels.as_slice());
        assert(pixels@ =~= self.pixels@);
        pixels
    }
}

} // verus!
