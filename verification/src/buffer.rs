use vstd::prelude::*;
use crate::image_utils::ImageError;

verus! {

/// A rectangular grid of `width * height` pixels, each holding `channels`
/// byte-valued samples (1 for grayscale, 3 for color), stored row-major
/// and channel-minor: the byte for channel `c` of the pixel at column `x`
/// of row `y` sits at index `(y * width + x) * channels + c`.
///
/// Each pipeline stage takes ownership of its input buffer and returns a
/// (possibly new) owned buffer; no stage retains a reference to a
/// previous stage's buffer.
#[derive(Debug, PartialEq, Eq)]
pub struct PixelBuffer {
    pub width: u32,
    pub height: u32,
    pub channels: u8,
    pub data: Vec<u8>,
}

impl PixelBuffer {
    /// Well-formed: a supported channel count, and exactly one byte per
    /// channel of every pixel.
    pub open spec fn wf(self) -> bool {
        &&& (self.channels == 1 || self.channels == 3)
        &&& self.data@.len() == self.width as int * self.height as int * self.channels as int
    }

    /// The index of channel `c` of the pixel at column `x`, row `y`.
    pub open spec fn index_of(self, x: int, y: int, c: int) -> int {
        (y * self.width as int + x) * self.channels as int + c
    }

    /// The byte stored for channel `c` of the pixel at column `x`, row `y`.
    pub open spec fn byte_at(self, x: int, y: int, c: int) -> u8 {
        self.data@[self.index_of(x, y, c)]
    }

    /// Wrap raw bytes as a pixel buffer, rejecting an unsupported channel
    /// count and a byte count that does not match the declared shape.
    pub fn new(width: u32, height: u32, channels: u8, data: Vec<u8>) -> (r: Result<PixelBuffer, ImageError>)
        ensures
            (channels != 1 && channels != 3)
                ==> r == Err::<PixelBuffer, ImageError>(ImageError::UnsupportedColor),
            (channels == 1 || channels == 3)
                && data@.len() != width as int * height as int * channels as int
                ==> r == Err::<PixelBuffer, ImageError>(ImageError::InvalidDimensions),
            (channels == 1 || channels == 3)
                && data@.len() == width as int * height as int * channels as int
                ==> (r matches Ok(out) && out.wf() && out.width == width
                    && out.height == height && out.channels == channels
                    && out.data@ == data@),
    {
        if channels != 1 && channels != 3 {
            return Err(ImageError::UnsupportedColor);
        }
        proof {
            assert((width as int) * (height as int) <= 0xffff_ffff * 0xffff_ffff
                && (width as int) * (height as int) >= 0) by (nonlinear_arith)
                requires
                    width <= 0xffff_ffffu32,
                    height <= 0xffff_ffffu32,
            ;
            assert((width as int) * (height as int) * (channels as int)
                <= 0xffff_ffff * 0xffff_ffff * 0xff
                && (width as int) * (height as int) * (channels as int) >= 0)
                by (nonlinear_arith)
                requires
                    0 <= (width as int) * (height as int),
                    (width as int) * (height as int) <= 0xffff_ffff * 0xffff_ffff,
                    channels <= 0xffu8,
            ;
        }
        let expected: u128 = (width as u128) * (height as u128) * (channels as u128);
        if (data.len() as u128) != expected {
            return Err(ImageError::InvalidDimensions);
        }
        Ok(PixelBuffer { width, height, channels, data })
    }

    /// The number of bytes in the buffer, which is also its capacity in
    /// steganographic bits (one least-significant bit per byte).
    pub fn byte_len(&self) -> (r: usize)
        ensures
            r == self.data@.len(),
    {
        self.data.len()
    }
}

impl Clone for PixelBuffer {
    fn clone(&self) -> (r: Self)
        ensures
            r.width == self.width,
            r.height == self.height,
            r.channels == self.channels,
            r.data@ == self.data@,
    {
        let data = self.data.clone();
        proof {
            assert(data@ =~= self.data@);
        }
        PixelBuffer { width: self.width, height: self.height, channels: self.channels, data }
    }
}

} // verus!
