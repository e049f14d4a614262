//! Pixels as they are.
use crate::config::PixelFormat;
use crate::error::VncError;
use crate::event::{ImageData, Rect};
use crate::input::ByteReader;
use vstd::prelude::*;

verus! {

/// How many bytes the pixels of a rectangle take.
pub open spec fn raw_size(format: PixelFormat, rect: Rect) -> int {
    (format.bits_per_pixel / 8) * rect.height * rect.width
}

#[derive(Debug)]
pub struct Decoder {}

impl Decoder {
    pub fn new() -> (decoder: Decoder)
        ensures
            decoder == (Decoder {  }),
    {
        Decoder {  }
    }

    /// Reads the pixels of a rectangle. All of the input is used up if it ends before
    /// they do.
    pub fn decode(&mut self, format: &PixelFormat, rect: &Rect, input: &mut ByteReader) -> (image:
        Result<ImageData, VncError>)
        ensures
            final(input).same_buffer(old(input)),
            ({
                let size = raw_size(*format, *rect);
                if old(input).remaining().len() < size {
                    &&& image == Err::<ImageData, VncError>(VncError::UnexpectedEof)
                    &&& final(input).remaining() == Seq::<u8>::empty()
                } else {
                    &&& image is Ok
                    &&& image->Ok_0.rect == *rect
                    &&& image->Ok_0.data@ == old(input).remaining().take(size)
                    &&& final(input).remaining() == old(input).remaining().skip(size)
                }
            }),
    {
        // +----------------------------+--------------+-------------+
        // | No. of bytes               | Type [Value] | Description |
        // +----------------------------+--------------+-------------+
        // | width*height*bytesPerPixel | PIXEL array  | pixels      |
        // +----------------------------+--------------+-------------+
        let bpp: u8 = format.bits_per_pixel / 8;
        assert(bpp * rect.height <= 31 * 0xffff) by (nonlinear_arith)
            requires
                bpp <= 31,
                rect.height <= 0xffff,
        ;
        assert(0 <= bpp * rect.height * rect.width <= 31 * 0xffff * 0xffff) by (nonlinear_arith)
            requires
                0 <= bpp * rect.height <= 31 * 0xffff,
                0 <= rect.width <= 0xffff,
        ;
        let buffer_size: u64 = bpp as u64 * rect.height as u64 * rect.width as u64;
        let left: usize = input.left();
        if (left as u64) < buffer_size {
            let _ = input.skip(left);
            assert(input.remaining() =~= Seq::<u8>::empty());
            return Err(VncError::UnexpectedEof);
        }
        match input.read_exact(buffer_size as usize) {
            Ok(pixels) => Ok(ImageData::new(*rect, pixels)),
            Err(_) => Err(VncError::UnexpectedEof),
        }
    }
}

} // verus!
