//! What holds of all raw image data.
use crate::codec::raw::raw_size;
use crate::codec::trle_written::{joined, lemma_joined_len};
use crate::config::PixelFormat;
use crate::event::Rect;
use vstd::prelude::*;

verus! {

/// A rectangle of no rows, or of no columns, has no pixels. One that is a row higher has
/// more pixels by as many as it is wide, and one that is a column wider by as many as it is
/// high; each of them takes the whole bytes of its bits.
pub proof fn law_raw_size_grows(format: PixelFormat, rect: Rect)
    ensures
        rect.height == 0 || rect.width == 0 ==> raw_size(format, rect) == 0,
        rect.height < u16::MAX ==> raw_size(
            format,
            Rect { height: (rect.height + 1) as u16, ..rect },
        ) == raw_size(format, rect) + rect.width * (format.bits_per_pixel / 8),
        rect.width < u16::MAX ==> raw_size(
            format,
            Rect { width: (rect.width + 1) as u16, ..rect },
        ) == raw_size(format, rect) + rect.height * (format.bits_per_pixel / 8),
{
    let bpp = (format.bits_per_pixel / 8) as int;
    let w = rect.width as int;
    let h = rect.height as int;
    assert(bpp * 0 * w == 0 && bpp * h * 0 == 0) by (nonlinear_arith);
    assert(bpp * (h + 1) * w == bpp * h * w + w * bpp) by (nonlinear_arith);
    assert(bpp * h * (w + 1) == bpp * h * w + h * bpp) by (nonlinear_arith);
}

/// Pixels that were written, one for each place of a rectangle, take as many bytes as are
/// read for it.
pub proof fn law_raw_pixels_written(format: PixelFormat, rect: Rect, pixels: Seq<Seq<u8>>)
    requires
        pixels.len() == rect.height * rect.width,
        forall|i: int|
            0 <= i < pixels.len() ==> (#[trigger] pixels[i]).len() == format.bits_per_pixel / 8,
    ensures
        joined(pixels).len() == raw_size(format, rect),
{
    let bpp = (format.bits_per_pixel / 8) as nat;
    lemma_joined_len(pixels, bpp);
    let (w, h) = (rect.width as int, rect.height as int);
    assert(h * w * bpp == bpp * h * w) by (nonlinear_arith);
}

} // verus!
