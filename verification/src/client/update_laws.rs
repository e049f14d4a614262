//! Rectangles of an update as they are written, and that decoding undoes the writing.
use crate::client::update::{
    image_rect, lemma_rect_more, one_rect, update_run, ForeignCodec, ImageRect, RectView,
    UpdateRun, UpdateStepView,
};
use crate::codec::raw::raw_size;
use crate::codec::raw_laws::law_raw_pixels_written;
use crate::codec::trle_format::pixel_layout;
use crate::codec::trle_laws::law_more_input;
use crate::codec::trle_written::{
    columns, format_fits, joined, law_rectangle_written, places_in_range, rows, tile_images,
    tiles_fit, written_rectangle, WrittenTile,
};
use crate::config::{PixelFormat, VncEncoding};
use crate::error::ErrorView;
use crate::event::{EventView, ImageEventView, Rect, Screen};
use crate::input_laws::{law_u16_written, law_u32_written, written_u16, written_u32};
use vstd::prelude::*;

verus! {

/// The number of an encoding. Those of pseudo-encodings are negative.
pub open spec fn encoding_number(encoding: VncEncoding) -> int {
    match encoding {
        VncEncoding::Raw => 0,
        VncEncoding::CopyRect => 1,
        VncEncoding::Tight => 7,
        VncEncoding::Trle => 15,
        VncEncoding::Zrle => 16,
        VncEncoding::CursorPseudo => -239,
        VncEncoding::DesktopSizePseudo => -223,
        VncEncoding::LastRectPseudo => -224,
    }
}

/// The number of an encoding as it is written: in four bytes, counted down from 2^32 where it
/// is negative.
pub open spec fn encoding_code(encoding: VncEncoding) -> u32 {
    let number = encoding_number(encoding);
    (if number < 0 {
        number + 0x1_0000_0000
    } else {
        number
    }) as u32
}

/// An encoding is known by its own number and by no other.
pub proof fn law_encoding_numbers(encoding: VncEncoding, code: u32)
    ensures
        VncEncoding::numbered(code) == Some(encoding) <==> code == encoding_code(encoding),
{
}

/// An encoding is found by its own number and by no other.
pub proof fn law_encoding_found(code: u32, found: Option<VncEncoding>)
    requires
        call_ensures(VncEncoding::from_number, (code,), found),
    ensures
        found matches Some(encoding) ==> code == encoding_code(encoding),
        found is None ==> forall|encoding: VncEncoding| code != #[trigger] encoding_code(encoding),
{
}

/// The head of a rectangle as it is written.
pub open spec fn written_head(rect: Rect, code: u32) -> Seq<u8> {
    written_u16(rect.x) + written_u16(rect.y) + written_u16(rect.width) + written_u16(rect.height)
        + written_u32(code)
}

/// The head of a rectangle is read as it was written.
pub proof fn law_head_written(rect: Rect, code: u32, rest: Seq<u8>)
    ensures
        written_head(rect, code).len() == 12,
        image_rect(written_head(rect, code) + rest) == (ImageRect {
            rect,
            encoding: VncEncoding::numbered(code),
        }),
        (written_head(rect, code) + rest).skip(12) == rest,
{
    let input = written_head(rect, code) + rest;
    let after_height = written_u32(code) + rest;
    let after_width = written_u16(rect.height) + after_height;
    let after_y = written_u16(rect.width) + after_width;
    let after_x = written_u16(rect.y) + after_y;
    law_u16_written(rect.x, after_x);
    law_u16_written(rect.y, after_y);
    law_u16_written(rect.width, after_width);
    law_u16_written(rect.height, after_height);
    law_u32_written(code, rest);
    assert(input =~= written_u16(rect.x) + after_x);
    assert(input.skip(2) =~= after_x);
    assert(input.skip(4) =~= after_y);
    assert(input.skip(6) =~= after_width);
    assert(input.skip(8) =~= after_height);
    assert(input.skip(12) =~= rest);
}

/// A rectangle that adds to the picture, as it can be written.
pub enum WrittenRect {
    /// A pixel for each place, row by row.
    Raw(Rect, Seq<Seq<u8>>),
    /// What the screen shows at another place.
    Copy(Rect, u16, u16),
    /// Tiles, behind a block of data.
    Trle(Rect, Seq<u8>, Seq<WrittenTile>),
}

impl WrittenRect {
    /// Whether this can be written with pixels of a format.
    pub open spec fn valid(self, format: PixelFormat) -> bool {
        match self {
            WrittenRect::Raw(rect, pixels) => {
                &&& pixels.len() == rect.height * rect.width
                &&& forall|i: int|
                    0 <= i < pixels.len() ==> (#[trigger] pixels[i]).len() == format.bits_per_pixel
                        / 8
            },
            WrittenRect::Copy(_, _, _) => true,
            WrittenRect::Trle(rect, block, tiles) => {
                &&& format_fits(format)
                &&& places_in_range(rect)
                &&& block.len() <= 0xffff_ffff
                &&& tiles.len() == rows(rect) * columns(rect)
                &&& tiles_fit(tiles, pixel_layout(format), rect)
            },
        }
    }

    /// The rectangle as it is written.
    pub open spec fn bytes(self) -> Seq<u8> {
        match self {
            WrittenRect::Raw(rect, pixels) => written_head(rect, 0) + joined(pixels),
            WrittenRect::Copy(rect, x, y) => written_head(rect, 1) + (written_u16(x) + written_u16(
                y,
            )),
            WrittenRect::Trle(rect, block, tiles) => written_head(rect, 15) + written_rectangle(
                block,
                tiles,
            ),
        }
    }

    /// The images that the rectangle is to give.
    pub open spec fn images(self, format: PixelFormat) -> Seq<ImageEventView> {
        match self {
            WrittenRect::Raw(rect, pixels) => seq![ImageEventView::RawImage(rect, joined(pixels))],
            WrittenRect::Copy(rect, x, y) => seq![
                ImageEventView::Copy(
                    rect,
                    Rect { x, y, width: rect.width, height: rect.height },
                ),
            ],
            WrittenRect::Trle(rect, _, tiles) => tile_images(tiles, pixel_layout(format), rect),
        }
    }
}

/// Whether decoding a rectangle gives back what was written, and leaves what follows.
spec fn rect_undone(format: PixelFormat, written: WrittenRect, rest: Seq<u8>) -> bool {
    one_rect(format, written.bytes() + rest) == RectView::Images(written.images(format), rest)
}

#[verifier::spinoff_prover]
#[verifier::rlimit(40)]
proof fn lemma_raw_written(format: PixelFormat, rect: Rect, pixels: Seq<Seq<u8>>, rest: Seq<u8>)
    requires
        WrittenRect::Raw(rect, pixels).valid(format),
    ensures
        rect_undone(format, WrittenRect::Raw(rect, pixels), rest),
{
    let input = WrittenRect::Raw(rect, pixels).bytes() + rest;
    let body = joined(pixels) + rest;
    law_head_written(rect, 0, body);
    assert(input =~= written_head(rect, 0) + body);
    law_raw_pixels_written(format, rect, pixels);
    let size = raw_size(format, rect);
    assert(body.take(size) =~= joined(pixels));
    assert(body.skip(size) =~= rest);
}

/// A rectangle that is copied comes from the place that was written, whole.
#[verifier::spinoff_prover]
#[verifier::rlimit(40)]
pub proof fn law_copy_written(format: PixelFormat, rect: Rect, x: u16, y: u16, rest: Seq<u8>)
    ensures
        one_rect(
            format,
            written_head(rect, 1) + (written_u16(x) + (written_u16(y) + rest)),
        ) == RectView::Images(
            seq![
                ImageEventView::Copy(rect, Rect { x, y, width: rect.width, height: rect.height }),
            ],
            rest,
        ),
{
    let behind = written_u16(y) + rest;
    let body = written_u16(x) + behind;
    law_head_written(rect, 1, body);
    law_u16_written(x, behind);
    law_u16_written(y, rest);
    assert(body.skip(4) =~= rest);
}

proof fn lemma_copy_written(format: PixelFormat, rect: Rect, x: u16, y: u16, rest: Seq<u8>)
    ensures
        rect_undone(format, WrittenRect::Copy(rect, x, y), rest),
{
    law_copy_written(format, rect, x, y, rest);
    assert(WrittenRect::Copy(rect, x, y).bytes() + rest =~= written_head(rect, 1) + (written_u16(x)
        + (written_u16(y) + rest)));
}

#[verifier::spinoff_prover]
#[verifier::rlimit(40)]
proof fn lemma_trle_written(
    format: PixelFormat,
    rect: Rect,
    block: Seq<u8>,
    tiles: Seq<WrittenTile>,
    rest: Seq<u8>,
)
    requires
        WrittenRect::Trle(rect, block, tiles).valid(format),
    ensures
        rect_undone(format, WrittenRect::Trle(rect, block, tiles), rest),
{
    let input = WrittenRect::Trle(rect, block, tiles).bytes() + rest;
    let body = written_rectangle(block, tiles) + rest;
    law_head_written(rect, 15, body);
    assert(input =~= written_head(rect, 15) + body);
    law_rectangle_written(format, rect, block, tiles, rest);
}

/// Decoding a rectangle gives back the images that were written, and leaves what follows.
pub proof fn law_rect_written(format: PixelFormat, written: WrittenRect, rest: Seq<u8>)
    requires
        written.valid(format),
    ensures
        one_rect(format, written.bytes() + rest) == RectView::Images(written.images(format), rest),
{
    assert(rect_undone(format, written, rest)) by {
        match written {
            WrittenRect::Raw(rect, pixels) => {
                lemma_raw_written(format, rect, pixels, rest);
            },
            WrittenRect::Copy(rect, x, y) => {
                lemma_copy_written(format, rect, x, y, rest);
            },
            WrittenRect::Trle(rect, block, tiles) => {
                lemma_trle_written(format, rect, block, tiles, rest);
            },
        }
    }
}

/// A rectangle that is cut off is not complete. Only one of tiles has come to images, and to
/// none that it would not have come to.
#[verifier::spinoff_prover]
#[verifier::rlimit(40)]
pub proof fn law_rect_cut_off(format: PixelFormat, written: WrittenRect, cut: int)
    requires
        written.valid(format),
        0 <= cut < written.bytes().len(),
    ensures
        one_rect(format, written.bytes().take(cut)) matches RectView::Short(images)
            && images.is_prefix_of(written.images(format)) && (written is Trle || images.len()
            == 0),
{
    let part = written.bytes().take(cut);
    let tail = written.bytes().skip(cut);
    let nothing = Seq::<u8>::empty();
    assert(part + tail =~= written.bytes() + nothing);
    law_rect_written(format, written, nothing);
    lemma_rect_more(format, part, tail);
    match one_rect(format, part) {
        RectView::Images(_, rest) => {
            assert((rest + tail).len() == 0);
        },
        _ => {},
    }
    let code = match written {
        WrittenRect::Raw(_, _) => 0u32,
        WrittenRect::Copy(_, _, _) => 1u32,
        WrittenRect::Trle(_, _, _) => 15u32,
    };
    let rect = match written {
        WrittenRect::Raw(rect, _) => rect,
        WrittenRect::Copy(rect, _, _) => rect,
        WrittenRect::Trle(rect, _, _) => rect,
    };
    if cut >= 12 {
        let head = written_head(rect, code);
        law_head_written(rect, code, part.skip(12));
        assert(part =~= head + part.skip(12));
        if let WrittenRect::Trle(_, block, tiles) = written {
            let body = written_rectangle(block, tiles);
            law_more_input(format, rect, part.skip(12), tail);
            law_rectangle_written(format, rect, block, tiles, nothing);
            assert(part.skip(12) + tail =~= body + nothing);
        }
    }
}

/// The images of rectangles, one behind the other.
pub open spec fn rects_images(format: PixelFormat, written: Seq<WrittenRect>) -> Seq<ImageEventView>
    decreases written.len(),
{
    if written.len() == 0 {
        Seq::empty()
    } else {
        rects_images(format, written.drop_last()) + written.last().images(format)
    }
}

/// Rectangles as they are written.
pub open spec fn written_rects(written: Seq<WrittenRect>) -> Seq<u8> {
    joined(Seq::new(written.len(), |i: int| written[i].bytes()))
}

proof fn lemma_written_last(written: Seq<WrittenRect>, more: Seq<u8>)
    requires
        written.len() > 0,
    ensures
        written_rects(written) + more == written_rects(written.drop_last()) + (
        written.last().bytes() + more),
{
    let before = written.drop_last();
    let parts = Seq::new(written.len(), |i: int| written[i].bytes());
    assert(parts.drop_last() =~= Seq::new(before.len(), |i: int| before[i].bytes()));
    assert(written_rects(written) + more =~= written_rects(before) + (written.last().bytes()
        + more));
}

/// What an update comes to.
#[verifier::opaque]
spec fn outcome(
    format: PixelFormat,
    frames: Seq<ImageEventView>,
    left: nat,
    input: Seq<u8>,
    ended: bool,
) -> UpdateRun {
    update_run(format, frames, left, input, ended)
}

proof fn lemma_next_written(
    format: PixelFormat,
    frames: Seq<ImageEventView>,
    written: WrittenRect,
    left: nat,
    more: Seq<u8>,
    ended: bool,
)
    requires
        written.valid(format),
    ensures
        outcome(format, frames, left + 1, written.bytes() + more, ended) == outcome(
            format,
            frames + written.images(format),
            left,
            more,
            ended,
        ),
{
    law_rect_written(format, written, more);
    reveal(outcome);
}

#[verifier::spinoff_prover]
#[verifier::rlimit(40)]
proof fn lemma_rects_written(
    format: PixelFormat,
    frames: Seq<ImageEventView>,
    written: Seq<WrittenRect>,
    left: nat,
    more: Seq<u8>,
    ended: bool,
)
    requires
        forall|i: int| 0 <= i < written.len() ==> (#[trigger] written[i]).valid(format),
    ensures
        outcome(
            format,
            frames,
            written.len() + left,
            written_rects(written) + more,
            ended,
        ) == outcome(format, frames + rects_images(format, written), left, more, ended),
    decreases written.len(),
{
    if written.len() == 0 {
        assert(written_rects(written) + more =~= more);
        assert(frames + rects_images(format, written) =~= frames);
    } else {
        let before = written.drop_last();
        let last = written.last();
        assert(written[written.len() - 1].valid(format));
        lemma_rects_written(format, frames, before, left + 1, last.bytes() + more, ended);
        lemma_written_last(written, more);
        lemma_next_written(
            format,
            frames + rects_images(format, before),
            last,
            left,
            more,
            ended,
        );
        assert(frames + rects_images(format, before) + last.images(format) =~= frames
            + rects_images(format, written));
    }
}

/// An update goes on behind rectangles that were written as if their images had been waiting
/// with the others.
pub proof fn law_rects_written(
    format: PixelFormat,
    frames: Seq<ImageEventView>,
    written: Seq<WrittenRect>,
    left: nat,
    more: Seq<u8>,
    ended: bool,
)
    requires
        forall|i: int| 0 <= i < written.len() ==> (#[trigger] written[i]).valid(format),
    ensures
        update_run(
            format,
            frames,
            written.len() + left,
            written_rects(written) + more,
            ended,
        ) == update_run(format, frames + rects_images(format, written), left, more, ended),
{
    lemma_rects_written(format, frames, written, left, more, ended);
    reveal(outcome);
}

/// An update hands out the images of all its rectangles together and in order, and leaves
/// what follows it.
pub proof fn law_update_written(
    format: PixelFormat,
    frames: Seq<ImageEventView>,
    written: Seq<WrittenRect>,
    rest: Seq<u8>,
    ended: bool,
)
    requires
        forall|i: int| 0 <= i < written.len() ==> (#[trigger] written[i]).valid(format),
    ensures
        update_run(format, frames, written.len(), written_rects(written) + rest, ended) == (
        UpdateRun {
            frames: Seq::empty(),
            left: 0,
            rest,
            step: UpdateStepView::Finished(
                EventView::ImageEvent(frames + rects_images(format, written)),
            ),
        }),
{
    law_rects_written(format, frames, written, 0, rest, ended);
}

/// What a rectangle of no image does to an update: a new size of the screen is told at once;
/// the last rectangle ends the update, whatever was announced; the rectangles of other
/// decoders are left to them; one of an encoding that there is not is an error. Of each the
/// head is used, and nothing more.
#[verifier::spinoff_prover]
#[verifier::rlimit(40)]
pub proof fn law_other_rects(
    format: PixelFormat,
    frames: Seq<ImageEventView>,
    left: nat,
    rect: Rect,
    code: u32,
    rest: Seq<u8>,
    ended: bool,
)
    requires
        left > 0,
    ensures
        ({
            let run = update_run(format, frames, left, written_head(rect, code) + rest, ended);
            let on = UpdateRun { frames, left: (left - 1) as nat, rest, step: run.step };
            &&& code == encoding_code(VncEncoding::DesktopSizePseudo) ==> run == on && run.step
                == UpdateStepView::Emit(
                EventView::SetResolution(Screen { width: rect.width, height: rect.height }),
            )
            &&& code == encoding_code(VncEncoding::LastRectPseudo) ==> run == (UpdateRun {
                frames: Seq::empty(),
                left: 0,
                rest,
                step: UpdateStepView::Finished(EventView::ImageEvent(frames)),
            })
            &&& code == encoding_code(VncEncoding::Tight) ==> run == on && run.step
                == UpdateStepView::Delegate(ForeignCodec::Tight, rect)
            &&& code == encoding_code(VncEncoding::Zrle) ==> run == on && run.step
                == UpdateStepView::Delegate(ForeignCodec::Zrle, rect)
            &&& code == encoding_code(VncEncoding::CursorPseudo) ==> run == on && run.step
                == UpdateStepView::Delegate(ForeignCodec::Cursor, rect)
            &&& (forall|encoding: VncEncoding| code != #[trigger] encoding_code(encoding)) ==> {
                &&& run.step == UpdateStepView::Failed(ErrorView::InvalidImageData)
                &&& run.frames == frames
                &&& run.rest == rest
            }
        }),
{
    law_head_written(rect, code, rest);
    assert(frames + Seq::<ImageEventView>::empty() =~= frames);
    if forall|encoding: VncEncoding| code != #[trigger] encoding_code(encoding) {
        assert(code != encoding_code(VncEncoding::Raw));
        assert(code != encoding_code(VncEncoding::CopyRect));
        assert(code != encoding_code(VncEncoding::Tight));
        assert(code != encoding_code(VncEncoding::Trle));
        assert(code != encoding_code(VncEncoding::Zrle));
        assert(code != encoding_code(VncEncoding::CursorPseudo));
        assert(code != encoding_code(VncEncoding::DesktopSizePseudo));
        assert(code != encoding_code(VncEncoding::LastRectPseudo));
    }
}

/// It matters whether the input has ended only to an update that needs more of it. If more
/// can arrive, nothing of a rectangle that is not complete is used or kept; if not, all of
/// the input is used up and it is an error.
pub proof fn law_ended_input(
    format: PixelFormat,
    frames: Seq<ImageEventView>,
    left: nat,
    input: Seq<u8>,
)
    ensures
        ({
            let open = update_run(format, frames, left, input, false);
            let over = update_run(format, frames, left, input, true);
            &&& !(over.step is NeedMore)
            &&& !(open.step is NeedMore) ==> over == open
            &&& open.step is NeedMore ==> {
                &&& over.step == UpdateStepView::Failed(ErrorView::UnexpectedEof)
                &&& over.rest == Seq::<u8>::empty()
                &&& open.frames.is_prefix_of(over.frames)
                &&& open.left > 0
                &&& one_rect(format, open.rest) is Short
                &&& over.frames == open.frames + one_rect(format, open.rest)->Short_0
            }
        }),
    decreases left,
{
    if left > 0 {
        match one_rect(format, input) {
            RectView::Images(images, rest) => {
                law_ended_input(format, frames + images, (left - 1) as nat, rest);
            },
            _ => {},
        }
    }
}

} // verus!
