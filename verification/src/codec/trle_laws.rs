//! What holds of all tiled run-length encoded image data.
use crate::codec::trle_format::{
    behind_palette, color, decoded, indexed_run, indexed_runs, nth_tile, packed_row, packed_rows,
    pixel_layout, placed, repeated, run_extra, tile_count, tile_pixels, tiles_along, tiles_from,
    true_color, true_color_runs, true_colors, Decoded, PixelLayout, Tile,
};
use crate::config::PixelFormat;
use crate::event::{ImageEventView, Rect};
use crate::input::{be_u32, Parse, Stop};
use vstd::prelude::*;

verus! {

/// Whether `longer` is what `parse` turns into if `more` comes behind the input.
/// Only where the input was too short can it be anything else.
pub open spec fn carries_over<T>(parse: Parse<T>, longer: Parse<T>, more: Seq<u8>) -> bool {
    match parse {
        Parse::Done(value, rest) => longer == Parse::Done(value, rest + more),
        Parse::Stopped(Stop::Short) => true,
        Parse::Stopped(stop) => longer == Parse::<T>::Stopped(stop),
    }
}

proof fn lemma_true_color_more(layout: PixelLayout, input: Seq<u8>, more: Seq<u8>)
    ensures
        carries_over(true_color(layout, input), true_color(layout, input + more), more),
{
    if input.len() >= layout.compressed_bpp {
        let n = layout.compressed_bpp as int;
        assert((input + more).take(n) =~= input.take(n));
        assert((input + more).skip(n) =~= input.skip(n) + more);
    }
}

proof fn lemma_true_colors_more(layout: PixelLayout, count: nat, input: Seq<u8>, more: Seq<u8>)
    ensures
        carries_over(
            true_colors(layout, count, input),
            true_colors(layout, count, input + more),
            more,
        ),
    decreases count,
{
    if count > 0 {
        lemma_true_colors_more(layout, (count - 1) as nat, input, more);
        match true_colors(layout, (count - 1) as nat, input) {
            Parse::Done(_, rest) => lemma_true_color_more(layout, rest, more),
            _ => {},
        }
    }
}

proof fn lemma_packed_row_more(
    palette: Seq<u8>,
    bpp: nat,
    bits: nat,
    count: nat,
    input: Seq<u8>,
    more: Seq<u8>,
)
    requires
        bits == 1 || bits == 2 || bits == 4,
    ensures
        carries_over(
            packed_row(palette, bpp, bits, count, input),
            packed_row(palette, bpp, bits, count, input + more),
            more,
        ),
    decreases count,
{
    if count > 0 {
        lemma_packed_row_more(palette, bpp, bits, (count - 1) as nat, input, more);
        let at = (count - 1) / (8int / bits as int);
        assert(0 <= at) by {
            assert(8int / bits as int > 0) by (nonlinear_arith)
                requires
                    bits == 1 || bits == 2 || bits == 4,
            ;
            vstd::arithmetic::div_mod::lemma_div_pos_is_pos(count - 1, 8int / bits as int);
        }
        if at < input.len() {
            assert((input + more)[at] == input[at]);
            assert((input + more).skip(at + 1) =~= input.skip(at + 1) + more);
        }
    }
}

proof fn lemma_packed_rows_more(
    palette: Seq<u8>,
    bpp: nat,
    bits: nat,
    width: nat,
    count: nat,
    input: Seq<u8>,
    more: Seq<u8>,
)
    requires
        bits == 1 || bits == 2 || bits == 4,
    ensures
        carries_over(
            packed_rows(palette, bpp, bits, width, count, input),
            packed_rows(palette, bpp, bits, width, count, input + more),
            more,
        ),
    decreases count,
{
    if count > 0 {
        lemma_packed_rows_more(palette, bpp, bits, width, (count - 1) as nat, input, more);
        match packed_rows(palette, bpp, bits, width, (count - 1) as nat, input) {
            Parse::Done(_, rest) => lemma_packed_row_more(palette, bpp, bits, width, rest, more),
            _ => {},
        }
    }
}

proof fn lemma_run_extra_more(input: Seq<u8>, more: Seq<u8>)
    ensures
        carries_over(run_extra(input), run_extra(input + more), more),
    decreases input.len(),
{
    if input.len() > 0 {
        assert((input + more).skip(1) =~= input.skip(1) + more);
        lemma_run_extra_more(input.skip(1), more);
    }
}

proof fn lemma_true_color_runs_more(
    layout: PixelLayout,
    wanted: nat,
    count: nat,
    input: Seq<u8>,
    more: Seq<u8>,
)
    ensures
        carries_over(
            true_color_runs(layout, wanted, count, input),
            true_color_runs(layout, wanted, count, input + more),
            more,
        ),
    decreases
            (if count < wanted {
                wanted - count
            } else {
                0
            }),
{
    if count < wanted {
        lemma_true_color_more(layout, input, more);
        match true_color(layout, input) {
            Parse::Done(_, rest) => {
                lemma_run_extra_more(rest, more);
                match run_extra(rest) {
                    Parse::Done(extra, behind) => lemma_true_color_runs_more(
                        layout,
                        wanted,
                        count + 1 + extra,
                        behind,
                        more,
                    ),
                    _ => {},
                }
            },
            _ => {},
        }
    }
}

proof fn lemma_indexed_runs_more(
    palette: Seq<u8>,
    bpp: nat,
    wanted: nat,
    count: nat,
    input: Seq<u8>,
    more: Seq<u8>,
)
    ensures
        carries_over(
            indexed_runs(palette, bpp, wanted, count, input),
            indexed_runs(palette, bpp, wanted, count, input + more),
            more,
        ),
    decreases
            (if count < wanted {
                wanted - count
            } else {
                0
            }),
{
    if count < wanted && input.len() > 0 {
        assert((input + more).skip(1) =~= input.skip(1) + more);
        lemma_run_extra_more(input.skip(1), more);
        match indexed_run(input) {
            Parse::Done((_, extra), rest) => lemma_indexed_runs_more(
                palette,
                bpp,
                wanted,
                count + 1 + extra,
                rest,
                more,
            ),
            _ => {},
        }
    }
}

pub(crate) proof fn lemma_tile_more(
    layout: PixelLayout,
    width: nat,
    height: nat,
    input: Seq<u8>,
    more: Seq<u8>,
)
    ensures
        carries_over(
            tile_pixels(layout, width, height, input),
            tile_pixels(layout, width, height, input + more),
            more,
        ),
{
    if input.len() > 0 {
        let palette_size = (input[0] % 128) as nat;
        let bpp = layout.bpp as nat;
        assert((input + more).skip(1) =~= input.skip(1) + more);
        lemma_true_colors_more(layout, palette_size, input.skip(1), more);
        match true_colors(layout, palette_size, input.skip(1)) {
            Parse::Done(palette, rest) => {
                lemma_true_colors_more(layout, height * width, rest, more);
                lemma_packed_rows_more(palette, bpp, 1, width, height, rest, more);
                lemma_packed_rows_more(palette, bpp, 2, width, height, rest, more);
                lemma_packed_rows_more(palette, bpp, 4, width, height, rest, more);
                lemma_true_color_runs_more(layout, height * width, 0, rest, more);
                lemma_indexed_runs_more(palette, bpp, height * width, 0, rest, more);
            },
            _ => {},
        }
    }
}

/// Whether `longer` is what decoding turns into if `more` comes behind the input.
/// Where the input was too short, the images that there were still come first.
pub open spec fn decoding_carries_over(image: Decoded, longer: Decoded, more: Seq<u8>) -> bool {
    &&& image.frames.is_prefix_of(longer.frames)
    &&& image.end != Err::<(), Stop>(Stop::Short) ==> longer == (Decoded {
        rest: image.rest + more,
        ..image
    })
}

proof fn lemma_true_colors_valid(layout: PixelLayout, count: nat, input: Seq<u8>)
    ensures
        true_colors(layout, count, input) != Parse::<Seq<u8>>::Stopped(Stop::Invalid),
    decreases count,
{
    if count > 0 {
        lemma_true_colors_valid(layout, (count - 1) as nat, input);
    }
}

/// Where a tile stops at its size of palette, it does so with more input too.
proof fn lemma_palette_more(
    layout: PixelLayout,
    width: nat,
    height: nat,
    input: Seq<u8>,
    more: Seq<u8>,
)
    requires
        tile_pixels(layout, width, height, input) == Parse::<Seq<u8>>::Stopped(Stop::Invalid),
    ensures
        behind_palette(layout, input + more) == behind_palette(layout, input) + more,
{
    let size = (input[0] % 128) as nat;
    assert((input + more).skip(1) =~= input.skip(1) + more);
    lemma_true_colors_valid(layout, size, input.skip(1));
    lemma_true_colors_more(layout, size, input.skip(1), more);
}

proof fn lemma_tiles_more(
    layout: PixelLayout,
    rect: Rect,
    k: nat,
    input: Seq<u8>,
    more: Seq<u8>,
)
    ensures
        decoding_carries_over(
            tiles_from(layout, rect, k, input),
            tiles_from(layout, rect, k, input + more),
            more,
        ),
    decreases tile_count(rect) - k,
{
    if k < tile_count(rect) {
        let tile = nth_tile(rect, k as int);
        lemma_tile_more(layout, tile.width as nat, tile.height as nat, input, more);
        match tile_pixels(layout, tile.width as nat, tile.height as nat, input) {
            Parse::Done(_, rest) => lemma_tiles_more(layout, rect, k + 1, rest, more),
            Parse::Stopped(Stop::Invalid) => lemma_palette_more(
                layout,
                tile.width as nat,
                tile.height as nat,
                input,
                more,
            ),
            _ => {},
        }
    }
}

/// Bytes that come behind an image do not change it: what has been decoded, or
/// found to be wrong, stays so, and the bytes are left for what comes next. A
/// decoder that ran out of input can be run again once there is more.
pub proof fn law_more_input(format: PixelFormat, rect: Rect, input: Seq<u8>, more: Seq<u8>)
    ensures
        decoding_carries_over(
            decoded(format, rect, input),
            decoded(format, rect, input + more),
            more,
        ),
{
    if input.len() >= 4 {
        assert(be_u32(input + more) == be_u32(input));
        let start = 4 + be_u32(input);
        if input.len() >= start {
            assert((input + more).skip(start) =~= input.skip(start) + more);
            lemma_tiles_more(pixel_layout(format), rect, 0, input.skip(start), more);
        }
    }
}

/// Whether a tile holds the pixel with this offset from the corner of its
/// rectangle.
pub open spec fn holds_pixel(tile: Tile, x: int, y: int) -> bool {
    tile.x <= x < tile.x + tile.width && tile.y <= y < tile.y + tile.height
}

/// Every pixel of a rectangle lies in one of its tiles, and in no other.
pub proof fn law_tiles_cover(rect: Rect, x: int, y: int)
    requires
        0 <= x < rect.width,
        0 <= y < rect.height,
    ensures
        exists|k: int| 0 <= k < tile_count(rect) && #[trigger] holds_pixel(nth_tile(rect, k), x, y),
        forall|j: int, k: int|
            0 <= j < tile_count(rect) && 0 <= k < tile_count(rect) && #[trigger] holds_pixel(
                nth_tile(rect, j),
                x,
                y,
            ) && #[trigger] holds_pixel(nth_tile(rect, k), x, y) ==> j == k,
{
    let rows = tiles_along(rect.height as int);
    let columns = tiles_along(rect.width as int);
    let row = y / 16;
    let column = x / 16;
    let k = row * columns + column;
    assert(0 <= k < rows * columns) by (nonlinear_arith)
        requires
            0 <= row < rows,
            0 <= column < columns,
            k == row * columns + column,
    ;
    vstd::arithmetic::div_mod::lemma_fundamental_div_mod_converse(k, columns, row, column);
    assert(holds_pixel(nth_tile(rect, k), x, y));
    assert forall|j: int|
        0 <= j < tile_count(rect) && #[trigger] holds_pixel(nth_tile(rect, j), x, y) implies j == k by {
        vstd::arithmetic::div_mod::lemma_fundamental_div_mod(j, columns);
        vstd::arithmetic::div_mod::lemma_mod_bound(j, columns);
        assert(j / columns == row);
        assert(j % columns == column);
        assert(columns * (j / columns) == row * columns) by (nonlinear_arith)
            requires
                j / columns == row,
        ;
    }
}

proof fn lemma_more_pixels(bpp: nat, count: nat)
    requires
        count > 0,
    ensures
        count * bpp == (count - 1) * bpp + bpp,
{
    assert(count * bpp == (count - 1) * bpp + bpp) by (nonlinear_arith);
}

proof fn lemma_true_colors_len(layout: PixelLayout, count: nat, input: Seq<u8>)
    ensures
        true_colors(layout, count, input) matches Parse::Done(pixels, _) ==> pixels.len() == count
            * layout.bpp,
    decreases count,
{
    if count > 0 {
        lemma_true_colors_len(layout, (count - 1) as nat, input);
        lemma_more_pixels(layout.bpp as nat, count);
    }
}

proof fn lemma_repeated_len(pixel: Seq<u8>, count: nat)
    ensures
        repeated(pixel, count).len() == count * pixel.len(),
    decreases count,
{
    if count > 0 {
        lemma_repeated_len(pixel, (count - 1) as nat);
        lemma_more_pixels(pixel.len(), count);
    }
}

proof fn lemma_packed_row_len(palette: Seq<u8>, bpp: nat, bits: nat, count: nat, input: Seq<u8>)
    ensures
        packed_row(palette, bpp, bits, count, input) matches Parse::Done(pixels, _)
            ==> pixels.len() == count * bpp,
    decreases count,
{
    if count > 0 {
        lemma_packed_row_len(palette, bpp, bits, (count - 1) as nat, input);
        lemma_more_pixels(bpp, count);
    }
}

proof fn lemma_packed_rows_len(
    palette: Seq<u8>,
    bpp: nat,
    bits: nat,
    width: nat,
    count: nat,
    input: Seq<u8>,
)
    ensures
        packed_rows(palette, bpp, bits, width, count, input) matches Parse::Done(pixels, _)
            ==> pixels.len() == count * width * bpp,
    decreases count,
{
    if count > 0 {
        lemma_packed_rows_len(palette, bpp, bits, width, (count - 1) as nat, input);
        match packed_rows(palette, bpp, bits, width, (count - 1) as nat, input) {
            Parse::Done(_, rest) => lemma_packed_row_len(palette, bpp, bits, width, rest),
            _ => {},
        }
        assert(count * width * bpp == (count - 1) * width * bpp + width * bpp) by (nonlinear_arith);
    } else {
        assert(0 * width * bpp == 0) by (nonlinear_arith);
    }
}

proof fn lemma_true_color_runs_len(layout: PixelLayout, wanted: nat, count: nat, input: Seq<u8>)
    ensures
        true_color_runs(layout, wanted, count, input) matches Parse::Done(pixels, _)
            ==> pixels.len() >= (wanted - count) * layout.bpp,
    decreases
            (if count < wanted {
                wanted - count
            } else {
                0
            }),
{
    let bpp = layout.bpp as nat;
    if count < wanted {
        match true_color(layout, input) {
            Parse::Done(pixel, rest) => match run_extra(rest) {
                Parse::Done(extra, behind) => {
                    lemma_true_color_runs_len(layout, wanted, count + 1 + extra, behind);
                    lemma_repeated_len(pixel, 1 + extra);
                    assert((wanted - count) * bpp == (1 + extra) * bpp + (wanted - (count + 1
                        + extra)) * bpp) by (nonlinear_arith);
                },
                _ => {},
            },
            _ => {},
        }
    } else {
        assert((wanted - count) * bpp <= 0) by (nonlinear_arith)
            requires
                count >= wanted,
        ;
    }
}

proof fn lemma_indexed_runs_len(
    palette: Seq<u8>,
    bpp: nat,
    wanted: nat,
    count: nat,
    input: Seq<u8>,
)
    ensures
        indexed_runs(palette, bpp, wanted, count, input) matches Parse::Done(pixels, _)
            ==> pixels.len() >= (wanted - count) * bpp,
    decreases
            (if count < wanted {
                wanted - count
            } else {
                0
            }),
{
    if count < wanted {
        match indexed_run(input) {
            Parse::Done((index, extra), rest) => match color(palette, bpp, index) {
                Some(pixel) => {
                    lemma_indexed_runs_len(palette, bpp, wanted, count + 1 + extra, rest);
                    lemma_repeated_len(pixel, 1 + extra);
                    assert(pixel.len() == bpp);
                    assert((wanted - count) * bpp == (1 + extra) * bpp + (wanted - (count + 1
                        + extra)) * bpp) by (nonlinear_arith);
                },
                None => {},
            },
            _ => {},
        }
    } else {
        assert((wanted - count) * bpp <= 0) by (nonlinear_arith)
            requires
                count >= wanted,
        ;
    }
}

/// A tile that can be decoded has a pixel for each place in it. There are no more
/// than that unless it is run-length encoded, when its last run may be too long.
pub proof fn law_tile_has_all_pixels(
    layout: PixelLayout,
    width: nat,
    height: nat,
    input: Seq<u8>,
)
    ensures
        tile_pixels(layout, width, height, input) matches Parse::Done(pixels, _) ==> {
            &&& pixels.len() >= height * width * layout.bpp
            &&& input[0] < 128 ==> pixels.len() == height * width * layout.bpp
        },
{
    if input.len() > 0 {
        let palette_size = (input[0] % 128) as nat;
        let bpp = layout.bpp as nat;
        lemma_true_colors_len(layout, palette_size, input.skip(1));
        match true_colors(layout, palette_size, input.skip(1)) {
            Parse::Done(palette, rest) => {
                lemma_true_colors_len(layout, height * width, rest);
                lemma_repeated_len(palette, height * width);
                lemma_packed_rows_len(palette, bpp, 1, width, height, rest);
                lemma_packed_rows_len(palette, bpp, 2, width, height, rest);
                lemma_packed_rows_len(palette, bpp, 4, width, height, rest);
                lemma_true_color_runs_len(layout, height * width, 0, rest);
                lemma_indexed_runs_len(palette, bpp, height * width, 0, rest);
                if palette_size == 1 {
                    assert(palette.len() == bpp);
                }
            },
            _ => {},
        }
    }
}

/// Whether an image is that of a tile, at its place and with all its pixels.
pub open spec fn image_of_tile(image: ImageEventView, rect: Rect, tile: Tile, bpp: nat) -> bool {
    image matches ImageEventView::RawImage(place, pixels) && place == placed(rect, tile)
        && pixels.len() >= tile.height * tile.width * bpp
}

/// Whether these are the images of tiles of a rectangle, one after the other from the
/// one with number `k` on.
pub open spec fn images_of_tiles(
    images: Seq<ImageEventView>,
    rect: Rect,
    bpp: nat,
    k: nat,
) -> bool {
    &&& images.len() <= tile_count(rect) - k
    &&& forall|i: int|
        0 <= i < images.len() ==> image_of_tile(
            #[trigger] images[i],
            rect,
            nth_tile(rect, k + i),
            bpp,
        )
}

proof fn lemma_images_of_tiles(layout: PixelLayout, rect: Rect, k: nat, input: Seq<u8>)
    requires
        k <= tile_count(rect),
    ensures
        images_of_tiles(
            tiles_from(layout, rect, k, input).frames,
            rect,
            layout.bpp as nat,
            k,
        ),
        tiles_from(layout, rect, k, input).end is Ok ==> tiles_from(
            layout,
            rect,
            k,
            input,
        ).frames.len() == tile_count(rect) - k,
    decreases tile_count(rect) - k,
{
    let whole = tiles_from(layout, rect, k, input);
    if k < tile_count(rect) {
        let tile = nth_tile(rect, k as int);
        law_tiles_are_small(rect, k as int);
        law_tile_has_all_pixels(layout, tile.width as nat, tile.height as nat, input);
        match tile_pixels(layout, tile.width as nat, tile.height as nat, input) {
            Parse::Done(pixels, rest) => {
                lemma_images_of_tiles(layout, rect, k + 1, rest);
                let others = tiles_from(layout, rect, k + 1, rest).frames;
                assert forall|i: int|
                    0 <= i < whole.frames.len() implies image_of_tile(
                    #[trigger] whole.frames[i],
                    rect,
                    nth_tile(rect, k + i),
                    layout.bpp as nat,
                ) by {
                    if i > 0 {
                        assert(whole.frames[i] == others[i - 1]);
                        assert(k + 1 + (i - 1) == k + i);
                    }
                }
            },
            _ => {},
        }
    }
}

/// No tile is larger than 16 by 16 pixels, or reaches beyond its rectangle.
pub proof fn law_tiles_are_small(rect: Rect, k: int)
    requires
        0 <= k < tile_count(rect),
    ensures
        0 < nth_tile(rect, k).width <= 16,
        0 < nth_tile(rect, k).height <= 16,
        0 <= nth_tile(rect, k).x <= nth_tile(rect, k).x + nth_tile(rect, k).width <= rect.width,
        0 <= nth_tile(rect, k).y <= nth_tile(rect, k).y + nth_tile(rect, k).height <= rect.height,
{
    let rows = tiles_along(rect.height as int);
    let columns = tiles_along(rect.width as int);
    assert(columns > 0) by (nonlinear_arith)
        requires
            0 <= k < rows * columns,
            0 <= rows,
            0 <= columns,
    ;
    vstd::arithmetic::div_mod::lemma_fundamental_div_mod(k, columns);
    vstd::arithmetic::div_mod::lemma_mod_bound(k, columns);
    vstd::arithmetic::div_mod::lemma_div_pos_is_pos(k, columns);
    assert(k / columns < rows) by (nonlinear_arith)
        requires
            0 <= k < rows * columns,
            columns > 0,
            k == columns * (k / columns) + k % columns,
            0 <= k % columns,
    ;
}

/// A rectangle that can be decoded gives one image for each of its tiles, in the
/// order of the tiles, each at its place and with all its pixels. One that cannot gives
/// such images for the tiles that come first.
pub proof fn law_image_for_each_tile(format: PixelFormat, rect: Rect, input: Seq<u8>)
    ensures
        images_of_tiles(
            decoded(format, rect, input).frames,
            rect,
            (format.bits_per_pixel / 8) as nat,
            0,
        ),
        decoded(format, rect, input).end is Ok ==> decoded(format, rect, input).frames.len()
            == tile_count(rect),
{
    if input.len() >= 4 && input.len() >= 4 + be_u32(input) {
        lemma_images_of_tiles(pixel_layout(format), rect, 0, input.skip(4 + be_u32(input)));
    }
}

} // verus!
