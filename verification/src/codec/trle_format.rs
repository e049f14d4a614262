//! The format of tiled run-length encoded image data, as mathematics.
use crate::config::PixelFormat;
use crate::event::{ImageEventView, Rect};
use crate::input::{be_u32, Parse, Stop};
use vstd::prelude::*;

verus! {

/// Tiles are this wide and this high, but for those at the right and at the
/// bottom edge of the rectangle.
pub const TILE_SIZE: u16 = 16;

/// How pixels are written: decoded ones take `bpp` bytes each, those in the
/// input `compressed_bpp` bytes, which leaves out the alpha byte where there is
/// one, before or behind the colors.
#[derive(Debug, Clone, Copy, PartialEq, Eq, Structural)]
pub struct PixelLayout {
    pub bpp: usize,
    pub compressed_bpp: usize,
    pub alpha_at_first: bool,
}

/// The bits of a pixel that hold a color.
pub open spec fn pixel_mask(format: PixelFormat) -> u32 {
    ((format.red_max as u32) << format.red_shift) | ((format.green_max as u32)
        << format.green_shift) | ((format.blue_max as u32) << format.blue_shift)
}

/// Whether the colors lie within a pixel of 32 bits.
pub open spec fn shifts_in_range(format: PixelFormat) -> bool {
    format.red_shift < 32 && format.green_shift < 32 && format.blue_shift < 32
}

/// The layout of pixels of a format. Three bytes are sent for a pixel of 32 bits
/// whose colors leave its first or its last byte free; the free byte comes first
/// in the decoded pixel if it is the lowest and the format is little-endian, or
/// the highest and the format is big-endian.
pub open spec fn pixel_layout(format: PixelFormat) -> PixelLayout {
    let bpp = (format.bits_per_pixel / 8) as usize;
    if format.bits_per_pixel == 32 && format.true_color_flag > 0 && format.depth <= 24 {
        if pixel_mask(format) & 0x000000ff == 0 {
            PixelLayout { bpp, compressed_bpp: 3, alpha_at_first: format.big_endian_flag == 0 }
        } else if pixel_mask(format) & 0xff000000 == 0 {
            PixelLayout { bpp, compressed_bpp: 3, alpha_at_first: format.big_endian_flag > 0 }
        } else {
            PixelLayout { bpp, compressed_bpp: 4, alpha_at_first: false }
        }
    } else {
        PixelLayout { bpp, compressed_bpp: bpp, alpha_at_first: false }
    }
}

/// How many bytes of a decoded pixel come before those that are sent.
pub open spec fn padding(layout: PixelLayout) -> int {
    if layout.alpha_at_first {
        1
    } else {
        0
    }
}

/// A decoded pixel: the bytes that were sent, and 255 where none was.
pub open spec fn expanded(layout: PixelLayout, sent: Seq<u8>) -> Seq<u8> {
    let pad = padding(layout);
    Seq::new(
        layout.bpp as nat,
        |i: int|
            if pad <= i < pad + sent.len() {
                sent[i - pad]
            } else {
                255u8
            },
    )
}

/// One pixel. It takes at most four bytes, sent and decoded.
pub open spec fn true_color(layout: PixelLayout, input: Seq<u8>) -> Parse<Seq<u8>> {
    if padding(layout) + layout.compressed_bpp > 4 {
        Parse::Stopped(Stop::Fault)
    } else if input.len() < layout.compressed_bpp {
        Parse::Stopped(Stop::Short)
    } else if layout.bpp > 4 {
        Parse::Stopped(Stop::Fault)
    } else {
        Parse::Done(
            expanded(layout, input.take(layout.compressed_bpp as int)),
            input.skip(layout.compressed_bpp as int),
        )
    }
}

/// So many pixels, one behind the other.
pub open spec fn true_colors(layout: PixelLayout, count: nat, input: Seq<u8>) -> Parse<Seq<u8>>
    decreases count,
{
    if count == 0 {
        Parse::Done(Seq::empty(), input)
    } else {
        match true_colors(layout, (count - 1) as nat, input) {
            Parse::Done(pixels, rest) => match true_color(layout, rest) {
                Parse::Done(pixel, behind) => Parse::Done(pixels + pixel, behind),
                Parse::Stopped(stop) => Parse::Stopped(stop),
            },
            Parse::Stopped(stop) => Parse::Stopped(stop),
        }
    }
}

/// The same pixel so many times.
pub open spec fn repeated(pixel: Seq<u8>, count: nat) -> Seq<u8>
    decreases count,
{
    if count == 0 {
        Seq::empty()
    } else {
        repeated(pixel, (count - 1) as nat) + pixel
    }
}

/// The color with this index in a palette, if it has one.
pub open spec fn color(palette: Seq<u8>, bpp: nat, index: nat) -> Option<Seq<u8>> {
    if index * bpp + bpp <= palette.len() {
        Some(palette.subrange((index * bpp) as int, (index * bpp + bpp) as int))
    } else {
        None
    }
}

/// How many bits an index into a palette of this size has.
pub open spec fn bits_per_index(palette_size: nat) -> nat {
    if palette_size <= 2 {
        1
    } else if palette_size <= 4 {
        2
    } else {
        4
    }
}

/// One of the indices that share a byte, counted from the high bits down.
pub open spec fn packed_index(byte: u8, bits: nat, slot: int) -> u8 {
    (byte >> ((8 - bits * (slot + 1)) as u8)) & (((1u8 << (bits as u8)) - 1) as u8)
}

/// The first pixels of a row of indices. A row starts with a byte of its own.
pub open spec fn packed_row(
    palette: Seq<u8>,
    bpp: nat,
    bits: nat,
    count: nat,
    input: Seq<u8>,
) -> Parse<Seq<u8>>
    decreases count,
{
    if count == 0 {
        Parse::Done(Seq::empty(), input)
    } else {
        let column = count - 1;
        let per_byte = 8int / bits as int;
        match packed_row(palette, bpp, bits, column as nat, input) {
            Parse::Done(pixels, _) => if column / per_byte >= input.len() {
                Parse::Stopped(Stop::Short)
            } else {
                let index = packed_index(input[column / per_byte], bits, column % per_byte);
                match color(palette, bpp, index as nat) {
                    Some(pixel) => Parse::Done(
                        pixels + pixel,
                        input.skip(column / per_byte + 1),
                    ),
                    None => Parse::Stopped(Stop::Fault),
                }
            },
            Parse::Stopped(stop) => Parse::Stopped(stop),
        }
    }
}

/// The first rows of a tile of indices.
pub open spec fn packed_rows(
    palette: Seq<u8>,
    bpp: nat,
    bits: nat,
    width: nat,
    count: nat,
    input: Seq<u8>,
) -> Parse<Seq<u8>>
    decreases count,
{
    if count == 0 {
        Parse::Done(Seq::empty(), input)
    } else {
        match packed_rows(palette, bpp, bits, width, (count - 1) as nat, input) {
            Parse::Done(pixels, rest) => match packed_row(palette, bpp, bits, width, rest) {
                Parse::Done(row, behind) => Parse::Done(pixels + row, behind),
                Parse::Stopped(stop) => Parse::Stopped(stop),
            },
            Parse::Stopped(stop) => Parse::Stopped(stop),
        }
    }
}

/// By how much a run is longer than one pixel: bytes that are added up, as far
/// as the first that is not 255.
pub open spec fn run_extra(input: Seq<u8>) -> Parse<nat>
    decreases input.len(),
{
    if input.len() == 0 {
        Parse::Stopped(Stop::Short)
    } else if input[0] == 255 {
        match run_extra(input.skip(1)) {
            Parse::Done(extra, rest) => Parse::Done(255 + extra, rest),
            Parse::Stopped(stop) => Parse::Stopped(stop),
        }
    } else {
        Parse::Done(input[0] as nat, input.skip(1))
    }
}

/// Runs of pixels, each a pixel and a length, until there are `wanted` pixels.
/// `count` of them have been read before. The last run may go beyond.
pub open spec fn true_color_runs(
    layout: PixelLayout,
    wanted: nat,
    count: nat,
    input: Seq<u8>,
) -> Parse<Seq<u8>>
    decreases
            (if count < wanted {
                wanted - count
            } else {
                0
            }),
{
    if count >= wanted {
        Parse::Done(Seq::empty(), input)
    } else {
        match true_color(layout, input) {
            Parse::Done(pixel, rest) => match run_extra(rest) {
                Parse::Done(extra, behind) => match true_color_runs(
                    layout,
                    wanted,
                    count + 1 + extra,
                    behind,
                ) {
                    Parse::Done(pixels, end) => Parse::Done(
                        repeated(pixel, 1 + extra) + pixels,
                        end,
                    ),
                    Parse::Stopped(stop) => Parse::Stopped(stop),
                },
                Parse::Stopped(stop) => Parse::Stopped(stop),
            },
            Parse::Stopped(stop) => Parse::Stopped(stop),
        }
    }
}

/// One run of indexed pixels: the index, and by how much the run is longer than
/// one pixel. A length follows if the high bit is set.
pub open spec fn indexed_run(input: Seq<u8>) -> Parse<(nat, nat)> {
    if input.len() == 0 {
        Parse::Stopped(Stop::Short)
    } else if input[0] >= 128 {
        match run_extra(input.skip(1)) {
            Parse::Done(extra, rest) => Parse::Done(((input[0] - 128) as nat, extra), rest),
            Parse::Stopped(stop) => Parse::Stopped(stop),
        }
    } else {
        Parse::Done((input[0] as nat, 0), input.skip(1))
    }
}

/// Runs of indexed pixels until there are `wanted` pixels. `count` of them have
/// been read before. The last run may go beyond.
pub open spec fn indexed_runs(
    palette: Seq<u8>,
    bpp: nat,
    wanted: nat,
    count: nat,
    input: Seq<u8>,
) -> Parse<Seq<u8>>
    decreases
            (if count < wanted {
                wanted - count
            } else {
                0
            }),
{
    if count >= wanted {
        Parse::Done(Seq::empty(), input)
    } else {
        match indexed_run(input) {
            Parse::Done((index, extra), rest) => match color(palette, bpp, index) {
                Some(pixel) => match indexed_runs(palette, bpp, wanted, count + 1 + extra, rest) {
                    Parse::Done(pixels, end) => Parse::Done(
                        repeated(pixel, 1 + extra) + pixels,
                        end,
                    ),
                    Parse::Stopped(stop) => Parse::Stopped(stop),
                },
                None => Parse::Stopped(Stop::Fault),
            },
            Parse::Stopped(stop) => Parse::Stopped(stop),
        }
    }
}

/// The pixels of a tile, behind its palette.
pub open spec fn tile_body(
    layout: PixelLayout,
    width: nat,
    height: nat,
    is_rle: bool,
    palette_size: nat,
    palette: Seq<u8>,
    input: Seq<u8>,
) -> Parse<Seq<u8>> {
    let bpp = layout.bpp as nat;
    if !is_rle && palette_size == 0 {
        true_colors(layout, height * width, input)
    } else if !is_rle && palette_size == 1 {
        Parse::Done(repeated(palette, height * width), input)
    } else if !is_rle && palette_size <= 16 {
        packed_rows(palette, bpp, bits_per_index(palette_size), width, height, input)
    } else if is_rle && palette_size == 0 {
        true_color_runs(layout, height * width, 0, input)
    } else if is_rle && palette_size >= 2 {
        indexed_runs(palette, bpp, height * width, 0, input)
    } else {
        Parse::Stopped(Stop::Invalid)
    }
}

/// A tile: a byte that says how it is encoded, its palette, its pixels. The high
/// bit of the byte stands for run-length encoding, the rest is the size of the
/// palette.
pub open spec fn tile_pixels(
    layout: PixelLayout,
    width: nat,
    height: nat,
    input: Seq<u8>,
) -> Parse<Seq<u8>> {
    if input.len() == 0 {
        Parse::Stopped(Stop::Short)
    } else {
        let palette_size = (input[0] % 128) as nat;
        match true_colors(layout, palette_size, input.skip(1)) {
            Parse::Done(palette, rest) => tile_body(
                layout,
                width,
                height,
                input[0] >= 128,
                palette_size,
                palette,
                rest,
            ),
            Parse::Stopped(stop) => Parse::Stopped(stop),
        }
    }
}

/// The input behind the palette of a tile.
pub open spec fn behind_palette(layout: PixelLayout, input: Seq<u8>) -> Seq<u8> {
    match true_colors(layout, (input[0] % 128) as nat, input.skip(1)) {
        Parse::Done(_, rest) => rest,
        Parse::Stopped(_) => Seq::empty(),
    }
}

/// A part of a rectangle, by its offset from the corner of the rectangle.
pub struct Tile {
    pub x: int,
    pub y: int,
    pub width: int,
    pub height: int,
}

/// How many tiles it takes to cover a length.
pub open spec fn tiles_along(length: int) -> int {
    (length + TILE_SIZE - 1) / TILE_SIZE as int
}

/// How many tiles a rectangle is divided into.
pub open spec fn tile_count(rect: Rect) -> nat {
    (tiles_along(rect.height as int) * tiles_along(rect.width as int)) as nat
}

/// The tile in this row and column.
pub open spec fn tile_at(rect: Rect, row: int, column: int) -> Tile {
    let x = column * TILE_SIZE;
    let y = row * TILE_SIZE;
    Tile {
        x,
        y,
        width: if rect.width - x < TILE_SIZE {
            rect.width - x
        } else {
            TILE_SIZE as int
        },
        height: if rect.height - y < TILE_SIZE {
            rect.height - y
        } else {
            TILE_SIZE as int
        },
    }
}

/// The tiles of a rectangle, left to right and top to bottom.
pub open spec fn nth_tile(rect: Rect, k: int) -> Tile {
    let columns = tiles_along(rect.width as int);
    tile_at(rect, k / columns, k % columns)
}

/// Whether the corner of a tile can be told as a place on the screen.
pub open spec fn on_screen(rect: Rect, tile: Tile) -> bool {
    rect.x + tile.x <= u16::MAX && rect.y + tile.y <= u16::MAX
}

/// Where a tile of a rectangle is on the screen.
pub open spec fn placed(rect: Rect, tile: Tile) -> Rect {
    Rect {
        x: (rect.x + tile.x) as u16,
        y: (rect.y + tile.y) as u16,
        width: tile.width as u16,
        height: tile.height as u16,
    }
}

/// What decoding a rectangle comes to: the images of the tiles that could be
/// decoded, whether those were all, and the input that was not used.
pub struct Decoded {
    pub frames: Seq<ImageEventView>,
    pub end: Result<(), Stop>,
    pub rest: Seq<u8>,
}

/// What decoding comes to that stops at a tile before it has an image.
pub open spec fn stopped_at(layout: PixelLayout, stop: Stop, input: Seq<u8>) -> Decoded {
    Decoded {
        frames: Seq::empty(),
        end: Err(stop),
        rest: match stop {
            Stop::Short => Seq::empty(),
            Stop::Invalid => behind_palette(layout, input),
            Stop::Fault => input,
        },
    }
}

/// The tiles of a rectangle from the one with number `k` on. All of the input is used up
/// where it is too short; a tile with a size of palette that there is not is used as far as
/// its palette.
pub open spec fn tiles_from(layout: PixelLayout, rect: Rect, k: nat, input: Seq<u8>) -> Decoded
    decreases tile_count(rect) - k,
{
    if k >= tile_count(rect) {
        Decoded { frames: Seq::empty(), end: Ok(()), rest: input }
    } else {
        let tile = nth_tile(rect, k as int);
        match tile_pixels(layout, tile.width as nat, tile.height as nat, input) {
            Parse::Done(pixels, rest) => if on_screen(rect, tile) {
                let others = tiles_from(layout, rect, k + 1, rest);
                Decoded {
                    frames: seq![ImageEventView::RawImage(placed(rect, tile), pixels)]
                        + others.frames,
                    ..others
                }
            } else {
                stopped_at(layout, Stop::Fault, input)
            },
            Parse::Stopped(stop) => stopped_at(layout, stop, input),
        }
    }
}

/// A rectangle: a block of data with its length before it, which is passed over,
/// and the tiles. None of the input counts as used where decoding cannot go on.
pub open spec fn decoded(format: PixelFormat, rect: Rect, input: Seq<u8>) -> Decoded {
    if input.len() < 4 || input.len() < 4 + be_u32(input) {
        Decoded { frames: Seq::empty(), end: Err(Stop::Short), rest: Seq::empty() }
    } else if !shifts_in_range(format) {
        Decoded { frames: Seq::empty(), end: Err(Stop::Fault), rest: input }
    } else {
        let tiles = tiles_from(pixel_layout(format), rect, 0, input.skip(4 + be_u32(input)));
        if tiles.end == Err::<(), Stop>(Stop::Fault) {
            Decoded { rest: input, ..tiles }
        } else {
            tiles
        }
    }
}

} // verus!
