//! Tiled run-length encoded image data as it is written, and that decoding undoes the
//! writing.
use crate::codec::trle_format::{
    color, decoded, indexed_run, indexed_runs, nth_tile, on_screen, packed_index, packed_row,
    packed_rows, pixel_layout, placed, repeated, run_extra, tile_body, tile_count, tile_pixels,
    tiles_from, true_color, true_color_runs, true_colors, Decoded, PixelLayout,
};
use crate::codec::trle_laws::lemma_tile_more;
use crate::config::PixelFormat;
use crate::event::{ImageEventView, Rect};
use crate::input::{be_u32, Parse, Stop};
use crate::input_laws::{law_u32_written, written_u32};
use vstd::prelude::*;

verus! {

/// Pieces put one behind the other.
pub open spec fn joined(parts: Seq<Seq<u8>>) -> Seq<u8>
    decreases parts.len(),
{
    if parts.len() == 0 {
        Seq::empty()
    } else {
        joined(parts.drop_last()) + parts.last()
    }
}

proof fn lemma_joined_add(before: Seq<Seq<u8>>, more: Seq<Seq<u8>>)
    ensures
        joined(before + more) == joined(before) + joined(more),
    decreases more.len(),
{
    if more.len() == 0 {
        assert(before + more =~= before);
        assert(joined(before) + joined(more) =~= joined(before));
    } else {
        lemma_joined_add(before, more.drop_last());
        assert((before + more).drop_last() =~= before + more.drop_last());
        assert(joined(before + more) =~= joined(before) + joined(more));
    }
}

proof fn lemma_joined_first(parts: Seq<Seq<u8>>)
    requires
        parts.len() > 0,
    ensures
        joined(parts) == parts[0] + joined(parts.drop_first()),
{
    let first = seq![parts[0]];
    assert(parts =~= first + parts.drop_first());
    lemma_joined_add(first, parts.drop_first());
    reveal_with_fuel(joined, 2);
    assert(first.drop_last() =~= Seq::<Seq<u8>>::empty());
    assert(joined(first) =~= parts[0]);
}

pub(crate) proof fn lemma_joined_len(parts: Seq<Seq<u8>>, size: nat)
    requires
        forall|i: int| 0 <= i < parts.len() ==> (#[trigger] parts[i]).len() == size,
    ensures
        joined(parts).len() == parts.len() * size,
    decreases parts.len(),
{
    if parts.len() > 0 {
        lemma_joined_len(parts.drop_last(), size);
        assert(parts.len() * size == (parts.len() - 1) * size + size) by (nonlinear_arith);
    }
}

/// A palette that is colors of equal size put one behind the other gives back each of them
/// by its number, and no other color.
pub proof fn law_color_of_palette(colors: Seq<Seq<u8>>, bpp: nat, index: nat)
    requires
        forall|i: int| 0 <= i < colors.len() ==> (#[trigger] colors[i]).len() == bpp,
    ensures
        index < colors.len() ==> color(joined(colors), bpp, index) == Some(colors[index as int]),
        index >= colors.len() && bpp > 0 ==> color(joined(colors), bpp, index) is None,
    decreases colors.len(),
{
    lemma_joined_len(colors, bpp);
    if index >= colors.len() {
        if bpp > 0 {
            assert(index * bpp + bpp > colors.len() * bpp) by (nonlinear_arith)
                requires
                    index >= colors.len(),
                    bpp > 0,
            ;
        }
    } else {
        let before = colors.drop_last();
        lemma_joined_len(before, bpp);
        let at = (index * bpp) as int;
        assert(index * bpp + bpp <= colors.len() * bpp) by (nonlinear_arith)
            requires
                index < colors.len(),
        ;
        assert(0 <= at) by (nonlinear_arith)
            requires
                at == index * bpp,
        ;
        if index + 1 == colors.len() {
            assert(joined(colors).subrange(at, at + bpp) =~= colors[index as int]);
        } else {
            law_color_of_palette(before, bpp, index);
            assert(index * bpp + bpp <= before.len() * bpp) by (nonlinear_arith)
                requires
                    index < before.len(),
            ;
            assert(joined(colors).subrange(at, at + bpp) =~= joined(before).subrange(
                at,
                at + bpp,
            ));
        }
    }
}

/// Whether what is sent of a pixel fits into the decoded pixel, and that into four bytes.
pub open spec fn fits(layout: PixelLayout) -> bool {
    layout.compressed_bpp + (if layout.alpha_at_first {
        1int
    } else {
        0
    }) <= layout.bpp <= 4
}

/// What a pixel is shown as that is sent as these bytes: the bytes, with 255 before them if
/// alpha comes first, and behind them as far as the pixel goes.
pub open spec fn shown(layout: PixelLayout, sent: Seq<u8>) -> Seq<u8> {
    let before = if layout.alpha_at_first {
        seq![255u8]
    } else {
        Seq::empty()
    };
    let behind = Seq::new((layout.bpp - before.len() - sent.len()) as nat, |i: int| 255u8);
    before + sent + behind
}

/// Whether these are pixels as they are sent.
pub open spec fn are_sent(layout: PixelLayout, colors: Seq<Seq<u8>>) -> bool {
    forall|i: int|
        0 <= i < colors.len() ==> (#[trigger] colors[i]).len() == layout.compressed_bpp
}

/// What each of a list of pixels is shown as.
pub open spec fn all_shown(layout: PixelLayout, colors: Seq<Seq<u8>>) -> Seq<Seq<u8>> {
    Seq::new(colors.len(), |i: int| shown(layout, colors[i]))
}

/// A pixel is shown with the bytes that were sent, in their order, and takes no others.
pub proof fn law_pixel_written(layout: PixelLayout, sent: Seq<u8>, rest: Seq<u8>)
    requires
        fits(layout),
        sent.len() == layout.compressed_bpp,
    ensures
        shown(layout, sent).len() == layout.bpp,
        true_color(layout, sent + rest) == Parse::Done(shown(layout, sent), rest),
{
    let n = sent.len() as int;
    assert((sent + rest).take(n) =~= sent);
    assert((sent + rest).skip(n) =~= rest);
    assert(true_color(layout, sent + rest)->Done_0 =~= shown(layout, sent));
}

proof fn lemma_colors_written(layout: PixelLayout, colors: Seq<Seq<u8>>, rest: Seq<u8>)
    requires
        fits(layout),
        are_sent(layout, colors),
    ensures
        true_colors(layout, colors.len(), joined(colors) + rest) == Parse::Done(
            joined(all_shown(layout, colors)),
            rest,
        ),
    decreases colors.len(),
{
    if colors.len() == 0 {
        assert(joined(colors) + rest =~= rest);
    } else {
        let before = colors.drop_last();
        let last = colors.last();
        lemma_colors_written(layout, before, last + rest);
        assert(joined(colors) + rest =~= joined(before) + (last + rest));
        law_pixel_written(layout, last, rest);
        assert(all_shown(layout, colors).drop_last() =~= all_shown(layout, before));
    }
}

/// The value of a pixel with these parts of red, green and blue.
pub open spec fn pixel_value(format: PixelFormat, red: u16, green: u16, blue: u16) -> u32 {
    ((red as u32) << format.red_shift) | ((green as u32) << format.green_shift) | ((blue as u32)
        << format.blue_shift)
}

/// The four bytes of a pixel in the order in which the format has them.
pub open spec fn pixel_bytes(format: PixelFormat, value: u32) -> Seq<u8> {
    let bytes = written_u32(value);
    if format.big_endian_flag > 0 {
        bytes
    } else {
        seq![bytes[3], bytes[2], bytes[1], bytes[0]]
    }
}

/// Whether the bits of these parts are among those that the format has for them.
pub open spec fn in_format(format: PixelFormat, red: u16, green: u16, blue: u16) -> bool {
    red & format.red_max == red && green & format.green_max == green && blue & format.blue_max
        == blue
}

proof fn lemma_free_bytes(
    r: u16,
    g: u16,
    b: u16,
    rm: u16,
    gm: u16,
    bm: u16,
    rs: u8,
    gs: u8,
    bs: u8,
    value: u32,
    most: u32,
)
    by (bit_vector)
    requires
        r & rm == r,
        g & gm == g,
        b & bm == b,
        rs < 32,
        gs < 32,
        bs < 32,
        value == ((r as u32) << rs) | ((g as u32) << gs) | ((b as u32) << bs),
        most == ((rm as u32) << rs) | ((gm as u32) << gs) | ((bm as u32) << bs),
    ensures
        most & 0x000000ff == 0 ==> value % 256 == 0,
        most & 0xff000000 == 0 ==> value / 0x1000000 == 0,
        (most & 0x000000ff == 0) == (most % 256 == 0),
        (most & 0xff000000 == 0) == (most / 0x1000000 == 0),
{
}

/// A pixel of four bytes is shown with the bytes that it has: none of them is lost if only
/// three are sent. The one that is not sent is zero in every color of the format, and is
/// shown as 255.
pub proof fn law_colors_kept(format: PixelFormat, red: u16, green: u16, blue: u16)
    requires
        format_fits(format),
        format.bits_per_pixel == 32,
        in_format(format, red, green, blue),
    ensures
        ({
            let layout = pixel_layout(format);
            let bytes = pixel_bytes(format, pixel_value(format, red, green, blue));
            let free: int = if layout.alpha_at_first {
                0
            } else {
                3
            };
            &&& layout.bpp == 4
            &&& layout.compressed_bpp == 3 || layout.compressed_bpp == 4
            &&& layout.compressed_bpp == 3 ==> bytes[free] == 0 && shown(
                layout,
                bytes.remove(free),
            ) == bytes.update(free, 255)
            &&& layout.compressed_bpp == 4 ==> shown(layout, bytes) == bytes
        }),
{
    let layout = pixel_layout(format);
    let value = pixel_value(format, red, green, blue);
    let bytes = pixel_bytes(format, value);
    let most = pixel_value(format, format.red_max, format.green_max, format.blue_max);
    lemma_free_bytes(
        red,
        green,
        blue,
        format.red_max,
        format.green_max,
        format.blue_max,
        format.red_shift,
        format.green_shift,
        format.blue_shift,
        value,
        most,
    );
    if layout.compressed_bpp == 3 {
        if layout.alpha_at_first {
            assert(shown(layout, bytes.remove(0)) =~= bytes.update(0, 255));
        } else {
            assert(shown(layout, bytes.remove(3)) =~= bytes.update(3, 255));
        }
    } else {
        assert(shown(layout, bytes) =~= bytes);
    }
}

/// Three bytes are sent of a pixel if and only if it has four, is of true color with a depth
/// of at most 24, and its colors leave its lowest or its highest byte free. It is the lowest
/// that is not sent if both are. All bytes of any other pixel are sent.
pub proof fn law_bytes_sent(format: PixelFormat)
    requires
        format_fits(format),
    ensures
        ({
            let layout = pixel_layout(format);
            let most = pixel_value(format, format.red_max, format.green_max, format.blue_max);
            let lowest_free = most % 256 == 0;
            let highest_free = most / 0x1000000 == 0;
            let three = format.bits_per_pixel == 32 && format.true_color_flag > 0 && format.depth
                <= 24 && (lowest_free || highest_free);
            &&& fits(layout)
            &&& 8 * layout.bpp <= format.bits_per_pixel < 8 * layout.bpp + 8
            &&& three <==> layout.compressed_bpp != layout.bpp
            &&& three ==> layout.compressed_bpp == 3
            &&& three && lowest_free ==> (layout.alpha_at_first <==> format.big_endian_flag == 0)
            &&& three && !lowest_free ==> (layout.alpha_at_first <==> format.big_endian_flag > 0)
        }),
{
    let most = pixel_value(format, format.red_max, format.green_max, format.blue_max);
    let (rm, gm, bm) = (format.red_max, format.green_max, format.blue_max);
    assert(rm & rm == rm && gm & gm == gm && bm & bm == bm) by (bit_vector);
    lemma_free_bytes(
        rm,
        gm,
        bm,
        rm,
        gm,
        bm,
        format.red_shift,
        format.green_shift,
        format.blue_shift,
        most,
        most,
    );
}

/// How long a run is, as it is written: a byte of 255 for each 255 pixels, and one for those
/// that are left. The first pixel is not counted.
pub open spec fn written_length(length: nat) -> Seq<u8> {
    Seq::new(((length - 1) / 255) as nat, |i: int| 255u8).push(((length - 1) % 255) as u8)
}

/// The length of a run is read as it was written.
pub proof fn law_length_written(length: nat, rest: Seq<u8>)
    requires
        length > 0,
    ensures
        run_extra(written_length(length) + rest) == Parse::Done((length - 1) as nat, rest),
    decreases length,
{
    let bytes = written_length(length) + rest;
    if length > 255 {
        let shorter = (length - 255) as nat;
        law_length_written(shorter, rest);
        assert((length - 1) / 255 == (shorter - 1) / 255 + 1);
        assert((length - 1) % 255 == (shorter - 1) % 255);
        assert(bytes[0] == 255);
        assert(bytes.skip(1) =~= written_length(shorter) + rest);
    } else {
        assert(bytes[0] == length - 1);
        assert(bytes.skip(1) =~= rest);
    }
}

/// How many bits an index takes where there are so many colors.
pub open spec fn index_bits(colors: nat) -> nat {
    if colors == 2 {
        1
    } else if colors == 3 || colors == 4 {
        2
    } else {
        4
    }
}

/// A byte with indices in it, the first in its high bits.
pub open spec fn packed_byte(indices: Seq<nat>, bits: nat) -> u8 {
    if bits == 1 {
        (indices[0] * 128 + indices[1] * 64 + indices[2] * 32 + indices[3] * 16 + indices[4] * 8
            + indices[5] * 4 + indices[6] * 2 + indices[7]) as u8
    } else if bits == 2 {
        (indices[0] * 64 + indices[1] * 16 + indices[2] * 4 + indices[3]) as u8
    } else {
        (indices[0] * 16 + indices[1]) as u8
    }
}

/// How many indices a byte holds.
pub open spec fn indices_in_byte(bits: nat) -> int {
    if bits == 1 {
        8
    } else if bits == 2 {
        4
    } else {
        2
    }
}

/// How many indices of so many bits there are.
pub open spec fn index_limit(bits: nat) -> int {
    if bits == 1 {
        2
    } else if bits == 2 {
        4
    } else {
        16
    }
}

proof fn lemma_eight_in_byte(
    b: u8,
    d0: u8,
    d1: u8,
    d2: u8,
    d3: u8,
    d4: u8,
    d5: u8,
    d6: u8,
    d7: u8,
)
    by (bit_vector)
    requires
        d0 < 2,
        d1 < 2,
        d2 < 2,
        d3 < 2,
        d4 < 2,
        d5 < 2,
        d6 < 2,
        d7 < 2,
        b == d0 * 128 + d1 * 64 + d2 * 32 + d3 * 16 + d4 * 8 + d5 * 4 + d6 * 2 + d7,
    ensures
        ((1u8 << 1u8) - 1) as u8 == 1,
        (b >> 7u8) & 1 == d0,
        (b >> 6u8) & 1 == d1,
        (b >> 5u8) & 1 == d2,
        (b >> 4u8) & 1 == d3,
        (b >> 3u8) & 1 == d4,
        (b >> 2u8) & 1 == d5,
        (b >> 1u8) & 1 == d6,
        (b >> 0u8) & 1 == d7,
{
}

proof fn lemma_four_in_byte(b: u8, d0: u8, d1: u8, d2: u8, d3: u8)
    by (bit_vector)
    requires
        d0 < 4,
        d1 < 4,
        d2 < 4,
        d3 < 4,
        b == d0 * 64 + d1 * 16 + d2 * 4 + d3,
    ensures
        ((1u8 << 2u8) - 1) as u8 == 3,
        (b >> 6u8) & 3 == d0,
        (b >> 4u8) & 3 == d1,
        (b >> 2u8) & 3 == d2,
        (b >> 0u8) & 3 == d3,
{
}

proof fn lemma_two_in_byte(b: u8, d0: u8, d1: u8)
    by (bit_vector)
    requires
        d0 < 16,
        d1 < 16,
        b == d0 * 16 + d1,
    ensures
        ((1u8 << 4u8) - 1) as u8 == 15,
        (b >> 4u8) & 15 == d0,
        (b >> 0u8) & 15 == d1,
{
}

/// Each index in a byte is found where it was written.
pub proof fn law_index_written(indices: Seq<nat>, bits: nat, slot: int)
    requires
        bits == 1 || bits == 2 || bits == 4,
        indices.len() == indices_in_byte(bits),
        forall|i: int| 0 <= i < indices.len() ==> #[trigger] indices[i] < index_limit(bits),
        0 <= slot < indices.len(),
    ensures
        packed_index(packed_byte(indices, bits), bits, slot) == indices[slot],
{
    let b = packed_byte(indices, bits);
    let d0 = indices[0];
    let d1 = indices[1];
    if bits == 1 {
        let (d2, d3, d4) = (indices[2], indices[3], indices[4]);
        let (d5, d6, d7) = (indices[5], indices[6], indices[7]);
        lemma_eight_in_byte(
            b,
            d0 as u8,
            d1 as u8,
            d2 as u8,
            d3 as u8,
            d4 as u8,
            d5 as u8,
            d6 as u8,
            d7 as u8,
        );
        assert(8 - bits * (slot + 1) == 7 - slot) by (nonlinear_arith)
            requires
                bits == 1,
        ;
    } else if bits == 2 {
        lemma_four_in_byte(b, d0 as u8, d1 as u8, indices[2] as u8, indices[3] as u8);
        assert(8 - bits * (slot + 1) == 6 - 2 * slot) by (nonlinear_arith)
            requires
                bits == 2,
        ;
    } else {
        lemma_two_in_byte(b, d0 as u8, d1 as u8);
        assert(8 - bits * (slot + 1) == 4 - 4 * slot) by (nonlinear_arith)
            requires
                bits == 4,
        ;
    }
}

/// A row of indices as it is written, byte by byte.
pub open spec fn written_row(row: Seq<nat>, bits: nat) -> Seq<u8> {
    let n = indices_in_byte(bits);
    Seq::new(
        (row.len() as int / n) as nat,
        |j: int| packed_byte(row.subrange(j * n, j * n + n), bits),
    )
}

/// Whether a row of indices can be written for so many pixels: it names colors that there
/// are, and is filled up with any indices to the next whole byte.
pub open spec fn row_fits(row: Seq<nat>, width: nat, colors: nat, bits: nat) -> bool {
    &&& width <= row.len() < width + indices_in_byte(bits)
    &&& row.len() as int % indices_in_byte(bits) == 0
    &&& forall|i: int| 0 <= i < row.len() ==> #[trigger] row[i] < index_limit(bits)
    &&& forall|i: int| 0 <= i < width ==> #[trigger] row[i] < colors
}

/// The colors that the first indices of a row stand for.
pub open spec fn row_pixels(colors: Seq<Seq<u8>>, row: Seq<nat>, width: nat) -> Seq<Seq<u8>> {
    Seq::new(width, |i: int| colors[row[i] as int])
}

proof fn lemma_slot(len: int, column: int, n: int)
    requires
        n == 8 || n == 4 || n == 2,
        0 <= column < len,
        len % n == 0,
    ensures
        0 <= column / n < len / n,
        0 <= column % n < n,
        (column / n) * n + column % n == column,
        (column / n) * n + n <= len,
        (column + n) / n == column / n + 1,
{
    if n == 8 {
        assert(column / 8 < len / 8);
    } else if n == 4 {
        assert(column / 4 < len / 4);
    } else {
        assert(column / 2 < len / 2);
    }
}

#[verifier::spinoff_prover]
#[verifier::rlimit(40)]
proof fn lemma_row_written(
    colors: Seq<Seq<u8>>,
    bpp: nat,
    bits: nat,
    row: Seq<nat>,
    width: nat,
    count: nat,
    rest: Seq<u8>,
)
    requires
        bits == 1 || bits == 2 || bits == 4,
        forall|i: int| 0 <= i < colors.len() ==> (#[trigger] colors[i]).len() == bpp,
        row_fits(row, width, colors.len(), bits),
        count <= width,
    ensures
        ({
            let n = indices_in_byte(bits);
            let input = written_row(row, bits) + rest;
            packed_row(joined(colors), bpp, bits, count, input) == Parse::Done(
                joined(row_pixels(colors, row, count)),
                input.skip((count + n - 1) / n),
            )
        }),
    decreases count,
{
    let n = indices_in_byte(bits);
    let bytes = written_row(row, bits);
    let input = bytes + rest;
    assert(8int / bits as int == n) by (nonlinear_arith)
        requires
            bits == 1 && n == 8 || bits == 2 && n == 4 || bits == 4 && n == 2,
    ;
    if count == 0 {
        assert((count + n - 1) / n == 0);
        assert(input.skip(0) =~= input);
    } else {
        let column = count - 1;
        lemma_row_written(colors, bpp, bits, row, width, column as nat, rest);
        let at = column / n;
        let slot = column % n;
        let len = row.len() as int;
        lemma_slot(len, column, n);
        let part = row.subrange(at * n, at * n + n);
        assert(bytes[at] == packed_byte(part, bits));
        assert(input[at] == bytes[at]);
        assert forall|i: int| 0 <= i < part.len() implies #[trigger] part[i] < index_limit(bits) by {
            assert(part[i] == row[at * n + i]);
        }
        law_index_written(part, bits, slot);
        assert(part[slot] == row[column]);
        law_color_of_palette(colors, bpp, row[column]);
        assert(row_pixels(colors, row, count).drop_last() =~= row_pixels(
            colors,
            row,
            column as nat,
        ));
    }
}

proof fn lemma_whole_bytes(len: int, width: int, n: int)
    requires
        n == 8 || n == 4 || n == 2,
        0 <= width <= len < width + n,
        len % n == 0,
    ensures
        (width + n - 1) / n == len / n,
{
    if n == 8 {
        assert((width + 7) / 8 == len / 8);
    } else if n == 4 {
        assert((width + 3) / 4 == len / 4);
    } else {
        assert((width + 1) / 2 == len / 2);
    }
}

/// Rows of indices as they are written.
pub open spec fn written_rows(rows: Seq<Seq<nat>>, bits: nat) -> Seq<u8> {
    joined(Seq::new(rows.len(), |i: int| written_row(rows[i], bits)))
}

/// The colors that rows of indices stand for.
pub open spec fn rows_pixels(colors: Seq<Seq<u8>>, rows: Seq<Seq<nat>>, width: nat) -> Seq<Seq<u8>>
    decreases rows.len(),
{
    if rows.len() == 0 {
        Seq::empty()
    } else {
        rows_pixels(colors, rows.drop_last(), width) + row_pixels(colors, rows.last(), width)
    }
}

#[verifier::spinoff_prover]
#[verifier::rlimit(40)]
proof fn lemma_rows_written(
    colors: Seq<Seq<u8>>,
    bpp: nat,
    bits: nat,
    rows: Seq<Seq<nat>>,
    width: nat,
    rest: Seq<u8>,
)
    requires
        bits == 1 || bits == 2 || bits == 4,
        forall|i: int| 0 <= i < colors.len() ==> (#[trigger] colors[i]).len() == bpp,
        forall|i: int|
            0 <= i < rows.len() ==> row_fits(#[trigger] rows[i], width, colors.len(), bits),
    ensures
        packed_rows(
            joined(colors),
            bpp,
            bits,
            width,
            rows.len(),
            written_rows(rows, bits) + rest,
        ) == Parse::Done(joined(rows_pixels(colors, rows, width)), rest),
    decreases rows.len(),
{
    if rows.len() == 0 {
        assert(written_rows(rows, bits) + rest =~= rest);
    } else {
        let n = indices_in_byte(bits);
        let before = rows.drop_last();
        let last = rows.last();
        let bytes = written_row(last, bits);
        assert(row_fits(rows[rows.len() - 1], width, colors.len(), bits));
        lemma_rows_written(colors, bpp, bits, before, width, bytes + rest);
        let parts = Seq::new(rows.len(), |i: int| written_row(rows[i], bits));
        assert(parts.drop_last() =~= Seq::new(before.len(), |i: int| written_row(before[i], bits)));
        assert(written_rows(rows, bits) + rest =~= written_rows(before, bits) + (bytes + rest));
        lemma_row_written(colors, bpp, bits, last, width, width, rest);
        lemma_whole_bytes(last.len() as int, width as int, n);
        assert((bytes + rest).skip((width + n - 1) / n) =~= rest);
        lemma_joined_add(rows_pixels(colors, before, width), row_pixels(colors, last, width));
    }
}

/// How many pixels runs come to.
pub open spec fn total(lengths: Seq<nat>) -> nat
    decreases lengths.len(),
{
    if lengths.len() == 0 {
        0
    } else {
        total(lengths.drop_last()) + lengths.last()
    }
}

proof fn lemma_total_first(lengths: Seq<nat>)
    requires
        lengths.len() > 0,
    ensures
        total(lengths) == lengths[0] + total(lengths.drop_first()),
    decreases lengths.len(),
{
    if lengths.len() == 1 {
        assert(lengths.drop_last() =~= lengths.drop_first());
    } else {
        lemma_total_first(lengths.drop_last());
        assert(lengths.drop_first().drop_last() =~= lengths.drop_last().drop_first());
    }
}

/// Whether runs of these lengths come to as many pixels as are wanted behind those that
/// there are, and not before the last of them.
pub open spec fn reach(lengths: Seq<nat>, count: nat, wanted: nat) -> bool {
    &&& forall|i: int| 0 <= i < lengths.len() ==> #[trigger] lengths[i] > 0
    &&& count + total(lengths) >= wanted
    &&& lengths.len() > 0 ==> count + total(lengths.drop_last()) < wanted
}

proof fn lemma_reach_on(lengths: Seq<nat>, count: nat, wanted: nat)
    requires
        lengths.len() > 0,
        reach(lengths, count, wanted),
    ensures
        count < wanted,
        reach(lengths.drop_first(), count + lengths[0], wanted),
{
    lemma_total_first(lengths);
    let others = lengths.drop_first();
    assert forall|i: int| 0 <= i < others.len() implies #[trigger] others[i] > 0 by {
        assert(others[i] == lengths[i + 1]);
    }
    if others.len() > 0 {
        lemma_total_first(lengths.drop_last());
        assert(others.drop_last() =~= lengths.drop_last().drop_first());
    }
}

/// The same pixel so many times.
pub open spec fn times(pixel: Seq<u8>, count: nat) -> Seq<Seq<u8>> {
    Seq::new(count, |i: int| pixel)
}

proof fn lemma_repeated(pixel: Seq<u8>, count: nat)
    ensures
        repeated(pixel, count) == joined(times(pixel, count)),
    decreases count,
{
    if count > 0 {
        lemma_repeated(pixel, (count - 1) as nat);
        assert(times(pixel, count).drop_last() =~= times(pixel, (count - 1) as nat));
    }
}

/// A run of pixels of one color, as it is sent.
pub struct Run {
    pub color: Seq<u8>,
    pub length: nat,
}

/// A run of pixels with one index. A run of one pixel can be written without its length.
pub struct IndexRun {
    pub index: nat,
    pub length: nat,
    pub with_length: bool,
}

pub open spec fn written_run(run: Run) -> Seq<u8> {
    run.color + written_length(run.length)
}

pub open spec fn written_index_run(run: IndexRun) -> Seq<u8> {
    if run.with_length {
        seq![(run.index + 128) as u8] + written_length(run.length)
    } else {
        seq![run.index as u8]
    }
}

pub open spec fn run_lengths(runs: Seq<Run>) -> Seq<nat> {
    Seq::new(runs.len(), |i: int| runs[i].length)
}

pub open spec fn index_run_lengths(runs: Seq<IndexRun>) -> Seq<nat> {
    Seq::new(runs.len(), |i: int| runs[i].length)
}

/// The pixels of runs, one behind the other.
pub open spec fn runs_pixels(layout: PixelLayout, runs: Seq<Run>) -> Seq<Seq<u8>>
    decreases runs.len(),
{
    if runs.len() == 0 {
        Seq::empty()
    } else {
        times(shown(layout, runs[0].color), runs[0].length) + runs_pixels(layout, runs.drop_first())
    }
}

/// The pixels of runs of indices, one behind the other.
pub open spec fn index_runs_pixels(colors: Seq<Seq<u8>>, runs: Seq<IndexRun>) -> Seq<Seq<u8>>
    decreases runs.len(),
{
    if runs.len() == 0 {
        Seq::empty()
    } else {
        times(colors[runs[0].index as int], runs[0].length) + index_runs_pixels(
            colors,
            runs.drop_first(),
        )
    }
}

pub open spec fn written_runs(runs: Seq<Run>) -> Seq<u8> {
    joined(Seq::new(runs.len(), |i: int| written_run(runs[i])))
}

pub open spec fn written_index_runs(runs: Seq<IndexRun>) -> Seq<u8> {
    joined(Seq::new(runs.len(), |i: int| written_index_run(runs[i])))
}

#[verifier::spinoff_prover]
#[verifier::rlimit(40)]
proof fn lemma_runs_written(
    layout: PixelLayout,
    runs: Seq<Run>,
    wanted: nat,
    count: nat,
    rest: Seq<u8>,
)
    requires
        fits(layout),
        forall|i: int|
            0 <= i < runs.len() ==> (#[trigger] runs[i]).color.len() == layout.compressed_bpp,
        reach(run_lengths(runs), count, wanted),
    ensures
        true_color_runs(layout, wanted, count, written_runs(runs) + rest) == Parse::Done(
            joined(runs_pixels(layout, runs)),
            rest,
        ),
    decreases runs.len(),
{
    let input = written_runs(runs) + rest;
    if runs.len() == 0 {
        assert(input =~= rest);
    } else {
        let run = runs[0];
        let others = runs.drop_first();
        assert(run_lengths(runs)[0] == run.length);
        assert(run_lengths(runs).drop_first() =~= run_lengths(others));
        lemma_reach_on(run_lengths(runs), count, wanted);
        lemma_runs_written(layout, others, wanted, count + run.length, rest);
        let parts = Seq::new(runs.len(), |i: int| written_run(runs[i]));
        lemma_joined_first(parts);
        assert(parts.drop_first() =~= Seq::new(others.len(), |i: int| written_run(others[i])));
        let behind = written_runs(others) + rest;
        assert(input =~= run.color + (written_length(run.length) + behind));
        law_pixel_written(layout, run.color, written_length(run.length) + behind);
        law_length_written(run.length, behind);
        let pixel = shown(layout, run.color);
        lemma_repeated(pixel, run.length);
        lemma_joined_add(times(pixel, run.length), runs_pixels(layout, others));
    }
}

#[verifier::spinoff_prover]
#[verifier::rlimit(40)]
proof fn lemma_index_runs_written(
    colors: Seq<Seq<u8>>,
    bpp: nat,
    runs: Seq<IndexRun>,
    wanted: nat,
    count: nat,
    rest: Seq<u8>,
)
    requires
        colors.len() <= 127,
        forall|i: int| 0 <= i < colors.len() ==> (#[trigger] colors[i]).len() == bpp,
        forall|i: int| 0 <= i < runs.len() ==> index_run_fits(#[trigger] runs[i], colors.len()),
        reach(index_run_lengths(runs), count, wanted),
    ensures
        indexed_runs(
            joined(colors),
            bpp,
            wanted,
            count,
            written_index_runs(runs) + rest,
        ) == Parse::Done(joined(index_runs_pixels(colors, runs)), rest),
    decreases runs.len(),
{
    let input = written_index_runs(runs) + rest;
    if runs.len() == 0 {
        assert(input =~= rest);
    } else {
        let run = runs[0];
        let others = runs.drop_first();
        assert(index_run_fits(runs[0], colors.len()));
        assert(index_run_lengths(runs)[0] == run.length);
        assert(index_run_lengths(runs).drop_first() =~= index_run_lengths(others));
        lemma_reach_on(index_run_lengths(runs), count, wanted);
        assert forall|i: int| 0 <= i < others.len() implies index_run_fits(
            #[trigger] others[i],
            colors.len(),
        ) by {
            assert(others[i] == runs[i + 1]);
        }
        lemma_index_runs_written(colors, bpp, others, wanted, count + run.length, rest);
        let parts = Seq::new(runs.len(), |i: int| written_index_run(runs[i]));
        lemma_joined_first(parts);
        assert(parts.drop_first() =~= Seq::new(
            others.len(),
            |i: int| written_index_run(others[i]),
        ));
        let behind = written_index_runs(others) + rest;
        assert(input =~= written_index_run(run) + behind);
        if run.with_length {
            assert(input.skip(1) =~= written_length(run.length) + behind);
            law_length_written(run.length, behind);
        } else {
            assert(input.skip(1) =~= behind);
        }
        assert(indexed_run(input) == Parse::Done((run.index, (run.length - 1) as nat), behind));
        law_color_of_palette(colors, bpp, run.index);
        let pixel = colors[run.index as int];
        lemma_repeated(pixel, run.length);
        lemma_joined_add(times(pixel, run.length), index_runs_pixels(colors, others));
    }
}

/// Whether a run of indices can be written where there are so many colors.
pub open spec fn index_run_fits(run: IndexRun, colors: nat) -> bool {
    &&& run.index < colors
    &&& run.with_length || run.length == 1
}

/// A tile in one of the ways in which it can be written. Colors are given as they are sent.
pub enum WrittenTile {
    /// A color for each pixel.
    TrueColor(Seq<Seq<u8>>),
    /// One color for all pixels.
    Fill(Seq<u8>),
    /// A palette, and an index for each pixel, row by row.
    Packed(Seq<Seq<u8>>, Seq<Seq<nat>>),
    /// Runs of colors.
    Runs(Seq<Run>),
    /// A palette, and runs of indices.
    PaletteRuns(Seq<Seq<u8>>, Seq<IndexRun>),
}

impl WrittenTile {
    /// Whether this is a tile of so many pixels.
    pub open spec fn valid(self, layout: PixelLayout, width: nat, height: nat) -> bool {
        match self {
            WrittenTile::TrueColor(colors) => {
                &&& colors.len() == height * width
                &&& are_sent(layout, colors)
            },
            WrittenTile::Fill(color) => color.len() == layout.compressed_bpp,
            WrittenTile::Packed(palette, rows) => {
                &&& 2 <= palette.len() <= 16
                &&& are_sent(layout, palette)
                &&& rows.len() == height
                &&& forall|i: int|
                    0 <= i < rows.len() ==> row_fits(
                        #[trigger] rows[i],
                        width,
                        palette.len(),
                        index_bits(palette.len()),
                    )
            },
            WrittenTile::Runs(runs) => {
                &&& forall|i: int|
                    0 <= i < runs.len() ==> (#[trigger] runs[i]).color.len()
                        == layout.compressed_bpp
                &&& reach(run_lengths(runs), 0, height * width)
            },
            WrittenTile::PaletteRuns(palette, runs) => {
                &&& 2 <= palette.len() <= 127
                &&& are_sent(layout, palette)
                &&& forall|i: int|
                    0 <= i < runs.len() ==> index_run_fits(#[trigger] runs[i], palette.len())
                &&& reach(index_run_lengths(runs), 0, height * width)
            },
        }
    }

    /// The tile as it is written.
    pub open spec fn bytes(self) -> Seq<u8> {
        match self {
            WrittenTile::TrueColor(colors) => seq![0u8] + joined(colors),
            WrittenTile::Fill(color) => seq![1u8] + color,
            WrittenTile::Packed(palette, rows) => seq![palette.len() as u8] + joined(palette)
                + written_rows(rows, index_bits(palette.len())),
            WrittenTile::Runs(runs) => seq![128u8] + written_runs(runs),
            WrittenTile::PaletteRuns(palette, runs) => seq![(128 + palette.len()) as u8] + joined(
                palette,
            ) + written_index_runs(runs),
        }
    }

    /// The pixels that the tile is to be shown as, row by row.
    pub open spec fn pixels(self, layout: PixelLayout, width: nat, height: nat) -> Seq<Seq<u8>> {
        match self {
            WrittenTile::TrueColor(colors) => all_shown(layout, colors),
            WrittenTile::Fill(color) => times(shown(layout, color), height * width),
            WrittenTile::Packed(palette, rows) => rows_pixels(
                all_shown(layout, palette),
                rows,
                width,
            ),
            WrittenTile::Runs(runs) => runs_pixels(layout, runs),
            WrittenTile::PaletteRuns(palette, runs) => index_runs_pixels(
                all_shown(layout, palette),
                runs,
            ),
        }
    }
}

proof fn lemma_all_shown_len(layout: PixelLayout, colors: Seq<Seq<u8>>)
    requires
        fits(layout),
        are_sent(layout, colors),
    ensures
        forall|i: int|
            0 <= i < all_shown(layout, colors).len() ==> (#[trigger] all_shown(
                layout,
                colors,
            )[i]).len() == layout.bpp,
{
    assert forall|i: int| 0 <= i < all_shown(layout, colors).len() implies (#[trigger] all_shown(
        layout,
        colors,
    )[i]).len() == layout.bpp by {
        assert(colors[i].len() == layout.compressed_bpp);
    }
}

proof fn lemma_fill_written(layout: PixelLayout, color: Seq<u8>, rest: Seq<u8>)
    requires
        fits(layout),
        color.len() == layout.compressed_bpp,
    ensures
        true_colors(layout, 1, color + rest) == Parse::Done(shown(layout, color), rest),
{
    reveal_with_fuel(true_colors, 2);
    law_pixel_written(layout, color, rest);
    assert(Seq::<u8>::empty() + shown(layout, color) =~= shown(layout, color));
}

proof fn lemma_tile_with_palette(
    layout: PixelLayout,
    width: nat,
    height: nat,
    palette: Seq<Seq<u8>>,
    is_rle: bool,
    body: Seq<u8>,
)
    requires
        fits(layout),
        are_sent(layout, palette),
        palette.len() <= 127,
    ensures
        ({
            let control = (palette.len() + (if is_rle {
                128int
            } else {
                0
            })) as u8;
            tile_pixels(layout, width, height, seq![control] + joined(palette) + body) == tile_body(
                layout,
                width,
                height,
                is_rle,
                palette.len(),
                joined(all_shown(layout, palette)),
                body,
            )
        }),
{
    let control = (palette.len() + (if is_rle {
        128int
    } else {
        0
    })) as u8;
    let input = seq![control] + joined(palette) + body;
    assert(input[0] == control);
    assert(input.skip(1) =~= joined(palette) + body);
    lemma_colors_written(layout, palette, body);
}

/// Whether decoding a tile gives back what was written, and leaves what follows.
spec fn tile_undone(
    tile: WrittenTile,
    layout: PixelLayout,
    width: nat,
    height: nat,
    rest: Seq<u8>,
) -> bool {
    tile_pixels(layout, width, height, tile.bytes() + rest) == Parse::Done(
        joined(tile.pixels(layout, width, height)),
        rest,
    )
}

proof fn lemma_true_color_tile(
    layout: PixelLayout,
    width: nat,
    height: nat,
    colors: Seq<Seq<u8>>,
    rest: Seq<u8>,
)
    requires
        fits(layout),
        WrittenTile::TrueColor(colors).valid(layout, width, height),
    ensures
        tile_undone(WrittenTile::TrueColor(colors), layout, width, height, rest),
{
    let tile = WrittenTile::TrueColor(colors);
    let none = Seq::<Seq<u8>>::empty();
    lemma_tile_with_palette(layout, width, height, none, false, joined(colors) + rest);
    assert(tile.bytes() + rest =~= seq![0u8] + joined(none) + (joined(colors) + rest));
    lemma_colors_written(layout, colors, rest);
}

proof fn lemma_fill_tile(
    layout: PixelLayout,
    width: nat,
    height: nat,
    color: Seq<u8>,
    rest: Seq<u8>,
)
    requires
        fits(layout),
        WrittenTile::Fill(color).valid(layout, width, height),
    ensures
        tile_undone(WrittenTile::Fill(color), layout, width, height, rest),
{
    let tile = WrittenTile::Fill(color);
    let input = tile.bytes() + rest;
    assert(input[0] == 1);
    assert(input.skip(1) =~= color + rest);
    lemma_fill_written(layout, color, rest);
    lemma_repeated(shown(layout, color), height * width);
}

proof fn lemma_packed_tile(
    layout: PixelLayout,
    width: nat,
    height: nat,
    palette: Seq<Seq<u8>>,
    rows: Seq<Seq<nat>>,
    rest: Seq<u8>,
)
    requires
        fits(layout),
        WrittenTile::Packed(palette, rows).valid(layout, width, height),
    ensures
        tile_undone(WrittenTile::Packed(palette, rows), layout, width, height, rest),
{
    let tile = WrittenTile::Packed(palette, rows);
    let bits = index_bits(palette.len());
    let body = written_rows(rows, bits) + rest;
    lemma_tile_with_palette(layout, width, height, palette, false, body);
    assert(tile.bytes() + rest =~= seq![palette.len() as u8] + joined(palette) + body);
    lemma_all_shown_len(layout, palette);
    lemma_rows_written(all_shown(layout, palette), layout.bpp as nat, bits, rows, width, rest);
}

proof fn lemma_runs_tile(
    layout: PixelLayout,
    width: nat,
    height: nat,
    runs: Seq<Run>,
    rest: Seq<u8>,
)
    requires
        fits(layout),
        WrittenTile::Runs(runs).valid(layout, width, height),
    ensures
        tile_undone(WrittenTile::Runs(runs), layout, width, height, rest),
{
    let tile = WrittenTile::Runs(runs);
    let none = Seq::<Seq<u8>>::empty();
    let body = written_runs(runs) + rest;
    lemma_tile_with_palette(layout, width, height, none, true, body);
    assert(tile.bytes() + rest =~= seq![128u8] + joined(none) + body);
    lemma_runs_written(layout, runs, height * width, 0, rest);
}

proof fn lemma_palette_runs_tile(
    layout: PixelLayout,
    width: nat,
    height: nat,
    palette: Seq<Seq<u8>>,
    runs: Seq<IndexRun>,
    rest: Seq<u8>,
)
    requires
        fits(layout),
        WrittenTile::PaletteRuns(palette, runs).valid(layout, width, height),
    ensures
        tile_undone(WrittenTile::PaletteRuns(palette, runs), layout, width, height, rest),
{
    let tile = WrittenTile::PaletteRuns(palette, runs);
    let body = written_index_runs(runs) + rest;
    lemma_tile_with_palette(layout, width, height, palette, true, body);
    assert(tile.bytes() + rest =~= seq![(128 + palette.len()) as u8] + joined(palette) + body);
    lemma_all_shown_len(layout, palette);
    lemma_index_runs_written(
        all_shown(layout, palette),
        layout.bpp as nat,
        runs,
        height * width,
        0,
        rest,
    );
}

/// Decoding a tile gives back the pixels that were written, in whichever way they were, and
/// uses no more than the tile: what follows it is left.
pub proof fn law_tile_written(
    tile: WrittenTile,
    layout: PixelLayout,
    width: nat,
    height: nat,
    rest: Seq<u8>,
)
    requires
        fits(layout),
        tile.valid(layout, width, height),
    ensures
        tile_pixels(layout, width, height, tile.bytes() + rest) == Parse::Done(
            joined(tile.pixels(layout, width, height)),
            rest,
        ),
{
    assert(tile_undone(tile, layout, width, height, rest)) by {
        match tile {
            WrittenTile::TrueColor(colors) => {
                lemma_true_color_tile(layout, width, height, colors, rest);
            },
            WrittenTile::Fill(color) => {
                lemma_fill_tile(layout, width, height, color, rest);
            },
            WrittenTile::Packed(palette, rows) => {
                lemma_packed_tile(layout, width, height, palette, rows, rest);
            },
            WrittenTile::Runs(runs) => {
                lemma_runs_tile(layout, width, height, runs, rest);
            },
            WrittenTile::PaletteRuns(palette, runs) => {
                lemma_palette_runs_tile(layout, width, height, palette, runs, rest);
            },
        }
    }
}

/// How many tiles stand side by side in a rectangle.
pub open spec fn columns(rect: Rect) -> int {
    (rect.width + 15) / 16
}

/// How many rows of tiles a rectangle has.
pub open spec fn rows(rect: Rect) -> int {
    (rect.height + 15) / 16
}

pub open spec fn smaller(a: int, b: int) -> int {
    if a < b {
        a
    } else {
        b
    }
}

/// Where the tile with this number is on the screen: row by row from the top, and from the
/// left in each row, sixteen pixels wide and high unless the rectangle ends before.
pub open spec fn tile_place(rect: Rect, k: int) -> Rect {
    let x = 16 * (k % columns(rect));
    let y = 16 * (k / columns(rect));
    Rect {
        x: (rect.x + x) as u16,
        y: (rect.y + y) as u16,
        width: smaller(16, rect.width - x) as u16,
        height: smaller(16, rect.height - y) as u16,
    }
}

/// Whether the places of all tiles of a rectangle can be told.
pub open spec fn places_in_range(rect: Rect) -> bool {
    rect.x + 16 * (columns(rect) - 1) <= 0xffff && rect.y + 16 * (rows(rect) - 1) <= 0xffff
}

/// Whether these are the first tiles of a rectangle, and can be written.
pub open spec fn tiles_fit(tiles: Seq<WrittenTile>, layout: PixelLayout, rect: Rect) -> bool {
    &&& tiles.len() <= rows(rect) * columns(rect)
    &&& forall|k: int|
        0 <= k < tiles.len() ==> (#[trigger] tiles[k]).valid(
            layout,
            tile_place(rect, k).width as nat,
            tile_place(rect, k).height as nat,
        )
}

/// Tiles as they are written.
pub open spec fn written_tiles(tiles: Seq<WrittenTile>) -> Seq<u8> {
    joined(Seq::new(tiles.len(), |k: int| tiles[k].bytes()))
}

/// The image that the tile with this number is to give.
pub open spec fn tile_image(
    tile: WrittenTile,
    layout: PixelLayout,
    rect: Rect,
    k: int,
) -> ImageEventView {
    let place = tile_place(rect, k);
    ImageEventView::RawImage(
        place,
        joined(tile.pixels(layout, place.width as nat, place.height as nat)),
    )
}

/// The images that tiles are to give.
pub open spec fn tile_images(tiles: Seq<WrittenTile>, layout: PixelLayout, rect: Rect) -> Seq<
    ImageEventView,
> {
    Seq::new(tiles.len(), |k: int| tile_image(tiles[k], layout, rect, k))
}

proof fn lemma_place(rect: Rect, k: int)
    requires
        0 <= k < rows(rect) * columns(rect),
    ensures
        k < tile_count(rect),
        nth_tile(rect, k).width == tile_place(rect, k).width,
        nth_tile(rect, k).height == tile_place(rect, k).height,
        places_in_range(rect) ==> on_screen(rect, nth_tile(rect, k)) && placed(
            rect,
            nth_tile(rect, k),
        ) == tile_place(rect, k),
        0 < tile_place(rect, k).width <= 16,
        0 < tile_place(rect, k).height <= 16,
        0 <= k % columns(rect) < columns(rect),
        0 <= k / columns(rect) < rows(rect),
{
    let c = columns(rect);
    let r = rows(rect);
    assert(c > 0) by (nonlinear_arith)
        requires
            0 <= k < r * c,
            0 <= r,
            0 <= c,
    ;
    vstd::arithmetic::div_mod::lemma_fundamental_div_mod(k, c);
    vstd::arithmetic::div_mod::lemma_mod_bound(k, c);
    vstd::arithmetic::div_mod::lemma_div_pos_is_pos(k, c);
    assert(k / c < r) by (nonlinear_arith)
        requires
            0 <= k < r * c,
            c > 0,
            k == c * (k / c) + k % c,
            0 <= k % c,
    ;
}

#[verifier::spinoff_prover]
#[verifier::rlimit(40)]
proof fn lemma_tiles_written(
    tiles: Seq<WrittenTile>,
    layout: PixelLayout,
    rect: Rect,
    more: Seq<u8>,
)
    requires
        fits(layout),
        places_in_range(rect),
        tiles_fit(tiles, layout, rect),
    ensures
        ({
            let whole = tiles_from(layout, rect, 0, written_tiles(tiles) + more);
            let others = tiles_from(layout, rect, tiles.len(), more);
            whole == (Decoded { frames: tile_images(tiles, layout, rect) + others.frames, ..others })
        }),
    decreases tiles.len(),
{
    if tiles.len() == 0 {
        assert(written_tiles(tiles) + more =~= more);
        let whole = tiles_from(layout, rect, 0, more);
        assert(tile_images(tiles, layout, rect) + whole.frames =~= whole.frames);
    } else {
        let before = tiles.drop_last();
        let k = before.len() as int;
        let last = tiles.last();
        assert(tiles[k].valid(
            layout,
            tile_place(rect, k).width as nat,
            tile_place(rect, k).height as nat,
        ));
        assert forall|j: int| 0 <= j < before.len() implies (#[trigger] before[j]).valid(
            layout,
            tile_place(rect, j).width as nat,
            tile_place(rect, j).height as nat,
        ) by {
            assert(before[j] == tiles[j]);
        }
        lemma_tiles_written(before, layout, rect, last.bytes() + more);
        let parts = Seq::new(tiles.len(), |j: int| tiles[j].bytes());
        assert(parts.drop_last() =~= Seq::new(before.len(), |j: int| before[j].bytes()));
        assert(written_tiles(tiles) + more =~= written_tiles(before) + (last.bytes() + more));
        lemma_place(rect, k);
        let place = tile_place(rect, k);
        law_tile_written(last, layout, place.width as nat, place.height as nat, more);
        let others = tiles_from(layout, rect, tiles.len(), more);
        let image = tile_image(last, layout, rect, k);
        assert(tile_images(tiles, layout, rect) =~= tile_images(before, layout, rect).push(image));
        assert(tile_images(before, layout, rect) + (seq![image] + others.frames) =~= tile_images(
            tiles,
            layout,
            rect,
        ) + others.frames);
    }
}

/// A rectangle as it is written: a block of data with its length before it, and tiles.
pub open spec fn written_rectangle(block: Seq<u8>, tiles: Seq<WrittenTile>) -> Seq<u8> {
    written_u32(block.len() as u32) + block + written_tiles(tiles)
}

/// Whether pixels of a format can be decoded.
pub open spec fn format_fits(format: PixelFormat) -> bool {
    &&& format.bits_per_pixel < 40
    &&& format.red_shift < 32
    &&& format.green_shift < 32
    &&& format.blue_shift < 32
}

#[verifier::spinoff_prover]
#[verifier::rlimit(40)]
proof fn lemma_rectangle_written(
    format: PixelFormat,
    rect: Rect,
    block: Seq<u8>,
    tiles: Seq<WrittenTile>,
    more: Seq<u8>,
)
    requires
        format_fits(format),
        places_in_range(rect),
        block.len() <= 0xffff_ffff,
        tiles_fit(tiles, pixel_layout(format), rect),
    ensures
        ({
            let layout = pixel_layout(format);
            let input = written_rectangle(block, tiles) + more;
            let whole = decoded(format, rect, input);
            let others = tiles_from(layout, rect, tiles.len(), more);
            &&& whole.end == others.end
            &&& whole.frames == tile_images(tiles, layout, rect) + others.frames
            &&& whole.end != Err::<(), Stop>(Stop::Fault) ==> whole.rest == others.rest
        }),
{
    let layout = pixel_layout(format);
    let input = written_rectangle(block, tiles) + more;
    let behind = written_tiles(tiles) + more;
    law_u32_written(block.len() as u32, block + behind);
    assert(input =~= written_u32(block.len() as u32) + (block + behind));
    assert(input.skip(4 + be_u32(input)) =~= behind);
    lemma_tiles_written(tiles, layout, rect, more);
}

/// Decoding a rectangle gives back what was written: an image for each tile with the pixels of
/// that tile, in the order of the tiles and at their places. The block before the tiles is
/// passed over, and what follows them is left.
pub proof fn law_rectangle_written(
    format: PixelFormat,
    rect: Rect,
    block: Seq<u8>,
    tiles: Seq<WrittenTile>,
    rest: Seq<u8>,
)
    requires
        format_fits(format),
        places_in_range(rect),
        block.len() <= 0xffff_ffff,
        tiles_fit(tiles, pixel_layout(format), rect),
        tiles.len() == rows(rect) * columns(rect),
    ensures
        decoded(format, rect, written_rectangle(block, tiles) + rest) == (Decoded {
            frames: tile_images(tiles, pixel_layout(format), rect),
            end: Ok(()),
            rest,
        }),
{
    lemma_rectangle_written(format, rect, block, tiles, rest);
    let images = tile_images(tiles, pixel_layout(format), rect);
    assert(tiles.len() == tile_count(rect));
    assert(images + Seq::<ImageEventView>::empty() =~= images);
}

/// A tile stops where it says that it has a palette of a size that there is not: behind that
/// palette, and behind the images of the tiles before it.
#[verifier::spinoff_prover]
#[verifier::rlimit(40)]
pub proof fn law_palette_size_invalid(
    format: PixelFormat,
    rect: Rect,
    block: Seq<u8>,
    tiles: Seq<WrittenTile>,
    palette: Seq<Seq<u8>>,
    is_rle: bool,
    rest: Seq<u8>,
)
    requires
        format_fits(format),
        places_in_range(rect),
        block.len() <= 0xffff_ffff,
        tiles_fit(tiles, pixel_layout(format), rect),
        tiles.len() < rows(rect) * columns(rect),
        are_sent(pixel_layout(format), palette),
        is_rle && palette.len() == 1 || !is_rle && 17 <= palette.len() <= 127,
    ensures
        ({
            let control = (palette.len() + (if is_rle {
                128int
            } else {
                0
            })) as u8;
            decoded(
                format,
                rect,
                written_rectangle(block, tiles) + (seq![control] + joined(palette) + rest),
            ) == (Decoded {
                frames: tile_images(tiles, pixel_layout(format), rect),
                end: Err(Stop::Invalid),
                rest,
            })
        }),
{
    let layout = pixel_layout(format);
    let control = (palette.len() + (if is_rle {
        128int
    } else {
        0
    })) as u8;
    let more = seq![control] + joined(palette) + rest;
    lemma_rectangle_written(format, rect, block, tiles, more);
    let k = tiles.len() as int;
    lemma_place(rect, k);
    let place = tile_place(rect, k);
    lemma_tile_with_palette(
        layout,
        place.width as nat,
        place.height as nat,
        palette,
        is_rle,
        rest,
    );
    assert(more[0] == control);
    assert(more.skip(1) =~= joined(palette) + rest);
    lemma_colors_written(layout, palette, rest);
    let images = tile_images(tiles, layout, rect);
    assert(images + Seq::<ImageEventView>::empty() =~= images);
}

/// A rectangle that is cut off gives the images of the tiles that are complete, and uses up
/// all of the input.
#[verifier::spinoff_prover]
#[verifier::rlimit(40)]
pub proof fn law_rectangle_cut_off(
    format: PixelFormat,
    rect: Rect,
    block: Seq<u8>,
    tiles: Seq<WrittenTile>,
    next: WrittenTile,
    cut: int,
)
    requires
        format_fits(format),
        places_in_range(rect),
        block.len() <= 0xffff_ffff,
        tiles_fit(tiles.push(next), pixel_layout(format), rect),
        0 <= cut < next.bytes().len(),
    ensures
        decoded(
            format,
            rect,
            written_rectangle(block, tiles) + next.bytes().take(cut),
        ) == (Decoded {
            frames: tile_images(tiles, pixel_layout(format), rect),
            end: Err(Stop::Short),
            rest: Seq::empty(),
        }),
{
    let layout = pixel_layout(format);
    let part = next.bytes().take(cut);
    let k = tiles.len() as int;
    let place = tile_place(rect, k);
    let all = tiles.push(next);
    assert(all[k].valid(layout, place.width as nat, place.height as nat));
    assert forall|j: int| 0 <= j < tiles.len() implies (#[trigger] tiles[j]).valid(
        layout,
        tile_place(rect, j).width as nat,
        tile_place(rect, j).height as nat,
    ) by {
        assert(all[j] == tiles[j]);
    }
    lemma_rectangle_written(format, rect, block, tiles, part);
    lemma_place(rect, k);
    let tail = next.bytes().skip(cut);
    let nothing = Seq::<u8>::empty();
    assert(part + tail =~= next.bytes() + nothing);
    law_tile_written(next, layout, place.width as nat, place.height as nat, nothing);
    lemma_tile_more(layout, place.width as nat, place.height as nat, part, tail);
    match tile_pixels(layout, place.width as nat, place.height as nat, part) {
        Parse::Done(_, left) => {
            assert((left + tail).len() == 0);
        },
        _ => {},
    }
    let images = tile_images(tiles, layout, rect);
    assert(images + Seq::<ImageEventView>::empty() =~= images);
}

/// A rectangle that ends before its tiles begin gives no images, and uses up all of the
/// input.
pub proof fn law_block_cut_off(format: PixelFormat, rect: Rect, block: Seq<u8>, cut: int)
    requires
        block.len() <= 0xffff_ffff,
        0 <= cut < 4 + block.len(),
    ensures
        decoded(format, rect, (written_u32(block.len() as u32) + block).take(cut)) == (Decoded {
            frames: Seq::empty(),
            end: Err(Stop::Short),
            rest: Seq::empty(),
        }),
{
    let whole = written_u32(block.len() as u32) + block;
    law_u32_written(block.len() as u32, block);
    if cut >= 4 {
        assert(be_u32(whole.take(cut)) == be_u32(whole));
    }
}

} // verus!
