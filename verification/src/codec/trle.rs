//! Tiled run-length encoding.
use crate::codec::trle_format::{
    behind_palette, color, decoded, expanded, indexed_run, indexed_runs, nth_tile, packed_index,
    packed_row, packed_rows, padding, pixel_layout, placed, repeated, run_extra, shifts_in_range,
    tile_at, tile_body, tile_count, tile_pixels, tiles_along, tiles_from, true_color,
    true_color_runs, true_colors, PixelLayout, TILE_SIZE,
};
use crate::config::PixelFormat;
use crate::error::VncError;
use crate::event::{image_views, ImageData, ImageEventView, Rect, VncImageEvent};
use crate::input::{be_u32, ByteReader, Parse, Stop};
use vstd::prelude::*;

verus! {

/// `parse` with `before` put in front of its pixels.
spec fn behind(before: Seq<u8>, parse: Parse<Seq<u8>>) -> Parse<Seq<u8>> {
    match parse {
        Parse::Done(pixels, rest) => Parse::Done(before + pixels, rest),
        Parse::Stopped(stop) => Parse::Stopped(stop),
    }
}

/// Whether reading pixels from `before` came to what `parse` says: they were put
/// behind those that were there, and the input stands behind them. If the input was too
/// short, all of it is used up.
spec fn appended(
    result: Result<(), Stop>,
    pixels_before: Seq<u8>,
    pixels: Seq<u8>,
    before: &ByteReader,
    input: &ByteReader,
    parse: Parse<Seq<u8>>,
) -> bool {
    &&& input.same_buffer(before)
    &&& match parse {
        Parse::Done(read, rest) => {
            &&& result == Ok::<(), Stop>(())
            &&& pixels == pixels_before + read
            &&& input.remaining() == rest
        },
        Parse::Stopped(stop) => {
            &&& result == Err::<(), Stop>(stop)
            &&& stop != Stop::Invalid
            &&& stop == Stop::Short ==> input.remaining() == Seq::<u8>::empty()
        },
    }
}

/// Reads by how much a run is longer than one pixel, and adds one.
fn read_run_length(input: &mut ByteReader) -> (length: Result<u128, Stop>)
    ensures
        final(input).same_buffer(old(input)),
        match run_extra(old(input).remaining()) {
            Parse::Done(extra, rest) => length is Ok && length->Ok_0 == 1 + extra
                && final(input).remaining() == rest && 1 + extra <= 1 + 255 * usize::MAX,
            Parse::Stopped(stop) => {
                &&& length == Err::<u128, Stop>(stop)
                &&& stop == Stop::Short
                &&& final(input).remaining() == Seq::<u8>::empty()
            },
        },
{
    let mut run_length: u128 = 1;
    let ghost start = input.remaining();
    let total: usize = input.left();
    loop
        invariant
            input.same_buffer(old(input)),
            start == old(input).remaining(),
            total == start.len(),
            1 <= run_length <= 1 + 255 * (total - input.remaining().len()),
            input.remaining().len() <= total,
            match run_extra(input.remaining()) {
                Parse::Done(extra, rest) => run_extra(start) == Parse::Done(
                    (run_length - 1 + extra) as nat,
                    rest,
                ),
                Parse::Stopped(stop) => run_extra(start) == Parse::<nat>::Stopped(stop),
            },
        decreases input.remaining().len(),
    {
        match input.read_u8() {
            Ok(part) => {
                run_length = run_length + part as u128;
                if part != 255 {
                    return Ok(run_length);
                }
            },
            Err(stop) => {
                return Err(stop);
            },
        }
    }
}

/// Reads one pixel. If it is not there, the pixels stay as they were.
fn copy_true_color(layout: &PixelLayout, pixels: &mut Vec<u8>, input: &mut ByteReader) -> (result:
    Result<(), Stop>)
    ensures
        appended(
            result,
            old(pixels)@,
            final(pixels)@,
            old(input),
            final(input),
            true_color(*layout, old(input).remaining()),
        ),
        result is Err ==> final(pixels)@ == old(pixels)@,
{
    let pad: usize = if layout.alpha_at_first {
        1
    } else {
        0
    };
    if layout.compressed_bpp > 4 - pad {
        return Err(Stop::Fault);
    }
    match input.read_exact(layout.compressed_bpp) {
        Ok(sent) => {
            if layout.bpp > 4 {
                return Err(Stop::Fault);
            }
            let mut filled: usize = 0;
            assert(pixels@ =~= old(pixels)@ + expanded(*layout, sent@).take(0));
            while filled < layout.bpp
                invariant
                    pad == padding(*layout),
                    pad + sent@.len() <= 4,
                    filled <= layout.bpp,
                    pixels@ == old(pixels)@ + expanded(*layout, sent@).take(filled as int),
                decreases layout.bpp - filled,
            {
                if pad <= filled && filled < pad + sent.len() {
                    pixels.push(sent[filled - pad]);
                } else {
                    pixels.push(255);
                }
                filled = filled + 1;
                assert(pixels@ =~= old(pixels)@ + expanded(*layout, sent@).take(filled as int));
            }
            assert(pixels@ =~= old(pixels)@ + expanded(*layout, sent@));
            Ok(())
        },
        Err(stop) => Err(stop),
    }
}

/// Reads so many pixels.
fn copy_true_colors(
    layout: &PixelLayout,
    count: usize,
    pixels: &mut Vec<u8>,
    input: &mut ByteReader,
) -> (result: Result<(), Stop>)
    ensures
        appended(
            result,
            old(pixels)@,
            final(pixels)@,
            old(input),
            final(input),
            true_colors(*layout, count as nat, old(input).remaining()),
        ),
{
    let ghost start = input.remaining();
    let mut done: usize = 0;
    assert(pixels@ =~= old(pixels)@ + Seq::<u8>::empty());
    while done < count
        invariant
            done <= count,
            start == old(input).remaining(),
            appended(
                Ok(()),
                old(pixels)@,
                pixels@,
                old(input),
                input,
                true_colors(*layout, done as nat, start),
            ),
        decreases count - done,
    {
        let result = copy_true_color(layout, pixels, input);
        if result.is_err() {
            proof {
                lemma_true_colors_stop(*layout, (done + 1) as nat, count as nat, start);
            }
            return result;
        }
        done = done + 1;
        assert(pixels@ =~= old(pixels)@ + true_colors(*layout, done as nat, start)->Done_0);
    }
    Ok(())
}

/// More pixels do not get past where fewer stopped.
proof fn lemma_true_colors_stop(layout: PixelLayout, count: nat, more: nat, input: Seq<u8>)
    requires
        count <= more,
        true_colors(layout, count, input) is Stopped,
    ensures
        true_colors(layout, more, input) == true_colors(layout, count, input),
    decreases more,
{
    if count < more {
        lemma_true_colors_stop(layout, count, (more - 1) as nat, input);
    }
}

/// Takes a pixel from a palette.
pub fn copy_indexed(palette: &[u8], pixels: &mut Vec<u8>, bpp: usize, index: u8)
    requires
        color(palette@, bpp as nat, index as nat) is Some,
    ensures
        final(pixels)@ == old(pixels)@ + color(palette@, bpp as nat, index as nat)->Some_0,
{
    assert(palette.len() == palette@.len());
    assert(0 <= index * bpp) by (nonlinear_arith);
    let start: usize = index as usize * bpp;
    pixels.extend_from_slice(&palette[start..start + bpp]);
    assert(pixels@ =~= old(pixels)@ + color(palette@, bpp as nat, index as nat)->Some_0);
}

/// Takes a pixel from a palette, if the palette has it.
fn copy_if_indexed(palette: &[u8], pixels: &mut Vec<u8>, bpp: usize, index: u8) -> (result: Result<
    (),
    Stop,
>)
    requires
        bpp <= 4,
    ensures
        match color(palette@, bpp as nat, index as nat) {
            Some(pixel) => result == Ok::<(), Stop>(()) && final(pixels)@ == old(pixels)@ + pixel,
            None => result == Err::<(), Stop>(Stop::Fault),
        },
{
    assert(index * bpp <= 255 * 4) by (nonlinear_arith)
        requires
            bpp <= 4,
            index <= 255,
    ;
    if index as usize * bpp + bpp <= palette.len() {
        copy_indexed(palette, pixels, bpp, index);
        Ok(())
    } else {
        Err(Stop::Fault)
    }
}

/// Puts the same pixel behind others so many times.
fn repeat(pixel: &[u8], count: u128, pixels: &mut Vec<u8>)
    ensures
        final(pixels)@ == old(pixels)@ + repeated(pixel@, count as nat),
{
    let mut done: u128 = 0;
    assert(pixels@ =~= old(pixels)@ + repeated(pixel@, 0));
    while done < count
        invariant
            done <= count,
            pixels@ == old(pixels)@ + repeated(pixel@, done as nat),
        decreases count - done,
    {
        let ghost so_far = pixels@;
        pixels.extend_from_slice(pixel);
        done = done + 1;
        assert(pixels@ =~= so_far + pixel@);
        assert(pixels@ =~= old(pixels)@ + repeated(pixel@, done as nat));
    }
}

/// Whether indices can have so many bits.
spec fn index_width(bits: u8) -> bool {
    bits == 1 || bits == 2 || bits == 4
}

/// Reads one row of indices.
fn copy_packed_row(
    palette: &[u8],
    bpp: usize,
    bits: u8,
    width: usize,
    pixels: &mut Vec<u8>,
    input: &mut ByteReader,
) -> (result: Result<(), Stop>)
    requires
        bpp <= 4,
        index_width(bits),
    ensures
        appended(
            result,
            old(pixels)@,
            final(pixels)@,
            old(input),
            final(input),
            packed_row(palette@, bpp as nat, bits as nat, width as nat, old(input).remaining()),
        ),
{
    let ghost start = input.remaining();
    let ghost per_byte: int = 8int / bits as int;
    let mask: u8 = if bits == 1 {
        1
    } else if bits == 2 {
        3
    } else {
        15
    };
    assert(((1u8 << bits) - 1) as u8 == mask) by (bit_vector)
        requires
            bits == 1 && mask == 1 || bits == 2 && mask == 3 || bits == 4 && mask == 15,
    ;
    let mut column: usize = 0;
    let mut encoded: u8 = 0;
    // How many bits of `encoded` have not been used.
    let mut unused: u8 = 0;
    assert(pixels@ =~= old(pixels)@ + Seq::<u8>::empty());
    while column < width
        invariant
            bpp <= 4,
            index_width(bits),
            per_byte == 8int / bits as int,
            ((1u8 << bits) - 1) as u8 == mask,
            column <= width,
            start == old(input).remaining(),
            appended(
                Ok(()),
                old(pixels)@,
                pixels@,
                old(input),
                input,
                packed_row(palette@, bpp as nat, bits as nat, column as nat, start),
            ),
            column == 0 ==> unused == 0,
            column > 0 ==> {
                &&& (column - 1) / per_byte < start.len()
                &&& encoded == start[(column - 1) / per_byte]
                &&& unused == 8 - bits * ((column - 1) % per_byte + 1)
            },
        decreases width - column,
    {
        proof {
            lemma_next_slot(bits, column as int);
        }
        if unused == 0 {
            match input.read_u8() {
                Ok(byte) => {
                    encoded = byte;
                    unused = 8;
                },
                Err(stop) => {
                    proof {
                        lemma_packed_row_stop(
                            palette@,
                            bpp as nat,
                            bits as nat,
                            (column + 1) as nat,
                            width as nat,
                            start,
                        );
                    }
                    return Err(stop);
                },
            }
        }
        unused = unused - bits;
        let index: u8 = (encoded >> unused) & mask;
        assert(index == packed_index(
            start[column as int / per_byte],
            bits as nat,
            column as int % per_byte,
        ));
        let result = copy_if_indexed(palette, pixels, bpp, index);
        if result.is_err() {
            proof {
                lemma_packed_row_stop(
                    palette@,
                    bpp as nat,
                    bits as nat,
                    (column + 1) as nat,
                    width as nat,
                    start,
                );
            }
            return result;
        }
        column = column + 1;
        assert(pixels@ =~= old(pixels)@ + packed_row(
            palette@,
            bpp as nat,
            bits as nat,
            column as nat,
            start,
        )->Done_0);
        assert(input.remaining() =~= start.skip((column - 1) / per_byte + 1));
    }
    Ok(())
}

/// Where the index of a column is, against that of the column before.
proof fn lemma_next_slot(bits: u8, column: int)
    requires
        index_width(bits),
        0 <= column,
    ensures
        ({
            let per_byte = 8int / bits as int;
            let slot = column % per_byte;
            &&& 0 <= slot < per_byte
            &&& 0 <= bits * slot <= 8 - bits
            &&& bits * (slot + 1) == bits * slot + bits
            &&& column == 0 ==> slot == 0 && column / per_byte == 0
            &&& column > 0 && slot == 0 ==> {
                &&& column / per_byte == (column - 1) / per_byte + 1
                &&& bits * ((column - 1) % per_byte + 1) == 8
            }
            &&& column > 0 && slot > 0 ==> {
                &&& column / per_byte == (column - 1) / per_byte
                &&& (column - 1) % per_byte + 1 == slot
                &&& bits * ((column - 1) % per_byte + 1) < 8
            }
        }),
{
    let per_byte = 8int / bits as int;
    if bits == 1 {
        assert(per_byte == 8);
    } else if bits == 2 {
        assert(per_byte == 4);
    } else {
        assert(bits == 4);
        assert(per_byte == 2);
    }
}

/// More pixels do not get past where fewer stopped.
proof fn lemma_packed_row_stop(
    palette: Seq<u8>,
    bpp: nat,
    bits: nat,
    count: nat,
    more: nat,
    input: Seq<u8>,
)
    requires
        count <= more,
        packed_row(palette, bpp, bits, count, input) is Stopped,
    ensures
        packed_row(palette, bpp, bits, more, input) == packed_row(
            palette,
            bpp,
            bits,
            count,
            input,
        ),
    decreases more,
{
    if count < more {
        lemma_packed_row_stop(palette, bpp, bits, count, (more - 1) as nat, input);
    }
}

/// Reads the rows of a tile of indices.
fn copy_packed_rows(
    palette: &[u8],
    bpp: usize,
    bits: u8,
    width: usize,
    height: usize,
    pixels: &mut Vec<u8>,
    input: &mut ByteReader,
) -> (result: Result<(), Stop>)
    requires
        bpp <= 4,
        index_width(bits),
    ensures
        appended(
            result,
            old(pixels)@,
            final(pixels)@,
            old(input),
            final(input),
            packed_rows(
                palette@,
                bpp as nat,
                bits as nat,
                width as nat,
                height as nat,
                old(input).remaining(),
            ),
        ),
{
    let ghost start = input.remaining();
    let mut row: usize = 0;
    assert(pixels@ =~= old(pixels)@ + Seq::<u8>::empty());
    while row < height
        invariant
            bpp <= 4,
            index_width(bits),
            row <= height,
            start == old(input).remaining(),
            appended(
                Ok(()),
                old(pixels)@,
                pixels@,
                old(input),
                input,
                packed_rows(
                    palette@,
                    bpp as nat,
                    bits as nat,
                    width as nat,
                    row as nat,
                    start,
                ),
            ),
        decreases height - row,
    {
        let result = copy_packed_row(palette, bpp, bits, width, pixels, input);
        if result.is_err() {
            proof {
                lemma_packed_rows_stop(
                    palette@,
                    bpp as nat,
                    bits as nat,
                    width as nat,
                    (row + 1) as nat,
                    height as nat,
                    start,
                );
            }
            return result;
        }
        row = row + 1;
        assert(pixels@ =~= old(pixels)@ + packed_rows(
            palette@,
            bpp as nat,
            bits as nat,
            width as nat,
            row as nat,
            start,
        )->Done_0);
    }
    Ok(())
}

/// More rows do not get past where fewer stopped.
proof fn lemma_packed_rows_stop(
    palette: Seq<u8>,
    bpp: nat,
    bits: nat,
    width: nat,
    count: nat,
    more: nat,
    input: Seq<u8>,
)
    requires
        count <= more,
        packed_rows(palette, bpp, bits, width, count, input) is Stopped,
    ensures
        packed_rows(palette, bpp, bits, width, more, input) == packed_rows(
            palette,
            bpp,
            bits,
            width,
            count,
            input,
        ),
    decreases more,
{
    if count < more {
        lemma_packed_rows_stop(palette, bpp, bits, width, count, (more - 1) as nat, input);
    }
}

/// Reads runs of pixels.
fn copy_true_color_runs(
    layout: &PixelLayout,
    wanted: usize,
    pixels: &mut Vec<u8>,
    input: &mut ByteReader,
) -> (result: Result<(), Stop>)
    ensures
        appended(
            result,
            old(pixels)@,
            final(pixels)@,
            old(input),
            final(input),
            true_color_runs(*layout, wanted as nat, 0, old(input).remaining()),
        ),
{
    let ghost whole = true_color_runs(*layout, wanted as nat, 0, input.remaining());
    let ghost mut read: Seq<u8> = Seq::empty();
    let mut count: u128 = 0;
    assert(pixels@ =~= old(pixels)@ + read);
    assert(whole is Done ==> whole->Done_0 =~= read + whole->Done_0);
    while count < wanted as u128
        invariant
            input.same_buffer(old(input)),
            pixels@ == old(pixels)@ + read,
            whole == true_color_runs(*layout, wanted as nat, 0, old(input).remaining()),
            whole == behind(
                read,
                true_color_runs(*layout, wanted as nat, count as nat, input.remaining()),
            ),
        decreases
                (if count < wanted {
                    wanted - count
                } else {
                    0
                }),
    {
        let ghost here = input.remaining();
        let mut pixel: Vec<u8> = Vec::new();
        let copied = copy_true_color(layout, &mut pixel, input);
        if copied.is_err() {
            return copied;
        }
        assert(pixel@ =~= true_color(*layout, here)->Done_0);
        match read_run_length(input) {
            Ok(run_length) => {
                repeat(pixel.as_slice(), run_length, pixels);
                count = count + run_length;
                proof {
                    let run = repeated(pixel@, run_length as nat);
                    let rest = true_color_runs(
                        *layout,
                        wanted as nat,
                        count as nat,
                        input.remaining(),
                    );
                    if rest is Done {
                        assert(read + (run + rest->Done_0) =~= (read + run) + rest->Done_0);
                    }
                    assert(pixels@ =~= old(pixels)@ + (read + run));
                    read = read + run;
                }
            },
            Err(stop) => {
                return Err(stop);
            },
        }
    }
    assert(read + Seq::<u8>::empty() =~= read);
    Ok(())
}

/// Reads runs of indexed pixels.
fn copy_indexed_runs(
    palette: &[u8],
    bpp: usize,
    wanted: usize,
    pixels: &mut Vec<u8>,
    input: &mut ByteReader,
) -> (result: Result<(), Stop>)
    requires
        bpp <= 4,
    ensures
        appended(
            result,
            old(pixels)@,
            final(pixels)@,
            old(input),
            final(input),
            indexed_runs(palette@, bpp as nat, wanted as nat, 0, old(input).remaining()),
        ),
{
    let ghost whole = indexed_runs(palette@, bpp as nat, wanted as nat, 0, input.remaining());
    let ghost mut read: Seq<u8> = Seq::empty();
    let mut count: u128 = 0;
    assert(pixels@ =~= old(pixels)@ + read);
    assert(whole is Done ==> whole->Done_0 =~= read + whole->Done_0);
    while count < wanted as u128
        invariant
            bpp <= 4,
            input.same_buffer(old(input)),
            pixels@ == old(pixels)@ + read,
            whole == indexed_runs(
                palette@,
                bpp as nat,
                wanted as nat,
                0,
                old(input).remaining(),
            ),
            whole == behind(
                read,
                indexed_runs(
                    palette@,
                    bpp as nat,
                    wanted as nat,
                    count as nat,
                    input.remaining(),
                ),
            ),
        decreases
                (if count < wanted {
                    wanted - count
                } else {
                    0
                }),
    {
        match read_indexed_run(input) {
            Ok((index, run_length)) => {
                let mut pixel: Vec<u8> = Vec::new();
                let copied = copy_if_indexed(palette, &mut pixel, bpp, index);
                if copied.is_err() {
                    return copied;
                }
                assert(pixel@ =~= color(palette@, bpp as nat, index as nat)->Some_0);
                repeat(pixel.as_slice(), run_length, pixels);
                count = count + run_length;
                proof {
                    let run = repeated(pixel@, run_length as nat);
                    let rest = indexed_runs(
                        palette@,
                        bpp as nat,
                        wanted as nat,
                        count as nat,
                        input.remaining(),
                    );
                    if rest is Done {
                        assert(read + (run + rest->Done_0) =~= (read + run) + rest->Done_0);
                    }
                    assert(pixels@ =~= old(pixels)@ + (read + run));
                    read = read + run;
                }
            },
            Err(stop) => {
                return Err(stop);
            },
        }
    }
    assert(read + Seq::<u8>::empty() =~= read);
    Ok(())
}

/// Reads the index and the length of a run of indexed pixels.
fn read_indexed_run(input: &mut ByteReader) -> (run: Result<(u8, u128), Stop>)
    ensures
        final(input).same_buffer(old(input)),
        match indexed_run(old(input).remaining()) {
            Parse::Done((index, extra), rest) => {
                &&& run is Ok
                &&& run->Ok_0.0 == index
                &&& run->Ok_0.1 == 1 + extra
                &&& 1 + extra <= 1 + 255 * usize::MAX
                &&& final(input).remaining() == rest
            },
            Parse::Stopped(stop) => {
                &&& run == Err::<(u8, u128), Stop>(stop)
                &&& stop == Stop::Short
                &&& final(input).remaining() == Seq::<u8>::empty()
            },
        },
{
    match input.read_u8() {
        Ok(control) => {
            assert((control & 0x80 > 0) == (control >= 128)) by (bit_vector);
            assert(control & 0x7f == control % 128) by (bit_vector);
            let index: u8 = control & 0x7f;
            if control & 0x80 > 0 {
                match read_run_length(input) {
                    Ok(run_length) => Ok((index, run_length)),
                    Err(stop) => Err(stop),
                }
            } else {
                Ok((index, 1))
            }
        },
        Err(stop) => Err(stop),
    }
}

/// Reads the pixels of a tile.
fn read_tile(layout: &PixelLayout, width: u16, height: u16, input: &mut ByteReader) -> (result:
    Result<Vec<u8>, Stop>)
    requires
        width <= TILE_SIZE,
        height <= TILE_SIZE,
    ensures
        final(input).same_buffer(old(input)),
        match tile_pixels(*layout, width as nat, height as nat, old(input).remaining()) {
            Parse::Done(pixels, rest) => {
                &&& result is Ok
                &&& result->Ok_0@ == pixels
                &&& final(input).remaining() == rest
            },
            Parse::Stopped(stop) => {
                &&& result == Err::<Vec<u8>, Stop>(stop)
                &&& stop == Stop::Short ==> final(input).remaining() == Seq::<u8>::empty()
                &&& stop == Stop::Invalid ==> final(input).remaining() == behind_palette(
                    *layout,
                    old(input).remaining(),
                )
            },
        },
{
    assert(height * width <= 16 * 16) by (nonlinear_arith)
        requires
            width <= 16,
            height <= 16,
    ;
    let pixel_count: usize = height as usize * width as usize;
    let control: u8 = match input.read_u8() {
        Ok(control) => control,
        Err(stop) => {
            return Err(stop);
        },
    };
    assert((control & 0x80 > 0) == (control >= 128)) by (bit_vector);
    assert(control & 0x7f == control % 128) by (bit_vector);
    let is_rle: bool = control & 0x80 > 0;
    let palette_size: u8 = control & 0x7f;
    let mut palette: Vec<u8> = Vec::new();
    match copy_true_colors(layout, palette_size as usize, &mut palette, input) {
        Ok(()) => {},
        Err(stop) => {
            return Err(stop);
        },
    }
    let ghost here = input.remaining();
    let ghost colors = true_colors(
        *layout,
        palette_size as nat,
        old(input).remaining().skip(1),
    )->Done_0;
    assert(palette@ =~= colors);
    let mut pixels: Vec<u8> = Vec::new();
    let result = match (is_rle, palette_size) {
        (false, 0) => copy_true_colors(layout, pixel_count, &mut pixels, input),
        (false, 1) => {
            repeat(palette.as_slice(), pixel_count as u128, &mut pixels);
            Ok(())
        },
        (false, 2..=16) => {
            let bits: u8 = match palette_size {
                2 => 1,
                3..=4 => 2,
                _ => 4,
            };
            copy_packed_rows(
                palette.as_slice(),
                layout.bpp,
                bits,
                width as usize,
                height as usize,
                &mut pixels,
                input,
            )
        },
        (true, 0) => copy_true_color_runs(layout, pixel_count, &mut pixels, input),
        (true, 2..=127) => copy_indexed_runs(
            palette.as_slice(),
            layout.bpp,
            pixel_count,
            &mut pixels,
            input,
        ),
        _ => Err(Stop::Invalid),
    };
    let ghost body = tile_body(
        *layout,
        width as nat,
        height as nat,
        is_rle,
        palette_size as nat,
        palette@,
        here,
    );
    assert(body is Done ==> pixels@ =~= body->Done_0);
    match result {
        Ok(()) => Ok(pixels),
        Err(stop) => Err(stop),
    }
}

/// Works out the layout of pixels of a format.
fn layout_of(format: &PixelFormat) -> (layout: PixelLayout)
    requires
        shifts_in_range(*format),
    ensures
        layout == pixel_layout(*format),
{
    let bpp: usize = format.bits_per_pixel as usize / 8;
    let mask: u32 = (format.red_max as u32) << format.red_shift | (format.green_max as u32)
        << format.green_shift | (format.blue_max as u32) << format.blue_shift;
    if format.bits_per_pixel == 32 && format.true_color_flag > 0 && format.depth <= 24 {
        if mask & 0x000000ff == 0 {
            PixelLayout { bpp, compressed_bpp: 3, alpha_at_first: format.big_endian_flag == 0 }
        } else if mask & 0xff000000 == 0 {
            PixelLayout { bpp, compressed_bpp: 3, alpha_at_first: format.big_endian_flag > 0 }
        } else {
            PixelLayout { bpp, compressed_bpp: 4, alpha_at_first: false }
        }
    } else {
        PixelLayout { bpp, compressed_bpp: bpp, alpha_at_first: false }
    }
}

/// Reads the tiles of a rectangle.
fn read_tiles(
    layout: &PixelLayout,
    rect: &Rect,
    input: &mut ByteReader,
    frames: &mut Vec<VncImageEvent>,
) -> (result: Result<(), Stop>)
    ensures
        final(input).same_buffer(old(input)),
        ({
            let tiles = tiles_from(*layout, *rect, 0, old(input).remaining());
            &&& old(frames)@.is_prefix_of(final(frames)@)
            &&& image_views(final(frames)@) == image_views(old(frames)@) + tiles.frames
            &&& result == tiles.end
            &&& result != Err::<(), Stop>(Stop::Fault) ==> final(input).remaining() == tiles.rest
        }),
        result == Err::<(), Stop>(Stop::Short) ==> final(input).remaining() == Seq::<u8>::empty(),
{
    let ghost whole = tiles_from(*layout, *rect, 0, input.remaining());
    let ghost columns: int = tiles_along(rect.width as int);
    let ghost mut row: int = 0;
    let ghost mut k: int = 0;
    let ghost mut read: Seq<ImageEventView> = Seq::empty();
    let mut y: u16 = 0;
    assert(image_views(frames@) =~= image_views(old(frames)@) + read);
    assert(whole.frames =~= read + whole.frames);
    while y < rect.height
        invariant
            input.same_buffer(old(input)),
            old(frames)@.is_prefix_of(frames@),
            image_views(frames@) == image_views(old(frames)@) + read,
            whole == tiles_from(*layout, *rect, 0, old(input).remaining()),
            columns == tiles_along(rect.width as int),
            0 <= row,
            y <= rect.height,
            y < rect.height ==> y == row * TILE_SIZE,
            y == rect.height ==> row == tiles_along(rect.height as int),
            k == row * columns,
            0 <= k,
            whole.frames == read + tiles_from(*layout, *rect, k as nat, input.remaining()).frames,
            whole.end == tiles_from(*layout, *rect, k as nat, input.remaining()).end,
            whole.end != Err::<(), Stop>(Stop::Fault) ==> whole.rest == tiles_from(
                *layout,
                *rect,
                k as nat,
                input.remaining(),
            ).rest,
        decreases rect.height - y,
    {
        let height: u16 = if rect.height - y < TILE_SIZE {
            rect.height - y
        } else {
            TILE_SIZE
        };
        let ghost mut column: int = 0;
        let mut x: u16 = 0;
        while x < rect.width
            invariant
                input.same_buffer(old(input)),
                old(frames)@.is_prefix_of(frames@),
                image_views(frames@) == image_views(old(frames)@) + read,
                whole == tiles_from(*layout, *rect, 0, old(input).remaining()),
                columns == tiles_along(rect.width as int),
                0 <= row,
                y < rect.height,
                y == row * TILE_SIZE,
                height == tile_at(*rect, row, 0).height,
                0 <= column <= columns,
                x <= rect.width,
                x < rect.width ==> x == column * TILE_SIZE,
                x == rect.width ==> column == columns,
                k == row * columns + column,
                0 <= k,
                whole.frames == read + tiles_from(
                    *layout,
                    *rect,
                    k as nat,
                    input.remaining(),
                ).frames,
                whole.end == tiles_from(*layout, *rect, k as nat, input.remaining()).end,
                whole.end != Err::<(), Stop>(Stop::Fault) ==> whole.rest == tiles_from(
                    *layout,
                    *rect,
                    k as nat,
                    input.remaining(),
                ).rest,
            decreases rect.width - x,
        {
            let width: u16 = if rect.width - x < TILE_SIZE {
                rect.width - x
            } else {
                TILE_SIZE
            };
            proof {
                lemma_tile_number(*rect, row, column, k);
            }
            let ghost tile = nth_tile(*rect, k);
            assert(tile.x == x && tile.y == y && tile.width == width && tile.height == height);
            let pixels = match read_tile(layout, width, height, input) {
                Ok(pixels) => pixels,
                Err(stop) => {
                    assert(whole.frames =~= read);
                    return Err(stop);
                },
            };
            if rect.x > u16::MAX - x || rect.y > u16::MAX - y {
                assert(whole.frames =~= read);
                return Err(Stop::Fault);
            }
            let place = Rect { x: rect.x + x, y: rect.y + y, width, height };
            let ghost so_far = frames@;
            let ghost image = ImageEventView::RawImage(placed(*rect, tile), pixels@);
            frames.push(VncImageEvent::RawImage(ImageData::new(place, pixels)));
            proof {
                let rest = tiles_from(*layout, *rect, (k + 1) as nat, input.remaining());
                assert(frames@.last()@ == image);
                assert(image_views(frames@) =~= image_views(so_far).push(image));
                assert(image_views(frames@) =~= image_views(old(frames)@) + (read.push(image)));
                assert(read + (seq![image] + rest.frames) =~= read.push(image) + rest.frames);
                read = read.push(image);
                column = column + 1;
                k = k + 1;
            }
            x = x + width;
        }
        proof {
            assert((row + 1) * columns == row * columns + columns) by (nonlinear_arith);
            row = row + 1;
        }
        y = y + height;
    }
    assert(whole.frames =~= read);
    Ok(())
}

/// The tile in a row and column has the number that the order of tiles gives it.
proof fn lemma_tile_number(rect: Rect, row: int, column: int, k: int)
    requires
        0 <= row < tiles_along(rect.height as int),
        0 <= column < tiles_along(rect.width as int),
        k == row * tiles_along(rect.width as int) + column,
    ensures
        k < tile_count(rect),
        nth_tile(rect, k) == tile_at(rect, row, column),
{
    let rows = tiles_along(rect.height as int);
    let columns = tiles_along(rect.width as int);
    assert(k < rows * columns) by (nonlinear_arith)
        requires
            0 <= row < rows,
            0 <= column < columns,
            k == row * columns + column,
    ;
    vstd::arithmetic::div_mod::lemma_fundamental_div_mod_converse(k, columns, row, column);
}

/// TRLE stands for Tiled Run-Length Encoding, and combines tiling, palettisation
/// and run-length encoding. The rectangle is divided into tiles of 16x16 pixels in
/// left-to-right, top-to-bottom order.
///
/// Each tile has a sub-encoding of its own.
#[derive(Debug)]
pub struct Decoder {}

impl Decoder {
    pub fn new() -> (decoder: Decoder)
        ensures
            decoder == (Decoder {  }),
    {
        Decoder {  }
    }

    /// Decodes a rectangle and puts the images of its tiles behind the others.
    ///
    /// Images of tiles that come before a stop are kept, and the input is used as far as
    /// it was read, unless decoding cannot go on.
    pub fn try_decode(
        &self,
        format: &PixelFormat,
        rect: &Rect,
        input: &mut ByteReader,
        frames: &mut Vec<VncImageEvent>,
    ) -> (result: Result<(), Stop>)
        ensures
            final(input).same_buffer(old(input)),
            ({
                let image = decoded(*format, *rect, old(input).remaining());
                &&& old(frames)@.is_prefix_of(final(frames)@)
                &&& image_views(final(frames)@) == image_views(old(frames)@) + image.frames
                &&& result == image.end
                &&& final(input).remaining() == image.rest
            }),
            result == Err::<(), Stop>(Stop::Short) ==> final(input).remaining() == Seq::<
                u8,
            >::empty(),
    {
        let mark: usize = input.position();
        let ghost start = input.remaining();
        assert(image_views(frames@) =~= image_views(frames@) + Seq::empty());
        let data_len: u32 = match input.read_u32() {
            Ok(data_len) => data_len,
            Err(stop) => {
                return Err(stop);
            },
        };
        match input.skip(data_len as usize) {
            Ok(()) => {},
            Err(stop) => {
                return Err(stop);
            },
        }
        assert(input.remaining() =~= start.skip(4 + be_u32(start)));
        if format.red_shift >= 32 || format.green_shift >= 32 || format.blue_shift >= 32 {
            input.rewind(mark);
            return Err(Stop::Fault);
        }
        let layout = layout_of(format);
        let result = read_tiles(&layout, rect, input, frames);
        if let Err(Stop::Fault) = result {
            input.rewind(mark);
        }
        result
    }

    /// Decodes a rectangle and puts the images of its tiles behind the others.
    ///
    /// Images of tiles that come before an error are kept, and the input is used as far as
    /// it was read.
    pub fn decode(
        &self,
        format: &PixelFormat,
        rect: &Rect,
        input: &mut ByteReader,
        frames: &mut Vec<VncImageEvent>,
    ) -> (result: Result<(), VncError>)
        requires
            decoded(*format, *rect, old(input).remaining()).end != Err::<(), Stop>(Stop::Fault),
        ensures
            final(input).same_buffer(old(input)),
            ({
                let image = decoded(*format, *rect, old(input).remaining());
                &&& old(frames)@.is_prefix_of(final(frames)@)
                &&& image_views(final(frames)@) == image_views(old(frames)@) + image.frames
                &&& final(input).remaining() == image.rest
                &&& result == match image.end {
                    Ok(_) => Ok::<(), VncError>(()),
                    Err(Stop::Short) => Err(VncError::UnexpectedEof),
                    Err(_) => Err(VncError::InvalidImageData),
                }
            }),
            result == Err::<(), VncError>(VncError::UnexpectedEof) ==> final(input).remaining()
                == Seq::<u8>::empty(),
    {
        match self.try_decode(format, rect, input, frames) {
            Ok(()) => Ok(()),
            Err(Stop::Short) => Err(VncError::UnexpectedEof),
            Err(_) => Err(VncError::InvalidImageData),
        }
    }
}

} // verus!
