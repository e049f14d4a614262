use vnc::codec::trle::{copy_indexed, Decoder};
use vnc::config::PixelFormat;
use vnc::error::VncError;
use vnc::event::{ImageData, Rect, VncImageEvent};
use vnc::input::{ByteReader, Stop};

/// Blue in the lowest byte, nothing in the highest.
fn bgra() -> PixelFormat {
    PixelFormat {
        bits_per_pixel: 32,
        depth: 24,
        big_endian_flag: 0,
        true_color_flag: 1,
        red_max: 255,
        green_max: 255,
        blue_max: 255,
        red_shift: 16,
        green_shift: 8,
        blue_shift: 0,
    }
}

/// One byte for each pixel.
fn gray() -> PixelFormat {
    PixelFormat { bits_per_pixel: 8, depth: 8, ..bgra() }
}

fn rect(x: u16, y: u16, width: u16, height: u16) -> Rect {
    Rect { x, y, width, height }
}

/// Image data behind an empty block of data.
fn with_length(tiles: &[u8]) -> Vec<u8> {
    let mut bytes = vec![0, 0, 0, 0];
    bytes.extend_from_slice(tiles);
    bytes
}

fn raw(rect: Rect, data: Vec<u8>) -> VncImageEvent {
    VncImageEvent::RawImage(ImageData::new(rect, data))
}

/// Decodes all of the tiles and expects one image.
fn one_tile(format: PixelFormat, width: u16, height: u16, tiles: &[u8]) -> Vec<u8> {
    let mut input = ByteReader::new(with_length(tiles));
    let mut frames = Vec::new();
    let place = rect(3, 4, width, height);
    let result = Decoder::new().decode(&format, &place, &mut input, &mut frames);
    assert_eq!(result, Ok(()));
    assert_eq!(input.left(), 0);
    assert_eq!(frames.len(), 1);
    match frames.remove(0) {
        VncImageEvent::RawImage(image) => {
            assert_eq!(image.rect, place);
            image.data
        }
        other => panic!("not an image: {:?}", other),
    }
}

fn stop_of(format: PixelFormat, place: Rect, bytes: Vec<u8>) -> (Stop, usize) {
    let mut input = ByteReader::new(bytes);
    let mut frames = Vec::new();
    let stop = Decoder::new().try_decode(&format, &place, &mut input, &mut frames).unwrap_err();
    assert_eq!(input.position(), 0);
    (stop, frames.len())
}

#[test]
fn true_color_pixels_get_an_alpha_byte_behind() {
    let data = one_tile(bgra(), 2, 1, &[0, 1, 2, 3, 4, 5, 6]);
    assert_eq!(data, vec![1, 2, 3, 255, 4, 5, 6, 255]);
}

#[test]
fn alpha_comes_first_where_the_lowest_byte_is_free() {
    let high = PixelFormat { red_shift: 24, green_shift: 16, blue_shift: 8, ..bgra() };
    assert_eq!(one_tile(high, 1, 1, &[0, 1, 2, 3]), vec![255, 1, 2, 3]);
    let big = PixelFormat { big_endian_flag: 1, ..high };
    assert_eq!(one_tile(big, 1, 1, &[0, 1, 2, 3]), vec![1, 2, 3, 255]);
}

#[test]
fn alpha_comes_first_in_big_endian_pixels_with_a_free_highest_byte() {
    let big = PixelFormat { big_endian_flag: 1, ..bgra() };
    assert_eq!(one_tile(big, 1, 1, &[0, 1, 2, 3]), vec![255, 1, 2, 3]);
}

#[test]
fn pixels_without_a_free_byte_are_sent_whole() {
    let full = PixelFormat { red_shift: 24, green_shift: 12, blue_shift: 0, ..bgra() };
    assert_eq!(one_tile(full, 1, 1, &[0, 1, 2, 3, 4]), vec![1, 2, 3, 4]);
    let deep = PixelFormat { depth: 32, ..bgra() };
    assert_eq!(one_tile(deep, 1, 1, &[0, 1, 2, 3, 4]), vec![1, 2, 3, 4]);
    let mapped = PixelFormat { true_color_flag: 0, ..bgra() };
    assert_eq!(one_tile(mapped, 1, 1, &[0, 1, 2, 3, 4]), vec![1, 2, 3, 4]);
}

#[test]
fn a_tile_of_one_color_is_filled() {
    assert_eq!(one_tile(gray(), 3, 2, &[1, 9]), vec![9; 6]);
    assert_eq!(one_tile(bgra(), 2, 1, &[1, 7, 8, 9]), vec![7, 8, 9, 255, 7, 8, 9, 255]);
}

#[test]
fn two_colors_take_one_bit_each() {
    // A row of ten pixels takes two bytes.
    let data = one_tile(gray(), 10, 2, &[2, 5, 6, 0b1010_0000, 0b0100_0000, 0b0000_0001, 0b1000_0000]);
    assert_eq!(
        data,
        vec![6, 5, 6, 5, 5, 5, 5, 5, 5, 6, 5, 5, 5, 5, 5, 5, 5, 6, 6, 5]
    );
}

#[test]
fn four_colors_take_two_bits_each() {
    let data = one_tile(gray(), 5, 1, &[4, 10, 11, 12, 13, 0b00_01_10_11, 0b11_00_00_00]);
    assert_eq!(data, vec![10, 11, 12, 13, 13]);
}

#[test]
fn more_colors_take_four_bits_each() {
    let data = one_tile(gray(), 3, 1, &[5, 20, 21, 22, 23, 24, 0x40, 0x30]);
    assert_eq!(data, vec![24, 20, 23]);
    let mut tile = vec![16];
    tile.extend(0..16);
    tile.push(0xf7);
    assert_eq!(one_tile(gray(), 2, 1, &tile), vec![15, 7]);
}

#[test]
fn runs_of_true_color() {
    // Three pixels, then one.
    let data = one_tile(bgra(), 2, 2, &[0x80, 1, 2, 3, 2, 4, 5, 6, 0]);
    assert_eq!(data, vec![1, 2, 3, 255, 1, 2, 3, 255, 1, 2, 3, 255, 4, 5, 6, 255]);
}

#[test]
fn a_run_length_adds_up_as_long_as_it_is_255() {
    assert_eq!(one_tile(gray(), 16, 16, &[0x80, 7, 255, 0]), vec![7; 256]);
    assert_eq!(one_tile(gray(), 1, 1, &[0x80, 7, 255, 255, 3]), vec![7; 514]);
}

#[test]
fn the_last_run_may_go_beyond_the_tile() {
    assert_eq!(one_tile(gray(), 2, 1, &[0x80, 7, 4]), vec![7; 5]);
    assert_eq!(one_tile(gray(), 2, 1, &[0x82, 7, 8, 0x81, 4]), vec![8; 5]);
}

#[test]
fn runs_of_indices() {
    let data = one_tile(gray(), 4, 1, &[0x83, 30, 31, 32, 0x02, 0x81, 1, 0x00]);
    assert_eq!(data, vec![32, 31, 31, 30]);
}

#[test]
fn tiles_are_sixteen_wide_and_high_left_to_right_and_top_to_bottom() {
    let mut input = ByteReader::new(with_length(&[1, 1, 1, 2, 1, 3, 1, 4]));
    let mut frames = Vec::new();
    let result = Decoder::new().decode(&gray(), &rect(100, 200, 20, 18), &mut input, &mut frames);
    assert_eq!(result, Ok(()));
    assert_eq!(
        frames,
        vec![
            raw(rect(100, 200, 16, 16), vec![1; 256]),
            raw(rect(116, 200, 4, 16), vec![2; 64]),
            raw(rect(100, 216, 16, 2), vec![3; 32]),
            raw(rect(116, 216, 4, 2), vec![4; 8]),
        ]
    );
}

#[test]
fn every_pixel_lies_in_one_tile() {
    let mut tiles = Vec::new();
    for k in 0..9 {
        tiles.extend_from_slice(&[1, k]);
    }
    let mut input = ByteReader::new(with_length(&tiles));
    let mut frames = Vec::new();
    Decoder::new().decode(&gray(), &rect(0, 0, 33, 40), &mut input, &mut frames).unwrap();
    let mut seen = vec![0; 33 * 40];
    for frame in frames {
        match frame {
            VncImageEvent::RawImage(image) => {
                assert!(image.rect.width <= 16 && image.rect.height <= 16);
                assert_eq!(image.data.len(), image.rect.width as usize * image.rect.height as usize);
                for y in image.rect.y..image.rect.y + image.rect.height {
                    for x in image.rect.x..image.rect.x + image.rect.width {
                        seen[y as usize * 33 + x as usize] += 1;
                    }
                }
            }
            other => panic!("not an image: {:?}", other),
        }
    }
    assert_eq!(seen, vec![1; 33 * 40]);
}

#[test]
fn the_block_of_data_before_the_tiles_is_passed_over() {
    let mut input = ByteReader::new(vec![0, 0, 0, 3, 9, 9, 9, 1, 5, 42]);
    let mut frames = Vec::new();
    let result = Decoder::new().decode(&gray(), &rect(0, 0, 1, 1), &mut input, &mut frames);
    assert_eq!(result, Ok(()));
    assert_eq!(frames, vec![raw(rect(0, 0, 1, 1), vec![5])]);
    assert_eq!(input.read_u8(), Ok(42));
}

#[test]
fn an_empty_rectangle_has_no_tiles() {
    let mut frames = Vec::new();
    let mut input = ByteReader::new(vec![0, 0, 0, 0]);
    assert_eq!(Decoder::new().decode(&gray(), &rect(0, 0, 0, 5), &mut input, &mut frames), Ok(()));
    let mut input = ByteReader::new(vec![0, 0, 0, 0]);
    assert_eq!(Decoder::new().decode(&gray(), &rect(0, 0, 5, 0), &mut input, &mut frames), Ok(()));
    assert!(frames.is_empty());
}

#[test]
fn other_sub_encodings_are_invalid() {
    for control in [17u8, 127, 0x81] {
        let mut tile = vec![control];
        tile.extend(vec![0; 200]);
        let mut input = ByteReader::new(with_length(&tile));
        let mut frames = Vec::new();
        let result = Decoder::new().decode(&gray(), &rect(0, 0, 1, 1), &mut input, &mut frames);
        assert_eq!(result, Err(VncError::InvalidImageData));
        // The control byte and the colors of the palette have been read.
        assert_eq!(input.left(), 200 - (control & 0x7f) as usize);
    }
}

#[test]
fn images_before_an_error_are_kept() {
    let mut input = ByteReader::new(with_length(&[1, 6, 0x81, 0, 0]));
    let mut frames = Vec::new();
    let result = Decoder::new().decode(&gray(), &rect(0, 0, 17, 1), &mut input, &mut frames);
    assert_eq!(result, Err(VncError::InvalidImageData));
    assert_eq!(frames, vec![raw(rect(0, 0, 16, 1), vec![6; 16])]);
    assert_eq!(input.left(), 1);
}

/// Three tiles: of one color, of runs of indices, and of a run of true color.
fn three_tiles() -> Vec<u8> {
    with_length(&[1, 5, 0x83, 30, 31, 32, 0x82, 14, 0x00, 0x80, 7, 255, 3])
}

#[test]
fn an_input_that_ends_too_soon_is_an_error_at_every_place() {
    let whole = three_tiles();
    for cut in 0..whole.len() {
        let mut input = ByteReader::new(whole[..cut].to_vec());
        let mut frames = Vec::new();
        let result = Decoder::new().decode(&gray(), &rect(0, 0, 1, 33), &mut input, &mut frames);
        assert_eq!(result, Err(VncError::UnexpectedEof));
        assert_eq!(input.left(), 0);
        let tiles = [6, 13].iter().filter(|end| cut >= **end).count();
        assert_eq!(frames.len(), tiles);
    }
}

#[test]
fn more_input_changes_nothing_that_was_decoded() {
    let mut second = vec![32; 15];
    second.push(30);
    let expected = vec![
        raw(rect(0, 0, 1, 16), vec![5; 16]),
        raw(rect(0, 16, 1, 16), second),
        raw(rect(0, 32, 1, 1), vec![7; 259]),
    ];
    for more in 0..3 {
        let mut bytes = three_tiles();
        bytes.extend(vec![9; more]);
        let mut input = ByteReader::new(bytes);
        let mut frames = Vec::new();
        let result = Decoder::new().decode(&gray(), &rect(0, 0, 1, 33), &mut input, &mut frames);
        assert_eq!(result, Ok(()));
        assert_eq!(frames, expected);
        assert_eq!(input.left(), more);
    }
}

#[test]
fn a_color_beyond_the_palette_is_a_fault() {
    let place = rect(0, 0, 1, 1);
    assert_eq!(stop_of(gray(), place, with_length(&[3, 1, 2, 3, 0b1100_0000])), (Stop::Fault, 0));
    assert_eq!(stop_of(gray(), place, with_length(&[0x82, 1, 2, 2])), (Stop::Fault, 0));
}

#[test]
fn a_pixel_format_out_of_range_is_a_fault() {
    let place = rect(0, 0, 1, 1);
    let wide = PixelFormat { bits_per_pixel: 64, ..bgra() };
    assert_eq!(stop_of(wide, place, with_length(&[0, 1, 2, 3, 4, 5, 6, 7, 8])), (Stop::Fault, 0));
    let shifted = PixelFormat { red_shift: 32, ..bgra() };
    assert_eq!(stop_of(shifted, place, with_length(&[0, 1, 2, 3])), (Stop::Fault, 0));
}

#[test]
fn a_tile_off_the_screen_is_a_fault() {
    let place = rect(65530, 0, 17, 1);
    assert_eq!(stop_of(gray(), place, with_length(&[1, 1, 1, 2])), (Stop::Fault, 1));
}

#[test]
fn the_largest_rectangle_comes_to_an_end() {
    let mut tiles = Vec::new();
    for _ in 0..4096 {
        tiles.extend_from_slice(&[1, 3]);
    }
    let mut input = ByteReader::new(with_length(&tiles));
    let mut frames = Vec::new();
    let result = Decoder::new().decode(&gray(), &rect(0, 0, 1, 65535), &mut input, &mut frames);
    assert_eq!(result, Ok(()));
    assert_eq!(frames.len(), 4096);
    assert_eq!(frames[4095], raw(rect(0, 65520, 1, 15), vec![3; 15]));
}

#[test]
fn pixels_of_less_than_a_byte_are_empty() {
    let none = PixelFormat { bits_per_pixel: 4, ..gray() };
    assert_eq!(one_tile(none, 2, 2, &[0]), Vec::<u8>::new());
    assert_eq!(one_tile(none, 1, 1, &[0x82, 0x7f]), Vec::<u8>::new());
}

#[test]
fn an_indexed_pixel_is_a_part_of_the_palette() {
    let mut pixels = vec![1];
    copy_indexed(&[10, 11, 20, 21, 30, 31], &mut pixels, 2, 1);
    assert_eq!(pixels, vec![1, 20, 21]);
}
