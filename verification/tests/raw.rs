use vnc::codec::raw::Decoder;
use vnc::config::PixelFormat;
use vnc::error::VncError;
use vnc::event::{ImageData, Rect};
use vnc::input::{ByteReader, Stop};

fn format(bits_per_pixel: u8) -> PixelFormat {
    PixelFormat {
        bits_per_pixel,
        depth: 24,
        big_endian_flag: 0,
        true_color_flag: 1,
        red_max: 255,
        green_max: 255,
        blue_max: 255,
        red_shift: 16,
        green_shift: 8,
        blue_shift: 0,
    }
}

#[test]
fn raw_pixels_are_taken_as_they_are() {
    let mut input = ByteReader::new((0..20).collect());
    let rect = Rect { x: 1, y: 2, width: 2, height: 2 };
    let image = Decoder::new().decode(&format(32), &rect, &mut input);
    assert_eq!(image, Ok(ImageData::new(rect, (0..16).collect())));
    assert_eq!(input.left(), 4);
    assert_eq!(input.read_u8(), Ok(16));
}

#[test]
fn raw_pixels_take_whole_bytes() {
    let mut input = ByteReader::new(vec![1, 2, 3, 4, 5, 6, 7]);
    let rect = Rect { x: 0, y: 0, width: 3, height: 1 };
    let image = Decoder::new().decode(&format(23), &rect, &mut input).unwrap();
    assert_eq!(image.data, vec![1, 2, 3, 4, 5, 6]);
}

#[test]
fn raw_pixels_that_are_not_there_are_an_error() {
    let mut input = ByteReader::new(vec![0; 15]);
    let rect = Rect { x: 0, y: 0, width: 2, height: 2 };
    let image = Decoder::new().decode(&format(32), &rect, &mut input);
    assert_eq!(image, Err(VncError::UnexpectedEof));
    assert_eq!(input.left(), 0);
    assert_eq!(input.position(), 15);
    input.rewind(3);
    let largest = Rect { x: 0, y: 0, width: 65535, height: 65535 };
    let image = Decoder::new().decode(&format(255), &largest, &mut input);
    assert_eq!(image, Err(VncError::UnexpectedEof));
    assert_eq!(input.left(), 0);
}

#[test]
fn an_empty_raw_rectangle_takes_nothing() {
    let mut input = ByteReader::new(Vec::new());
    let rect = Rect { x: 5, y: 6, width: 0, height: 9 };
    assert_eq!(
        Decoder::new().decode(&format(32), &rect, &mut input),
        Ok(ImageData::new(rect, Vec::new()))
    );
}

#[test]
fn numbers_are_read_high_byte_first() {
    let mut input = ByteReader::new(vec![1, 2, 3, 4, 5, 6, 7, 8]);
    assert_eq!(input.read_u16(), Ok(0x0102));
    assert_eq!(input.read_u32(), Ok(0x03040506));
    assert_eq!(input.skip(1), Ok(()));
    assert_eq!(input.read_exact(1), Ok(vec![8]));
    assert_eq!(input.read_u8(), Err(Stop::Short));
    input.rewind(6);
    assert_eq!(input.left(), 2);
}

#[test]
fn reading_too_much_uses_up_what_there_is() {
    let mut input = ByteReader::new(vec![1, 2, 3]);
    input.rewind(2);
    assert_eq!(input.read_u16(), Err(Stop::Short));
    assert_eq!(input.left(), 0);
    input.rewind(0);
    assert_eq!(input.read_u32(), Err(Stop::Short));
    assert_eq!(input.left(), 0);
    input.rewind(0);
    assert_eq!(input.read_exact(4), Err(Stop::Short));
    assert_eq!(input.left(), 0);
    input.rewind(1);
    assert_eq!(input.skip(3), Err(Stop::Short));
    assert_eq!(input.left(), 0);
}

#[test]
fn an_input_can_end() {
    let mut input = ByteReader::new(vec![1, 2]);
    assert!(!input.has_ended());
    assert_eq!(input.read_u8(), Ok(1));
    input.end();
    assert!(input.has_ended());
    input.feed(&[]);
    assert!(input.has_ended());
    assert_eq!(input.read_u8(), Ok(2));
}

#[test]
fn bytes_that_arrive_come_behind_those_that_are_left() {
    let mut input = ByteReader::new(vec![1, 2, 3]);
    assert_eq!(input.read_u8(), Ok(1));
    input.feed(&[4, 5]);
    assert_eq!(input.position(), 0);
    assert_eq!(input.read_exact(4), Ok(vec![2, 3, 4, 5]));
}
