use vnc::client::update::{
    Dispatch, ForeignCodec, Global, ImageRect, Reader, ServerMsg, UpdateStep,
};
use vnc::config::{PixelFormat, VncEncoding};
use vnc::error::VncError;
use vnc::event::{ImageData, Rect, Screen, VncEvent, VncImageEvent};
use vnc::input::{ByteReader, Stop};

fn gray() -> PixelFormat {
    PixelFormat {
        bits_per_pixel: 8,
        depth: 8,
        big_endian_flag: 0,
        true_color_flag: 1,
        red_max: 7,
        green_max: 7,
        blue_max: 3,
        red_shift: 0,
        green_shift: 3,
        blue_shift: 6,
    }
}

fn head(x: u8, y: u8, width: u8, height: u8, encoding: i32) -> Vec<u8> {
    let mut bytes = vec![0, x, 0, y, 0, width, 0, height];
    bytes.extend_from_slice(&encoding.to_be_bytes());
    bytes
}

fn rect(x: u16, y: u16, width: u16, height: u16) -> Rect {
    Rect { x, y, width, height }
}

fn raw(rect: Rect, data: Vec<u8>) -> VncImageEvent {
    VncImageEvent::RawImage(ImageData::new(rect, data))
}

/// A raw rectangle, a copy, and a rectangle of two tiles.
fn three_rects() -> Vec<u8> {
    let mut bytes = head(1, 2, 2, 1, 0);
    bytes.extend_from_slice(&[8, 9]);
    bytes.extend(head(3, 4, 5, 6, 1));
    bytes.extend_from_slice(&[0, 70, 1, 80]);
    bytes.extend(head(0, 0, 17, 1, 15));
    bytes.extend_from_slice(&[0, 0, 0, 0, 1, 5, 1, 6]);
    bytes
}

fn three_images() -> Vec<VncImageEvent> {
    vec![
        raw(rect(1, 2, 2, 1), vec![8, 9]),
        VncImageEvent::Copy(rect(3, 4, 5, 6), rect(70, 336, 5, 6)),
        raw(rect(0, 0, 16, 1), vec![5; 16]),
        raw(rect(16, 0, 1, 1), vec![6]),
    ]
}

#[test]
fn a_head_is_read_high_byte_first() {
    let head = ImageRect::from([1, 2, 3, 4, 5, 6, 7, 8, 0, 0, 0, 16]);
    assert_eq!(head.rect, rect(0x0102, 0x0304, 0x0506, 0x0708));
    assert_eq!(head.encoding, Some(VncEncoding::Zrle));
    let mut input = ByteReader::new(vec![0; 11]);
    assert_eq!(ImageRect::read(&mut input), Err(Stop::Short));
    assert_eq!(input.left(), 0);
}

#[test]
fn encodings_have_numbers() {
    for (code, encoding) in [
        (0, Some(VncEncoding::Raw)),
        (1, Some(VncEncoding::CopyRect)),
        (7, Some(VncEncoding::Tight)),
        (15, Some(VncEncoding::Trle)),
        (16, Some(VncEncoding::Zrle)),
        (-239, Some(VncEncoding::CursorPseudo)),
        (-223, Some(VncEncoding::DesktopSizePseudo)),
        (-224, Some(VncEncoding::LastRectPseudo)),
        (2, None),
        (-1, None),
    ] {
        assert_eq!(VncEncoding::from_number(code as u32), encoding);
    }
}

#[test]
fn an_update_hands_out_its_images_together_and_in_order() {
    let mut reader = Reader::new();
    let mut input = ByteReader::new(three_rects());
    let mut left = 3;
    let step = reader.decode_framebuffer_update(&gray(), &mut input, &mut left);
    assert_eq!(step, UpdateStep::Finished(VncEvent::ImageEvent(three_images())));
    assert_eq!(left, 0);
    assert_eq!(input.left(), 0);
    assert!(reader.frames.is_empty());
}

#[test]
fn an_update_without_rectangles_is_complete() {
    let mut reader = Reader::new();
    let mut input = ByteReader::new(Vec::new());
    let mut left = 0;
    let step = reader.decode_framebuffer_update(&gray(), &mut input, &mut left);
    assert_eq!(step, UpdateStep::Finished(VncEvent::ImageEvent(Vec::new())));
}

#[test]
fn an_update_can_arrive_byte_by_byte() {
    let mut reader = Reader::new();
    let mut input = ByteReader::new(Vec::new());
    let mut left = 3;
    let bytes = three_rects();
    for (i, byte) in bytes.iter().enumerate() {
        input.feed(&[*byte]);
        let step = reader.decode_framebuffer_update(&gray(), &mut input, &mut left);
        if i + 1 < bytes.len() {
            assert_eq!(step, UpdateStep::NeedMore);
        } else {
            assert_eq!(step, UpdateStep::Finished(VncEvent::ImageEvent(three_images())));
        }
    }
}

#[test]
fn an_update_that_is_cut_short_keeps_its_images() {
    let bytes = three_rects();
    let mut reader = Reader::new();
    let mut input = ByteReader::new(bytes[..bytes.len() - 1].to_vec());
    let mut left = 3;
    let step = reader.decode_framebuffer_update(&gray(), &mut input, &mut left);
    assert_eq!(step, UpdateStep::NeedMore);
    assert_eq!(left, 1);
    assert_eq!(input.left(), 19);
    assert_eq!(reader.frames.len(), 2);
    input.end();
    let step = reader.decode_framebuffer_update(&gray(), &mut input, &mut left);
    assert_eq!(step, UpdateStep::Failed(VncError::UnexpectedEof));
    assert_eq!(input.left(), 0);
    let mut images = three_images();
    images.pop();
    assert_eq!(reader.frames, images);
}

#[test]
fn a_change_of_the_screen_is_told_at_once() {
    let mut bytes = head(0, 0, 1, 1, 0);
    bytes.push(4);
    bytes.extend(head(0, 0, 64, 48, -223));
    bytes.extend(head(0, 0, 1, 1, 0));
    bytes.push(5);
    let mut reader = Reader::new();
    let mut input = ByteReader::new(bytes);
    let mut left = 3;
    let step = reader.decode_framebuffer_update(&gray(), &mut input, &mut left);
    let screen = Screen { width: 64, height: 48 };
    assert_eq!(step, UpdateStep::Emit(VncEvent::SetResolution(screen)));
    assert_eq!(left, 1);
    assert_eq!(reader.frames.len(), 1);
    let step = reader.decode_framebuffer_update(&gray(), &mut input, &mut left);
    let images = vec![raw(rect(0, 0, 1, 1), vec![4]), raw(rect(0, 0, 1, 1), vec![5])];
    assert_eq!(step, UpdateStep::Finished(VncEvent::ImageEvent(images)));
}

#[test]
fn the_last_rectangle_ends_an_update() {
    let mut bytes = head(0, 0, 1, 1, 0);
    bytes.push(4);
    bytes.extend(head(0, 0, 0, 0, -224));
    bytes.push(99);
    let mut reader = Reader::new();
    let mut input = ByteReader::new(bytes);
    let mut left = 65535;
    let step = reader.decode_framebuffer_update(&gray(), &mut input, &mut left);
    let images = vec![raw(rect(0, 0, 1, 1), vec![4])];
    assert_eq!(step, UpdateStep::Finished(VncEvent::ImageEvent(images)));
    assert_eq!(left, 0);
    assert_eq!(input.left(), 1);
}

#[test]
fn other_codecs_decode_elsewhere() {
    for (code, codec) in [
        (7, ForeignCodec::Tight),
        (16, ForeignCodec::Zrle),
        (-239, ForeignCodec::Cursor),
    ] {
        let mut bytes = head(1, 2, 3, 4, code);
        bytes.push(77);
        let mut reader = Reader::new_in(5u8);
        let mut input = ByteReader::new(bytes);
        let mut left = 1;
        let step = reader.decode_framebuffer_update(&gray(), &mut input, &mut left);
        assert_eq!(step, UpdateStep::Delegate(codec, rect(1, 2, 3, 4)));
        assert_eq!(input.read_u8(), Ok(77));
        reader.accept(vec![VncImageEvent::Copy(rect(0, 0, 1, 1), rect(1, 1, 1, 1))]);
        let step = reader.decode_framebuffer_update(&gray(), &mut input, &mut left);
        let images = vec![VncImageEvent::Copy(rect(0, 0, 1, 1), rect(1, 1, 1, 1))];
        assert_eq!(step, UpdateStep::Finished(VncEvent::ImageEvent(images)));
        assert_eq!(reader.allocator, 5);
    }
}

#[test]
fn an_encoding_that_is_not_known_fails() {
    let mut reader = Reader::new();
    let mut bytes = head(0, 0, 1, 1, 5);
    bytes.push(1);
    let mut input = ByteReader::new(bytes);
    let mut left = 1;
    let step = reader.decode_framebuffer_update(&gray(), &mut input, &mut left);
    assert_eq!(step, UpdateStep::Failed(VncError::InvalidImageData));
    assert_eq!(input.left(), 1);
}

#[test]
fn wrong_tiles_fail() {
    let mut bytes = head(0, 0, 1, 1, 15);
    bytes.extend_from_slice(&[0, 0, 0, 0, 0x81, 1]);
    let mut reader = Reader::new();
    let mut input = ByteReader::new(bytes);
    let mut left = 1;
    let step = reader.decode_framebuffer_update(&gray(), &mut input, &mut left);
    assert_eq!(step, UpdateStep::Failed(VncError::InvalidImageData));
    assert_eq!(input.left(), 0);
}

#[test]
fn tiles_that_cannot_be_worked_out_are_a_fault() {
    let mut bytes = head(0, 0, 1, 1, 15);
    bytes.extend_from_slice(&[0, 0, 0, 0, 0x82, 1, 2, 5]);
    let mut reader = Reader::new();
    let mut input = ByteReader::new(bytes);
    let mut left = 1;
    let step = reader.decode_framebuffer_update(&gray(), &mut input, &mut left);
    assert_eq!(step, UpdateStep::Fault);
}

#[test]
fn each_update_hands_out_its_own_images() {
    let mut second = head(9, 9, 1, 1, 7);
    second.extend(head(5, 5, 1, 1, 0));
    second.push(3);
    let mut bytes = three_rects();
    bytes.extend_from_slice(&second);
    let mut reader = Reader::new();
    let mut input = ByteReader::new(bytes);
    let mut told = Vec::new();
    for message in [
        ServerMsg::FramebufferUpdate(3),
        ServerMsg::Bell,
        ServerMsg::FramebufferUpdate(2),
        ServerMsg::FramebufferUpdate(0),
    ] {
        let mut left = match reader.dispatch(message) {
            Dispatch::Update(count) => count,
            Dispatch::Emit(event) => {
                told.push(event);
                continue;
            }
        };
        loop {
            match reader.decode_framebuffer_update(&gray(), &mut input, &mut left) {
                UpdateStep::Finished(event) => {
                    told.push(event);
                    break;
                }
                UpdateStep::Delegate(ForeignCodec::Tight, place) => {
                    reader.accept(vec![raw(place, vec![1])]);
                }
                other => panic!("{:?}", other),
            }
        }
        assert!(reader.frames.is_empty());
    }
    let images = vec![raw(rect(9, 9, 1, 1), vec![1]), raw(rect(5, 5, 1, 1), vec![3])];
    assert_eq!(
        told,
        vec![
            VncEvent::ImageEvent(three_images()),
            VncEvent::Bell,
            VncEvent::ImageEvent(images),
            VncEvent::ImageEvent(Vec::new()),
        ]
    );
    assert_eq!(input.left(), 0);
}

#[test]
fn messages_of_the_server_are_dispatched() {
    let reader = Reader::new();
    assert_eq!(reader.allocator, Global);
    assert_eq!(reader.dispatch(ServerMsg::FramebufferUpdate(7)), Dispatch::Update(7));
    assert_eq!(reader.dispatch(ServerMsg::Bell), Dispatch::Emit(VncEvent::Bell));
    assert_eq!(
        reader.dispatch(ServerMsg::ServerCutText("cut".to_string())),
        Dispatch::Emit(VncEvent::Text("cut".to_string()))
    );
}
