//! What passes between a client and its user.
use crate::config::PixelFormat;
use vstd::prelude::*;

verus! {

/// A rectangle of the screen.
#[derive(Debug, Clone, Copy, PartialEq, Eq, Structural)]
pub struct Rect {
    pub x: u16,
    pub y: u16,
    pub width: u16,
    pub height: u16,
}

/// The size of the screen.
#[derive(Debug, Clone, Copy, PartialEq, Eq, Structural)]
pub struct Screen {
    pub width: u16,
    pub height: u16,
}

/// The pixels of a rectangle, row by row.
#[derive(Debug, PartialEq, Eq)]
pub struct ImageData {
    pub rect: Rect,
    pub data: Vec<u8>,
}

impl ImageData {
    pub fn new(rect: Rect, data: Vec<u8>) -> (image: ImageData)
        ensures
            image.rect == rect,
            image.data == data,
    {
        ImageData { rect, data }
    }
}

/// A change of the picture on the screen.
#[derive(Debug, PartialEq, Eq)]
pub enum VncImageEvent {
    /// New pixels for a rectangle.
    RawImage(ImageData),
    /// The first rectangle gets the pixels that the second one shows.
    Copy(Rect, Rect),
}

/// A [`VncImageEvent`] with its pixels as a sequence of bytes.
pub enum ImageEventView {
    RawImage(Rect, Seq<u8>),
    Copy(Rect, Rect),
}

impl View for VncImageEvent {
    type V = ImageEventView;

    open spec fn view(&self) -> ImageEventView {
        match *self {
            VncImageEvent::RawImage(image) => ImageEventView::RawImage(image.rect, image.data@),
            VncImageEvent::Copy(to, from) => ImageEventView::Copy(to, from),
        }
    }
}

/// What each of a list of events shows.
pub open spec fn image_views(events: Seq<VncImageEvent>) -> Seq<ImageEventView> {
    events.map_values(|event: VncImageEvent| event@)
}

/// What a client tells its user.
#[derive(Debug, PartialEq, Eq)]
pub enum VncEvent {
    /// The screen has this size from now on.
    SetResolution(Screen),
    /// The server sends its pixels in this format.
    SetPixelFormat(PixelFormat),
    /// The picture has changed, in this order.
    ImageEvent(Vec<VncImageEvent>),
    /// The pointer looks like this from now on.
    SetCursor(ImageData),
    /// The server rings.
    Bell,
    /// The server has a new text in its clipboard.
    Text(String),
    /// The session has ended, for the reason given.
    Error(String),
}

/// A [`VncEvent`] with what it holds as sequences.
pub enum EventView {
    SetResolution(Screen),
    SetPixelFormat(PixelFormat),
    ImageEvent(Seq<ImageEventView>),
    SetCursor(Rect, Seq<u8>),
    Bell,
    Text(Seq<char>),
    Error(Seq<char>),
}

impl View for VncEvent {
    type V = EventView;

    open spec fn view(&self) -> EventView {
        match *self {
            VncEvent::SetResolution(screen) => EventView::SetResolution(screen),
            VncEvent::SetPixelFormat(format) => EventView::SetPixelFormat(format),
            VncEvent::ImageEvent(events) => EventView::ImageEvent(image_views(events@)),
            VncEvent::SetCursor(image) => EventView::SetCursor(image.rect, image.data@),
            VncEvent::Bell => EventView::Bell,
            VncEvent::Text(text) => EventView::Text(text@),
            VncEvent::Error(text) => EventView::Error(text@),
        }
    }
}

/// What a user tells the server through a client.
#[derive(Debug, PartialEq, Eq)]
pub enum ClientEvent {
    /// Ask for the changes since the last picture.
    Refresh,
    /// A key went down or up.
    Key { keycode: u32, down: bool },
    /// The pointer moved, or one of its buttons went down or up.
    Pointer { x: u16, y: u16, buttons: u8 },
    /// The user has a new text in the clipboard.
    CopyText(String),
}

/// A list of images is shown image by image, each at its place, with its pixels.
pub proof fn law_images_shown(images: Seq<VncImageEvent>, i: int)
    requires
        0 <= i < images.len(),
    ensures
        image_views(images).len() == images.len(),
        match images[i] {
            VncImageEvent::RawImage(image) => image_views(images)[i] == ImageEventView::RawImage(
                image.rect,
                image.data@,
            ),
            VncImageEvent::Copy(to, from) => image_views(images)[i] == ImageEventView::Copy(
                to,
                from,
            ),
        },
{
}

} // verus!
