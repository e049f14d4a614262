//! How a message from the server becomes events for the user.
use crate::codec::raw;
use crate::codec::raw::raw_size;
use crate::codec::trle;
use crate::codec::trle_format::decoded;
use crate::codec::trle_laws::law_more_input;
use crate::config::{PixelFormat, VncEncoding};
use crate::error::{ErrorView, VncError};
use crate::event::{image_views, EventView, ImageEventView, Rect, Screen, VncEvent, VncImageEvent};
use crate::input::{be_u16, be_u32, join_u16, join_u32, ByteReader, Stop};
use vstd::prelude::*;

verus! {

/// The head of a rectangle: where it is, and how it is encoded if its encoding is
/// one that there is.
#[derive(Debug, Clone, Copy, PartialEq, Eq, Structural)]
pub struct ImageRect {
    pub rect: Rect,
    pub encoding: Option<VncEncoding>,
}

/// The head that twelve bytes stand for.
pub open spec fn image_rect(bytes: Seq<u8>) -> ImageRect {
    ImageRect {
        rect: Rect {
            x: be_u16(bytes) as u16,
            y: be_u16(bytes.skip(2)) as u16,
            width: be_u16(bytes.skip(4)) as u16,
            height: be_u16(bytes.skip(6)) as u16,
        },
        encoding: VncEncoding::numbered(be_u32(bytes.skip(8)) as u32),
    }
}

impl From<[u8; 12]> for ImageRect {
    fn from(buf: [u8; 12]) -> (head: ImageRect) {
        ImageRect {
            rect: Rect {
                x: join_u16(buf[0], buf[1]),
                y: join_u16(buf[2], buf[3]),
                width: join_u16(buf[4], buf[5]),
                height: join_u16(buf[6], buf[7]),
            },
            encoding: VncEncoding::from_number(join_u32(buf[8], buf[9], buf[10], buf[11])),
        }
    }
}

impl vstd::std_specs::convert::FromSpecImpl<[u8; 12]> for ImageRect {
    open spec fn obeys_from_spec() -> bool {
        true
    }

    open spec fn from_spec(buf: [u8; 12]) -> ImageRect {
        image_rect(buf@)
    }
}

impl ImageRect {
    /// Reads the head of a rectangle. All of the input is used up if it ends before the
    /// head does.
    pub fn read(reader: &mut ByteReader) -> (head: Result<ImageRect, Stop>)
        ensures
            final(reader).same_buffer(old(reader)),
            old(reader).remaining().len() < 12 ==> head == Err::<ImageRect, Stop>(Stop::Short)
                && final(reader).remaining() == Seq::<u8>::empty(),
            old(reader).remaining().len() >= 12 ==> head == Ok::<ImageRect, Stop>(
                image_rect(old(reader).remaining()),
            ) && final(reader).remaining() == old(reader).remaining().skip(12),
    {
        match reader.read_exact(12) {
            Ok(b) => {
                let buf = [b[0], b[1], b[2], b[3], b[4], b[5], b[6], b[7], b[8], b[9], b[10], b[11]];
                Ok(ImageRect::from(buf))
            },
            Err(stop) => Err(stop),
        }
    }
}

/// An encoding whose rectangles are decoded by somebody else.
#[derive(Debug, Clone, Copy, PartialEq, Eq, Structural)]
pub enum ForeignCodec {
    Tight,
    Zrle,
    Cursor,
}

/// What one rectangle comes to, with the bytes behind it.
pub enum RectView {
    /// These images are added to the picture.
    Images(Seq<ImageEventView>, Seq<u8>),
    /// The user is told this at once.
    Emit(EventView, Seq<u8>),
    /// Somebody else decodes what follows.
    Delegate(ForeignCodec, Rect, Seq<u8>),
    /// No more rectangles follow.
    Last(Seq<u8>),
    /// The input ends before the rectangle does, behind these images.
    Short(Seq<ImageEventView>),
    /// Decoding fails, behind these images.
    Failed(ErrorView, Seq<ImageEventView>, Seq<u8>),
    /// Decoding cannot go on, behind these images.
    Fault(Seq<ImageEventView>),
}

/// The rectangle at the start of the input.
pub open spec fn one_rect(format: PixelFormat, input: Seq<u8>) -> RectView {
    if input.len() < 12 {
        RectView::Short(Seq::empty())
    } else {
        let head = image_rect(input);
        let rect = head.rect;
        let body = input.skip(12);
        match head.encoding {
            Some(VncEncoding::Raw) => {
                let size = raw_size(format, rect);
                if body.len() < size {
                    RectView::Short(Seq::empty())
                } else {
                    RectView::Images(
                        seq![ImageEventView::RawImage(rect, body.take(size))],
                        body.skip(size),
                    )
                }
            },
            Some(VncEncoding::CopyRect) => if body.len() < 4 {
                RectView::Short(Seq::empty())
            } else {
                let source = Rect {
                    x: be_u16(body) as u16,
                    y: be_u16(body.skip(2)) as u16,
                    ..rect
                };
                RectView::Images(seq![ImageEventView::Copy(rect, source)], body.skip(4))
            },
            Some(VncEncoding::Trle) => {
                let image = decoded(format, rect, body);
                match image.end {
                    Ok(_) => RectView::Images(image.frames, image.rest),
                    Err(Stop::Short) => RectView::Short(image.frames),
                    Err(Stop::Invalid) => RectView::Failed(
                        ErrorView::InvalidImageData,
                        image.frames,
                        image.rest,
                    ),
                    Err(Stop::Fault) => RectView::Fault(image.frames),
                }
            },
            Some(VncEncoding::Tight) => RectView::Delegate(ForeignCodec::Tight, rect, body),
            Some(VncEncoding::Zrle) => RectView::Delegate(ForeignCodec::Zrle, rect, body),
            Some(VncEncoding::CursorPseudo) => RectView::Delegate(ForeignCodec::Cursor, rect, body),
            Some(VncEncoding::DesktopSizePseudo) => RectView::Emit(
                EventView::SetResolution(Screen { width: rect.width, height: rect.height }),
                body,
            ),
            Some(VncEncoding::LastRectPseudo) => RectView::Last(body),
            None => RectView::Failed(ErrorView::InvalidImageData, Seq::empty(), body),
        }
    }
}

/// Where an update has got to, and what is to be done next.
pub struct UpdateRun {
    /// The images that wait to be handed to the user.
    pub frames: Seq<ImageEventView>,
    /// How many rectangles are still to come.
    pub left: nat,
    /// The input that has not been used.
    pub rest: Seq<u8>,
    pub step: UpdateStepView,
}

/// An [`UpdateStep`] with what it holds as sequences.
pub enum UpdateStepView {
    Finished(EventView),
    Emit(EventView),
    Delegate(ForeignCodec, Rect),
    NeedMore,
    Failed(ErrorView),
    Fault,
}

/// What an update comes to with the input that there is. All images are handed to
/// the user together, when the last rectangle has been decoded. A rectangle that is not
/// complete waits for more input; if the input has `ended`, it fails, and the images that
/// it had come to are kept.
pub open spec fn update_run(
    format: PixelFormat,
    frames: Seq<ImageEventView>,
    left: nat,
    input: Seq<u8>,
    ended: bool,
) -> UpdateRun
    decreases left,
{
    let finished = UpdateStepView::Finished(EventView::ImageEvent(frames));
    if left == 0 {
        UpdateRun { frames: Seq::empty(), left: 0, rest: input, step: finished }
    } else {
        let others = (left - 1) as nat;
        match one_rect(format, input) {
            RectView::Images(images, rest) => update_run(
                format,
                frames + images,
                others,
                rest,
                ended,
            ),
            RectView::Emit(event, rest) => UpdateRun {
                frames,
                left: others,
                rest,
                step: UpdateStepView::Emit(event),
            },
            RectView::Delegate(codec, rect, rest) => UpdateRun {
                frames,
                left: others,
                rest,
                step: UpdateStepView::Delegate(codec, rect),
            },
            RectView::Last(rest) => UpdateRun {
                frames: Seq::empty(),
                left: 0,
                rest,
                step: finished,
            },
            RectView::Short(images) => if ended {
                UpdateRun {
                    frames: frames + images,
                    left,
                    rest: Seq::empty(),
                    step: UpdateStepView::Failed(ErrorView::UnexpectedEof),
                }
            } else {
                UpdateRun { frames, left, rest: input, step: UpdateStepView::NeedMore }
            },
            RectView::Failed(error, images, rest) => UpdateRun {
                frames: frames + images,
                left,
                rest,
                step: UpdateStepView::Failed(error),
            },
            RectView::Fault(images) => UpdateRun {
                frames: frames + images,
                left,
                rest: input,
                step: UpdateStepView::Fault,
            },
        }
    }
}

/// What is to be done before an update can go on.
#[derive(Debug, PartialEq, Eq)]
pub enum UpdateStep {
    /// The update is complete: the user is told this.
    Finished(VncEvent),
    /// The user is told this, and the update goes on.
    Emit(VncEvent),
    /// The rectangle at the start of the input is to be decoded. Its images are
    /// handed to [`Reader::accept`], and the update goes on.
    Delegate(ForeignCodec, Rect),
    /// More input has to arrive before the next rectangle is complete.
    NeedMore,
    /// The update cannot be decoded.
    Failed(VncError),
    /// The update holds image data that cannot be worked out.
    Fault,
}

impl View for UpdateStep {
    type V = UpdateStepView;

    open spec fn view(&self) -> UpdateStepView {
        match *self {
            UpdateStep::Finished(event) => UpdateStepView::Finished(event@),
            UpdateStep::Emit(event) => UpdateStepView::Emit(event@),
            UpdateStep::Delegate(codec, rect) => UpdateStepView::Delegate(codec, rect),
            UpdateStep::NeedMore => UpdateStepView::NeedMore,
            UpdateStep::Failed(error) => UpdateStepView::Failed(error@),
            UpdateStep::Fault => UpdateStepView::Fault,
        }
    }
}

/// A message from the server.
#[derive(Debug, PartialEq, Eq)]
pub enum ServerMsg {
    /// So many rectangles of the screen follow.
    FramebufferUpdate(u16),
    Bell,
    ServerCutText(String),
}

/// What is to be done about a message from the server.
#[derive(Debug, PartialEq, Eq)]
pub enum Dispatch {
    /// So many rectangles are to be decoded.
    Update(u16),
    /// The user is told this.
    Emit(VncEvent),
}

/// The memory that comes with the program.
#[derive(Debug, Clone, Copy, PartialEq, Eq, Structural)]
pub struct Global;

/// What reads the messages of a server: the decoders, and the images that wait to
/// be handed to the user. `A` is where memory is taken from.
#[derive(Debug)]
pub struct Reader<A> {
    pub allocator: A,
    pub frames: Vec<VncImageEvent>,
    pub raw_decoder: raw::Decoder,
    pub trle_decoder: trle::Decoder,
}

impl Reader<Global> {
    pub fn new() -> (reader: Reader<Global>)
        ensures
            reader.allocator == Global,
            reader.waiting() == Seq::<ImageEventView>::empty(),
    {
        Reader::new_in(Global)
    }
}

/// What became of a rectangle.
enum RectStep {
    Images,
    Emit(VncEvent),
    Delegate(ForeignCodec, Rect),
    Last,
    Short,
    Failed(VncError),
    Fault,
}

impl<A> Reader<A> {
    /// The images that wait to be handed to the user.
    pub open spec fn waiting(&self) -> Seq<ImageEventView> {
        image_views(self.frames@)
    }

    pub fn new_in(allocator: A) -> (reader: Reader<A>)
        ensures
            reader.allocator == allocator,
            reader.waiting() == Seq::<ImageEventView>::empty(),
    {
        let reader = Reader {
            allocator,
            frames: Vec::new(),
            raw_decoder: raw::Decoder::new(),
            trle_decoder: trle::Decoder::new(),
        };
        assert(reader.waiting() =~= Seq::<ImageEventView>::empty());
        reader
    }

    /// Decides what is to be done about a message from the server.
    pub fn dispatch(&self, message: ServerMsg) -> (next: Dispatch)
        ensures
            match message {
                ServerMsg::FramebufferUpdate(count) => next == Dispatch::Update(count),
                ServerMsg::Bell => next == Dispatch::Emit(VncEvent::Bell),
                ServerMsg::ServerCutText(text) => next == Dispatch::Emit(VncEvent::Text(text)),
            },
    {
        match message {
            ServerMsg::FramebufferUpdate(count) => Dispatch::Update(count),
            ServerMsg::Bell => Dispatch::Emit(VncEvent::Bell),
            ServerMsg::ServerCutText(text) => Dispatch::Emit(VncEvent::Text(text)),
        }
    }

    /// Takes images that somebody else has decoded.
    pub fn accept(&mut self, images: Vec<VncImageEvent>)
        ensures
            final(self).waiting() == old(self).waiting() + image_views(images@),
            final(self).allocator == old(self).allocator,
    {
        let ghost before = self.frames@;
        let mut images = images;
        let ghost added = images@;
        self.frames.append(&mut images);
        assert(self.waiting() =~= image_views(before) + image_views(added));
    }

    /// Decodes one rectangle.
    fn read_rect(&mut self, format: &PixelFormat, input: &mut ByteReader) -> (step: RectStep)
        ensures
            final(input).same_buffer(old(input)),
            final(self).allocator == old(self).allocator,
            match one_rect(*format, old(input).remaining()) {
                RectView::Images(images, rest) => {
                    &&& step is Images
                    &&& final(self).waiting() == old(self).waiting() + images
                    &&& final(input).remaining() == rest
                },
                RectView::Emit(event, rest) => {
                    &&& step is Emit
                    &&& step->Emit_0@ == event
                    &&& final(self).waiting() == old(self).waiting()
                    &&& final(input).remaining() == rest
                },
                RectView::Delegate(codec, rect, rest) => {
                    &&& step == RectStep::Delegate(codec, rect)
                    &&& final(self).waiting() == old(self).waiting()
                    &&& final(input).remaining() == rest
                },
                RectView::Last(rest) => {
                    &&& step is Last
                    &&& final(self).waiting() == old(self).waiting()
                    &&& final(input).remaining() == rest
                },
                RectView::Short(images) => {
                    &&& step is Short
                    &&& old(self).frames@.is_prefix_of(final(self).frames@)
                    &&& final(self).waiting() == old(self).waiting() + images
                    &&& final(input).remaining() == Seq::<u8>::empty()
                },
                RectView::Failed(error, images, rest) => {
                    &&& step is Failed
                    &&& step->Failed_0@ == error
                    &&& final(self).waiting() == old(self).waiting() + images
                    &&& final(input).remaining() == rest
                },
                RectView::Fault(images) => {
                    &&& step is Fault
                    &&& final(self).waiting() == old(self).waiting() + images
                    &&& final(input).offset() == old(input).offset()
                },
            },
    {
        let mark: usize = input.position();
        assert(self.waiting() =~= self.waiting() + Seq::empty());
        assert(self.frames@.is_prefix_of(self.frames@));
        let head = match ImageRect::read(input) {
            Ok(head) => head,
            Err(_) => {
                return RectStep::Short;
            },
        };
        let rect = head.rect;
        match head.encoding {
            Some(VncEncoding::Raw) => match self.raw_decoder.decode(format, &rect, input) {
                Ok(image) => {
                    let ghost view = ImageEventView::RawImage(rect, image.data@);
                    self.frames.push(VncImageEvent::RawImage(image));
                    assert(self.waiting() =~= old(self).waiting() + seq![view]);
                    RectStep::Images
                },
                Err(_) => RectStep::Short,
            },
            Some(VncEncoding::CopyRect) => {
                let ghost body = input.remaining();
                match (input.read_u16(), input.read_u16()) {
                    (Ok(x), Ok(y)) => {
                        let source = Rect { x, y, width: rect.width, height: rect.height };
                        self.frames.push(VncImageEvent::Copy(rect, source));
                        assert(self.waiting() =~= old(self).waiting()
                            + seq![ImageEventView::Copy(rect, source)]);
                        assert(input.remaining() =~= body.skip(4));
                        RectStep::Images
                    },
                    _ => RectStep::Short,
                }
            },
            Some(VncEncoding::Trle) => {
                match self.trle_decoder.try_decode(format, &rect, input, &mut self.frames) {
                    Ok(()) => RectStep::Images,
                    Err(Stop::Short) => RectStep::Short,
                    Err(Stop::Invalid) => RectStep::Failed(VncError::InvalidImageData),
                    Err(Stop::Fault) => {
                        input.rewind(mark);
                        RectStep::Fault
                    },
                }
            },
            Some(VncEncoding::Tight) => RectStep::Delegate(ForeignCodec::Tight, rect),
            Some(VncEncoding::Zrle) => RectStep::Delegate(ForeignCodec::Zrle, rect),
            Some(VncEncoding::CursorPseudo) => RectStep::Delegate(ForeignCodec::Cursor, rect),
            Some(VncEncoding::DesktopSizePseudo) => RectStep::Emit(
                VncEvent::SetResolution(Screen { width: rect.width, height: rect.height }),
            ),
            Some(VncEncoding::LastRectPseudo) => RectStep::Last,
            None => RectStep::Failed(VncError::InvalidImageData),
        }
    }

    /// Goes on with an update until it is complete, or something else has to be
    /// done first. `left` counts the rectangles that are still to come.
    ///
    /// Where the input ends within a rectangle, that rectangle is decoded anew when more
    /// has arrived. If no more will, this is an error; all of the input is used up then,
    /// and the images that the rectangle had come to wait with the others.
    pub fn decode_framebuffer_update(
        &mut self,
        format: &PixelFormat,
        input: &mut ByteReader,
        left: &mut u16,
    ) -> (step: UpdateStep)
        ensures
            final(input).same_buffer(old(input)),
            final(self).allocator == old(self).allocator,
            ({
                let run = update_run(
                    *format,
                    old(self).waiting(),
                    *old(left) as nat,
                    old(input).remaining(),
                    old(input).ended(),
                );
                &&& step@ == run.step
                &&& final(self).waiting() == run.frames
                &&& *final(left) == run.left
                &&& final(input).remaining() == run.rest
            }),
    {
        while *left > 0
            invariant
                input.same_buffer(old(input)),
                self.allocator == old(self).allocator,
                update_run(
                    *format,
                    self.waiting(),
                    *left as nat,
                    input.remaining(),
                    input.ended(),
                ) == update_run(
                    *format,
                    old(self).waiting(),
                    *old(left) as nat,
                    old(input).remaining(),
                    old(input).ended(),
                ),
            decreases *left,
        {
            let mark: usize = input.position();
            let count: usize = self.frames.len();
            let ghost frames = self.frames@;
            match self.read_rect(format, input) {
                RectStep::Images => {
                    *left = *left - 1;
                },
                RectStep::Emit(event) => {
                    *left = *left - 1;
                    return UpdateStep::Emit(event);
                },
                RectStep::Delegate(codec, rect) => {
                    *left = *left - 1;
                    return UpdateStep::Delegate(codec, rect);
                },
                RectStep::Last => {
                    *left = 0;
                    let images = self.take_frames();
                    return UpdateStep::Finished(VncEvent::ImageEvent(images));
                },
                RectStep::Short => {
                    if input.has_ended() {
                        return UpdateStep::Failed(VncError::UnexpectedEof);
                    }
                    input.rewind(mark);
                    self.frames.truncate(count);
                    assert(self.frames@ =~= frames);
                    return UpdateStep::NeedMore;
                },
                RectStep::Failed(error) => {
                    return UpdateStep::Failed(error);
                },
                RectStep::Fault => {
                    return UpdateStep::Fault;
                },
            }
        }
        let images = self.take_frames();
        UpdateStep::Finished(VncEvent::ImageEvent(images))
    }

    /// Hands out the images that wait.
    fn take_frames(&mut self) -> (images: Vec<VncImageEvent>)
        ensures
            image_views(images@) == old(self).waiting(),
            final(self).waiting() == Seq::<ImageEventView>::empty(),
            final(self).allocator == old(self).allocator,
    {
        let images = self.frames.split_off(0);
        assert(images@ =~= old(self).frames@);
        assert(self.waiting() =~= Seq::<ImageEventView>::empty());
        images
    }
}

/// Whether `longer` is what a rectangle turns into if `more` comes behind the
/// input. Only where the input was too short can it be anything else.
pub(crate) open spec fn rect_carries_over(view: RectView, longer: RectView, more: Seq<u8>) -> bool {
    match view {
        RectView::Images(images, rest) => longer == RectView::Images(images, rest + more),
        RectView::Emit(event, rest) => longer == RectView::Emit(event, rest + more),
        RectView::Delegate(codec, rect, rest) => longer == RectView::Delegate(
            codec,
            rect,
            rest + more,
        ),
        RectView::Last(rest) => longer == RectView::Last(rest + more),
        RectView::Short(_) => true,
        RectView::Failed(error, images, rest) => longer == RectView::Failed(
            error,
            images,
            rest + more,
        ),
        RectView::Fault(images) => longer == RectView::Fault(images),
    }
}

#[verifier::spinoff_prover]
#[verifier::rlimit(40)]
pub(crate) proof fn lemma_rect_more(format: PixelFormat, input: Seq<u8>, more: Seq<u8>)
    ensures
        rect_carries_over(one_rect(format, input), one_rect(format, input + more), more),
{
    if input.len() >= 12 {
        let head = image_rect(input);
        let body = input.skip(12);
        assert(image_rect(input + more) == head);
        assert((input + more).skip(12) =~= body + more);
        match head.encoding {
            Some(VncEncoding::Raw) => {
                let size = raw_size(format, head.rect);
                if body.len() >= size {
                    lemma_raw_size(format, head.rect);
                    assert((body + more).take(size) =~= body.take(size));
                    assert((body + more).skip(size) =~= body.skip(size) + more);
                }
            },
            Some(VncEncoding::CopyRect) => {
                if body.len() >= 4 {
                    assert((body + more).skip(4) =~= body.skip(4) + more);
                }
            },
            Some(VncEncoding::Trle) => law_more_input(format, head.rect, body, more),
            _ => {},
        }
    }
}

proof fn lemma_raw_size(format: PixelFormat, rect: Rect)
    ensures
        0 <= raw_size(format, rect),
{
    let bpp: int = (format.bits_per_pixel / 8) as int;
    assert(0 <= bpp * rect.height) by (nonlinear_arith)
        requires
            0 <= bpp,
    ;
    assert(0 <= bpp * rect.height * rect.width) by (nonlinear_arith)
        requires
            0 <= bpp * rect.height,
    ;
}

/// It makes no difference in how many pieces an update arrives: to go on when more
/// has arrived comes to the same as to have had all of it from the start. What
/// could be done before does not change.
pub proof fn law_update_resumes(
    format: PixelFormat,
    frames: Seq<ImageEventView>,
    left: nat,
    input: Seq<u8>,
    more: Seq<u8>,
    ended: bool,
)
    ensures
        ({
            let run = update_run(format, frames, left, input, false);
            let whole = update_run(format, frames, left, input + more, ended);
            &&& run.step is NeedMore ==> whole == update_run(
                format,
                run.frames,
                run.left,
                run.rest + more,
                ended,
            )
            &&& !(run.step is NeedMore) ==> whole == (UpdateRun { rest: run.rest + more, ..run })
        }),
    decreases left,
{
    if left > 0 {
        lemma_rect_more(format, input, more);
        match one_rect(format, input) {
            RectView::Images(images, rest) => law_update_resumes(
                format,
                frames + images,
                (left - 1) as nat,
                rest,
                more,
                ended,
            ),
            _ => {},
        }
    }
}

/// No image is lost: those that wait, and those that an update adds behind them,
/// are handed to the user when it is complete, and wait until then.
pub proof fn law_update_keeps_images(
    format: PixelFormat,
    frames: Seq<ImageEventView>,
    left: nat,
    input: Seq<u8>,
    ended: bool,
)
    ensures
        ({
            let run = update_run(format, frames, left, input, ended);
            match run.step {
                UpdateStepView::Finished(event) => {
                    &&& event matches EventView::ImageEvent(images) && frames.is_prefix_of(images)
                    &&& run.frames == Seq::<ImageEventView>::empty()
                },
                _ => frames.is_prefix_of(run.frames),
            }
        }),
    decreases left,
{
    if left > 0 {
        match one_rect(format, input) {
            RectView::Images(images, rest) => law_update_keeps_images(
                format,
                frames + images,
                (left - 1) as nat,
                rest,
                ended,
            ),
            _ => {},
        }
    }
}

/// An update comes to its end: each time that it hands over to somebody else there
/// are fewer rectangles to come, and none when it is complete.
pub proof fn law_update_ends(
    format: PixelFormat,
    frames: Seq<ImageEventView>,
    left: nat,
    input: Seq<u8>,
    ended: bool,
)
    ensures
        ({
            let run = update_run(format, frames, left, input, ended);
            &&& run.left <= left
            &&& run.step is Emit || run.step is Delegate ==> run.left < left
            &&& run.step is Finished ==> run.left == 0
        }),
    decreases left,
{
    if left > 0 {
        match one_rect(format, input) {
            RectView::Images(images, rest) => law_update_ends(
                format,
                frames + images,
                (left - 1) as nat,
                rest,
                ended,
            ),
            _ => {},
        }
    }
}

} // verus!
