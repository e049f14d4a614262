//! How a client that has been let in gets a picture of the server's desktop.
use crate::client::connector::{ClientOptions, Handshake, HandshakeEvent, HandshakeOptions};
use crate::client::connector_laws::{actions, can_see, law_started_only_if_let_in};
use crate::config::{PixelFormat, VncEncoding};
use crate::error::{ErrorView, VncError};
use crate::event::{EventView, Rect, Screen, VncEvent};
use crate::input::{be_u16, be_u32, ByteReader, Parse, Stop};
use crate::input_laws::{law_u16_written, law_u32_written, written_u16, written_u32};
use vstd::prelude::*;
use vstd::utf8::{decode_utf8, valid_utf8};

verus! {

/// The text that bytes are read as if what is not UTF-8 among them is replaced.
pub uninterp spec fn lossy_text(bytes: Seq<u8>) -> Seq<char>;

/// Calls `String::from_utf8_lossy`. Bytes that are UTF-8 are taken to give the text
/// that they encode; how other bytes are replaced is only given a name.
#[verifier::external_body]
fn text_from_utf8_lossy(bytes: &[u8]) -> (text: String)
    ensures
        text@ == lossy_text(bytes@),
        valid_utf8(bytes@) ==> text@ == decode_utf8(bytes@),
{
    String::from_utf8_lossy(bytes).into_owned()
}

/// A message to the server.
#[derive(Debug, PartialEq, Eq)]
pub enum ClientMsg {
    /// Send pixels in this format.
    SetPixelFormat(PixelFormat),
    /// Use these encodings, the best first.
    SetEncodings(Vec<VncEncoding>),
    /// Send this part of the picture: all of it, or only what has changed if the
    /// flag is not zero.
    FramebufferUpdateRequest(Rect, u8),
}

/// A client that runs.
#[derive(Debug, PartialEq, Eq)]
pub struct ClientStart {
    /// What the server calls its desktop.
    pub name: String,
    pub screen: Screen,
    /// The format in which the server sends pixels.
    pub pixel_format: PixelFormat,
}

/// How far the start of a client has got.
#[derive(Debug)]
pub enum ClientInit {
    /// The server is being told whether it may leave other clients connected.
    SendShared(ClientOptions),
    /// The size of the screen is being read.
    AwaitScreen(ClientOptions),
    /// The user is being told of the size of the screen.
    TellScreen(ClientOptions, Screen),
    /// The pixel format of the server is being read.
    AwaitFormat(ClientOptions, Screen),
    /// The server or the user is being told of the pixel format.
    TellFormat(Vec<VncEncoding>, Screen, PixelFormat),
    /// The name of the desktop is being read.
    AwaitName(Vec<VncEncoding>, Screen, PixelFormat),
    /// The server is being told of the encodings.
    SendEncodings(Vec<u8>, Screen, PixelFormat),
    /// The first picture is being asked for.
    SendRequest(Vec<u8>, Screen, PixelFormat),
    /// The client runs, or it has failed.
    Over,
}

/// What became of an action of the start of a client.
#[derive(Debug)]
pub enum InitEvent {
    /// What was to be written, or told to the user, has been.
    Told,
    /// The screen has this size.
    Screen(Screen),
    /// The server has this pixel format.
    Format(PixelFormat),
    /// The desktop has this name.
    Name(Vec<u8>),
    /// The action failed.
    Failed(VncError),
}

/// What to do next.
#[derive(Debug, PartialEq, Eq)]
pub enum InitAction {
    /// Write the flag that lets the server leave other clients connected.
    WriteShared(u8),
    /// Read the size of the screen.
    ReadScreen,
    /// Read the pixel format of the server.
    ReadFormat,
    /// Read the name of the desktop.
    ReadName,
    /// Write this message.
    Write(ClientMsg),
    /// Tell the user.
    Emit(VncEvent),
    /// The client runs.
    Run(ClientStart),
    /// Give up.
    Fail(VncError),
}

/// An [`InitAction`] with what it holds as sequences.
pub enum InitActionView {
    WriteShared(u8),
    ReadScreen,
    ReadFormat,
    ReadName,
    Write(ClientMsg),
    Emit(EventView),
    Run { name: Seq<char>, screen: Screen, pixel_format: PixelFormat },
    Fail(ErrorView),
}

impl View for InitAction {
    type V = InitActionView;

    open spec fn view(&self) -> InitActionView {
        match *self {
            InitAction::WriteShared(flag) => InitActionView::WriteShared(flag),
            InitAction::ReadScreen => InitActionView::ReadScreen,
            InitAction::ReadFormat => InitActionView::ReadFormat,
            InitAction::ReadName => InitActionView::ReadName,
            InitAction::Write(message) => InitActionView::Write(message),
            InitAction::Emit(event) => InitActionView::Emit(event@),
            InitAction::Run(start) => InitActionView::Run {
                name: start.name@,
                screen: start.screen,
                pixel_format: start.pixel_format,
            },
            InitAction::Fail(error) => InitActionView::Fail(error@),
        }
    }
}

/// Whether this can be what became of the action that was asked for last.
pub open spec fn init_expects(init: ClientInit, event: InitEvent) -> bool {
    match (init, event) {
        (ClientInit::Over, _) => false,
        (_, InitEvent::Failed(_)) => true,
        (ClientInit::SendShared(_), InitEvent::Told) => true,
        (ClientInit::AwaitScreen(_), InitEvent::Screen(_)) => true,
        (ClientInit::TellScreen(_, _), InitEvent::Told) => true,
        (ClientInit::AwaitFormat(_, _), InitEvent::Format(_)) => true,
        (ClientInit::TellFormat(_, _, _), InitEvent::Told) => true,
        (ClientInit::AwaitName(_, _, _), InitEvent::Name(_)) => true,
        (ClientInit::SendEncodings(_, _, _), InitEvent::Told) => true,
        (ClientInit::SendRequest(_, _, _), InitEvent::Told) => true,
        _ => false,
    }
}

/// The format that pixels are sent in: the one that was configured, or that of the
/// server.
pub open spec fn settled_format(wanted: Option<PixelFormat>, server: PixelFormat) -> PixelFormat {
    match wanted {
        Some(format) => format,
        None => server,
    }
}

/// The part of the picture that is all of it.
pub open spec fn whole_screen(screen: Screen) -> Rect {
    Rect { x: 0, y: 0, width: screen.width, height: screen.height }
}

/// How the start of a client goes on. A pixel format that was configured is written
/// to the server; if there is none, the user is told of that of the server.
pub open spec fn init_next(init: ClientInit, event: InitEvent) -> (ClientInit, InitActionView) {
    match (init, event) {
        (_, InitEvent::Failed(error)) => (ClientInit::Over, InitActionView::Fail(error@)),
        (ClientInit::SendShared(options), InitEvent::Told) => (
            ClientInit::AwaitScreen(options),
            InitActionView::ReadScreen,
        ),
        (ClientInit::AwaitScreen(options), InitEvent::Screen(screen)) => (
            ClientInit::TellScreen(options, screen),
            InitActionView::Emit(EventView::SetResolution(screen)),
        ),
        (ClientInit::TellScreen(options, screen), InitEvent::Told) => (
            ClientInit::AwaitFormat(options, screen),
            InitActionView::ReadFormat,
        ),
        (ClientInit::AwaitFormat(options, screen), InitEvent::Format(server)) => (
            ClientInit::TellFormat(
                options.encodings,
                screen,
                settled_format(options.pixel_format, server),
            ),
            match options.pixel_format {
                Some(format) => InitActionView::Write(ClientMsg::SetPixelFormat(format)),
                None => InitActionView::Emit(EventView::SetPixelFormat(server)),
            },
        ),
        (ClientInit::TellFormat(encodings, screen, format), InitEvent::Told) => (
            ClientInit::AwaitName(encodings, screen, format),
            InitActionView::ReadName,
        ),
        (ClientInit::AwaitName(encodings, screen, format), InitEvent::Name(name)) => (
            ClientInit::SendEncodings(name, screen, format),
            InitActionView::Write(ClientMsg::SetEncodings(encodings)),
        ),
        (ClientInit::SendEncodings(name, screen, format), InitEvent::Told) => (
            ClientInit::SendRequest(name, screen, format),
            InitActionView::Write(
                ClientMsg::FramebufferUpdateRequest(whole_screen(screen), 0),
            ),
        ),
        (ClientInit::SendRequest(name, screen, format), InitEvent::Told) => (
            ClientInit::Over,
            InitActionView::Run { name: lossy_text(name@), screen, pixel_format: format },
        ),
        _ => arbitrary(),
    }
}

impl ClientInit {
    /// Begins to start a client. The first thing to do is to tell the server whether
    /// it may leave other clients connected.
    pub fn begin(options: ClientOptions) -> (next: (ClientInit, InitAction))
        ensures
            next.0 == ClientInit::SendShared(options),
            next.1@ == InitActionView::WriteShared(
                if options.allow_shared {
                    1
                } else {
                    0
                },
            ),
    {
        let flag: u8 = if options.allow_shared {
            1
        } else {
            0
        };
        (ClientInit::SendShared(options), InitAction::WriteShared(flag))
    }

    /// Goes on: takes what became of the last action, and says what to do next.
    pub fn step(self, event: InitEvent) -> (next: (ClientInit, InitAction))
        requires
            init_expects(self, event),
        ensures
            (next.0, next.1@) == init_next(self, event),
            (self matches ClientInit::SendRequest(bytes, _, _) && event is Told && valid_utf8(
                bytes@,
            )) ==> next.1@->Run_name == decode_utf8(self->SendRequest_0@),
    {
        match (self, event) {
            (_, InitEvent::Failed(error)) => (ClientInit::Over, InitAction::Fail(error)),
            (ClientInit::SendShared(options), _) => (
                ClientInit::AwaitScreen(options),
                InitAction::ReadScreen,
            ),
            (ClientInit::AwaitScreen(options), InitEvent::Screen(screen)) => (
                ClientInit::TellScreen(options, screen),
                InitAction::Emit(VncEvent::SetResolution(screen)),
            ),
            (ClientInit::TellScreen(options, screen), _) => (
                ClientInit::AwaitFormat(options, screen),
                InitAction::ReadFormat,
            ),
            (ClientInit::AwaitFormat(options, screen), InitEvent::Format(server)) => {
                match options.pixel_format {
                    Some(format) => (
                        ClientInit::TellFormat(options.encodings, screen, format),
                        InitAction::Write(ClientMsg::SetPixelFormat(format)),
                    ),
                    None => (
                        ClientInit::TellFormat(options.encodings, screen, server),
                        InitAction::Emit(VncEvent::SetPixelFormat(server)),
                    ),
                }
            },
            (ClientInit::TellFormat(encodings, screen, format), _) => (
                ClientInit::AwaitName(encodings, screen, format),
                InitAction::ReadName,
            ),
            (ClientInit::AwaitName(encodings, screen, format), InitEvent::Name(name)) => (
                ClientInit::SendEncodings(name, screen, format),
                InitAction::Write(ClientMsg::SetEncodings(encodings)),
            ),
            (ClientInit::SendEncodings(name, screen, format), _) => {
                let all = Rect { x: 0, y: 0, width: screen.width, height: screen.height };
                (
                    ClientInit::SendRequest(name, screen, format),
                    InitAction::Write(ClientMsg::FramebufferUpdateRequest(all, 0)),
                )
            },
            (ClientInit::SendRequest(name, screen, format), _) => {
                let name = text_from_utf8_lossy(name.as_slice());
                (
                    ClientInit::Over,
                    InitAction::Run(ClientStart { name, screen, pixel_format: format }),
                )
            },
            (_, _) => {
                assert(false);
                (ClientInit::Over, InitAction::Fail(VncError::ClientNotRunning))
            },
        }
    }
}

/// The size of the screen: the width and the height.
pub open spec fn screen_at(bytes: Seq<u8>) -> Parse<Screen> {
    if bytes.len() < 4 {
        Parse::Stopped(Stop::Short)
    } else {
        Parse::Done(
            Screen { width: be_u16(bytes) as u16, height: be_u16(bytes.skip(2)) as u16 },
            bytes.skip(4),
        )
    }
}

/// The name of the desktop: its length, and its bytes.
pub open spec fn name_at(bytes: Seq<u8>) -> Parse<Seq<u8>> {
    if bytes.len() < 4 || bytes.len() < 4 + be_u32(bytes) {
        Parse::Stopped(Stop::Short)
    } else {
        Parse::Done(bytes.subrange(4, 4 + be_u32(bytes)), bytes.skip(4 + be_u32(bytes)))
    }
}

/// Reads the size of the screen: the width and the height, two bytes each. All of
/// the input is used up if it ends before they do.
pub fn read_screen(input: &mut ByteReader) -> (screen: Result<Screen, Stop>)
    ensures
        final(input).same_buffer(old(input)),
        ({
            let bytes = old(input).remaining();
            if bytes.len() < 4 {
                &&& screen == Err::<Screen, Stop>(Stop::Short)
                &&& final(input).remaining() == Seq::<u8>::empty()
            } else {
                &&& screen is Ok
                &&& screen->Ok_0.width == be_u16(bytes)
                &&& screen->Ok_0.height == be_u16(bytes.skip(2))
                &&& final(input).remaining() == bytes.skip(4)
            }
        }),
        match screen_at(old(input).remaining()) {
            Parse::Done(read, rest) => screen == Ok::<Screen, Stop>(read)
                && final(input).remaining() == rest,
            Parse::Stopped(stop) => screen == Err::<Screen, Stop>(stop),
        },
{
    let ghost bytes = input.remaining();
    match (input.read_u16(), input.read_u16()) {
        (Ok(width), Ok(height)) => {
            assert(input.remaining() =~= bytes.skip(4));
            Ok(Screen { width, height })
        },
        _ => Err(Stop::Short),
    }
}

/// Reads the name of the desktop: its length, and its bytes. All of the input is
/// used up if it ends before they do.
pub fn read_name(input: &mut ByteReader) -> (name: Result<Vec<u8>, Stop>)
    ensures
        final(input).same_buffer(old(input)),
        ({
            let bytes = old(input).remaining();
            if bytes.len() < 4 || bytes.len() < 4 + be_u32(bytes) {
                &&& name == Err::<Vec<u8>, Stop>(Stop::Short)
                &&& final(input).remaining() == Seq::<u8>::empty()
            } else {
                &&& name is Ok
                &&& name->Ok_0@ == bytes.subrange(4, 4 + be_u32(bytes))
                &&& final(input).remaining() == bytes.skip(4 + be_u32(bytes))
            }
        }),
        match name_at(old(input).remaining()) {
            Parse::Done(read, rest) => name is Ok && name->Ok_0@ == read
                && final(input).remaining() == rest,
            Parse::Stopped(stop) => name == Err::<Vec<u8>, Stop>(stop),
        },
{
    let ghost bytes = input.remaining();
    match input.read_u32() {
        Ok(length) => {
            match input.read_exact(length as usize) {
                Ok(name) => {
                    assert(name@ =~= bytes.subrange(4, 4 + be_u32(bytes)));
                    assert(input.remaining() =~= bytes.skip(4 + be_u32(bytes)));
                    Ok(name)
                },
                Err(stop) => Err(stop),
            }
        },
        Err(stop) => Err(stop),
    }
}

/// Whether the start of a client can see these events, one after the other.
pub open spec fn init_can_see(init: ClientInit, events: Seq<InitEvent>) -> bool
    decreases events.len(),
{
    events.len() == 0 || init_expects(init, events[0]) && init_can_see(
        init_next(init, events[0]).0,
        events.drop_first(),
    )
}

/// What the start of a client does about events, one action for each.
pub open spec fn init_actions(init: ClientInit, events: Seq<InitEvent>) -> Seq<InitActionView>
    decreases events.len(),
{
    if events.len() == 0 {
        Seq::empty()
    } else {
        let (next, action) = init_next(init, events[0]);
        seq![action] + init_actions(next, events.drop_first())
    }
}

/// What a client that has been let in does until it runs.
pub open spec fn init_dialogue(
    options: ClientOptions,
    screen: Screen,
    server: PixelFormat,
    name: Seq<u8>,
) -> Seq<InitActionView> {
    seq![
        InitActionView::ReadScreen,
        InitActionView::Emit(EventView::SetResolution(screen)),
        InitActionView::ReadFormat,
        match options.pixel_format {
            Some(format) => InitActionView::Write(ClientMsg::SetPixelFormat(format)),
            None => InitActionView::Emit(EventView::SetPixelFormat(server)),
        },
        InitActionView::ReadName,
        InitActionView::Write(ClientMsg::SetEncodings(options.encodings)),
        InitActionView::Write(
            ClientMsg::FramebufferUpdateRequest(
                Rect { x: 0, y: 0, width: screen.width, height: screen.height },
                0,
            ),
        ),
        InitActionView::Run {
            name: lossy_text(name),
            screen,
            pixel_format: match options.pixel_format {
                Some(format) => format,
                None => server,
            },
        },
    ]
}

/// What the answers of the server, and of the user, are until a client runs.
pub open spec fn init_answers(screen: Screen, server: PixelFormat, name: Vec<u8>) -> Seq<
    InitEvent,
> {
    seq![
        InitEvent::Told,
        InitEvent::Screen(screen),
        InitEvent::Told,
        InitEvent::Format(server),
        InitEvent::Told,
        InitEvent::Name(name),
        InitEvent::Told,
        InitEvent::Told,
    ]
}

/// A client that has been let in tells the user of the screen, and of the pixel format
/// if and only if none was configured. It tells the server of all its encodings in
/// their order, asks for a whole picture, and runs with the format that was settled.
pub proof fn law_client_starts(
    options: ClientOptions,
    screen: Screen,
    server: PixelFormat,
    name: Vec<u8>,
)
    ensures
        ({
            let answers = init_answers(screen, server, name);
            &&& init_can_see(ClientInit::SendShared(options), answers)
            &&& init_actions(ClientInit::SendShared(options), answers) == init_dialogue(
                options,
                screen,
                server,
                name@,
            )
        }),
{
    let answers = init_answers(screen, server, name);
    reveal_with_fuel(init_can_see, 9);
    reveal_with_fuel(init_actions, 9);
    assert(init_actions(ClientInit::SendShared(options), answers) =~= init_dialogue(
        options,
        screen,
        server,
        name@,
    ));
}

/// The first thing that the server is told is whether it may leave others connected: a one if
/// it may, and a zero if not. The client goes on with all its options.
pub proof fn law_shared_flag(options: ClientOptions, next: (ClientInit, InitAction))
    requires
        call_ensures(ClientInit::begin, (options,), next),
    ensures
        next.1@ matches InitActionView::WriteShared(flag) && (flag == 1 <==> options.allow_shared)
            && (flag == 0 <==> !options.allow_shared),
        next.0 == ClientInit::SendShared(options),
{
}

/// Whether a point of the screen lies in a part of the picture.
pub open spec fn holds_point(rect: Rect, x: int, y: int) -> bool {
    rect.x <= x < rect.x + rect.width && rect.y <= y < rect.y + rect.height
}

/// The first picture that is asked for is a whole one, and holds every point of the screen and
/// no other.
pub proof fn law_first_picture_covers_screen(
    name: Vec<u8>,
    screen: Screen,
    format: PixelFormat,
    x: int,
    y: int,
)
    ensures
        init_next(ClientInit::SendEncodings(name, screen, format), InitEvent::Told).1 matches
            InitActionView::Write(ClientMsg::FramebufferUpdateRequest(rect, incremental))
            && incremental == 0 && (holds_point(rect, x, y) <==> 0 <= x < screen.width && 0 <= y
            < screen.height),
{
}

/// The size of the screen is read as it was written, the width first. Less than that is not
/// enough.
pub proof fn law_screen_written(screen: Screen, rest: Seq<u8>, cut: int)
    requires
        0 <= cut < 4,
    ensures
        ({
            let written = written_u16(screen.width) + written_u16(screen.height);
            &&& screen_at(written + rest) == Parse::Done(screen, rest)
            &&& screen_at(written.take(cut)) == Parse::<Screen>::Stopped(Stop::Short)
        }),
{
    let behind = written_u16(screen.height) + rest;
    let written = written_u16(screen.width) + written_u16(screen.height);
    law_u16_written(screen.width, behind);
    law_u16_written(screen.height, rest);
    assert(written + rest =~= written_u16(screen.width) + behind);
    assert((written + rest).skip(4) =~= rest);
}

/// A name is read as it was written, whatever its length. Less than that is not enough.
pub proof fn law_name_written(name: Seq<u8>, rest: Seq<u8>, cut: int)
    requires
        name.len() <= 0xffff_ffff,
        0 <= cut < 4 + name.len(),
    ensures
        ({
            let written = written_u32(name.len() as u32) + name;
            &&& name_at(written + rest) == Parse::Done(name, rest)
            &&& name_at(written.take(cut)) == Parse::<Seq<u8>>::Stopped(Stop::Short)
        }),
{
    let written = written_u32(name.len() as u32) + name;
    let input = written + rest;
    law_u32_written(name.len() as u32, name + rest);
    law_u32_written(name.len() as u32, name);
    assert(input =~= written_u32(name.len() as u32) + (name + rest));
    assert(input.subrange(4, 4 + be_u32(input)) =~= name);
    assert(input.skip(4 + be_u32(input)) =~= rest);
    if cut >= 4 {
        assert(be_u32(written.take(cut)) == be_u32(written));
    }
}

/// The server is told of the encodings in the order in which they were added, whatever it
/// took to be let in.
pub proof fn law_encodings_in_order(
    options: HandshakeOptions,
    events: Seq<HandshakeEvent>,
    i: int,
    screen: Screen,
    server: PixelFormat,
    name: Vec<u8>,
)
    requires
        can_see(Handshake::AwaitVersion(options), events),
        0 <= i < events.len(),
        actions(Handshake::AwaitVersion(options), events)[i] is StartClient,
    ensures
        ({
            let client = actions(Handshake::AwaitVersion(options), events)[i]->StartClient_0;
            init_actions(ClientInit::SendShared(client), init_answers(screen, server, name))[5]
                == InitActionView::Write(ClientMsg::SetEncodings(options.client.encodings))
        }),
{
    law_started_only_if_let_in(options, events, i);
    law_client_starts(options.client, screen, server, name);
}

/// Whatever fails, the client gives up with that error and does nothing more.
pub proof fn law_init_failure(init: ClientInit, error: VncError)
    requires
        !(init is Over),
    ensures
        init_expects(init, InitEvent::Failed(error)),
        init_next(init, InitEvent::Failed(error)) == (
            ClientInit::Over,
            InitActionView::Fail(error@),
        ),
        forall|event: InitEvent| !init_expects(ClientInit::Over, event),
{
}

} // verus!
