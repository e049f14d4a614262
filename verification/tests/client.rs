use vnc::client::connection::{IoAction, IoEvent, IoTask, Polled, VncClient, CHANNEL_SIZE};
use vnc::client::connector::ClientOptions;
use vnc::client::init::{
    read_name, read_screen, ClientInit, ClientMsg, ClientStart, InitAction, InitEvent,
};
use vnc::config::{PixelFormat, VncEncoding};
use vnc::error::VncError;
use vnc::event::{ClientEvent, Rect, Screen, VncEvent};
use vnc::input::{ByteReader, Stop};

fn format(bits_per_pixel: u8) -> PixelFormat {
    PixelFormat {
        bits_per_pixel,
        depth: 24,
        big_endian_flag: 0,
        true_color_flag: 1,
        red_max: 255,
        green_max: 255,
        blue_max: 255,
        red_shift: 16,
        green_shift: 8,
        blue_shift: 0,
    }
}

fn screen() -> Screen {
    Screen { width: 640, height: 480 }
}

fn start(pixel_format: Option<PixelFormat>, name: &[u8]) -> Vec<InitAction> {
    let options = ClientOptions {
        allow_shared: true,
        pixel_format,
        encodings: vec![VncEncoding::Zrle, VncEncoding::Raw, VncEncoding::CopyRect],
    };
    let (mut init, first) = ClientInit::begin(options);
    let mut actions = vec![first];
    for event in [
        InitEvent::Told,
        InitEvent::Screen(screen()),
        InitEvent::Told,
        InitEvent::Format(format(16)),
        InitEvent::Told,
        InitEvent::Name(name.to_vec()),
        InitEvent::Told,
        InitEvent::Told,
    ] {
        let (next, action) = init.step(event);
        init = next;
        actions.push(action);
    }
    actions
}

fn expected(told: InitAction, pixel_format: PixelFormat, name: &str) -> Vec<InitAction> {
    vec![
        InitAction::WriteShared(1),
        InitAction::ReadScreen,
        InitAction::Emit(VncEvent::SetResolution(screen())),
        InitAction::ReadFormat,
        told,
        InitAction::ReadName,
        InitAction::Write(ClientMsg::SetEncodings(vec![
            VncEncoding::Zrle,
            VncEncoding::Raw,
            VncEncoding::CopyRect,
        ])),
        InitAction::Write(ClientMsg::FramebufferUpdateRequest(
            Rect { x: 0, y: 0, width: 640, height: 480 },
            0,
        )),
        InitAction::Run(ClientStart { name: name.to_string(), screen: screen(), pixel_format }),
    ]
}

#[test]
fn a_client_tells_the_server_of_its_pixel_format() {
    let told = InitAction::Write(ClientMsg::SetPixelFormat(format(32)));
    assert_eq!(start(Some(format(32)), b"desk"), expected(told, format(32), "desk"));
}

#[test]
fn a_client_without_a_pixel_format_tells_the_user_of_that_of_the_server() {
    let told = InitAction::Emit(VncEvent::SetPixelFormat(format(16)));
    assert_eq!(start(None, "b\u{fc}ro".as_bytes()), expected(told, format(16), "b\u{fc}ro"));
}

#[test]
fn a_name_that_is_not_utf8_is_mended() {
    let told = InitAction::Emit(VncEvent::SetPixelFormat(format(16)));
    assert_eq!(start(None, b"a\xffb"), expected(told, format(16), "a\u{fffd}b"));
}

#[test]
fn a_client_that_is_not_shared_says_so() {
    let options = ClientOptions { allow_shared: false, pixel_format: None, encodings: Vec::new() };
    let (init, first) = ClientInit::begin(options);
    assert_eq!(first, InitAction::WriteShared(0));
    let (_, action) = init.step(InitEvent::Failed(VncError::Io("reset".to_string())));
    assert_eq!(action, InitAction::Fail(VncError::Io("reset".to_string())));
}

#[test]
fn the_screen_and_the_name_are_read() {
    let mut input = ByteReader::new(vec![2, 128, 1, 224, 0, 0, 0, 3, b'a', b'b', b'c', 7]);
    assert_eq!(read_screen(&mut input), Ok(screen()));
    assert_eq!(read_name(&mut input), Ok(b"abc".to_vec()));
    assert_eq!(input.left(), 1);
    assert_eq!(read_screen(&mut input), Err(Stop::Short));
    assert_eq!(input.left(), 0);
    let mut short = ByteReader::new(vec![0, 0, 0, 3, 1, 2]);
    assert_eq!(read_name(&mut short), Err(Stop::Short));
    assert_eq!(short.left(), 0);
    let mut shorter = ByteReader::new(vec![0, 0, 0]);
    assert_eq!(read_name(&mut shorter), Err(Stop::Short));
    assert_eq!(shorter.left(), 0);
}

#[test]
fn a_client_takes_events_in_order() {
    let (mut client, task) = VncClient::new("desk".to_string(), screen());
    assert_eq!(client.name(), "desk");
    assert_eq!(client.ensure_alive(), Ok(()));
    assert_eq!(client.try_recv(), Ok(None));
    task.server_tx().try_send(VncEvent::Bell).unwrap();
    assert_eq!(client.try_recv(), Ok(Some(VncEvent::Bell)));
    assert_eq!(client.try_recv(), Ok(None));
    task.server_tx().try_send(VncEvent::SetResolution(screen())).unwrap();
    assert_eq!(client.try_recv(), Ok(Some(VncEvent::SetResolution(screen()))));
    task.server_tx().try_send(VncEvent::Text("cut".to_string())).unwrap();
    assert_eq!(client.try_recv(), Ok(Some(VncEvent::Text("cut".to_string()))));
    assert_eq!(client.try_recv(), Ok(None));
}

#[test]
fn the_channels_hold_as_much_as_they_should() {
    let (client, task) = VncClient::new("desk".to_string(), screen());
    assert_eq!(client.client_tx().max_capacity(), CHANNEL_SIZE);
    assert_eq!(CHANNEL_SIZE, 128);
    assert_eq!(task.server_tx().max_capacity(), 1);
}

#[test]
fn a_client_that_loses_its_task_is_closed() {
    let (mut client, task) = VncClient::new("desk".to_string(), screen());
    task.server_tx().try_send(VncEvent::Bell).unwrap();
    drop(task);
    assert_eq!(client.try_recv(), Ok(Some(VncEvent::Bell)));
    assert_eq!(client.try_recv(), Err(VncError::ClientNotRunning));
    assert_eq!(client.ensure_alive(), Err(VncError::ClientNotRunning));
    assert_eq!(client.try_recv(), Err(VncError::ClientNotRunning));
}

#[test]
fn a_client_that_is_closed_asks_its_task_to_stop() {
    let (mut client, mut task) = VncClient::new("desk".to_string(), screen());
    assert_eq!(task.check_close(), IoAction::ReadEvent);
    assert!(!*task.watch_close_rx().borrow());
    task.server_tx().try_send(VncEvent::Bell).unwrap();
    assert_eq!(client.close(), Ok(()));
    assert_eq!(task.check_close(), IoAction::Stop);
    assert!(*task.watch_close_rx().borrow());
    assert_eq!(client.ensure_alive(), Err(VncError::ClientNotRunning));
    assert_eq!(client.try_recv(), Err(VncError::ClientNotRunning));
    drop(task);
    assert_eq!(client.close(), Ok(()));
}

#[test]
fn what_comes_out_of_a_channel_decides() {
    let (mut client, _task) = VncClient::new("desk".to_string(), screen());
    assert_eq!(client.received(Some(VncEvent::Bell)), Ok(VncEvent::Bell));
    assert_eq!(client.polled(Polled::Item(VncEvent::Bell)), Ok(Some(VncEvent::Bell)));
    assert_eq!(client.polled(Polled::Empty), Ok(None));
    assert_eq!(client.ensure_alive(), Ok(()));
    assert_eq!(client.received(None), Err(VncError::ClientNotRunning));
    assert_eq!(client.ensure_alive(), Err(VncError::ClientNotRunning));
    let (mut other, _task) = VncClient::new("desk".to_string(), screen());
    assert_eq!(other.polled(Polled::Disconnected), Err(VncError::ClientNotRunning));
    assert_eq!(other.ensure_alive(), Err(VncError::ClientNotRunning));
    assert!(other.server_rx().try_recv().is_err());
}

#[test]
fn an_event_that_cannot_be_sent_is_an_error() {
    assert_eq!(VncClient::delivered(true), Ok(()));
    assert_eq!(
        VncClient::delivered(false),
        Err(VncError::General("Channel closed".to_string()))
    );
}

#[test]
fn the_task_writes_one_event_of_the_user_in_a_round() {
    let (client, mut task) = VncClient::new("desk".to_string(), screen());
    assert_eq!(IoTask::step(IoEvent::Read(Ok(()))), IoAction::PollClient);
    assert_eq!(task.poll_client(), Some(IoAction::CheckClose));
    client.client_tx().try_send(ClientEvent::Refresh).unwrap();
    let key = ClientEvent::Key { keycode: 97, down: true };
    client.client_tx().try_send(key).unwrap();
    assert_eq!(task.poll_client(), Some(IoAction::Write(ClientEvent::Refresh)));
    assert_eq!(IoTask::step(IoEvent::Written(Ok(()))), IoAction::CheckClose);
    let key = ClientEvent::Key { keycode: 97, down: true };
    assert_eq!(task.poll_client(), Some(IoAction::Write(key)));
    drop(client);
    assert_eq!(task.poll_client(), None);
}

#[test]
fn the_task_writes_all_events_of_the_user_in_order() {
    let (client, mut task) = VncClient::new("desk".to_string(), screen());
    let keys = [104, 101, 108, 108, 111];
    for keycode in keys {
        client.client_tx().try_send(ClientEvent::Key { keycode, down: true }).unwrap();
    }
    let mut written = Vec::new();
    let mut messages = 0;
    let mut action = IoAction::CheckClose;
    while messages < 7 {
        action = match action {
            IoAction::CheckClose => task.check_close(),
            IoAction::ReadEvent => {
                messages += 1;
                IoTask::step(IoEvent::Read(Ok(())))
            }
            IoAction::PollClient => task.poll_client().unwrap(),
            IoAction::Write(ClientEvent::Key { keycode, down: true }) => {
                written.push(keycode);
                assert_eq!(written.len(), messages);
                IoTask::step(IoEvent::Written(Ok(())))
            }
            other => panic!("{:?}", other),
        };
    }
    assert_eq!(written, keys);
}

#[test]
fn a_client_that_has_ended_stays_closed() {
    let (mut client, task) = VncClient::new("desk".to_string(), screen());
    assert_eq!(client.received(Some(VncEvent::Bell)), Ok(VncEvent::Bell));
    assert_eq!(client.try_recv(), Ok(None));
    assert_eq!(client.ensure_alive(), Ok(()));
    assert_eq!(client.received(None), Err(VncError::ClientNotRunning));
    assert_eq!(client.received(Some(VncEvent::Bell)), Ok(VncEvent::Bell));
    assert_eq!(client.polled(Polled::Empty), Ok(None));
    task.server_tx().try_send(VncEvent::Bell).unwrap();
    assert!(client.server_rx().try_recv().is_ok());
    assert_eq!(client.try_recv(), Err(VncError::ClientNotRunning));
    assert_eq!(client.ensure_alive(), Err(VncError::ClientNotRunning));
    assert_eq!(client.close(), Ok(()));
    assert_eq!(client.ensure_alive(), Err(VncError::ClientNotRunning));
}

#[test]
fn the_task_goes_on_with_what_the_channel_has() {
    let key = ClientEvent::Key { keycode: 97, down: true };
    let again = ClientEvent::Key { keycode: 97, down: true };
    assert_eq!(IoTask::polled(Polled::Item(key)), Some(IoAction::Write(again)));
    assert_eq!(IoTask::polled(Polled::Empty), Some(IoAction::CheckClose));
    assert_eq!(IoTask::polled(Polled::Disconnected), None);
}

#[test]
fn the_task_reports_an_error_and_ends() {
    let report = IoTask::step(IoEvent::Read(Err(VncError::InvalidImageData)));
    let text = "Image data cannot be decoded correctly".to_string();
    assert_eq!(report, IoAction::Report(VncEvent::Error(text)));
    let report = IoTask::step(IoEvent::Written(Err(VncError::General("gone".to_string()))));
    let text = "VNC Error with message: gone".to_string();
    assert_eq!(report, IoAction::Report(VncEvent::Error(text)));
    assert_eq!(IoTask::step(IoEvent::Reported), IoAction::Stop);
    assert_eq!(IoTask::step(IoEvent::CloseSeen(true)), IoAction::Stop);
    assert_eq!(IoTask::step(IoEvent::CloseSeen(false)), IoAction::ReadEvent);
}

#[test]
fn errors_have_messages() {
    for (error, text) in [
        (VncError::NoPassword, "Auth is required but no password provided"),
        (VncError::NoEncoding, "No VNC encoding selected"),
        (VncError::WrongPassword, "Wrong password"),
        (VncError::ClientNotRunning, "The VNC client is not running"),
        (VncError::UnexpectedEof, "early eof"),
        (VncError::Io("broken pipe".to_string()), "broken pipe"),
    ] {
        assert_eq!(error.message(), text);
    }
}
