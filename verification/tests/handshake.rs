use vnc::client::connector::{
    AuthResult, ClientOptions, Handshake, HandshakeAction, HandshakeEvent, VncConnector, VncState,
};
use vnc::config::{PixelFormat, SecurityType, VncEncoding, VncVersion};
use vnc::error::VncError;

fn connector(version: VncVersion) -> VncConnector<u8, &'static str> {
    VncConnector::new(9)
        .set_version(version)
        .add_encoding(VncEncoding::Tight)
        .add_encoding(VncEncoding::Raw)
        .allow_shared(false)
}

fn options() -> ClientOptions {
    ClientOptions {
        allow_shared: false,
        pixel_format: None,
        encodings: vec![VncEncoding::Tight, VncEncoding::Raw],
    }
}

fn begin(state: VncState<u8, &'static str>) -> Handshake {
    let (stream, _, handshake) = state.try_start();
    assert_eq!(stream, 9);
    handshake
}

/// Hands events to a handshake, and collects what it does.
fn run(version: VncVersion, password: bool, events: Vec<HandshakeEvent>) -> Vec<HandshakeAction> {
    let mut connector = connector(version);
    if password {
        connector = connector.set_auth_method("ask");
    }
    let mut handshake = begin(connector.connect().unwrap());
    let mut actions = Vec::new();
    for event in events {
        let (next, action) = handshake.step(event);
        handshake = next;
        actions.push(action);
    }
    actions
}

#[test]
fn a_connector_starts_with_defaults() {
    let connector: VncConnector<u8, u8> = VncConnector::new(3);
    assert_eq!(connector.stream, 3);
    assert_eq!(connector.auth_method, None);
    assert_eq!(connector.rfb_version, VncVersion::RFB38);
    assert_eq!(
        connector.options,
        ClientOptions { allow_shared: true, pixel_format: None, encodings: Vec::new() }
    );
}

#[test]
fn a_connector_keeps_what_it_is_told() {
    let format = PixelFormat {
        bits_per_pixel: 16,
        depth: 15,
        big_endian_flag: 1,
        true_color_flag: 1,
        red_max: 31,
        green_max: 31,
        blue_max: 31,
        red_shift: 10,
        green_shift: 5,
        blue_shift: 0,
    };
    let connector = connector(VncVersion::RFB37).set_auth_method("secret").set_pixel_format(format);
    assert_eq!(connector.auth_method, Some("secret"));
    assert_eq!(connector.rfb_version, VncVersion::RFB37);
    assert_eq!(connector.options, ClientOptions { pixel_format: Some(format), ..options() });
    let state = connector.connect().unwrap();
    let (_, auth_method, _) = state.try_start();
    assert_eq!(auth_method, Some("secret"));
}

#[test]
fn a_connector_needs_an_encoding() {
    let connector: VncConnector<u8, u8> = VncConnector::new(0);
    assert_eq!(connector.connect().err(), Some(VncError::NoEncoding));
}

#[test]
fn the_older_version_is_agreed_upon() {
    let all = [VncVersion::RFB33, VncVersion::RFB37, VncVersion::RFB38];
    for (i, ours) in all.iter().enumerate() {
        for (j, theirs) in all.iter().enumerate() {
            assert_eq!(ours.negotiate(*theirs), all[i.min(j)]);
            let actions = run(*ours, false, vec![HandshakeEvent::Version(*theirs)]);
            assert_eq!(actions, vec![HandshakeAction::WriteVersion(all[i.min(j)])]);
        }
    }
}

#[test]
fn everybody_is_let_in_by_the_newest_version() {
    let actions = run(
        VncVersion::RFB38,
        true,
        vec![
            HandshakeEvent::Version(VncVersion::RFB38),
            HandshakeEvent::Sent,
            HandshakeEvent::SecurityTypes(vec![SecurityType::VncAuth, SecurityType::NoAuth]),
            HandshakeEvent::Sent,
            HandshakeEvent::SecurityResult,
        ],
    );
    assert_eq!(
        actions,
        vec![
            HandshakeAction::WriteVersion(VncVersion::RFB38),
            HandshakeAction::ReadSecurityTypes(VncVersion::RFB38),
            HandshakeAction::WriteSecurityType(SecurityType::NoAuth),
            HandshakeAction::ReadSecurityResult,
            HandshakeAction::StartClient(options()),
        ]
    );
}

#[test]
fn everybody_is_let_in_by_older_versions() {
    let actions = run(
        VncVersion::RFB38,
        false,
        vec![
            HandshakeEvent::Version(VncVersion::RFB37),
            HandshakeEvent::Sent,
            HandshakeEvent::SecurityTypes(vec![SecurityType::NoAuth]),
            HandshakeEvent::Sent,
        ],
    );
    assert_eq!(
        actions[2..],
        [
            HandshakeAction::WriteSecurityType(SecurityType::NoAuth),
            HandshakeAction::StartClient(options()),
        ]
    );
    let actions = run(
        VncVersion::RFB33,
        false,
        vec![
            HandshakeEvent::Version(VncVersion::RFB38),
            HandshakeEvent::Sent,
            HandshakeEvent::SecurityTypes(vec![SecurityType::NoAuth]),
        ],
    );
    assert_eq!(actions[2..], [HandshakeAction::StartClient(options())]);
}

fn with_password(version: VncVersion, result: AuthResult, rest: Vec<HandshakeEvent>) -> Vec<HandshakeAction> {
    let mut events = vec![
        HandshakeEvent::Version(version),
        HandshakeEvent::Sent,
        HandshakeEvent::SecurityTypes(vec![SecurityType::Other(5), SecurityType::VncAuth]),
    ];
    if version != VncVersion::RFB33 {
        events.push(HandshakeEvent::Sent);
    }
    events.push(HandshakeEvent::Credential("secret".to_string()));
    events.push(HandshakeEvent::Auth(result));
    events.extend(rest);
    run(VncVersion::RFB38, true, events)
}

#[test]
fn a_password_that_is_accepted_lets_the_client_in() {
    let actions = with_password(VncVersion::RFB38, AuthResult::Accepted, vec![]);
    assert_eq!(
        actions[2..],
        [
            HandshakeAction::WriteSecurityType(SecurityType::VncAuth),
            HandshakeAction::AskCredential,
            HandshakeAction::Authenticate("secret".to_string()),
            HandshakeAction::StartClient(options()),
        ]
    );
    let actions = with_password(VncVersion::RFB33, AuthResult::Accepted, vec![]);
    assert_eq!(
        actions[2..],
        [
            HandshakeAction::AskCredential,
            HandshakeAction::Authenticate("secret".to_string()),
            HandshakeAction::StartClient(options()),
        ]
    );
}

#[test]
fn a_password_that_is_refused_is_an_error() {
    let actions = with_password(VncVersion::RFB37, AuthResult::Failed, vec![]);
    assert_eq!(actions.last(), Some(&HandshakeAction::Fail(VncError::WrongPassword)));
    for version in [VncVersion::RFB33, VncVersion::RFB38] {
        let reason = HandshakeEvent::Reason("too many tries".to_string());
        let actions = with_password(version, AuthResult::Failed, vec![reason]);
        let n = actions.len();
        assert_eq!(actions[n - 2], HandshakeAction::ReadReason);
        assert_eq!(
            actions[n - 1],
            HandshakeAction::Fail(VncError::General("too many tries".to_string()))
        );
    }
}

#[test]
fn a_password_that_nobody_knows_is_an_error() {
    let actions = run(
        VncVersion::RFB38,
        false,
        vec![
            HandshakeEvent::Version(VncVersion::RFB38),
            HandshakeEvent::Sent,
            HandshakeEvent::SecurityTypes(vec![SecurityType::VncAuth]),
            HandshakeEvent::Sent,
        ],
    );
    assert_eq!(
        actions[2..],
        [
            HandshakeAction::WriteSecurityType(SecurityType::VncAuth),
            HandshakeAction::Fail(VncError::NoPassword),
        ]
    );
}

#[test]
fn other_ways_to_be_let_in_are_not_known() {
    let actions = run(
        VncVersion::RFB38,
        true,
        vec![
            HandshakeEvent::Version(VncVersion::RFB38),
            HandshakeEvent::Sent,
            HandshakeEvent::SecurityTypes(vec![SecurityType::Other(16)]),
        ],
    );
    let text = "Security type apart from Vnc Auth has not been implemented".to_string();
    assert_eq!(actions[2], HandshakeAction::Fail(VncError::General(text)));
}

#[test]
fn a_failure_ends_the_handshake() {
    let actions = run(
        VncVersion::RFB38,
        true,
        vec![HandshakeEvent::Failed(VncError::UnexpectedEof)],
    );
    assert_eq!(actions, vec![HandshakeAction::Fail(VncError::UnexpectedEof)]);
}
