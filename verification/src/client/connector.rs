//! How a client is configured, and how it is let in by the server.
use crate::config::{PixelFormat, SecurityType, VncEncoding, VncVersion};
use crate::error::{ErrorView, VncError};
use vstd::prelude::*;

verus! {

/// What the user wants of a session once it runs.
#[derive(Debug, PartialEq, Eq)]
pub struct ClientOptions {
    /// Whether the server may leave other clients connected.
    pub allow_shared: bool,
    /// The format in which to send pixels; the server chooses if there is none.
    pub pixel_format: Option<PixelFormat>,
    /// The encodings to use, the best first.
    pub encodings: Vec<VncEncoding>,
}

/// Connection builder to set up a client. `S` is the connection to the server, `A`
/// what a password is asked from.
#[derive(Debug)]
pub struct VncConnector<S, A> {
    pub stream: S,
    pub auth_method: Option<A>,
    pub rfb_version: VncVersion,
    pub options: ClientOptions,
}

/// A client that has been configured.
#[derive(Debug)]
pub struct VncState<S, A> {
    pub connector: VncConnector<S, A>,
}

impl<S, A> VncConnector<S, A> {
    /// A configuration with nothing but defaults: the newest version, a shared
    /// desktop, the pixel format of the server, no encodings.
    pub fn new(stream: S) -> (connector: VncConnector<S, A>)
        ensures
            connector.stream == stream,
            connector.auth_method is None,
            connector.rfb_version == VncVersion::RFB38,
            connector.options.allow_shared,
            connector.options.pixel_format is None,
            connector.options.encodings@ == Seq::<VncEncoding>::empty(),
    {
        VncConnector {
            stream,
            auth_method: None,
            rfb_version: VncVersion::RFB38,
            options: ClientOptions {
                allow_shared: true,
                pixel_format: None,
                encodings: Vec::new(),
            },
        }
    }

    /// What is asked for a password, if the server wants one.
    pub fn set_auth_method(self, auth_callback: A) -> (connector: VncConnector<S, A>)
        ensures
            connector == (VncConnector { auth_method: Some(auth_callback), ..self }),
    {
        VncConnector { auth_method: Some(auth_callback), ..self }
    }

    /// The newest version to use.
    pub fn set_version(self, version: VncVersion) -> (connector: VncConnector<S, A>)
        ensures
            connector == (VncConnector { rfb_version: version, ..self }),
    {
        VncConnector { rfb_version: version, ..self }
    }

    /// The format in which to send pixels. If it is not set the server chooses, and
    /// the user is told.
    pub fn set_pixel_format(self, pf: PixelFormat) -> (connector: VncConnector<S, A>)
        ensures
            connector == (VncConnector {
                options: ClientOptions { pixel_format: Some(pf), ..self.options },
                ..self
            }),
    {
        let VncConnector { stream, auth_method, rfb_version, options } = self;
        VncConnector {
            stream,
            auth_method,
            rfb_version,
            options: ClientOptions { pixel_format: Some(pf), ..options },
        }
    }

    /// Whether the server should leave other clients connected, or give exclusive
    /// access to this one.
    pub fn allow_shared(self, allow_shared: bool) -> (connector: VncConnector<S, A>)
        ensures
            connector == (VncConnector {
                options: ClientOptions { allow_shared, ..self.options },
                ..self
            }),
    {
        let VncConnector { stream, auth_method, rfb_version, options } = self;
        VncConnector {
            stream,
            auth_method,
            rfb_version,
            options: ClientOptions { allow_shared, ..options },
        }
    }

    /// One more encoding to use. The server is told of the encodings in the order in
    /// which they were added.
    pub fn add_encoding(self, encoding: VncEncoding) -> (connector: VncConnector<S, A>)
        ensures
            connector.options.encodings@ == self.options.encodings@.push(encoding),
            connector == (VncConnector {
                options: ClientOptions {
                    encodings: connector.options.encodings,
                    ..self.options
                },
                ..self
            }),
    {
        let VncConnector { stream, auth_method, rfb_version, options } = self;
        let ClientOptions { allow_shared, pixel_format, encodings } = options;
        let mut encodings = encodings;
        encodings.push(encoding);
        VncConnector {
            stream,
            auth_method,
            rfb_version,
            options: ClientOptions { allow_shared, pixel_format, encodings },
        }
    }

    /// Completes the configuration, which has to name an encoding.
    pub fn connect(self) -> (state: Result<VncState<S, A>, VncError>)
        ensures
            self.options.encodings@.len() == 0 ==> state == Err::<VncState<S, A>, VncError>(
                VncError::NoEncoding,
            ),
            self.options.encodings@.len() > 0 ==> state == Ok::<VncState<S, A>, VncError>(
                VncState { connector: self },
            ),
    {
        if self.options.encodings.is_empty() {
            return Err(VncError::NoEncoding);
        }
        Ok(VncState { connector: self })
    }
}

impl<S, A> VncState<S, A> {
    /// Begins the session. The handshake says what to do with the connection; a
    /// password is asked for only if it says so.
    pub fn try_start(self) -> (started: (S, Option<A>, Handshake))
        ensures
            started.0 == self.connector.stream,
            started.1 == self.connector.auth_method,
            started.2 == Handshake::AwaitVersion(
                HandshakeOptions {
                    rfb_version: self.connector.rfb_version,
                    has_auth_method: self.connector.auth_method is Some,
                    client: self.connector.options,
                },
            ),
    {
        let VncConnector { stream, auth_method, rfb_version, options } = self.connector;
        let has_auth_method = auth_method.is_some();
        (
            stream,
            auth_method,
            Handshake::AwaitVersion(
                HandshakeOptions { rfb_version, has_auth_method, client: options },
            ),
        )
    }
}

/// What a handshake knows: the version, its own at first and then the one that was
/// agreed upon, whether there is a way to get a password, and what the client is to
/// be started with.
#[derive(Debug)]
pub struct HandshakeOptions {
    pub rfb_version: VncVersion,
    pub has_auth_method: bool,
    pub client: ClientOptions,
}

/// How far the handshake with the server has got.
#[derive(Debug)]
pub enum Handshake {
    /// The version of the server is being read.
    AwaitVersion(HandshakeOptions),
    /// The version that was agreed upon is being written.
    SendVersion(HandshakeOptions),
    /// The ways to be let in are being read.
    AwaitSecurity(HandshakeOptions),
    /// The server is being told that nobody has to prove anything.
    SendNoAuth(HandshakeOptions),
    /// The consent of the server is being read.
    AwaitResult(HandshakeOptions),
    /// The server is being told to expect a password.
    SendVncAuth(HandshakeOptions),
    /// The user is being asked for a password.
    AwaitCredential(HandshakeOptions),
    /// The password is being proved to the server.
    AwaitAuth(HandshakeOptions),
    /// The reason for a refusal is being read.
    AwaitReason,
    /// The client is in, or it has failed.
    Over,
}

/// Whether the server accepts a password.
#[derive(Debug, Clone, Copy, PartialEq, Eq, Structural)]
pub enum AuthResult {
    Accepted,
    Failed,
}

/// What became of an action of the handshake.
#[derive(Debug)]
pub enum HandshakeEvent {
    /// What was to be written has been written.
    Sent,
    /// The server has this version.
    Version(VncVersion),
    /// The server offers these ways to be let in.
    SecurityTypes(Vec<SecurityType>),
    /// The server consents.
    SecurityResult,
    /// The user has given a password.
    Credential(String),
    /// The server has seen the proof of the password.
    Auth(AuthResult),
    /// The server refuses, for this reason.
    Reason(String),
    /// The action failed.
    Failed(VncError),
}

/// What to do next.
#[derive(Debug, PartialEq, Eq)]
pub enum HandshakeAction {
    /// Write the version.
    WriteVersion(VncVersion),
    /// Read the ways to be let in, as this version sends them.
    ReadSecurityTypes(VncVersion),
    /// Write the way that is chosen.
    WriteSecurityType(SecurityType),
    /// Read the four bytes with which the server consents.
    ReadSecurityResult,
    /// Ask the user for a password.
    AskCredential,
    /// Prove to the server that the password is known.
    Authenticate(String),
    /// Read the reason for a refusal: a length, and all that follows.
    ReadReason,
    /// Start the client.
    StartClient(ClientOptions),
    /// Give up.
    Fail(VncError),
}

/// A [`HandshakeAction`] with its texts as sequences of characters.
pub enum HandshakeActionView {
    WriteVersion(VncVersion),
    ReadSecurityTypes(VncVersion),
    WriteSecurityType(SecurityType),
    ReadSecurityResult,
    AskCredential,
    Authenticate(Seq<char>),
    ReadReason,
    StartClient(ClientOptions),
    Fail(ErrorView),
}

impl View for HandshakeAction {
    type V = HandshakeActionView;

    open spec fn view(&self) -> HandshakeActionView {
        match *self {
            HandshakeAction::WriteVersion(version) => HandshakeActionView::WriteVersion(version),
            HandshakeAction::ReadSecurityTypes(version) => HandshakeActionView::ReadSecurityTypes(
                version,
            ),
            HandshakeAction::WriteSecurityType(way) => HandshakeActionView::WriteSecurityType(way),
            HandshakeAction::ReadSecurityResult => HandshakeActionView::ReadSecurityResult,
            HandshakeAction::AskCredential => HandshakeActionView::AskCredential,
            HandshakeAction::Authenticate(text) => HandshakeActionView::Authenticate(text@),
            HandshakeAction::ReadReason => HandshakeActionView::ReadReason,
            HandshakeAction::StartClient(options) => HandshakeActionView::StartClient(options),
            HandshakeAction::Fail(error) => HandshakeActionView::Fail(error@),
        }
    }
}

/// Whether this can be what became of the action that a handshake asked for last. A
/// server offers at least one way to be let in.
pub open spec fn expects(handshake: Handshake, event: HandshakeEvent) -> bool {
    match (handshake, event) {
        (Handshake::Over, _) => false,
        (_, HandshakeEvent::Failed(_)) => true,
        (Handshake::AwaitVersion(_), HandshakeEvent::Version(_)) => true,
        (Handshake::SendVersion(_), HandshakeEvent::Sent) => true,
        (Handshake::AwaitSecurity(_), HandshakeEvent::SecurityTypes(offered)) => offered@.len() > 0,
        (Handshake::SendNoAuth(_), HandshakeEvent::Sent) => true,
        (Handshake::AwaitResult(_), HandshakeEvent::SecurityResult) => true,
        (Handshake::SendVncAuth(_), HandshakeEvent::Sent) => true,
        (Handshake::AwaitCredential(_), HandshakeEvent::Credential(_)) => true,
        (Handshake::AwaitAuth(_), HandshakeEvent::Auth(_)) => true,
        (Handshake::AwaitReason, HandshakeEvent::Reason(_)) => true,
        _ => false,
    }
}

/// The client is let in.
pub open spec fn let_in(options: HandshakeOptions) -> (Handshake, HandshakeActionView) {
    (Handshake::Over, HandshakeActionView::StartClient(options.client))
}

/// The handshake has failed.
pub open spec fn give_up(error: ErrorView) -> (Handshake, HandshakeActionView) {
    (Handshake::Over, HandshakeActionView::Fail(error))
}

/// The user is asked for a password, if there is a way to do that.
pub open spec fn ask_credential(options: HandshakeOptions) -> (Handshake, HandshakeActionView) {
    if options.has_auth_method {
        (Handshake::AwaitCredential(options), HandshakeActionView::AskCredential)
    } else {
        give_up(ErrorView::NoPassword)
    }
}

/// How a handshake goes on. Being let in by everybody is preferred to a password.
/// The oldest version leaves the choice to the server, so nothing is written for it;
/// only the newest one has the server consent when there is no password. A refusal
/// comes without a reason in the version between.
pub open spec fn handshake_next(handshake: Handshake, event: HandshakeEvent) -> (
    Handshake,
    HandshakeActionView,
) {
    match (handshake, event) {
        (_, HandshakeEvent::Failed(error)) => give_up(error@),
        (Handshake::AwaitVersion(options), HandshakeEvent::Version(theirs)) => {
            let agreed = options.rfb_version.older(theirs);
            (
                Handshake::SendVersion(HandshakeOptions { rfb_version: agreed, ..options }),
                HandshakeActionView::WriteVersion(agreed),
            )
        },
        (Handshake::SendVersion(options), HandshakeEvent::Sent) => (
            Handshake::AwaitSecurity(options),
            HandshakeActionView::ReadSecurityTypes(options.rfb_version),
        ),
        (Handshake::AwaitSecurity(options), HandshakeEvent::SecurityTypes(offered)) => {
            if offered@.contains(SecurityType::NoAuth) {
                if options.rfb_version == VncVersion::RFB33 {
                    let_in(options)
                } else {
                    (
                        Handshake::SendNoAuth(options),
                        HandshakeActionView::WriteSecurityType(SecurityType::NoAuth),
                    )
                }
            } else if offered@.contains(SecurityType::VncAuth) {
                if options.rfb_version == VncVersion::RFB33 {
                    ask_credential(options)
                } else {
                    (
                        Handshake::SendVncAuth(options),
                        HandshakeActionView::WriteSecurityType(SecurityType::VncAuth),
                    )
                }
            } else {
                give_up(
                    ErrorView::General(
                        "Security type apart from Vnc Auth has not been implemented"@,
                    ),
                )
            }
        },
        (Handshake::SendNoAuth(options), HandshakeEvent::Sent) => {
            if options.rfb_version == VncVersion::RFB38 {
                (Handshake::AwaitResult(options), HandshakeActionView::ReadSecurityResult)
            } else {
                let_in(options)
            }
        },
        (Handshake::AwaitResult(options), HandshakeEvent::SecurityResult) => let_in(options),
        (Handshake::SendVncAuth(options), HandshakeEvent::Sent) => ask_credential(options),
        (Handshake::AwaitCredential(options), HandshakeEvent::Credential(password)) => (
            Handshake::AwaitAuth(options),
            HandshakeActionView::Authenticate(password@),
        ),
        (Handshake::AwaitAuth(options), HandshakeEvent::Auth(AuthResult::Accepted)) => let_in(
            options,
        ),
        (Handshake::AwaitAuth(options), HandshakeEvent::Auth(AuthResult::Failed)) => {
            if options.rfb_version == VncVersion::RFB37 {
                give_up(ErrorView::WrongPassword)
            } else {
                (Handshake::AwaitReason, HandshakeActionView::ReadReason)
            }
        },
        (Handshake::AwaitReason, HandshakeEvent::Reason(reason)) => give_up(
            ErrorView::General(reason@),
        ),
        _ => arbitrary(),
    }
}

/// Whether a way to be let in is among those that are offered.
fn offers(offered: &Vec<SecurityType>, way: SecurityType) -> (found: bool)
    ensures
        found == offered@.contains(way),
{
    let mut i: usize = 0;
    while i < offered.len()
        invariant
            i <= offered@.len(),
            forall|j: int| 0 <= j < i ==> offered@[j] != way,
        decreases offered@.len() - i,
    {
        if offered[i] == way {
            return true;
        }
        i = i + 1;
    }
    false
}

impl HandshakeOptions {
    fn ask_credential(self) -> (next: (Handshake, HandshakeAction))
        ensures
            (next.0, next.1@) == ask_credential(self),
    {
        if self.has_auth_method {
            (Handshake::AwaitCredential(self), HandshakeAction::AskCredential)
        } else {
            (Handshake::Over, HandshakeAction::Fail(VncError::NoPassword))
        }
    }

    fn let_in(self) -> (next: (Handshake, HandshakeAction))
        ensures
            (next.0, next.1@) == let_in(self),
    {
        (Handshake::Over, HandshakeAction::StartClient(self.client))
    }

    /// Chooses one of the ways to be let in that the server offers.
    fn choose_security(self, offered: Vec<SecurityType>) -> (next: (Handshake, HandshakeAction))
        requires
            offered@.len() > 0,
        ensures
            (next.0, next.1@) == handshake_next(
                Handshake::AwaitSecurity(self),
                HandshakeEvent::SecurityTypes(offered),
            ),
    {
        let oldest = self.rfb_version == VncVersion::RFB33;
        if offers(&offered, SecurityType::NoAuth) {
            if oldest {
                self.let_in()
            } else {
                (
                    Handshake::SendNoAuth(self),
                    HandshakeAction::WriteSecurityType(SecurityType::NoAuth),
                )
            }
        } else if offers(&offered, SecurityType::VncAuth) {
            if oldest {
                self.ask_credential()
            } else {
                (
                    Handshake::SendVncAuth(self),
                    HandshakeAction::WriteSecurityType(SecurityType::VncAuth),
                )
            }
        } else {
            let msg = "Security type apart from Vnc Auth has not been implemented";
            (Handshake::Over, HandshakeAction::Fail(VncError::General(msg.to_owned())))
        }
    }
}

impl Handshake {
    /// Goes on with the handshake: takes what became of the last action, and says
    /// what to do next. The first action is to read the version of the server.
    pub fn step(self, event: HandshakeEvent) -> (next: (Handshake, HandshakeAction))
        requires
            expects(self, event),
        ensures
            (next.0, next.1@) == handshake_next(self, event),
    {
        match (self, event) {
            (_, HandshakeEvent::Failed(error)) => (Handshake::Over, HandshakeAction::Fail(error)),
            (Handshake::AwaitVersion(options), HandshakeEvent::Version(theirs)) => {
                let agreed = options.rfb_version.negotiate(theirs);
                (
                    Handshake::SendVersion(HandshakeOptions { rfb_version: agreed, ..options }),
                    HandshakeAction::WriteVersion(agreed),
                )
            },
            (Handshake::SendVersion(options), HandshakeEvent::Sent) => {
                let version = options.rfb_version;
                (Handshake::AwaitSecurity(options), HandshakeAction::ReadSecurityTypes(version))
            },
            (
                Handshake::AwaitSecurity(options),
                HandshakeEvent::SecurityTypes(offered),
            ) => options.choose_security(offered),
            (Handshake::SendNoAuth(options), HandshakeEvent::Sent) => {
                match options.rfb_version {
                    VncVersion::RFB38 => {
                        (Handshake::AwaitResult(options), HandshakeAction::ReadSecurityResult)
                    },
                    _ => options.let_in(),
                }
            },
            (Handshake::AwaitResult(options), HandshakeEvent::SecurityResult) => options.let_in(),
            (Handshake::SendVncAuth(options), HandshakeEvent::Sent) => options.ask_credential(),
            (Handshake::AwaitCredential(options), HandshakeEvent::Credential(password)) => (
                Handshake::AwaitAuth(options),
                HandshakeAction::Authenticate(password),
            ),
            (
                Handshake::AwaitAuth(options),
                HandshakeEvent::Auth(AuthResult::Accepted),
            ) => options.let_in(),
            (Handshake::AwaitAuth(options), HandshakeEvent::Auth(AuthResult::Failed)) => {
                match options.rfb_version {
                    VncVersion::RFB37 => {
                        (Handshake::Over, HandshakeAction::Fail(VncError::WrongPassword))
                    },
                    _ => (Handshake::AwaitReason, HandshakeAction::ReadReason),
                }
            },
            (_, HandshakeEvent::Reason(reason)) => (
                Handshake::Over,
                HandshakeAction::Fail(VncError::General(reason)),
            ),
            (_, _) => {
                assert(false);
                (Handshake::Over, HandshakeAction::Fail(VncError::ClientNotRunning))
            },
        }
    }
}

} // verus!
