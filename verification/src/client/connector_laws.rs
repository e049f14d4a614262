//! What holds of every handshake.
use crate::client::connector::{
    expects, handshake_next, AuthResult, ClientOptions, Handshake, HandshakeActionView,
    HandshakeEvent, HandshakeOptions, VncConnector, VncState,
};
use crate::config::{PixelFormat, SecurityType, VncEncoding, VncVersion};
use crate::error::{ErrorView, VncError};
use vstd::prelude::*;

verus! {

/// What is set is what a session is begun with, and nothing else changes with it: the
/// version, the way to get a password, the pixel format, and whether others stay connected.
pub proof fn law_settings_kept<S, A>(
    before: VncConnector<S, A>,
    ask: A,
    version: VncVersion,
    format: PixelFormat,
    shared: bool,
    with_ask: VncConnector<S, A>,
    with_version: VncConnector<S, A>,
    with_format: VncConnector<S, A>,
    with_shared: VncConnector<S, A>,
)
    requires
        call_ensures(VncConnector::<S, A>::set_auth_method, (before, ask), with_ask),
        call_ensures(VncConnector::<S, A>::set_version, (before, version), with_version),
        call_ensures(VncConnector::<S, A>::set_pixel_format, (before, format), with_format),
        call_ensures(VncConnector::<S, A>::allow_shared, (before, shared), with_shared),
    ensures
        with_ask.auth_method == Some(ask),
        with_version.rfb_version == version,
        with_format.options.pixel_format == Some(format),
        with_shared.options.allow_shared == shared,
        with_ask.stream == before.stream && with_version.stream == before.stream
            && with_format.stream == before.stream && with_shared.stream == before.stream,
        with_version.auth_method == before.auth_method && with_format.auth_method
            == before.auth_method && with_shared.auth_method == before.auth_method,
        with_ask.rfb_version == before.rfb_version && with_format.rfb_version == before.rfb_version
            && with_shared.rfb_version == before.rfb_version,
        with_ask.options == before.options && with_version.options == before.options,
        with_format.options.allow_shared == before.options.allow_shared,
        with_shared.options.pixel_format == before.options.pixel_format,
        with_format.options.encodings == before.options.encodings,
        with_shared.options.encodings == before.options.encodings,
{
}

/// A session begins if and only if there is an encoding, with all that was set; encodings
/// are kept in the order in which they were added.
pub proof fn law_session_begins<S, A>(
    before: VncConnector<S, A>,
    encoding: VncEncoding,
    after: VncConnector<S, A>,
    state: Result<VncState<S, A>, VncError>,
    started: (S, Option<A>, Handshake),
)
    requires
        call_ensures(VncConnector::<S, A>::add_encoding, (before, encoding), after),
        call_ensures(VncConnector::<S, A>::connect, (after,), state),
        state is Ok ==> call_ensures(VncState::<S, A>::try_start, (state->Ok_0,), started),
    ensures
        state is Ok,
        started.0 == before.stream,
        started.1 == before.auth_method,
        started.2 matches Handshake::AwaitVersion(options) && options.rfb_version
            == before.rfb_version && (options.has_auth_method <==> before.auth_method is Some)
            && options.client.allow_shared == before.options.allow_shared
            && options.client.pixel_format == before.options.pixel_format
            && options.client.encodings@.len() == before.options.encodings@.len() + 1
            && options.client.encodings@.last() == encoding && (forall|i: int|
            0 <= i < before.options.encodings@.len() ==> #[trigger] options.client.encodings@[i]
                == before.options.encodings@[i]),
{
}

/// Whether a handshake can see these events, one after the other.
pub open spec fn can_see(handshake: Handshake, events: Seq<HandshakeEvent>) -> bool
    decreases events.len(),
{
    events.len() == 0 || expects(handshake, events[0]) && can_see(
        handshake_next(handshake, events[0]).0,
        events.drop_first(),
    )
}

/// What a handshake does about events, one action for each.
pub open spec fn actions(handshake: Handshake, events: Seq<HandshakeEvent>) -> Seq<
    HandshakeActionView,
>
    decreases events.len(),
{
    if events.len() == 0 {
        Seq::empty()
    } else {
        let (next, action) = handshake_next(handshake, events[0]);
        seq![action] + actions(next, events.drop_first())
    }
}

/// Whether one of the events up to number `i` meets a condition.
pub open spec fn seen_by(
    events: Seq<HandshakeEvent>,
    i: int,
    condition: spec_fn(HandshakeEvent) -> bool,
) -> bool {
    exists|j: int| 0 <= j <= i && j < events.len() && condition(#[trigger] events[j])
}

/// The server wants a password: it offers that way to be let in, and does not let
/// everybody in.
pub open spec fn wants_password(event: HandshakeEvent) -> bool {
    event matches HandshakeEvent::SecurityTypes(offered) && !offered@.contains(SecurityType::NoAuth)
        && offered@.contains(SecurityType::VncAuth)
}

/// The server lets the client in: it lets everybody in, or accepts the password.
pub open spec fn admits(event: HandshakeEvent) -> bool {
    match event {
        HandshakeEvent::SecurityTypes(offered) => offered@.contains(SecurityType::NoAuth),
        HandshakeEvent::Auth(AuthResult::Accepted) => true,
        _ => false,
    }
}

proof fn lemma_seen_later(
    events: Seq<HandshakeEvent>,
    i: int,
    condition: spec_fn(HandshakeEvent) -> bool,
)
    requires
        events.len() > 0,
        seen_by(events.drop_first(), i - 1, condition),
    ensures
        seen_by(events, i, condition),
{
    let rest = events.drop_first();
    let j = choose|j: int| 0 <= j <= i - 1 && j < rest.len() && condition(#[trigger] rest[j]);
    assert(events[j + 1] == rest[j]);
}

/// What a handshake knows.
spec fn options_of(handshake: Handshake) -> Option<HandshakeOptions> {
    match handshake {
        Handshake::AwaitVersion(options) => Some(options),
        Handshake::SendVersion(options) => Some(options),
        Handshake::AwaitSecurity(options) => Some(options),
        Handshake::SendNoAuth(options) => Some(options),
        Handshake::AwaitResult(options) => Some(options),
        Handshake::SendVncAuth(options) => Some(options),
        Handshake::AwaitCredential(options) => Some(options),
        Handshake::AwaitAuth(options) => Some(options),
        Handshake::AwaitReason => None,
        Handshake::Over => None,
    }
}

proof fn lemma_action_for_each(handshake: Handshake, events: Seq<HandshakeEvent>)
    ensures
        actions(handshake, events).len() == events.len(),
    decreases events.len(),
{
    if events.len() > 0 {
        lemma_action_for_each(handshake_next(handshake, events[0]).0, events.drop_first());
    }
}

proof fn lemma_asks_only_if_wanted(handshake: Handshake, events: Seq<HandshakeEvent>, i: int)
    requires
        can_see(handshake, events),
        0 <= i < events.len(),
        actions(handshake, events)[i] is AskCredential,
    ensures
        options_of(handshake) is Some,
        options_of(handshake)->Some_0.has_auth_method,
        handshake is SendVncAuth || seen_by(events, i, |event| wants_password(event)),
    decreases events.len(),
{
    let next = handshake_next(handshake, events[0]).0;
    if i == 0 {
        if !(handshake is SendVncAuth) {
            assert(wants_password(events[0]));
        }
    } else {
        lemma_action_for_each(next, events.drop_first());
        assert(actions(handshake, events)[i] == actions(next, events.drop_first())[i - 1]);
        lemma_asks_only_if_wanted(next, events.drop_first(), i - 1);
        if next is SendVncAuth {
            assert(wants_password(events[0]));
        } else {
            lemma_seen_later(events, i, |event| wants_password(event));
        }
    }
}

/// The user is asked for a password only if the server wants one and there is a way
/// to ask. Where the server lets everybody in, nobody is asked.
pub proof fn law_password_only_if_wanted(
    options: HandshakeOptions,
    events: Seq<HandshakeEvent>,
    i: int,
)
    requires
        can_see(Handshake::AwaitVersion(options), events),
        0 <= i < events.len(),
        actions(Handshake::AwaitVersion(options), events)[i] is AskCredential,
    ensures
        options.has_auth_method,
        seen_by(events, i, |event| wants_password(event)),
{
    lemma_asks_only_if_wanted(Handshake::AwaitVersion(options), events, i);
}

proof fn lemma_starts_only_if_admitted(handshake: Handshake, events: Seq<HandshakeEvent>, i: int)
    requires
        can_see(handshake, events),
        0 <= i < events.len(),
        actions(handshake, events)[i] is StartClient,
    ensures
        options_of(handshake) is Some,
        actions(handshake, events)[i] == HandshakeActionView::StartClient(
            options_of(handshake)->Some_0.client,
        ),
        handshake is SendNoAuth || handshake is AwaitResult || seen_by(
            events,
            i,
            |event| admits(event),
        ),
    decreases events.len(),
{
    let next = handshake_next(handshake, events[0]).0;
    if i == 0 {
        if !(handshake is SendNoAuth || handshake is AwaitResult) {
            assert(admits(events[0]));
        }
    } else {
        lemma_action_for_each(next, events.drop_first());
        assert(actions(handshake, events)[i] == actions(next, events.drop_first())[i - 1]);
        lemma_starts_only_if_admitted(next, events.drop_first(), i - 1);
        if next is SendNoAuth || next is AwaitResult {
            if !(handshake is SendNoAuth) {
                assert(admits(events[0]));
            }
        } else {
            lemma_seen_later(events, i, |event| admits(event));
        }
    }
}

/// A client is started only if the server has let it in, and then with the options
/// that it was configured with.
pub proof fn law_started_only_if_let_in(
    options: HandshakeOptions,
    events: Seq<HandshakeEvent>,
    i: int,
)
    requires
        can_see(Handshake::AwaitVersion(options), events),
        0 <= i < events.len(),
        actions(Handshake::AwaitVersion(options), events)[i] is StartClient,
    ensures
        actions(Handshake::AwaitVersion(options), events)[i] == HandshakeActionView::StartClient(
            options.client,
        ),
        seen_by(events, i, |event| admits(event)),
{
    lemma_starts_only_if_admitted(Handshake::AwaitVersion(options), events, i);
}

proof fn lemma_no_choice_in_oldest(handshake: Handshake, events: Seq<HandshakeEvent>, i: int)
    requires
        can_see(handshake, events),
        0 <= i < events.len(),
        actions(handshake, events)[i] is WriteSecurityType,
        !(handshake is AwaitVersion),
    ensures
        options_of(handshake) is Some,
        options_of(handshake)->Some_0.rfb_version != VncVersion::RFB33,
    decreases events.len(),
{
    if i > 0 {
        let next = handshake_next(handshake, events[0]).0;
        lemma_action_for_each(next, events.drop_first());
        assert(actions(handshake, events)[i] == actions(next, events.drop_first())[i - 1]);
        lemma_no_choice_in_oldest(next, events.drop_first(), i - 1);
    }
}

/// The client chooses a way to be let in only where the version leaves it the choice: in the
/// oldest version the server decides.
pub proof fn law_server_decides_in_oldest(
    options: HandshakeOptions,
    events: Seq<HandshakeEvent>,
    i: int,
)
    requires
        can_see(Handshake::AwaitVersion(options), events),
        0 <= i < events.len(),
        actions(Handshake::AwaitVersion(options), events)[i] is WriteSecurityType,
    ensures
        events[0] is Version,
        options.rfb_version.older(events[0]->Version_0) != VncVersion::RFB33,
{
    let handshake = Handshake::AwaitVersion(options);
    let next = handshake_next(handshake, events[0]).0;
    lemma_action_for_each(next, events.drop_first());
    assert(i > 0);
    assert(actions(handshake, events)[i] == actions(next, events.drop_first())[i - 1]);
    lemma_no_choice_in_oldest(next, events.drop_first(), i - 1);
}

/// The version of a session is known to both sides: it is none other than one of
/// theirs, and not newer than either.
pub proof fn law_version_known_to_both(ours: VncVersion, theirs: VncVersion)
    ensures
        ours.older(theirs) == ours || ours.older(theirs) == theirs,
        ours.older(theirs).rank() <= ours.rank(),
        ours.older(theirs).rank() <= theirs.rank(),
        ours.older(theirs) == theirs.older(ours),
{
}

/// The version of a session is the oldest if and only if one side knows no newer one, and the
/// newest if and only if both sides know it.
pub proof fn law_version_agreed(ours: VncVersion, theirs: VncVersion)
    ensures
        ours.older(theirs) == VncVersion::RFB33 <==> ours == VncVersion::RFB33 || theirs
            == VncVersion::RFB33,
        ours.older(theirs) == VncVersion::RFB38 <==> ours == VncVersion::RFB38 && theirs
            == VncVersion::RFB38,
{
}

proof fn lemma_proves_given_password(handshake: Handshake, events: Seq<HandshakeEvent>, i: int)
    requires
        can_see(handshake, events),
        0 <= i < events.len(),
        actions(handshake, events)[i] is Authenticate,
    ensures
        events[i] matches HandshakeEvent::Credential(password) && actions(handshake, events)[i]
            == HandshakeActionView::Authenticate(password@),
        i == 0 ==> handshake is AwaitCredential,
        i > 0 ==> actions(handshake, events)[i - 1] is AskCredential,
    decreases events.len(),
{
    if i > 0 {
        let (next, action) = handshake_next(handshake, events[0]);
        let rest = events.drop_first();
        lemma_action_for_each(next, rest);
        assert(actions(handshake, events)[i] == actions(next, rest)[i - 1]);
        assert(events[i] == rest[i - 1]);
        lemma_proves_given_password(next, rest, i - 1);
        if i > 1 {
            assert(actions(handshake, events)[i - 1] == actions(next, rest)[i - 2]);
        } else {
            assert(actions(handshake, events)[0] == action);
        }
    }
}

/// The client proves to know a password only right after the user was asked for one, and it
/// is the one that the user has given.
pub proof fn law_password_of_user(
    options: HandshakeOptions,
    events: Seq<HandshakeEvent>,
    i: int,
)
    requires
        can_see(Handshake::AwaitVersion(options), events),
        0 <= i < events.len(),
        actions(Handshake::AwaitVersion(options), events)[i] is Authenticate,
    ensures
        i > 0,
        actions(Handshake::AwaitVersion(options), events)[i - 1] is AskCredential,
        events[i] matches HandshakeEvent::Credential(password) && actions(
            Handshake::AwaitVersion(options),
            events,
        )[i] == HandshakeActionView::Authenticate(password@),
        options.has_auth_method,
{
    lemma_proves_given_password(Handshake::AwaitVersion(options), events, i);
    lemma_asks_only_if_wanted(Handshake::AwaitVersion(options), events, i - 1);
}

/// What a server sends that wants a password nobody can give, or that lets nobody in in a
/// known way: its version, the ways that it offers, and nothing more. `chosen` tells whether
/// the client has written one of them.
pub open spec fn refused_answers(
    theirs: VncVersion,
    offered: Vec<SecurityType>,
    chosen: bool,
) -> Seq<HandshakeEvent> {
    seq![
        HandshakeEvent::Version(theirs),
        HandshakeEvent::Sent,
        HandshakeEvent::SecurityTypes(offered),
    ] + (if chosen {
        seq![HandshakeEvent::Sent]
    } else {
        Seq::empty()
    })
}

/// If the server wants a password and there is no way to get one, the client says so and gives
/// up, in every version, once it has chosen that way where the version lets it.
pub proof fn law_no_password(
    options: HandshakeOptions,
    theirs: VncVersion,
    offered: Vec<SecurityType>,
)
    requires
        !options.has_auth_method,
        !offered@.contains(SecurityType::NoAuth),
        offered@.contains(SecurityType::VncAuth),
    ensures
        ({
            let agreed = options.rfb_version.older(theirs);
            let oldest = options.rfb_version == VncVersion::RFB33 || theirs == VncVersion::RFB33;
            let answers = refused_answers(theirs, offered, !oldest);
            &&& can_see(Handshake::AwaitVersion(options), answers)
            &&& actions(Handshake::AwaitVersion(options), answers) == seq![
                HandshakeActionView::WriteVersion(agreed),
                HandshakeActionView::ReadSecurityTypes(agreed),
            ] + (if oldest {
                Seq::empty()
            } else {
                seq![HandshakeActionView::WriteSecurityType(SecurityType::VncAuth)]
            }) + seq![HandshakeActionView::Fail(ErrorView::NoPassword)]
        }),
{
    let agreed = options.rfb_version.older(theirs);
    let oldest = options.rfb_version == VncVersion::RFB33 || theirs == VncVersion::RFB33;
    let answers = refused_answers(theirs, offered, !oldest);
    reveal_with_fuel(can_see, 6);
    reveal_with_fuel(actions, 6);
    assert(actions(Handshake::AwaitVersion(options), answers) =~= seq![
        HandshakeActionView::WriteVersion(agreed),
        HandshakeActionView::ReadSecurityTypes(agreed),
    ] + (if oldest {
        Seq::empty()
    } else {
        seq![HandshakeActionView::WriteSecurityType(SecurityType::VncAuth)]
    }) + seq![HandshakeActionView::Fail(ErrorView::NoPassword)]);
}

/// If the server neither lets everybody in nor wants a password, the client gives up at once,
/// in every version.
pub proof fn law_no_known_way(
    options: HandshakeOptions,
    theirs: VncVersion,
    offered: Vec<SecurityType>,
)
    requires
        offered@.len() > 0,
        !offered@.contains(SecurityType::NoAuth),
        !offered@.contains(SecurityType::VncAuth),
    ensures
        ({
            let agreed = options.rfb_version.older(theirs);
            let answers = refused_answers(theirs, offered, false);
            let why = "Security type apart from Vnc Auth has not been implemented"@;
            &&& can_see(Handshake::AwaitVersion(options), answers)
            &&& actions(Handshake::AwaitVersion(options), answers) == seq![
                HandshakeActionView::WriteVersion(agreed),
                HandshakeActionView::ReadSecurityTypes(agreed),
                HandshakeActionView::Fail(ErrorView::General(why)),
            ]
        }),
{
    let agreed = options.rfb_version.older(theirs);
    let answers = refused_answers(theirs, offered, false);
    let why = "Security type apart from Vnc Auth has not been implemented"@;
    reveal_with_fuel(can_see, 5);
    reveal_with_fuel(actions, 5);
    assert(actions(Handshake::AwaitVersion(options), answers) =~= seq![
        HandshakeActionView::WriteVersion(agreed),
        HandshakeActionView::ReadSecurityTypes(agreed),
        HandshakeActionView::Fail(ErrorView::General(why)),
    ]);
}

/// The version that is agreed upon is none but the older of the two.
pub proof fn law_older_version_wins(ours: VncVersion, theirs: VncVersion, agreed: VncVersion)
    requires
        call_ensures(VncVersion::negotiate, (ours, theirs), agreed),
    ensures
        agreed == VncVersion::RFB33 <==> ours == VncVersion::RFB33 || theirs == VncVersion::RFB33,
        agreed == VncVersion::RFB38 <==> ours == VncVersion::RFB38 && theirs == VncVersion::RFB38,
{
}

/// A handshake is over once the client starts or gives up, and before that it is not.
pub proof fn law_handshake_over(handshake: Handshake, event: HandshakeEvent)
    requires
        expects(handshake, event),
    ensures
        ({
            let (next, action) = handshake_next(handshake, event);
            next is Over <==> action is StartClient || action is Fail
        }),
{
}

/// A handshake comes to its end: it sees no more than seven events.
pub proof fn law_handshake_ends(options: HandshakeOptions, events: Seq<HandshakeEvent>)
    requires
        can_see(Handshake::AwaitVersion(options), events),
    ensures
        events.len() <= 7,
{
    lemma_steps_left(Handshake::AwaitVersion(options), events);
}

/// Whatever fails, the handshake gives up with that error and does nothing more.
pub proof fn law_handshake_failure(handshake: Handshake, error: VncError)
    requires
        !(handshake is Over),
    ensures
        expects(handshake, HandshakeEvent::Failed(error)),
        handshake_next(handshake, HandshakeEvent::Failed(error)) == (
            Handshake::Over,
            HandshakeActionView::Fail(error@),
        ),
        forall|event: HandshakeEvent| !expects(Handshake::Over, event),
{
}

/// How many events a handshake can still see.
spec fn steps_left(handshake: Handshake) -> nat {
    match handshake {
        Handshake::AwaitVersion(_) => 7,
        Handshake::SendVersion(_) => 6,
        Handshake::AwaitSecurity(_) => 5,
        Handshake::SendNoAuth(_) => 2,
        Handshake::AwaitResult(_) => 1,
        Handshake::SendVncAuth(_) => 4,
        Handshake::AwaitCredential(_) => 3,
        Handshake::AwaitAuth(_) => 2,
        Handshake::AwaitReason => 1,
        Handshake::Over => 0,
    }
}

proof fn lemma_steps_left(handshake: Handshake, events: Seq<HandshakeEvent>)
    requires
        can_see(handshake, events),
    ensures
        events.len() <= steps_left(handshake),
    decreases events.len(),
{
    if events.len() > 0 {
        lemma_steps_left(handshake_next(handshake, events[0]).0, events.drop_first());
    }
}

/// What the client writes to a server that lets everybody in: the version, and its
/// choice unless the version is the oldest. It then starts, with the consent of the
/// server in the newest version.
pub open spec fn open_dialogue(agreed: VncVersion, client: ClientOptions) -> Seq<
    HandshakeActionView,
> {
    let chosen = HandshakeActionView::WriteSecurityType(SecurityType::NoAuth);
    let start = HandshakeActionView::StartClient(client);
    seq![
        HandshakeActionView::WriteVersion(agreed),
        HandshakeActionView::ReadSecurityTypes(agreed),
    ] + match agreed {
        VncVersion::RFB33 => seq![start],
        VncVersion::RFB37 => seq![chosen, start],
        VncVersion::RFB38 => seq![chosen, HandshakeActionView::ReadSecurityResult, start],
    }
}

/// What the answers of a server that lets everybody in are.
pub open spec fn open_answers(
    agreed: VncVersion,
    theirs: VncVersion,
    offered: Vec<SecurityType>,
) -> Seq<HandshakeEvent> {
    seq![
        HandshakeEvent::Version(theirs),
        HandshakeEvent::Sent,
        HandshakeEvent::SecurityTypes(offered),
    ] + match agreed {
        VncVersion::RFB33 => Seq::empty(),
        VncVersion::RFB37 => seq![HandshakeEvent::Sent],
        VncVersion::RFB38 => seq![HandshakeEvent::Sent, HandshakeEvent::SecurityResult],
    }
}

/// A server that lets everybody in gets the dialogue of its version, whatever else it
/// offers.
pub proof fn law_open_server(
    options: HandshakeOptions,
    theirs: VncVersion,
    offered: Vec<SecurityType>,
)
    requires
        offered@.contains(SecurityType::NoAuth),
    ensures
        ({
            let agreed = options.rfb_version.older(theirs);
            let answers = open_answers(agreed, theirs, offered);
            &&& can_see(Handshake::AwaitVersion(options), answers)
            &&& actions(Handshake::AwaitVersion(options), answers) == open_dialogue(
                agreed,
                options.client,
            )
        }),
{
    let agreed = options.rfb_version.older(theirs);
    let answers = open_answers(agreed, theirs, offered);
    reveal_with_fuel(can_see, 6);
    reveal_with_fuel(actions, 6);
    assert(actions(Handshake::AwaitVersion(options), answers) =~= open_dialogue(
        agreed,
        options.client,
    ));
}

/// The end of a session that needs a password: the client starts if the password is
/// accepted. If it is not, the client gives up, with the reason of the server where
/// the version has one.
pub open spec fn verdict(
    agreed: VncVersion,
    client: ClientOptions,
    result: AuthResult,
    reason: Seq<char>,
) -> Seq<HandshakeActionView> {
    if result == AuthResult::Accepted {
        seq![HandshakeActionView::StartClient(client)]
    } else if agreed == VncVersion::RFB37 {
        seq![HandshakeActionView::Fail(ErrorView::WrongPassword)]
    } else {
        seq![
            HandshakeActionView::ReadReason,
            HandshakeActionView::Fail(ErrorView::General(reason)),
        ]
    }
}

/// What the client does with a server that wants a password: it writes the version,
/// and its choice unless the version is the oldest, asks the user, and proves that
/// the password is known.
pub open spec fn password_dialogue(
    agreed: VncVersion,
    client: ClientOptions,
    password: Seq<char>,
    result: AuthResult,
    reason: Seq<char>,
) -> Seq<HandshakeActionView> {
    seq![
        HandshakeActionView::WriteVersion(agreed),
        HandshakeActionView::ReadSecurityTypes(agreed),
    ] + (if agreed == VncVersion::RFB33 {
        Seq::empty()
    } else {
        seq![HandshakeActionView::WriteSecurityType(SecurityType::VncAuth)]
    }) + seq![HandshakeActionView::AskCredential, HandshakeActionView::Authenticate(password)]
        + verdict(agreed, client, result, reason)
}

/// What the answers of a server that wants a password, and of the user, are.
pub open spec fn password_answers(
    agreed: VncVersion,
    theirs: VncVersion,
    offered: Vec<SecurityType>,
    password: String,
    result: AuthResult,
    reason: String,
) -> Seq<HandshakeEvent> {
    seq![
        HandshakeEvent::Version(theirs),
        HandshakeEvent::Sent,
        HandshakeEvent::SecurityTypes(offered),
    ] + (if agreed == VncVersion::RFB33 {
        Seq::empty()
    } else {
        seq![HandshakeEvent::Sent]
    }) + seq![HandshakeEvent::Credential(password), HandshakeEvent::Auth(result)] + (if result
        == AuthResult::Accepted || agreed == VncVersion::RFB37 {
        Seq::empty()
    } else {
        seq![HandshakeEvent::Reason(reason)]
    })
}

/// A server that wants a password gets the dialogue of its version, and decides how
/// it ends.
pub proof fn law_password_server(
    options: HandshakeOptions,
    theirs: VncVersion,
    offered: Vec<SecurityType>,
    password: String,
    result: AuthResult,
    reason: String,
)
    requires
        options.has_auth_method,
        !offered@.contains(SecurityType::NoAuth),
        offered@.contains(SecurityType::VncAuth),
    ensures
        ({
            let agreed = options.rfb_version.older(theirs);
            let answers = password_answers(agreed, theirs, offered, password, result, reason);
            &&& can_see(Handshake::AwaitVersion(options), answers)
            &&& actions(Handshake::AwaitVersion(options), answers) == password_dialogue(
                agreed,
                options.client,
                password@,
                result,
                reason@,
            )
        }),
{
    let agreed = options.rfb_version.older(theirs);
    let answers = password_answers(agreed, theirs, offered, password, result, reason);
    reveal_with_fuel(can_see, 9);
    reveal_with_fuel(actions, 9);
    assert(actions(Handshake::AwaitVersion(options), answers) =~= password_dialogue(
        agreed,
        options.client,
        password@,
        result,
        reason@,
    ));
}

} // verus!
