//! A client that runs, and the task that serves it.
use crate::error::{ErrorView, VncError};
use crate::event::{ClientEvent, EventView, Screen, VncEvent};
use tokio::sync::mpsc::error::TryRecvError;
use tokio::sync::mpsc::{Receiver, Sender};
use tokio::sync::watch;
use vstd::prelude::*;

verus! {

/// How many events of the user can wait to be sent.
pub const CHANNEL_SIZE: usize = 128;

/// How many events can wait for the user.
pub const EVENT_CHANNEL_SIZE: usize = 1;

/// Declares `tokio::sync::mpsc::Sender`, the end of a channel that takes items in.
#[verifier::external_type_specification]
#[verifier::external_body]
#[verifier::reject_recursive_types(T)]
pub struct ExSender<T>(Sender<T>);

/// Declares `tokio::sync::mpsc::Receiver`, the end of a channel that hands items out.
#[verifier::external_type_specification]
#[verifier::external_body]
#[verifier::reject_recursive_types(T)]
pub struct ExReceiver<T>(Receiver<T>);

/// Declares `tokio::sync::watch::Sender`, which holds a value that others watch.
#[verifier::external_type_specification]
#[verifier::external_body]
#[verifier::reject_recursive_types(T)]
pub struct ExWatchSender<T>(watch::Sender<T>);

/// Declares `tokio::sync::watch::Receiver`, which watches a value.
#[verifier::external_type_specification]
#[verifier::external_body]
#[verifier::reject_recursive_types(T)]
pub struct ExWatchReceiver<T>(watch::Receiver<T>);

/// How many events of the user the channel can hold whose two ends these are; nothing if
/// they are ends of different channels.
pub uninterp spec fn client_capacity(
    tx: Sender<ClientEvent>,
    rx: Receiver<ClientEvent>,
) -> Option<nat>;

/// How many events for the user the channel can hold whose two ends these are; nothing if
/// they are ends of different channels.
pub uninterp spec fn event_capacity(tx: Sender<VncEvent>, rx: Receiver<VncEvent>) -> Option<nat>;

/// The events of the user that a receiver has handed out, the first in front.
pub uninterp spec fn handed_out(rx: Receiver<ClientEvent>) -> Seq<ClientEvent>;

/// The events for the user that a receiver has handed out, the first in front.
pub uninterp spec fn handed_to_user(rx: Receiver<VncEvent>) -> Seq<VncEvent>;

/// Whether a receiver of events of the user has found, when it looked last, that it has
/// nothing more to hand out.
pub uninterp spec fn found_user_gone(rx: Receiver<ClientEvent>) -> bool;

/// Whether a receiver of events for the user has found, when it looked last, that it has
/// nothing more to hand out.
pub uninterp spec fn found_task_gone(rx: Receiver<VncEvent>) -> bool;

/// The value that a sender holds for others to watch. It is changed through the
/// sender alone.
pub uninterp spec fn watched(tx: watch::Sender<bool>) -> bool;

/// Whether a receiver watches the value that a sender holds.
pub uninterp spec fn watches(rx: watch::Receiver<bool>, tx: watch::Sender<bool>) -> bool;

/// The value that a receiver has seen when it looked last.
pub uninterp spec fn seen(rx: watch::Receiver<bool>) -> bool;

/// Calls `tokio::sync::mpsc::channel` for events of the user: the ends are those of one
/// channel, which holds as many events as it is asked to, and the receiver has handed out
/// none yet. It would panic on a size of zero, or on one above an eighth of the largest
/// number.
#[verifier::external_body]
fn client_channel(size: usize) -> (ends: (Sender<ClientEvent>, Receiver<ClientEvent>))
    requires
        0 < size <= usize::MAX / 8,
    ensures
        client_capacity(ends.0, ends.1) == Some(size as nat),
        handed_out(ends.1) == Seq::<ClientEvent>::empty(),
{
    tokio::sync::mpsc::channel(size)
}

/// Calls `tokio::sync::mpsc::channel` for events for the user: the ends are those of one
/// channel, which holds as many events as it is asked to, and the receiver has handed out
/// none yet. It would panic on a size of zero, or on one above an eighth of the largest
/// number.
#[verifier::external_body]
fn event_channel(size: usize) -> (ends: (Sender<VncEvent>, Receiver<VncEvent>))
    requires
        0 < size <= usize::MAX / 8,
    ensures
        event_capacity(ends.0, ends.1) == Some(size as nat),
        handed_to_user(ends.1) == Seq::<VncEvent>::empty(),
{
    tokio::sync::mpsc::channel(size)
}

/// Calls `tokio::sync::watch::channel`: the receiver watches the value of the sender, which
/// is the one given.
#[verifier::external_body]
fn watch_channel(value: bool) -> (ends: (watch::Sender<bool>, watch::Receiver<bool>))
    ensures
        watched(ends.0) == value,
        watches(ends.1, ends.0),
{
    watch::channel(value)
}

/// Puts a value in the place of another.
fn overwrite(held: &mut bool, value: bool)
    ensures
        *final(held) == value,
{
    *held = value;
}

/// Calls `tokio::sync::watch::Sender::send_modify`: the value that is watched is the one
/// given from now on, even if nobody watches, and those that watch it still do.
#[verifier::external_body]
fn set_watched(tx: &mut watch::Sender<bool>, value: bool)
    ensures
        watched(*final(tx)) == value,
        forall|rx: watch::Receiver<bool>|
            #[trigger] watches(rx, *final(tx)) == watches(rx, *old(tx)),
{
    tx.send_modify(|held| overwrite(held, value))
}

/// Calls `tokio::sync::watch::Receiver::borrow`. The value is the one that the receiver has
/// seen now, and the receiver still watches what it did. Which value that is depends on when
/// the other side has changed it, so nothing more is promised of it.
#[verifier::external_body]
fn see_watched(rx: &mut watch::Receiver<bool>) -> (value: bool)
    ensures
        seen(*final(rx)) == value,
        forall|tx: watch::Sender<bool>|
            #[trigger] watches(*final(rx), tx) == watches(*old(rx), tx),
{
    *rx.borrow()
}

/// What a channel has to hand out.
#[derive(Debug, PartialEq, Eq)]
pub enum Polled<T> {
    Item(T),
    /// Nothing now.
    Empty,
    /// Nothing any more: the other side is gone.
    Disconnected,
}

/// Calls `tokio::sync::mpsc::Receiver::try_recv` for events of the user. The receiver stays
/// the end of its channel. An event that is returned has been handed out, and no other has;
/// `Disconnected` is what it has found if there is nothing more to hand out, and only then.
/// What there is depends on what the other side has done, so nothing is promised of whether
/// it is an event, and of which.
#[verifier::external_body]
fn poll_client_events(rx: &mut Receiver<ClientEvent>) -> (polled: Polled<ClientEvent>)
    ensures
        forall|tx: Sender<ClientEvent>|
            #[trigger] client_capacity(tx, *final(rx)) == client_capacity(tx, *old(rx)),
        match polled {
            Polled::Item(event) => handed_out(*final(rx)) == handed_out(*old(rx)).push(event),
            _ => handed_out(*final(rx)) == handed_out(*old(rx)),
        },
        polled is Disconnected <==> found_user_gone(*final(rx)),
{
    match rx.try_recv() {
        Ok(item) => Polled::Item(item),
        Err(TryRecvError::Empty) => Polled::Empty,
        Err(TryRecvError::Disconnected) => Polled::Disconnected,
    }
}

/// Calls `tokio::sync::mpsc::Receiver::try_recv` for events for the user. The receiver stays
/// the end of its channel. An event that is returned has been handed out, and no other has;
/// `Disconnected` is what it has found if there is nothing more to hand out, and only then.
/// What there is depends on what the other side has done, so nothing is promised of whether
/// it is an event, and of which.
#[verifier::external_body]
fn poll_events(rx: &mut Receiver<VncEvent>) -> (polled: Polled<VncEvent>)
    ensures
        forall|tx: Sender<VncEvent>|
            #[trigger] event_capacity(tx, *final(rx)) == event_capacity(tx, *old(rx)),
        match polled {
            Polled::Item(event) => handed_to_user(*final(rx)) == handed_to_user(*old(rx)).push(
                event,
            ),
            _ => handed_to_user(*final(rx)) == handed_to_user(*old(rx)),
        },
        polled is Disconnected <==> found_task_gone(*final(rx)),
{
    match rx.try_recv() {
        Ok(item) => Polled::Item(item),
        Err(TryRecvError::Empty) => Polled::Empty,
        Err(TryRecvError::Disconnected) => Polled::Disconnected,
    }
}

/// The instance of a connected client.
pub struct VncClient {
    name: String,
    screen: Screen,
    watch_close: watch::Sender<bool>,
    client_tx: Sender<ClientEvent>,
    server_rx: Receiver<VncEvent>,
    closed: bool,
}

/// The other ends of the channels of a client, for the task that serves it.
pub struct IoTask {
    input_ch_rx: Receiver<ClientEvent>,
    server_tx: Sender<VncEvent>,
    watch_close_rx: watch::Receiver<bool>,
}

/// A call of a client, with what it was handed and what it answered.
pub enum ClientCall {
    EnsureAlive(Result<(), VncError>),
    /// The channel has handed out this event, or no more events.
    Received(Option<VncEvent>),
    /// The channel has this to hand out.
    Polled(Polled<VncEvent>),
    TryRecv(Result<Option<VncEvent>, VncError>),
    /// Events of the user are put into the channel.
    ClientTx,
    /// Events are taken from the channel.
    ServerRx,
    Close,
}

impl VncClient {
    /// What the server calls its desktop.
    pub closed spec fn desktop(&self) -> Seq<char> {
        self.name@
    }

    pub closed spec fn size(&self) -> Screen {
        self.screen
    }

    /// Whether the client has been closed, or has lost its connection.
    pub closed spec fn is_closed(&self) -> bool {
        self.closed
    }

    /// Whether the task that serves the client has been asked to stop.
    pub closed spec fn asked_to_stop(&self) -> bool {
        watched(self.watch_close)
    }

    /// Where events of the user are put.
    pub closed spec fn sender(&self) -> Sender<ClientEvent> {
        self.client_tx
    }

    /// Where events for the user are taken from.
    pub closed spec fn receiver(&self) -> Receiver<VncEvent> {
        self.server_rx
    }

    /// Whether a task gets the events of the user.
    pub open spec fn is_heard_by(&self, task: &IoTask) -> bool {
        client_capacity(self.sender(), task.receiver()) == Some(CHANNEL_SIZE as nat)
    }

    /// Whether the user gets the events of a task.
    pub open spec fn hears(&self, task: &IoTask) -> bool {
        event_capacity(task.sender(), self.receiver()) == Some(EVENT_CHANNEL_SIZE as nat)
    }

    /// Whether a task sees a request to stop.
    pub closed spec fn is_watched_by(&self, task: &IoTask) -> bool {
        watches(task.watch_close_rx, self.watch_close)
    }

    /// Whether `self` is `before` but for where events for the user are taken from, and for
    /// whether it is closed.
    pub open spec fn same_client(&self, before: &VncClient) -> bool {
        &&& self.desktop() == before.desktop()
        &&& self.size() == before.size()
        &&& self.asked_to_stop() == before.asked_to_stop()
        &&& self.sender() == before.sender()
        &&& forall|task: &IoTask| #[trigger]
            self.is_watched_by(task) == before.is_watched_by(task)
    }

    /// Whether a call can have been answered so, and have made `after` of the client, as far
    /// as it matters whether they are closed.
    pub open spec fn becomes(&self, call: ClientCall, after: &VncClient) -> bool {
        match call {
            ClientCall::EnsureAlive(alive) => {
                &&& alive == if self.is_closed() {
                    Err::<(), VncError>(VncError::ClientNotRunning)
                } else {
                    Ok(())
                }
                &&& after.is_closed() == self.is_closed()
            },
            ClientCall::Received(event) => after.is_closed() == (self.is_closed() || event is None),
            ClientCall::Polled(polled) => after.is_closed() == (self.is_closed()
                || polled is Disconnected),
            ClientCall::TryRecv(result) => {
                &&& self.is_closed() ==> result is Err
                &&& after.is_closed() == result is Err
            },
            ClientCall::ClientTx => after.is_closed() == self.is_closed(),
            ClientCall::ServerRx => after.is_closed() == self.is_closed(),
            ClientCall::Close => after.is_closed(),
        }
    }

    /// A client, and the other ends of its channels.
    pub fn new(name: String, screen: Screen) -> (ends: (VncClient, IoTask))
        ensures
            ends.0.desktop() == name@,
            ends.0.size() == screen,
            !ends.0.is_closed(),
            !ends.0.asked_to_stop(),
            ends.0.is_heard_by(&ends.1),
            ends.0.hears(&ends.1),
            ends.0.is_watched_by(&ends.1),
            ends.1.taken() == Seq::<ClientEvent>::empty(),
            handed_to_user(ends.0.receiver()) == Seq::<VncEvent>::empty(),
    {
        let (client_tx, input_ch_rx) = client_channel(CHANNEL_SIZE);
        let (server_tx, server_rx) = event_channel(EVENT_CHANNEL_SIZE);
        let (watch_close, watch_close_rx) = watch_channel(false);
        (
            VncClient { name, screen, watch_close, client_tx, server_rx, closed: false },
            IoTask { input_ch_rx, server_tx, watch_close_rx },
        )
    }

    /// What the server calls its desktop.
    pub fn name(&self) -> (name: &String)
        ensures
            name@ == self.desktop(),
    {
        &self.name
    }

    /// Where events of the user are put.
    pub fn client_tx(&self) -> (tx: &Sender<ClientEvent>)
        ensures
            *tx == self.sender(),
            self.becomes(ClientCall::ClientTx, self),
    {
        &self.client_tx
    }

    /// Where events for the user are taken from.
    pub fn server_rx(&mut self) -> (rx: &mut Receiver<VncEvent>)
        ensures
            *rx == old(self).receiver(),
            final(self).receiver() == *final(rx),
            final(self).same_client(old(self)),
            final(self).is_closed() == old(self).is_closed(),
            old(self).becomes(ClientCall::ServerRx, final(self)),
    {
        &mut self.server_rx
    }

    /// Fails if the client has been closed, or has lost its connection.
    pub fn ensure_alive(&self) -> (alive: Result<(), VncError>)
        ensures
            self.is_closed() ==> alive == Err::<(), VncError>(VncError::ClientNotRunning),
            !self.is_closed() ==> alive == Ok::<(), VncError>(()),
            self.becomes(ClientCall::EnsureAlive(alive), self),
    {
        if self.closed {
            Err(VncError::ClientNotRunning)
        } else {
            Ok(())
        }
    }

    /// What it means for the user whether an event could be put into the channel.
    pub fn delivered(sent: bool) -> (result: Result<(), VncError>)
        ensures
            sent ==> result == Ok::<(), VncError>(()),
            !sent ==> result is Err && result->Err_0@ == ErrorView::General("Channel closed"@),
    {
        if sent {
            Ok(())
        } else {
            Err(VncError::General("Channel closed".to_owned()))
        }
    }

    /// What it means for a client that is alive that the channel has handed out this
    /// event, or no more events.
    pub fn received(&mut self, event: Option<VncEvent>) -> (result: Result<VncEvent, VncError>)
        ensures
            final(self).same_client(old(self)),
            final(self).receiver() == old(self).receiver(),
            match event {
                Some(e) => {
                    &&& result == Ok::<VncEvent, VncError>(e)
                    &&& final(self).is_closed() == old(self).is_closed()
                },
                None => {
                    &&& result == Err::<VncEvent, VncError>(VncError::ClientNotRunning)
                    &&& final(self).is_closed()
                },
            },
            old(self).becomes(ClientCall::Received(event), final(self)),
    {
        match event {
            Some(e) => Ok(e),
            None => {
                self.closed = true;
                Err(VncError::ClientNotRunning)
            },
        }
    }

    /// What it means for a client that is alive what the channel has to hand out.
    pub fn polled(&mut self, polled: Polled<VncEvent>) -> (result: Result<
        Option<VncEvent>,
        VncError,
    >)
        ensures
            final(self).same_client(old(self)),
            final(self).receiver() == old(self).receiver(),
            match polled {
                Polled::Item(e) => {
                    &&& result == Ok::<Option<VncEvent>, VncError>(Some(e))
                    &&& final(self).is_closed() == old(self).is_closed()
                },
                Polled::Empty => {
                    &&& result == Ok::<Option<VncEvent>, VncError>(None)
                    &&& final(self).is_closed() == old(self).is_closed()
                },
                Polled::Disconnected => {
                    &&& result == Err::<Option<VncEvent>, VncError>(VncError::ClientNotRunning)
                    &&& final(self).is_closed()
                },
            },
            old(self).becomes(ClientCall::Polled(polled), final(self)),
    {
        match polled {
            Polled::Item(e) => Ok(Some(e)),
            Polled::Empty => Ok(None),
            Polled::Disconnected => {
                self.closed = true;
                Err(VncError::ClientNotRunning)
            },
        }
    }

    /// Takes an event if there is one now: the one that the channel hands out, which hands
    /// out no other. It fails if the channel is found to have nothing more to hand out. A
    /// client that fails is closed from then on; one that is closed fails and stays as it is.
    pub fn try_recv(&mut self) -> (result: Result<Option<VncEvent>, VncError>)
        ensures
            final(self).same_client(old(self)),
            forall|task: &IoTask| #[trigger]
                final(self).hears(task) == old(self).hears(task),
            old(self).is_closed() ==> result == Err::<Option<VncEvent>, VncError>(
                VncError::ClientNotRunning,
            ) && *final(self) == *old(self),
            match result {
                Ok(Some(event)) => handed_to_user(final(self).receiver()) == handed_to_user(
                    old(self).receiver(),
                ).push(event),
                _ => handed_to_user(final(self).receiver()) == handed_to_user(
                    old(self).receiver(),
                ),
            },
            final(self).is_closed() <==> result is Err,
            !old(self).is_closed() ==> (result is Err <==> found_task_gone(
                final(self).receiver(),
            )),
            result is Err ==> result == Err::<Option<VncEvent>, VncError>(
                VncError::ClientNotRunning,
            ),
            old(self).becomes(ClientCall::TryRecv(result), final(self)),
    {
        match self.ensure_alive() {
            Ok(()) => {
                let polled = poll_events(&mut self.server_rx);
                self.polled(polled)
            },
            Err(error) => Err(error),
        }
    }

    /// Closes the client, and asks the task that serves it to stop.
    pub fn close(&mut self) -> (result: Result<(), VncError>)
        ensures
            result == Ok::<(), VncError>(()),
            final(self).is_closed(),
            final(self).asked_to_stop(),
            final(self).desktop() == old(self).desktop(),
            final(self).size() == old(self).size(),
            final(self).sender() == old(self).sender(),
            final(self).receiver() == old(self).receiver(),
            forall|task: &IoTask| #[trigger]
                final(self).is_watched_by(task) == old(self).is_watched_by(task),
            old(self).becomes(ClientCall::Close, final(self)),
    {
        self.closed = true;
        set_watched(&mut self.watch_close, true);
        Ok(())
    }
}

/// What has happened to the task that serves a client.
#[derive(Debug)]
pub enum IoEvent {
    /// The client has been seen to ask for a stop, or not. It may be seen to ask for one
    /// while the task waits.
    CloseSeen(bool),
    /// A message of the server has been read and dealt with, or that failed.
    Read(Result<(), VncError>),
    /// The user has been seen to send an event, or not.
    Polled(Polled<ClientEvent>),
    /// An event of the user has been written, or that failed.
    Written(Result<(), VncError>),
    /// The user has been told of the end.
    Reported,
}

/// What the task that serves a client does next.
#[derive(Debug, PartialEq, Eq)]
pub enum IoAction {
    /// See whether the client asks for a stop.
    CheckClose,
    /// Read a message of the server, and deal with it.
    ReadEvent,
    /// See whether the user sends an event.
    PollClient,
    /// Write the event to the server.
    Write(ClientEvent),
    /// Tell the user of the end.
    Report(VncEvent),
    Stop,
}

/// An [`IoAction`] with what it tells the user as a sequence.
pub enum IoActionView {
    CheckClose,
    ReadEvent,
    PollClient,
    Write(ClientEvent),
    Report(EventView),
    Stop,
}

impl View for IoAction {
    type V = IoActionView;

    open spec fn view(&self) -> IoActionView {
        match *self {
            IoAction::CheckClose => IoActionView::CheckClose,
            IoAction::ReadEvent => IoActionView::ReadEvent,
            IoAction::PollClient => IoActionView::PollClient,
            IoAction::Write(event) => IoActionView::Write(event),
            IoAction::Report(event) => IoActionView::Report(event@),
            IoAction::Stop => IoActionView::Stop,
        }
    }
}

/// How the task goes on. Round by round it looks for a request to stop, deals with one
/// message of the server, and writes one event of the user if there is one. An error is
/// told to the user, and ends it.
pub open spec fn io_next(event: IoEvent) -> IoActionView {
    match event {
        IoEvent::CloseSeen(asked) => if asked {
            IoActionView::Stop
        } else {
            IoActionView::ReadEvent
        },
        IoEvent::Read(Ok(_)) => IoActionView::PollClient,
        IoEvent::Polled(Polled::Item(event)) => IoActionView::Write(event),
        IoEvent::Polled(_) => IoActionView::CheckClose,
        IoEvent::Written(Ok(_)) => IoActionView::CheckClose,
        IoEvent::Read(Err(error)) => IoActionView::Report(EventView::Error(error@.text())),
        IoEvent::Written(Err(error)) => IoActionView::Report(EventView::Error(error@.text())),
        IoEvent::Reported => IoActionView::Stop,
    }
}

impl IoTask {
    /// Where events for the user are put.
    pub closed spec fn sender(&self) -> Sender<VncEvent> {
        self.server_tx
    }

    /// Where events of the user are taken from.
    pub closed spec fn receiver(&self) -> Receiver<ClientEvent> {
        self.input_ch_rx
    }

    /// The events of the user that the task has taken from the channel, the first in front.
    pub open spec fn taken(&self) -> Seq<ClientEvent> {
        handed_out(self.receiver())
    }

    /// Whether `self` is `before` but for where events of the user are taken from, and for
    /// where a request to stop is seen.
    pub open spec fn same_task(&self, before: &IoTask) -> bool {
        &&& self.sender() == before.sender()
        &&& forall|client: &VncClient| #[trigger]
            client.is_heard_by(self) == client.is_heard_by(before)
        &&& forall|client: &VncClient| #[trigger] client.hears(self) == client.hears(before)
        &&& forall|client: &VncClient| #[trigger]
            client.is_watched_by(self) == client.is_watched_by(before)
    }

    /// Where events for the user are put.
    pub fn server_tx(&self) -> (tx: &Sender<VncEvent>)
        ensures
            *tx == self.sender(),
    {
        &self.server_tx
    }

    /// Where a request to stop is seen.
    pub closed spec fn watcher(&self) -> watch::Receiver<bool> {
        self.watch_close_rx
    }

    /// Where a request to stop is seen.
    pub fn watch_close_rx(&self) -> (rx: &watch::Receiver<bool>)
        ensures
            *rx == self.watcher(),
    {
        &self.watch_close_rx
    }

    /// Says how the task goes on. The end of the channel that the user holds is there as
    /// long as the task runs.
    pub fn step(event: IoEvent) -> (action: IoAction)
        requires
            event != IoEvent::Polled(Polled::Disconnected),
        ensures
            action@ == io_next(event),
    {
        match event {
            IoEvent::CloseSeen(asked) => {
                if asked {
                    IoAction::Stop
                } else {
                    IoAction::ReadEvent
                }
            },
            IoEvent::Read(Ok(())) => IoAction::PollClient,
            IoEvent::Polled(Polled::Item(event)) => IoAction::Write(event),
            IoEvent::Polled(_) => IoAction::CheckClose,
            IoEvent::Written(Ok(())) => IoAction::CheckClose,
            IoEvent::Read(Err(error)) => IoAction::Report(VncEvent::Error(error.message())),
            IoEvent::Written(Err(error)) => IoAction::Report(VncEvent::Error(error.message())),
            IoEvent::Reported => IoAction::Stop,
        }
    }

    /// Sees whether the client asks for a stop, and goes on: stops if it does, and reads from
    /// the server if not.
    pub fn check_close(&mut self) -> (action: IoAction)
        ensures
            action@ == io_next(IoEvent::CloseSeen(seen(final(self).watcher()))),
            final(self).receiver() == old(self).receiver(),
            final(self).same_task(old(self)),
    {
        let asked: bool = see_watched(&mut self.watch_close_rx);
        IoTask::step(IoEvent::CloseSeen(asked))
    }

    /// Says how the task goes on with what the channel has to hand out. There is no way to
    /// go on if the user's end of the channel is gone.
    pub fn polled(polled: Polled<ClientEvent>) -> (action: Option<IoAction>)
        ensures
            action is None <==> polled is Disconnected,
            action matches Some(next) ==> next@ == io_next(IoEvent::Polled(polled)),
    {
        match polled {
            Polled::Disconnected => None,
            polled => Some(IoTask::step(IoEvent::Polled(polled))),
        }
    }

    /// Sees whether the user sends an event, and goes on: writes the event that it has taken
    /// from the channel, or takes none and starts the next round. There is no way to go on if
    /// the user's end of the channel is gone.
    pub fn poll_client(&mut self) -> (action: Option<IoAction>)
        ensures
            match action {
                Some(IoAction::Write(event)) => final(self).taken() == old(self).taken().push(
                    event,
                ),
                Some(next) => next is CheckClose && final(self).taken() == old(self).taken(),
                None => final(self).taken() == old(self).taken(),
            },
            action is None <==> found_user_gone(final(self).receiver()),
            final(self).watcher() == old(self).watcher(),
            final(self).same_task(old(self)),
    {
        let polled = poll_client_events(&mut self.input_ch_rx);
        IoTask::polled(polled)
    }
}

/// The task ends only on a request to stop, or when the user has been told of an error;
/// and on a request to stop it ends.
pub proof fn law_task_ends(event: IoEvent)
    ensures
        io_next(event) is Stop <==> event == IoEvent::CloseSeen(true) || event is Reported,
        io_next(event) is Report <==> event is Read && event->Read_0 is Err || event is Written
            && event->Written_0 is Err,
{
}

} // verus!
