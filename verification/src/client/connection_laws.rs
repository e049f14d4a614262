//! What holds of every client that runs, and of the task that serves it.
use crate::client::connection::{
    io_next, ClientCall, IoActionView, IoEvent, IoTask, Polled, VncClient,
};
use crate::error::VncError;
use crate::event::{ClientEvent, EventView};
use vstd::prelude::*;

verus! {

/// A client that has been started, and its calls: `clients[i]` is the client before
/// `calls[i]`, and the one behind it is what that call has made of it.
pub struct ClientRun {
    pub clients: Seq<VncClient>,
    pub calls: Seq<ClientCall>,
}

impl ClientRun {
    /// Whether the calls can have gone like this.
    pub open spec fn valid(self) -> bool {
        &&& self.clients.len() == self.calls.len() + 1
        &&& !self.clients[0].is_closed()
        &&& forall|i: int|
            0 <= i < self.calls.len() ==> self.clients[i].becomes(
                #[trigger] self.calls[i],
                &self.clients[i + 1],
            )
    }

    /// Whether a call closed the client, or was the one that found its channel ended.
    pub open spec fn ended_by(self, i: int) -> bool {
        match self.calls[i] {
            ClientCall::Close => true,
            ClientCall::Received(event) => !self.clients[i].is_closed() && event is None,
            ClientCall::Polled(polled) => !self.clients[i].is_closed() && polled is Disconnected,
            ClientCall::TryRecv(result) => !self.clients[i].is_closed() && result is Err,
            _ => false,
        }
    }

    /// Whether one of the first calls did.
    pub open spec fn ended_before(self, count: int) -> bool {
        exists|i: int| 0 <= i < count && #[trigger] self.ended_by(i)
    }
}

proof fn lemma_closed(run: ClientRun, count: int)
    requires
        run.valid(),
        0 <= count < run.clients.len(),
    ensures
        run.clients[count].is_closed() <==> run.ended_before(count),
    decreases count,
{
    if count > 0 {
        let last = count - 1;
        lemma_closed(run, last);
        assert(run.clients[last].becomes(run.calls[last], &run.clients[count]));
        if run.ended_by(last) {
            assert(run.ended_before(count));
        }
        if run.ended_before(last) {
            let i = choose|i: int| 0 <= i < last && #[trigger] run.ended_by(i);
            assert(run.ended_by(i));
        }
        if run.ended_before(count) {
            let i = choose|i: int| 0 <= i < count && #[trigger] run.ended_by(i);
            if i < last {
                assert(run.ended_before(last));
            }
        }
    }
}

/// A client is closed if and only if it has been closed, or its channel has been found
/// ended, and it stays closed whatever is called. That it is not running is what it says
/// when it is closed, and only then.
pub proof fn law_closed_for_good(run: ClientRun)
    requires
        run.valid(),
    ensures
        forall|i: int|
            0 <= i < run.clients.len() ==> (#[trigger] run.clients[i].is_closed()
                <==> run.ended_before(i)),
        forall|i: int, j: int|
            0 <= i <= j < run.clients.len() && #[trigger] run.clients[i].is_closed()
                ==> #[trigger] run.clients[j].is_closed(),
        forall|i: int|
            0 <= i < run.calls.len() && #[trigger] run.calls[i] is EnsureAlive ==> (
            run.calls[i]->EnsureAlive_0 == Err::<(), VncError>(VncError::ClientNotRunning)
                <==> run.ended_before(i)),
        forall|i: int|
            0 <= i < run.calls.len() && #[trigger] run.calls[i] is EnsureAlive ==> (
            run.calls[i]->EnsureAlive_0 == Ok::<(), VncError>(()) <==> !run.ended_before(i)),
{
    assert forall|i: int| 0 <= i < run.clients.len() implies (
    #[trigger] run.clients[i].is_closed() <==> run.ended_before(i)) by {
        lemma_closed(run, i);
    }
    assert forall|i: int, j: int|
        0 <= i <= j < run.clients.len()
            && #[trigger] run.clients[i].is_closed() implies #[trigger] run.clients[j].is_closed() by {
        let k = choose|k: int| 0 <= k < i && #[trigger] run.ended_by(k);
        assert(run.ended_by(k));
        assert(run.ended_before(j));
    }
    assert forall|i: int| 0 <= i < run.calls.len() && #[trigger] run.calls[i] is EnsureAlive implies (
    run.clients[i].is_closed() <==> run.ended_before(i)) by {
        lemma_closed(run, i);
    }
}

/// The actions that a task takes about events, one for each.
pub open spec fn task_actions(events: Seq<IoEvent>) -> Seq<IoActionView> {
    Seq::new(events.len(), |i: int| io_next(events[i]))
}

/// A round of the task without an error: it reads a message of the server, looks for an event
/// of the user, writes that event if there is one, and begins anew. A request to stop ends it.
pub proof fn law_round(event: ClientEvent)
    ensures
        task_actions(
            seq![
                IoEvent::CloseSeen(false),
                IoEvent::Read(Ok(())),
                IoEvent::Polled(Polled::Item(event)),
                IoEvent::Written(Ok(())),
            ],
        ) == seq![
            IoActionView::ReadEvent,
            IoActionView::PollClient,
            IoActionView::Write(event),
            IoActionView::CheckClose,
        ],
        task_actions(
            seq![
                IoEvent::CloseSeen(false),
                IoEvent::Read(Ok(())),
                IoEvent::Polled(Polled::Empty),
                IoEvent::CloseSeen(true),
            ],
        ) == seq![
            IoActionView::ReadEvent,
            IoActionView::PollClient,
            IoActionView::CheckClose,
            IoActionView::Stop,
        ],
{
    assert(task_actions(
        seq![
            IoEvent::CloseSeen(false),
            IoEvent::Read(Ok(())),
            IoEvent::Polled(Polled::Item(event)),
            IoEvent::Written(Ok(())),
        ],
    ) =~= seq![
        IoActionView::ReadEvent,
        IoActionView::PollClient,
        IoActionView::Write(event),
        IoActionView::CheckClose,
    ]);
    assert(task_actions(
        seq![
            IoEvent::CloseSeen(false),
            IoEvent::Read(Ok(())),
            IoEvent::Polled(Polled::Empty),
            IoEvent::CloseSeen(true),
        ],
    ) =~= seq![
        IoActionView::ReadEvent,
        IoActionView::PollClient,
        IoActionView::CheckClose,
        IoActionView::Stop,
    ]);
}

/// Whether reading or writing fails, the user is told the text of the error, and the task
/// ends when that is done.
pub proof fn law_errors_told(error: VncError)
    ensures
        task_actions(seq![IoEvent::Read(Err(error)), IoEvent::Reported]) == seq![
            IoActionView::Report(EventView::Error(error@.text())),
            IoActionView::Stop,
        ],
        task_actions(seq![IoEvent::Written(Err(error)), IoEvent::Reported]) == seq![
            IoActionView::Report(EventView::Error(error@.text())),
            IoActionView::Stop,
        ],
{
    assert(task_actions(seq![IoEvent::Read(Err(error)), IoEvent::Reported]) =~= seq![
        IoActionView::Report(EventView::Error(error@.text())),
        IoActionView::Stop,
    ]);
    assert(task_actions(seq![IoEvent::Written(Err(error)), IoEvent::Reported]) =~= seq![
        IoActionView::Report(EventView::Error(error@.text())),
        IoActionView::Stop,
    ]);
}

/// A task that serves a client, and what happens to it: `actions[i]` is what `tasks[i]` does
/// next, and `events[i]` what comes of that.
pub struct TaskRun {
    pub tasks: Seq<IoTask>,
    pub actions: Seq<IoActionView>,
    pub events: Seq<IoEvent>,
}

/// Whether an action can come to this. A request to stop may be seen whenever the task waits
/// for the server, or for the user.
pub open spec fn answers(action: IoActionView, event: IoEvent) -> bool {
    match action {
        IoActionView::CheckClose => event is CloseSeen,
        IoActionView::ReadEvent => event is Read || event == IoEvent::CloseSeen(true),
        IoActionView::PollClient => event is Polled && !(event->Polled_0 is Disconnected),
        IoActionView::Write(_) => event is Written || event == IoEvent::CloseSeen(true),
        IoActionView::Report(_) => event is Reported || event == IoEvent::CloseSeen(true),
        IoActionView::Stop => false,
    }
}

/// The events of the user that the task has taken, behind an event.
pub open spec fn taken_after(taken: Seq<ClientEvent>, event: IoEvent) -> Seq<ClientEvent> {
    match event {
        IoEvent::Polled(Polled::Item(item)) => taken.push(item),
        _ => taken,
    }
}

impl TaskRun {
    /// Whether the task can have gone on like this, from its start.
    pub open spec fn valid(self) -> bool {
        &&& self.tasks.len() == self.events.len() + 1
        &&& self.actions.len() == self.events.len() + 1
        &&& self.tasks[0].taken() == Seq::<ClientEvent>::empty()
        &&& self.actions[0] == IoActionView::CheckClose
        &&& forall|i: int|
            0 <= i < self.events.len() ==> {
                &&& answers(self.actions[i], #[trigger] self.events[i])
                &&& self.actions[i + 1] == io_next(self.events[i])
                &&& self.tasks[i + 1].taken() == taken_after(self.tasks[i].taken(), self.events[i])
            }
    }

    /// The events that the task has set out to write to the server, in this order.
    pub open spec fn writes(self) -> Seq<ClientEvent> {
        writes(self.actions)
    }

    /// The events that have been written to the server, in this order.
    pub open spec fn written(self) -> Seq<ClientEvent> {
        written(self.actions, self.events)
    }
}

/// The events that are to be written, in the order of the actions.
pub open spec fn writes(actions: Seq<IoActionView>) -> Seq<ClientEvent>
    decreases actions.len(),
{
    if actions.len() == 0 {
        Seq::empty()
    } else {
        match actions.last() {
            IoActionView::Write(event) => writes(actions.drop_last()).push(event),
            _ => writes(actions.drop_last()),
        }
    }
}

/// The events that were written without an error, in the order of the actions.
pub open spec fn written(actions: Seq<IoActionView>, events: Seq<IoEvent>) -> Seq<ClientEvent>
    decreases events.len(),
{
    if events.len() == 0 {
        Seq::empty()
    } else {
        let before = written(actions, events.drop_last());
        match (actions[events.len() - 1], events.last()) {
            (IoActionView::Write(event), IoEvent::Written(Ok(_))) => before.push(event),
            _ => before,
        }
    }
}

/// How many messages of the server have been dealt with.
pub open spec fn messages_read(events: Seq<IoEvent>) -> nat
    decreases events.len(),
{
    if events.len() == 0 {
        0
    } else {
        let before = messages_read(events.drop_last());
        if events.last() matches IoEvent::Read(Ok(_)) {
            before + 1
        } else {
            before
        }
    }
}

/// How far writing has got, with `action` to be done next. Everything that was taken has
/// been written, but for what is being written; what was not written was the last.
pub open spec fn written_so_far(
    written: Seq<ClientEvent>,
    taken: Seq<ClientEvent>,
    action: IoActionView,
) -> bool {
    match action {
        IoActionView::Write(event) => taken == written.push(event),
        IoActionView::Report(_) | IoActionView::Stop => {
            ||| written == taken
            ||| taken.len() > 0 && written == taken.drop_last()
        },
        _ => written == taken,
    }
}

proof fn lemma_writes(run: TaskRun, k: int)
    requires
        run.valid(),
        0 <= k <= run.events.len(),
    ensures
        ({
            let taken = run.tasks[k].taken();
            let events = run.events.take(k);
            let polls: nat = if run.actions[k] is PollClient {
                1
            } else {
                0
            };
            &&& writes(run.actions.take(k + 1)) == taken
            &&& written_so_far(written(run.actions, events), taken, run.actions[k])
            &&& taken.len() + polls <= messages_read(events)
        }),
    decreases k,
{
    if k == 0 {
        assert(run.actions.take(1).drop_last() =~= Seq::<IoActionView>::empty());
        assert(writes(run.actions.take(1).drop_last()) =~= Seq::<ClientEvent>::empty());
        assert(written(run.actions, run.events.take(0)) =~= Seq::<ClientEvent>::empty());
    } else {
        lemma_writes(run, k - 1);
        let event = run.events[k - 1];
        assert(answers(run.actions[k - 1], event));
        assert(run.actions.take(k + 1).drop_last() =~= run.actions.take(k));
        assert(run.events.take(k).drop_last() =~= run.events.take(k - 1));
        assert(run.events.take(k).last() == event);
        assert(run.actions.take(k + 1).last() == run.actions[k]);
        let before = run.tasks[k - 1].taken();
        if run.actions[k - 1] is Write {
            let so_far = written(run.actions, run.events.take(k - 1));
            assert(before.drop_last() =~= so_far);
        }
    }
}

/// The events of the user are written to the server in the order in which the task has taken
/// them from the channel, each of them once and none left out: what the task sets out to
/// write is what it has taken. All of it has been written, but for the one that is being
/// written, or that was not because of an error or a request to stop, behind which none is
/// taken.
pub proof fn law_events_written_in_order(run: TaskRun)
    requires
        run.valid(),
    ensures
        run.writes() == run.tasks.last().taken(),
        written_so_far(run.written(), run.tasks.last().taken(), run.actions.last()),
        run.written().is_prefix_of(run.tasks.last().taken()),
{
    let k = run.events.len() as int;
    lemma_writes(run, k);
    assert(run.actions.take(k + 1) =~= run.actions);
    assert(run.events.take(k) =~= run.events);
}

/// A run of a task, and the events that the user has sent: `sent[i]` are those that the
/// channel has taken in before `run.events[i]` comes about, the first in front.
pub struct SendRun {
    pub run: TaskRun,
    pub sent: Seq<Seq<ClientEvent>>,
}

/// Whether a channel has this to hand out that has handed out `taken`: the oldest event that
/// it has not handed out, and none only if it has handed out all. It has taken in `before`
/// when the task looks, and `after` when the task has looked.
pub open spec fn hands_out(
    taken: Seq<ClientEvent>,
    polled: Polled<ClientEvent>,
    before: Seq<ClientEvent>,
    after: Seq<ClientEvent>,
) -> bool {
    match polled {
        Polled::Item(event) => taken.len() < after.len() && event == after[taken.len() as int],
        _ => before.len() <= taken.len(),
    }
}

impl SendRun {
    /// Whether the task can have gone on like this, on a channel that the user sends through.
    pub open spec fn valid(self) -> bool {
        &&& self.run.valid()
        &&& self.sent.len() == self.run.tasks.len()
        &&& forall|i: int|
            0 <= i < self.run.events.len() ==> {
                &&& self.sent[i].is_prefix_of(self.sent[i + 1])
                &&& #[trigger] self.run.events[i] is Polled ==> hands_out(
                    self.run.tasks[i].taken(),
                    self.run.events[i]->Polled_0,
                    self.sent[i],
                    self.sent[i + 1],
                )
            }
    }
}

proof fn lemma_taken_as_sent(sending: SendRun, k: int)
    requires
        sending.valid(),
        0 <= k <= sending.run.events.len(),
    ensures
        sending.run.tasks[k].taken().is_prefix_of(sending.sent[k]),
    decreases k,
{
    if k > 0 {
        lemma_taken_as_sent(sending, k - 1);
        let event = sending.run.events[k - 1];
        let before = sending.run.tasks[k - 1].taken();
        let taken = sending.run.tasks[k].taken();
        let sent = sending.sent[k];
        assert(sending.sent[k - 1].is_prefix_of(sent));
        assert forall|i: int| 0 <= i < before.len() implies before[i] == sent[i] by {
            assert(before[i] == sending.sent[k - 1][i]);
        }
        assert(taken =~= sent.take(taken.len() as int));
    }
}

/// The events of the user are written to the server in the order in which the user has sent
/// them, each of them at most once and none skipped. When the task finds no event, it has
/// taken all that were sent.
pub proof fn law_events_written_as_sent(sending: SendRun)
    requires
        sending.valid(),
    ensures
        sending.run.writes().is_prefix_of(sending.sent.last()),
        sending.run.written().is_prefix_of(sending.sent.last()),
        forall|i: int|
            0 <= i < sending.run.events.len() && #[trigger] sending.run.events[i]
                == IoEvent::Polled(Polled::Empty) ==> sending.run.tasks[i].taken()
                == sending.sent[i],
{
    let run = sending.run;
    lemma_taken_as_sent(sending, run.events.len() as int);
    law_events_written_in_order(run);
    let taken = run.tasks.last().taken();
    let sent = sending.sent.last();
    let written = run.written();
    assert(written =~= sent.take(written.len() as int)) by {
        assert forall|i: int| 0 <= i < written.len() implies written[i] == sent[i] by {
            assert(written[i] == taken[i]);
        }
    }
    assert forall|i: int|
        0 <= i < run.events.len() && #[trigger] run.events[i] == IoEvent::Polled(
            Polled::Empty,
        ) implies run.tasks[i].taken() == sending.sent[i] by {
        lemma_taken_as_sent(sending, i);
        assert(run.tasks[i].taken() =~= sending.sent[i]);
    }
}

/// The task takes at most one event of the user for each message of the server that it has
/// dealt with, and so it writes at most one.
pub proof fn law_one_event_for_a_message(run: TaskRun)
    requires
        run.valid(),
    ensures
        run.tasks.last().taken().len() <= messages_read(run.events),
        run.writes().len() <= messages_read(run.events),
{
    let k = run.events.len() as int;
    lemma_writes(run, k);
    assert(run.actions.take(k + 1) =~= run.actions);
    assert(run.events.take(k) =~= run.events);
}

} // verus!
