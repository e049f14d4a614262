//! What holds of all messages of a server together.
use crate::client::update::{
    law_update_ends, one_rect, update_run, Dispatch, Reader, RectView, ServerMsg, UpdateStepView,
};
use crate::config::PixelFormat;
use crate::event::{EventView, ImageEventView};
use vstd::prelude::*;

verus! {

/// What somebody else has made of a rectangle, with the bytes behind it.
pub enum Reply {
    /// These images, which the reader takes.
    Images(Seq<ImageEventView>, Seq<u8>),
    /// The user is told this at once.
    Event(EventView, Seq<u8>),
}

impl Reply {
    pub open spec fn images(self) -> Seq<ImageEventView> {
        match self {
            Reply::Images(images, _) => images,
            Reply::Event(_, _) => Seq::empty(),
        }
    }

    pub open spec fn told(self) -> Seq<EventView> {
        match self {
            Reply::Images(_, _) => Seq::empty(),
            Reply::Event(event, _) => seq![event],
        }
    }

    pub open spec fn rest(self) -> Seq<u8> {
        match self {
            Reply::Images(_, rest) => rest,
            Reply::Event(_, rest) => rest,
        }
    }
}

/// A message of the server, the input behind its head, and what somebody else makes of those
/// of its rectangles that are left to them.
pub struct Arrival {
    pub message: ServerMsg,
    pub input: Seq<u8>,
    pub replies: Seq<Reply>,
}

/// What dealing with messages comes to.
pub struct Handled {
    /// The images that wait to be handed to the user.
    pub frames: Seq<ImageEventView>,
    /// What the user has been told.
    pub told: Seq<EventView>,
    /// Whether all has been dealt with.
    pub done: bool,
}

/// Goes on with an update until it is complete, with `frames` waiting at its start. `input`
/// is all that arrives of it: by [`crate::client::update::law_update_resumes`] it makes no
/// difference in how many pieces.
pub open spec fn handled_update(
    format: PixelFormat,
    frames: Seq<ImageEventView>,
    left: nat,
    input: Seq<u8>,
    replies: Seq<Reply>,
) -> Handled
    decreases left,
{
    proof {
        law_update_ends(format, frames, left, input, true);
    }
    let run = update_run(format, frames, left, input, true);
    match run.step {
        UpdateStepView::Finished(event) => Handled {
            frames: run.frames,
            told: seq![event],
            done: true,
        },
        UpdateStepView::Emit(event) => {
            let others = handled_update(format, run.frames, run.left, run.rest, replies);
            Handled { told: seq![event] + others.told, ..others }
        },
        UpdateStepView::Delegate(_, _) => if replies.len() == 0 {
            Handled { frames: run.frames, told: Seq::empty(), done: false }
        } else {
            let others = handled_update(
                format,
                run.frames + replies[0].images(),
                run.left,
                replies[0].rest(),
                replies.skip(1),
            );
            Handled { told: replies[0].told() + others.told, ..others }
        },
        _ => Handled { frames: run.frames, told: Seq::empty(), done: false },
    }
}

/// Deals with one message, with `frames` waiting.
pub open spec fn handled_message(
    format: PixelFormat,
    frames: Seq<ImageEventView>,
    arrival: Arrival,
) -> Handled {
    match arrival.message {
        ServerMsg::FramebufferUpdate(count) => handled_update(
            format,
            frames,
            count as nat,
            arrival.input,
            arrival.replies,
        ),
        ServerMsg::Bell => Handled { frames, told: seq![EventView::Bell], done: true },
        ServerMsg::ServerCutText(text) => Handled {
            frames,
            told: seq![EventView::Text(text@)],
            done: true,
        },
    }
}

/// Deals with messages one after the other, with nothing waiting at the start, as far as the
/// first that cannot be dealt with.
pub open spec fn handled_messages(format: PixelFormat, arrivals: Seq<Arrival>) -> Handled
    decreases arrivals.len(),
{
    if arrivals.len() == 0 {
        Handled { frames: Seq::empty(), told: Seq::empty(), done: true }
    } else {
        let before = handled_messages(format, arrivals.drop_last());
        if before.done {
            let last = handled_message(format, before.frames, arrivals.last());
            Handled { told: before.told + last.told, ..last }
        } else {
            before
        }
    }
}

/// The images of the rectangles of an update, in order.
pub open spec fn update_images(
    format: PixelFormat,
    left: nat,
    input: Seq<u8>,
    replies: Seq<Reply>,
) -> Seq<ImageEventView>
    decreases left,
{
    if left == 0 {
        Seq::empty()
    } else {
        let others = (left - 1) as nat;
        match one_rect(format, input) {
            RectView::Images(images, rest) => images + update_images(format, others, rest, replies),
            RectView::Emit(_, rest) => update_images(format, others, rest, replies),
            RectView::Delegate(_, _, _) => if replies.len() == 0 {
                Seq::empty()
            } else {
                replies[0].images() + update_images(
                    format,
                    others,
                    replies[0].rest(),
                    replies.skip(1),
                )
            },
            _ => Seq::empty(),
        }
    }
}

/// What the rectangles of an update tell the user at once, in order.
pub open spec fn update_notices(
    format: PixelFormat,
    left: nat,
    input: Seq<u8>,
    replies: Seq<Reply>,
) -> Seq<EventView>
    decreases left,
{
    if left == 0 {
        Seq::empty()
    } else {
        let others = (left - 1) as nat;
        match one_rect(format, input) {
            RectView::Images(_, rest) => update_notices(format, others, rest, replies),
            RectView::Emit(event, rest) => seq![event] + update_notices(
                format,
                others,
                rest,
                replies,
            ),
            RectView::Delegate(_, _, _) => if replies.len() == 0 {
                Seq::empty()
            } else {
                replies[0].told() + update_notices(
                    format,
                    others,
                    replies[0].rest(),
                    replies.skip(1),
                )
            },
            _ => Seq::empty(),
        }
    }
}

/// What the user is told of a message, whatever came before it. Of an update this is what
/// its rectangles tell at once, and then the images of its own rectangles together.
pub open spec fn message_tells(format: PixelFormat, arrival: Arrival) -> Seq<EventView> {
    match arrival.message {
        ServerMsg::FramebufferUpdate(count) => {
            let images = update_images(format, count as nat, arrival.input, arrival.replies);
            update_notices(format, count as nat, arrival.input, arrival.replies).push(
                EventView::ImageEvent(images),
            )
        },
        ServerMsg::Bell => seq![EventView::Bell],
        ServerMsg::ServerCutText(text) => seq![EventView::Text(text@)],
    }
}

/// What the user is told of messages, message by message.
pub open spec fn messages_tell(format: PixelFormat, arrivals: Seq<Arrival>) -> Seq<EventView>
    decreases arrivals.len(),
{
    if arrivals.len() == 0 {
        Seq::empty()
    } else {
        messages_tell(format, arrivals.drop_last()) + message_tells(format, arrivals.last())
    }
}

proof fn lemma_update(
    format: PixelFormat,
    frames: Seq<ImageEventView>,
    left: nat,
    input: Seq<u8>,
    replies: Seq<Reply>,
)
    requires
        handled_update(format, frames, left, input, replies).done,
    ensures
        ({
            let handled = handled_update(format, frames, left, input, replies);
            let images = frames + update_images(format, left, input, replies);
            &&& handled.frames == Seq::<ImageEventView>::empty()
            &&& handled.told == update_notices(format, left, input, replies).push(
                EventView::ImageEvent(images),
            )
        }),
    decreases left,
{
    let handled = handled_update(format, frames, left, input, replies);
    let images = update_images(format, left, input, replies);
    let notices = update_notices(format, left, input, replies);
    if left == 0 {
        assert(frames + images =~= frames);
        assert(handled.told =~= notices.push(EventView::ImageEvent(frames)));
    } else {
        let others = (left - 1) as nat;
        match one_rect(format, input) {
            RectView::Images(more, rest) => {
                assert(update_run(format, frames, left, input, true) == update_run(
                    format,
                    frames + more,
                    others,
                    rest,
                    true,
                ));
                assert(handled == handled_update(format, frames + more, others, rest, replies));
                lemma_update(format, frames + more, others, rest, replies);
                assert(frames + images =~= frames + more + update_images(
                    format,
                    others,
                    rest,
                    replies,
                ));
            },
            RectView::Emit(event, rest) => {
                lemma_update(format, frames, others, rest, replies);
                assert(handled.told =~= notices.push(EventView::ImageEvent(frames + images)));
            },
            RectView::Delegate(_, _, _) => {
                let reply = replies[0];
                lemma_update(
                    format,
                    frames + reply.images(),
                    others,
                    reply.rest(),
                    replies.skip(1),
                );
                assert(frames + images =~= frames + reply.images() + update_images(
                    format,
                    others,
                    reply.rest(),
                    replies.skip(1),
                ));
                assert(handled.told =~= notices.push(EventView::ImageEvent(frames + images)));
            },
            _ => {
                assert(frames + images =~= frames);
                assert(handled.told =~= notices.push(EventView::ImageEvent(frames)));
            },
        }
    }
}

/// The user is told of messages in the order in which they arrive, and of each only what
/// comes of it: an update hands out the images of its own rectangles, and no image waits
/// from one message to the next.
pub proof fn law_messages_in_order(format: PixelFormat, arrivals: Seq<Arrival>)
    requires
        handled_messages(format, arrivals).done,
    ensures
        handled_messages(format, arrivals).told == messages_tell(format, arrivals),
        forall|k: int|
            0 <= k <= arrivals.len() ==> (#[trigger] handled_messages(
                format,
                arrivals.take(k),
            )).frames == Seq::<ImageEventView>::empty(),
    decreases arrivals.len(),
{
    assert(arrivals.take(arrivals.len() as int) =~= arrivals);
    if arrivals.len() > 0 {
        let before = arrivals.drop_last();
        law_messages_in_order(format, before);
        assert(before.take(before.len() as int) =~= before);
        match arrivals.last().message {
            ServerMsg::FramebufferUpdate(count) => {
                let last = arrivals.last();
                let empty = Seq::<ImageEventView>::empty();
                lemma_update(format, empty, count as nat, last.input, last.replies);
                let images = update_images(format, count as nat, last.input, last.replies);
                assert(empty + images =~= images);
            },
            _ => {},
        }
        assert forall|k: int| 0 <= k <= arrivals.len() implies (#[trigger] handled_messages(
            format,
            arrivals.take(k),
        )).frames == Seq::<ImageEventView>::empty() by {
            if k < arrivals.len() {
                assert(arrivals.take(k) =~= before.take(k));
            }
        }
    }
}

/// What the reader says is to be done about a message: the rectangles that an update has
/// announced are decoded, all of them, and the user is told of anything else as it is.
pub proof fn law_message_dispatched<A>(reader: Reader<A>, message: ServerMsg, next: Dispatch)
    requires
        call_ensures(Reader::<A>::dispatch, (&reader, message), next),
    ensures
        match message {
            ServerMsg::FramebufferUpdate(count) => next == Dispatch::Update(count),
            ServerMsg::Bell => next matches Dispatch::Emit(event) && event@ == EventView::Bell,
            ServerMsg::ServerCutText(text) => next matches Dispatch::Emit(event) && event@
                == EventView::Text(text@),
        },
{
}

/// The pictures among what the user is told, in order.
pub open spec fn pictures(told: Seq<EventView>) -> Seq<Seq<ImageEventView>>
    decreases told.len(),
{
    if told.len() == 0 {
        Seq::empty()
    } else {
        match told.last() {
            EventView::ImageEvent(images) => pictures(told.drop_last()).push(images),
            _ => pictures(told.drop_last()),
        }
    }
}

/// The pictures of the updates among messages: one for each, of its own rectangles.
pub open spec fn update_pictures(format: PixelFormat, arrivals: Seq<Arrival>) -> Seq<
    Seq<ImageEventView>,
>
    decreases arrivals.len(),
{
    if arrivals.len() == 0 {
        Seq::empty()
    } else {
        let before = update_pictures(format, arrivals.drop_last());
        let last = arrivals.last();
        match last.message {
            ServerMsg::FramebufferUpdate(count) => before.push(
                update_images(format, count as nat, last.input, last.replies),
            ),
            _ => before,
        }
    }
}

/// Whether nobody else tells the user of a picture.
pub open spec fn no_pictures(replies: Seq<Reply>) -> bool {
    forall|i: int|
        0 <= i < replies.len() ==> !((#[trigger] replies[i]) matches Reply::Event(
            EventView::ImageEvent(_),
            _,
        ))
}

proof fn lemma_pictures_add(before: Seq<EventView>, more: Seq<EventView>)
    ensures
        pictures(before + more) == pictures(before) + pictures(more),
    decreases more.len(),
{
    if more.len() == 0 {
        assert(before + more =~= before);
        assert(pictures(before) + pictures(more) =~= pictures(before));
    } else {
        lemma_pictures_add(before, more.drop_last());
        assert((before + more).drop_last() =~= before + more.drop_last());
        assert(pictures(before + more) =~= pictures(before) + pictures(more));
    }
}

proof fn lemma_one_event(event: EventView)
    ensures
        pictures(seq![event]) == (match event {
            EventView::ImageEvent(images) => seq![images],
            _ => Seq::empty(),
        }),
{
    assert(seq![event].drop_last() =~= Seq::<EventView>::empty());
    assert(pictures(seq![event].drop_last()) =~= Seq::<Seq<ImageEventView>>::empty());
    assert(pictures(seq![event]) =~= (match event {
        EventView::ImageEvent(images) => seq![images],
        _ => Seq::empty(),
    }));
}

proof fn lemma_no_pictures_in_notices(
    format: PixelFormat,
    left: nat,
    input: Seq<u8>,
    replies: Seq<Reply>,
)
    requires
        no_pictures(replies),
    ensures
        pictures(update_notices(format, left, input, replies)) == Seq::<
            Seq<ImageEventView>,
        >::empty(),
    decreases left,
{
    if left > 0 {
        let others = (left - 1) as nat;
        match one_rect(format, input) {
            RectView::Images(_, rest) => lemma_no_pictures_in_notices(
                format,
                others,
                rest,
                replies,
            ),
            RectView::Emit(event, rest) => {
                lemma_no_pictures_in_notices(format, others, rest, replies);
                lemma_one_event(event);
                lemma_pictures_add(seq![event], update_notices(format, others, rest, replies));
            },
            RectView::Delegate(_, _, _) => {
                if replies.len() > 0 {
                    let reply = replies[0];
                    let others_notices = update_notices(
                        format,
                        others,
                        reply.rest(),
                        replies.skip(1),
                    );
                    lemma_no_pictures_in_notices(format, others, reply.rest(), replies.skip(1));
                    if let Reply::Event(event, _) = reply {
                        lemma_one_event(event);
                    }
                    lemma_pictures_add(reply.told(), others_notices);
                }
            },
            _ => {},
        }
    }
}

/// The user gets one picture for each update, in the order of the updates, and in it the
/// images of the rectangles of that update: each image is in the picture of its own update
/// and in no other. This leaves out a decoder elsewhere that tells the user of a picture
/// itself.
pub proof fn law_picture_for_each_update(format: PixelFormat, arrivals: Seq<Arrival>)
    requires
        handled_messages(format, arrivals).done,
        forall|i: int|
            0 <= i < arrivals.len() ==> no_pictures((#[trigger] arrivals[i]).replies),
    ensures
        pictures(handled_messages(format, arrivals).told) == update_pictures(format, arrivals),
    decreases arrivals.len(),
{
    if arrivals.len() > 0 {
        let before = arrivals.drop_last();
        let last = arrivals.last();
        law_picture_for_each_update(format, before);
        law_messages_in_order(format, before);
        law_messages_in_order(format, arrivals);
        let tells = message_tells(format, last);
        lemma_pictures_add(messages_tell(format, before), tells);
        match last.message {
            ServerMsg::FramebufferUpdate(count) => {
                lemma_no_pictures_in_notices(format, count as nat, last.input, last.replies);
                let notices = update_notices(format, count as nat, last.input, last.replies);
                assert(tells.drop_last() =~= notices);
                assert(pictures(tells) =~= seq![
                    update_images(format, count as nat, last.input, last.replies),
                ]);
                assert(pictures(messages_tell(format, arrivals)) =~= update_pictures(
                    format,
                    arrivals,
                ));
            },
            _ => {
                lemma_one_event(tells[0]);
                assert(tells =~= seq![tells[0]]);
                assert(pictures(messages_tell(format, arrivals)) =~= update_pictures(
                    format,
                    arrivals,
                ));
            },
        }
    }
}

} // verus!
