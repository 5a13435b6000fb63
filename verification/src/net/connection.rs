//! What goes over a connection, and in which order.

use vstd::prelude::*;

use crate::net::actor::ConnOrigin;
use crate::net::peer::messages_of;
use crate::proto::event::{InEvent, InEventView};
use crate::proto::keys::PublicKey;
use crate::proto::message::{Message, MessageView};

verus! {

/// What the sending side of a connection does next.
#[derive(Debug)]
pub enum SendStep {
    /// Write a message.
    Write(Message),
    /// Wait for a message that is to be sent.
    Receive,
    /// Finish the stream: there will be no more messages.
    Finish,
}

/// What a [`SendStep`] holds.
#[verifier::ext_equal]
pub enum SendStepView {
    Write(MessageView),
    Receive,
    Finish,
}

impl View for SendStep {
    type V = SendStepView;

    open spec fn view(&self) -> SendStepView {
        match *self {
            SendStep::Write(msg) => SendStepView::Write(msg@),
            SendStep::Receive => SendStepView::Receive,
            SendStep::Finish => SendStepView::Finish,
        }
    }
}

/// The sending side of a connection.
#[derive(Debug)]
pub struct SendLoop {
    queue: Vec<Message>,
}

impl View for SendLoop {
    type V = Seq<MessageView>;

    closed spec fn view(&self) -> Seq<MessageView> {
        messages_of(self.queue@)
    }
}

/// The messages that waited for the connection are written first; then others are waited for.
pub open spec fn on_next(queue: Seq<MessageView>) -> (Seq<MessageView>, SendStepView) {
    if queue.len() > 0 {
        (queue.skip(1), SendStepView::Write(queue[0]))
    } else {
        (queue, SendStepView::Receive)
    }
}

/// A message that is to be sent is written; when there will be no more, the stream is finished.
pub open spec fn on_received(msg: Option<MessageView>) -> SendStepView {
    match msg {
        Some(msg) => SendStepView::Write(msg),
        None => SendStepView::Finish,
    }
}

/// What a message holds, if there is one.
pub open spec fn message_of(msg: Option<Message>) -> Option<MessageView> {
    match msg {
        Some(msg) => Some(msg@),
        None => None,
    }
}

impl SendLoop {
    /// A sending side for which `queue` waits.
    pub fn new(queue: Vec<Message>) -> (send_loop: SendLoop)
        ensures
            send_loop@ == messages_of(queue@),
    {
        SendLoop { queue }
    }

    /// What to do when the stream is open, and after each message that was written.
    pub fn next(&mut self) -> (step: SendStep)
        ensures
            (final(self)@, step@) == on_next(old(self)@),
    {
        if self.queue.len() > 0 {
            let msg = self.queue.remove(0);
            assert(self@ =~= old(self)@.skip(1));
            SendStep::Write(msg)
        } else {
            SendStep::Receive
        }
    }

    /// What to do with the outcome of waiting for a message.
    pub fn received(&self, msg: Option<Message>) -> (step: SendStep)
        ensures
            step@ == on_received(message_of(msg)),
    {
        match msg {
            Some(msg) => SendStep::Write(msg),
            None => SendStep::Finish,
        }
    }
}

/// Whether this node opens the stream of a connection: the side that dialed does.
pub fn opens_stream(origin: ConnOrigin) -> (r: bool)
    ensures
        r == (origin == ConnOrigin::Dial),
{
    match origin {
        ConnOrigin::Accept => false,
        ConnOrigin::Dial => true,
    }
}

/// What to report of what was read from a peer; nothing when the stream has ended.
pub fn report_message(peer_id: PublicKey, msg: Option<Message>) -> (event: Option<InEvent>)
    ensures
        match message_of(msg) {
            Some(msg) => event matches Some(e) && e@ == InEventView::RecvMessage(peer_id, msg),
            None => event is None,
        },
{
    match msg {
        Some(msg) => Some(InEvent::RecvMessage(peer_id, msg)),
        None => None,
    }
}

/// How a connection ended: the sending side is asked first.
pub fn combine<E>(sent: Result<(), E>, received: Result<(), E>) -> (r: Result<(), E>)
    ensures
        r == (if sent is Err {
            sent
        } else {
            received
        }),
{
    match sent {
        Ok(()) => received,
        Err(err) => Err(err),
    }
}

/// All messages that wait for a connection are written before any other, each once and in order.
pub proof fn law_queue_is_written_in_order(queue: Seq<MessageView>, i: int)
    requires
        0 <= i <= queue.len(),
    ensures
        i < queue.len() ==> on_next(queue.skip(i)) == (
            queue.skip(i + 1),
            SendStepView::Write(queue[i]),
        ),
        i == queue.len() ==> on_next(queue.skip(i)) == (queue.skip(i), SendStepView::Receive),
{
    if i < queue.len() {
        assert(queue.skip(i).skip(1) =~= queue.skip(i + 1));
    }
}

} // verus!
