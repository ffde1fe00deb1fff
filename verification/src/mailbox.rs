//! Per-loop mailboxes: FIFO queues of messages with connection tracking.
//!
//! Each loop and the dispatcher own exactly one mailbox as its consumer;
//! any number of publishers may feed it.  Sending never blocks and is a
//! silent no-op once the consumer side has been torn down, since a vanished
//! consumer is taken to have shut down deliberately.  A consumer that finds
//! its mailbox empty after every producer has disconnected receives a
//! terminal "disconnected" answer instead of waiting forever.
//!
//! Blocking itself (parking a thread until a send arrives) is the business
//! of the hosting layer; [`Mailbox::wait_outcome`] is the decision it acts
//! on, checked before and after every wait so no wakeup is lost.

use vstd::prelude::*;

use crate::event::Message;

verus! {

/// What a non-blocking poll of a mailbox yields.
pub enum PollOutcome<P> {
    /// The head of the queue, now removed from it.
    Received(Message<P>),
    /// Nothing queued, but producers remain connected.
    Empty,
    /// Nothing queued and every producer has disconnected; the consumer
    /// should wind down rather than poll again.
    Disconnected,
}

/// What a consumer about to block on its mailbox should do.
pub enum WaitOutcome {
    /// Messages are queued: drain them now.
    Ready,
    /// Nothing queued and every producer has disconnected: wind down.
    Disconnected,
    /// Nothing queued yet: park until a send signals the mailbox.
    Block,
}

/// A FIFO queue of messages together with the connection state of its two
/// sides.  The queue is unbounded; there is no back-pressure.
pub struct Mailbox<P> {
    /// Queued messages, oldest first.
    pub queue: Vec<Message<P>>,
    /// Whether any producer handle is still attached.
    pub producers_connected: bool,
    /// Whether the consuming thread is still attached.
    pub consumer_connected: bool,
}

impl<P> Mailbox<P> {
    /// A fresh mailbox: empty, with both sides attached.
    pub fn new() -> (r: Mailbox<P>)
        ensures
            r.queue@ == Seq::<Message<P>>::empty(),
            r.producers_connected,
            r.consumer_connected,
    {
        Mailbox { queue: Vec::new(), producers_connected: true, consumer_connected: true }
    }

    /// Appends a message to the tail of the queue.  Never blocks; if the
    /// consumer side is gone the message is silently dropped.
    pub fn send(&mut self, m: Message<P>)
        ensures
            old(self).consumer_connected ==> final(self).queue@ == old(self).queue@.push(m),
            !old(self).consumer_connected ==> final(self).queue@ == old(self).queue@,
            final(self).producers_connected == old(self).producers_connected,
            final(self).consumer_connected == old(self).consumer_connected,
    {
        if self.consumer_connected {
            self.queue.push(m);
        }
    }

    /// Non-blocking poll: pops the head if one is queued, else reports
    /// whether the mailbox is merely empty or terminally disconnected.
    pub fn try_receive(&mut self) -> (r: PollOutcome<P>)
        ensures
            old(self).queue@.len() > 0 ==> {
                &&& r matches PollOutcome::Received(m) && m == old(self).queue@[0]
                &&& final(self).queue@ == old(self).queue@.drop_first()
            },
            old(self).queue@.len() == 0 && old(self).producers_connected ==> {
                &&& r is Empty
                &&& final(self).queue@ == old(self).queue@
            },
            old(self).queue@.len() == 0 && !old(self).producers_connected ==> {
                &&& r is Disconnected
                &&& final(self).queue@ == old(self).queue@
            },
            final(self).producers_connected == old(self).producers_connected,
            final(self).consumer_connected == old(self).consumer_connected,
    {
        if self.queue.len() > 0 {
            let m = self.queue.remove(0);
            PollOutcome::Received(m)
        } else if self.producers_connected {
            PollOutcome::Empty
        } else {
            PollOutcome::Disconnected
        }
    }

    /// Removes and returns everything queued, oldest first.
    pub fn drain(&mut self) -> (r: Vec<Message<P>>)
        ensures
            r@ == old(self).queue@,
            final(self).queue@ == Seq::<Message<P>>::empty(),
            final(self).producers_connected == old(self).producers_connected,
            final(self).consumer_connected == old(self).consumer_connected,
    {
        let mut taken: Vec<Message<P>> = Vec::new();
        core::mem::swap(&mut taken, &mut self.queue);
        taken
    }

    /// The decision a consumer takes before blocking: drain now, wind down,
    /// or park until the next send.  A blocked consumer re-evaluates this
    /// after every wakeup, so a wakeup that races with a drain is harmless.
    pub fn wait_outcome(&self) -> (r: WaitOutcome)
        ensures
            self.queue@.len() > 0 ==> r is Ready,
            self.queue@.len() == 0 && !self.producers_connected ==> r is Disconnected,
            self.queue@.len() == 0 && self.producers_connected ==> r is Block,
    {
        if self.queue.len() > 0 {
            WaitOutcome::Ready
        } else if !self.producers_connected {
            WaitOutcome::Disconnected
        } else {
            WaitOutcome::Block
        }
    }

    /// Records that the last producer handle has been dropped.
    pub fn disconnect_producers(&mut self)
        ensures
            final(self).queue@ == old(self).queue@,
            !final(self).producers_connected,
            final(self).consumer_connected == old(self).consumer_connected,
    {
        self.producers_connected = false;
    }

    /// Records that the consuming thread has terminated; later sends into
    /// this mailbox are dropped.
    pub fn disconnect_consumer(&mut self)
        ensures
            final(self).queue@ == old(self).queue@,
            final(self).producers_connected == old(self).producers_connected,
            !final(self).consumer_connected,
    {
        self.consumer_connected = false;
    }

    /// How many messages are queued.
    pub fn len(&self) -> (r: usize)
        ensures
            r == self.queue@.len(),
    {
        self.queue.len()
    }

    /// Whether nothing is queued.
    pub fn is_empty(&self) -> (r: bool)
        ensures
            r == (self.queue@.len() == 0),
    {
        self.queue.is_empty()
    }
}

} // verus!
