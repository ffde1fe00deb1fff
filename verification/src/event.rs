//! Event records and the messages that carry them between loops.
//!
//! An event is an instance of a statically configured event kind together
//! with its payload.  Kinds are indices into the kind table that the
//! configuration layer fixes before the runtime is built; payloads are an
//! arbitrary `Copy` type chosen by that layer, so the same logical event can
//! be handed to any number of subscriber mailboxes without loss.

use vstd::prelude::*;

verus! {

/// One event record: its kind (an index into the configured kind table) and
/// its payload.
#[derive(Clone, Copy)]
pub struct Event<P> {
    pub kind: usize,
    pub payload: P,
}

/// What a mailbox carries: either an ordinary event to deliver, or the
/// reserved internal exit signal that unwinds the receiving thread.  The
/// exit signal is never exposed as a publishable or subscribable kind.
#[derive(Clone, Copy)]
pub enum Message<P> {
    ExitSignal,
    Event(Event<P>),
}

impl<P> Event<P> {
    /// Builds an event record from its kind and payload.
    pub fn new(kind: usize, payload: P) -> (r: Event<P>)
        ensures
            r.kind == kind,
            r.payload == payload,
    {
        Event { kind, payload }
    }
}

/// Whether a message is the reserved exit signal.
pub open spec fn is_exit<P>(m: Message<P>) -> bool {
    m is ExitSignal
}

/// Whether any message of the sequence is the exit signal.
pub open spec fn has_exit<P>(q: Seq<Message<P>>) -> bool {
    exists|i: int| 0 <= i < q.len() && is_exit(q[i])
}

/// Whether every event message of the sequence carries a kind from `subs`.
/// This holds of every loop mailbox the dispatcher feeds: fan-out sends a
/// loop only the kinds it subscribed to, besides the exit signal.
pub open spec fn all_subscribed<P>(q: Seq<Message<P>>, subs: Seq<usize>) -> bool {
    forall|i: int|
        0 <= i < q.len() ==> ((#[trigger] q[i]) matches Message::Event(e) ==> subs.contains(
            e.kind,
        ))
}

/// Whether every event message of the sequence has a kind below `n_kinds`.
pub open spec fn kinds_below<P>(q: Seq<Message<P>>, n_kinds: usize) -> bool {
    forall|i: int| 0 <= i < q.len() ==> match #[trigger] q[i] {
        Message::Event(e) => e.kind < n_kinds,
        Message::ExitSignal => true,
    }
}

} // verus!
