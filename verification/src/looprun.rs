//! Loop-side scheduling: draining a mailbox and invoking handlers.
//!
//! Each loop's thread owns one [`LoopCore`] and the consumer side of its
//! mailbox.  Active loops poll without blocking and then run their step
//! function; reactive loops drain only after their host observed
//! [`crate::mailbox::WaitOutcome::Ready`].  Either way the drained batch is
//! screened first: an event of a kind outside the loop's subscriptions is a
//! fatal routing violation and the whole batch is discarded unhandled, and
//! the first exit signal stops the loop for good — no handler runs for it or
//! for anything queued behind it.
//!
//! What a batch hands to the handlers is captured exactly by
//! [`handled_prefix`]: the events of the batch, in order, up to the first
//! exit signal.

use vstd::prelude::*;

use crate::event::{has_exit, Event, Message};
use crate::mailbox::{Mailbox, PollOutcome};

verus! {

/// The events of a batch before its first exit signal: exactly what a loop
/// hands to its handlers, in arrival order.
pub open spec fn handled_prefix<P>(q: Seq<Message<P>>) -> Seq<Event<P>>
    decreases q.len(),
{
    if q.len() == 0 {
        Seq::empty()
    } else {
        match q[0] {
            Message::ExitSignal => Seq::empty(),
            Message::Event(e) => seq![e] + handled_prefix(q.drop_first()),
        }
    }
}

/// Whether every event before the first exit signal of `q` carries a kind
/// from `subs` — the loop's declared subscription set.
pub open spec fn prefix_ok<P>(q: Seq<Message<P>>, subs: Seq<usize>) -> bool
    decreases q.len(),
{
    if q.len() == 0 {
        true
    } else {
        match q[0] {
            Message::ExitSignal => true,
            Message::Event(e) => subs.contains(e.kind) && prefix_ok(q.drop_first(), subs),
        }
    }
}

/// A mailbox fed only with subscribed kinds screens cleanly: the routing
/// violation of [`plan_batch`] is unreachable behind a faithful dispatcher.
pub proof fn lemma_all_subscribed_prefix_ok<P>(q: Seq<Message<P>>, subs: Seq<usize>)
    requires
        crate::event::all_subscribed(q, subs),
    ensures
        prefix_ok(q, subs),
    decreases q.len(),
{
    if q.len() > 0 {
        let qd = q.drop_first();
        assert forall|i: int|
            0 <= i < qd.len() implies ((#[trigger] qd[i]) matches Message::Event(e)
            ==> subs.contains(e.kind)) by {
            assert(qd[i] == q[i + 1]);
        }
        lemma_all_subscribed_prefix_ok(qd, subs);
        match q[0] {
            Message::ExitSignal => {},
            Message::Event(e) => {
                assert(q[0] matches Message::Event(e2) && subs.contains(e2.kind));
            },
        }
    }
}

/// The scheduling state a loop's thread owns: which loop it is, what it
/// subscribes to, and whether it has observed the exit signal.
pub struct LoopCore {
    /// The loop's index among the configured loops.
    pub index: usize,
    /// The event kinds routed to this loop, as declared.
    pub subscribes: Vec<usize>,
    /// Set once the exit signal has been observed; no handler runs again.
    pub stopped: bool,
}

/// A fatal routing fault: loop `loop_index` was handed an event of `kind`
/// outside its declared subscriptions.  This marks a configuration bug, not
/// a recoverable condition; the affected thread aborts its work.
pub struct RoutingViolation {
    pub loop_index: usize,
    pub kind: usize,
}

/// A batch-screening fault names an event that really sits in the batch
/// before its first exit signal, with a kind outside `subs`.
pub open spec fn violation_genuine<P>(
    q: Seq<Message<P>>,
    subs: Seq<usize>,
    index: usize,
    v: RoutingViolation,
) -> bool {
    &&& v.loop_index == index
    &&& !subs.contains(v.kind)
    &&& exists|i: int|
        0 <= i < q.len() && ((#[trigger] q[i]) matches Message::Event(e) && e.kind == v.kind)
}

/// Screens a drained batch: hands back the events to deliver to handlers,
/// in order, cut off before the first exit signal — which, if present,
/// stops the loop for good.  A kind outside the subscriptions is reported
/// as a fatal [`RoutingViolation`] and nothing of the batch is handled.
/// A stopped loop handles nothing, whatever is in the batch.
pub fn plan_batch<P: Copy>(core: &mut LoopCore, batch: &Vec<Message<P>>) -> (r: Result<
    Vec<Event<P>>,
    RoutingViolation,
>)
    ensures
        final(core).index == old(core).index,
        final(core).subscribes@ == old(core).subscribes@,
        old(core).stopped ==> {
            &&& final(core).stopped
            &&& r matches Ok(out) && out@ == Seq::<Event<P>>::empty()
        },
        !old(core).stopped ==> {
            &&& (r is Ok <==> prefix_ok(batch@, old(core).subscribes@))
            &&& (r matches Ok(out) ==> out@ == handled_prefix(batch@) && final(core).stopped
                == has_exit(batch@))
            &&& (r matches Err(v) ==> violation_genuine(
                batch@,
                old(core).subscribes@,
                old(core).index,
                v,
            ) && final(core).stopped == old(core).stopped)
        },
{
    if core.stopped {
        return Ok(Vec::new());
    }
    let ghost subs = core.subscribes@;
    let mut out: Vec<Event<P>> = Vec::new();
    let mut i: usize = 0;
    proof {
        assert(batch@.take(0) =~= Seq::<Message<P>>::empty());
        assert(batch@.skip(0) =~= batch@);
        assert(handled_prefix(batch@.take(0)) =~= out@);
        assert(handled_prefix(batch@) =~= out@ + handled_prefix(batch@.skip(0)));
    }
    while i < batch.len()
        invariant
            i <= batch@.len(),
            *core == *old(core),
            !core.stopped,
            subs == core.subscribes@,
            !has_exit(batch@.take(i as int)),
            prefix_ok(batch@.take(i as int), subs),
            handled_prefix(batch@.take(i as int)) == out@,
            prefix_ok(batch@, subs) == prefix_ok(batch@.skip(i as int), subs),
            handled_prefix(batch@) == out@ + handled_prefix(batch@.skip(i as int)),
            has_exit(batch@) == has_exit(batch@.skip(i as int)),
        decreases batch@.len() - i,
    {
        proof {
            lemma_screen_step(batch@, i as int, subs);
        }
        match batch[i] {
            Message::ExitSignal => {
                core.stopped = true;
                proof {
                    assert(crate::event::is_exit(batch@.skip(i as int)[0]));
                    assert(handled_prefix(batch@.skip(i as int)) =~= Seq::<Event<P>>::empty());
                    assert(handled_prefix(batch@) =~= out@);
                    assert(prefix_ok(batch@.skip(i as int), subs));
                    assert(has_exit(batch@)) by {
                        assert(crate::event::is_exit(batch@[i as int]));
                    }
                }
                return Ok(out);
            },
            Message::Event(e) => {
                if !crate::config::kind_list_contains(&core.subscribes, e.kind) {
                    proof {
                        assert(batch@[i as int] matches Message::Event(e2) && e2.kind == e.kind);
                        assert(!prefix_ok(batch@.skip(i as int), subs));
                    }
                    return Err(RoutingViolation { loop_index: core.index, kind: e.kind });
                }
                let ghost out0 = out@;
                out.push(e);
                proof {
                    assert(out@ == out0.push(e));
                    assert(handled_prefix(batch@.skip(i as int)) == seq![e] + handled_prefix(
                        batch@.skip(i + 1),
                    ));
                    assert(out0 + handled_prefix(batch@.skip(i as int)) =~= out@ + handled_prefix(
                        batch@.skip(i + 1),
                    ));
                }
            },
        }
        i += 1;
    }
    proof {
        assert(batch@.skip(batch@.len() as int) =~= Seq::<Message<P>>::empty());
        assert(handled_prefix(batch@) =~= out@);
        assert(prefix_ok(batch@, subs));
        assert(!has_exit(batch@));
    }
    Ok(out)
}

/// One unfolding step of the screening specs: how `skip(i)` relates to
/// `skip(i + 1)` and `take(i)` to `take(i + 1)` at position `i`.
proof fn lemma_screen_step<P>(q: Seq<Message<P>>, i: int, subs: Seq<usize>)
    requires
        0 <= i < q.len(),
        !has_exit(q.take(i)),
        prefix_ok(q.take(i), subs),
    ensures
        q.skip(i)[0] == q[i],
        q.skip(i).drop_first() =~= q.skip(i + 1),
        q[i] is ExitSignal ==> has_exit(q.take(i + 1)),
        q[i] matches Message::Event(e) ==> {
            &&& (prefix_ok(q.skip(i), subs) <==> subs.contains(e.kind) && prefix_ok(
                q.skip(i + 1),
                subs,
            ))
            &&& handled_prefix(q.skip(i)) == seq![e] + handled_prefix(q.skip(i + 1))
            &&& (has_exit(q.skip(i)) == has_exit(q.skip(i + 1)))
            &&& !has_exit(q.take(i + 1))
            &&& (subs.contains(e.kind) ==> prefix_ok(q.take(i + 1), subs))
            &&& (subs.contains(e.kind) ==> handled_prefix(q.take(i + 1)) == handled_prefix(
                q.take(i),
            ).push(e))
        },
{
    assert(q.skip(i)[0] == q[i]);
    assert(q.skip(i).drop_first() =~= q.skip(i + 1));
    if q[i] is ExitSignal {
        assert(crate::event::is_exit(q.take(i + 1)[i]));
    }
    if let Message::Event(e) = q[i] {
        assert(handled_prefix(q.skip(i)) == seq![e] + handled_prefix(q.skip(i + 1)));
        assert(has_exit(q.skip(i)) == has_exit(q.skip(i + 1))) by {
            if has_exit(q.skip(i)) {
                let j = choose|j: int|
                    0 <= j < q.skip(i).len() && crate::event::is_exit(#[trigger] q.skip(i)[j]);
                assert(j != 0);
                assert(crate::event::is_exit(q.skip(i + 1)[j - 1]));
            }
            if has_exit(q.skip(i + 1)) {
                let j = choose|j: int|
                    0 <= j < q.skip(i + 1).len() && crate::event::is_exit(
                        #[trigger] q.skip(i + 1)[j],
                    );
                assert(crate::event::is_exit(q.skip(i)[j + 1]));
            }
        }
        assert(!has_exit(q.take(i + 1))) by {
            if has_exit(q.take(i + 1)) {
                let j = choose|j: int|
                    0 <= j < q.take(i + 1).len() && crate::event::is_exit(
                        #[trigger] q.take(i + 1)[j],
                    );
                if j < i {
                    assert(crate::event::is_exit(q.take(i)[j]));
                } else {
                    assert(q.take(i + 1)[j] == q[i]);
                }
            }
        }
        if subs.contains(e.kind) {
            lemma_prefix_extend(q, i, subs, e);
        }
    }
}

/// Appending a subscribed event to a clean prefix keeps it clean and adds
/// the event to what the handlers see.
proof fn lemma_prefix_extend<P>(q: Seq<Message<P>>, i: int, subs: Seq<usize>, e: Event<P>)
    requires
        0 <= i < q.len(),
        !has_exit(q.take(i)),
        prefix_ok(q.take(i), subs),
        q[i] == Message::Event(e),
        subs.contains(e.kind),
    ensures
        prefix_ok(q.take(i + 1), subs),
        handled_prefix(q.take(i + 1)) == handled_prefix(q.take(i)).push(e),
    decreases i,
{
    if i == 0 {
        assert(q.take(1)[0] == q[0]);
        assert(q.take(1).drop_first() =~= Seq::<Message<P>>::empty());
        assert(q.take(0) =~= Seq::<Message<P>>::empty());
        assert(handled_prefix(q.take(1)) =~= handled_prefix(q.take(0)).push(e));
    } else {
        let t0 = q.take(i);
        let t1 = q.take(i + 1);
        assert(t1[0] == q[0]);
        assert(t0[0] == q[0]);
        match q[0] {
            Message::ExitSignal => {
                assert(crate::event::is_exit(t0[0]));
                assert(false);
            },
            Message::Event(e0) => {
                let qd = q.drop_first();
                assert(t0.drop_first() =~= qd.take(i - 1));
                assert(t1.drop_first() =~= qd.take(i));
                assert(subs.contains(e0.kind));
                assert(!has_exit(qd.take(i - 1))) by {
                    if has_exit(qd.take(i - 1)) {
                        let j = choose|j: int|
                            0 <= j < qd.take(i - 1).len() && crate::event::is_exit(
                                #[trigger] qd.take(i - 1)[j],
                            );
                        assert(crate::event::is_exit(t0[j + 1]));
                    }
                }
                assert(qd[i - 1] == q[i]);
                lemma_prefix_extend(qd, i - 1, subs, e);
                assert(prefix_ok(t1, subs));
                assert(handled_prefix(t1) == seq![e0] + handled_prefix(qd.take(i)));
                assert(handled_prefix(t0) == seq![e0] + handled_prefix(qd.take(i - 1)));
                assert(handled_prefix(t1) =~= handled_prefix(t0).push(e));
            },
        }
    }
}

/// What a loop must implement to receive events: one entry point, invoked
/// once per delivered event, in delivery order.  The configuration layer
/// that declares per-kind callbacks funnels them through here.
pub trait EventHandlers<P> {
    /// Called once for each event delivered to this loop.
    fn on_event(&mut self, event: &Event<P>);
}

/// What an active loop must additionally implement: the repeating unit of
/// work the loop runs between polls of its mailbox.  It may block or sleep
/// at its own pace; the runtime never does so on the loop's behalf.
pub trait MainLoop {
    /// One repeating unit of work.
    fn main_loop(&mut self);
}

/// Invokes `h.on_event` once per event, in order.
fn run_handlers<P, H: EventHandlers<P>>(h: &mut H, events: &Vec<Event<P>>) {
    let mut i: usize = 0;
    while i < events.len()
        decreases events@.len() - i,
    {
        h.on_event(&events[i]);
        i += 1;
    }
}

/// Non-blocking drain for an active loop: polls `mbox` until empty, screens
/// the batch, and hands each deliverable event to `h` in order.  Returns
/// the events handled; after the first exit signal the loop is stopped and
/// nothing is ever handled again.  Time is bounded by the queue length —
/// the poll loop never waits for new events.
pub fn process_events_active<P: Copy, H: EventHandlers<P>>(
    core: &mut LoopCore,
    mbox: &mut Mailbox<P>,
    h: &mut H,
) -> (r: Result<Vec<Event<P>>, RoutingViolation>)
    ensures
        drain_contract(*old(core), *final(core), *old(mbox), *final(mbox), r),
{
    if core.stopped {
        return Ok(Vec::new());
    }
    let ghost q0 = mbox.queue@;
    let mut batch: Vec<Message<P>> = Vec::new();
    loop
        invariant
            q0 == batch@ + mbox.queue@,
            mbox.producers_connected == old(mbox).producers_connected,
            mbox.consumer_connected == old(mbox).consumer_connected,
        ensures
            batch@ == q0,
            mbox.queue@.len() == 0,
            mbox.producers_connected == old(mbox).producers_connected,
            mbox.consumer_connected == old(mbox).consumer_connected,
        decreases mbox.queue@.len(),
    {
        match mbox.try_receive() {
            PollOutcome::Received(m) => {
                batch.push(m);
                proof {
                    assert(q0 =~= batch@ + mbox.queue@);
                }
            },
            PollOutcome::Empty => {
                proof {
                    assert(batch@ =~= q0);
                }
                break;
            },
            PollOutcome::Disconnected => {
                proof {
                    assert(batch@ =~= q0);
                }
                break;
            },
        }
    }
    proof {
        assert(mbox.queue@ =~= Seq::<Message<P>>::empty());
    }
    let planned = plan_batch(core, &batch);
    match planned {
        Ok(events) => {
            run_handlers(h, &events);
            Ok(events)
        },
        Err(v) => Err(v),
    }
}

/// Blocking-side drain for a reactive loop: empties `mbox` in one take,
/// screens the batch, and hands each deliverable event to `h` in order.
/// The host calls this only after [`Mailbox::wait_outcome`] said `Ready`
/// (or to observe disconnection); with an empty mailbox it handles nothing.
pub fn process_events_reactive<P: Copy, H: EventHandlers<P>>(
    core: &mut LoopCore,
    mbox: &mut Mailbox<P>,
    h: &mut H,
) -> (r: Result<Vec<Event<P>>, RoutingViolation>)
    ensures
        drain_contract(*old(core), *final(core), *old(mbox), *final(mbox), r),
{
    if core.stopped {
        return Ok(Vec::new());
    }
    let batch = mbox.drain();
    let planned = plan_batch(core, &batch);
    match planned {
        Ok(events) => {
            run_handlers(h, &events);
            Ok(events)
        },
        Err(v) => Err(v),
    }
}

/// The one contract both drains meet: a stopped loop touches nothing and
/// handles nothing; otherwise the queue is emptied and exactly the events
/// before its first exit signal are handled, in order, provided all their
/// kinds are subscribed — else the fatal violation is reported and nothing
/// is handled.
pub open spec fn drain_contract<P>(
    core0: LoopCore,
    core1: LoopCore,
    mbox0: Mailbox<P>,
    mbox1: Mailbox<P>,
    r: Result<Vec<Event<P>>, RoutingViolation>,
) -> bool {
    &&& core1.index == core0.index
    &&& core1.subscribes@ == core0.subscribes@
    &&& mbox1.producers_connected == mbox0.producers_connected
    &&& mbox1.consumer_connected == mbox0.consumer_connected
    &&& core0.stopped ==> {
        &&& core1.stopped
        &&& mbox1.queue@ == mbox0.queue@
        &&& r matches Ok(out) && out@ == Seq::<Event<P>>::empty()
    }
    &&& !core0.stopped ==> {
        &&& mbox1.queue@ == Seq::<Message<P>>::empty()
        &&& (r is Ok <==> prefix_ok(mbox0.queue@, core0.subscribes@))
        &&& (r matches Ok(out) ==> out@ == handled_prefix(mbox0.queue@) && core1.stopped
            == has_exit(mbox0.queue@))
        &&& (r matches Err(v) ==> violation_genuine(
            mbox0.queue@,
            core0.subscribes@,
            core0.index,
            v,
        ) && core1.stopped == core0.stopped)
    }
}

/// One whole iteration of an active loop's thread body: drain and handle
/// pending events without blocking, then run the step function once — the
/// step is skipped once the loop has stopped.
pub fn run_active_cycle<P: Copy, H: EventHandlers<P> + MainLoop>(
    core: &mut LoopCore,
    mbox: &mut Mailbox<P>,
    h: &mut H,
) -> (r: Result<Vec<Event<P>>, RoutingViolation>)
    ensures
        drain_contract(*old(core), *final(core), *old(mbox), *final(mbox), r),
{
    let drained = process_events_active(core, mbox, h);
    match drained {
        Ok(events) => {
            if !core.stopped {
                h.main_loop();
            }
            Ok(events)
        },
        Err(v) => Err(v),
    }
}

} // verus!
