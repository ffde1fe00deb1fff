//! The delivery guarantees, stated and proved as theorems.
//!
//! The contracts of [`crate::dispatch`] and [`crate::looprun`] describe one
//! dispatcher cycle and one loop drain each; the lemmas here compose them
//! into the guarantees the runtime makes as a whole.  [`delivered_events`]
//! is the pivot: the events a loop's handlers see out of one published
//! batch, namely its mailbox share as the dispatcher fans the batch out,
//! screened the way the loop's own drain screens it.

use vstd::prelude::*;

use crate::dispatch::{routed_one, routed_prefix};
use crate::event::{has_exit, is_exit, Event, Message};
use crate::looprun::{drain_contract, handled_prefix, LoopCore};
use crate::mailbox::Mailbox;

verus! {

/// The events the handlers of a loop with subscription set `subs` see out
/// of a published batch: the dispatcher appends the loop's share of the
/// batch to its mailbox, and the loop's drain hands every event before the
/// first exit signal to the handlers, in order.
pub open spec fn delivered_events<P>(batch: Seq<Message<P>>, subs: Seq<usize>) -> Seq<Event<P>> {
    handled_prefix(routed_prefix(batch, subs))
}

/// The events of `events` whose kind is in `subs`, in order.
pub open spec fn subscribed_only<P>(events: Seq<Event<P>>, subs: Seq<usize>) -> Seq<Event<P>>
    decreases events.len(),
{
    if events.len() == 0 {
        Seq::empty()
    } else {
        (if subs.contains(events[0].kind) {
            seq![events[0]]
        } else {
            Seq::empty()
        }) + subscribed_only(events.drop_first(), subs)
    }
}

/// A batch without an exit signal routes no exit signal to anybody.
pub proof fn lemma_routed_prefix_no_exit<P>(batch: Seq<Message<P>>, subs: Seq<usize>)
    requires
        !has_exit(batch),
    ensures
        !has_exit(routed_prefix(batch, subs)),
    decreases batch.len(),
{
    if batch.len() > 0 {
        assert(!is_exit(batch[0]));
        let rest = batch.drop_first();
        assert(!has_exit(rest)) by {
            if has_exit(rest) {
                let i = choose|i: int| 0 <= i < rest.len() && is_exit(#[trigger] rest[i]);
                assert(is_exit(batch[i + 1]));
            }
        }
        lemma_routed_prefix_no_exit(rest, subs);
        let out = routed_prefix(batch, subs);
        let tail = routed_prefix(rest, subs);
        assert(!has_exit(out)) by {
            if has_exit(out) {
                let i = choose|i: int| 0 <= i < out.len() && is_exit(#[trigger] out[i]);
                if let Message::Event(e) = batch[0] {
                    if subs.contains(e.kind) {
                        if i == 0 {
                        } else {
                            assert(is_exit(tail[i - 1]));
                        }
                    } else {
                        assert(is_exit(tail[i]));
                    }
                }
            }
        }
    }
}

/// Delivery is exact — completeness, exclusion and order in one statement:
/// out of one batch, a loop's handlers see exactly the events of the kinds
/// it subscribed to that were published before the first exit signal, each
/// exactly once, in publication order.
pub proof fn lemma_delivery_exact<P>(batch: Seq<Message<P>>, subs: Seq<usize>)
    ensures
        delivered_events(batch, subs) == subscribed_only(handled_prefix(batch), subs),
    decreases batch.len(),
{
    if batch.len() == 0 {
        assert(delivered_events(batch, subs) =~= subscribed_only(handled_prefix(batch), subs));
    } else {
        let rest = batch.drop_first();
        lemma_delivery_exact(rest, subs);
        match batch[0] {
            Message::ExitSignal => {
                assert(routed_prefix(batch, subs) == seq![Message::<P>::ExitSignal]);
                assert(is_exit(routed_prefix(batch, subs)[0]));
                assert(delivered_events(batch, subs) =~= Seq::<Event<P>>::empty());
                assert(handled_prefix(batch) == Seq::<Event<P>>::empty());
                assert(subscribed_only(handled_prefix(batch), subs) =~= Seq::<Event<P>>::empty());
            },
            Message::Event(e) => {
                let share = routed_one(batch[0], subs) + routed_prefix(rest, subs);
                assert(routed_prefix(batch, subs) == share);
                assert(handled_prefix(batch) == seq![e] + handled_prefix(rest));
                let hp = handled_prefix(batch);
                assert(hp[0] == e);
                assert(hp.drop_first() =~= handled_prefix(rest));
                if subs.contains(e.kind) {
                    assert(share[0] == Message::<P>::Event(e));
                    assert(share.drop_first() =~= routed_prefix(rest, subs));
                    assert(handled_prefix(share) == seq![e] + handled_prefix(
                        routed_prefix(rest, subs),
                    ));
                    assert(delivered_events(batch, subs) =~= subscribed_only(hp, subs));
                } else {
                    assert(share =~= routed_prefix(rest, subs));
                    assert(delivered_events(batch, subs) =~= subscribed_only(hp, subs));
                }
            },
        }
    }
}

/// No cross-delivery: a loop's handlers never see an event of a kind
/// outside the loop's declared subscription set.
pub proof fn lemma_no_cross_delivery<P>(batch: Seq<Message<P>>, subs: Seq<usize>, i: int)
    requires
        0 <= i < delivered_events(batch, subs).len(),
    ensures
        subs.contains(delivered_events(batch, subs)[i].kind),
{
    lemma_delivery_exact(batch, subs);
    lemma_subscribed_only_members(handled_prefix(batch), subs, i);
}

/// Every member of [`subscribed_only`] carries a subscribed kind.
proof fn lemma_subscribed_only_members<P>(events: Seq<Event<P>>, subs: Seq<usize>, i: int)
    requires
        0 <= i < subscribed_only(events, subs).len(),
    ensures
        subs.contains(subscribed_only(events, subs)[i].kind),
    decreases events.len(),
{
    let out = subscribed_only(events, subs);
    if events.len() > 0 {
        let rest = subscribed_only(events.drop_first(), subs);
        if subs.contains(events[0].kind) {
            if i == 0 {
                assert(out[0] == events[0]);
            } else {
                assert(out[i] == rest[i - 1]);
                lemma_subscribed_only_members(events.drop_first(), subs, i - 1);
            }
        } else {
            assert(out[i] == rest[i]);
            lemma_subscribed_only_members(events.drop_first(), subs, i);
        }
    }
}

/// Completeness: an event published before any exit signal reaches every
/// loop subscribed to its kind.
pub proof fn lemma_delivery_completeness<P>(batch: Seq<Message<P>>, subs: Seq<usize>, i: int)
    requires
        0 <= i < batch.len(),
        !has_exit(batch.take(i)),
        batch[i] matches Message::Event(e) && subs.contains(e.kind),
    ensures
        batch[i] matches Message::Event(e) ==> delivered_events(batch, subs).contains(e),
{
    let e = batch[i]->Event_0;
    lemma_batch_split(batch, i, subs);
    let pre = batch.take(i);
    let d_pre = delivered_events(pre, subs);
    assert(delivered_events(batch, subs)[d_pre.len() as int] == e);
}

/// Splitting a batch at an event published before any exit signal: the
/// deliveries up to the event come first, then (if subscribed) the event
/// itself at a known position.
proof fn lemma_batch_split<P>(batch: Seq<Message<P>>, i: int, subs: Seq<usize>)
    requires
        0 <= i < batch.len(),
        !has_exit(batch.take(i)),
        batch[i] matches Message::Event(e) && subs.contains(e.kind),
    ensures
        batch[i] matches Message::Event(e) ==> {
            let d_pre = delivered_events(batch.take(i), subs);
            &&& delivered_events(batch, subs).len() > d_pre.len()
            &&& delivered_events(batch, subs)[d_pre.len() as int] == e
            &&& delivered_events(batch, subs).take(d_pre.len() as int) == d_pre
        },
{
    let e = batch[i]->Event_0;
    let pre = batch.take(i);
    let pre1 = batch.take(i + 1);
    let rest = batch.skip(i + 1);
    assert(pre1 =~= pre.push(batch[i]));
    assert(pre1 + rest =~= batch);
    crate::dispatch::lemma_routed_prefix_push(pre, subs, batch[i]);
    lemma_routed_prefix_no_exit(pre, subs);
    let rp_pre = routed_prefix(pre, subs);
    let rp_pre1 = routed_prefix(pre1, subs);
    assert(rp_pre1 == rp_pre + seq![Message::<P>::Event(e)]);
    assert(!has_exit(pre1)) by {
        if has_exit(pre1) {
            let j = choose|j: int| 0 <= j < pre1.len() && is_exit(#[trigger] pre1[j]);
            if j < i {
                assert(is_exit(pre[j]));
            } else {
                assert(pre1[j] == batch[i]);
            }
        }
    }
    lemma_routed_prefix_append(pre1, rest, subs);
    let rp_rest = routed_prefix(rest, subs);
    assert(routed_prefix(batch, subs) == rp_pre1 + rp_rest);
    assert(!has_exit(rp_pre1)) by {
        lemma_routed_prefix_no_exit(pre1, subs);
    }
    lemma_handled_prefix_append(rp_pre1, rp_rest);
    assert(!has_exit(rp_pre)) by {
        lemma_routed_prefix_no_exit(pre, subs);
    }
    lemma_handled_prefix_append(rp_pre, seq![Message::<P>::Event(e)]);
    assert(handled_prefix(seq![Message::<P>::Event(e)]) =~= seq![e]) by {
        let single = seq![Message::<P>::Event(e)];
        assert(single[0] == Message::<P>::Event(e));
        assert(single.drop_first() =~= Seq::<Message<P>>::empty());
        assert(handled_prefix(Seq::<Message<P>>::empty()) == Seq::<Event<P>>::empty());
        assert(handled_prefix(single) == seq![e] + handled_prefix(single.drop_first()));
    }
    let d_pre = delivered_events(pre, subs);
    assert(handled_prefix(rp_pre1) == d_pre + seq![e]);
    assert(delivered_events(batch, subs) == d_pre + seq![e] + handled_prefix(rp_rest));
    assert(delivered_events(batch, subs)[d_pre.len() as int] == e);
    assert(delivered_events(batch, subs).take(d_pre.len() as int) =~= d_pre);
}

/// Concatenation passes through [`routed_prefix`] while no exit signal has
/// been seen: dispatching cycle after cycle appends each subscriber's
/// shares in order.
pub proof fn lemma_routed_prefix_append<P>(s1: Seq<Message<P>>, s2: Seq<Message<P>>, subs: Seq<usize>)
    requires
        !has_exit(s1),
    ensures
        routed_prefix(s1 + s2, subs) == routed_prefix(s1, subs) + routed_prefix(s2, subs),
    decreases s1.len(),
{
    if s1.len() == 0 {
        assert(s1 + s2 =~= s2);
        assert(routed_prefix(s1, subs) + routed_prefix(s2, subs) =~= routed_prefix(s2, subs));
    } else {
        assert(!is_exit(s1[0]));
        let rest = s1.drop_first();
        assert(!has_exit(rest)) by {
            if has_exit(rest) {
                let i = choose|i: int| 0 <= i < rest.len() && is_exit(#[trigger] rest[i]);
                assert(is_exit(s1[i + 1]));
            }
        }
        lemma_routed_prefix_append(rest, s2, subs);
        assert((s1 + s2).drop_first() =~= rest + s2);
        assert((s1 + s2)[0] == s1[0]);
        assert(routed_prefix(s1 + s2, subs) =~= routed_prefix(s1, subs) + routed_prefix(s2, subs));
    }
}

/// Concatenation passes through [`handled_prefix`] while no exit signal
/// has been seen: draining cycle after cycle hands events over in order.
pub proof fn lemma_handled_prefix_append<P>(q1: Seq<Message<P>>, q2: Seq<Message<P>>)
    requires
        !has_exit(q1),
    ensures
        handled_prefix(q1 + q2) == handled_prefix(q1) + handled_prefix(q2),
    decreases q1.len(),
{
    if q1.len() == 0 {
        assert(q1 + q2 =~= q2);
        assert(handled_prefix(q1) + handled_prefix(q2) =~= handled_prefix(q2));
    } else {
        assert(!is_exit(q1[0]));
        let rest = q1.drop_first();
        assert(!has_exit(rest)) by {
            if has_exit(rest) {
                let i = choose|i: int| 0 <= i < rest.len() && is_exit(#[trigger] rest[i]);
                assert(is_exit(q1[i + 1]));
            }
        }
        lemma_handled_prefix_append(rest, q2);
        assert((q1 + q2).drop_first() =~= rest + q2);
        assert((q1 + q2)[0] == q1[0]);
        assert(handled_prefix(q1 + q2) =~= handled_prefix(q1) + handled_prefix(q2));
    }
}

/// Order is preserved per subscriber: of two subscribed events published
/// before any exit signal, the earlier one is handled strictly before the
/// later one, at known positions.
pub proof fn lemma_order_preservation<P>(batch: Seq<Message<P>>, subs: Seq<usize>, i: int, j: int)
    requires
        0 <= i < j < batch.len(),
        !has_exit(batch.take(j)),
        batch[i] matches Message::Event(a) && subs.contains(a.kind),
        batch[j] matches Message::Event(b) && subs.contains(b.kind),
    ensures
        ({
            let d = delivered_events(batch, subs);
            let pi = delivered_events(batch.take(i), subs).len() as int;
            let pj = delivered_events(batch.take(j), subs).len() as int;
            &&& pi < pj < d.len()
            &&& d[pi] == batch[i]->Event_0
            &&& d[pj] == batch[j]->Event_0
        }),
{
    let a = batch[i]->Event_0;
    let b = batch[j]->Event_0;
    assert(!has_exit(batch.take(i))) by {
        if has_exit(batch.take(i)) {
            let k = choose|k: int| 0 <= k < batch.take(i).len() && is_exit(#[trigger] batch.take(i)[k]);
            assert(is_exit(batch.take(j)[k]));
        }
    }
    lemma_batch_split(batch, i, subs);
    lemma_batch_split(batch, j, subs);
    let pi = delivered_events(batch.take(i), subs).len() as int;
    let pj = delivered_events(batch.take(j), subs).len() as int;
    // The deliveries of take(j) extend those of take(i) by at least the
    // event at i itself, so pi < pj.
    assert(pi < pj) by {
        lemma_batch_split(batch.take(j), i, subs);
        assert(batch.take(j).take(i) =~= batch.take(i));
        assert(delivered_events(batch.take(j), subs).len() > pi);
    }
}

/// Shutdown is final: nothing published after the first exit signal is
/// ever handled by anybody — the deliveries of a batch are the deliveries
/// of its prefix up to that signal.
pub proof fn lemma_shutdown_is_final<P>(batch: Seq<Message<P>>, subs: Seq<usize>, i: int)
    requires
        0 <= i < batch.len(),
        is_exit(batch[i]),
        !has_exit(batch.take(i)),
    ensures
        delivered_events(batch, subs) == delivered_events(batch.take(i), subs),
{
    let pre = batch.take(i);
    let pre1 = batch.take(i + 1);
    let rest = batch.skip(i + 1);
    assert(pre1 =~= pre.push(batch[i]));
    assert(pre1 + rest =~= batch);
    assert(has_exit(pre1)) by {
        assert(is_exit(pre1[i]));
    }
    crate::dispatch::lemma_routed_prefix_halted(pre1, rest, subs);
    crate::dispatch::lemma_routed_prefix_push(pre, subs, batch[i]);
    assert(routed_prefix(batch, subs) == routed_prefix(pre, subs) + seq![
        Message::<P>::ExitSignal,
    ]);
    lemma_routed_prefix_no_exit(pre, subs);
    lemma_handled_prefix_append(routed_prefix(pre, subs), seq![Message::<P>::ExitSignal]);
    assert(handled_prefix(seq![Message::<P>::ExitSignal]) =~= Seq::<Event<P>>::empty());
    assert(delivered_events(batch, subs) =~= delivered_events(pre, subs));
}

/// A batch routes an exit signal to a subscriber exactly when it holds one:
/// shutdown reaches everybody, and nobody else invents it.
pub proof fn lemma_routed_exit_faithful<P>(batch: Seq<Message<P>>, subs: Seq<usize>)
    ensures
        has_exit(routed_prefix(batch, subs)) == has_exit(batch),
    decreases batch.len(),
{
    if batch.len() == 0 {
    } else if batch[0] is ExitSignal {
        assert(is_exit(routed_prefix(batch, subs)[0]));
        assert(is_exit(batch[0]));
    } else {
        let rest = batch.drop_first();
        lemma_routed_exit_faithful(rest, subs);
        let out = routed_prefix(batch, subs);
        let head = routed_one(batch[0], subs);
        let tail = routed_prefix(rest, subs);
        assert(out == head + tail);
        assert(has_exit(out) == has_exit(tail)) by {
            if has_exit(out) {
                let i = choose|i: int| 0 <= i < out.len() && is_exit(#[trigger] out[i]);
                assert(i >= head.len()) by {
                    if i < head.len() {
                        assert(!is_exit(head[i]));
                    }
                }
                assert(is_exit(tail[i - head.len()]));
            }
            if has_exit(tail) {
                let i = choose|i: int| 0 <= i < tail.len() && is_exit(#[trigger] tail[i]);
                assert(is_exit(out[i + head.len()]));
            }
        }
        assert(has_exit(batch) == has_exit(rest)) by {
            if has_exit(batch) {
                let i = choose|i: int| 0 <= i < batch.len() && is_exit(#[trigger] batch[i]);
                assert(is_exit(rest[i - 1]));
            }
            if has_exit(rest) {
                let i = choose|i: int| 0 <= i < rest.len() && is_exit(#[trigger] rest[i]);
                assert(is_exit(batch[i + 1]));
            }
        }
    }
}

/// End to end: a loop whose empty mailbox receives its share of one
/// dispatched batch hands its handlers exactly [`delivered_events`] of the
/// batch — the subscribed events published before the first exit signal,
/// in publication order — and stops exactly when the batch held that
/// signal.  The fatal violation cannot occur on a dispatcher-fed mailbox.
pub proof fn lemma_end_to_end_delivery<P>(
    batch: Seq<Message<P>>,
    subs: Seq<usize>,
    core0: LoopCore,
    core1: LoopCore,
    mbox0: Mailbox<P>,
    mbox1: Mailbox<P>,
    r: Result<Vec<Event<P>>, crate::looprun::RoutingViolation>,
)
    requires
        mbox0.queue@ == routed_prefix(batch, subs),
        core0.subscribes@ == subs,
        !core0.stopped,
        drain_contract(core0, core1, mbox0, mbox1, r),
    ensures
        r matches Ok(out) && out@ == delivered_events(batch, subs),
        core1.stopped == has_exit(batch),
{
    crate::dispatch::lemma_routed_prefix_subscribed(batch, subs);
    crate::looprun::lemma_all_subscribed_prefix_ok(mbox0.queue@, subs);
    lemma_routed_exit_faithful(batch, subs);
}

/// A stopped loop never handles anything again, whatever is sent to it.
pub proof fn lemma_stopped_loop_is_deaf<P>(
    core0: LoopCore,
    core1: LoopCore,
    mbox0: Mailbox<P>,
    mbox1: Mailbox<P>,
    r: Result<Vec<Event<P>>, crate::looprun::RoutingViolation>,
)
    requires
        drain_contract(core0, core1, mbox0, mbox1, r),
        core0.stopped,
    ensures
        r matches Ok(out) && out@ == Seq::<Event<P>>::empty(),
        core1.stopped,
{
}

/// A reactive loop with an empty mailbox makes no forward progress: a
/// drain, were it even invoked, would hand its handlers nothing and leave
/// all state as it was.
pub proof fn lemma_empty_mailbox_no_progress<P>(
    core0: LoopCore,
    core1: LoopCore,
    mbox0: Mailbox<P>,
    mbox1: Mailbox<P>,
    r: Result<Vec<Event<P>>, crate::looprun::RoutingViolation>,
)
    requires
        drain_contract(core0, core1, mbox0, mbox1, r),
        mbox0.queue@.len() == 0,
    ensures
        r matches Ok(out) && out@ == Seq::<Event<P>>::empty(),
        core1.stopped == core0.stopped,
{
    assert(mbox0.queue@ =~= Seq::<Message<P>>::empty());
    if !core0.stopped {
        assert(handled_prefix(mbox0.queue@) =~= Seq::<Event<P>>::empty());
        assert(!has_exit(mbox0.queue@));
        assert(crate::looprun::prefix_ok(mbox0.queue@, core0.subscribes@));
    }
}

/// A drain hands its handlers no more events than were queued: the work of
/// one non-blocking poll pass is bounded by the mailbox's length.
pub proof fn lemma_drain_work_bounded<P>(q: Seq<Message<P>>)
    ensures
        handled_prefix(q).len() <= q.len(),
    decreases q.len(),
{
    if q.len() > 0 {
        match q[0] {
            Message::ExitSignal => {},
            Message::Event(e) => {
                lemma_drain_work_bounded(q.drop_first());
            },
        }
    }
}

} // verus!
