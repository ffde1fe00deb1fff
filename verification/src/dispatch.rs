//! The dispatcher: serialization and fan-out of published events.
//!
//! Every publish in the system funnels into one inbound mailbox, whose FIFO
//! order is the system-wide total order of events.  The dispatcher drains
//! that mailbox and, for each event in order, appends a copy to the mailbox
//! of every loop subscribed to the event's kind.  On the reserved exit
//! signal it instead broadcasts the signal to every loop and dispatches
//! nothing further, ever.
//!
//! What a batch does to each subscriber's queue is captured exactly by
//! [`routed_prefix`]: the subscribed events of the batch, in batch order, up
//! to and including the first exit signal.

use vstd::prelude::*;

use crate::config::LoopDescriptor;
use crate::event::{has_exit, kinds_below, Event, Message};
use crate::mailbox::Mailbox;
use crate::routing::{routes_to, RoutingTable};
use vstd::pervasive::VecAdditionalExecFns;

verus! {

/// What one message adds to the queue of a loop with subscription set
/// `subs`: the exit signal reaches everyone, an event only its subscribers.
pub open spec fn routed_one<P>(m: Message<P>, subs: Seq<usize>) -> Seq<Message<P>> {
    match m {
        Message::ExitSignal => seq![Message::ExitSignal],
        Message::Event(e) => if subs.contains(e.kind) {
            seq![Message::Event(e)]
        } else {
            Seq::empty()
        },
    }
}

/// What a whole batch adds to the queue of a loop with subscription set
/// `subs`: the contributions of each message in order, cut off just after
/// the first exit signal.
pub open spec fn routed_prefix<P>(batch: Seq<Message<P>>, subs: Seq<usize>) -> Seq<Message<P>>
    decreases batch.len(),
{
    if batch.len() == 0 {
        Seq::empty()
    } else {
        match batch[0] {
            Message::ExitSignal => seq![Message::ExitSignal],
            Message::Event(e) => routed_one(batch[0], subs) + routed_prefix(
                batch.drop_first(),
                subs,
            ),
        }
    }
}

/// How a delivery changes one mailbox: the connection flags stay, and the
/// extension lands at the tail of the queue unless the consumer is gone, in
/// which case the send was dropped.
pub open spec fn delivered_to<P>(
    mb0: Mailbox<P>,
    mb1: Mailbox<P>,
    extension: Seq<Message<P>>,
) -> bool {
    &&& mb1.producers_connected == mb0.producers_connected
    &&& mb1.consumer_connected == mb0.consumer_connected
    &&& mb1.queue@ == if mb0.consumer_connected {
        mb0.queue@ + extension
    } else {
        mb0.queue@
    }
}

/// Extending a batch that holds no exit signal extends each subscriber's
/// share by the new message's own contribution.
pub proof fn lemma_routed_prefix_push<P>(batch: Seq<Message<P>>, subs: Seq<usize>, m: Message<P>)
    requires
        !has_exit(batch),
    ensures
        routed_prefix(batch.push(m), subs) == routed_prefix(batch, subs) + routed_one(m, subs),
    decreases batch.len(),
{
    if batch.len() == 0 {
        let single = batch.push(m);
        assert(single[0] == m);
        assert(single.drop_first() =~= Seq::<Message<P>>::empty());
        assert(routed_prefix(Seq::<Message<P>>::empty(), subs) == Seq::<Message<P>>::empty());
        assert(batch =~= Seq::<Message<P>>::empty());
        match m {
            Message::ExitSignal => {
                assert(routed_prefix(single, subs) == seq![Message::<P>::ExitSignal]);
                assert(routed_prefix(batch, subs) + routed_one(m, subs) =~= routed_one(m, subs));
            },
            Message::Event(e) => {
                assert(routed_prefix(single, subs) == routed_one(m, subs) + routed_prefix(
                    single.drop_first(),
                    subs,
                ));
                assert(routed_prefix(single, subs) =~= routed_one(m, subs));
                assert(routed_prefix(batch, subs) + routed_one(m, subs) =~= routed_one(m, subs));
            },
        }
    } else {
        assert(!(batch[0] is ExitSignal)) by {
            assert(!(exists|i: int| 0 <= i < batch.len() && crate::event::is_exit(batch[i])));
        }
        let rest = batch.drop_first();
        assert(!has_exit(rest)) by {
            if has_exit(rest) {
                let i = choose|i: int|
                    0 <= i < rest.len() && crate::event::is_exit(#[trigger] rest[i]);
                assert(crate::event::is_exit(batch[i + 1]));
            }
        }
        lemma_routed_prefix_push(rest, subs, m);
        assert(batch.push(m).drop_first() =~= rest.push(m));
        assert(routed_prefix(batch.push(m), subs) =~= routed_prefix(batch, subs) + routed_one(
            m,
            subs,
        ));
    }
}

/// Once a batch prefix holds an exit signal, whatever follows it
/// contributes nothing more to any subscriber.
pub proof fn lemma_routed_prefix_halted<P>(
    p: Seq<Message<P>>,
    rest: Seq<Message<P>>,
    subs: Seq<usize>,
)
    requires
        has_exit(p),
    ensures
        routed_prefix(p + rest, subs) == routed_prefix(p, subs),
    decreases p.len(),
{
    let i = choose|i: int| 0 <= i < p.len() && crate::event::is_exit(#[trigger] p[i]);
    if p[0] is ExitSignal {
        assert((p + rest)[0] is ExitSignal);
        assert(routed_prefix(p + rest, subs) =~= routed_prefix(p, subs));
    } else {
        let pd = p.drop_first();
        assert(crate::event::is_exit(pd[i - 1]));
        assert(has_exit(pd));
        lemma_routed_prefix_halted(pd, rest, subs);
        assert((p + rest).drop_first() =~= pd + rest);
        assert((p + rest)[0] == p[0]);
        assert(routed_prefix(p + rest, subs) =~= routed_prefix(p, subs));
    }
}

/// A subscriber's share of a batch holds nothing foreign: besides the exit
/// signal, only events of kinds the subscription set names.
pub proof fn lemma_routed_prefix_subscribed<P>(batch: Seq<Message<P>>, subs: Seq<usize>)
    ensures
        crate::event::all_subscribed(routed_prefix(batch, subs), subs),
    decreases batch.len(),
{
    if batch.len() > 0 {
        lemma_routed_prefix_subscribed(batch.drop_first(), subs);
        let out = routed_prefix(batch, subs);
        match batch[0] {
            Message::ExitSignal => {},
            Message::Event(e) => {
                let rest = routed_prefix(batch.drop_first(), subs);
                assert forall|i: int|
                    0 <= i < out.len() implies ((#[trigger] out[i]) matches Message::Event(e2)
                    ==> subs.contains(e2.kind)) by {
                    if subs.contains(e.kind) {
                        if i > 0 {
                            assert(out[i] == rest[i - 1]);
                        }
                    } else {
                        assert(out[i] == rest[i]);
                    }
                }
            },
        }
    }
}

/// Appends `m` to the queue of mailbox `l`, leaving every other mailbox
/// untouched.
fn send_to<P>(mailboxes: &mut Vec<Mailbox<P>>, l: usize, m: Message<P>)
    requires
        l < old(mailboxes)@.len(),
    ensures
        final(mailboxes)@.len() == old(mailboxes)@.len(),
        forall|j: usize|
            j < old(mailboxes)@.len() && j != l ==> final(mailboxes)@[j as int] == old(
                mailboxes,
            )@[j as int],
        delivered_to(old(mailboxes)@[l as int], final(mailboxes)@[l as int], seq![m]),
{
    let ghost mb0 = mailboxes@[l as int];
    let mut slot: Mailbox<P> = Mailbox::new();
    mailboxes.set_and_swap(l, &mut slot);
    slot.send(m);
    mailboxes.set_and_swap(l, &mut slot);
    proof {
        if mb0.consumer_connected {
            assert(mailboxes@[l as int].queue@ =~= mb0.queue@ + seq![m]);
        }
    }
}

/// Delivers one event: a copy lands in the mailbox of every loop the table
/// routes its kind to, and nowhere else.
pub fn fan_out<P: Copy>(table: &RoutingTable, mailboxes: &mut Vec<Mailbox<P>>, e: Event<P>)
    requires
        table.wf(old(mailboxes)@.len() as int),
        e.kind < table.n_kinds,
    ensures
        final(mailboxes)@.len() == old(mailboxes)@.len(),
        forall|l: usize|
            l < old(mailboxes)@.len() ==> delivered_to(
                old(mailboxes)@[l as int],
                #[trigger] final(mailboxes)@[l as int],
                if routes_to(*table, e.kind, l) {
                    seq![Message::Event(e)]
                } else {
                    Seq::empty()
                },
            ),
{
    let subs: &Vec<usize> = &table.subscribers[e.kind];
    let ghost mbs0 = mailboxes@;
    let mut i: usize = 0;
    while i < subs.len()
        invariant
            i <= subs@.len(),
            subs@ == table.subscribers@[e.kind as int]@,
            table.wf(mbs0.len() as int),
            e.kind < table.n_kinds,
            mailboxes@.len() == mbs0.len(),
            forall|l: usize|
                l < mbs0.len() ==> delivered_to(
                    mbs0[l as int],
                    #[trigger] mailboxes@[l as int],
                    if subs@.take(i as int).contains(l) {
                        seq![Message::Event(e)]
                    } else {
                        Seq::empty()
                    },
                ),
        decreases subs@.len() - i,
    {
        let l = subs[i];
        assert(l < mbs0.len());
        proof {
            // The list is strictly increasing, so l has not been served yet.
            if subs@.take(i as int).contains(l) {
                let j = choose|j: int|
                    0 <= j < i && (#[trigger] subs@.take(i as int)[j]) == l;
                assert(subs@[j] < subs@[i as int]);
            }
            assert(mailboxes@[l as int].queue@ =~= mbs0[l as int].queue@);
            assert(delivered_to(mbs0[l as int], mailboxes@[l as int], Seq::empty()));
        }
        let ghost mid = mailboxes@;
        send_to(mailboxes, l, Message::Event(e));
        proof {
            assert(subs@.take(i + 1) =~= subs@.take(i as int).push(l));
            assert forall|l2: usize| l2 < mbs0.len() implies delivered_to(
                mbs0[l2 as int],
                #[trigger] mailboxes@[l2 as int],
                if subs@.take(i + 1).contains(l2) {
                    seq![Message::Event(e)]
                } else {
                    Seq::empty()
                },
            ) by {
                if l2 == l {
                    assert(subs@.take(i + 1)[i as int] == l);
                    assert(subs@.take(i + 1).contains(l));
                    if mbs0[l2 as int].consumer_connected {
                        assert(mailboxes@[l2 as int].queue@ =~= mbs0[l2 as int].queue@ + seq![
                            Message::Event(e),
                        ]);
                    }
                } else {
                    assert(mailboxes@[l2 as int] == mid[l2 as int]);
                    if subs@.take(i + 1).contains(l2) {
                        let j = choose|j: int|
                            0 <= j < i + 1 && (#[trigger] subs@.take(i + 1)[j]) == l2;
                        assert(j != i);
                        assert(subs@.take(i as int)[j] == l2);
                        assert(subs@.take(i as int).contains(l2));
                    }
                    if subs@.take(i as int).contains(l2) {
                        let j = choose|j: int|
                            0 <= j < i && (#[trigger] subs@.take(i as int)[j]) == l2;
                        assert(subs@.take(i + 1)[j] == l2);
                        assert(subs@.take(i + 1).contains(l2));
                    }
                }
            }
        }
        i += 1;
    }
    proof {
        assert(subs@.take(subs@.len() as int) =~= subs@);
        assert forall|l: usize| l < mbs0.len() implies delivered_to(
            mbs0[l as int],
            #[trigger] mailboxes@[l as int],
            if routes_to(*table, e.kind, l) {
                seq![Message::Event(e)]
            } else {
                Seq::empty()
            },
        ) by {
            assert(routes_to(*table, e.kind, l) == subs@.contains(l));
        }
    }
}

/// Broadcasts the exit signal to every loop mailbox.
pub fn broadcast_exit<P>(mailboxes: &mut Vec<Mailbox<P>>)
    ensures
        final(mailboxes)@.len() == old(mailboxes)@.len(),
        forall|l: usize|
            l < old(mailboxes)@.len() ==> delivered_to(
                old(mailboxes)@[l as int],
                #[trigger] final(mailboxes)@[l as int],
                seq![Message::ExitSignal],
            ),
{
    let ghost mbs0 = mailboxes@;
    let mut l: usize = 0;
    while l < mailboxes.len()
        invariant
            l <= mbs0.len(),
            mailboxes@.len() == mbs0.len(),
            forall|j: usize|
                j < l ==> delivered_to(
                    mbs0[j as int],
                    #[trigger] mailboxes@[j as int],
                    seq![Message::ExitSignal],
                ),
            forall|j: usize|
                l <= j < mbs0.len() ==> #[trigger] mailboxes@[j as int] == mbs0[j as int],
        decreases mbs0.len() - l,
    {
        send_to(mailboxes, l, Message::ExitSignal);
        l += 1;
    }
}

/// Dispatches one drained batch in order: every event goes to exactly the
/// subscribers of its kind, and the first exit signal is broadcast to every
/// loop and ends dispatching for good.  Returns whether shutdown began.
pub fn dispatch_batch<P: Copy>(
    table: &RoutingTable,
    ds: &Vec<LoopDescriptor>,
    mailboxes: &mut Vec<Mailbox<P>>,
    batch: &Vec<Message<P>>,
) -> (shutdown: bool)
    requires
        table.wf(old(mailboxes)@.len() as int),
        table.matches(ds@),
        old(mailboxes)@.len() == ds@.len(),
        kinds_below(batch@, table.n_kinds),
    ensures
        final(mailboxes)@.len() == old(mailboxes)@.len(),
        forall|l: usize|
            l < old(mailboxes)@.len() ==> delivered_to(
                old(mailboxes)@[l as int],
                #[trigger] final(mailboxes)@[l as int],
                routed_prefix(batch@, ds@[l as int].subscribes@),
            ),
        shutdown == has_exit(batch@),
{
    let ghost mbs0 = mailboxes@;
    let mut i: usize = 0;
    let mut halted = false;
    while i < batch.len()
        invariant
            i <= batch@.len(),
            mailboxes@.len() == mbs0.len(),
            mbs0.len() == ds@.len(),
            table.wf(mbs0.len() as int),
            table.matches(ds@),
            kinds_below(batch@, table.n_kinds),
            !halted ==> !has_exit(batch@.take(i as int)),
            !halted ==> forall|l: usize|
                l < mbs0.len() ==> delivered_to(
                    mbs0[l as int],
                    #[trigger] mailboxes@[l as int],
                    routed_prefix(batch@.take(i as int), ds@[l as int].subscribes@),
                ),
            halted ==> has_exit(batch@) && forall|l: usize|
                l < mbs0.len() ==> delivered_to(
                    mbs0[l as int],
                    #[trigger] mailboxes@[l as int],
                    routed_prefix(batch@, ds@[l as int].subscribes@),
                ),
        decreases batch@.len() - i,
    {
        if !halted {
            let ghost pre = batch@.take(i as int);
            let ghost mid = mailboxes@;
            proof {
                assert(batch@.take(i + 1) =~= pre.push(batch@[i as int]));
            }
            match batch[i] {
                Message::Event(e) => {
                    assert(e.kind < table.n_kinds);
                    fan_out(table, mailboxes, e);
                    proof {
                        assert forall|l: usize| l < mbs0.len() implies delivered_to(
                            mbs0[l as int],
                            #[trigger] mailboxes@[l as int],
                            routed_prefix(batch@.take(i + 1), ds@[l as int].subscribes@),
                        ) by {
                            lemma_routed_prefix_push(pre, ds@[l as int].subscribes@, Message::Event(e));
                            assert(routes_to(*table, e.kind, l) == ds@[
                                l as int
                            ].subscribes@.contains(e.kind));
                            assert(delivered_to(
                                mid[l as int],
                                mailboxes@[l as int],
                                if routes_to(*table, e.kind, l) {
                                    seq![Message::Event(e)]
                                } else {
                                    Seq::empty()
                                },
                            ));
                            if mbs0[l as int].consumer_connected {
                                assert(mailboxes@[l as int].queue@ =~= mbs0[l as int].queue@
                                    + routed_prefix(batch@.take(i + 1), ds@[l as int].subscribes@));
                            }
                        }
                        assert(!has_exit(batch@.take(i + 1))) by {
                            if has_exit(batch@.take(i + 1)) {
                                let j = choose|j: int|
                                    0 <= j < batch@.take(i + 1).len() && crate::event::is_exit(
                                        #[trigger] batch@.take(i + 1)[j],
                                    );
                                if j < i {
                                    assert(crate::event::is_exit(pre[j]));
                                } else {
                                    assert(batch@.take(i + 1)[j] == batch@[i as int]);
                                }
                            }
                        }
                    }
                },
                Message::ExitSignal => {
                    broadcast_exit(mailboxes);
                    halted = true;
                    proof {
                        assert(has_exit(batch@.take(i + 1))) by {
                            assert(crate::event::is_exit(batch@.take(i + 1)[i as int]));
                        }
                        assert(has_exit(batch@)) by {
                            assert(crate::event::is_exit(batch@[i as int]));
                        }
                        assert forall|l: usize| l < mbs0.len() implies delivered_to(
                            mbs0[l as int],
                            #[trigger] mailboxes@[l as int],
                            routed_prefix(batch@, ds@[l as int].subscribes@),
                        ) by {
                            lemma_routed_prefix_push(
                                pre,
                                ds@[l as int].subscribes@,
                                Message::ExitSignal,
                            );
                            lemma_routed_prefix_halted(
                                batch@.take(i + 1),
                                batch@.skip(i + 1),
                                ds@[l as int].subscribes@,
                            );
                            assert(batch@.take(i + 1) + batch@.skip(i + 1) =~= batch@);
                            assert(delivered_to(
                                mid[l as int],
                                mailboxes@[l as int],
                                seq![Message::ExitSignal],
                            ));
                            if mbs0[l as int].consumer_connected {
                                assert(mailboxes@[l as int].queue@ =~= mbs0[l as int].queue@
                                    + routed_prefix(batch@, ds@[l as int].subscribes@));
                            }
                        }
                    }
                },
            }
        }
        i += 1;
    }
    proof {
        if !halted {
            assert(batch@.take(batch@.len() as int) =~= batch@);
        }
    }
    halted
}

} // verus!
