//! The runtime: building the wired system and stepping its threads' bodies.
//!
//! [`Runtime::build`] validates the configuration, builds the routing table
//! and allocates one mailbox per loop plus the dispatcher's inbound mailbox.
//! The hosting layer then gives each loop a thread and drives one method per
//! thread body iteration: [`Runtime::dispatch_step`] for the dispatcher and
//! [`Runtime::loop_step_active`] / [`Runtime::loop_step_reactive`] for the
//! loops, blocking between iterations as the returned outcomes direct.
//!
//! The well-formedness invariant [`Runtime::wf`] ties the pieces together;
//! it is what makes the routing-violation branch of the loops unreachable:
//! a well-formed runtime never hands a loop a kind it did not subscribe to.

use vstd::prelude::*;

use crate::config::{
    config_valid, copy_kind_list, error_is_genuine, validate_config, ConfigError, LoopDescriptor,
};
use crate::dispatch::{
    delivered_to, dispatch_batch, lemma_routed_prefix_subscribed, routed_prefix,
};
use crate::event::{all_subscribed, has_exit, kinds_below, Event, Message};
use crate::looprun::{
    drain_contract, lemma_all_subscribed_prefix_ok, run_active_cycle, process_events_reactive,
    EventHandlers, LoopCore, MainLoop, RoutingViolation,
};
use crate::mailbox::{Mailbox, WaitOutcome};
use crate::routing::RoutingTable;
use vstd::pervasive::VecAdditionalExecFns;

verus! {

/// What one dispatcher iteration did, and what its thread should do next.
pub enum DispatcherStep {
    /// A batch was dispatched; come straight back for more.
    Dispatched,
    /// Nothing was queued: park until a publish signals the inbound mailbox.
    WouldBlock,
    /// The exit signal was seen (now or earlier): dispatching is over for
    /// good and every loop has been signalled.
    ShutDown,
    /// Every publisher vanished without an exit signal: an unexpected
    /// terminal condition — stop with a failure rather than spin.
    Disconnected,
}

/// The whole wired system: the static tables, the dispatcher's inbound
/// mailbox, and one mailbox and scheduling core per loop.
pub struct Runtime<P> {
    /// How many event kinds the configuration declares.
    pub n_kinds: usize,
    /// One descriptor per loop, fixed at build time.
    pub descriptors: Vec<LoopDescriptor>,
    /// Event kind to subscriber loops, derived from the descriptors.
    pub table: RoutingTable,
    /// Where every publish lands; the dispatcher is its sole consumer.
    pub inbound: Mailbox<P>,
    /// One inbound mailbox per loop; the dispatcher is their sole producer.
    pub loop_mailboxes: Vec<Mailbox<P>>,
    /// One scheduling core per loop, owned by that loop's thread.
    pub cores: Vec<LoopCore>,
    /// Set once the dispatcher has observed the exit signal.
    pub dispatcher_stopped: bool,
}

impl<P: Copy> Runtime<P> {
    /// The invariant every runtime operation preserves: the table mirrors
    /// the descriptors, every piece is sized to the loop count, each core
    /// knows its own index and subscriptions, only declared kinds are in
    /// flight, and no loop mailbox holds a kind its loop did not subscribe
    /// to.
    pub open spec fn wf(self) -> bool {
        &&& config_valid(self.n_kinds, self.descriptors@)
        &&& self.table.n_kinds == self.n_kinds
        &&& self.table.wf(self.descriptors@.len() as int)
        &&& self.table.matches(self.descriptors@)
        &&& self.loop_mailboxes@.len() == self.descriptors@.len()
        &&& self.cores@.len() == self.descriptors@.len()
        &&& forall|l: int|
            0 <= l < self.cores@.len() ==> (#[trigger] self.cores@[l]).index == l
                && self.cores@[l].subscribes@ == self.descriptors@[l].subscribes@
        &&& kinds_below(self.inbound.queue@, self.n_kinds)
        &&& forall|l: int|
            0 <= l < self.loop_mailboxes@.len() ==> all_subscribed(
                (#[trigger] self.loop_mailboxes@[l]).queue@,
                self.descriptors@[l].subscribes@,
            )
    }

    /// Whether the runtime is freshly built: nothing queued, nothing
    /// stopped, everything connected.
    pub open spec fn pristine(self) -> bool {
        &&& self.inbound.queue@ == Seq::<Message<P>>::empty()
        &&& self.inbound.producers_connected
        &&& self.inbound.consumer_connected
        &&& !self.dispatcher_stopped
        &&& forall|l: int|
            0 <= l < self.loop_mailboxes@.len() ==> {
                let mb = #[trigger] self.loop_mailboxes@[l];
                mb.queue@ == Seq::<Message<P>>::empty() && mb.producers_connected
                    && mb.consumer_connected
            }
        &&& forall|l: int| 0 <= l < self.cores@.len() ==> !(#[trigger] self.cores@[l]).stopped
    }

    /// Validates the configuration and, when it is acceptable, wires the
    /// whole system: routing table, dispatcher inbound, one mailbox and one
    /// core per loop — built, not yet started.
    pub fn build(n_kinds: usize, descriptors: Vec<LoopDescriptor>) -> (r: Result<
        Runtime<P>,
        ConfigError,
    >)
        ensures
            r is Ok <==> config_valid(n_kinds, descriptors@),
            r matches Ok(rt) ==> {
                &&& rt.wf()
                &&& rt.pristine()
                &&& rt.n_kinds == n_kinds
                &&& rt.descriptors@ == descriptors@
            },
            r matches Err(e) ==> error_is_genuine(n_kinds, descriptors@, e),
    {
        match validate_config(n_kinds, &descriptors) {
            Ok(()) => {},
            Err(e) => {
                return Err(e);
            },
        }
        let table = RoutingTable::build(n_kinds, &descriptors);
        let mut loop_mailboxes: Vec<Mailbox<P>> = Vec::new();
        let mut cores: Vec<LoopCore> = Vec::new();
        let mut l: usize = 0;
        while l < descriptors.len()
            invariant
                l <= descriptors@.len(),
                loop_mailboxes@.len() == l,
                cores@.len() == l,
                forall|j: int|
                    0 <= j < l ==> {
                        let mb = #[trigger] loop_mailboxes@[j];
                        mb.queue@ == Seq::<Message<P>>::empty() && mb.producers_connected
                            && mb.consumer_connected
                    },
                forall|j: int|
                    0 <= j < l ==> (#[trigger] cores@[j]).index == j && cores@[j].subscribes@
                        == descriptors@[j].subscribes@ && !cores@[j].stopped,
            decreases descriptors@.len() - l,
        {
            loop_mailboxes.push(Mailbox::new());
            cores.push(
                LoopCore {
                    index: l,
                    subscribes: copy_kind_list(&descriptors[l].subscribes),
                    stopped: false,
                },
            );
            l += 1;
        }
        let rt = Runtime {
            n_kinds,
            descriptors,
            table,
            inbound: Mailbox::new(),
            loop_mailboxes,
            cores,
            dispatcher_stopped: false,
        };
        Ok(rt)
    }

    /// Everything but the dispatcher's inbound mailbox is as it was.
    pub open spec fn frame_but_inbound(self, post: Runtime<P>) -> bool {
        &&& post.n_kinds == self.n_kinds
        &&& post.descriptors@ == self.descriptors@
        &&& post.table == self.table
        &&& post.loop_mailboxes@ == self.loop_mailboxes@
        &&& post.cores@ == self.cores@
        &&& post.dispatcher_stopped == self.dispatcher_stopped
    }

    /// Publishes one event on behalf of loop `origin`: it lands at the tail
    /// of the dispatcher's inbound mailbox, behind everything published
    /// before it, system-wide.  Never blocks; if the dispatcher is gone the
    /// event is dropped, as a vanished consumer shut down deliberately.
    /// Only kinds the origin loop declared may be published; the reserved
    /// exit signal cannot be published this way at all.
    pub fn publish(&mut self, origin: usize, e: Event<P>)
        requires
            old(self).wf(),
            origin < old(self).descriptors@.len(),
            old(self).descriptors@[origin as int].publishes@.contains(e.kind),
        ensures
            final(self).wf(),
            old(self).frame_but_inbound(*final(self)),
            delivered_to(old(self).inbound, final(self).inbound, seq![Message::Event(e)]),
    {
        proof {
            let ds = self.descriptors@;
            let i = choose|i: int|
                0 <= i < ds[origin as int].publishes@.len() && (#[trigger] ds[
                    origin as int
                ].publishes@[i]) == e.kind;
            assert(e.kind < self.n_kinds);
        }
        self.inbound.send(Message::Event(e));
        proof {
            if old(self).inbound.consumer_connected {
                assert(self.inbound.queue@ =~= old(self).inbound.queue@ + seq![
                    Message::<P>::Event(e),
                ]);
            }
        }
    }

    /// Requests global shutdown: the reserved exit signal joins the inbound
    /// queue behind everything already published; once the dispatcher meets
    /// it, every loop is signalled and dispatching ends for good.
    pub fn request_exit(&mut self)
        requires
            old(self).wf(),
        ensures
            final(self).wf(),
            old(self).frame_but_inbound(*final(self)),
            delivered_to(old(self).inbound, final(self).inbound, seq![Message::ExitSignal]),
    {
        self.inbound.send(Message::ExitSignal);
        proof {
            if old(self).inbound.consumer_connected {
                assert(self.inbound.queue@ =~= old(self).inbound.queue@ + seq![
                    Message::<P>::ExitSignal,
                ]);
            }
        }
    }

    /// One iteration of the dispatcher's thread body.  Drains the inbound
    /// mailbox and fans each event out to the subscribers of its kind, in
    /// order; the first exit signal is broadcast to every loop and stops
    /// the dispatcher for good — once stopped, nothing is ever dispatched
    /// again.  Never blocks: an empty inbound queue answers `WouldBlock`
    /// and the host parks the thread on the mailbox's signal.
    pub fn dispatch_step(&mut self) -> (r: DispatcherStep)
        requires
            old(self).wf(),
        ensures
            final(self).wf(),
            final(self).n_kinds == old(self).n_kinds,
            final(self).descriptors@ == old(self).descriptors@,
            final(self).table == old(self).table,
            final(self).cores@ == old(self).cores@,
            final(self).inbound.producers_connected == old(self).inbound.producers_connected,
            final(self).inbound.consumer_connected == old(self).inbound.consumer_connected,
            old(self).dispatcher_stopped ==> {
                &&& r is ShutDown
                &&& *final(self) == *old(self)
            },
            !old(self).dispatcher_stopped && old(self).inbound.queue@.len() == 0 ==> {
                &&& *final(self) == *old(self)
                &&& (r is WouldBlock <==> old(self).inbound.producers_connected)
                &&& (r is Disconnected <==> !old(self).inbound.producers_connected)
            },
            !old(self).dispatcher_stopped && old(self).inbound.queue@.len() > 0 ==> {
                &&& final(self).inbound.queue@ == Seq::<Message<P>>::empty()
                &&& final(self).loop_mailboxes@.len() == old(self).loop_mailboxes@.len()
                &&& forall|l: usize|
                    l < old(self).loop_mailboxes@.len() ==> delivered_to(
                        old(self).loop_mailboxes@[l as int],
                        #[trigger] final(self).loop_mailboxes@[l as int],
                        routed_prefix(
                            old(self).inbound.queue@,
                            old(self).descriptors@[l as int].subscribes@,
                        ),
                    )
                &&& final(self).dispatcher_stopped == has_exit(old(self).inbound.queue@)
                &&& (r is ShutDown <==> has_exit(old(self).inbound.queue@))
                &&& (r is Dispatched <==> !has_exit(old(self).inbound.queue@))
            },
    {
        if self.dispatcher_stopped {
            return DispatcherStep::ShutDown;
        }
        match self.inbound.wait_outcome() {
            WaitOutcome::Block => DispatcherStep::WouldBlock,
            WaitOutcome::Disconnected => DispatcherStep::Disconnected,
            WaitOutcome::Ready => {
                let batch = self.inbound.drain();
                let shutdown = dispatch_batch(
                    &self.table,
                    &self.descriptors,
                    &mut self.loop_mailboxes,
                    &batch,
                );
                if shutdown {
                    self.dispatcher_stopped = true;
                }
                let loop_count = self.loop_mailboxes.len();
                proof {
                    assert(self.loop_mailboxes@.len() == loop_count);
                    assert forall|l: int|
                        0 <= l < self.loop_mailboxes@.len() implies all_subscribed(
                        (#[trigger] self.loop_mailboxes@[l]).queue@,
                        self.descriptors@[l].subscribes@,
                    ) by {
                        // Every index fits a usize, so the fan-out contract,
                        // stated over usize indices, applies to it.
                        let lu = l as usize;
                        assert(lu as int == l);
                        let subs = self.descriptors@[l].subscribes@;
                        let ext = routed_prefix(batch@, subs);
                        lemma_routed_prefix_subscribed(batch@, subs);
                        let q0 = old(self).loop_mailboxes@[l].queue@;
                        let q1 = self.loop_mailboxes@[l].queue@;
                        assert(delivered_to(
                            old(self).loop_mailboxes@[lu as int],
                            self.loop_mailboxes@[lu as int],
                            routed_prefix(batch@, self.descriptors@[lu as int].subscribes@),
                        ));
                        if old(self).loop_mailboxes@[l].consumer_connected {
                            assert(q1 == q0 + ext);
                            assert forall|i: int|
                                0 <= i < q1.len() implies ((#[trigger] q1[i]) matches Message::Event(
                                e,
                            ) ==> subs.contains(e.kind)) by {
                                if i < q0.len() {
                                    assert(q1[i] == q0[i]);
                                } else {
                                    assert(q1[i] == ext[i - q0.len()]);
                                }
                            }
                        }
                    }
                }
                if shutdown {
                    DispatcherStep::ShutDown
                } else {
                    DispatcherStep::Dispatched
                }
            },
        }
    }

    /// Everything outside loop `l`'s mailbox and core is as it was.
    pub open spec fn frame_but_loop(self, post: Runtime<P>, l: usize) -> bool {
        &&& post.n_kinds == self.n_kinds
        &&& post.descriptors@ == self.descriptors@
        &&& post.table == self.table
        &&& post.inbound == self.inbound
        &&& post.dispatcher_stopped == self.dispatcher_stopped
        &&& post.loop_mailboxes@.len() == self.loop_mailboxes@.len()
        &&& post.cores@.len() == self.cores@.len()
        &&& forall|j: int|
            0 <= j < self.loop_mailboxes@.len() && j != l ==> #[trigger] post.loop_mailboxes@[j]
                == self.loop_mailboxes@[j]
        &&& forall|j: int|
            0 <= j < self.cores@.len() && j != l ==> #[trigger] post.cores@[j] == self.cores@[j]
    }

    /// One iteration of an active loop's thread body: drain and handle
    /// without blocking, then run the step function once.  In a well-formed
    /// runtime this cannot fault — no foreign kind ever reaches the loop —
    /// and it returns the handled events in order.
    pub fn loop_step_active<H: EventHandlers<P> + MainLoop>(&mut self, l: usize, h: &mut H) -> (r:
        Result<Vec<Event<P>>, RoutingViolation>)
        requires
            old(self).wf(),
            l < old(self).cores@.len(),
        ensures
            final(self).wf(),
            old(self).frame_but_loop(*final(self), l),
            drain_contract(
                old(self).cores@[l as int],
                final(self).cores@[l as int],
                old(self).loop_mailboxes@[l as int],
                final(self).loop_mailboxes@[l as int],
                r,
            ),
            r is Ok,
    {
        proof {
            lemma_all_subscribed_prefix_ok(
                self.loop_mailboxes@[l as int].queue@,
                self.descriptors@[l as int].subscribes@,
            );
        }
        let mut core_slot = LoopCore { index: 0, subscribes: Vec::new(), stopped: true };
        let mut mb_slot: Mailbox<P> = Mailbox::new();
        self.cores.set_and_swap(l, &mut core_slot);
        self.loop_mailboxes.set_and_swap(l, &mut mb_slot);
        let r = run_active_cycle(&mut core_slot, &mut mb_slot, h);
        self.cores.set_and_swap(l, &mut core_slot);
        self.loop_mailboxes.set_and_swap(l, &mut mb_slot);
        r
    }

    /// One post-wake iteration of a reactive loop's thread body: drain in
    /// one take and handle everything drained.  The hosting thread blocks
    /// on [`Runtime::loop_wait_outcome`] first, so an empty mailbox never
    /// spins here.  In a well-formed runtime this cannot fault.
    pub fn loop_step_reactive<H: EventHandlers<P>>(&mut self, l: usize, h: &mut H) -> (r: Result<
        Vec<Event<P>>,
        RoutingViolation,
    >)
        requires
            old(self).wf(),
            l < old(self).cores@.len(),
        ensures
            final(self).wf(),
            old(self).frame_but_loop(*final(self), l),
            drain_contract(
                old(self).cores@[l as int],
                final(self).cores@[l as int],
                old(self).loop_mailboxes@[l as int],
                final(self).loop_mailboxes@[l as int],
                r,
            ),
            r is Ok,
    {
        proof {
            lemma_all_subscribed_prefix_ok(
                self.loop_mailboxes@[l as int].queue@,
                self.descriptors@[l as int].subscribes@,
            );
        }
        let mut core_slot = LoopCore { index: 0, subscribes: Vec::new(), stopped: true };
        let mut mb_slot: Mailbox<P> = Mailbox::new();
        self.cores.set_and_swap(l, &mut core_slot);
        self.loop_mailboxes.set_and_swap(l, &mut mb_slot);
        let r = process_events_reactive(&mut core_slot, &mut mb_slot, h);
        self.cores.set_and_swap(l, &mut core_slot);
        self.loop_mailboxes.set_and_swap(l, &mut mb_slot);
        r
    }

    /// The blocking decision for a reactive loop's thread: drain now, wind
    /// down, or park until the dispatcher's next send.
    pub fn loop_wait_outcome(&self, l: usize) -> (r: WaitOutcome)
        requires
            l < self.loop_mailboxes@.len(),
        ensures
            self.loop_mailboxes@[l as int].queue@.len() > 0 ==> r is Ready,
            self.loop_mailboxes@[l as int].queue@.len() == 0 && !self.loop_mailboxes@[
                l as int
            ].producers_connected ==> r is Disconnected,
            self.loop_mailboxes@[l as int].queue@.len() == 0 && self.loop_mailboxes@[
                l as int
            ].producers_connected ==> r is Block,
    {
        self.loop_mailboxes[l].wait_outcome()
    }

    /// Whether loop `l` has observed the exit signal; its thread exits its
    /// scheduling loop once this holds.
    pub fn loop_stopped(&self, l: usize) -> (r: bool)
        requires
            l < self.cores@.len(),
        ensures
            r == self.cores@[l as int].stopped,
    {
        self.cores[l].stopped
    }

    /// Records that loop `l`'s thread has terminated: later deliveries to
    /// it are dropped silently rather than queued for nobody.
    pub fn retire_loop(&mut self, l: usize)
        requires
            old(self).wf(),
            l < old(self).loop_mailboxes@.len(),
        ensures
            final(self).wf(),
            old(self).frame_but_loop(*final(self), l),
            final(self).cores@ == old(self).cores@,
            final(self).loop_mailboxes@[l as int].queue@ == old(self).loop_mailboxes@[
                l as int
            ].queue@,
            final(self).loop_mailboxes@[l as int].producers_connected == old(
                self,
            ).loop_mailboxes@[l as int].producers_connected,
            !final(self).loop_mailboxes@[l as int].consumer_connected,
    {
        let mut mb_slot: Mailbox<P> = Mailbox::new();
        self.loop_mailboxes.set_and_swap(l, &mut mb_slot);
        mb_slot.disconnect_consumer();
        self.loop_mailboxes.set_and_swap(l, &mut mb_slot);
    }

    /// Records that the dispatcher's thread has terminated: every loop's
    /// producer side is gone, so sleeping loops wake to `Disconnected` and
    /// wind down instead of waiting forever, and the inbound consumer side
    /// is gone, so later publishes are dropped.
    #[verifier::loop_isolation(false)]
    pub fn retire_dispatcher(&mut self)
        requires
            old(self).wf(),
        ensures
            final(self).wf(),
            final(self).n_kinds == old(self).n_kinds,
            final(self).descriptors@ == old(self).descriptors@,
            final(self).table == old(self).table,
            final(self).cores@ == old(self).cores@,
            final(self).dispatcher_stopped == old(self).dispatcher_stopped,
            final(self).inbound.queue@ == old(self).inbound.queue@,
            final(self).inbound.producers_connected == old(self).inbound.producers_connected,
            !final(self).inbound.consumer_connected,
            final(self).loop_mailboxes@.len() == old(self).loop_mailboxes@.len(),
            forall|l: int|
                0 <= l < old(self).loop_mailboxes@.len() ==> {
                    let mb0 = old(self).loop_mailboxes@[l];
                    let mb1 = #[trigger] final(self).loop_mailboxes@[l];
                    mb1.queue@ == mb0.queue@ && !mb1.producers_connected && mb1.consumer_connected
                        == mb0.consumer_connected
                },
    {
        self.inbound.disconnect_consumer();
        let ghost mid_inbound = self.inbound;
        let ghost mbs0 = self.loop_mailboxes@;
        let mut l: usize = 0;
        while l < self.loop_mailboxes.len()
            invariant
                l <= mbs0.len(),
                self.n_kinds == old(self).n_kinds,
                self.descriptors@ == old(self).descriptors@,
                self.table == old(self).table,
                self.cores@ == old(self).cores@,
                self.dispatcher_stopped == old(self).dispatcher_stopped,
                self.inbound == mid_inbound,
                self.loop_mailboxes@.len() == mbs0.len(),
                forall|j: int|
                    0 <= j < l ==> {
                        let mb0 = mbs0[j];
                        let mb1 = #[trigger] self.loop_mailboxes@[j];
                        mb1.queue@ == mb0.queue@ && !mb1.producers_connected
                            && mb1.consumer_connected == mb0.consumer_connected
                    },
                forall|j: int|
                    l <= j < mbs0.len() ==> #[trigger] self.loop_mailboxes@[j] == mbs0[j],
            decreases mbs0.len() - l,
        {
            let mut mb_slot: Mailbox<P> = Mailbox::new();
            self.loop_mailboxes.set_and_swap(l, &mut mb_slot);
            mb_slot.disconnect_producers();
            self.loop_mailboxes.set_and_swap(l, &mut mb_slot);
            l += 1;
        }
    }
}

} // verus!
