//! End-to-end scenarios driving the wired runtime: publish, dispatch, drain.

use pel::config::{LoopDescriptor, LoopKind};
use pel::event::Event;
use pel::looprun::{EventHandlers, MainLoop};
use pel::mailbox::WaitOutcome;
use pel::runtime::{DispatcherStep, Runtime};

const INCREASE: usize = 0;
const RESET: usize = 1;
const N_KINDS: usize = 2;

type Pair = (i64, i64);

const PUBLISHER_INC: usize = 0;
const PUBLISHER_RESET: usize = 1;
const SUBSCRIBER: usize = 2;

struct CounterLoop {
    counter1: i64,
    counter2: i64,
    invocations: usize,
    steps: usize,
}

impl CounterLoop {
    fn new() -> CounterLoop {
        CounterLoop { counter1: 0, counter2: 0, invocations: 0, steps: 0 }
    }
}

impl EventHandlers<Pair> for CounterLoop {
    fn on_event(&mut self, event: &Event<Pair>) {
        self.invocations += 1;
        match event.kind {
            INCREASE => {
                self.counter1 += event.payload.0;
                self.counter2 += event.payload.1;
            }
            RESET => {
                self.counter1 = 0;
                self.counter2 = 0;
            }
            _ => panic!("unsubscribed kind reached a handler"),
        }
    }
}

impl MainLoop for CounterLoop {
    fn main_loop(&mut self) {
        self.steps += 1;
    }
}

fn descriptor(
    name: &str,
    kind: LoopKind,
    publishes: Vec<usize>,
    subscribes: Vec<usize>,
) -> LoopDescriptor {
    let handled = subscribes.clone();
    LoopDescriptor {
        name: String::from(name),
        kind,
        publishes,
        subscribes,
        handled,
        has_step: matches!(kind, LoopKind::Active),
    }
}

/// Two active publishers, one reactive subscriber on both kinds: the
/// configuration of the counter scenarios.
fn counter_runtime() -> Runtime<Pair> {
    let descriptors = vec![
        descriptor("publisher_increase", LoopKind::Active, vec![INCREASE], vec![]),
        descriptor("publisher_reset", LoopKind::Active, vec![RESET], vec![]),
        descriptor("subscriber", LoopKind::Reactive, vec![], vec![INCREASE, RESET]),
    ];
    Runtime::build(N_KINDS, descriptors).unwrap_or_else(|_| panic!("configuration rejected"))
}

fn drive_subscriber(rt: &mut Runtime<Pair>, subscriber: &mut CounterLoop) {
    match rt.loop_wait_outcome(SUBSCRIBER) {
        WaitOutcome::Ready => {
            rt.loop_step_reactive(SUBSCRIBER, subscriber)
                .unwrap_or_else(|_| panic!("routing violation"));
        }
        WaitOutcome::Block => {}
        WaitOutcome::Disconnected => panic!("subscriber disconnected unexpectedly"),
    }
}

#[test]
fn test_event_propagation() {
    let mut rt = counter_runtime();
    let mut subscriber = CounterLoop::new();

    assert_eq!(subscriber.counter1, 0);
    assert_eq!(subscriber.counter2, 0);

    // Increase the counter values: the publisher sends an event which is
    // taken into account by the subscriber.
    rt.publish(PUBLISHER_INC, Event::new(INCREASE, (1, 2)));
    assert!(matches!(rt.dispatch_step(), DispatcherStep::Dispatched));
    drive_subscriber(&mut rt, &mut subscriber);
    assert_eq!(subscriber.counter1, 1);
    assert_eq!(subscriber.counter2, 2);

    // Increase again.
    rt.publish(PUBLISHER_INC, Event::new(INCREASE, (1, 2)));
    assert!(matches!(rt.dispatch_step(), DispatcherStep::Dispatched));
    drive_subscriber(&mut rt, &mut subscriber);
    assert_eq!(subscriber.counter1, 2);
    assert_eq!(subscriber.counter2, 4);

    // Reset.
    rt.publish(PUBLISHER_RESET, Event::new(RESET, (0, 0)));
    assert!(matches!(rt.dispatch_step(), DispatcherStep::Dispatched));
    drive_subscriber(&mut rt, &mut subscriber);
    assert_eq!(subscriber.counter1, 0);
    assert_eq!(subscriber.counter2, 0);
}

#[test]
fn single_increase_moves_counters() {
    let mut rt = counter_runtime();
    let mut subscriber = CounterLoop::new();
    rt.publish(PUBLISHER_INC, Event::new(INCREASE, (1, 2)));
    assert!(matches!(rt.dispatch_step(), DispatcherStep::Dispatched));
    drive_subscriber(&mut rt, &mut subscriber);
    assert_eq!((subscriber.counter1, subscriber.counter2), (1, 2));
    assert_eq!(subscriber.invocations, 1);
}

#[test]
fn twenty_interleaved_events_all_arrive_once() {
    let mut rt = counter_runtime();
    let mut subscriber = CounterLoop::new();
    // Two publishers interleave ten publishes each; the dispatcher's
    // inbound queue serializes them into one total order.
    for _ in 0..10 {
        rt.publish(PUBLISHER_INC, Event::new(INCREASE, (1, 0)));
        rt.publish(PUBLISHER_RESET, Event::new(RESET, (0, 0)));
    }
    assert!(matches!(rt.dispatch_step(), DispatcherStep::Dispatched));
    drive_subscriber(&mut rt, &mut subscriber);
    assert_eq!(subscriber.invocations, 20);
    // The last arrival in the serialized order is the reset.
    assert_eq!((subscriber.counter1, subscriber.counter2), (0, 0));
}

#[test]
fn per_subscriber_order_is_publication_order() {
    let mut rt = counter_runtime();
    let mut subscriber = CounterLoop::new();
    // Counters only move like this if increase-then-reset-then-increase
    // arrives in exactly that order.
    rt.publish(PUBLISHER_INC, Event::new(INCREASE, (5, 5)));
    rt.publish(PUBLISHER_RESET, Event::new(RESET, (0, 0)));
    rt.publish(PUBLISHER_INC, Event::new(INCREASE, (3, 4)));
    assert!(matches!(rt.dispatch_step(), DispatcherStep::Dispatched));
    drive_subscriber(&mut rt, &mut subscriber);
    assert_eq!(subscriber.invocations, 3);
    assert_eq!((subscriber.counter1, subscriber.counter2), (3, 4));
}

#[test]
fn no_cross_delivery_by_table_and_at_runtime() {
    let descriptors = vec![
        descriptor("publisher", LoopKind::Active, vec![INCREASE, RESET], vec![]),
        descriptor("only_increase", LoopKind::Reactive, vec![], vec![INCREASE]),
    ];
    let mut rt: Runtime<Pair> = Runtime::build(N_KINDS, descriptors).unwrap_or_else(|_| {
        panic!("configuration rejected")
    });
    // Exhaustive routing-table inspection: RESET is routed to nobody,
    // INCREASE only to the subscribing loop.
    assert_eq!(rt.table.subscribers.len(), N_KINDS);
    assert_eq!(rt.table.subscribers[INCREASE], vec![1]);
    assert!(rt.table.subscribers[RESET].is_empty());
    // Runtime check: after a RESET publish nothing reaches the loop.
    rt.publish(0, Event::new(RESET, (0, 0)));
    assert!(matches!(rt.dispatch_step(), DispatcherStep::Dispatched));
    assert!(matches!(rt.loop_wait_outcome(1), WaitOutcome::Block));
    let mut subscriber = CounterLoop::new();
    let handled = rt.loop_step_reactive(1, &mut subscriber).unwrap_or_else(|_| {
        panic!("routing violation")
    });
    assert!(handled.is_empty());
    assert_eq!(subscriber.invocations, 0);
}

#[test]
fn active_loop_drains_without_blocking_and_steps() {
    let mut rt = counter_runtime();
    let mut active = CounterLoop::new();
    // An active loop's iteration returns even with an empty mailbox and
    // still runs its step function.
    let handled = rt.loop_step_active(PUBLISHER_INC, &mut active).unwrap_or_else(|_| {
        panic!("routing violation")
    });
    assert!(handled.is_empty());
    assert_eq!(active.steps, 1);
    assert_eq!(active.invocations, 0);
}

#[test]
fn active_subscriber_handles_then_steps() {
    let descriptors = vec![
        descriptor("publisher", LoopKind::Active, vec![INCREASE], vec![]),
        descriptor("worker", LoopKind::Active, vec![], vec![INCREASE]),
    ];
    let mut rt: Runtime<Pair> = Runtime::build(N_KINDS, descriptors).unwrap_or_else(|_| {
        panic!("configuration rejected")
    });
    let mut worker = CounterLoop::new();
    rt.publish(0, Event::new(INCREASE, (4, 6)));
    assert!(matches!(rt.dispatch_step(), DispatcherStep::Dispatched));
    let handled = rt.loop_step_active(1, &mut worker).unwrap_or_else(|_| {
        panic!("routing violation")
    });
    assert_eq!(handled.len(), 1);
    assert_eq!((worker.counter1, worker.counter2), (4, 6));
    assert_eq!(worker.invocations, 1);
    assert_eq!(worker.steps, 1);
}

#[test]
fn active_drain_empties_any_backlog_in_one_pass() {
    let mut rt = counter_runtime();
    let mut subscriber = CounterLoop::new();
    for _ in 0..100 {
        rt.publish(PUBLISHER_INC, Event::new(INCREASE, (1, 1)));
    }
    assert!(matches!(rt.dispatch_step(), DispatcherStep::Dispatched));
    // One non-blocking pass hands over the whole backlog, however large.
    let handled = rt.loop_step_reactive(SUBSCRIBER, &mut subscriber).unwrap_or_else(|_| {
        panic!("routing violation")
    });
    assert_eq!(handled.len(), 100);
    assert_eq!(subscriber.invocations, 100);
    assert!(matches!(rt.loop_wait_outcome(SUBSCRIBER), WaitOutcome::Block));
}

#[test]
fn reactive_loop_blocks_until_send() {
    let mut rt = counter_runtime();
    // Empty mailbox: the thread would park, invoking nothing.
    assert!(matches!(rt.loop_wait_outcome(SUBSCRIBER), WaitOutcome::Block));
    // One send and one dispatch later it is runnable.
    rt.publish(PUBLISHER_INC, Event::new(INCREASE, (1, 2)));
    assert!(matches!(rt.dispatch_step(), DispatcherStep::Dispatched));
    assert!(matches!(rt.loop_wait_outcome(SUBSCRIBER), WaitOutcome::Ready));
}

#[test]
fn exit_stops_dispatch_and_handlers() {
    let mut rt = counter_runtime();
    let mut subscriber = CounterLoop::new();
    rt.publish(PUBLISHER_INC, Event::new(INCREASE, (1, 2)));
    rt.request_exit();
    // Published behind the exit signal: must never be handled.
    rt.publish(PUBLISHER_INC, Event::new(INCREASE, (10, 10)));
    assert!(matches!(rt.dispatch_step(), DispatcherStep::ShutDown));
    drive_subscriber(&mut rt, &mut subscriber);
    assert_eq!((subscriber.counter1, subscriber.counter2), (1, 2));
    assert!(rt.loop_stopped(SUBSCRIBER));
    // Shutdown is idempotent: dispatching is over for good, and a stopped
    // loop handles nothing even if something were queued.
    assert!(matches!(rt.dispatch_step(), DispatcherStep::ShutDown));
    let handled = rt.loop_step_reactive(SUBSCRIBER, &mut subscriber).unwrap_or_else(|_| {
        panic!("routing violation")
    });
    assert!(handled.is_empty());
    assert_eq!(subscriber.invocations, 1);
}

#[test]
fn empty_configuration_builds_and_idles() {
    let rt: Result<Runtime<Pair>, _> = Runtime::build(0, vec![]);
    let mut rt = rt.unwrap_or_else(|_| panic!("an empty configuration is acceptable"));
    assert!(matches!(rt.dispatch_step(), DispatcherStep::WouldBlock));
    // Shutdown still works with nobody to tell.
    rt.request_exit();
    assert!(matches!(rt.dispatch_step(), DispatcherStep::ShutDown));
    assert!(matches!(rt.dispatch_step(), DispatcherStep::ShutDown));
}

#[test]
fn dispatcher_reports_inbound_disconnect() {
    let mut rt = counter_runtime();
    rt.inbound.disconnect_producers();
    assert!(matches!(rt.dispatch_step(), DispatcherStep::Disconnected));
}

#[test]
fn publish_after_dispatcher_retired_is_dropped() {
    let mut rt = counter_runtime();
    rt.retire_dispatcher();
    rt.publish(PUBLISHER_INC, Event::new(INCREASE, (1, 2)));
    assert_eq!(rt.inbound.len(), 0);
    // Sleeping loops wake to the terminal answer instead of waiting forever.
    assert!(matches!(rt.loop_wait_outcome(SUBSCRIBER), WaitOutcome::Disconnected));
}

#[test]
fn delivery_to_retired_loop_is_dropped() {
    let mut rt = counter_runtime();
    rt.retire_loop(SUBSCRIBER);
    rt.publish(PUBLISHER_INC, Event::new(INCREASE, (1, 2)));
    assert!(matches!(rt.dispatch_step(), DispatcherStep::Dispatched));
    assert_eq!(rt.loop_mailboxes[SUBSCRIBER].len(), 0);
}
