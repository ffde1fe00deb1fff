//! The mailbox primitive on its own: FIFO order, polling, disconnection.

use pel::event::{Event, Message};
use pel::mailbox::{Mailbox, PollOutcome, WaitOutcome};

type Pair = (i64, i64);

fn event(kind: usize, a: i64, b: i64) -> Message<Pair> {
    Message::Event(Event::new(kind, (a, b)))
}

fn kind_of(m: &Message<Pair>) -> usize {
    match m {
        Message::Event(e) => e.kind,
        Message::ExitSignal => panic!("unexpected exit signal"),
    }
}

#[test]
fn mailbox_is_fifo() {
    let mut mb: Mailbox<Pair> = Mailbox::new();
    mb.send(event(0, 1, 1));
    mb.send(event(1, 2, 2));
    mb.send(event(2, 3, 3));
    match mb.try_receive() {
        PollOutcome::Received(m) => assert_eq!(kind_of(&m), 0),
        _ => panic!("expected the oldest message"),
    }
    match mb.try_receive() {
        PollOutcome::Received(m) => assert_eq!(kind_of(&m), 1),
        _ => panic!("expected the second message"),
    }
    match mb.try_receive() {
        PollOutcome::Received(m) => assert_eq!(kind_of(&m), 2),
        _ => panic!("expected the third message"),
    }
    assert!(matches!(mb.try_receive(), PollOutcome::Empty));
}

#[test]
fn drain_returns_everything_in_order() {
    let mut mb: Mailbox<Pair> = Mailbox::new();
    for k in 0..5 {
        mb.send(event(k, k as i64, 0));
    }
    let drained = mb.drain();
    assert_eq!(drained.len(), 5);
    for (k, m) in drained.iter().enumerate() {
        assert_eq!(kind_of(m), k);
    }
    assert!(mb.is_empty());
}

#[test]
fn empty_mailbox_reports_empty_not_disconnected() {
    let mut mb: Mailbox<Pair> = Mailbox::new();
    assert!(matches!(mb.try_receive(), PollOutcome::Empty));
    assert!(matches!(mb.wait_outcome(), WaitOutcome::Block));
}

#[test]
fn producer_disconnect_is_terminal_only_when_empty() {
    let mut mb: Mailbox<Pair> = Mailbox::new();
    mb.send(event(0, 1, 1));
    mb.disconnect_producers();
    // The queued message still comes out first.
    assert!(matches!(mb.try_receive(), PollOutcome::Received(_)));
    assert!(matches!(mb.try_receive(), PollOutcome::Disconnected));
    assert!(matches!(mb.wait_outcome(), WaitOutcome::Disconnected));
}

#[test]
fn send_to_gone_consumer_is_a_no_op() {
    let mut mb: Mailbox<Pair> = Mailbox::new();
    mb.disconnect_consumer();
    mb.send(event(0, 1, 1));
    assert_eq!(mb.len(), 0);
}

#[test]
fn wait_outcome_ready_when_queued() {
    let mut mb: Mailbox<Pair> = Mailbox::new();
    mb.send(Message::ExitSignal);
    assert!(matches!(mb.wait_outcome(), WaitOutcome::Ready));
}
