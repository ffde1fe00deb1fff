//! The loop-side drain on its own: screening, violations, exit handling.

use pel::event::{Event, Message};
use pel::looprun::{process_events_active, process_events_reactive, EventHandlers, LoopCore};
use pel::mailbox::Mailbox;

type Pair = (i64, i64);

struct Recorder {
    kinds: Vec<usize>,
}

impl EventHandlers<Pair> for Recorder {
    fn on_event(&mut self, event: &Event<Pair>) {
        self.kinds.push(event.kind);
    }
}

fn core_subscribed_to(kinds: Vec<usize>) -> LoopCore {
    LoopCore { index: 3, subscribes: kinds, stopped: false }
}

#[test]
fn unsubscribed_kind_is_a_fatal_violation() {
    let mut core = core_subscribed_to(vec![0]);
    let mut mb: Mailbox<Pair> = Mailbox::new();
    mb.send(Message::Event(Event::new(0, (1, 1))));
    mb.send(Message::Event(Event::new(5, (1, 1))));
    let mut handler = Recorder { kinds: vec![] };
    let r = process_events_reactive(&mut core, &mut mb, &mut handler);
    match r {
        Err(v) => {
            assert_eq!(v.loop_index, 3);
            assert_eq!(v.kind, 5);
        }
        Ok(_) => panic!("a foreign kind must be reported"),
    }
    // The batch was discarded whole: nothing was handled.
    assert!(handler.kinds.is_empty());
}

#[test]
fn active_drain_stops_at_exit_and_discards_the_rest() {
    let mut core = core_subscribed_to(vec![0, 1]);
    let mut mb: Mailbox<Pair> = Mailbox::new();
    mb.send(Message::Event(Event::new(0, (1, 1))));
    mb.send(Message::Event(Event::new(1, (2, 2))));
    mb.send(Message::ExitSignal);
    mb.send(Message::Event(Event::new(0, (9, 9))));
    let mut handler = Recorder { kinds: vec![] };
    let handled = process_events_active(&mut core, &mut mb, &mut handler)
        .unwrap_or_else(|_| panic!("routing violation"));
    assert_eq!(handled.len(), 2);
    assert_eq!(handler.kinds, vec![0, 1]);
    assert!(core.stopped);
    assert!(mb.is_empty());
    // Stopped for good: a later pass handles nothing.
    mb.send(Message::Event(Event::new(0, (1, 1))));
    let again = process_events_active(&mut core, &mut mb, &mut handler)
        .unwrap_or_else(|_| panic!("routing violation"));
    assert!(again.is_empty());
    assert_eq!(handler.kinds, vec![0, 1]);
}

#[test]
fn reactive_drain_preserves_arrival_order() {
    let mut core = core_subscribed_to(vec![0, 1, 2]);
    let mut mb: Mailbox<Pair> = Mailbox::new();
    for k in [2usize, 0, 1, 1, 0] {
        mb.send(Message::Event(Event::new(k, (0, 0))));
    }
    let mut handler = Recorder { kinds: vec![] };
    let handled = process_events_reactive(&mut core, &mut mb, &mut handler)
        .unwrap_or_else(|_| panic!("routing violation"));
    assert_eq!(handled.len(), 5);
    assert_eq!(handler.kinds, vec![2, 0, 1, 1, 0]);
    assert!(!core.stopped);
}
