use std::cell::Cell;
use std::rc::Rc;

use wm::event::EventSource;
use wm::event::Predicate;

/// A predicate that counts its invocations and completes on the
/// `accept_at`-th call (never, when `accept_at` is 0), returning the payload.
struct Counting {
    calls: Rc<Cell<usize>>,
    accept_at: usize,
}

impl Predicate<u32, u32> for Counting {
    fn call(&mut self, payload: &mut u32) -> Option<u32> {
        self.calls.set(self.calls.get() + 1);
        if self.accept_at != 0 && self.calls.get() >= self.accept_at {
            Some(*payload)
        } else {
            None
        }
    }
}

/// A predicate that records its tag into the payload and completes at once,
/// making the order of predicate invocations observable.
struct Tagger {
    tag: u32,
}

impl Predicate<Vec<u32>, u32> for Tagger {
    fn call(&mut self, payload: &mut Vec<u32>) -> Option<u32> {
        payload.push(self.tag);
        Some(self.tag)
    }
}

#[test]
fn test_event_source() {
    let mut source: EventSource<u32, Counting> = EventSource::new();
    let calls = Rc::new(Cell::new(0));
    let mut fut = source.on(Counting { calls: calls.clone(), accept_at: 1 });

    // first poll links the listener and stays pending
    assert_eq!(fut.poll(&mut source, 7), None);
    assert_eq!(source.listener_count(), 1);
    assert_eq!(calls.get(), 0);

    // the emit invokes the predicate once, completes it, wakes waker 7
    let mut payload: u32 = 5;
    let woken = source.emit(&mut payload);
    assert_eq!(woken, vec![7]);
    assert_eq!(calls.get(), 1);

    // the next poll delivers the verdict and unlinks the listener
    assert_eq!(fut.poll(&mut source, 7), Some(5));
    assert_eq!(source.listener_count(), 0);

    // at-most-once completion: a later emit does not reach the predicate
    let woken = source.emit(&mut payload);
    assert!(woken.is_empty());
    assert_eq!(calls.get(), 1);
}

#[test]
fn test_insertion_order_dispatch() {
    let mut source: EventSource<u32, Tagger> = EventSource::new();
    let mut fut_a = source.on(Tagger { tag: 10 });
    let mut fut_b = source.on(Tagger { tag: 20 });
    let mut fut_c = source.on(Tagger { tag: 30 });
    assert_eq!(fut_a.poll(&mut source, 1), None);
    assert_eq!(fut_b.poll(&mut source, 2), None);
    assert_eq!(fut_c.poll(&mut source, 3), None);

    let mut payload: Vec<u32> = Vec::new();
    let woken = source.emit(&mut payload);
    // predicates ran front to back, in insertion order, each exactly once
    assert_eq!(payload, vec![10, 20, 30]);
    // and the wakers come out in the same order
    assert_eq!(woken, vec![1, 2, 3]);

    assert_eq!(fut_a.poll(&mut source, 1), Some(10));
    assert_eq!(fut_b.poll(&mut source, 2), Some(20));
    assert_eq!(fut_c.poll(&mut source, 3), Some(30));
}

#[test]
fn test_pending_until_second_emit() {
    let mut source: EventSource<u32, Counting> = EventSource::new();
    let calls = Rc::new(Cell::new(0));
    let mut fut = source.on(Counting { calls: calls.clone(), accept_at: 2 });
    assert_eq!(fut.poll(&mut source, 9), None);

    let mut payload: u32 = 1;
    // first emit: predicate says "not yet", nobody is woken
    assert!(source.emit(&mut payload).is_empty());
    assert_eq!(calls.get(), 1);
    assert_eq!(fut.poll(&mut source, 9), None);

    // second emit completes the listener
    let mut payload: u32 = 2;
    assert_eq!(source.emit(&mut payload), vec![9]);
    assert_eq!(calls.get(), 2);
    assert_eq!(fut.poll(&mut source, 9), Some(2));
}

#[test]
fn test_waker_refresh() {
    let mut source: EventSource<u32, Counting> = EventSource::new();
    let calls = Rc::new(Cell::new(0));
    let mut fut = source.on(Counting { calls, accept_at: 1 });
    assert_eq!(fut.poll(&mut source, 7), None);
    // the scheduler changed the waker; the listener must wake the new one
    assert_eq!(fut.poll(&mut source, 9), None);
    let mut payload: u32 = 0;
    assert_eq!(source.emit(&mut payload), vec![9]);
}

#[test]
fn test_cancelled_listener_is_unlinked() {
    let mut source: EventSource<u32, Counting> = EventSource::new();
    let calls = Rc::new(Cell::new(0));
    // a listener that never completes
    let mut fut = source.on(Counting { calls: calls.clone(), accept_at: 0 });
    assert_eq!(fut.poll(&mut source, 4), None);
    let mut payload: u32 = 3;
    assert!(source.emit(&mut payload).is_empty());
    assert_eq!(calls.get(), 1);

    // dropping the pending future unlinks its listener
    fut.cancel(&mut source);
    assert_eq!(source.listener_count(), 0);

    // a later emit touches nothing
    assert!(source.emit(&mut payload).is_empty());
    assert_eq!(calls.get(), 1);
}

#[test]
fn test_cancel_cold_future() {
    let mut source: EventSource<u32, Counting> = EventSource::new();
    let calls = Rc::new(Cell::new(0));
    let mut fut = source.on(Counting { calls, accept_at: 1 });
    // never polled: nothing was linked, cancelling only releases the closure
    fut.cancel(&mut source);
    assert_eq!(source.listener_count(), 0);
}

#[test]
fn test_once_completes_at_most_once() {
    let mut source: EventSource<u32, wm::event::OncePredicate<Counting>> = EventSource::new();
    let calls = Rc::new(Cell::new(0));
    let mut fut = source.once(Counting { calls: calls.clone(), accept_at: 1 });
    assert_eq!(fut.poll(&mut source, 11), None);

    let mut payload: u32 = 42;
    assert_eq!(source.emit(&mut payload), vec![11]);
    assert_eq!(calls.get(), 1);

    // once completed, the wrapped predicate is never invoked again
    let mut payload: u32 = 43;
    assert!(source.emit(&mut payload).is_empty());
    assert_eq!(calls.get(), 1);

    assert_eq!(fut.poll(&mut source, 11), Some(42));
}

/// A predicate that accepts every payload, returning a copy of it.
struct TakeEach;

impl Predicate<u32, u32> for TakeEach {
    fn call(&mut self, payload: &mut u32) -> Option<u32> {
        Some(*payload)
    }
}

#[test]
fn test_event_sequence_observed_in_order() {
    // a task loops awaiting device-style events: it observes exactly the
    // emitted sequence, once each, in order
    let mut source: EventSource<u32, TakeEach> = EventSource::new();
    let mut observed: Vec<u32> = Vec::new();
    for event in [101u32, 102, 103] {
        let mut fut = source.on(TakeEach);
        assert_eq!(fut.poll(&mut source, 1), None);
        let mut payload = event;
        assert_eq!(source.emit(&mut payload), vec![1]);
        observed.push(fut.poll(&mut source, 1).unwrap());
    }
    assert_eq!(observed, vec![101, 102, 103]);
    assert_eq!(source.listener_count(), 0);
}

#[test]
fn test_two_listeners_one_completes() {
    let mut source: EventSource<u32, Counting> = EventSource::new();
    let calls_a = Rc::new(Cell::new(0));
    let calls_b = Rc::new(Cell::new(0));
    let mut fut_a = source.on(Counting { calls: calls_a.clone(), accept_at: 0 });
    let mut fut_b = source.on(Counting { calls: calls_b.clone(), accept_at: 1 });
    assert_eq!(fut_a.poll(&mut source, 1), None);
    assert_eq!(fut_b.poll(&mut source, 2), None);

    let mut payload: u32 = 8;
    // only the second listener completes; the walk still visits both
    assert_eq!(source.emit(&mut payload), vec![2]);
    assert_eq!(calls_a.get(), 1);
    assert_eq!(calls_b.get(), 1);
    assert_eq!(fut_a.poll(&mut source, 1), None);
    assert_eq!(fut_b.poll(&mut source, 2), Some(8));
    assert_eq!(source.listener_count(), 1);
}
