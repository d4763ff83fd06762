use wm::timer::ExecutorTimer;
use wm::timer::UpdateState;

#[test]
fn test_deadline_registration_and_next_expiration() {
    let mut timer = ExecutorTimer::new();
    assert_eq!(timer.next_expiration(), None);
    assert_eq!(timer.pending_count(), 0);

    let a = timer.deadline(2000);
    assert_eq!(a.deadline, 2000);
    assert_eq!(timer.next_expiration(), Some(2000));

    let b = timer.deadline(1000);
    assert_eq!(b.deadline, 1000);
    // the earlier deadline moves to the front
    assert_eq!(timer.next_expiration(), Some(1000));
    assert_eq!(timer.pending_count(), 2);
    assert_ne!(a.key, b.key);
}

#[test]
fn test_two_timers_wake_in_order() {
    // task A waits 2000 ms, task B waits 1000 ms: B wakes first, then A
    let mut timer = ExecutorTimer::new();
    let a = timer.deadline(2000);
    let b = timer.deadline(1000);
    assert!(!a.poll(&mut timer, 0, 100));
    assert!(!b.poll(&mut timer, 0, 200));

    assert!(timer.tick(999).is_empty());
    assert_eq!(timer.tick(1000), vec![(1000, 200)]);
    assert!(b.poll(&mut timer, 1000, 200));
    assert_eq!(timer.pending_count(), 1);

    assert_eq!(timer.tick(2500), vec![(2000, 100)]);
    assert!(a.poll(&mut timer, 2500, 100));
    assert_eq!(timer.pending_count(), 0);
}

#[test]
fn test_one_tick_wakes_all_expired_in_deadline_order() {
    let mut timer = ExecutorTimer::new();
    let c = timer.deadline(30);
    let a = timer.deadline(10);
    let b = timer.deadline(20);
    assert!(!c.poll(&mut timer, 0, 3));
    assert!(!a.poll(&mut timer, 0, 1));
    assert!(!b.poll(&mut timer, 0, 2));
    // every expired waiter is woken, earlier deadlines first
    assert_eq!(timer.tick(25), vec![(10, 1), (20, 2)]);
    assert_eq!(timer.next_expiration(), Some(30));
}

#[test]
fn test_equal_deadlines_keep_insertion_order() {
    let mut timer = ExecutorTimer::new();
    let a = timer.deadline(100);
    let b = timer.deadline(100);
    assert!(!a.poll(&mut timer, 0, 1));
    assert!(!b.poll(&mut timer, 0, 2));
    assert_eq!(timer.tick(100), vec![(100, 1), (100, 2)]);
}

#[test]
fn test_update_next_states() {
    let mut timer = ExecutorTimer::new();
    // nothing was ever pending
    let (st, woken) = timer.update_next(500);
    assert_eq!(st, UpdateState::Idle);
    assert!(woken.is_empty());

    let fut = timer.deadline(800);
    assert!(!fut.poll(&mut timer, 300, 9));

    // not due yet: the host may sleep for the remaining time
    let (st, woken) = timer.update_next(300);
    assert_eq!(st, UpdateState::WaitTimeout(500));
    assert!(woken.is_empty());

    // due: the waiter is woken and removed
    let (st, woken) = timer.update_next(800);
    assert_eq!(st, UpdateState::Triggered);
    assert_eq!(woken, vec![(800, 9)]);
    assert_eq!(timer.pending_count(), 0);

    // the cache was reset, so the service is idle again
    let (st, _) = timer.update_next(900);
    assert_eq!(st, UpdateState::Idle);
}

#[test]
fn test_unpolled_waiter_expires_silently() {
    let mut timer = ExecutorTimer::new();
    let fut = timer.deadline(100);
    // never polled: no waker is registered, so nothing is woken ...
    assert!(timer.tick(100).is_empty());
    assert_eq!(timer.pending_count(), 0);
    // ... and the waiter observes readiness on its next poll
    assert!(fut.poll(&mut timer, 100, 5));
}

#[test]
fn test_poll_after_deadline_is_ready() {
    let mut timer = ExecutorTimer::new();
    let fut = timer.deadline(100);
    assert!(!fut.poll(&mut timer, 99, 5));
    assert!(fut.poll(&mut timer, 100, 5));
    assert_eq!(timer.pending_count(), 0);
}

#[test]
fn test_cancelled_waiter_is_never_woken() {
    let mut timer = ExecutorTimer::new();
    let fut = timer.deadline(100);
    assert!(!fut.poll(&mut timer, 0, 5));
    fut.cancel(&mut timer);
    assert_eq!(timer.pending_count(), 0);

    // the cached expiration is stale: the tick triggers but wakes nobody
    let (st, woken) = timer.update_next(150);
    assert_eq!(st, UpdateState::Triggered);
    assert!(woken.is_empty());
    let (st, _) = timer.update_next(200);
    assert_eq!(st, UpdateState::Idle);
}

#[test]
fn test_delay_is_at_least_the_requested_time() {
    let mut timer = ExecutorTimer::new();
    let fut = timer.delay(5000);
    // the absolute deadline is the clock reading plus the delay
    assert!(fut.deadline >= 5000);
    assert_eq!(timer.next_expiration(), Some(fut.deadline));
}
