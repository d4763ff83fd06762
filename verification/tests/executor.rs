use wm::executor::ControlFlow;
use wm::executor::Dispatch;
use wm::executor::Executor;
use wm::executor::HostEvent;
use wm::executor::event::ExecutorEvent;
use wm::executor::handle::ExecutorHandle;

fn fresh_executor() -> Executor {
    Executor::new(ExecutorHandle::new(1))
}

#[test]
fn test_dispatch_table() {
    let mut ex = fresh_executor();
    let cases = vec![
        (HostEvent::User(ExecutorEvent::Wake), Dispatch::Nothing),
        (HostEvent::User(ExecutorEvent::PollTask(3)), Dispatch::RunTask(3)),
        (HostEvent::User(ExecutorEvent::Exit(7)), Dispatch::Exit(7)),
        (HostEvent::Window { window_id: 5 }, Dispatch::EmitWindow(5)),
        (HostEvent::Device { device_id: 6 }, Dispatch::EmitDevice(6)),
        (HostEvent::RedrawRequested { window_id: 8 }, Dispatch::EmitRedraw(8)),
        (HostEvent::Resumed, Dispatch::EmitResumed),
        (HostEvent::Suspended, Dispatch::EmitSuspended),
        (HostEvent::Other, Dispatch::Nothing),
    ];
    for (event, expected) in cases {
        let (dispatch, woken) = ex.on_event(event, 0);
        assert_eq!(dispatch, expected);
        assert!(woken.is_empty());
    }
}

/// A predicate for the resumed source: accept the first resume, yield `1`.
struct ResumeOnce;

impl wm::event::Predicate<(), u32> for ResumeOnce {
    fn call(&mut self, _payload: &mut ()) -> Option<u32> {
        Some(1)
    }
}

#[test]
fn test_single_shot_resume() {
    // a task awaits the resumed source once, observes 1, then exits with 0
    let mut ex = fresh_executor();
    let mut resumed: wm::event::EventSource<u32, wm::event::OncePredicate<ResumeOnce>> =
        wm::event::EventSource::new();
    let mut fut = resumed.once(ResumeOnce);
    assert_eq!(fut.poll(&mut resumed, 1), None);

    // the host reports a resume; the bridge asks for a dispatch to the
    // resumed source, and the emit completes the listener
    let (dispatch, _) = ex.on_event(HostEvent::Resumed, 0);
    assert_eq!(dispatch, Dispatch::EmitResumed);
    assert_eq!(resumed.emit(&mut ()), vec![1]);
    assert_eq!(fut.poll(&mut resumed, 1), Some(1));

    // the task continues to exit(0)
    let ev = ex.handle().exit(0);
    let (dispatch, _) = ex.on_event(HostEvent::User(ev), 0);
    assert_eq!(dispatch, Dispatch::Exit(0));
}

#[test]
fn test_exit_terminates_loop() {
    // a task requests exit(7): the proxy event carries the code, and the
    // bridge asks the host to exit with it
    let mut ex = fresh_executor();
    let ev = ex.handle().exit(7);
    assert_eq!(ev, ExecutorEvent::Exit(7));
    let (dispatch, _) = ex.on_event(HostEvent::User(ev), 0);
    assert_eq!(dispatch, Dispatch::Exit(7));
}

#[test]
fn test_spawn_schedules_first_poll() {
    // spawning (possibly from a foreign thread) posts a PollTask user event;
    // delivering it makes the bridge run the task on the host thread
    let mut ex = fresh_executor();
    let (id, ev) = ex.handle_mut().spawn();
    assert_eq!(id, 0);
    assert_eq!(ev, ExecutorEvent::PollTask(0));
    let (dispatch, _) = ex.on_event(HostEvent::User(ev), 0);
    assert_eq!(dispatch, Dispatch::RunTask(0));

    let (id, ev) = ex.handle_mut().spawn();
    assert_eq!(id, 1);
    assert_eq!(ev, ExecutorEvent::PollTask(1));
}

#[test]
fn test_spawn_local_on_host_thread() {
    let mut handle = ExecutorHandle::new(42);
    assert_eq!(handle.thread_id(), 42);
    let (id, ev) = handle.spawn_local(42);
    assert_eq!(id, 0);
    assert_eq!(ev, ExecutorEvent::PollTask(0));
}

#[test]
fn test_about_to_wait_leaves_poll() {
    // with no timer pending, the bridge moves the host from Poll to Wait
    let mut ex = fresh_executor();
    assert_eq!(ex.control_flow(), ControlFlow::Poll);
    let (dispatch, woken) = ex.on_event(HostEvent::AboutToWait, 0);
    assert_eq!(dispatch, Dispatch::Nothing);
    assert!(woken.is_empty());
    assert_eq!(ex.control_flow(), ControlFlow::Wait);
}

#[test]
fn test_host_wake_on_new_deadline() {
    let mut ex = fresh_executor();
    // registering a waiter hands back the Wake event that unblocks the host
    let (fut, ev) = ex.handle_mut().wait_deadline(5000);
    assert_eq!(ev, ExecutorEvent::Wake);
    assert_eq!(fut.deadline, 5000);
    // the Wake is a no-op in itself ...
    let (dispatch, _) = ex.on_event(HostEvent::User(ev), 1000);
    assert_eq!(dispatch, Dispatch::Nothing);
    // ... but the following "about to wait" respects the new deadline
    ex.on_event(HostEvent::AboutToWait, 1000);
    assert_eq!(ex.control_flow(), ControlFlow::WaitUntil(5000));
}

#[test]
fn test_about_to_wait_wakes_expired_timers() {
    // two sleeping tasks: B until 1000, A until 2000; B wakes first
    let mut ex = fresh_executor();
    let (fut_a, _) = ex.handle_mut().wait_deadline(2000);
    let (fut_b, _) = ex.handle_mut().wait_deadline(1000);
    assert!(!fut_a.poll(ex.handle_mut().timer_mut(), 0, 100));
    assert!(!fut_b.poll(ex.handle_mut().timer_mut(), 0, 200));

    let (_, woken) = ex.on_event(HostEvent::AboutToWait, 1000);
    assert_eq!(woken, vec![(1000, 200)]);
    // the tick that woke B already tells the host to sleep only until A
    assert_eq!(ex.control_flow(), ControlFlow::WaitUntil(2000));
    assert!(fut_b.poll(ex.handle_mut().timer_mut(), 1000, 200));

    ex.on_event(HostEvent::AboutToWait, 1000);
    assert_eq!(ex.control_flow(), ControlFlow::WaitUntil(2000));

    let (_, woken) = ex.on_event(HostEvent::AboutToWait, 2000);
    assert_eq!(woken, vec![(2000, 100)]);
    // nothing is pending any more: the host may wait for events
    assert_eq!(ex.control_flow(), ControlFlow::Wait);
    assert!(fut_a.poll(ex.handle_mut().timer_mut(), 2000, 100));
}

#[test]
fn test_stale_tick_still_waits_until_next() {
    // the earlier waiter is cancelled, leaving a stale cached expiration;
    // the tick it provokes wakes nobody, but the host must still be told to
    // sleep no longer than until the remaining deadline
    let mut ex = fresh_executor();
    let (fut_a, _) = ex.handle_mut().wait_deadline(100);
    let (fut_b, _) = ex.handle_mut().wait_deadline(500);
    assert!(!fut_b.poll(ex.handle_mut().timer_mut(), 0, 9));
    fut_a.cancel(ex.handle_mut().timer_mut());

    let (_, woken) = ex.on_event(HostEvent::AboutToWait, 200);
    assert!(woken.is_empty());
    assert_eq!(ex.control_flow(), ControlFlow::WaitUntil(500));
}

#[test]
fn test_unpolled_expiry_keeps_later_deadline() {
    // an expired waiter that was never polled is removed silently by the
    // tick; the later deadline still governs the host's sleep
    let mut ex = fresh_executor();
    let _ = ex.handle_mut().wait_deadline(100);
    let _ = ex.handle_mut().wait_deadline(900);
    let (_, woken) = ex.on_event(HostEvent::AboutToWait, 300);
    assert!(woken.is_empty());
    assert_eq!(ex.control_flow(), ControlFlow::WaitUntil(900));
}

#[test]
fn test_wait_posts_wake() {
    let mut ex = fresh_executor();
    let (fut, ev) = ex.handle_mut().wait(1500);
    assert_eq!(ev, ExecutorEvent::Wake);
    assert!(fut.deadline >= 1500);
}

#[test]
fn test_about_to_wait_keeps_wait_until() {
    // a pending WaitUntil is not degraded while the deadline has not passed
    let mut ex = fresh_executor();
    let _ = ex.handle_mut().wait_deadline(900);
    ex.on_event(HostEvent::AboutToWait, 100);
    assert_eq!(ex.control_flow(), ControlFlow::WaitUntil(900));
    ex.on_event(HostEvent::AboutToWait, 400);
    assert_eq!(ex.control_flow(), ControlFlow::WaitUntil(900));
}
