//! The executor handle: task spawning and timer requests.
//!
//! The handle owns the timer service and knows the host thread's identity.
//! Methods that act through the host's proxy return the [`ExecutorEvent`]
//! to be sent, so that every decision is verified and only the send itself
//! stays outside.

use vstd::prelude::*;

use crate::executor::event::ExecutorEvent;
use crate::timer::ExecutorTimer;
use crate::timer::TimerFuture;
use crate::timer::TimerView;
use crate::timer::with_deadline;

verus! {

/// Mathematical state of the executor handle.
#[verifier::ext_equal]
pub ghost struct HandleView {
    /// Identity of the host thread, fixed at construction.
    pub thread_id: u64,
    /// The timer service.
    pub timer: TimerView,
    /// Handle given to the next spawned task.
    pub next_task: u64,
}

impl HandleView {
    pub open spec fn wf(self) -> bool {
        self.timer.wf()
    }
}

/// Handle for task spawning and timers; one per process, created when the
/// runtime starts.
pub struct ExecutorHandle {
    thread_id: u64,
    pub(super) timer: ExecutorTimer,
    next_task: u64,
}

impl View for ExecutorHandle {
    type V = HandleView;

    closed spec fn view(&self) -> HandleView {
        HandleView { thread_id: self.thread_id, timer: self.timer@, next_task: self.next_task }
    }
}

impl ExecutorHandle {
    /// A fresh handle for a runtime driven by the thread `thread_id`.
    pub fn new(thread_id: u64) -> (r: Self)
        ensures
            r@.wf(),
            r@.thread_id == thread_id,
            r@.next_task == 0,
            r@.timer.entries.len() == 0,
            r@.timer.next_expiration is None,
            r@.timer.next_key == 0,
    {
        ExecutorHandle { thread_id, timer: ExecutorTimer::new(), next_task: 0 }
    }

    /// The identity of the host thread this runtime runs on.
    pub fn thread_id(&self) -> (r: u64)
        ensures
            r == self@.thread_id,
    {
        self.thread_id
    }

    /// The timer service, for polling and cancelling timer futures.
    pub fn timer(&self) -> (t: &ExecutorTimer)
        ensures
            (*t)@ == self@.timer,
    {
        &self.timer
    }

    /// Exclusive access to the timer service.
    pub fn timer_mut(&mut self) -> (t: &mut ExecutorTimer)
        ensures
            (*t)@ == old(self)@.timer,
            final(self)@ == (HandleView { timer: (*final(t))@, ..old(self)@ }),
    {
        &mut self.timer
    }

    /// Request exit: the returned event is to be posted through the proxy;
    /// the requesting task is never resumed.
    pub fn exit(&self, code: i32) -> (ev: ExecutorEvent)
        ensures
            ev == ExecutorEvent::Exit(code),
    {
        ExecutorEvent::Exit(code)
    }

    /// A waiter due `delay_ms` from now, together with the `Wake` event that
    /// must be posted so a suspended host observes the shortened deadline.
    pub fn wait(&mut self, delay_ms: u64) -> (r: (TimerFuture, ExecutorEvent))
        requires
            old(self)@.wf(),
            old(self)@.timer.next_key < u64::MAX,
        ensures
            final(self)@.wf(),
            r.1 == ExecutorEvent::Wake,
            r.0.key == old(self)@.timer.next_key,
            r.0.deadline >= delay_ms,
            final(self)@ == (HandleView {
                timer: with_deadline(old(self)@.timer, r.0.deadline),
                ..old(self)@
            }),
    {
        let fut = self.timer.delay(delay_ms);
        (fut, ExecutorEvent::Wake)
    }

    /// A waiter due at monotonic millisecond `timestamp`, together with the
    /// `Wake` event that must be posted. Afterwards the timer's next
    /// expiration is at most `timestamp`, so the host is never told to
    /// sleep past it.
    pub fn wait_deadline(&mut self, timestamp: u64) -> (r: (TimerFuture, ExecutorEvent))
        requires
            old(self)@.wf(),
            old(self)@.timer.next_key < u64::MAX,
        ensures
            final(self)@.wf(),
            r.1 == ExecutorEvent::Wake,
            r.0 == (TimerFuture { key: old(self)@.timer.next_key, deadline: timestamp }),
            final(self)@ == (HandleView {
                timer: with_deadline(old(self)@.timer, timestamp),
                ..old(self)@
            }),
            final(self)@.timer.next_expiration matches Some(n) && n <= timestamp,
    {
        let fut = self.timer.deadline(timestamp);
        (fut, ExecutorEvent::Wake)
    }

    /// Spawn a task: issue its handle and the `PollTask` event that
    /// schedules its first poll on the host thread. May be called from any
    /// thread; the host delivers the event on the host thread.
    pub fn spawn(&mut self) -> (r: (u64, ExecutorEvent))
        requires
            old(self)@.wf(),
            old(self)@.next_task < u64::MAX,
        ensures
            final(self)@.wf(),
            r.0 == old(self)@.next_task,
            r.1 == ExecutorEvent::PollTask(r.0),
            final(self)@ == (HandleView { next_task: (old(self)@.next_task + 1) as u64, ..old(self)@ }),
    {
        self.spawn_unchecked()
    }

    /// Spawn a task whose future need not be thread-transferable: allowed
    /// only on the host thread itself, so the caller must present the
    /// identity of the thread it runs on.
    pub fn spawn_local(&mut self, current_thread: u64) -> (r: (u64, ExecutorEvent))
        requires
            old(self)@.wf(),
            old(self)@.next_task < u64::MAX,
            current_thread == old(self)@.thread_id,
        ensures
            final(self)@.wf(),
            r.0 == old(self)@.next_task,
            r.1 == ExecutorEvent::PollTask(r.0),
            final(self)@ == (HandleView { next_task: (old(self)@.next_task + 1) as u64, ..old(self)@ }),
    {
        self.spawn_unchecked()
    }

    /// Spawn with all obligations on the caller: issue the handle and
    /// schedule the first poll.
    pub fn spawn_unchecked(&mut self) -> (r: (u64, ExecutorEvent))
        requires
            old(self)@.wf(),
            old(self)@.next_task < u64::MAX,
        ensures
            final(self)@.wf(),
            r.0 == old(self)@.next_task,
            r.1 == ExecutorEvent::PollTask(r.0),
            final(self)@ == (HandleView { next_task: (old(self)@.next_task + 1) as u64, ..old(self)@ }),
    {
        let id = self.spawn_raw_unchecked();
        (id, ExecutorEvent::PollTask(id))
    }

    /// Issue a task handle without scheduling it; the caller runs its first
    /// poll itself (the runtime does this for the main task).
    pub fn spawn_raw_unchecked(&mut self) -> (id: u64)
        requires
            old(self)@.wf(),
            old(self)@.next_task < u64::MAX,
        ensures
            final(self)@.wf(),
            id == old(self)@.next_task,
            final(self)@ == (HandleView { next_task: (old(self)@.next_task + 1) as u64, ..old(self)@ }),
    {
        let id = self.next_task;
        self.next_task = self.next_task + 1;
        id
    }
}

} // verus!
