//! Host-loop bridge: translate host events into executor actions.
//!
//! The bridge owns the executor handle and mirrors the host's control-flow
//! state. For each host event, [`Executor::on_event`] decides what the
//! surrounding loop must do — run a task continuation, dispatch a typed
//! event to its static source, ask the host to exit — and on "about to
//! wait" it ticks the timer and chooses the host's next control flow.
//! Everything the bridge cannot do itself (waking real wakers, emitting on
//! the static sources, talking to the host) is returned as data for the
//! unverified loop around it to perform.

pub mod event;
pub mod handle;

use vstd::prelude::*;

use crate::executor::event::ExecutorEvent;
use crate::executor::handle::ExecutorHandle;
use crate::executor::handle::HandleView;
use crate::timer::TimerView;
use crate::timer::UpdateState;
use crate::timer::expired_wakers;
use crate::timer::ticked;

verus! {

/// A host event as the bridge sees it. Window and device identities are
/// opaque `u64` tokens; the borrowed event records themselves stay with the
/// loop that performs the dispatch.
#[derive(Clone, Copy, Debug, PartialEq, Eq, Structural)]
pub enum HostEvent {
    /// A user event injected through the proxy.
    User(ExecutorEvent),
    /// A window event for this window.
    Window { window_id: u64 },
    /// A device event for this device.
    Device { device_id: u64 },
    /// A redraw request for this window.
    RedrawRequested { window_id: u64 },
    /// The application was resumed.
    Resumed,
    /// The application was suspended.
    Suspended,
    /// The host is about to block and wait for the next event.
    AboutToWait,
    /// Any other host event; the bridge ignores it.
    Other,
}

/// The host's control-flow state as the runtime requests it.
#[derive(Clone, Copy, Debug, PartialEq, Eq, Structural)]
pub enum ControlFlow {
    /// Iterate again immediately.
    Poll,
    /// Block until the next host event.
    Wait,
    /// Block, but wake at this monotonic millisecond at the latest.
    WaitUntil(u64),
}

/// What the loop around the bridge must do for one host event.
#[derive(Clone, Copy, Debug, PartialEq, Eq, Structural)]
pub enum Dispatch {
    /// Nothing to do.
    Nothing,
    /// Run the given task continuation on the host thread.
    RunTask(u64),
    /// Ask the host to exit with this code.
    Exit(i32),
    /// Emit on the window event source with this window's identity.
    EmitWindow(u64),
    /// Emit on the device event source with this device's identity.
    EmitDevice(u64),
    /// Emit on the redraw-request source with this window's identity.
    EmitRedraw(u64),
    /// Emit on the resumed source.
    EmitResumed,
    /// Emit on the suspended source.
    EmitSuspended,
}

/// The bridge's dispatch table: which action each host event asks for.
pub open spec fn dispatch_of(event: HostEvent) -> Dispatch {
    match event {
        HostEvent::User(ExecutorEvent::Wake) => Dispatch::Nothing,
        HostEvent::User(ExecutorEvent::PollTask(t)) => Dispatch::RunTask(t),
        HostEvent::User(ExecutorEvent::Exit(c)) => Dispatch::Exit(c),
        HostEvent::Window { window_id } => Dispatch::EmitWindow(window_id),
        HostEvent::Device { device_id } => Dispatch::EmitDevice(device_id),
        HostEvent::RedrawRequested { window_id } => Dispatch::EmitRedraw(window_id),
        HostEvent::Resumed => Dispatch::EmitResumed,
        HostEvent::Suspended => Dispatch::EmitSuspended,
        HostEvent::AboutToWait => Dispatch::Nothing,
        HostEvent::Other => Dispatch::Nothing,
    }
}

/// The timer has a cached next expiration that has passed, so "about to
/// wait" runs a tick.
pub open spec fn timer_ticks(tv: TimerView, now: u64) -> bool {
    tv.next_expiration matches Some(n) && n <= now
}

/// The control flow the bridge requests on "about to wait": sleep until the
/// next expiration when a waiter is pending, and wait for host events
/// otherwise. When the cached expiration has passed, the tick runs first
/// and the decision reads the deadlines still pending after it.
pub open spec fn about_to_wait_control(tv: TimerView, now: u64) -> ControlFlow {
    match tv.next_expiration {
        Some(n) => if n > now {
            ControlFlow::WaitUntil(n)
        } else {
            match ticked(tv, now).next_expiration {
                Some(u) => ControlFlow::WaitUntil(u),
                None => ControlFlow::Wait,
            }
        },
        None => ControlFlow::Wait,
    }
}

/// Mathematical state of the bridge.
#[verifier::ext_equal]
pub ghost struct ExecutorView {
    pub handle: HandleView,
    pub control_flow: ControlFlow,
}

impl ExecutorView {
    pub open spec fn wf(self) -> bool {
        self.handle.wf()
    }
}

/// The single-threaded dispatcher that owns the host run-loop's callback.
pub struct Executor {
    handle: ExecutorHandle,
    control_flow: ControlFlow,
}

impl View for Executor {
    type V = ExecutorView;

    closed spec fn view(&self) -> ExecutorView {
        ExecutorView { handle: self.handle@, control_flow: self.control_flow }
    }
}

impl Executor {
    /// A bridge around the given handle; the host starts out polling.
    pub fn new(handle: ExecutorHandle) -> (r: Self)
        ensures
            r@.handle == handle@,
            r@.control_flow == ControlFlow::Poll,
    {
        Executor { handle, control_flow: ControlFlow::Poll }
    }

    /// The executor handle.
    pub fn handle(&self) -> (h: &ExecutorHandle)
        ensures
            (*h)@ == self@.handle,
    {
        &self.handle
    }

    /// Exclusive access to the executor handle.
    pub fn handle_mut(&mut self) -> (h: &mut ExecutorHandle)
        ensures
            (*h)@ == old(self)@.handle,
            final(self)@ == (ExecutorView { handle: (*final(h))@, ..old(self)@ }),
    {
        &mut self.handle
    }

    /// The control flow most recently requested from the host.
    pub fn control_flow(&self) -> (c: ControlFlow)
        ensures
            c == self@.control_flow,
    {
        self.control_flow
    }

    /// Handle one host event at monotonic millisecond `now`: decide the
    /// dispatch the loop must perform, and on "about to wait" tick the
    /// timer — returning the woken `(deadline, waker)` pairs in deadline
    /// order — and choose the host's next control flow.
    pub fn on_event(&mut self, event: HostEvent, now: u64) -> (r: (Dispatch, Vec<(u64, u64)>))
        requires
            old(self)@.wf(),
        ensures
            final(self)@.wf(),
            r.0 == dispatch_of(event),
            final(self)@.handle.thread_id == old(self)@.handle.thread_id,
            final(self)@.handle.next_task == old(self)@.handle.next_task,
            event != HostEvent::AboutToWait ==> {
                &&& final(self)@ == old(self)@
                &&& r.1@ == Seq::<(u64, u64)>::empty()
            },
            event == HostEvent::AboutToWait ==> {
                &&& final(self)@.control_flow == about_to_wait_control(
                    old(self)@.handle.timer,
                    now,
                )
                &&& timer_ticks(old(self)@.handle.timer, now) ==> {
                    &&& final(self)@.handle.timer == ticked(old(self)@.handle.timer, now)
                    &&& r.1@ == expired_wakers(old(self)@.handle.timer, now)
                }
                &&& !timer_ticks(old(self)@.handle.timer, now) ==> {
                    &&& final(self)@.handle.timer == old(self)@.handle.timer
                    &&& r.1@ == Seq::<(u64, u64)>::empty()
                }
            },
    {
        match event {
            HostEvent::User(ExecutorEvent::Wake) => (Dispatch::Nothing, Vec::new()),
            HostEvent::User(ExecutorEvent::PollTask(t)) => (Dispatch::RunTask(t), Vec::new()),
            HostEvent::User(ExecutorEvent::Exit(c)) => (Dispatch::Exit(c), Vec::new()),
            HostEvent::Window { window_id } => (Dispatch::EmitWindow(window_id), Vec::new()),
            HostEvent::Device { device_id } => (Dispatch::EmitDevice(device_id), Vec::new()),
            HostEvent::RedrawRequested { window_id } => (
                Dispatch::EmitRedraw(window_id),
                Vec::new(),
            ),
            HostEvent::Resumed => (Dispatch::EmitResumed, Vec::new()),
            HostEvent::Suspended => (Dispatch::EmitSuspended, Vec::new()),
            HostEvent::AboutToWait => {
                let (st, woken) = self.handle.timer_mut().update_next(now);
                match st {
                    UpdateState::WaitTimeout(d) => {
                        proof {
                            let n = old(self)@.handle.timer.next_expiration.unwrap();
                            assert(now + d == n);
                        }
                        self.control_flow = ControlFlow::WaitUntil(now + d);
                    },
                    UpdateState::Triggered => {
                        // sleep only until the earliest deadline that
                        // survived the tick, if any
                        match self.handle.timer().next_expiration() {
                            Some(u) => {
                                self.control_flow = ControlFlow::WaitUntil(u);
                            },
                            None => {
                                self.control_flow = ControlFlow::Wait;
                            },
                        }
                    },
                    UpdateState::Idle => {
                        self.control_flow = ControlFlow::Wait;
                    },
                }
                (Dispatch::Nothing, woken)
            },
            HostEvent::Other => (Dispatch::Nothing, Vec::new()),
        }
    }
}

/// Host wake on new deadline: registering a waiter due at `t` both posts a
/// `Wake` user event — unblocking a suspended host — and leaves the timer's
/// cached next expiration at or below `t` (the ensures of
/// [`ExecutorHandle::wait_deadline`]). This lemma adds what the bridge then
/// does on the host's next "about to wait": while the deadline is still
/// pending it puts the host into `WaitUntil` of a time no later than `t`;
/// once a cached expiration has passed it ticks, which wakes and removes
/// every entry due by `now`, and then sleeps only until the earliest
/// deadline that remains — again no later than `t` while the `t`-waiter is
/// among them — or waits for host events when none remains.
pub proof fn lemma_host_wake_on_new_deadline(tv: TimerView, t: u64, now: u64)
    requires
        tv.wf(),
        tv.next_expiration matches Some(n) && n <= t,
    ensures
        !timer_ticks(tv, now) ==> {
            &&& about_to_wait_control(tv, now)
                == ControlFlow::WaitUntil(tv.next_expiration.unwrap())
            &&& tv.next_expiration.unwrap() <= t
        },
        timer_ticks(tv, now) ==> forall|i: int|
            0 <= i < tv.entries.len() && tv.entries[i].deadline <= now
                ==> !crate::timer::has_key(ticked(tv, now).entries, tv.entries[i].key),
        timer_ticks(tv, now) ==> about_to_wait_control(tv, now) == (match ticked(
            tv,
            now,
        ).next_expiration {
            Some(u) => ControlFlow::WaitUntil(u),
            None => ControlFlow::Wait,
        }),
        timer_ticks(tv, now) ==> forall|i: int|
            0 <= i < ticked(tv, now).entries.len() && (#[trigger] ticked(
                tv,
                now,
            ).entries[i]).deadline <= t
                ==> (about_to_wait_control(tv, now) matches ControlFlow::WaitUntil(u) && u
                    <= t),
{
    if timer_ticks(tv, now) {
        crate::timer::lemma_tick_complete(tv, now);
        let rest = ticked(tv, now).entries;
        assert forall|i: int| 0 <= i < rest.len() && (#[trigger] rest[i]).deadline <= t
            implies (about_to_wait_control(tv, now) matches ControlFlow::WaitUntil(u) && u
            <= t) by {
            let p = crate::timer::insert_pos(tv.entries, now);
            crate::timer::lemma_insert_pos_bounds(tv.entries, now);
            assert(rest[0] == tv.entries[p]);
            assert(rest[i] == tv.entries[p + i]);
            assert(rest[0].deadline <= rest[i].deadline);
        }
    }
}

} // verus!
