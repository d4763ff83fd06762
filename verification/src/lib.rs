//! # wm: a cooperative async runtime core over a host event loop
//!
//! The crate verifies the core of a single-threaded asynchronous runtime that
//! is driven by a foreign windowing event loop (the host). The host owns the
//! thread; the runtime turns its blocking loop into a cooperative task
//! executor with three coupled subsystems:
//!
//! * an event multiplexer ([`event::EventSource`]) that dispatches typed host
//!   events to registered listeners in insertion order, completing each
//!   listener at most once;
//! * a timer service ([`timer::ExecutorTimer`]) holding a deadline-ordered
//!   list of waiters, driven by the host's "wait with timeout" control mode;
//! * an executor handle and host-loop bridge ([`executor`]) that translate
//!   host events into task wakeups, timer ticks and control-flow requests.
//!
//! Waker handles, task handles and thread identities appear here as plain
//! `u64` tokens; the unverifiable plumbing around them (pinning, `Waker`
//! vtables, the host loop itself) lives outside this crate and drives the
//! verified state machines through the contracts below.

pub mod event;
pub mod executor;
pub mod timer;
