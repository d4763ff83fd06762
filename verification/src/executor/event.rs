//! Synthetic user events that the runtime injects into the host loop
//! through the host's thread-safe proxy.

use vstd::prelude::*;

verus! {

/// A user event carried by the host's proxy. Task handles are opaque `u64`
/// tokens standing for one-shot runnable handles.
#[derive(Clone, Copy, Debug, PartialEq, Eq, Structural)]
pub enum ExecutorEvent {
    /// Unblock the host's wait so that a freshly shortened timer deadline is
    /// observed.
    Wake,
    /// Run one scheduled task continuation on the host thread.
    PollTask(u64),
    /// Ask the host to exit with this code.
    Exit(i32),
}

} // verus!
