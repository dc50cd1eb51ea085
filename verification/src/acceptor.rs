//! Decision logic of the accept loop. The loop itself blocks on the
//! listener, so it runs outside the library; each time a connection
//! arrives it asks [`on_connection`] what to do, given whether the
//! one-shot shutdown notification is pending. A blocking accept cannot
//! itself observe the notification, so the shutdown path unblocks it
//! with a self-connect; the connection that wakes the loop is then
//! discarded here rather than dispatched.

use vstd::prelude::*;

verus! {

/// Phase of the accept loop.
#[derive(Clone, Copy, PartialEq, Eq, Debug, Structural)]
pub enum AcceptorState {
    /// Blocked on the next incoming connection.
    Listening,
    /// No longer accepting; the pool is being torn down and waits for
    /// all dispatched jobs to finish.
    Draining,
}

/// What the accept loop must do with a connection that just arrived.
#[derive(Clone, Copy, PartialEq, Eq, Debug, Structural)]
pub enum AcceptorAction {
    /// Submit the connection to the pool as one job, keep listening.
    Dispatch,
    /// Discard the connection, stop accepting, begin pool teardown.
    Discard,
}

/// The shutdown notification is checked before every dispatch: a pending
/// notification wins over the connection in hand, which is discarded —
/// in particular the self-connect used to unblock the accept call is
/// never dispatched. While no notification is pending every connection
/// is dispatched and the loop keeps listening.
pub fn on_connection(state: AcceptorState, shutdown_pending: bool) -> (r: (
    AcceptorState,
    AcceptorAction,
))
    requires
        state == AcceptorState::Listening,
    ensures
        shutdown_pending ==> r == (AcceptorState::Draining, AcceptorAction::Discard),
        !shutdown_pending ==> r == (AcceptorState::Listening, AcceptorAction::Dispatch),
{
    if shutdown_pending {
        (AcceptorState::Draining, AcceptorAction::Discard)
    } else {
        (AcceptorState::Listening, AcceptorAction::Dispatch)
    }
}

} // verus!
