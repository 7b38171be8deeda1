//! Shutdown coordinator: classification of the single best-effort
//! graceful-shutdown request that the shell issues when it closes.
//!
//! The request itself is one HTTP GET against a fixed local loopback
//! endpoint; issuing it is network I/O and is left to the shell.  The
//! shell reports back one plain fact — whether the transport completed
//! the call — and the coordinator turns that fact into the outcome that
//! is surfaced: a completed call is an acknowledgement, a failed call
//! means the endpoint was unreachable.  A transport failure is never
//! reported as success.

use vstd::prelude::*;

verus! {

/// Outcome of the graceful-shutdown handshake.
#[derive(Clone, Copy, Debug, PartialEq, Eq, Structural)]
pub enum ShutdownOutcome {
    /// The shutdown endpoint completed the request.
    Acknowledged,
    /// The shutdown endpoint could not be reached.
    Unreachable,
}

/// The fixed loopback endpoint the backend listens on for the
/// graceful-shutdown request.
pub fn shutdown_endpoint() -> (r: &'static str)
    ensures
        r@ == "http://127.0.0.1:5000/api/shutdown"@,
{
    "http://127.0.0.1:5000/api/shutdown"
}

/// Turns the transport's report on the single shutdown call into the
/// surfaced outcome.  `completed` is true exactly when the HTTP call
/// completed with a response; a transport error (connection refused,
/// no listener) is `!completed`.
pub fn classify_shutdown(completed: bool) -> (r: ShutdownOutcome)
    ensures
        completed ==> r == ShutdownOutcome::Acknowledged,
        !completed ==> r == ShutdownOutcome::Unreachable,
{
    if completed {
        ShutdownOutcome::Acknowledged
    } else {
        ShutdownOutcome::Unreachable
    }
}

} // verus!
