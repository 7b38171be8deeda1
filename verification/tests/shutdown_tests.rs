use backend_supervisor::shutdown::classify_shutdown;
use backend_supervisor::shutdown::shutdown_endpoint;
use backend_supervisor::shutdown::ShutdownOutcome;

/// A completed call to a reachable endpoint is acknowledged.
#[test]
fn completed_call_is_acknowledged() {
    assert_eq!(classify_shutdown(true), ShutdownOutcome::Acknowledged);
}

/// A failed call (connection refused) is unreachable, never success.
#[test]
fn failed_call_is_unreachable() {
    assert_eq!(classify_shutdown(false), ShutdownOutcome::Unreachable);
    assert_ne!(classify_shutdown(false), ShutdownOutcome::Acknowledged);
}

#[test]
fn endpoint_is_fixed_loopback() {
    assert_eq!(shutdown_endpoint(), "http://127.0.0.1:5000/api/shutdown");
}
