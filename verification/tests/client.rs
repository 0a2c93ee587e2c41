use studiobridge::client::{
    after_failed_get, classify_failure, daemon_error_message, retryable_get_error, DaemonErrorKind,
    RequestFailure, GET_ATTEMPTS,
};

fn failure(connect: bool, timeout: bool, status: Option<u16>, decode: bool) -> RequestFailure {
    RequestFailure { connect, timeout, status, decode }
}

#[test]
fn offline_refusal_has_stable_classification_and_diagnostic() {
    let kind = classify_failure(failure(true, false, None, false));
    assert_eq!(kind, DaemonErrorKind::Offline);
    assert_eq!(
        daemon_error_message(kind),
        "StudioBridge daemon is offline on localhost"
    );
}

#[test]
fn failures_are_classified_in_priority_order() {
    assert_eq!(classify_failure(failure(false, true, Some(500), true)), DaemonErrorKind::Timeout);
    assert_eq!(
        classify_failure(failure(false, false, Some(503), true)),
        DaemonErrorKind::HttpStatus(503)
    );
    assert_eq!(
        classify_failure(failure(false, false, None, true)),
        DaemonErrorKind::InvalidResponse
    );
    assert_eq!(classify_failure(failure(false, false, None, false)), DaemonErrorKind::Transport);
}

#[test]
fn messages_name_each_failure() {
    assert_eq!(
        daemon_error_message(DaemonErrorKind::Timeout),
        "StudioBridge daemon request timed out"
    );
    assert_eq!(
        daemon_error_message(DaemonErrorKind::HttpStatus(404)),
        "StudioBridge daemon returned HTTP 404"
    );
    assert_eq!(
        daemon_error_message(DaemonErrorKind::InvalidResponse),
        "StudioBridge daemon returned an invalid JSON response"
    );
    assert_eq!(
        daemon_error_message(DaemonErrorKind::Transport),
        "StudioBridge daemon transport failed"
    );
}

#[test]
fn only_gateway_statuses_refusals_and_allowed_timeouts_are_retried() {
    assert!(retryable_get_error(failure(true, false, None, false), false));
    assert!(retryable_get_error(failure(false, true, None, false), true));
    assert!(!retryable_get_error(failure(false, true, None, false), false));
    assert!(retryable_get_error(failure(false, false, Some(502), false), false));
    assert!(retryable_get_error(failure(false, false, Some(504), false), false));
    assert!(!retryable_get_error(failure(false, false, Some(500), false), false));
    assert!(!retryable_get_error(failure(false, false, Some(505), false), false));
    assert!(!retryable_get_error(failure(false, false, None, true), true));
}

#[test]
fn a_read_is_retried_once_at_most() {
    let refused = failure(true, false, None, false);
    assert_eq!(after_failed_get(0, refused, false), None);
    assert_eq!(after_failed_get(GET_ATTEMPTS - 1, refused, false), Some(DaemonErrorKind::Offline));
    let timeout = failure(false, true, None, false);
    assert_eq!(after_failed_get(0, timeout, false), Some(DaemonErrorKind::Timeout));
    assert_eq!(after_failed_get(0, timeout, true), None);
    let bad_json = failure(false, false, None, true);
    assert_eq!(after_failed_get(0, bad_json, true), Some(DaemonErrorKind::InvalidResponse));
    let server_error = failure(false, false, Some(500), false);
    assert_eq!(after_failed_get(0, server_error, true), Some(DaemonErrorKind::HttpStatus(500)));
}
