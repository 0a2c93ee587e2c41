//! How the desktop client classifies failures of its localhost daemon
//! requests, describes them, and decides when a read may be retried.
use vstd::prelude::*;
use crate::text::{decimal, decimal_string, push_str};

verus! {

/// The category of a failed daemon request.
#[derive(Debug, Clone, Copy, PartialEq, Eq, Structural)]
pub enum DaemonErrorKind {
    Offline,
    Timeout,
    HttpStatus(u16),
    InvalidResponse,
    Transport,
}

/// What an HTTP client reports about a failed request.
#[derive(Debug, Clone, Copy, PartialEq, Eq, Structural)]
pub struct RequestFailure {
    /// The connection could not be established.
    pub connect: bool,
    /// The request timed out.
    pub timeout: bool,
    /// The HTTP status of an error response.
    pub status: Option<u16>,
    /// The response body could not be decoded.
    pub decode: bool,
}

/// What the daemon's health endpoint reports about its runtime.
#[derive(Debug, Clone, PartialEq, Eq)]
pub struct RuntimeHealth {
    pub ok: bool,
    pub studio_mode: String,
    pub mixer_mode: String,
    pub hardware_writes_enabled: bool,
    pub link_control_enabled: bool,
    pub dsp_write_modules: Vec<String>,
    pub dsp_write_active_module: Option<String>,
    pub dsp_write_lease_seconds: Option<u64>,
}

/// The category of a failure: connection first, then timeout, HTTP status
/// and decoding; anything else is a transport failure.
pub open spec fn kind_of_failure(f: RequestFailure) -> DaemonErrorKind {
    if f.connect {
        DaemonErrorKind::Offline
    } else if f.timeout {
        DaemonErrorKind::Timeout
    } else if f.status is Some {
        DaemonErrorKind::HttpStatus(f.status->0)
    } else if f.decode {
        DaemonErrorKind::InvalidResponse
    } else {
        DaemonErrorKind::Transport
    }
}

pub fn classify_failure(failure: RequestFailure) -> (r: DaemonErrorKind)
    ensures
        r == kind_of_failure(failure),
{
    if failure.connect {
        DaemonErrorKind::Offline
    } else if failure.timeout {
        DaemonErrorKind::Timeout
    } else {
        match failure.status {
            Some(status) => DaemonErrorKind::HttpStatus(status),
            None => if failure.decode {
                DaemonErrorKind::InvalidResponse
            } else {
                DaemonErrorKind::Transport
            },
        }
    }
}

/// A read is retried after a refused connection, after a timeout when the
/// caller allows it, and after a gateway status (502 to 504).
pub fn retryable_get_error(failure: RequestFailure, retry_timeouts: bool) -> (r: bool)
    ensures
        r == (failure.connect || (retry_timeouts && failure.timeout) || (failure.status matches Some(
            s,
        ) && 502 <= s <= 504)),
{
    let gateway = match failure.status {
        Some(status) => 502 <= status && status <= 504,
        None => false,
    };
    failure.connect || (retry_timeouts && failure.timeout) || gateway
}

/// Whether a failed read may be sent again: after a refused connection,
/// after a timeout when the caller allows it, and after a gateway status.
pub open spec fn retryable(failure: RequestFailure, retry_timeouts: bool) -> bool {
    failure.connect || (retry_timeouts && failure.timeout) || (failure.status matches Some(s) && 502
        <= s <= 504)
}

/// What follows the failure of attempt `attempt`: `None` to send the read
/// again, else the kind of error it ends with.
pub open spec fn get_decision(attempt: nat, failure: RequestFailure, retry_timeouts: bool) -> Option<
    DaemonErrorKind,
> {
    if attempt + 1 < GET_ATTEMPTS && retryable(failure, retry_timeouts) {
        None
    } else {
        Some(kind_of_failure(failure))
    }
}

/// A whole read from attempt `attempt` on, when the daemon answers the
/// attempts with `replies` (`None` for a decoded answer, else the failure):
/// how many requests are sent and how the read ends.
pub open spec fn read_run(replies: Seq<Option<RequestFailure>>, attempt: nat, retry_timeouts: bool) -> (
    nat,
    Result<(), DaemonErrorKind>,
)
    decreases replies.len() - attempt,
{
    if attempt >= replies.len() {
        (attempt, Err(DaemonErrorKind::Transport))
    } else {
        match replies[attempt as int] {
            None => (attempt + 1, Ok(())),
            Some(failure) => match get_decision(attempt, failure, retry_timeouts) {
                Some(kind) => (attempt + 1, Err(kind)),
                None => read_run(replies, attempt + 1, retry_timeouts),
            },
        }
    }
}

/// A read is bounded and retried at most once: whatever the daemon answers
/// (at least `GET_ATTEMPTS` replies on hand), at most `GET_ATTEMPTS`
/// requests are sent; a second only after a retryable failure of the first;
/// and a read that fails ends with the kind of its last failure.
pub proof fn lemma_read_is_bounded(replies: Seq<Option<RequestFailure>>, retry_timeouts: bool)
    requires
        replies.len() >= GET_ATTEMPTS,
    ensures
        1 <= read_run(replies, 0, retry_timeouts).0 <= GET_ATTEMPTS,
        read_run(replies, 0, retry_timeouts).0 == 2 <==> (replies[0] matches Some(f) && retryable(
            f,
            retry_timeouts,
        )),
        read_run(replies, 0, retry_timeouts).1 matches Err(kind) ==> (replies[read_run(
            replies,
            0,
            retry_timeouts,
        ).0 - 1] matches Some(f) && kind == kind_of_failure(f)),
        read_run(replies, 0, retry_timeouts).1 is Ok <==> (replies[read_run(
            replies,
            0,
            retry_timeouts,
        ).0 - 1] is None),
{
    reveal_with_fuel(read_run, 3);
}

/// A read is sent at most this many times.
pub const GET_ATTEMPTS: u32 = 2;

/// What follows a failed read attempt (counted from 0): `None` to send it
/// again, while an attempt is left and the failure is retryable; otherwise
/// the kind of error the read ends with. So a read is never sent more than
/// `GET_ATTEMPTS` times.
pub fn after_failed_get(attempt: u32, failure: RequestFailure, retry_timeouts: bool) -> (r: Option<DaemonErrorKind>)
    requires
        attempt < GET_ATTEMPTS,
    ensures
        r == get_decision(attempt as nat, failure, retry_timeouts),
        r is None <==> (attempt + 1 < GET_ATTEMPTS && (failure.connect || (retry_timeouts && failure.timeout)
            || (failure.status matches Some(s) && 502 <= s <= 504))),
        r is Some ==> r == Some(kind_of_failure(failure)),
        attempt + 1 == GET_ATTEMPTS ==> r is Some,
{
    if attempt + 1 < GET_ATTEMPTS && retryable_get_error(failure, retry_timeouts) {
        None
    } else {
        Some(classify_failure(failure))
    }
}

/// The message of a failed request.
pub open spec fn daemon_error_text(kind: DaemonErrorKind) -> Seq<char> {
    match kind {
        DaemonErrorKind::Offline => "StudioBridge daemon is offline on localhost"@,
        DaemonErrorKind::Timeout => "StudioBridge daemon request timed out"@,
        DaemonErrorKind::HttpStatus(s) => "StudioBridge daemon returned HTTP "@ + decimal(
            s as nat,
        ),
        DaemonErrorKind::InvalidResponse => "StudioBridge daemon returned an invalid JSON response"@,
        DaemonErrorKind::Transport => "StudioBridge daemon transport failed"@,
    }
}

pub fn daemon_error_message(kind: DaemonErrorKind) -> (r: String)
    ensures
        r@ == daemon_error_text(kind),
{
    match kind {
        DaemonErrorKind::Offline => String::from_str("StudioBridge daemon is offline on localhost"),
        DaemonErrorKind::Timeout => String::from_str("StudioBridge daemon request timed out"),
        DaemonErrorKind::HttpStatus(status) => {
            let mut text = String::from_str("StudioBridge daemon returned HTTP ");
            let digits = decimal_string(status as u64);
            push_str(&mut text, digits.as_str());
            text
        },
        DaemonErrorKind::InvalidResponse => String::from_str(
            "StudioBridge daemon returned an invalid JSON response",
        ),
        DaemonErrorKind::Transport => String::from_str("StudioBridge daemon transport failed"),
    }
}

} // verus!
