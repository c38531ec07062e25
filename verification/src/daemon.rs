//! The daemon's decisions: how long to wait for the startup lock, whether a
//! pid file is its own, which replies end it, and how replies are built.
use crate::protocol::DaemonResponse;
use crate::result::CommandResult;
use crate::text::{contains_seq, owned, parse_bounded, parse_u64_max, push_str, str_contains, string_from_chars, trim, trim_chars};
use vstd::prelude::*;

verus! {

/// The longest the daemon waits for the startup lock: 2 s, in nanoseconds.
pub const LOCK_WAIT_CEILING_NANOS: u128 = 2_000_000_000u128;

/// How long startup waits for the daemon-file lock, given the client's own
/// wait budget (both in nanoseconds): half the budget, at most 2 s. The
/// wait stays strictly inside any non-zero client deadline, so a daemon
/// never binds just as the client gives up.
pub fn derive_lock_wait_timeout(client_timeout_nanos: u128) -> (r: u128)
    ensures
        r == (if client_timeout_nanos / 2 < LOCK_WAIT_CEILING_NANOS {
            client_timeout_nanos / 2
        } else {
            LOCK_WAIT_CEILING_NANOS
        }),
        client_timeout_nanos > 0 ==> r < client_timeout_nanos,
        r <= LOCK_WAIT_CEILING_NANOS,
        client_timeout_nanos == 0 ==> r == 0,
{
    let half = client_timeout_nanos / 2;
    if half < LOCK_WAIT_CEILING_NANOS {
        half
    } else {
        LOCK_WAIT_CEILING_NANOS
    }
}

/// A timeout in seconds from an environment value: the value when it
/// parses as a `u64`, else the default.
pub fn timeout_secs(raw: Option<&str>, default_secs: u64) -> (r: u64)
    ensures
        r == (match raw {
            Some(s) => match parse_bounded(s@, u64::MAX as nat) {
                Some(n) => n as u64,
                None => default_secs,
            },
            None => default_secs,
        }),
{
    match raw {
        Some(s) => {
            let c = crate::text::chars_of(s);
            match parse_u64_max(c.as_slice(), u64::MAX) {
                Some(n) => n,
                None => default_secs,
            }
        },
        None => default_secs,
    }
}

/// A pid file names process `pid` when its trimmed text parses as that
/// `u32`; an unreadable file (`None`) names no one.
pub fn owns_pid_file(contents: Option<&str>, pid: u32) -> (b: bool)
    ensures
        b == (match contents {
            Some(s) => parse_bounded(trim(s@), u32::MAX as nat) == Some(pid as nat),
            None => false,
        }),
{
    match contents {
        Some(s) => {
            let c = crate::text::chars_of(s);
            let t = trim_chars(c.as_slice());
            match parse_u64_max(t.as_slice(), u32::MAX as u64) {
                Some(n) => n == pid as u64,
                None => false,
            }
        },
        None => false,
    }
}

/// The reply to a request that succeeded.
pub fn success_response(result: CommandResult) -> (r: DaemonResponse)
    ensures
        r.success,
        r.output@ == result.output@,
        r.error@ == Seq::<char>::empty(),
        r.navigated_to == result.navigated_to,
        r.error_code == result.error_code,
{
    DaemonResponse {
        success: true,
        output: result.output,
        error: String::new(),
        navigated_to: result.navigated_to,
        error_code: result.error_code,
    }
}

/// The reply to a request that failed with `error`.
pub fn failure_response(error: String, error_code: Option<u32>) -> (r: DaemonResponse)
    ensures
        !r.success,
        r.output@ == Seq::<char>::empty(),
        r.error@ == error@,
        r.navigated_to is None,
        r.error_code == error_code,
{
    DaemonResponse { success: false, output: String::new(), error, navigated_to: None, error_code }
}

/// The reply to a request that could not be decoded: `Invalid request: …`
/// with the invalid-input code.
pub fn invalid_request_response(detail: &str) -> (r: DaemonResponse)
    ensures
        !r.success,
        r.error@ == "Invalid request: "@ + detail@,
        r.error_code == Some(7u32),
        r.navigated_to is None,
        r.output@ == Seq::<char>::empty(),
{
    let mut v: Vec<char> = Vec::new();
    push_str(&mut v, "Invalid request: ");
    push_str(&mut v, detail);
    failure_response(string_from_chars(v.as_slice()), Some(7))
}

/// The reply when the browser cannot be reached: `Failed to connect to
/// Chrome: …` with the connection code.
pub fn connect_failure_response(detail: &str) -> (r: DaemonResponse)
    ensures
        !r.success,
        r.error@ == "Failed to connect to Chrome: "@ + detail@,
        r.error_code == Some(2u32),
        r.navigated_to is None,
        r.output@ == Seq::<char>::empty(),
{
    let mut v: Vec<char> = Vec::new();
    push_str(&mut v, "Failed to connect to Chrome: ");
    push_str(&mut v, detail);
    failure_response(string_from_chars(v.as_slice()), Some(2))
}

/// A failed reply whose error says the WebSocket went away ends the
/// daemon, so that the next command starts a fresh one.
pub open spec fn fatal_spec(r: DaemonResponse) -> bool {
    !r.success && (contains_seq(r.error@, "WebSocket closed"@) || contains_seq(
        r.error@,
        "WebSocket connection closed"@,
    ) || contains_seq(r.error@, "WebSocket error"@))
}

/// See `fatal_spec`.
pub fn response_is_fatal(r: &DaemonResponse) -> (b: bool)
    ensures
        b == fatal_spec(*r),
{
    !r.success && (str_contains(r.error.as_str(), "WebSocket closed") || str_contains(
        r.error.as_str(),
        "WebSocket connection closed",
    ) || str_contains(r.error.as_str(), "WebSocket error"))
}

/// The next delay while waiting for a daemon to come up: doubled, at most
/// 500 ms.
pub fn next_backoff_ms(delay_ms: u64) -> (r: u64)
    requires
        delay_ms <= u64::MAX / 2,
    ensures
        r == (if 2 * delay_ms < 500 {
            2 * delay_ms
        } else {
            500
        }),
{
    let d = delay_ms * 2;
    if d < 500 {
        d
    } else {
        500
    }
}

/// The jitter added to a delay, drawn from the clock's sub-second
/// nanoseconds: at most the delay itself.
pub fn jitter_ms(subsec_nanos: u32, delay_ms: u64) -> (r: u64)
    requires
        delay_ms < u64::MAX,
    ensures
        r == (subsec_nanos as int) % (delay_ms as int + 1),
        r <= delay_ms,
{
    (subsec_nanos as u64) % (delay_ms + 1)
}

} // verus!
