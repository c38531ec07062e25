use chrome_devtools_cli::daemon::{
    derive_lock_wait_timeout, next_backoff_ms, timeout_secs, LOCK_WAIT_CEILING_NANOS,
};
use std::time::Duration;
use chrome_devtools_cli::daemon::{
    connect_failure_response, failure_response, invalid_request_response, jitter_ms, owns_pid_file,
    response_is_fatal, success_response,
};
use chrome_devtools_cli::result::CommandResult;

#[test]
fn test_lock_wait_stays_shorter_than_every_client_deadline() {
    for secs in [1_u64, 2, 3, 5, 10, 60, 3600] {
        let client = Duration::from_secs(secs);
        let lock = Duration::from_nanos(derive_lock_wait_timeout(client.as_nanos()) as u64);
        assert!(lock < client, "lock wait {lock:?} must be shorter than client deadline {client:?}");
        assert!(lock.as_nanos() <= LOCK_WAIT_CEILING_NANOS);
    }
    assert_eq!(derive_lock_wait_timeout(Duration::ZERO.as_nanos()), 0);
}

#[test]
fn lock_wait_is_half_the_budget_up_to_the_ceiling() {
    assert_eq!(derive_lock_wait_timeout(Duration::from_secs(3).as_nanos()), 1_500_000_000);
    assert_eq!(derive_lock_wait_timeout(Duration::from_secs(10).as_nanos()), 2_000_000_000);
}

#[test]
fn timeouts_and_backoff() {
    assert_eq!(timeout_secs(Some("12"), 5), 12);
    assert_eq!(timeout_secs(Some("abc"), 5), 5);
    assert_eq!(timeout_secs(None, 5), 5);
    assert_eq!(next_backoff_ms(10), 20);
    assert_eq!(next_backoff_ms(400), 500);
}


#[test]
fn pid_file_ownership() {
    assert!(owns_pid_file(Some("123\n"), 123));
    assert!(!owns_pid_file(Some("124"), 123));
    assert!(!owns_pid_file(Some("x"), 123));
    assert!(!owns_pid_file(None, 123));
}

#[test]
fn daemon_replies() {
    let ok = success_response(CommandResult::output("hi").with_navigated_to("https://a").with_error_code(4));
    assert!(ok.success);
    assert_eq!(ok.output, "hi");
    assert_eq!(ok.error, "");
    assert_eq!(ok.navigated_to.as_deref(), Some("https://a"));
    assert_eq!(ok.error_code, Some(4));
    let bad = invalid_request_response("EOF while parsing");
    assert_eq!(bad.error, "Invalid request: EOF while parsing");
    assert_eq!(bad.error_code, Some(7));
    let down = connect_failure_response("refused");
    assert_eq!(down.error, "Failed to connect to Chrome: refused");
    assert_eq!(down.error_code, Some(2));
    assert!(!response_is_fatal(&down));
    assert!(response_is_fatal(&failure_response("WebSocket closed by server".to_string(), None)));
    assert!(!response_is_fatal(&failure_response("No page at index 3".to_string(), Some(3))));
}

#[test]
fn jitter_stays_within_the_delay() {
    assert_eq!(jitter_ms(123_456_789, 100), 123_456_789 % 101);
    assert_eq!(jitter_ms(5, 0), 0);
}
