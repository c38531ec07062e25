use chrome_devtools_cli::cli::{launch_step, LaunchAction, LaunchEvent, LaunchStage};
use chrome_devtools_cli::cli::{
    failure_exit_code, kill_report, parse_kill_pid, render_reply, CommandKind, KillPidError, SignalOutcome,
};

#[test]
fn daemon_is_tried_then_started_then_retried() {
    let (s, a) = launch_step(LaunchStage::FirstTry, LaunchEvent::Unreachable);
    assert_eq!((s, a), (LaunchStage::Spawning, LaunchAction::SpawnDaemon));
    let (s, a) = launch_step(s, LaunchEvent::Spawned);
    assert_eq!((s, a), (LaunchStage::Waiting, LaunchAction::WaitForDaemon));
    let (s, a) = launch_step(s, LaunchEvent::Ready);
    assert_eq!((s, a), (LaunchStage::Retry, LaunchAction::SendRequest));
    let (_, a) = launch_step(s, LaunchEvent::Unreachable);
    assert_eq!(a, LaunchAction::RunDirectly);
}

#[test]
fn daemon_answers_are_printed_and_failures_fall_back() {
    assert_eq!(launch_step(LaunchStage::FirstTry, LaunchEvent::Answered).1, LaunchAction::PrintAnswer);
    assert_eq!(launch_step(LaunchStage::Retry, LaunchEvent::Answered).1, LaunchAction::PrintAnswer);
    assert_eq!(launch_step(LaunchStage::Waiting, LaunchEvent::NotReady).1, LaunchAction::RunDirectly);
    assert_eq!(launch_step(LaunchStage::Spawning, LaunchEvent::SpawnFailed).1, LaunchAction::Fail);
}


#[test]
fn replies_print_with_a_final_newline_and_notes() {
    let r = render_reply("hello", Some("https://a.example"), Some("T1"));
    assert_eq!(r.stdout, "hello\n");
    assert_eq!(r.stderr, "[navigated to: https://a.example]\n[target: T1]\n");
    let r = render_reply("done\n", None, None);
    assert_eq!(r.stdout, "done\n");
    assert_eq!(r.stderr, "");
    assert_eq!(render_reply("", None, None).stdout, "");
}

#[test]
fn failed_replies_exit_with_their_code() {
    assert_eq!(failure_exit_code(Some(3)), 3);
    assert_eq!(failure_exit_code(None), 1);
}

#[test]
fn kill_daemon_refuses_unsafe_pids() {
    assert_eq!(parse_kill_pid(" 4242\n"), Ok(4242));
    assert_eq!(parse_kill_pid("0"), Err(KillPidError::Zero));
    assert_eq!(parse_kill_pid("abc"), Err(KillPidError::Invalid));
    assert_eq!(parse_kill_pid("4294967295"), Err(KillPidError::TooLarge(4294967295)));
    assert_eq!(KillPidError::Zero.message("/tmp/d.pid"), "PID in /tmp/d.pid is 0; refusing to signal");
    assert_eq!(
        KillPidError::TooLarge(4294967295).message("/tmp/d.pid"),
        "PID 4294967295 in /tmp/d.pid exceeds libc::pid_t; refusing to signal"
    );
}

#[test]
fn kill_daemon_reports() {
    let r = kill_report(77, SignalOutcome::Delivered, "");
    assert!(r.remove_files && !r.is_error);
    assert_eq!(r.message, "Daemon (PID 77) stopped.");
    let r = kill_report(77, SignalOutcome::NotRunning, "");
    assert_eq!(r.message, "Daemon (PID 77) was not running. Cleaned up stale files.");
    let r = kill_report(77, SignalOutcome::Failed, "Operation not permitted");
    assert!(!r.remove_files && r.is_error);
    assert_eq!(r.message, "Failed to signal daemon (PID 77): Operation not permitted. Left socket/PID files in place.");
}

#[test]
fn command_names_and_levels() {
    assert_eq!(CommandKind::ClickAt.name(), "click-at");
    assert_eq!(CommandKind::List3pTools.name(), "list-3p-tools");
    assert!(CommandKind::SwLogs.is_browser_level());
    assert!(!CommandKind::Navigate.is_browser_level());
}
