//! The command line's own decisions: the commands and their names, how a
//! reply is printed, the exit code, and what `kill-daemon` requires of a pid
//! before it signals a process.
use crate::commands::executor::browser_level_spec;
use crate::text::{dec, owned, parse_bounded, parse_u64_max, push_all, push_str, string_from_chars, trim, trim_chars, u64_dec};
use vstd::prelude::*;

verus! {

/// The subcommands.
#[derive(Clone, Copy, Debug, PartialEq, Eq, Structural)]
pub enum CommandKind {
    ListPages,
    Navigate,
    NewPage,
    ClosePage,
    SelectPage,
    Screenshot,
    Evaluate,
    Click,
    ClickAt,
    Fill,
    TypeText,
    PressKey,
    Hover,
    Snapshot,
    Emulate,
    WaitFor,
    List3pTools,
    Execute3pTool,
    Console,
    Network,
    SwLogs,
    KillDaemon,
}

/// The name each subcommand goes by (on the command line, in requests and
/// in logs).
pub open spec fn kind_name(k: CommandKind) -> Seq<char> {
    match k {
        CommandKind::ListPages => "list-pages"@,
        CommandKind::Navigate => "navigate"@,
        CommandKind::NewPage => "new-page"@,
        CommandKind::ClosePage => "close-page"@,
        CommandKind::SelectPage => "select-page"@,
        CommandKind::Screenshot => "screenshot"@,
        CommandKind::Evaluate => "evaluate"@,
        CommandKind::Click => "click"@,
        CommandKind::ClickAt => "click-at"@,
        CommandKind::Fill => "fill"@,
        CommandKind::TypeText => "type-text"@,
        CommandKind::PressKey => "press-key"@,
        CommandKind::Hover => "hover"@,
        CommandKind::Snapshot => "snapshot"@,
        CommandKind::Emulate => "emulate"@,
        CommandKind::WaitFor => "wait-for"@,
        CommandKind::List3pTools => "list-3p-tools"@,
        CommandKind::Execute3pTool => "execute-3p-tool"@,
        CommandKind::Console => "console"@,
        CommandKind::Network => "network"@,
        CommandKind::SwLogs => "sw-logs"@,
        CommandKind::KillDaemon => "kill-daemon"@,
    }
}

/// The subcommands that need no page.
pub open spec fn kind_browser_level(k: CommandKind) -> bool {
    k == CommandKind::ListPages || k == CommandKind::NewPage || k == CommandKind::SwLogs || k
        == CommandKind::KillDaemon
}

impl CommandKind {
    /// See `kind_name`.
    pub fn name(self) -> (r: &'static str)
        ensures
            r@ == kind_name(self),
    {
        match self {
            CommandKind::ListPages => "list-pages",
            CommandKind::Navigate => "navigate",
            CommandKind::NewPage => "new-page",
            CommandKind::ClosePage => "close-page",
            CommandKind::SelectPage => "select-page",
            CommandKind::Screenshot => "screenshot",
            CommandKind::Evaluate => "evaluate",
            CommandKind::Click => "click",
            CommandKind::ClickAt => "click-at",
            CommandKind::Fill => "fill",
            CommandKind::TypeText => "type-text",
            CommandKind::PressKey => "press-key",
            CommandKind::Hover => "hover",
            CommandKind::Snapshot => "snapshot",
            CommandKind::Emulate => "emulate",
            CommandKind::WaitFor => "wait-for",
            CommandKind::List3pTools => "list-3p-tools",
            CommandKind::Execute3pTool => "execute-3p-tool",
            CommandKind::Console => "console",
            CommandKind::Network => "network",
            CommandKind::SwLogs => "sw-logs",
            CommandKind::KillDaemon => "kill-daemon",
        }
    }

    /// Whether the subcommand needs no page.
    pub fn is_browser_level(self) -> (b: bool)
        ensures
            b == kind_browser_level(self),
    {
        match self {
            CommandKind::ListPages | CommandKind::NewPage | CommandKind::SwLogs | CommandKind::KillDaemon => true,
            _ => false,
        }
    }
}

/// The command line and the daemon agree on which commands need no page:
/// a subcommand is browser-level exactly when the daemon treats its name as
/// browser-level.
pub proof fn lemma_browser_level_agrees(k: CommandKind)
    ensures
        kind_browser_level(k) == browser_level_spec(kind_name(k)),
{
    reveal_strlit("list-pages");
    reveal_strlit("new-page");
    reveal_strlit("sw-logs");
    reveal_strlit("kill-daemon");
    reveal_strlit("navigate");
    reveal_strlit("close-page");
    reveal_strlit("select-page");
    reveal_strlit("screenshot");
    reveal_strlit("evaluate");
    reveal_strlit("click");
    reveal_strlit("click-at");
    reveal_strlit("fill");
    reveal_strlit("type-text");
    reveal_strlit("press-key");
    reveal_strlit("hover");
    reveal_strlit("snapshot");
    reveal_strlit("emulate");
    reveal_strlit("wait-for");
    reveal_strlit("list-3p-tools");
    reveal_strlit("execute-3p-tool");
    reveal_strlit("console");
    reveal_strlit("network");
    match k {
        CommandKind::ListPages | CommandKind::NewPage | CommandKind::SwLogs | CommandKind::KillDaemon => {},
        CommandKind::Navigate => {
            assert(kind_name(k)[0] != "list-pages"@[0]);
            assert(kind_name(k)[0] != "new-page"@[0] || kind_name(k)[1] != "new-page"@[1]);
            assert(kind_name(k)[0] != "sw-logs"@[0]);
            assert(kind_name(k)[0] != "kill-daemon"@[0]);
        },
        CommandKind::ClosePage | CommandKind::Click | CommandKind::ClickAt | CommandKind::Console => {
            assert(kind_name(k)[0] != "list-pages"@[0]);
            assert(kind_name(k)[0] != "new-page"@[0]);
            assert(kind_name(k)[0] != "sw-logs"@[0]);
            assert(kind_name(k)[0] != "kill-daemon"@[0]);
        },
        CommandKind::SelectPage | CommandKind::Screenshot | CommandKind::Snapshot => {
            assert(kind_name(k)[0] != "list-pages"@[0]);
            assert(kind_name(k)[0] != "new-page"@[0]);
            assert(kind_name(k)[1] != "sw-logs"@[1]);
            assert(kind_name(k)[0] != "kill-daemon"@[0]);
        },
        CommandKind::List3pTools => {
            assert(kind_name(k)[5] != "list-pages"@[5]);
            assert(kind_name(k)[0] != "new-page"@[0]);
            assert(kind_name(k)[0] != "sw-logs"@[0]);
            assert(kind_name(k)[0] != "kill-daemon"@[0]);
        },
        CommandKind::Network => {
            assert(kind_name(k)[0] != "list-pages"@[0]);
            assert(kind_name(k)[2] != "new-page"@[2]);
            assert(kind_name(k)[0] != "sw-logs"@[0]);
            assert(kind_name(k)[0] != "kill-daemon"@[0]);
        },
        _ => {
            assert(kind_name(k)[0] != "list-pages"@[0]);
            assert(kind_name(k)[0] != "new-page"@[0]);
            assert(kind_name(k)[0] != "sw-logs"@[0]);
            assert(kind_name(k)[0] != "kill-daemon"@[0]);
        },
    }
}

// ---------------------------------------------------------------------
// Printing a reply
// ---------------------------------------------------------------------

/// What a reply prints: its output on standard output (with a final line
/// break added when it lacks one; nothing at all when empty), and on
/// standard error a note per page it navigated to or ran against.
pub struct PrintedReply {
    pub stdout: String,
    pub stderr: String,
}

pub open spec fn stdout_spec(output: Seq<char>) -> Seq<char> {
    if output.len() == 0 {
        Seq::empty()
    } else if output.last() == '\n' {
        output
    } else {
        output.push('\n')
    }
}

pub open spec fn stderr_spec(navigated_to: Option<Seq<char>>, target_id: Option<Seq<char>>) -> Seq<char> {
    (match navigated_to {
        Some(u) => "[navigated to: "@ + u + "]\n"@,
        None => Seq::empty(),
    }) + (match target_id {
        Some(t) => "[target: "@ + t + "]\n"@,
        None => Seq::empty(),
    })
}

/// See `PrintedReply`.
pub fn render_reply(output: &str, navigated_to: Option<&str>, target_id: Option<&str>) -> (r: PrintedReply)
    ensures
        r.stdout@ == stdout_spec(output@),
        r.stderr@ == stderr_spec(
            match navigated_to {
                Some(u) => Some(u@),
                None => None,
            },
            match target_id {
                Some(t) => Some(t@),
                None => None,
            },
        ),
{
    let mut o = crate::text::chars_of(output);
    if o.len() > 0 && o[o.len() - 1] != '\n' {
        o.push('\n');
    }
    let mut e: Vec<char> = Vec::new();
    match navigated_to {
        Some(u) => {
            push_str(&mut e, "[navigated to: ");
            push_str(&mut e, u);
            push_str(&mut e, "]\n");
        },
        None => {},
    }
    match target_id {
        Some(t) => {
            push_str(&mut e, "[target: ");
            push_str(&mut e, t);
            push_str(&mut e, "]\n");
        },
        None => {},
    }
    proof {
        assert(e@ =~= stderr_spec(
            match navigated_to {
                Some(u) => Some(u@),
                None => None,
            },
            match target_id {
                Some(t) => Some(t@),
                None => None,
            },
        ));
    }
    PrintedReply { stdout: string_from_chars(o.as_slice()), stderr: string_from_chars(e.as_slice()) }
}

/// The process exit status of a failed reply: its error code (as the
/// platform's `i32`), or 1 without one.
pub fn failure_exit_code(error_code: Option<u32>) -> (r: i32)
    ensures
        r == (match error_code {
            Some(c) => c as i32,
            None => 1i32,
        }),
{
    match error_code {
        Some(c) => c as i32,
        None => 1,
    }
}

// ---------------------------------------------------------------------
// kill-daemon
// ---------------------------------------------------------------------

/// Why a pid read from a pid file is not signalled.
#[derive(Clone, Copy, Debug, PartialEq, Eq, Structural)]
pub enum KillPidError {
    /// The trimmed text is not a `u32`.
    Invalid,
    /// Pid 0 would signal the whole process group.
    Zero,
    /// The pid does not fit the platform's signed pid type.
    TooLarge(u32),
}

/// The pid to signal, from the pid file's text: its trimmed text as a
/// `u32`, neither 0 nor beyond `i32`.
pub fn parse_kill_pid(contents: &str) -> (r: Result<i32, KillPidError>)
    ensures
        match parse_bounded(trim(contents@), u32::MAX as nat) {
            None => r == Err::<i32, KillPidError>(KillPidError::Invalid),
            Some(p) => if p == 0 {
                r == Err::<i32, KillPidError>(KillPidError::Zero)
            } else if p > i32::MAX {
                r == Err::<i32, KillPidError>(KillPidError::TooLarge(p as u32))
            } else {
                r == Ok::<i32, KillPidError>(p as i32)
            },
        },
{
    let c = crate::text::chars_of(contents);
    let t = trim_chars(c.as_slice());
    match parse_u64_max(t.as_slice(), u32::MAX as u64) {
        None => Err(KillPidError::Invalid),
        Some(p) => {
            if p == 0 {
                Err(KillPidError::Zero)
            } else if p > i32::MAX as u64 {
                Err(KillPidError::TooLarge(p as u32))
            } else {
                Ok(p as i32)
            }
        },
    }
}

impl KillPidError {
    /// The message, naming the pid file at `path`.
    pub fn message(&self, path: &str) -> (r: String)
        ensures
            r@ == (match *self {
                KillPidError::Invalid => "Invalid PID in "@ + path@,
                KillPidError::Zero => "PID in "@ + path@ + " is 0; refusing to signal"@,
                KillPidError::TooLarge(p) => "PID "@ + dec(p as nat) + " in "@ + path@
                    + " exceeds libc::pid_t; refusing to signal"@,
            }),
    {
        let mut v: Vec<char> = Vec::new();
        match self {
            KillPidError::Invalid => {
                push_str(&mut v, "Invalid PID in ");
                push_str(&mut v, path);
            },
            KillPidError::Zero => {
                push_str(&mut v, "PID in ");
                push_str(&mut v, path);
                push_str(&mut v, " is 0; refusing to signal");
            },
            KillPidError::TooLarge(p) => {
                push_str(&mut v, "PID ");
                let d = u64_dec(*p as u64);
                push_all(&mut v, d.as_slice());
                push_str(&mut v, " in ");
                push_str(&mut v, path);
                push_str(&mut v, " exceeds libc::pid_t; refusing to signal");
            },
        }
        proof {
            assert(v@ =~= (match *self {
                KillPidError::Invalid => "Invalid PID in "@ + path@,
                KillPidError::Zero => "PID in "@ + path@ + " is 0; refusing to signal"@,
                KillPidError::TooLarge(p) => "PID "@ + dec(p as nat) + " in "@ + path@
                    + " exceeds libc::pid_t; refusing to signal"@,
            }));
        }
        string_from_chars(v.as_slice())
    }
}

/// What came of signalling the daemon.
#[derive(Clone, Copy, Debug, PartialEq, Eq, Structural)]
pub enum SignalOutcome {
    /// The signal was delivered.
    Delivered,
    /// No such process: the pid file was stale.
    NotRunning,
    /// Any other failure (the daemon may still run).
    Failed,
}

/// What `kill-daemon` does after signalling pid `pid`: whether it removes
/// the daemon's files, and the message (an error for a failed signal,
/// whose text `os_error` describes, leaving the files in place).
pub struct KillReport {
    pub remove_files: bool,
    pub is_error: bool,
    pub message: String,
}

/// See `KillReport`.
pub fn kill_report(pid: u32, outcome: SignalOutcome, os_error: &str) -> (r: KillReport)
    ensures
        r.remove_files == (outcome != SignalOutcome::Failed),
        r.is_error == (outcome == SignalOutcome::Failed),
        r.message@ == (match outcome {
            SignalOutcome::Delivered => "Daemon (PID "@ + dec(pid as nat) + ") stopped."@,
            SignalOutcome::NotRunning => "Daemon (PID "@ + dec(pid as nat)
                + ") was not running. Cleaned up stale files."@,
            SignalOutcome::Failed => "Failed to signal daemon (PID "@ + dec(pid as nat) + "): "@ + os_error@
                + ". Left socket/PID files in place."@,
        }),
{
    let mut v: Vec<char> = Vec::new();
    let d = u64_dec(pid as u64);
    match outcome {
        SignalOutcome::Delivered => {
            push_str(&mut v, "Daemon (PID ");
            push_all(&mut v, d.as_slice());
            push_str(&mut v, ") stopped.");
        },
        SignalOutcome::NotRunning => {
            push_str(&mut v, "Daemon (PID ");
            push_all(&mut v, d.as_slice());
            push_str(&mut v, ") was not running. Cleaned up stale files.");
        },
        SignalOutcome::Failed => {
            push_str(&mut v, "Failed to signal daemon (PID ");
            push_all(&mut v, d.as_slice());
            push_str(&mut v, "): ");
            push_str(&mut v, os_error);
            push_str(&mut v, ". Left socket/PID files in place.");
        },
    }
    proof {
        assert(v@ =~= (match outcome {
            SignalOutcome::Delivered => "Daemon (PID "@ + dec(pid as nat) + ") stopped."@,
            SignalOutcome::NotRunning => "Daemon (PID "@ + dec(pid as nat)
                + ") was not running. Cleaned up stale files."@,
            SignalOutcome::Failed => "Failed to signal daemon (PID "@ + dec(pid as nat) + "): "@ + os_error@
                + ". Left socket/PID files in place."@,
        }));
    }
    let failed = match outcome {
        SignalOutcome::Failed => true,
        _ => false,
    };
    KillReport { remove_files: !failed, is_error: failed, message: string_from_chars(v.as_slice()) }
}


// ---------------------------------------------------------------------
// Reaching the daemon
// ---------------------------------------------------------------------

/// Where the command line is in reaching the daemon.
#[derive(Clone, Copy, Debug, PartialEq, Eq, Structural)]
pub enum LaunchStage {
    /// The first request to a daemon that may already run.
    FirstTry,
    /// No daemon answered; one is being started.
    Spawning,
    /// A daemon was started; waiting for it to listen.
    Waiting,
    /// The request sent again, to the new daemon.
    Retry,
}

/// What just happened.
#[derive(Clone, Copy, Debug, PartialEq, Eq, Structural)]
pub enum LaunchEvent {
    /// The daemon answered the request.
    Answered,
    /// The daemon could not be reached.
    Unreachable,
    /// Starting the daemon process failed.
    SpawnFailed,
    /// The daemon process was started.
    Spawned,
    /// The new daemon listens.
    Ready,
    /// The new daemon did not come up in time.
    NotReady,
}

/// What to do next.
#[derive(Clone, Copy, Debug, PartialEq, Eq, Structural)]
pub enum LaunchAction {
    /// Print the daemon's answer; done.
    PrintAnswer,
    /// Start a daemon process.
    SpawnDaemon,
    /// Wait for the daemon to listen.
    WaitForDaemon,
    /// Send the request (again).
    SendRequest,
    /// Run the command in this process instead; done.
    RunDirectly,
    /// Report the failure to start the daemon; done.
    Fail,
}

/// The next stage and action after `event` in `stage`: a daemon is tried
/// first; if none answers one is started, waited for and asked again; if it
/// does not come up, or does not answer either, the command runs in this
/// process. An event that cannot happen in a stage runs the command
/// directly.
pub open spec fn launch_step_spec(stage: LaunchStage, event: LaunchEvent) -> (LaunchStage, LaunchAction) {
    match (stage, event) {
        (LaunchStage::FirstTry, LaunchEvent::Answered) => (LaunchStage::FirstTry, LaunchAction::PrintAnswer),
        (LaunchStage::FirstTry, LaunchEvent::Unreachable) => (LaunchStage::Spawning, LaunchAction::SpawnDaemon),
        (LaunchStage::Spawning, LaunchEvent::Spawned) => (LaunchStage::Waiting, LaunchAction::WaitForDaemon),
        (LaunchStage::Spawning, LaunchEvent::SpawnFailed) => (LaunchStage::Spawning, LaunchAction::Fail),
        (LaunchStage::Waiting, LaunchEvent::Ready) => (LaunchStage::Retry, LaunchAction::SendRequest),
        (LaunchStage::Waiting, LaunchEvent::NotReady) => (LaunchStage::Waiting, LaunchAction::RunDirectly),
        (LaunchStage::Retry, LaunchEvent::Answered) => (LaunchStage::Retry, LaunchAction::PrintAnswer),
        (LaunchStage::Retry, LaunchEvent::Unreachable) => (LaunchStage::Retry, LaunchAction::RunDirectly),
        (s, _) => (s, LaunchAction::RunDirectly),
    }
}

/// One step of reaching the daemon (see `launch_step_spec`).
pub fn launch_step(stage: LaunchStage, event: LaunchEvent) -> (r: (LaunchStage, LaunchAction))
    ensures
        r == launch_step_spec(stage, event),
{
    match (stage, event) {
        (LaunchStage::FirstTry, LaunchEvent::Answered) => (LaunchStage::FirstTry, LaunchAction::PrintAnswer),
        (LaunchStage::FirstTry, LaunchEvent::Unreachable) => (LaunchStage::Spawning, LaunchAction::SpawnDaemon),
        (LaunchStage::Spawning, LaunchEvent::Spawned) => (LaunchStage::Waiting, LaunchAction::WaitForDaemon),
        (LaunchStage::Spawning, LaunchEvent::SpawnFailed) => (LaunchStage::Spawning, LaunchAction::Fail),
        (LaunchStage::Waiting, LaunchEvent::Ready) => (LaunchStage::Retry, LaunchAction::SendRequest),
        (LaunchStage::Waiting, LaunchEvent::NotReady) => (LaunchStage::Waiting, LaunchAction::RunDirectly),
        (LaunchStage::Retry, LaunchEvent::Answered) => (LaunchStage::Retry, LaunchAction::PrintAnswer),
        (LaunchStage::Retry, LaunchEvent::Unreachable) => (LaunchStage::Retry, LaunchAction::RunDirectly),
        (s, _) => (s, LaunchAction::RunDirectly),
    }
}

/// Whether an action ends the attempt to reach the daemon.
pub open spec fn launch_done(a: LaunchAction) -> bool {
    a == LaunchAction::PrintAnswer || a == LaunchAction::RunDirectly || a == LaunchAction::Fail
}

/// The request goes to the daemon at most twice: from the retry stage every
/// event ends the attempt.
pub proof fn lemma_retry_is_last(event: LaunchEvent)
    ensures
        launch_done(launch_step_spec(LaunchStage::Retry, event).1),
{
}

/// A command never runs in this process while a daemon's answer is at hand:
/// an answer is always printed in the stages that send the request.
pub proof fn lemma_answer_is_printed(stage: LaunchStage)
    requires
        stage == LaunchStage::FirstTry || stage == LaunchStage::Retry,
    ensures
        launch_step_spec(stage, LaunchEvent::Answered).1 == LaunchAction::PrintAnswer,
{
}

} // verus!
