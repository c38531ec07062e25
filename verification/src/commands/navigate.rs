//! Navigation: which move a `navigate` request asks for, which history entry
//! a step back or forward lands on, and what each move reports.
use crate::result::{opt_view, CommandResult};
use crate::text::{chars_of, concat2, owned, push_str, string_from_chars};
use vstd::prelude::*;

verus! {

/// The move a `navigate` request asks for.
pub enum NavAction {
    Back,
    Forward,
    Reload,
    /// Load this URL.
    Goto(String),
}

pub const URL_REQUIRED: &'static str = "URL required (or use --back, --forward, --reload)";

/// Decides the move: `back` wins over `forward`, which wins over `reload`;
/// with none of them a URL is required.
pub fn nav_action(url: Option<&str>, back: bool, forward: bool, reload: bool) -> (r: Result<
    NavAction,
    String,
>)
    ensures
        back ==> r matches Ok(NavAction::Back),
        !back && forward ==> r matches Ok(NavAction::Forward),
        !back && !forward && reload ==> r matches Ok(NavAction::Reload),
        !back && !forward && !reload ==> match url {
            Some(u) => r matches Ok(NavAction::Goto(g)) && g@ == u@,
            None => r matches Err(e) && e@ == URL_REQUIRED@,
        },
{
    if back {
        Ok(NavAction::Back)
    } else if forward {
        Ok(NavAction::Forward)
    } else if reload {
        Ok(NavAction::Reload)
    } else {
        match url {
            Some(u) => Ok(NavAction::Goto(owned(u))),
            None => Err(owned(URL_REQUIRED)),
        }
    }
}

pub const AT_BEGINNING: &'static str = "Already at the beginning of history";

pub const AT_END: &'static str = "Already at the end of history";

/// The history entry one step back (`forward` false) or forward from
/// `current_index` in a history of `entry_count` entries, or the error when
/// there is none. A negative index has nothing before and nothing after it.
pub open spec fn history_step_spec(current_index: int, entry_count: int, forward: bool) -> Result<
    int,
    Seq<char>,
> {
    if !forward {
        if current_index <= 0 {
            Err(AT_BEGINNING@)
        } else {
            Ok(current_index - 1)
        }
    } else {
        if current_index < 0 || current_index + 1 >= entry_count {
            Err(AT_END@)
        } else {
            Ok(current_index + 1)
        }
    }
}

/// Picks the history entry to go to (see `history_step_spec`).
pub fn history_step(current_index: i64, entry_count: usize, forward: bool) -> (r: Result<usize, String>)
    requires
        !forward && current_index > 0 ==> current_index - 1 < entry_count,
    ensures
        match (r, history_step_spec(current_index as int, entry_count as int, forward)) {
            (Ok(i), Ok(j)) => i as int == j && i < entry_count,
            (Err(e), Err(m)) => e@ == m,
            _ => false,
        },
{
    if !forward {
        if current_index <= 0 {
            Err(owned(AT_BEGINNING))
        } else {
            let i: i64 = current_index - 1;
            Ok(i as usize)
        }
    } else {
        if current_index < 0 {
            Err(owned(AT_END))
        } else {
            let i: u64 = current_index as u64;
            if (i as u128) + 1 >= (entry_count as u128) {
                Err(owned(AT_END))
            } else {
                Ok((i + 1) as usize)
            }
        }
    }
}

/// A step back followed by a step forward returns to the entry the steps
/// started from, and a step forward followed by a step back likewise.
pub proof fn lemma_back_forward_inverse(current_index: int, entry_count: int)
    requires
        0 <= current_index < entry_count,
    ensures
        history_step_spec(current_index, entry_count, false) matches Ok(j) ==> history_step_spec(
            j,
            entry_count,
            true,
        ) == Ok::<int, Seq<char>>(current_index),
        history_step_spec(current_index, entry_count, true) matches Ok(j) ==> history_step_spec(
            j,
            entry_count,
            false,
        ) == Ok::<int, Seq<char>>(current_index),
{
}

/// What a finished move reports: the text, and the URL it landed on.
pub open spec fn nav_message_spec(action: int, url: Seq<char>) -> Seq<char> {
    if action == 0 {
        "Navigated to "@ + url
    } else if action == 1 {
        "Navigated back to "@ + url
    } else if action == 2 {
        "Navigated forward to "@ + url
    } else {
        "Reloaded page"@
    }
}

/// The report of a move: 0 load, 1 back, 2 forward, anything else reload.
pub fn nav_message(action: u8, url: &str) -> (r: String)
    ensures
        r@ == nav_message_spec(action as int, url@),
{
    if action == 0 {
        concat2("Navigated to ", url)
    } else if action == 1 {
        concat2("Navigated back to ", url)
    } else if action == 2 {
        concat2("Navigated forward to ", url)
    } else {
        owned("Reloaded page")
    }
}

/// The result of a move that landed on `url` and reported `message`: the
/// message itself, or, when it was written to the file `output`, a note
/// naming that file.
pub fn navigation_result(message: &str, url: &str, output: Option<&str>) -> (r: CommandResult)
    ensures
        opt_view(r.navigated_to) == Some(url@),
        r.target_id is None,
        r.error_code is None,
        match output {
            Some(p) => r.output@ == "Output saved to "@ + p@,
            None => r.output@ == message@,
        },
{
    match output {
        Some(p) => {
            let m = concat2("Output saved to ", p);
            CommandResult::output(m.as_str()).with_navigated_to(url)
        },
        None => CommandResult::output(message).with_navigated_to(url),
    }
}

/// `Navigation error: <text>`, for a load the browser refused.
pub fn navigation_error(error_text: &str) -> (r: String)
    ensures
        r@ == "Navigation error: "@ + error_text@,
{
    concat2("Navigation error: ", error_text)
}

} // verus!
