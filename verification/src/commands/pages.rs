//! Page management: the page listing, the extra-header check, the messages
//! of opening, closing and selecting pages, and the polling decision of
//! `wait-for`.
use crate::cdp::TargetInfo;
use crate::commands::input::{json_quote, json_string_literal};
use crate::text::{chars_of, concat2, dec, owned, push_str, str_contains, string_from_chars, u64_dec, contains_seq};
use vstd::prelude::*;

verus! {

/// One line of the page listing: `[<index>] (<name>) <title> — <url>`.
pub open spec fn page_line(i: nat, name: Seq<char>, t: TargetInfo) -> Seq<char> {
    "["@ + dec(i) + "] ("@ + name + ") "@ + t.title@ + " — "@ + t.url@ + "\n"@
}

/// The listing of the first `n` pages.
pub open spec fn page_lines(pages: Seq<TargetInfo>, names: Seq<String>, n: nat) -> Seq<char>
    decreases n,
{
    if n == 0 {
        Seq::empty()
    } else {
        page_lines(pages, names, (n - 1) as nat) + page_line(
            (n - 1) as nat,
            names[n - 1]@,
            pages[n - 1],
        )
    }
}

/// The text listing of the open pages, each shown under its display name;
/// `No pages open.` when there is none.
pub open spec fn page_list_spec(pages: Seq<TargetInfo>, names: Seq<String>) -> Seq<char> {
    if pages.len() == 0 {
        "No pages open."@
    } else {
        page_lines(pages, names, pages.len())
    }
}

/// Lists the pages (see `page_list_spec`); `names[i]` is the name shown for
/// `pages[i]`.
pub fn page_list_text(pages: &Vec<TargetInfo>, names: &Vec<String>) -> (r: String)
    requires
        names@.len() == pages@.len(),
    ensures
        r@ == page_list_spec(pages@, names@),
{
    if pages.len() == 0 {
        return owned("No pages open.");
    }
    let mut out: Vec<char> = Vec::new();
    let mut i: usize = 0;
    while i < pages.len()
        invariant
            names@.len() == pages@.len(),
            0 <= i <= pages@.len(),
            out@ == page_lines(pages@, names@, i as nat),
        decreases pages@.len() - i,
    {
        push_str(&mut out, "[");
        let d = u64_dec(i as u64);
        crate::text::push_all(&mut out, d.as_slice());
        push_str(&mut out, "] (");
        push_str(&mut out, names[i].as_str());
        push_str(&mut out, ") ");
        push_str(&mut out, pages[i].title.as_str());
        push_str(&mut out, " — ");
        push_str(&mut out, pages[i].url.as_str());
        push_str(&mut out, "\n");
        i = i + 1;
    }
    string_from_chars(out.as_slice())
}

/// `Opened new page: <url> (target: <id>)`.
pub fn opened_page_message(url: &str, target_id: &str) -> (r: String)
    ensures
        r@ == "Opened new page: "@ + url@ + " (target: "@ + target_id@ + ")"@,
{
    let mut m = chars_of("Opened new page: ");
    push_str(&mut m, url);
    push_str(&mut m, " (target: ");
    push_str(&mut m, target_id);
    push_str(&mut m, ")");
    string_from_chars(m.as_slice())
}

/// `Closed page: <id>`.
pub fn closed_page_message(target_id: &str) -> (r: String)
    ensures
        r@ == "Closed page: "@ + target_id@,
{
    concat2("Closed page: ", target_id)
}

/// `Activated page: <id>`.
pub fn activated_page_message(target_id: &str) -> (r: String)
    ensures
        r@ == "Activated page: "@ + target_id@,
{
    concat2("Activated page: ", target_id)
}

/// The first header, among `(name, value is a string)` pairs, whose value
/// is no string.
pub open spec fn first_bad_header(headers: Seq<(String, bool)>, n: nat) -> Option<int>
    decreases n,
{
    if n == 0 {
        None
    } else {
        match first_bad_header(headers, (n - 1) as nat) {
            Some(k) => Some(k),
            None => if !headers[n - 1].1 {
                Some(n - 1)
            } else {
                None
            },
        }
    }
}

/// Every extra header value must be a string; the first one that is not is
/// named in the error.
pub fn check_header_values(headers: &Vec<(String, bool)>) -> (r: Result<(), String>)
    ensures
        match first_bad_header(headers@, headers@.len()) {
            None => r is Ok,
            Some(k) => r matches Err(e) && e@ == "Header value for '"@ + headers@[k].0@
                + "' must be a string"@,
        },
{
    let mut i: usize = 0;
    while i < headers.len()
        invariant
            0 <= i <= headers@.len(),
            first_bad_header(headers@, i as nat) is None,
        decreases headers@.len() - i,
    {
        if !headers[i].1 {
            let mut m = chars_of("Header value for '");
            push_str(&mut m, headers[i].0.as_str());
            push_str(&mut m, "' must be a string");
            proof {
                lemma_first_bad_sticks(headers@, (i + 1) as nat, headers@.len());
            }
            return Err(string_from_chars(m.as_slice()));
        }
        i = i + 1;
    }
    Ok(())
}

proof fn lemma_first_bad_sticks(headers: Seq<(String, bool)>, j: nat, k: nat)
    requires
        j <= k,
        first_bad_header(headers, j) is Some,
    ensures
        first_bad_header(headers, k) == first_bad_header(headers, j),
    decreases k - j,
{
    if j < k {
        lemma_first_bad_sticks(headers, j, (k - 1) as nat);
    }
}

/// What the `--extra-headers` text reads as: `None` when it is no JSON;
/// `Some(None)` when it is JSON but no object; else the object's entries in
/// the parser's order, each with its value's text where that is a string.
pub uninterp spec fn header_entries(text: Seq<char>) -> Option<Option<Seq<(Seq<char>, Option<Seq<char>>)>>>;

pub open spec fn entry_view(e: (String, Option<String>)) -> (Seq<char>, Option<Seq<char>>) {
    (e.0@, match e.1 {
        Some(v) => Some(v@),
        None => None,
    })
}

/// `serde_json::from_str::<Value>` on the `--extra-headers` text, then the
/// object's entries (`Value::as_object`, `Value::as_str` on each value).
/// The parser's error message is handed back as text; what it says is not
/// stated.
#[verifier::external_body]
fn parse_header_entries(text: &str) -> (r: Result<Option<Vec<(String, Option<String>)>>, String>)
    ensures
        match r {
            Err(_) => header_entries(text@) is None,
            Ok(None) => header_entries(text@) == Some(None::<Seq<(Seq<char>, Option<Seq<char>>)>>),
            Ok(Some(v)) => header_entries(text@) == Some(Some(v@.map_values(|e: (String, Option<String>)| entry_view(e)))),
        },
{
    match serde_json::from_str::<serde_json::Value>(text) {
        Err(e) => Err(e.to_string()),
        Ok(v) => match v.as_object() {
            None => Ok(None),
            Some(obj) => Ok(Some(obj.iter().map(|(k, x)| (k.clone(), x.as_str().map(|t| t.to_string()))).collect())),
        },
    }
}

/// The first entry, among the first `n`, whose value is no string.
pub open spec fn first_non_string(entries: Seq<(Seq<char>, Option<Seq<char>>)>, n: nat) -> Option<int>
    decreases n,
{
    if n == 0 {
        None
    } else {
        match first_non_string(entries, (n - 1) as nat) {
            Some(k) => Some(k),
            None => if entries[n - 1].1 is None {
                Some(n - 1)
            } else {
                None
            },
        }
    }
}

proof fn lemma_first_non_string_sticks(entries: Seq<(Seq<char>, Option<Seq<char>>)>, j: nat, k: nat)
    requires
        j <= k,
        first_non_string(entries, j) is Some,
    ensures
        first_non_string(entries, k) == first_non_string(entries, j),
    decreases k - j,
{
    if j < k {
        lemma_first_non_string_sticks(entries, j, (k - 1) as nat);
    }
}

/// The headers an `--extra-headers` text asks for, as (name, value) pairs:
/// it must be JSON (`Invalid --extra-headers JSON: <parser error>`), an
/// object (`--extra-headers must be a JSON object`), and every value a
/// string (`Header value for '<name>' must be a string`, for the first one
/// that is not).
pub fn check_extra_headers(text: &str) -> (r: Result<Vec<(String, String)>, String>)
    ensures
        match header_entries(text@) {
            None => r matches Err(m) && exists|e: Seq<char>| m@ == "Invalid --extra-headers JSON: "@ + e,
            Some(None) => r matches Err(m) && m@ == "--extra-headers must be a JSON object"@,
            Some(Some(es)) => match first_non_string(es, es.len()) {
                Some(k) => r matches Err(m) && m@ == "Header value for '"@ + es[k].0 + "' must be a string"@,
                None => r matches Ok(v) && v@.len() == es.len() && forall|i: int|
                    0 <= i < es.len() ==> (#[trigger] v@[i]).0@ == es[i].0 && Some(v@[i].1@) == es[i].1,
            },
        },
{
    match parse_header_entries(text) {
        Err(e) => {
            let mut m = chars_of("Invalid --extra-headers JSON: ");
            push_str(&mut m, e.as_str());
            Err(string_from_chars(m.as_slice()))
        },
        Ok(None) => Err(owned("--extra-headers must be a JSON object")),
        Ok(Some(entries)) => {
            let ghost es = entries@.map_values(|e: (String, Option<String>)| entry_view(e));
            let mut out: Vec<(String, String)> = Vec::new();
            let mut i: usize = 0;
            while i < entries.len()
                invariant
                    0 <= i <= entries@.len(),
                    es == entries@.map_values(|e: (String, Option<String>)| entry_view(e)),
                    header_entries(text@) == Some(Some(es)),
                    first_non_string(es, i as nat) is None,
                    out@.len() == i,
                    forall|j: int| 0 <= j < i ==> (#[trigger] out@[j]).0@ == es[j].0 && Some(out@[j].1@) == es[j].1,
                decreases entries@.len() - i,
            {
                match &entries[i].1 {
                    Some(v) => {
                        proof {
                            assert(es[i as int] == entry_view(entries@[i as int]));
                        }
                        out.push((owned(entries[i].0.as_str()), owned(v.as_str())));
                    },
                    None => {
                        let mut m = chars_of("Header value for '");
                        push_str(&mut m, entries[i].0.as_str());
                        push_str(&mut m, "' must be a string");
                        proof {
                            assert(es[i as int] == entry_view(entries@[i as int]));
                            assert(es[i as int].1 is None);
                            assert(first_non_string(es, (i + 1) as nat) == Some(i as int));
                            lemma_first_non_string_sticks(es, (i + 1) as nat, es.len());
                        }
                        return Err(string_from_chars(m.as_slice()));
                    },
                }
                i = i + 1;
            }
            Ok(out)
        },
    }
}

// ---------------------------------------------------------------------
// wait-for
// ---------------------------------------------------------------------

/// The script that asks whether the page body shows `text`.
pub open spec fn wait_for_script_spec(text: Seq<char>) -> Seq<char> {
    "document.body && document.body.innerText.includes("@ + json_string_literal(text) + ")"@
}

/// Builds the `wait-for` script (see `wait_for_script_spec`).
pub fn wait_for_script(text: &str) -> (r: String)
    ensures
        r@ == wait_for_script_spec(text@),
{
    let q = json_quote(text);
    let mut m = chars_of("document.body && document.body.innerText.includes(");
    push_str(&mut m, q.as_str());
    push_str(&mut m, ")");
    string_from_chars(m.as_slice())
}

/// What one poll of `wait-for` saw: the script's answer (true when the text
/// is shown), or the error of the call.
pub enum WaitProbe {
    Answer(bool),
    Failed(String),
}

/// What `wait-for` does after a poll.
pub enum WaitStep {
    /// The text is there; the message to report.
    Found(String),
    /// Ask again after a pause.
    Again,
    /// Give up with this error.
    Fail(String),
}

/// The step after a poll: past the deadline it times out; a shown text is
/// found; a page between documents (its execution context destroyed or not
/// yet found) is asked again; any other error ends the wait.
pub open spec fn wait_step_spec(
    past_deadline: bool,
    probe: WaitProbe,
    text: Seq<char>,
    timeout_ms: nat,
    session_id: Seq<char>,
) -> (int, Seq<char>) {
    if past_deadline {
        (2, "Timeout ("@ + dec(timeout_ms) + "ms) waiting for text: "@ + text)
    } else {
        match probe {
            WaitProbe::Answer(true) => (0, "Found text: "@ + text),
            WaitProbe::Answer(false) => (1, Seq::empty()),
            WaitProbe::Failed(e) => if contains_seq(e@, "Execution context was destroyed"@)
                || contains_seq(e@, "Cannot find context"@) {
                (1, Seq::empty())
            } else {
                (2, "wait_for failed for session "@ + session_id + ": "@ + e@)
            },
        }
    }
}

pub open spec fn wait_step_view(s: WaitStep) -> (int, Seq<char>) {
    match s {
        WaitStep::Found(m) => (0, m@),
        WaitStep::Again => (1, Seq::empty()),
        WaitStep::Fail(m) => (2, m@),
    }
}

/// Decides the step after a poll (see `wait_step_spec`: 0 found, 1 again,
/// 2 fail). The deadline is checked before the page is asked.
pub fn wait_step(past_deadline: bool, probe: WaitProbe, text: &str, timeout_ms: u64, session_id: &str) -> (r:
    WaitStep)
    ensures
        wait_step_view(r) == wait_step_spec(past_deadline, probe, text@, timeout_ms as nat, session_id@),
{
    if past_deadline {
        let mut m = chars_of("Timeout (");
        let d = u64_dec(timeout_ms);
        crate::text::push_all(&mut m, d.as_slice());
        push_str(&mut m, "ms) waiting for text: ");
        push_str(&mut m, text);
        return WaitStep::Fail(string_from_chars(m.as_slice()));
    }
    match probe {
        WaitProbe::Answer(found) => {
            if found {
                WaitStep::Found(concat2("Found text: ", text))
            } else {
                WaitStep::Again
            }
        },
        WaitProbe::Failed(e) => {
            if str_contains(e.as_str(), "Execution context was destroyed") || str_contains(
                e.as_str(),
                "Cannot find context",
            ) {
                WaitStep::Again
            } else {
                let mut m = chars_of("wait_for failed for session ");
                push_str(&mut m, session_id);
                push_str(&mut m, ": ");
                push_str(&mut m, e.as_str());
                WaitStep::Fail(string_from_chars(m.as_slice()))
            }
        },
    }
}

} // verus!
