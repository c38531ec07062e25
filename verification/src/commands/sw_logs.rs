//! Extension service-worker logs: which targets are extension workers, the
//! extension id of a worker URL, and the log lines.
use crate::commands::console::{args_text, args_text_spec, ConsoleEvent};
use crate::text::{
    chars_of, find_char_from, first_char_from, owned, push_str, slice_vec, starts_with, starts_with_chars, str_eq,
    string_from_chars,
};
use vstd::prelude::*;

verus! {

/// The id in an extension URL: what follows `chrome-extension://`, up to
/// the next `/`.
pub open spec fn extension_id_spec(url: Seq<char>) -> Option<Seq<char>> {
    if starts_with(url, "chrome-extension://"@) {
        let rest = url.skip(19);
        Some(
            match first_char_from(rest, '/', 0) {
                Some(i) => rest.take(i),
                None => rest,
            },
        )
    } else {
        None
    }
}

/// See `extension_id_spec`.
pub fn extract_extension_id(url: &str) -> (r: Option<String>)
    ensures
        match r {
            Some(s) => extension_id_spec(url@) == Some(s@),
            None => extension_id_spec(url@) is None,
        },
{
    let u = chars_of(url);
    let p = chars_of("chrome-extension://");
    proof {
        reveal_strlit("chrome-extension://");
    }
    if !starts_with_chars(u.as_slice(), p.as_slice()) {
        return None;
    }
    let rest = slice_vec(u.as_slice(), 19, u.len());
    proof {
        assert(rest@ =~= u@.skip(19));
    }
    let end = match find_char_from(rest.as_slice(), '/', 0) {
        Some(i) => i,
        None => rest.len(),
    };
    let id = slice_vec(rest.as_slice(), 0, end);
    proof {
        if end == rest@.len() {
            assert(id@ =~= rest@);
        } else {
            assert(id@ =~= rest@.take(end as int));
        }
    }
    Some(string_from_chars(id.as_slice()))
}

/// A target is a worker whose logs are collected: an extension service
/// worker, of the requested extension when one is named.
pub open spec fn is_collected_worker(target_type: Seq<char>, url: Seq<char>, filter: Option<Seq<char>>) -> bool {
    &&& target_type == "service_worker"@
    &&& starts_with(url, "chrome-extension://"@)
    &&& match filter {
        Some(f) => extension_id_spec(url) == Some(f),
        None => true,
    }
}

/// See `is_collected_worker`.
pub fn is_collected_worker_exec(target_type: &str, url: &str, filter: Option<&str>) -> (b: bool)
    ensures
        b == is_collected_worker(target_type@, url@, match filter {
            Some(f) => Some(f@),
            None => None,
        }),
{
    if !str_eq(target_type, "service_worker") {
        return false;
    }
    let u = chars_of(url);
    let p = chars_of("chrome-extension://");
    if !starts_with_chars(u.as_slice(), p.as_slice()) {
        return false;
    }
    match filter {
        Some(f) => match extract_extension_id(url) {
            Some(id) => str_eq(id.as_str(), f),
            None => false,
        },
        None => true,
    }
}

/// A worker session attached for the collection: the worker's URL and the
/// session id.
pub struct WorkerSession {
    pub url: String,
    pub session_id: String,
}

/// The URL of the first worker attached under `sid`, or `unknown`.
pub open spec fn source_of(sessions: Seq<WorkerSession>, sid: Seq<char>) -> Seq<char>
    decreases sessions.len(),
{
    if sessions.len() == 0 {
        "unknown"@
    } else if sessions[0].session_id@ == sid {
        sessions[0].url@
    } else {
        source_of(sessions.drop_first(), sid)
    }
}

/// See `source_of`.
pub fn event_source(sessions: &Vec<WorkerSession>, sid: &str) -> (r: String)
    ensures
        r@ == source_of(sessions@, sid@),
{
    let mut i: usize = 0;
    proof {
        assert(sessions@.skip(0) =~= sessions@);
    }
    while i < sessions.len()
        invariant
            0 <= i <= sessions@.len(),
            source_of(sessions@, sid@) == source_of(sessions@.skip(i as int), sid@),
        decreases sessions@.len() - i,
    {
        proof {
            assert(sessions@.skip(i as int).drop_first() =~= sessions@.skip(i + 1));
            assert(sessions@.skip(i as int)[0] == sessions@[i as int]);
        }
        if str_eq(sessions[i].session_id.as_str(), sid) {
            return owned(sessions[i].url.as_str());
        }
        i = i + 1;
    }
    proof {
        assert(sessions@.skip(i as int).len() == 0);
    }
    owned("unknown")
}

/// A log line: the extension id (empty when the source is no extension
/// URL), the message type, its text and its source URL.
pub struct SwMessage {
    pub extension_id: String,
    pub msg_type: String,
    pub text: String,
    pub source: String,
}

/// The message a worker event yields, if any: console calls and thrown
/// exceptions, tagged with the event's source and its extension id.
pub open spec fn sw_message_of(e: ConsoleEvent, source: Seq<char>) -> Option<(Seq<char>, Seq<char>, Seq<char>, Seq<char>)> {
    let ext = match extension_id_spec(source) {
        Some(id) => id,
        None => Seq::empty(),
    };
    match e {
        ConsoleEvent::ApiCalled { msg_type, args } => Some((ext, msg_type@, args_text_spec(args@), source)),
        ConsoleEvent::ExceptionThrown { description } => Some((ext, "exception"@, description@, source)),
        ConsoleEvent::Other => None,
    }
}

pub open spec fn sw_view(m: SwMessage) -> (Seq<char>, Seq<char>, Seq<char>, Seq<char>) {
    (m.extension_id@, m.msg_type@, m.text@, m.source@)
}

/// The log lines of worker events, each given with the session id it
/// arrived on; in order.
pub open spec fn sw_messages_spec(events: Seq<(Seq<char>, ConsoleEvent)>, sessions: Seq<WorkerSession>, k: nat) -> Seq<
    (Seq<char>, Seq<char>, Seq<char>, Seq<char>),
>
    decreases k,
{
    if k == 0 {
        Seq::empty()
    } else {
        let rest = sw_messages_spec(events, sessions, (k - 1) as nat);
        match sw_message_of(events[k - 1].1, source_of(sessions, events[k - 1].0)) {
            Some(m) => rest.push(m),
            None => rest,
        }
    }
}

pub open spec fn sw_event_view(e: (String, ConsoleEvent)) -> (Seq<char>, ConsoleEvent) {
    (e.0@, e.1)
}

/// See `sw_messages_spec`.
pub fn process_sw_events(events: &Vec<(String, ConsoleEvent)>, sessions: &Vec<WorkerSession>) -> (r: Vec<SwMessage>)
    ensures
        r@.map_values(|m: SwMessage| sw_view(m)) == sw_messages_spec(
            events@.map_values(|e: (String, ConsoleEvent)| sw_event_view(e)),
            sessions@,
            events@.len() as nat,
        ),
{
    let ghost ev = events@.map_values(|e: (String, ConsoleEvent)| sw_event_view(e));
    let mut out: Vec<SwMessage> = Vec::new();
    let mut i: usize = 0;
    while i < events.len()
        invariant
            ev == events@.map_values(|e: (String, ConsoleEvent)| sw_event_view(e)),
            0 <= i <= events@.len(),
            out@.map_values(|m: SwMessage| sw_view(m)) == sw_messages_spec(ev, sessions@, i as nat),
        decreases events@.len() - i,
    {
        let (sid, e) = (&events[i].0, &events[i].1);
        let source = event_source(sessions, sid.as_str());
        let ext = match extract_extension_id(source.as_str()) {
            Some(id) => id,
            None => String::new(),
        };
        let ghost before = out@;
        proof {
            assert(ev[i as int] == (sid@, *e));
        }
        match e {
            ConsoleEvent::ApiCalled { msg_type, args } => {
                out.push(SwMessage { extension_id: ext, msg_type: owned(msg_type.as_str()), text: args_text(args), source });
            },
            ConsoleEvent::ExceptionThrown { description } => {
                out.push(SwMessage { extension_id: ext, msg_type: owned("exception"), text: owned(description.as_str()), source });
            },
            ConsoleEvent::Other => {},
        }
        proof {
            assert(out@.map_values(|m: SwMessage| sw_view(m)) =~= sw_messages_spec(ev, sessions@, (i + 1) as nat));
        }
        i = i + 1;
    }
    out
}

/// One `[extension] [type] text` line per message.
pub open spec fn sw_lines(ms: Seq<SwMessage>) -> Seq<char>
    decreases ms.len(),
{
    if ms.len() == 0 {
        Seq::empty()
    } else {
        let m = ms.last();
        sw_lines(ms.drop_last()) + seq!['['] + m.extension_id@ + "] ["@ + m.msg_type@ + "] "@ + m.text@ + seq!['\n']
    }
}

/// The text listing of worker logs.
pub fn format_sw_text(messages: &Vec<SwMessage>) -> (r: String)
    ensures
        r@ == (if messages@.len() == 0 {
            "No service worker logs collected."@
        } else {
            sw_lines(messages@)
        }),
{
    if messages.len() == 0 {
        return owned("No service worker logs collected.");
    }
    let mut v: Vec<char> = Vec::new();
    let mut i: usize = 0;
    while i < messages.len()
        invariant
            0 <= i <= messages@.len(),
            v@ == sw_lines(messages@.take(i as int)),
        decreases messages@.len() - i,
    {
        let m = &messages[i];
        v.push('[');
        push_str(&mut v, m.extension_id.as_str());
        push_str(&mut v, "] [");
        push_str(&mut v, m.msg_type.as_str());
        push_str(&mut v, "] ");
        push_str(&mut v, m.text.as_str());
        v.push('\n');
        proof {
            assert(messages@.take(i + 1).drop_last() =~= messages@.take(i as int));
            assert(v@ =~= sw_lines(messages@.take(i + 1)));
        }
        i = i + 1;
    }
    proof {
        assert(messages@.take(messages@.len() as int) =~= messages@);
    }
    string_from_chars(v.as_slice())
}

} // verus!
