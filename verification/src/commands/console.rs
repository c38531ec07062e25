//! Console messages: which events become messages, their text, and the
//! text listing.
use crate::text::{owned, push_all, push_str, str_eq, string_from_chars};
use vstd::prelude::*;

verus! {

/// One argument of a console call, as far as its text goes: its value when
/// that is a string, and its description when that is a string.
pub struct ConsoleArg {
    pub value: Option<String>,
    pub description: Option<String>,
}

/// The text of an argument: its string value, else its description, else
/// `<object>`.
pub open spec fn arg_text_spec(a: ConsoleArg) -> Seq<char> {
    match a.value {
        Some(v) => v@,
        None => match a.description {
            Some(d) => d@,
            None => "<object>"@,
        },
    }
}

/// `parts` joined with single spaces.
pub open spec fn join_space(parts: Seq<Seq<char>>) -> Seq<char>
    decreases parts.len(),
{
    if parts.len() == 0 {
        Seq::empty()
    } else if parts.len() == 1 {
        parts[0]
    } else {
        join_space(parts.drop_last()) + seq![' '] + parts.last()
    }
}

/// The texts of the arguments, joined with spaces.
pub open spec fn args_text_spec(args: Seq<ConsoleArg>) -> Seq<char> {
    join_space(args.map_values(|a: ConsoleArg| arg_text_spec(a)))
}

/// See `args_text_spec`.
pub fn args_text(args: &Vec<ConsoleArg>) -> (r: String)
    ensures
        r@ == args_text_spec(args@),
{
    let ghost ps = args@.map_values(|a: ConsoleArg| arg_text_spec(a));
    let mut v: Vec<char> = Vec::new();
    let mut i: usize = 0;
    while i < args.len()
        invariant
            ps == args@.map_values(|a: ConsoleArg| arg_text_spec(a)),
            0 <= i <= args@.len(),
            v@ == join_space(ps.take(i as int)),
        decreases args@.len() - i,
    {
        if i > 0 {
            v.push(' ');
        }
        let a = &args[i];
        match &a.value {
            Some(s) => push_str(&mut v, s.as_str()),
            None => match &a.description {
                Some(d) => push_str(&mut v, d.as_str()),
                None => push_str(&mut v, "<object>"),
            },
        }
        proof {
            assert(ps.take(i + 1).drop_last() =~= ps.take(i as int));
            assert(ps[i as int] == arg_text_spec(args@[i as int]));
            if i == 0 {
                assert(ps.take(1) =~= seq![ps[0]]);
            }
        }
        i = i + 1;
    }
    proof {
        assert(ps.take(args@.len() as int) =~= ps);
    }
    string_from_chars(v.as_slice())
}

/// A console-related protocol event.
pub enum ConsoleEvent {
    /// `Runtime.consoleAPICalled`: its type (`log` when absent) and arguments.
    ApiCalled { msg_type: String, args: Vec<ConsoleArg> },
    /// `Runtime.exceptionThrown`: the exception's description (or, without
    /// one, the details' text, or `Unknown error`).
    ExceptionThrown { description: String },
    /// Any other event.
    Other,
}

/// A collected message: its type, its text and the index of the event it
/// came from.
pub struct ConsoleMessage {
    pub msg_type: String,
    pub text: String,
    pub event_index: usize,
}

/// Some filter entry reads `x`.
pub open spec fn in_filter(filter: Seq<String>, x: Seq<char>) -> bool {
    exists|i: int| 0 <= i < filter.len() && #[trigger] filter[i]@ == x
}

/// The message event `i` yields, if any: calls of a type the filter names
/// (any, when the filter is empty), and exceptions when the filter is empty
/// or names `exception` or `error`.
pub open spec fn message_of(e: ConsoleEvent, filter: Seq<String>) -> Option<(Seq<char>, Seq<char>)> {
    match e {
        ConsoleEvent::ApiCalled { msg_type, args } => if filter.len() == 0 || in_filter(filter, msg_type@) {
            Some((msg_type@, args_text_spec(args@)))
        } else {
            None
        },
        ConsoleEvent::ExceptionThrown { description } => if filter.len() == 0 || in_filter(
            filter,
            "exception"@,
        ) || in_filter(filter, "error"@) {
            Some(("exception"@, description@))
        } else {
            None
        },
        ConsoleEvent::Other => None,
    }
}

/// The messages of the first `k` events, as (type, text, event index).
pub open spec fn messages_spec(events: Seq<ConsoleEvent>, filter: Seq<String>, k: nat) -> Seq<
    (Seq<char>, Seq<char>, int),
>
    decreases k,
{
    if k == 0 {
        Seq::empty()
    } else {
        let rest = messages_spec(events, filter, (k - 1) as nat);
        match message_of(events[k - 1], filter) {
            Some((t, x)) => rest.push((t, x, k - 1)),
            None => rest,
        }
    }
}

/// The messages of a prefix stay, in place, in those of a longer prefix.
proof fn lemma_messages_grow(events: Seq<ConsoleEvent>, filter: Seq<String>, j: nat, k: nat)
    requires
        j <= k,
    ensures
        messages_spec(events, filter, j).len() <= messages_spec(events, filter, k).len(),
        forall|x: int|
            0 <= x < messages_spec(events, filter, j).len() ==> #[trigger] messages_spec(events, filter, k)[x]
                == messages_spec(events, filter, j)[x],
    decreases k - j,
{
    if j < k {
        lemma_messages_grow(events, filter, j, (k - 1) as nat);
    }
}

/// An exception is reported whenever the filter lets exceptions through
/// (it is empty, or names `exception` or `error`): each `exceptionThrown`
/// event yields a message of type `exception` carrying the exception's
/// description and the event's index.
pub proof fn lemma_exceptions_reported(events: Seq<ConsoleEvent>, filter: Seq<String>, k: int)
    requires
        0 <= k < events.len(),
        events[k] is ExceptionThrown,
        filter.len() == 0 || in_filter(filter, "exception"@) || in_filter(filter, "error"@),
    ensures
        exists|x: int|
            0 <= x < messages_spec(events, filter, events.len() as nat).len()
                && #[trigger] messages_spec(events, filter, events.len() as nat)[x] == (
                "exception"@,
                events[k]->description@,
                k,
            ),
{
    let before = messages_spec(events, filter, k as nat);
    let after = messages_spec(events, filter, (k + 1) as nat);
    assert(after == before.push(("exception"@, events[k]->description@, k)));
    lemma_messages_grow(events, filter, (k + 1) as nat, events.len() as nat);
    let x = before.len() as int;
    assert(after[x] == ("exception"@, events[k]->description@, k));
    assert(messages_spec(events, filter, events.len() as nat)[x] == after[x]);
}

pub open spec fn message_view(m: ConsoleMessage) -> (Seq<char>, Seq<char>, int) {
    (m.msg_type@, m.text@, m.event_index as int)
}

/// Whether `filter` holds `x`.
pub fn filter_has(filter: &Vec<String>, x: &str) -> (b: bool)
    ensures
        b == in_filter(filter@, x@),
{
    let mut i: usize = 0;
    while i < filter.len()
        invariant
            0 <= i <= filter@.len(),
            forall|j: int| 0 <= j < i ==> filter@[j]@ != x@,
        decreases filter@.len() - i,
    {
        if str_eq(filter[i].as_str(), x) {
            return true;
        }
        i = i + 1;
    }
    false
}

/// The console messages of a batch of events (see `message_of`), in order.
pub fn process_console_events(events: &Vec<ConsoleEvent>, filter: &Vec<String>) -> (r: Vec<ConsoleMessage>)
    ensures
        r@.map_values(|m: ConsoleMessage| message_view(m)) == messages_spec(events@, filter@, events@.len() as nat),
{
    let mut out: Vec<ConsoleMessage> = Vec::new();
    let mut i: usize = 0;
    while i < events.len()
        invariant
            0 <= i <= events@.len(),
            out@.map_values(|m: ConsoleMessage| message_view(m)) == messages_spec(events@, filter@, i as nat),
        decreases events@.len() - i,
    {
        let ghost before = out@;
        match &events[i] {
            ConsoleEvent::ApiCalled { msg_type, args } => {
                if filter.len() == 0 || filter_has(filter, msg_type.as_str()) {
                    out.push(ConsoleMessage { msg_type: owned(msg_type.as_str()), text: args_text(args), event_index: i });
                }
            },
            ConsoleEvent::ExceptionThrown { description } => {
                if filter.len() == 0 || filter_has(filter, "exception") || filter_has(filter, "error") {
                    out.push(ConsoleMessage { msg_type: owned("exception"), text: owned(description.as_str()), event_index: i });
                }
            },
            ConsoleEvent::Other => {},
        }
        proof {
            assert(out@.map_values(|m: ConsoleMessage| message_view(m)) =~= messages_spec(events@, filter@, (i + 1) as nat));
        }
        i = i + 1;
    }
    out
}

/// One `[type] text` line per message.
pub open spec fn console_lines(ms: Seq<ConsoleMessage>) -> Seq<char>
    decreases ms.len(),
{
    if ms.len() == 0 {
        Seq::empty()
    } else {
        console_lines(ms.drop_last()) + seq!['['] + ms.last().msg_type@ + "] "@ + ms.last().text@ + seq!['\n']
    }
}

/// The text listing of console messages.
pub fn format_console_text(messages: &Vec<ConsoleMessage>) -> (r: String)
    ensures
        r@ == (if messages@.len() == 0 {
            "No console messages collected."@
        } else {
            console_lines(messages@)
        }),
{
    if messages.len() == 0 {
        return owned("No console messages collected.");
    }
    let mut v: Vec<char> = Vec::new();
    let mut i: usize = 0;
    while i < messages.len()
        invariant
            0 <= i <= messages@.len(),
            v@ == console_lines(messages@.take(i as int)),
        decreases messages@.len() - i,
    {
        v.push('[');
        push_str(&mut v, messages[i].msg_type.as_str());
        push_str(&mut v, "] ");
        push_str(&mut v, messages[i].text.as_str());
        v.push('\n');
        proof {
            assert(messages@.take(i + 1).drop_last() =~= messages@.take(i as int));
            assert(v@ =~= console_lines(messages@.take(i + 1)));
        }
        i = i + 1;
    }
    proof {
        assert(messages@.take(messages@.len() as int) =~= messages@);
    }
    string_from_chars(v.as_slice())
}

} // verus!
