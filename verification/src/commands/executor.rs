//! What the daemon checks before it runs a command: which arguments each
//! command takes, which commands need no page, how a page argument is read,
//! and how the global URL-block flags merge into a tab's block list.
use crate::text::{chars_of, owned, parse_bounded, parse_u64_max, push_str, str_eq, string_from_chars};
use vstd::prelude::*;

verus! {

/// The arguments each command accepts.
pub open spec fn known_args_spec(cmd: Seq<char>) -> Seq<Seq<char>> {
    if cmd == "new-page"@ {
        seq![
            "url"@,
            "viewport"@,
            "device_scale_factor"@,
            "mobile"@,
            "geolocation"@,
            "accuracy"@,
            "extra_headers"@,
        ]
    } else if cmd == "close-page"@ || cmd == "select-page"@ {
        seq!["id_or_index"@]
    } else if cmd == "navigate"@ {
        seq![
            "url"@,
            "back"@,
            "forward"@,
            "reload"@,
            "extra_headers"@,
            "viewport"@,
            "device_scale_factor"@,
            "mobile"@,
            "geolocation"@,
            "accuracy"@,
            "clear_all"@,
            "output"@,
        ]
    } else if cmd == "screenshot"@ {
        seq!["output"@, "format"@, "full_page"@]
    } else if cmd == "evaluate"@ {
        seq!["expression"@, "dialog_action"@, "output"@, "track_navigation"@]
    } else if cmd == "click"@ || cmd == "hover"@ {
        seq!["selector"@]
    } else if cmd == "click-at"@ {
        seq!["x"@, "y"@]
    } else if cmd == "fill"@ {
        seq!["selector"@, "value"@]
    } else if cmd == "type-text"@ {
        seq!["text"@, "submit_key"@]
    } else if cmd == "press-key"@ {
        seq!["key"@]
    } else if cmd == "snapshot"@ || cmd == "read-page"@ || cmd == "take-heapsnapshot"@ {
        seq!["output"@]
    } else if cmd == "inspect-heapsnapshot-node"@ {
        seq!["file_path"@, "node_id"@]
    } else if cmd == "emulate"@ {
        seq![
            "viewport"@,
            "device_scale_factor"@,
            "mobile"@,
            "geolocation"@,
            "accuracy"@,
            "clear_viewport"@,
            "clear_geolocation"@,
            "clear_all"@,
            "clear_blocks"@,
        ]
    } else if cmd == "wait-for"@ {
        seq!["text"@, "timeout"@]
    } else if cmd == "execute-3p-tool"@ {
        seq!["name"@, "params"@]
    } else if cmd == "console"@ || cmd == "network"@ {
        seq!["duration"@, "type"@]
    } else if cmd == "sw-logs"@ {
        seq!["duration"@, "extension_id"@]
    } else {
        Seq::empty()
    }
}

/// The views of a list of string slices.
pub open spec fn strs_view(v: Seq<&str>) -> Seq<Seq<char>> {
    v.map_values(|s: &str| s@)
}

/// The arguments command `cmd` accepts (none for unknown commands).
pub fn known_args(cmd: &str) -> (r: Vec<&'static str>)
    ensures
        strs_view(r@) == known_args_spec(cmd@),
{
    let r: Vec<&'static str> = if str_eq(cmd, "new-page") {
        vec!["url", "viewport", "device_scale_factor", "mobile", "geolocation", "accuracy", "extra_headers"]
    } else if str_eq(cmd, "close-page") || str_eq(cmd, "select-page") {
        vec!["id_or_index"]
    } else if str_eq(cmd, "navigate") {
        vec![
            "url",
            "back",
            "forward",
            "reload",
            "extra_headers",
            "viewport",
            "device_scale_factor",
            "mobile",
            "geolocation",
            "accuracy",
            "clear_all",
            "output",
        ]
    } else if str_eq(cmd, "screenshot") {
        vec!["output", "format", "full_page"]
    } else if str_eq(cmd, "evaluate") {
        vec!["expression", "dialog_action", "output", "track_navigation"]
    } else if str_eq(cmd, "click") || str_eq(cmd, "hover") {
        vec!["selector"]
    } else if str_eq(cmd, "click-at") {
        vec!["x", "y"]
    } else if str_eq(cmd, "fill") {
        vec!["selector", "value"]
    } else if str_eq(cmd, "type-text") {
        vec!["text", "submit_key"]
    } else if str_eq(cmd, "press-key") {
        vec!["key"]
    } else if str_eq(cmd, "snapshot") || str_eq(cmd, "read-page") || str_eq(cmd, "take-heapsnapshot") {
        vec!["output"]
    } else if str_eq(cmd, "inspect-heapsnapshot-node") {
        vec!["file_path", "node_id"]
    } else if str_eq(cmd, "emulate") {
        vec![
            "viewport",
            "device_scale_factor",
            "mobile",
            "geolocation",
            "accuracy",
            "clear_viewport",
            "clear_geolocation",
            "clear_all",
            "clear_blocks",
        ]
    } else if str_eq(cmd, "wait-for") {
        vec!["text", "timeout"]
    } else if str_eq(cmd, "execute-3p-tool") {
        vec!["name", "params"]
    } else if str_eq(cmd, "console") || str_eq(cmd, "network") {
        vec!["duration", "type"]
    } else if str_eq(cmd, "sw-logs") {
        vec!["duration", "extension_id"]
    } else {
        Vec::new()
    };
    proof {
        assert(strs_view(r@) =~= known_args_spec(cmd@));
    }
    r
}

/// The commands that run against the browser rather than a page.
pub open spec fn browser_level_spec(cmd: Seq<char>) -> bool {
    cmd == "list-pages"@ || cmd == "new-page"@ || cmd == "sw-logs"@ || cmd == "kill-daemon"@
}

/// Whether `cmd` runs against the browser rather than a page. (Offline
/// commands such as `inspect-heapsnapshot-node` are not among them: they
/// never reach the daemon.)
pub fn is_browser_level(cmd: &str) -> (b: bool)
    ensures
        b == browser_level_spec(cmd@),
{
    str_eq(cmd, "list-pages") || str_eq(cmd, "new-page") || str_eq(cmd, "sw-logs") || str_eq(
        cmd,
        "kill-daemon",
    )
}

/// Whether running `cmd` first drops the events buffered since the last
/// command; the event-collecting commands keep them, to report them.
pub fn clears_events(cmd: &str) -> (b: bool)
    ensures
        b == !(cmd@ == "console"@ || cmd@ == "network"@ || cmd@ == "sw-logs"@),
{
    !(str_eq(cmd, "console") || str_eq(cmd, "network") || str_eq(cmd, "sw-logs"))
}

/// A key is accepted when `cmd` declares it, or when it is `dialog_action`
/// on a page-level command (dialogs are handled for every page command).
pub open spec fn key_accepted(cmd: Seq<char>, key: Seq<char>) -> bool {
    (key == "dialog_action"@ && !browser_level_spec(cmd)) || known_args_spec(cmd).contains(key)
}

/// The keys among the first `k` that `cmd` does not accept, in order.
pub open spec fn unknown_keys(cmd: Seq<char>, keys: Seq<String>, k: nat) -> Seq<Seq<char>>
    decreases k,
{
    if k == 0 {
        Seq::empty()
    } else {
        let rest = unknown_keys(cmd, keys, (k - 1) as nat);
        if key_accepted(cmd, keys[k - 1]@) {
            rest
        } else {
            rest.push(keys[k - 1]@)
        }
    }
}

/// `parts` joined with `", "`.
pub open spec fn join_comma(parts: Seq<Seq<char>>) -> Seq<char>
    decreases parts.len(),
{
    if parts.len() == 0 {
        Seq::empty()
    } else if parts.len() == 1 {
        parts[0]
    } else {
        join_comma(parts.drop_last()) + ", "@ + parts.last()
    }
}

/// Appends `parts` joined with `", "`.
fn push_joined(v: &mut Vec<char>, parts: &Vec<Vec<char>>)
    ensures
        final(v)@ == old(v)@ + join_comma(parts@.map_values(|p: Vec<char>| p@)),
{
    let ghost ps = parts@.map_values(|p: Vec<char>| p@);
    let mut i: usize = 0;
    while i < parts.len()
        invariant
            ps == parts@.map_values(|p: Vec<char>| p@),
            0 <= i <= parts@.len(),
            v@ == old(v)@ + join_comma(ps.take(i as int)),
        decreases parts@.len() - i,
    {
        if i > 0 {
            push_str(v, ", ");
        }
        crate::text::push_all(v, parts[i].as_slice());
        proof {
            assert(ps.take(i + 1).drop_last() =~= ps.take(i as int));
            assert(ps.take(i + 1).last() == parts@[i as int]@);
            if i == 0 {
                assert(ps.take(1) =~= seq![parts@[0]@]);
            }
        }
        i = i + 1;
    }
    proof {
        assert(ps.take(parts@.len() as int) =~= ps);
    }
}

/// Appends the strings of `parts` joined with `", "`.
pub fn push_joined_strs(v: &mut Vec<char>, parts: &Vec<String>)
    ensures
        final(v)@ == old(v)@ + join_comma(parts@.map_values(|p: String| p@)),
{
    let ghost ps = parts@.map_values(|p: String| p@);
    let mut i: usize = 0;
    while i < parts.len()
        invariant
            ps == parts@.map_values(|p: String| p@),
            0 <= i <= parts@.len(),
            v@ == old(v)@ + join_comma(ps.take(i as int)),
        decreases parts@.len() - i,
    {
        if i > 0 {
            push_str(v, ", ");
        }
        push_str(v, parts[i].as_str());
        proof {
            assert(ps.take(i + 1).drop_last() =~= ps.take(i as int));
            assert(ps.take(i + 1).last() == parts@[i as int]@);
            if i == 0 {
                assert(ps.take(1) =~= seq![parts@[0]@]);
            }
        }
        i = i + 1;
    }
    proof {
        assert(ps.take(parts@.len() as int) =~= ps);
    }
}

/// Why a request's arguments are refused.
pub open spec fn unknown_args_message(cmd: Seq<char>, unknown: Seq<Seq<char>>) -> Seq<char> {
    "Unknown argument(s) for '"@ + cmd + "': "@ + join_comma(unknown) + ". Expected: "@ + join_comma(
        known_args_spec(cmd),
    )
}

/// Checks a request's argument names against what `cmd` accepts; the error
/// lists the unknown ones and what was expected.
pub fn validate_args(cmd: &str, keys: &Vec<String>) -> (r: Result<(), String>)
    ensures
        match r {
            Ok(()) => unknown_keys(cmd@, keys@, keys@.len()).len() == 0,
            Err(m) => unknown_keys(cmd@, keys@, keys@.len()).len() > 0 && m@ == unknown_args_message(
                cmd@,
                unknown_keys(cmd@, keys@, keys@.len()),
            ),
        },
{
    let known = known_args(cmd);
    let browser = is_browser_level(cmd);
    let mut unknown: Vec<Vec<char>> = Vec::new();
    let mut i: usize = 0;
    while i < keys.len()
        invariant
            strs_view(known@) == known_args_spec(cmd@),
            browser == browser_level_spec(cmd@),
            0 <= i <= keys@.len(),
            unknown@.map_values(|p: Vec<char>| p@) == unknown_keys(cmd@, keys@, i as nat),
        decreases keys@.len() - i,
    {
        let key = keys[i].as_str();
        let mut accepted = str_eq(key, "dialog_action") && !browser;
        let mut j: usize = 0;
        while j < known.len() && !accepted
            invariant
                strs_view(known@) == known_args_spec(cmd@),
                0 <= j <= known@.len(),
                accepted == ((key@ == "dialog_action"@ && !browser_level_spec(cmd@)) || exists|m: int|
                    0 <= m < j && known_args_spec(cmd@)[m] == key@),
            decreases known@.len() - j,
        {
            if str_eq(key, known[j]) {
                proof {
                    assert(known_args_spec(cmd@)[j as int] == known@[j as int]@);
                }
                accepted = true;
            }
            j = j + 1;
        }
        proof {
            if accepted {
                if !(key@ == "dialog_action"@ && !browser_level_spec(cmd@)) {
                    let m = choose|m: int| 0 <= m < j && known_args_spec(cmd@)[m] == key@;
                    assert(known_args_spec(cmd@).contains(key@));
                }
            } else {
                assert(j == known@.len());
                assert(!known_args_spec(cmd@).contains(key@)) by {
                    if known_args_spec(cmd@).contains(key@) {
                        let m = choose|m: int| 0 <= m < known_args_spec(cmd@).len() && known_args_spec(cmd@)[m] == key@;
                        assert(0 <= m < j);
                    }
                }
            }
        }
        let ghost before = unknown@;
        if !accepted {
            unknown.push(chars_of(key));
        }
        proof {
            assert(unknown@.map_values(|p: Vec<char>| p@) =~= unknown_keys(cmd@, keys@, (i + 1) as nat));
        }
        i = i + 1;
    }
    if unknown.len() == 0 {
        proof {
            assert(unknown@.map_values(|p: Vec<char>| p@).len() == 0);
        }
        return Ok(());
    }
    let mut known_parts: Vec<Vec<char>> = Vec::new();
    let mut k: usize = 0;
    while k < known.len()
        invariant
            0 <= k <= known@.len(),
            known_parts@.map_values(|p: Vec<char>| p@) == strs_view(known@).take(k as int),
        decreases known@.len() - k,
    {
        let ghost before = known_parts@;
        known_parts.push(chars_of(known[k]));
        proof {
            assert(strs_view(known@)[k as int] == known@[k as int]@);
            assert(known_parts@.map_values(|p: Vec<char>| p@) =~= before.map_values(|p: Vec<char>| p@).push(
                known@[k as int]@,
            ));
            assert(known_parts@.map_values(|p: Vec<char>| p@) =~= strs_view(known@).take(k + 1));
        }
        k = k + 1;
    }
    proof {
        assert(strs_view(known@).take(known@.len() as int) =~= strs_view(known@));
    }
    let mut v: Vec<char> = Vec::new();
    push_str(&mut v, "Unknown argument(s) for '");
    push_str(&mut v, cmd);
    push_str(&mut v, "': ");
    push_joined(&mut v, &unknown);
    push_str(&mut v, ". Expected: ");
    push_joined(&mut v, &known_parts);
    proof {
        assert(v@ =~= unknown_args_message(cmd@, unknown_keys(cmd@, keys@, keys@.len())));
    }
    Err(string_from_chars(v.as_slice()))
}

// ---------------------------------------------------------------------
// Dispatch
// ---------------------------------------------------------------------

/// The commands the daemon knows how to run.
pub open spec fn dispatched_spec(cmd: Seq<char>) -> bool {
    browser_level_spec(cmd) || cmd == "close-page"@ || cmd == "select-page"@ || cmd == "navigate"@
        || cmd == "screenshot"@ || cmd == "evaluate"@ || cmd == "click"@ || cmd == "click-at"@
        || cmd == "fill"@ || cmd == "type-text"@ || cmd == "press-key"@ || cmd == "hover"@
        || cmd == "snapshot"@ || cmd == "read-page"@ || cmd == "take-heapsnapshot"@ || cmd
        == "emulate"@ || cmd == "wait-for"@ || cmd == "list-3p-tools"@ || cmd == "execute-3p-tool"@
        || cmd == "console"@ || cmd == "network"@
}

/// Whether the daemon runs `cmd`; any other command is refused with
/// `Unknown command: <cmd>`.
pub fn check_dispatched(cmd: &str) -> (r: Result<(), String>)
    ensures
        dispatched_spec(cmd@) ==> r is Ok,
        !dispatched_spec(cmd@) ==> (r matches Err(e) && e@ == "Unknown command: "@ + cmd@),
{
    if is_browser_level(cmd) || str_eq(cmd, "close-page") || str_eq(cmd, "select-page") || str_eq(
        cmd,
        "navigate",
    ) || str_eq(cmd, "screenshot") || str_eq(cmd, "evaluate") || str_eq(cmd, "click") || str_eq(
        cmd,
        "click-at",
    ) || str_eq(cmd, "fill") || str_eq(cmd, "type-text") || str_eq(cmd, "press-key") || str_eq(
        cmd,
        "hover",
    ) || str_eq(cmd, "snapshot") || str_eq(cmd, "read-page") || str_eq(cmd, "take-heapsnapshot")
        || str_eq(cmd, "emulate") || str_eq(cmd, "wait-for") || str_eq(cmd, "list-3p-tools")
        || str_eq(cmd, "execute-3p-tool") || str_eq(cmd, "console") || str_eq(cmd, "network") {
        Ok(())
    } else {
        let mut v = chars_of("Unknown command: ");
        push_str(&mut v, cmd);
        Err(string_from_chars(v.as_slice()))
    }
}

/// The arguments a command cannot run without, and the error it reports
/// when one of them is missing.
pub open spec fn required_args_spec(cmd: Seq<char>) -> (Seq<Seq<char>>, Seq<char>) {
    if cmd == "new-page"@ {
        (seq!["url"@], "url required"@)
    } else if cmd == "evaluate"@ {
        (seq!["expression"@], "expression required"@)
    } else if cmd == "click"@ || cmd == "hover"@ {
        (seq!["selector"@], "selector required"@)
    } else if cmd == "click-at"@ {
        (seq!["x"@, "y"@], "x and y required"@)
    } else if cmd == "fill"@ {
        (seq!["selector"@, "value"@], "selector and value required"@)
    } else if cmd == "type-text"@ || cmd == "wait-for"@ {
        (seq!["text"@], "text required"@)
    } else if cmd == "press-key"@ {
        (seq!["key"@], "key required"@)
    } else if cmd == "take-heapsnapshot"@ {
        (seq!["output"@], "output required"@)
    } else if cmd == "execute-3p-tool"@ {
        (seq!["name"@], "name required"@)
    } else {
        (Seq::empty(), Seq::empty())
    }
}

/// Checks that every argument `cmd` cannot run without is among `present`
/// (the arguments given, each with a value of the type it needs).
pub fn check_required_args(cmd: &str, present: &Vec<String>) -> (r: Result<(), String>)
    ensures
        (forall|k: int|
            0 <= k < required_args_spec(cmd@).0.len() ==> listed(
                present@,
                #[trigger] required_args_spec(cmd@).0[k],
            )) ==> r is Ok,
        !(forall|k: int|
            0 <= k < required_args_spec(cmd@).0.len() ==> listed(
                present@,
                #[trigger] required_args_spec(cmd@).0[k],
            )) ==> (r matches Err(e) && e@ == required_args_spec(cmd@).1),
{
    let (names, message): (Vec<&'static str>, &'static str) = if str_eq(cmd, "new-page") {
        (vec!["url"], "url required")
    } else if str_eq(cmd, "evaluate") {
        (vec!["expression"], "expression required")
    } else if str_eq(cmd, "click") || str_eq(cmd, "hover") {
        (vec!["selector"], "selector required")
    } else if str_eq(cmd, "click-at") {
        (vec!["x", "y"], "x and y required")
    } else if str_eq(cmd, "fill") {
        (vec!["selector", "value"], "selector and value required")
    } else if str_eq(cmd, "type-text") || str_eq(cmd, "wait-for") {
        (vec!["text"], "text required")
    } else if str_eq(cmd, "press-key") {
        (vec!["key"], "key required")
    } else if str_eq(cmd, "take-heapsnapshot") {
        (vec!["output"], "output required")
    } else if str_eq(cmd, "execute-3p-tool") {
        (vec!["name"], "name required")
    } else {
        (Vec::new(), "")
    };
    proof {
        assert(strs_view(names@) =~= required_args_spec(cmd@).0);
        reveal_strlit("");
        assert(message@ == required_args_spec(cmd@).1);
    }
    let mut i: usize = 0;
    while i < names.len()
        invariant
            0 <= i <= names@.len(),
            strs_view(names@) == required_args_spec(cmd@).0,
            message@ == required_args_spec(cmd@).1,
            forall|k: int| 0 <= k < i ==> listed(present@, #[trigger] strs_view(names@)[k]),
        decreases names@.len() - i,
    {
        if !vec_contains(present, names[i]) {
            proof {
                assert(strs_view(names@)[i as int] == names@[i as int]@);
            }
            return Err(owned(message));
        }
        proof {
            assert(strs_view(names@)[i as int] == names@[i as int]@);
        }
        i = i + 1;
    }
    Ok(())
}

/// How long an event-collecting command listens when no duration is given:
/// three seconds for `sw-logs`, none for the others.
pub fn default_duration_ms(cmd: &str) -> (r: u64)
    ensures
        r == if cmd@ == "sw-logs"@ {
            3000u64
        } else {
            0u64
        },
{
    if str_eq(cmd, "sw-logs") {
        3000
    } else {
        0
    }
}

/// How long `wait-for` waits when no timeout is given.
pub const WAIT_FOR_DEFAULT_TIMEOUT_MS: u64 = 30_000;

/// Whether `cmd` runs in a session attached to its page: all page commands
/// but `close-page` and `select-page`.
pub fn opens_session(cmd: &str) -> (b: bool)
    ensures
        b == !(cmd@ == "close-page"@ || cmd@ == "select-page"@),
{
    !(str_eq(cmd, "close-page") || str_eq(cmd, "select-page"))
}

/// Whether a command on `target_id` runs in the persistent session: only
/// when there is one and it is attached to that very page.
pub fn uses_persistent_session(has_session: bool, persistent_target: Option<&str>, target_id: &str) -> (b:
    bool)
    ensures
        b == (has_session && (persistent_target matches Some(t) && t@ == target_id@)),
{
    has_session && match persistent_target {
        Some(t) => str_eq(t, target_id),
        None => false,
    }
}

// ---------------------------------------------------------------------
// Page selection
// ---------------------------------------------------------------------

/// The `id_or_index` argument of `close-page` and `select-page`, as sent.
pub enum IdOrIndexArg {
    /// A string: an index when it parses as one, else a page id.
    Text(String),
    /// A non-negative integer.
    Index(u64),
    /// Any other number.
    OtherNumber,
    /// Absent, or neither a string nor a number.
    Absent,
}

/// The page a command addresses: by id, or by index.
pub struct PageSelector {
    pub target: Option<String>,
    pub page: Option<usize>,
}

/// How `close-page`/`select-page` pick their page: a string argument is an
/// index when it parses as one and a page id otherwise; a number must be a
/// non-negative integer; without the argument the request's global
/// `--target`/`--page` apply. Other commands always use the globals.
pub fn page_selector(cmd: &str, arg: IdOrIndexArg, target: Option<String>, page: Option<usize>) -> (r:
    Result<PageSelector, String>)
    ensures
        !(cmd@ == "close-page"@ || cmd@ == "select-page"@) ==> (r matches Ok(s) && s.target == target
            && s.page == page),
        (cmd@ == "close-page"@ || cmd@ == "select-page"@) ==> match arg {
            IdOrIndexArg::Text(t) => match parse_bounded(t@, usize::MAX as nat) {
                Some(n) => r matches Ok(s) && s.target is None && s.page == Some(n as usize),
                None => r matches Ok(s) && (s.target matches Some(x) && x@ == t@) && s.page is None,
            },
            IdOrIndexArg::Index(n) => if n <= usize::MAX {
                r matches Ok(s) && s.target is None && s.page == Some(n as usize)
            } else {
                r matches Err(m) && m@ == "index too large"@
            },
            IdOrIndexArg::OtherNumber => r matches Err(m) && m@
                == "invalid numeric id_or_index: must be a non-negative integer"@,
            IdOrIndexArg::Absent => r matches Ok(s) && s.target == target && s.page == page,
        },
{
    if !(str_eq(cmd, "close-page") || str_eq(cmd, "select-page")) {
        return Ok(PageSelector { target, page });
    }
    match arg {
        IdOrIndexArg::Text(t) => {
            let tc = chars_of(t.as_str());
            match parse_u64_max(tc.as_slice(), usize::MAX as u64) {
                Some(n) => Ok(PageSelector { target: None, page: Some(n as usize) }),
                None => Ok(PageSelector { target: Some(t), page: None }),
            }
        },
        IdOrIndexArg::Index(n) => {
            if n <= usize::MAX as u64 {
                Ok(PageSelector { target: None, page: Some(n as usize) })
            } else {
                Err(owned("index too large"))
            }
        },
        IdOrIndexArg::OtherNumber => Err(owned("invalid numeric id_or_index: must be a non-negative integer")),
        IdOrIndexArg::Absent => Ok(PageSelector { target, page }),
    }
}

// ---------------------------------------------------------------------
// Block list
// ---------------------------------------------------------------------

/// Whether the global `--block-url`/`--unblock-url` flags are merged into
/// the tab's block list before `cmd` runs: not for `emulate` and `navigate`,
/// which apply them themselves, nor for `close-page`/`select-page`, which
/// open no session; and only when a flag was given.
pub fn merges_global_blocks(cmd: &str, block_count: usize, unblock_count: usize) -> (b: bool)
    ensures
        b == (!(cmd@ == "emulate"@ || cmd@ == "navigate"@ || cmd@ == "close-page"@ || cmd@
            == "select-page"@) && (block_count > 0 || unblock_count > 0)),
{
    !(str_eq(cmd, "emulate") || str_eq(cmd, "navigate") || str_eq(cmd, "close-page") || str_eq(
        cmd,
        "select-page",
    )) && (block_count > 0 || unblock_count > 0)
}

/// Some entry of `s` reads `x`.
pub open spec fn listed(s: Seq<String>, x: Seq<char>) -> bool {
    exists|i: int| 0 <= i < s.len() && #[trigger] s[i]@ == x
}

/// The block list after adding `block` (each pattern once, after the
/// existing ones) and then dropping every pattern in `unblock`.
pub open spec fn merged_blocks(list: Seq<Seq<char>>, block: Seq<String>, unblock: Seq<String>) -> Seq<
    Seq<char>,
> {
    with_added(list, block, block.len() as nat).filter(|p: Seq<char>| !listed(unblock, p))
}

/// `list` with the first `k` patterns of `block` appended, skipping any
/// already present.
pub open spec fn with_added(list: Seq<Seq<char>>, block: Seq<String>, k: nat) -> Seq<Seq<char>>
    decreases k,
{
    if k == 0 {
        list
    } else {
        let l = with_added(list, block, (k - 1) as nat);
        if l.contains(block[k - 1]@) {
            l
        } else {
            l.push(block[k - 1]@)
        }
    }
}

proof fn lemma_listed(s: Seq<String>, x: Seq<char>)
    ensures
        listed(s, x) <==> s.map_values(|e: String| e@).contains(x),
{
    let m = s.map_values(|e: String| e@);
    if listed(s, x) {
        let j = choose|j: int| 0 <= j < s.len() && #[trigger] s[j]@ == x;
        assert(m[j] == x);
    }
    if m.contains(x) {
        let j = choose|j: int| 0 <= j < m.len() && #[trigger] m[j] == x;
        assert(s[j]@ == x);
    }
}

/// After the block flags are merged, every pattern asked to be blocked and
/// not unblocked is in the list, no unblocked pattern is, every earlier
/// pattern that was not unblocked stays, and nothing else comes in.
pub proof fn lemma_merged_blocks_members(list: Seq<Seq<char>>, block: Seq<String>, unblock: Seq<String>, p: Seq<char>)
    ensures
        merged_blocks(list, block, unblock).contains(p) <==> (!listed(unblock, p) && (list.contains(p)
            || listed(block, p))),
{
    lemma_with_added_members(list, block, block.len() as nat, p);
    let w = with_added(list, block, block.len() as nat);
    let pred = |q: Seq<char>| !listed(unblock, q);
    let f = w.filter(pred);
    assert(merged_blocks(list, block, unblock) == f);
    if f.contains(p) {
        let i = choose|i: int| 0 <= i < f.len() && f[i] == p;
        w.lemma_filter_pred(pred, i);
        w.lemma_filter_contains_rev(pred, p);
    }
    if !listed(unblock, p) && w.contains(p) {
        let i = choose|i: int| 0 <= i < w.len() && w[i] == p;
        w.lemma_filter_contains(pred, i);
    }
    if listed(block, p) {
        let j = choose|j: int| 0 <= j < block.len() && #[trigger] block[j]@ == p;
        assert(exists|j2: int| 0 <= j2 < block.len() && #[trigger] block[j2]@ == p);
    }
    if exists|j: int| 0 <= j < block.len() && #[trigger] block[j]@ == p {
        let j = choose|j: int| 0 <= j < block.len() && #[trigger] block[j]@ == p;
        assert(listed(block, p));
    }
}

proof fn lemma_with_added_members(list: Seq<Seq<char>>, block: Seq<String>, k: nat, p: Seq<char>)
    requires
        k <= block.len(),
    ensures
        with_added(list, block, k).contains(p) <==> (list.contains(p) || exists|j: int|
            0 <= j < k && #[trigger] block[j]@ == p),
    decreases k,
{
    if k > 0 {
        lemma_with_added_members(list, block, (k - 1) as nat, p);
        let l = with_added(list, block, (k - 1) as nat);
        if !l.contains(block[k - 1]@) {
            let l2 = l.push(block[k - 1]@);
            assert(l2.last() == block[k - 1]@);
            if l2.contains(p) {
                let i = choose|i: int| 0 <= i < l2.len() && #[trigger] l2[i] == p;
                if i < l.len() {
                    assert(l[i] == p);
                }
            }
            if l.contains(p) {
                let i = choose|i: int| 0 <= i < l.len() && #[trigger] l[i] == p;
                assert(l2[i] == p);
            }
        }
        if exists|j: int| 0 <= j < k && #[trigger] block[j]@ == p {
            let j = choose|j: int| 0 <= j < k && #[trigger] block[j]@ == p;
            if j < k - 1 {
                assert(exists|j2: int| 0 <= j2 < k - 1 && #[trigger] block[j2]@ == p);
            }
        }
    }
}

/// Whether `s` holds `x`.
fn vec_contains(s: &Vec<String>, x: &str) -> (b: bool)
    ensures
        b == listed(s@, x@),
{
    let mut i: usize = 0;
    while i < s.len()
        invariant
            0 <= i <= s@.len(),
            forall|j: int| 0 <= j < i ==> s@[j]@ != x@,
        decreases s@.len() - i,
    {
        if str_eq(s[i].as_str(), x) {
            return true;
        }
        i = i + 1;
    }
    false
}

/// Merges the global block flags into a tab's block list (see
/// `merged_blocks`).
pub fn merge_blocklist(list: &mut Vec<String>, block: &Vec<String>, unblock: &Vec<String>)
    ensures
        final(list)@.map_values(|e: String| e@) == merged_blocks(
            old(list)@.map_values(|e: String| e@),
            block@,
            unblock@,
        ),
{
    let ghost start = old(list)@.map_values(|e: String| e@);
    let mut i: usize = 0;
    while i < block.len()
        invariant
            0 <= i <= block@.len(),
            start == old(list)@.map_values(|e: String| e@),
            list@.map_values(|e: String| e@) == with_added(start, block@, i as nat),
        decreases block@.len() - i,
    {
        let p = block[i].as_str();
        let present = vec_contains(list, p);
        proof {
            lemma_listed(list@, p@);
        }
        if !present {
            list.push(owned(p));
        }
        proof {
            assert(list@.map_values(|e: String| e@) =~= with_added(start, block@, (i + 1) as nat));
        }
        i = i + 1;
    }
    let ghost added = list@.map_values(|e: String| e@);
    let mut kept: Vec<String> = Vec::new();
    let mut k: usize = 0;
    while k < list.len()
        invariant
            0 <= k <= list@.len(),
            added == list@.map_values(|e: String| e@),
            kept@.map_values(|e: String| e@) == added.take(k as int).filter(|p: Seq<char>| !listed(unblock@, p)),
        decreases list@.len() - k,
    {
        let p = list[k].as_str();
        let drop = vec_contains(unblock, p);
        proof {
            assert(added.take(k + 1).drop_last() =~= added.take(k as int));
            assert(p@ == added[k as int]);
            added.take(k as int).lemma_filter_push(added[k as int], |p: Seq<char>| !listed(unblock@, p));
            assert(added.take(k + 1) =~= added.take(k as int).push(added[k as int]));
        }
        if !drop {
            kept.push(owned(p));
        }
        proof {
            assert(kept@.map_values(|e: String| e@) =~= added.take(k + 1).filter(|p: Seq<char>| !listed(unblock@, p)));
        }
        k = k + 1;
    }
    proof {
        assert(added.take(list@.len() as int) =~= added);
    }
    *list = kept;
}

} // verus!
