//! The pure parts of script evaluation: the output text of an evaluation,
//! adapter domain headers, and the domain match that guards adapters.
use crate::text::{
    to_lowercase, to_lowercase_spec, chars_of, contains_seq, ends_with, ends_with_chars, find_char_from, first_char_from, is_whitespace, is_ws,
    lemma_first_char_from, line_pieces, occurs_at, push_all, push_str, slice_vec, split_lines, starts_with,
    starts_with_chars, string_from_chars,
};
use vstd::prelude::*;

verus! {

// ---------------------------------------------------------------------
// Adapter domains
// ---------------------------------------------------------------------

/// The first position of `needle` in `hay`, if any.
#[verifier::opaque]
pub open spec fn first_occurrence(hay: Seq<char>, needle: Seq<char>) -> Option<int> {
    if exists|i: int| occurs_at(hay, needle, i) {
        Some(choose|i: int| occurs_at(hay, needle, i) && forall|j: int| 0 <= j < i ==> !occurs_at(hay, needle, j))
    } else {
        None
    }
}

proof fn lemma_first_occurrence_is(hay: Seq<char>, needle: Seq<char>, i: int)
    requires
        occurs_at(hay, needle, i),
        forall|j: int| 0 <= j < i ==> !occurs_at(hay, needle, j),
    ensures
        first_occurrence(hay, needle) == Some(i),
{
    reveal(first_occurrence);
    let w = choose|w: int| occurs_at(hay, needle, w) && forall|j: int| 0 <= j < w ==> !occurs_at(hay, needle, j);
    if w < i {
        assert(!occurs_at(hay, needle, w));
    } else if w > i {
        assert(!occurs_at(hay, needle, i));
    }
}

proof fn lemma_first_occurrence_none(hay: Seq<char>, needle: Seq<char>)
    requires
        forall|j: int| !occurs_at(hay, needle, j),
    ensures
        first_occurrence(hay, needle) is None,
{
    reveal(first_occurrence);
}

/// `str::find`.
fn find_seq(hay: &[char], needle: &[char]) -> (r: Option<usize>)
    ensures
        match r {
            Some(i) => first_occurrence(hay@, needle@) == Some(i as int) && i + needle@.len() <= hay@.len(),
            None => first_occurrence(hay@, needle@) is None,
        },
{
    if needle.len() > hay.len() {
        proof {
            assert forall|j: int| !occurs_at(hay@, needle@, j) by {}
            lemma_first_occurrence_none(hay@, needle@);
        }
        return None;
    }
    let last = hay.len() - needle.len();
    let mut i: usize = 0;
    while i < last
        invariant
            last == hay@.len() - needle@.len(),
            0 <= i <= last,
            forall|j: int| 0 <= j < i ==> !occurs_at(hay@, needle@, j),
        decreases last - i,
    {
        if crate::text::matches_at(hay, needle, i) {
            proof {
                lemma_first_occurrence_is(hay@, needle@, i as int);
            }
            return Some(i);
        }
        i = i + 1;
    }
    if crate::text::matches_at(hay, needle, last) {
        proof {
            lemma_first_occurrence_is(hay@, needle@, last as int);
        }
        return Some(last);
    }
    proof {
        assert forall|j: int| !occurs_at(hay@, needle@, j) by {
            if j > last {
            }
        }
        lemma_first_occurrence_none(hay@, needle@);
    }
    None
}

/// The first whitespace-delimited word of `s` (empty when there is none).
pub open spec fn first_word(s: Seq<char>) -> Seq<char> {
    let t = crate::text::trim_start(s);
    match first_ws(t) {
        Some(k) => t.take(k),
        None => t,
    }
}

/// The first whitespace position in `s`.
#[verifier::opaque]
pub open spec fn first_ws(s: Seq<char>) -> Option<int> {
    if exists|i: int| 0 <= i < s.len() && is_ws(s[i]) {
        Some(choose|i: int| 0 <= i < s.len() && is_ws(s[i]) && forall|j: int| 0 <= j < i ==> !is_ws(s[j]))
    } else {
        None
    }
}

/// See `first_word`.
fn first_word_exec(s: &[char]) -> (r: Vec<char>)
    ensures
        r@ == first_word(s@),
{
    let t = crate::text::trim_start_chars(s);
    let mut k: usize = 0;
    while k < t.len() && !is_whitespace(t[k])
        invariant
            0 <= k <= t@.len(),
            forall|j: int| 0 <= j < k ==> !is_ws(#[trigger] t@[j]),
        decreases t@.len() - k,
    {
        k = k + 1;
    }
    proof {
        reveal(first_ws);
        if k < t@.len() {
            let w = choose|i: int| 0 <= i < t@.len() && is_ws(t@[i]) && forall|j: int| 0 <= j < i ==> !is_ws(t@[j]);
            assert(0 <= k < t@.len() && is_ws(t@[k as int]) && forall|j: int| 0 <= j < k ==> !is_ws(t@[j]));
            if w < k {
                assert(!is_ws(t@[w]));
            } else if w > k {
                assert(!is_ws(t@[k as int]));
            }
            assert(first_ws(t@) == Some(k as int));
            assert(t@.subrange(0, k as int) =~= t@.take(k as int));
        } else {
            assert(first_ws(t@) is None);
            assert(t@.subrange(0, k as int) =~= t@);
        }
    }
    slice_vec(t.as_slice(), 0, k)
}

/// The domain a line declares: the first word after its first `@domain`,
/// when there is one.
pub open spec fn line_domain(line: Seq<char>) -> Option<Seq<char>> {
    match first_occurrence(line, "@domain"@) {
        Some(p) => {
            let w = first_word(line.skip(p + 7));
            if w.len() > 0 {
                Some(w)
            } else {
                None
            }
        },
        None => None,
    }
}

/// The domains declared by the first `k` lines, in order.
pub open spec fn domains_of_lines(lines: Seq<Seq<char>>, k: nat) -> Seq<Seq<char>>
    decreases k,
{
    if k == 0 {
        Seq::empty()
    } else {
        let rest = domains_of_lines(lines, (k - 1) as nat);
        match line_domain(lines[k - 1]) {
            Some(d) => rest.push(d),
            None => rest,
        }
    }
}

/// The `@domain` declarations of an adapter script, in order.
pub fn parse_adapter_domains(content: &str) -> (r: Vec<String>)
    ensures
        r@.map_values(|s: String| s@) == domains_of_lines(line_pieces(content@), line_pieces(content@).len() as nat),
{
    let chars = chars_of(content);
    let lines = split_lines(chars.as_slice());
    let ghost ls = line_pieces(content@);
    let tag = chars_of("@domain");
    proof {
        reveal_strlit("@domain");
    }
    let mut out: Vec<String> = Vec::new();
    let mut i: usize = 0;
    while i < lines.len()
        invariant
            chars@ == content@,
            ls == line_pieces(content@),
            lines@.len() == ls.len(),
            forall|k: int| 0 <= k < lines@.len() ==> #[trigger] lines@[k]@ == ls[k],
            tag@ == "@domain"@,
            tag@.len() == 7,
            0 <= i <= lines@.len(),
            out@.map_values(|s: String| s@) == domains_of_lines(ls, i as nat),
        decreases lines@.len() - i,
    {
        let line = &lines[i];
        let n = line.len();
        let ghost before = out@;
        match find_seq(line.as_slice(), tag.as_slice()) {
            Some(p) => {
                let rest = slice_vec(line.as_slice(), p + 7, line.len());
                let w = first_word_exec(rest.as_slice());
                proof {
                    assert(rest@ =~= line@.skip(p + 7));
                }
                if w.len() > 0 {
                    out.push(string_from_chars(w.as_slice()));
                }
            },
            None => {},
        }
        proof {
            assert(out@.map_values(|s: String| s@) =~= domains_of_lines(ls, (i + 1) as nat));
        }
        i = i + 1;
    }
    out
}

// ---------------------------------------------------------------------
// Domain match
// ---------------------------------------------------------------------

/// The host part of a URL: without an `https://` or `http://` prefix, up to
/// the first `/`, then up to the first `:`.
pub open spec fn host_of(url: Seq<char>) -> Seq<char> {
    let s = if starts_with(url, "https://"@) {
        url.skip(8)
    } else if starts_with(url, "http://"@) {
        url.skip(7)
    } else {
        url
    };
    let h = match first_char_from(s, '/', 0) {
        Some(i) => s.take(i),
        None => s,
    };
    match first_char_from(h, ':', 0) {
        Some(i) => h.take(i),
        None => h,
    }
}

/// Whether the (lowercased) host of `url` is `domain` or one of its
/// subdomains.
pub open spec fn url_matches_domain_spec(url: Seq<char>, domain: Seq<char>) -> bool {
    let h = host_of(to_lowercase_spec(url));
    let d = to_lowercase_spec(domain);
    h == d || ends_with(h, seq!['.'] + d)
}

/// `s` up to the first `c` (all of it when there is none).
fn before_char(s: &[char], c: char) -> (r: Vec<char>)
    ensures
        r@ == (match first_char_from(s@, c, 0) {
            Some(i) => s@.take(i),
            None => s@,
        }),
{
    match find_char_from(s, c, 0) {
        Some(i) => {
            proof {
                assert(s@.subrange(0, i as int) =~= s@.take(i as int));
            }
            slice_vec(s, 0, i)
        },
        None => {
            proof {
                assert(s@.subrange(0, s@.len() as int) =~= s@);
            }
            slice_vec(s, 0, s.len())
        },
    }
}

/// Whether a URL is on `domain` or a subdomain of it, ignoring case.
pub fn url_matches_domain(url: &str, domain: &str) -> (b: bool)
    ensures
        b == url_matches_domain_spec(url@, domain@),
{
    let ul = to_lowercase(url);
    let dl = to_lowercase(domain);
    let u = chars_of(ul.as_str());
    let d = chars_of(dl.as_str());
    let https = chars_of("https://");
    let http = chars_of("http://");
    proof {
        reveal_strlit("https://");
        reveal_strlit("http://");
    }
    let s: Vec<char> = if starts_with_chars(u.as_slice(), https.as_slice()) {
        slice_vec(u.as_slice(), 8, u.len())
    } else if starts_with_chars(u.as_slice(), http.as_slice()) {
        slice_vec(u.as_slice(), 7, u.len())
    } else {
        slice_vec(u.as_slice(), 0, u.len())
    };
    proof {
        if u@.len() >= 8 {
            assert(u@.subrange(8, u@.len() as int) =~= u@.skip(8));
        }
        if u@.len() >= 7 {
            assert(u@.subrange(7, u@.len() as int) =~= u@.skip(7));
        }
        assert(u@.subrange(0, u@.len() as int) =~= u@);
    }
    let h1 = before_char(s.as_slice(), '/');
    let h = before_char(h1.as_slice(), ':');
    if h.len() == d.len() && crate::text::matches_at(h.as_slice(), d.as_slice(), 0) {
        proof {
            assert(h@.subrange(0, d@.len() as int) =~= h@);
        }
        return true;
    }
    let mut dotted: Vec<char> = Vec::new();
    dotted.push('.');
    push_all(&mut dotted, d.as_slice());
    proof {
        assert(dotted@ =~= seq!['.'] + d@);
        if h@ == d@ {
            assert(h@.subrange(0, d@.len() as int) =~= h@);
        }
    }
    ends_with_chars(h.as_slice(), dotted.as_slice())
}

/// Where an adapter navigates when the page is on none of its domains:
/// its first domain, taken as a URL when it already is one and otherwise
/// as `https://www.<domain>`.
pub fn adapter_target_url(domain: &str) -> (r: String)
    ensures
        r@ == (if starts_with(domain@, "http://"@) || starts_with(domain@, "https://"@) {
            domain@
        } else {
            "https://www."@ + domain@
        }),
{
    let d = chars_of(domain);
    let http = chars_of("http://");
    let https = chars_of("https://");
    if starts_with_chars(d.as_slice(), http.as_slice()) || starts_with_chars(d.as_slice(), https.as_slice()) {
        crate::text::owned(domain)
    } else {
        let mut v: Vec<char> = Vec::new();
        push_str(&mut v, "https://www.");
        push_all(&mut v, d.as_slice());
        string_from_chars(v.as_slice())
    }
}

/// Whether any of the adapter's domains matches the page URL.
pub fn url_matches_any_domain(url: &str, domains: &Vec<String>) -> (b: bool)
    ensures
        b == exists|i: int| 0 <= i < domains@.len() && url_matches_domain_spec(url@, #[trigger] domains@[i]@),
{
    let mut i: usize = 0;
    while i < domains.len()
        invariant
            0 <= i <= domains@.len(),
            forall|j: int| 0 <= j < i ==> !url_matches_domain_spec(url@, #[trigger] domains@[j]@),
        decreases domains@.len() - i,
    {
        if url_matches_domain(url, domains[i].as_str()) {
            return true;
        }
        i = i + 1;
    }
    false
}

// ---------------------------------------------------------------------
// Page scripts and adapters
// ---------------------------------------------------------------------

/// What a page script sees before its own code: the `ctx` object with the
/// script's arguments (`args_json`, a JSON text) and its helpers `wait`,
/// `waitForText`, `waitForSelector`, `click` and `fill`.
pub open spec fn script_prelude_spec(args_json: Seq<char>) -> Seq<char> {
    "(async () => {\n            const ctx = {\n                args: "@ + args_json + ",\n                wait: async (ms) => new Promise(r => setTimeout(r, ms)),\n                waitForText: async (text, timeout = 30000) => {\n                    const start = Date.now();\n                    while (Date.now() - start < timeout) {\n                        if (document.body && document.body.innerText.includes(text)) return;\n                        await new Promise(r => setTimeout(r, 100));\n                    }\n                    throw new Error(\"Timeout waiting for text: \" + text);\n                },\n                waitForSelector: async (selector, timeout = 30000) => {\n                    const start = Date.now();\n                    while (Date.now() - start < timeout) {\n                        if (document.querySelector(selector)) return;\n                        await new Promise(r => setTimeout(r, 100));\n                    }\n                    throw new Error(\"Timeout waiting for selector: \" + selector);\n                },\n                click: async (selector) => {\n                    const el = document.querySelector(selector);\n                    if (!el) throw new Error(\"Element not found: \" + selector);\n                    el.click();\n                },\n                fill: async (selector, value) => {\n                    const el = document.querySelector(selector);\n                    if (!el) throw new Error(\"Element not found: \" + selector);\n                    el.value = value;\n                    el.dispatchEvent(new Event('input', { bubbles: true }));\n                    el.dispatchEvent(new Event('change', { bubbles: true }));\n                }\n            };\n\n            "@
}

fn push_script_prelude(m: &mut Vec<char>, args_json: &str)
    ensures
        final(m)@ == old(m)@ + script_prelude_spec(args_json@),
{
    let ghost start = m@;
    push_str(m, "(async () => {\n            const ctx = {\n                args: ");
    push_str(m, args_json);
    push_str(m, ",\n                wait: async (ms) => new Promise(r => setTimeout(r, ms)),\n                waitForText: async (text, timeout = 30000) => {\n                    const start = Date.now();\n                    while (Date.now() - start < timeout) {\n                        if (document.body && document.body.innerText.includes(text)) return;\n                        await new Promise(r => setTimeout(r, 100));\n                    }\n                    throw new Error(\"Timeout waiting for text: \" + text);\n                },\n                waitForSelector: async (selector, timeout = 30000) => {\n                    const start = Date.now();\n                    while (Date.now() - start < timeout) {\n                        if (document.querySelector(selector)) return;\n                        await new Promise(r => setTimeout(r, 100));\n                    }\n                    throw new Error(\"Timeout waiting for selector: \" + selector);\n                },\n                click: async (selector) => {\n                    const el = document.querySelector(selector);\n                    if (!el) throw new Error(\"Element not found: \" + selector);\n                    el.click();\n                },\n                fill: async (selector, value) => {\n                    const el = document.querySelector(selector);\n                    if (!el) throw new Error(\"Element not found: \" + selector);\n                    el.value = value;\n                    el.dispatchEvent(new Event('input', { bubbles: true }));\n                    el.dispatchEvent(new Event('change', { bubbles: true }));\n                }\n            };\n\n            ");
    proof {
        assert(m@ =~= start + script_prelude_spec(args_json@));
    }
}

/// The expression that runs a local script in the page: the script's code
/// after the `ctx` prelude, inside an async function called at once.
pub fn script_iife(args_json: &str, script: &str) -> (r: String)
    ensures
        r@ == script_prelude_spec(args_json@) + script@ + "\n        })()"@,
{
    let mut m: Vec<char> = Vec::new();
    push_script_prelude(&mut m, args_json);
    push_str(&mut m, script);
    push_str(&mut m, "\n        })()");
    string_from_chars(m.as_slice())
}

/// The expression that runs function `function_name` of an adapter script
/// in the page: the adapter's code after the `ctx` prelude, then a call of
/// the function with `ctx` (an error when the adapter defines no such
/// function).
pub fn adapter_iife(args_json: &str, script: &str, function_name: &str) -> (r: String)
    ensures
        r@ == script_prelude_spec(args_json@) + script@ + "\n\n            if (typeof "@ + function_name@ + " !== 'function') {\n                throw new Error(\"Function '"@
            + function_name@ + "' not found in adapter\");\n            }\n            return await "@ + function_name@ + "(ctx);\n        })()"@,
{
    let mut m: Vec<char> = Vec::new();
    push_script_prelude(&mut m, args_json);
    push_str(&mut m, script);
    push_str(&mut m, "\n\n            if (typeof ");
    push_str(&mut m, function_name);
    push_str(&mut m, " !== 'function') {\n                throw new Error(\"Function '");
    push_str(&mut m, function_name);
    push_str(&mut m, "' not found in adapter\");\n            }\n            return await ");
    push_str(&mut m, function_name);
    push_str(&mut m, "(ctx);\n        })()");
    string_from_chars(m.as_slice())
}

// ---------------------------------------------------------------------
// Evaluation output
// ---------------------------------------------------------------------

/// Whether an expression walks the DOM by hand (and earns a hint to use
/// `snapshot` instead).
pub open spec fn dom_traversal_spec(expr: Seq<char>) -> bool {
    contains_seq(expr, "querySelector"@) || contains_seq(expr, "document.body"@) || contains_seq(
        expr,
        "getElementById"@,
    ) || contains_seq(expr, "getElementsBy"@)
}

/// The hint appended to the text of a DOM-walking evaluation.
pub open spec fn dom_hint() -> Seq<char> {
    "\n\n[HINT: Avoid using `evaluate` for DOM traversal. Use the `snapshot` command to get a clean accessibility tree of the page, then use `click` or `fill`.]"@
}

/// The text of an evaluation result, followed by the DOM hint when the
/// expression walks the DOM.
pub fn evaluation_text(expression: &str, value_text: &str) -> (r: String)
    ensures
        r@ == value_text@ + (if dom_traversal_spec(expression@) {
            dom_hint()
        } else {
            Seq::empty()
        }),
{
    let mut v = chars_of(value_text);
    if crate::text::str_contains(expression, "querySelector") || crate::text::str_contains(expression, "document.body")
        || crate::text::str_contains(expression, "getElementById") || crate::text::str_contains(
        expression,
        "getElementsBy",
    ) {
        push_str(
            &mut v,
            "\n\n[HINT: Avoid using `evaluate` for DOM traversal. Use the `snapshot` command to get a clean accessibility tree of the page, then use `click` or `fill`.]",
        );
    }
    proof {
        assert(v@ =~= value_text@ + (if dom_traversal_spec(expression@) {
            dom_hint()
        } else {
            Seq::empty()
        }));
    }
    string_from_chars(v.as_slice())
}

/// The error an evaluation that threw reports: its description, then a hint
/// to explore the page with `snapshot`.
pub fn exception_message(description: &str) -> (r: String)
    ensures
        r@ == description@
            + "\n\n[HINT: To explore the page DOM, use the `snapshot` command instead of `evaluate`. To interact with elements, use `click` or `fill`.]"@,
{
    let mut v = chars_of(description);
    push_str(
        &mut v,
        "\n\n[HINT: To explore the page DOM, use the `snapshot` command instead of `evaluate`. To interact with elements, use `click` or `fill`.]",
    );
    string_from_chars(v.as_slice())
}

} // verus!
