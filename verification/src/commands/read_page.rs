//! Reading a page: the `<title>` fallback, entity decoding, and the iframe
//! unwrapping that lets embedded documents convert as ordinary HTML.
use crate::text::{
    chars_of, eq_ci, find_char_from, find_ci_from, first_char_from, first_ci_from, lemma_first_char_from,
    lemma_first_ci_from, occurs_ci_at, push_all, slice_vec, string_from_chars, trim, trim_chars,
};
use vstd::prelude::*;

verus! {

// ---------------------------------------------------------------------
// Entities and the title
// ---------------------------------------------------------------------

/// What `html_escape::decode_html_entities` makes of a text.
pub uninterp spec fn decode_entities_spec(s: Seq<char>) -> Seq<char>;

/// `html_escape::decode_html_entities`, which decodes the named and numeric
/// character references that end in `;` and leaves the rest of the text as
/// it is. The contract names the result, a function of the text alone.
#[verifier::external_body]
fn html_escape_decode(s: &str) -> (r: String)
    ensures
        r@ == decode_entities_spec(s@),
{
    html_escape::decode_html_entities(s).into_owned()
}

/// Decodes HTML character references (`&amp;`, `&#39;`, ...), once.
pub fn decode_html_entities(s: &str) -> (r: String)
    ensures
        r@ == decode_entities_spec(s@),
{
    html_escape_decode(s)
}

/// The trimmed text between the first `<title` tag (matched without regard
/// to case) and the next `</title>`.
pub open spec fn title_text(h: Seq<char>) -> Option<Seq<char>> {
    match first_ci_from(h, "<title"@, 0) {
        None => None,
        Some(open) => match first_char_from(h, '>', open) {
            None => None,
            Some(g) => match first_ci_from(h, "</title>"@, g + 1) {
                None => None,
                Some(end) => Some(trim(h.subrange(g + 1, end))),
            },
        },
    }
}

/// The page title from the raw HTML, decoded; `None` when there is no
/// `<title>` element or its text is blank.
#[verifier::rlimit(50)]
pub fn extract_title_from_html(html: &str) -> (r: Option<String>)
    ensures
        match title_text(html@) {
            Some(t) => if t.len() > 0 {
                r matches Some(s) && s@ == decode_entities_spec(t)
            } else {
                r is None
            },
            None => r is None,
        },
{
    let h = chars_of(html);
    let n = h.len();
    let open_tag = chars_of("<title");
    let close_tag = chars_of("</title>");
    let open = match find_ci_from(h.as_slice(), open_tag.as_slice(), 0) {
        Some(o) => o,
        None => {
            return None;
        },
    };
    let g = match find_char_from(h.as_slice(), '>', open) {
        Some(g) => g,
        None => {
            return None;
        },
    };
    let start = g + 1;
    let end = match find_ci_from(h.as_slice(), close_tag.as_slice(), start) {
        Some(e) => e,
        None => {
            return None;
        },
    };
    let inner = slice_vec(h.as_slice(), start, end);
    let t = trim_chars(inner.as_slice());
    if t.len() == 0 {
        None
    } else {
        let ts = string_from_chars(t.as_slice());
        Some(decode_html_entities(ts.as_str()))
    }
}

// ---------------------------------------------------------------------
// Unwrapping iframes
// ---------------------------------------------------------------------

/// The search for an innermost `<iframe>` (one whose content holds no other
/// `<iframe`), scanning `r` from `sf`: an opening tag with no `>` is skipped,
/// one with no closing tag is removed from the text and the scan resumes.
/// Yields the text as it stands after such removals and, when found, the
/// positions of the opening tag, of the content and of its closing tag.
#[verifier::opaque]
pub open spec fn scan(r: Seq<char>, sf: int) -> (Seq<char>, Option<(int, int, int)>)
    decreases r.len(), r.len() - sf,
{
    if !(0 <= sf <= r.len()) {
        (r, None)
    } else {
        match first_ci_from(r, "<iframe"@, sf) {
            None => (r, None),
            Some(open) => {
                proof {
                    lemma_first_ci_from(r, "<iframe"@, sf);
                    reveal_strlit("<iframe");
                }
                match first_char_from(r, '>', open) {
                    None => scan(r, open + 1),
                    Some(g) => {
                        proof {
                            lemma_first_char_from(r, '>', open);
                        }
                        match first_ci_from(r, "</iframe"@, g + 1) {
                            Some(close) => if first_ci_from(r.subrange(g + 1, close), "<iframe"@, 0) is None {
                                (r, Some((open, g + 1, close)))
                            } else {
                                scan(r, g + 1)
                            },
                            None => scan(r.take(open) + r.skip(g + 1), sf),
                        }
                    },
                }
            },
        }
    }
}

/// The closing `</iframe` at `close` ends at the next `>`, unless a `<`
/// comes first (the tag would run into another).
pub open spec fn close_tag_end(r: Seq<char>, close: int) -> Option<int> {
    match first_char_from(r, '>', close) {
        None => None,
        Some(g) => match first_char_from(r, '<', close + 1) {
            Some(x) => if x < g {
                None
            } else {
                Some(g + 1)
            },
            None => Some(g + 1),
        },
    }
}

pub proof fn lemma_scan(r: Seq<char>, sf: int)
    ensures
        scan(r, sf).0.len() <= r.len(),
        scan(r, sf).1 matches Some((open, te, close)) ==> 0 <= open < te <= close && occurs_ci_at(
            scan(r, sf).0,
            "</iframe"@,
            close,
        ) && first_ci_from(scan(r, sf).0.subrange(te, close), "<iframe"@, 0) is None
            && first_ci_from(scan(r, sf).0, "</iframe"@, te) == Some(close),
    decreases r.len(), r.len() - sf,
{
    reveal(scan);
    if 0 <= sf <= r.len() {
        lemma_first_ci_from(r, "<iframe"@, sf);
        reveal_strlit("<iframe");
        match first_ci_from(r, "<iframe"@, sf) {
            None => {},
            Some(open) => {
                lemma_first_char_from(r, '>', open);
                match first_char_from(r, '>', open) {
                    None => {
                        lemma_scan(r, open + 1);
                    },
                    Some(g) => {
                        lemma_first_ci_from(r, "</iframe"@, g + 1);
                        match first_ci_from(r, "</iframe"@, g + 1) {
                            Some(close) => {
                                if first_ci_from(r.subrange(g + 1, close), "<iframe"@, 0) is None {
                                } else {
                                    lemma_scan(r, g + 1);
                                }
                            },
                            None => {
                                lemma_scan(r.take(open) + r.skip(g + 1), sf);
                            },
                        }
                    },
                }
            },
        }
    }
}

/// Unwraps every `<iframe>`, innermost first, keeping its content in place
/// of the element; stops at an element whose closing tag runs into another
/// tag. Opening tags with no closing tag are dropped.
#[verifier::opaque]
pub open spec fn unwrap_spec(r: Seq<char>) -> Seq<char>
    decreases r.len(),
{
    let (r2, best) = scan(r, 0);
    match best {
        None => r2,
        Some((open, te, close)) => match close_tag_end(r2, close) {
            None => r2,
            Some(ce) => {
                proof {
                    lemma_scan(r, 0);
                    lemma_first_char_from(r2, '>', close);
                    reveal_strlit("</iframe");
                }
                unwrap_spec(r2.take(open) + r2.subrange(te, close) + r2.skip(ce))
            },
        },
    }
}

/// One step of `scan`, for a scan position within the text.
proof fn lemma_scan_unfold(r: Seq<char>, sf: int)
    requires
        0 <= sf <= r.len(),
    ensures
        scan(r, sf) == (match first_ci_from(r, "<iframe"@, sf) {
            None => (r, None),
            Some(open) => match first_char_from(r, '>', open) {
                None => scan(r, open + 1),
                Some(g) => match first_ci_from(r, "</iframe"@, g + 1) {
                    Some(close) => if first_ci_from(r.subrange(g + 1, close), "<iframe"@, 0) is None {
                        (r, Some((open, g + 1, close)))
                    } else {
                        scan(r, g + 1)
                    },
                    None => scan(r.take(open) + r.skip(g + 1), sf),
                },
            },
        }),
{
    reveal(scan);
}

/// One step of `unwrap_spec`.
proof fn lemma_unwrap_unfold(r: Seq<char>)
    ensures
        unwrap_spec(r) == (match scan(r, 0).1 {
            None => scan(r, 0).0,
            Some((open, te, close)) => match close_tag_end(scan(r, 0).0, close) {
                None => scan(r, 0).0,
                Some(ce) => unwrap_spec(
                    scan(r, 0).0.take(open) + scan(r, 0).0.subrange(te, close) + scan(r, 0).0.skip(ce),
                ),
            },
        }),
{
    reveal(unwrap_spec);
}

/// Text with no `<iframe` tag, in any letter case, comes back unchanged.
pub proof fn lemma_unwrap_without_iframes(r: Seq<char>)
    requires
        forall|i: int| !#[trigger] occurs_ci_at(r, "<iframe"@, i),
    ensures
        unwrap_spec(r) == r,
{
    assert(first_ci_from(r, "<iframe"@, 0) is None) by {
        reveal(first_ci_from);
    }
    assert(scan(r, 0) == (r, None::<(int, int, int)>)) by {
        reveal(scan);
    }
    lemma_unwrap_unfold(r);
}

/// A tag search finds nothing in text with no `<`.
proof fn lemma_no_tag_without_lt(s: Seq<char>, needle: Seq<char>)
    requires
        needle.len() > 0,
        needle[0] == '<',
        forall|i: int| 0 <= i < s.len() ==> s[i] != '<',
    ensures
        forall|i: int| !#[trigger] occurs_ci_at(s, needle, i),
{
    assert forall|i: int| !#[trigger] occurs_ci_at(s, needle, i) by {
        if occurs_ci_at(s, needle, i) {
            assert(eq_ci(s[i + 0], needle[0]));
        }
    }
}

/// The first occurrence of a tag at or after `from` is at `k`, when it
/// occurs there and nowhere in between.
proof fn lemma_first_ci_is(s: Seq<char>, needle: Seq<char>, from: int, k: int)
    requires
        from <= k,
        occurs_ci_at(s, needle, k),
        forall|j: int| from <= j < k ==> !#[trigger] occurs_ci_at(s, needle, j),
    ensures
        first_ci_from(s, needle, from) == Some(k),
{
    lemma_first_ci_from(s, needle, from);
}

/// The first `c` at or after `from` is at `k`, when it is there and
/// nowhere in between.
proof fn lemma_first_char_is(s: Seq<char>, c: char, from: int, k: int)
    requires
        from <= k < s.len(),
        s[k] == c,
        forall|j: int| from <= j < k ==> s[j] != c,
    ensures
        first_char_from(s, c, from) == Some(k),
{
    lemma_first_char_from(s, c, from);
}

/// An `<iframe>` element (its attributes holding no `>`) in text with no
/// other tag: unwrapping removes its opening and closing tags and keeps
/// everything else in place.
pub proof fn lemma_unwrap_single_iframe(a: Seq<char>, attrs: Seq<char>, inner: Seq<char>, post: Seq<char>)
    requires
        forall|i: int| 0 <= i < a.len() ==> a[i] != '<',
        forall|i: int| 0 <= i < attrs.len() ==> attrs[i] != '<' && attrs[i] != '>',
        forall|i: int| 0 <= i < inner.len() ==> inner[i] != '<',
        forall|i: int| 0 <= i < post.len() ==> post[i] != '<',
    ensures
        unwrap_spec(a + "<iframe"@ + attrs + seq!['>'] + inner + "</iframe>"@ + post) == a + inner + post,
{
    reveal_strlit("<iframe");
    reveal_strlit("</iframe");
    reveal_strlit("</iframe>");
    let os = "<iframe"@;
    let cs = "</iframe"@;
    let r = a + os + attrs + seq!['>'] + inner + "</iframe>"@ + post;
    let p0 = a.len() as int;
    let g = p0 + 7 + attrs.len();
    let te = g + 1;
    let close = te + inner.len();
    let ce = close + 9;
    assert(r.len() == ce + post.len());
    // where `<` stands in `r`
    assert forall|j: int| 0 <= j < r.len() && r[j] == '<' implies j == p0 || j == close by {
        if j < p0 {
            assert(r[j] == a[j]);
        } else if p0 < j < p0 + 7 {
            assert(r[j] == os[j - p0]);
        } else if p0 + 7 <= j < g {
            assert(r[j] == attrs[j - p0 - 7]);
        } else if te <= j < close {
            assert(r[j] == inner[j - te]);
        } else if close < j < ce {
            assert(r[j] == "</iframe>"@[j - close]);
        } else if ce <= j {
            assert(r[j] == post[j - ce]);
        }
    }
    // the opening tag
    assert(occurs_ci_at(r, os, p0)) by {
        assert forall|k: int| 0 <= k < os.len() implies #[trigger] eq_ci(r[p0 + k], os[k]) by {
            assert(r[p0 + k] == os[k]);
        }
    }
    assert forall|j: int| 0 <= j < p0 implies !#[trigger] occurs_ci_at(r, os, j) by {
        if occurs_ci_at(r, os, j) {
            assert(eq_ci(r[j + 0], os[0]));
        }
    }
    lemma_first_ci_is(r, os, 0, p0);
    // its end
    assert forall|j: int| p0 <= j < g implies r[j] != '>' by {
        if j < p0 + 7 {
            assert(r[j] == os[j - p0]);
        } else {
            assert(r[j] == attrs[j - p0 - 7]);
        }
    }
    assert(r[g] == '>');
    lemma_first_char_is(r, '>', p0, g);
    // the closing tag
    assert(occurs_ci_at(r, cs, close)) by {
        assert forall|k: int| 0 <= k < cs.len() implies #[trigger] eq_ci(r[close + k], cs[k]) by {
            assert(r[close + k] == "</iframe>"@[k]);
        }
    }
    assert forall|j: int| te <= j < close implies !#[trigger] occurs_ci_at(r, cs, j) by {
        if occurs_ci_at(r, cs, j) {
            assert(eq_ci(r[j + 0], cs[0]));
        }
    }
    lemma_first_ci_is(r, cs, te, close);
    assert(r.subrange(te, close) =~= inner);
    lemma_no_tag_without_lt(inner, os);
    lemma_first_ci_from(inner, os, 0);
    lemma_scan_unfold(r, 0);
    assert(scan(r, 0) == (r, Some((p0, te, close))));
    // the closing tag's end
    assert forall|j: int| close <= j < close + 8 implies r[j] != '>' by {
        assert(r[j] == "</iframe>"@[j - close]);
    }
    assert(r[close + 8] == "</iframe>"@[8]);
    lemma_first_char_is(r, '>', close, close + 8);
    lemma_first_char_from(r, '<', close + 1);
    assert(close_tag_end(r, close) == Some(ce));
    // what is left
    lemma_unwrap_unfold(r);
    let rest = r.take(p0) + r.subrange(te, close) + r.skip(ce);
    assert(rest =~= a + inner + post);
    assert forall|j: int| 0 <= j < rest.len() implies rest[j] != '<' by {
        if j < p0 {
            assert(rest[j] == a[j]);
        } else if j < p0 + inner.len() {
            assert(rest[j] == inner[j - p0]);
        } else {
            assert(rest[j] == post[j - p0 - inner.len()]);
        }
    }
    lemma_no_tag_without_lt(rest, os);
    lemma_unwrap_without_iframes(rest);
}

/// An `<iframe>` inside another (attributes holding no `>`), in text with
/// no other tag: unwrapping removes both elements' tags, innermost first,
/// and keeps everything else in place.
pub proof fn lemma_unwrap_nested_iframes(
    a: Seq<char>,
    attrs1: Seq<char>,
    b: Seq<char>,
    attrs2: Seq<char>,
    inner: Seq<char>,
    c: Seq<char>,
    post: Seq<char>,
)
    requires
        forall|i: int| 0 <= i < a.len() ==> a[i] != '<',
        forall|i: int| 0 <= i < attrs1.len() ==> attrs1[i] != '<' && attrs1[i] != '>',
        forall|i: int| 0 <= i < b.len() ==> b[i] != '<',
        forall|i: int| 0 <= i < attrs2.len() ==> attrs2[i] != '<' && attrs2[i] != '>',
        forall|i: int| 0 <= i < inner.len() ==> inner[i] != '<',
        forall|i: int| 0 <= i < c.len() ==> c[i] != '<',
        forall|i: int| 0 <= i < post.len() ==> post[i] != '<',
    ensures
        unwrap_spec(
            a + "<iframe"@ + attrs1 + seq!['>'] + b + "<iframe"@ + attrs2 + seq!['>'] + inner
                + "</iframe>"@ + c + "</iframe>"@ + post,
        ) == a + b + inner + c + post,
{
    reveal_strlit("<iframe");
    reveal_strlit("</iframe");
    reveal_strlit("</iframe>");
    let os = "<iframe"@;
    let cs = "</iframe"@;
    let ct = "</iframe>"@;
    let r = a + os + attrs1 + seq!['>'] + b + os + attrs2 + seq!['>'] + inner + ct + c + ct + post;
    let p0 = a.len() as int;
    let g1 = p0 + 7 + attrs1.len();
    let q0 = g1 + 1 + b.len();
    let g2 = q0 + 7 + attrs2.len();
    let close1 = g2 + 1 + inner.len();
    let ce1 = close1 + 9;
    let close2 = ce1 + c.len();
    let ce2 = close2 + 9;
    assert(r.len() == ce2 + post.len());
    // where `<` stands in `r`
    assert forall|j: int| 0 <= j < r.len() && r[j] == '<' implies j == p0 || j == q0 || j == close1
        || j == close2 by {
        if j < p0 {
            assert(r[j] == a[j]);
        } else if p0 < j < p0 + 7 {
            assert(r[j] == os[j - p0]);
        } else if p0 + 7 <= j < g1 {
            assert(r[j] == attrs1[j - p0 - 7]);
        } else if g1 < j < q0 {
            assert(r[j] == b[j - g1 - 1]);
        } else if q0 < j < q0 + 7 {
            assert(r[j] == os[j - q0]);
        } else if q0 + 7 <= j < g2 {
            assert(r[j] == attrs2[j - q0 - 7]);
        } else if g2 < j < close1 {
            assert(r[j] == inner[j - g2 - 1]);
        } else if close1 < j < ce1 {
            assert(r[j] == ct[j - close1]);
        } else if ce1 <= j < close2 {
            assert(r[j] == c[j - ce1]);
        } else if close2 < j < ce2 {
            assert(r[j] == ct[j - close2]);
        } else if ce2 <= j {
            assert(r[j] == post[j - ce2]);
        }
    }
    // a `</iframe` is no `<iframe`, and a `<iframe` no `</iframe`
    assert forall|j: int| #[trigger] occurs_ci_at(r, os, j) implies j == p0 || j == q0 by {
        assert(eq_ci(r[j + 0], os[0]));
        assert(eq_ci(r[j + 1], os[1]));
        if j == close1 {
            assert(r[j + 1] == ct[1]);
        } else if j == close2 {
            assert(r[j + 1] == ct[1]);
        }
    }
    assert forall|j: int| #[trigger] occurs_ci_at(r, cs, j) implies j == close1 || j == close2 by {
        assert(eq_ci(r[j + 0], cs[0]));
        assert(eq_ci(r[j + 1], cs[1]));
        if j == p0 {
            assert(r[j + 1] == os[1]);
        } else if j == q0 {
            assert(r[j + 1] == os[1]);
        }
    }
    assert(occurs_ci_at(r, os, p0)) by {
        assert forall|k: int| 0 <= k < os.len() implies #[trigger] eq_ci(r[p0 + k], os[k]) by {
            assert(r[p0 + k] == os[k]);
        }
    }
    assert(occurs_ci_at(r, os, q0)) by {
        assert forall|k: int| 0 <= k < os.len() implies #[trigger] eq_ci(r[q0 + k], os[k]) by {
            assert(r[q0 + k] == os[k]);
        }
    }
    assert(occurs_ci_at(r, cs, close1)) by {
        assert forall|k: int| 0 <= k < cs.len() implies #[trigger] eq_ci(r[close1 + k], cs[k]) by {
            assert(r[close1 + k] == ct[k]);
        }
    }
    // the outer element holds another: the scan moves past its opening tag
    lemma_first_ci_is(r, os, 0, p0);
    assert forall|j: int| p0 <= j < g1 implies r[j] != '>' by {
        if j < p0 + 7 {
            assert(r[j] == os[j - p0]);
        } else {
            assert(r[j] == attrs1[j - p0 - 7]);
        }
    }
    assert(r[g1] == '>');
    lemma_first_char_is(r, '>', p0, g1);
    lemma_first_ci_is(r, cs, g1 + 1, close1);
    let s1 = r.subrange(g1 + 1, close1);
    assert(occurs_ci_at(s1, os, q0 - (g1 + 1))) by {
        assert forall|k: int| 0 <= k < os.len() implies #[trigger] eq_ci(s1[q0 - (g1 + 1) + k], os[k]) by {
            assert(s1[q0 - (g1 + 1) + k] == r[q0 + k]);
            assert(r[q0 + k] == os[k]);
        }
    }
    lemma_first_ci_from(s1, os, 0);
    lemma_scan_unfold(r, 0);
    assert(scan(r, 0) == scan(r, g1 + 1));
    // the inner element is found
    lemma_first_ci_is(r, os, g1 + 1, q0);
    assert forall|j: int| q0 <= j < g2 implies r[j] != '>' by {
        if j < q0 + 7 {
            assert(r[j] == os[j - q0]);
        } else {
            assert(r[j] == attrs2[j - q0 - 7]);
        }
    }
    assert(r[g2] == '>');
    lemma_first_char_is(r, '>', q0, g2);
    lemma_first_ci_is(r, cs, g2 + 1, close1);
    assert(r.subrange(g2 + 1, close1) =~= inner);
    lemma_no_tag_without_lt(inner, os);
    lemma_first_ci_from(inner, os, 0);
    lemma_scan_unfold(r, g1 + 1);
    assert(scan(r, 0) == (r, Some((q0, g2 + 1, close1))));
    // its closing tag ends before the next tag
    assert forall|j: int| close1 <= j < close1 + 8 implies r[j] != '>' by {
        assert(r[j] == ct[j - close1]);
    }
    assert(r[close1 + 8] == ct[8]);
    lemma_first_char_is(r, '>', close1, close1 + 8);
    assert forall|j: int| close1 + 1 <= j < close2 implies r[j] != '<' by {}
    assert(r[close2] == '<');
    lemma_first_char_is(r, '<', close1 + 1, close2);
    assert(close_tag_end(r, close1) == Some(ce1));
    lemma_unwrap_unfold(r);
    // what is left is a single element
    let rest = r.take(q0) + r.subrange(g2 + 1, close1) + r.skip(ce1);
    assert(rest =~= a + os + attrs1 + seq!['>'] + (b + inner + c) + ct + post);
    let mid = b + inner + c;
    assert forall|i: int| 0 <= i < mid.len() implies mid[i] != '<' by {
        if i < b.len() {
            assert(mid[i] == b[i]);
        } else if i < b.len() + inner.len() {
            assert(mid[i] == inner[i - b.len()]);
        } else {
            assert(mid[i] == c[i - b.len() - inner.len()]);
        }
    }
    lemma_unwrap_single_iframe(a, attrs1, mid, post);
    assert(a + mid + post =~= a + b + inner + c + post);
}

/// Spec view of a found position triple.
pub open spec fn best_view(b: Option<(usize, usize, usize)>) -> Option<(int, int, int)> {
    match b {
        Some((o, t, c)) => Some((o as int, t as int, c as int)),
        None => None,
    }
}

/// `r[..a] + r[b..]`.
fn cut(r: &Vec<char>, a: usize, b: usize) -> (out: Vec<char>)
    requires
        a <= b <= r@.len(),
    ensures
        out@ == r@.take(a as int) + r@.skip(b as int),
{
    let mut out = slice_vec(r.as_slice(), 0, a);
    let rest = slice_vec(r.as_slice(), b, r.len());
    push_all(&mut out, rest.as_slice());
    proof {
        assert(r@.subrange(0, a as int) =~= r@.take(a as int));
        assert(r@.subrange(b as int, r@.len() as int) =~= r@.skip(b as int));
    }
    out
}

/// See `scan`.
fn scan_exec(r: Vec<char>, open_tag: &Vec<char>, close_tag: &Vec<char>) -> (out: (
    Vec<char>,
    Option<(usize, usize, usize)>,
))
    requires
        open_tag@ == "<iframe"@,
        close_tag@ == "</iframe"@,
    ensures
        (out.0@, best_view(out.1)) == scan(r@, 0),
{
    let ghost target = scan(r@, 0);
    let mut cur = r;
    let mut sf: usize = 0;
    let ghost n0 = cur@.len();
    loop
        invariant
            open_tag@ == "<iframe"@,
            close_tag@ == "</iframe"@,
            sf <= cur@.len(),
            scan(cur@, sf as int) == target,
            target == scan(r@, 0),
        decreases cur@.len(), cur@.len() - sf,
    {
        let n = cur.len();
        proof {
            reveal_strlit("<iframe");
            lemma_scan_unfold(cur@, sf as int);
        }
        match find_ci_from(cur.as_slice(), open_tag.as_slice(), sf) {
            None => {
                return (cur, None);
            },
            Some(open) => {
                match find_char_from(cur.as_slice(), '>', open) {
                    None => {
                        sf = open + 1;
                    },
                    Some(g) => {
                        let te = g + 1;
                        match find_ci_from(cur.as_slice(), close_tag.as_slice(), te) {
                            Some(close) => {
                                let inner = slice_vec(cur.as_slice(), te, close);
                                match find_ci_from(inner.as_slice(), open_tag.as_slice(), 0) {
                                    None => {
                                        return (cur, Some((open, te, close)));
                                    },
                                    Some(_) => {
                                        sf = te;
                                    },
                                }
                            },
                            None => {
                                cur = cut(&cur, open, te);
                            },
                        }
                    },
                }
            },
        }
    }
}

/// Unwraps `<iframe>` elements, innermost first, so that their content
/// converts as ordinary HTML (see `unwrap_spec`).
pub fn unwrap_iframes(html: &str) -> (r: String)
    ensures
        r@ == unwrap_spec(html@),
{
    let open_tag = chars_of("<iframe");
    let close_tag = chars_of("</iframe");
    let mut result = chars_of(html);
    loop
        invariant
            open_tag@ == "<iframe"@,
            close_tag@ == "</iframe"@,
            unwrap_spec(result@) == unwrap_spec(html@),
        decreases result@.len(),
    {
        let ghost before = result@;
        proof {
            lemma_scan(before, 0);
            lemma_unwrap_unfold(before);
            reveal_strlit("</iframe");
        }
        let (cur, best) = scan_exec(result, &open_tag, &close_tag);
        let n = cur.len();
        match best {
            None => {
                return string_from_chars(cur.as_slice());
            },
            Some((open, te, close)) => {
                let g = match find_char_from(cur.as_slice(), '>', close) {
                    Some(g) => g,
                    None => {
                        return string_from_chars(cur.as_slice());
                    },
                };
                let crosses = match find_char_from(cur.as_slice(), '<', close + 1) {
                    Some(x) => x < g,
                    None => false,
                };
                if crosses {
                    return string_from_chars(cur.as_slice());
                }
                let mut next = slice_vec(cur.as_slice(), 0, open);
                let inner = slice_vec(cur.as_slice(), te, close);
                push_all(&mut next, inner.as_slice());
                let rest = slice_vec(cur.as_slice(), g + 1, cur.len());
                push_all(&mut next, rest.as_slice());
                proof {
                    assert(cur@.subrange(0, open as int) =~= cur@.take(open as int));
                    assert(cur@.subrange(g + 1, cur@.len() as int) =~= cur@.skip(g + 1));
                    assert(close_tag_end(cur@, close as int) == Some(g + 1));
                }
                result = next;
            },
        }
    }
}

// ---------------------------------------------------------------------
// Article extraction and markdown
// ---------------------------------------------------------------------

/// What the readability pass extracted from a page.
pub struct ArticleParts {
    pub title: String,
    pub content: String,
    pub byline: Option<String>,
    pub excerpt: Option<String>,
    pub site_name: Option<String>,
}

/// The metadata shown with the markdown.
pub struct ReadableMeta {
    pub title: Option<String>,
    pub byline: Option<String>,
    pub excerpt: Option<String>,
    pub site_name: Option<String>,
}

pub open spec fn opt_str(o: Option<String>) -> Option<Seq<char>> {
    match o {
        Some(s) => Some(s@),
        None => None,
    }
}

/// The title that `extract_title_from_html` finds.
pub open spec fn fallback_title(h: Seq<char>) -> Option<Seq<char>> {
    match title_text(h) {
        Some(t) => if t.len() > 0 {
            Some(decode_entities_spec(t))
        } else {
            None
        },
        None => None,
    }
}

/// The readability state of one page (`dom_smoothie::Readability`).
#[verifier::external_type_specification]
#[verifier::external_body]
pub struct ExReadability(dom_smoothie::Readability);

/// How readability picks the node that holds the article
/// (`dom_smoothie::CandidateSelectMode`).
#[derive(Clone, Copy, Debug, PartialEq, Eq)]
pub enum CandidateMode {
    /// The stock Readability heuristic.
    Readability,
    /// dom_smoothie's own selection, which keeps more of the content when
    /// few candidates compete.
    DomSmoothie,
}

/// Whether `dom_smoothie` judges the page probably readable
/// (`Readability::is_probably_readable` under the default thresholds). It
/// looks only at the parsed document: its `p`, `pre` and `article` nodes and
/// the parents of `div > br`.
pub uninterp spec fn probably_readable(html: Seq<char>) -> bool;

/// `dom_smoothie::Readability::new` over the page, with candidate selection
/// `mode` and otherwise the default configuration, together with the
/// state's `is_probably_readable` answer. Its source refuses only a document
/// URL that is not absolute, so without a URL the state is always made;
/// whether a given URL counts as absolute is not stated. The readable
/// answer depends on the document alone (the URL is only stored, and the
/// thresholds are the defaults).
#[verifier::external_body]
fn readability_new(html: &str, url: Option<&str>, mode: CandidateMode) -> (r: Option<(dom_smoothie::Readability, bool)>)
    ensures
        url is None ==> r is Some,
        r matches Some((_, b)) ==> b == probably_readable(html@),
{
    let candidate_select_mode = match mode {
        CandidateMode::Readability => dom_smoothie::CandidateSelectMode::Readability,
        CandidateMode::DomSmoothie => dom_smoothie::CandidateSelectMode::DomSmoothie,
    };
    let cfg = dom_smoothie::Config { candidate_select_mode, ..Default::default() };
    match dom_smoothie::Readability::new(html, url, Some(cfg)) {
        Ok(r) => {
            let readable = r.is_probably_readable();
            Some((r, readable))
        },
        Err(_) => None,
    }
}

/// `dom_smoothie::Readability::parse`: the extracted article, or `None`
/// where extraction fails. Nothing is stated of the article, whose scoring
/// walks randomly seeded hash maps.
#[verifier::external_body]
fn readability_parse(r: &mut dom_smoothie::Readability) -> (a: Option<ArticleParts>) {
    match r.parse() {
        Ok(a) => Some(ArticleParts {
            title: a.title,
            content: a.content.to_string(),
            byline: a.byline,
            excerpt: a.excerpt,
            site_name: a.site_name,
        }),
        Err(_) => None,
    }
}

/// `r` is the content and metadata rendered from `article` (see
/// `content_from_article`).
pub open spec fn content_matches(
    html: Seq<char>,
    fallback: Option<Seq<char>>,
    article: Option<ArticleParts>,
    r: (String, ReadableMeta),
) -> bool {
    match article {
        None => r.0@ == html && opt_str(r.1.title) == fallback && r.1.byline is None
            && r.1.excerpt is None && r.1.site_name is None,
        Some(a) => r.0@ == a.content@ && opt_str(r.1.title) == (if a.title@.len() == 0 {
            fallback
        } else {
            Some(a.title@)
        }) && opt_str(r.1.byline) == opt_str(a.byline) && opt_str(r.1.excerpt) == opt_str(a.excerpt)
            && opt_str(r.1.site_name) == opt_str(a.site_name),
    }
}

/// The content and metadata to render, given what the readability pass
/// returned: the article with its title (or the `<title>` fallback when it
/// has none), or, with no article, the whole page with only that fallback.
pub fn content_from_article(html: &str, fallback: Option<String>, article: Option<ArticleParts>) -> (r: (
    String,
    ReadableMeta,
))
    ensures
        content_matches(html@, opt_str(fallback), article, r),
{
    match article {
        None => (
            crate::text::owned(html),
            ReadableMeta { title: fallback, byline: None, excerpt: None, site_name: None },
        ),
        Some(a) => {
            let title = if chars_of(a.title.as_str()).len() == 0 {
                fallback
            } else {
                Some(a.title)
            };
            (a.content, ReadableMeta { title, byline: a.byline, excerpt: a.excerpt, site_name: a.site_name })
        },
    }
}

/// The content to convert and its metadata: the main article when the page
/// reads as one, else the whole page; the title falls back to `<title>`.
/// Candidates are picked with `CandidateMode::DomSmoothie`.
pub fn extract_content(html: &str, url: Option<&str>) -> (r: (String, ReadableMeta))
    ensures
        !probably_readable(html@) ==> content_matches(html@, fallback_title(html@), None, r),
        exists|a: Option<ArticleParts>| content_matches(html@, fallback_title(html@), a, r),
{
    let fallback = extract_title_from_html(html);
    let article = match readability_new(html, url, CandidateMode::DomSmoothie) {
        Some((mut state, readable)) => {
            if readable {
                readability_parse(&mut state)
            } else {
                None
            }
        },
        None => None,
    };
    let ghost a = article;
    let r = content_from_article(html, fallback, article);
    assert(content_matches(html@, fallback_title(html@), a, r));
    r
}

/// What `htmd` makes of a document, skipping the given elements; `None`
/// when the conversion fails.
pub uninterp spec fn markdown_spec(html: Seq<char>, skip_tags: Seq<Seq<char>>) -> Option<Seq<char>>;

/// `htmd::HtmlToMarkdown` built to skip `skip_tags`, then `convert`. The
/// contract names the result, a function of the document and the tags.
#[verifier::external_body]
fn htmd_convert(html: &str, skip_tags: &Vec<String>) -> (r: Option<String>)
    ensures
        opt_str(r) == markdown_spec(html@, skip_tags@.map_values(|s: String| s@)),
{
    let tags: Vec<&str> = skip_tags.iter().map(|s| s.as_str()).collect();
    let converter = htmd::HtmlToMarkdown::builder().skip_tags(tags).build();
    match converter.convert(html) {
        Ok(s) => Some(s),
        Err(_) => None,
    }
}

/// The elements whose content never reaches the markdown: scripts, styles,
/// metadata and drawing surfaces. Navigation, footers and forms stay.
pub open spec fn inert_tags_spec() -> Seq<Seq<char>> {
    seq![
        "head"@,
        "script"@,
        "style"@,
        "noscript"@,
        "link"@,
        "meta"@,
        "title"@,
        "svg"@,
        "canvas"@,
    ]
}

fn inert_tags() -> (r: Vec<String>)
    ensures
        r@.map_values(|s: String| s@) == inert_tags_spec(),
{
    let mut v: Vec<String> = Vec::new();
    v.push(crate::text::owned("head"));
    v.push(crate::text::owned("script"));
    v.push(crate::text::owned("style"));
    v.push(crate::text::owned("noscript"));
    v.push(crate::text::owned("link"));
    v.push(crate::text::owned("meta"));
    v.push(crate::text::owned("title"));
    v.push(crate::text::owned("svg"));
    v.push(crate::text::owned("canvas"));
    proof {
        assert(v@.map_values(|s: String| s@) =~= inert_tags_spec());
    }
    v
}

/// The page content as markdown: iframes unwrapped, inert elements skipped.
pub fn page_markdown(content_html: &str) -> (r: Option<String>)
    ensures
        opt_str(r) == markdown_spec(unwrap_spec(content_html@), inert_tags_spec()),
{
    let pre = unwrap_iframes(content_html);
    let tags = inert_tags();
    htmd_convert(pre.as_str(), &tags)
}

/// The text output: the markdown, headed by `# <title>` when there is a
/// non-empty title and the markdown does not already open with a heading.
pub open spec fn text_output_spec(md: Seq<char>, title: Option<Seq<char>>) -> Seq<char> {
    match title {
        Some(t) => if t.len() > 0 && !crate::text::starts_with(crate::text::trim_start(md), "# "@) {
            "# "@ + t + "\n\n"@ + md
        } else {
            md
        },
        None => md,
    }
}

/// See `text_output_spec`.
pub fn text_output(md: &str, title: Option<&str>) -> (r: String)
    ensures
        r@ == text_output_spec(md@, match title {
            Some(t) => Some(t@),
            None => None,
        }),
{
    let mc = chars_of(md);
    match title {
        Some(t) => {
            let start = crate::text::trim_start_chars(mc.as_slice());
            let h = chars_of("# ");
            let heading = crate::text::starts_with_chars(start.as_slice(), h.as_slice());
            if chars_of(t).len() > 0 && !heading {
                let mut v: Vec<char> = Vec::new();
                crate::text::push_str(&mut v, "# ");
                crate::text::push_str(&mut v, t);
                crate::text::push_str(&mut v, "\n\n");
                push_all(&mut v, mc.as_slice());
                string_from_chars(v.as_slice())
            } else {
                string_from_chars(mc.as_slice())
            }
        },
        None => string_from_chars(mc.as_slice()),
    }
}

/// The text rendering of a page: its markdown (see `page_markdown`) under
/// its title (see `text_output`); `None` when the conversion fails.
pub fn format_output_text(content_html: &str, meta: &ReadableMeta) -> (r: Option<String>)
    ensures
        match markdown_spec(unwrap_spec(content_html@), inert_tags_spec()) {
            None => r is None,
            Some(md) => r matches Some(s) && s@ == text_output_spec(md, opt_str(meta.title)),
        },
{
    let md = match page_markdown(content_html) {
        Some(m) => m,
        None => {
            return None;
        },
    };
    let title = match &meta.title {
        Some(t) => Some(t.as_str()),
        None => None,
    };
    Some(text_output(md.as_str(), title))
}

} // verus!
