//! Character-level text utilities shared by the rest of the library:
//! conversion between strings and character vectors, ASCII case folding,
//! decimal and hexadecimal rendering, decimal parsing, trimming and searching.
use vstd::prelude::*;

verus! {

/// Collects the characters of `s` into a vector.
pub fn chars_of(s: &str) -> (v: Vec<char>)
    ensures
        v@ == s@,
{
    let mut v: Vec<char> = Vec::new();
    for c in it: s.chars()
        invariant
            v@ == it.seq().take(it.index() as int),
            it.seq() == s@,
    {
        v.push(c);
    }
    v
}

/// Builds a string holding exactly the characters of `cs`
/// (`FromIterator<&char> for String`).
#[verifier::external_body]
pub fn string_from_chars(cs: &[char]) -> (s: String)
    ensures
        s@ == cs@,
{
    cs.iter().collect()
}

/// Copies a string slice into an owned string (`str::to_string`).
pub fn owned(s: &str) -> (r: String)
    ensures
        r@ == s@,
{
    let v = chars_of(s);
    string_from_chars(v.as_slice())
}

/// Concatenates two strings.
pub fn concat2(a: &str, b: &str) -> (r: String)
    ensures
        r@ == a@ + b@,
{
    let mut v = chars_of(a);
    let w = chars_of(b);
    let mut i: usize = 0;
    while i < w.len()
        invariant
            0 <= i <= w@.len(),
            v@ == a@ + w@.take(i as int),
            w@ == b@,
        decreases w@.len() - i,
    {
        v.push(w[i]);
        i = i + 1;
        proof {
            assert(w@.take(i as int) == w@.take((i - 1) as int).push(w@[(i - 1) as int]));
        }
    }
    proof {
        assert(w@.take(w@.len() as int) == w@);
    }
    string_from_chars(v.as_slice())
}

/// Appends the characters of `b` to the vector `v`.
pub fn push_all(v: &mut Vec<char>, b: &[char])
    ensures
        final(v)@ == old(v)@ + b@,
{
    let mut i: usize = 0;
    while i < b.len()
        invariant
            0 <= i <= b@.len(),
            v@ == old(v)@ + b@.take(i as int),
        decreases b@.len() - i,
    {
        v.push(b[i]);
        i = i + 1;
        proof {
            assert(b@.take(i as int) == b@.take((i - 1) as int).push(b@[(i - 1) as int]));
        }
    }
    proof {
        assert(b@.take(b@.len() as int) == b@);
    }
}

/// Appends the characters of the string slice `b` to `v`.
pub fn push_str(v: &mut Vec<char>, b: &str)
    ensures
        final(v)@ == old(v)@ + b@,
{
    let w = chars_of(b);
    push_all(v, w.as_slice());
}

// ---------------------------------------------------------------------
// ASCII case folding
// ---------------------------------------------------------------------

/// ASCII lowercase of one character (`char::to_ascii_lowercase`).
pub open spec fn lower_char(c: char) -> char {
    if 'A' <= c && c <= 'Z' {
        ((c as u32) + 32) as char
    } else {
        c
    }
}

/// ASCII lowercase of every character (`str::to_ascii_lowercase`).
pub open spec fn lower_seq(s: Seq<char>) -> Seq<char> {
    Seq::new(s.len(), |i: int| lower_char(s[i]))
}

/// Case-insensitive (ASCII) character equality (`u8::eq_ignore_ascii_case`).
pub open spec fn eq_ci(a: char, b: char) -> bool {
    lower_char(a) == lower_char(b)
}

pub fn to_ascii_lower(c: char) -> (r: char)
    ensures
        r == lower_char(c),
{
    if c >= 'A' && c <= 'Z' {
        let b: u8 = c as u8;
        ((b + 32) as u8) as char
    } else {
        c
    }
}

/// ASCII lowercase copy of a character vector.
pub fn lower_chars(s: &[char]) -> (r: Vec<char>)
    ensures
        r@ == lower_seq(s@),
{
    let mut r: Vec<char> = Vec::new();
    let mut i: usize = 0;
    while i < s.len()
        invariant
            0 <= i <= s@.len(),
            r@ == lower_seq(s@).take(i as int),
        decreases s@.len() - i,
    {
        r.push(to_ascii_lower(s[i]));
        i = i + 1;
        proof {
            assert(lower_seq(s@).take(i as int) =~= lower_seq(s@).take((i - 1) as int).push(
                lower_char(s@[(i - 1) as int]),
            ));
        }
    }
    proof {
        assert(lower_seq(s@).take(s@.len() as int) =~= lower_seq(s@));
    }
    r
}

// ---------------------------------------------------------------------
// Substring predicates and searches
// ---------------------------------------------------------------------

/// `needle` occurs in `hay` at position `i`.
pub open spec fn occurs_at(hay: Seq<char>, needle: Seq<char>, i: int) -> bool {
    0 <= i && i + needle.len() <= hay.len() && hay.subrange(i, i + needle.len()) == needle
}

/// `needle` occurs in `hay` at position `i`, comparing ASCII letters without regard to case.
pub open spec fn occurs_ci_at(hay: Seq<char>, needle: Seq<char>, i: int) -> bool {
    &&& 0 <= i
    &&& i + needle.len() <= hay.len()
    &&& forall|k: int| 0 <= k < needle.len() ==> #[trigger] eq_ci(hay[i + k], needle[k])
}

/// `needle` occurs somewhere in `hay` (`str::contains`).
pub open spec fn contains_seq(hay: Seq<char>, needle: Seq<char>) -> bool {
    exists|i: int| occurs_at(hay, needle, i)
}

/// `hay` begins with `p` (`str::starts_with`).
pub open spec fn starts_with(hay: Seq<char>, p: Seq<char>) -> bool {
    p.len() <= hay.len() && hay.take(p.len() as int) == p
}

/// `hay` ends with `p` (`str::ends_with`).
pub open spec fn ends_with(hay: Seq<char>, p: Seq<char>) -> bool {
    p.len() <= hay.len() && hay.skip(hay.len() - p.len()) == p
}

/// The first position at or after `from` where `needle` occurs (case-insensitively).
#[verifier::opaque]
pub open spec fn first_ci_from(hay: Seq<char>, needle: Seq<char>, from: int) -> Option<int> {
    if exists|i: int| from <= i && occurs_ci_at(hay, needle, i) {
        Some(choose|i: int| from <= i && occurs_ci_at(hay, needle, i)
            && forall|j: int| from <= j < i ==> !occurs_ci_at(hay, needle, j))
    } else {
        None
    }
}

/// Whether `needle` occurs at `i` in `hay`, ignoring ASCII case.
pub fn matches_ci_at(hay: &[char], needle: &[char], i: usize) -> (b: bool)
    ensures
        b == occurs_ci_at(hay@, needle@, i as int),
{
    if i > hay.len() || needle.len() > hay.len() - i {
        return false;
    }
    let mut k: usize = 0;
    while k < needle.len()
        invariant
            i + needle@.len() <= hay@.len(),
            hay@.len() == hay.len(),
            0 <= k <= needle@.len(),
            forall|m: int| 0 <= m < k ==> #[trigger] eq_ci(hay@[i + m], needle@[m]),
        decreases needle@.len() - k,
    {
        if to_ascii_lower(hay[i + k]) != to_ascii_lower(needle[k]) {
            assert(!eq_ci(hay@[i + k as int], needle@[k as int]));
            return false;
        }
        k = k + 1;
    }
    true
}

/// Whether `needle` occurs exactly at `i` in `hay`.
pub fn matches_at(hay: &[char], needle: &[char], i: usize) -> (b: bool)
    ensures
        b == occurs_at(hay@, needle@, i as int),
{
    if i > hay.len() || needle.len() > hay.len() - i {
        return false;
    }
    let mut k: usize = 0;
    while k < needle.len()
        invariant
            i + needle@.len() <= hay@.len(),
            hay@.len() == hay.len(),
            0 <= k <= needle@.len(),
            forall|m: int| 0 <= m < k ==> hay@[i + m] == needle@[m],
        decreases needle@.len() - k,
    {
        if hay[i + k] != needle[k] {
            proof {
                assert(hay@.subrange(i as int, i + needle@.len())[k as int] != needle@[k as int]);
            }
            return false;
        }
        k = k + 1;
    }
    proof {
        assert(hay@.subrange(i as int, i + needle@.len()) =~= needle@);
    }
    true
}

/// Case-insensitive search for `needle` in `hay` starting at `from`; returns the
/// first matching position.
pub fn find_ci_from(hay: &[char], needle: &[char], from: usize) -> (r: Option<usize>)
    ensures
        r == (match first_ci_from(hay@, needle@, from as int) {
            Some(i) => Some(i as usize),
            None => None,
        }),
        r matches Some(i) ==> from <= i && occurs_ci_at(hay@, needle@, i as int)
            && first_ci_from(hay@, needle@, from as int) == Some(i as int),
        r is None ==> forall|i: int| from <= i ==> !occurs_ci_at(hay@, needle@, i),
        r is None ==> first_ci_from(hay@, needle@, from as int) is None,
{
    reveal(first_ci_from);
    let mut i: usize = from;
    if needle.len() == 0 && from <= hay.len() {
        proof {
            assert(occurs_ci_at(hay@, needle@, from as int));
            let w = choose|w: int| from <= w && occurs_ci_at(hay@, needle@, w)
                && forall|j: int| from <= j < w ==> !occurs_ci_at(hay@, needle@, j);
            if w > from {
                assert(!occurs_ci_at(hay@, needle@, from as int));
            }
        }
        return Some(from);
    }
    if needle.len() > hay.len() || from > hay.len() {
        assert forall|j: int| from <= j implies !occurs_ci_at(hay@, needle@, j) by {}
        return None;
    }
    while i <= hay.len() - needle.len()
        invariant
            from <= i <= hay@.len(),
            hay@.len() == hay.len(),
            needle@.len() <= hay@.len(),
            forall|j: int| from <= j < i ==> !occurs_ci_at(hay@, needle@, j),
        decreases hay@.len() - i,
    {
        if matches_ci_at(hay, needle, i) {
            proof {
                reveal(first_ci_from);
                let w = choose|w: int| from <= w && occurs_ci_at(hay@, needle@, w)
                    && forall|j: int| from <= j < w ==> !occurs_ci_at(hay@, needle@, j);
                assert(from <= i && occurs_ci_at(hay@, needle@, i as int)
                    && forall|j: int| from <= j < i ==> !occurs_ci_at(hay@, needle@, j));
                if w < i {
                } else if w > i {
                    assert(!occurs_ci_at(hay@, needle@, i as int));
                }
                assert(w == i);
            }
            return Some(i);
        }
        i = i + 1;
    }
    assert forall|j: int| from <= j implies !occurs_ci_at(hay@, needle@, j) by {
        if j >= i {
            assert(j + needle@.len() > hay@.len());
        }
    }
    None
}

/// First position at or after `from` holding the character `c`.
#[verifier::opaque]
pub open spec fn first_char_from(s: Seq<char>, c: char, from: int) -> Option<int> {
    if exists|i: int| from <= i < s.len() && s[i] == c {
        Some(choose|i: int| from <= i < s.len() && s[i] == c
            && forall|j: int| from <= j < i ==> s[j] != c)
    } else {
        None
    }
}

/// Searches for the character `c` in `s` starting at `from`.
pub fn find_char_from(s: &[char], c: char, from: usize) -> (r: Option<usize>)
    ensures
        r == (match first_char_from(s@, c, from as int) {
            Some(i) => Some(i as usize),
            None => None,
        }),
        r matches Some(i) ==> from <= i < s@.len() && s@[i as int] == c
            && forall|j: int| from <= j < i ==> s@[j] != c,
        r matches Some(i) ==> first_char_from(s@, c, from as int) == Some(i as int),
        r is None ==> forall|j: int| from <= j < s@.len() ==> s@[j] != c,
        r is None ==> first_char_from(s@, c, from as int) is None,
{
    reveal(first_char_from);
    let mut i: usize = from;
    while i < s.len()
        invariant
            from <= i,
            forall|j: int| from <= j < i && j < s@.len() ==> s@[j] != c,
        decreases s@.len() - i,
    {
        if s[i] == c {
            proof {
                reveal(first_char_from);
                let w = choose|w: int| from <= w < s@.len() && s@[w] == c
                    && forall|j: int| from <= j < w ==> s@[j] != c;
                assert(from <= i < s@.len() && s@[i as int] == c
                    && forall|j: int| from <= j < i ==> s@[j] != c);
                if w < i {
                } else if w > i {
                }
                assert(w == i);
            }
            return Some(i);
        }
        i = i + 1;
    }
    None
}

/// Whether `needle` occurs in `hay` (`str::contains`).
pub fn contains_chars(hay: &[char], needle: &[char]) -> (b: bool)
    ensures
        b == contains_seq(hay@, needle@),
{
    if needle.len() == 0 {
        assert(hay@.subrange(0, 0) =~= needle@);
        assert(occurs_at(hay@, needle@, 0));
        return true;
    }
    if needle.len() > hay.len() {
        assert forall|i: int| !occurs_at(hay@, needle@, i) by {}
        return false;
    }
    let mut i: usize = 0;
    while i <= hay.len() - needle.len()
        invariant
            1 <= needle@.len() <= hay@.len(),
            i <= hay@.len(),
            hay@.len() == hay.len(),
            forall|j: int| 0 <= j < i ==> !occurs_at(hay@, needle@, j),
        decreases hay@.len() - i,
    {
        if matches_at(hay, needle, i) {
            return true;
        }
        i = i + 1;
    }
    assert forall|j: int| !occurs_at(hay@, needle@, j) by {
        if j >= i {
            assert(j + needle@.len() > hay@.len());
        }
    }
    false
}

/// Whether the string slice `hay` contains `needle`.
pub fn str_contains(hay: &str, needle: &str) -> (b: bool)
    ensures
        b == contains_seq(hay@, needle@),
{
    let h = chars_of(hay);
    let n = chars_of(needle);
    contains_chars(h.as_slice(), n.as_slice())
}

/// Whether `hay` begins with `p`.
pub fn starts_with_chars(hay: &[char], p: &[char]) -> (b: bool)
    ensures
        b == starts_with(hay@, p@),
{
    let r = matches_at(hay, p, 0);
    proof {
        if p@.len() <= hay@.len() {
            assert(hay@.subrange(0, p@.len() as int) == hay@.take(p@.len() as int));
        }
    }
    r
}

/// Whether `hay` ends with `p`.
pub fn ends_with_chars(hay: &[char], p: &[char]) -> (b: bool)
    ensures
        b == ends_with(hay@, p@),
{
    if p.len() > hay.len() {
        return false;
    }
    let r = matches_at(hay, p, hay.len() - p.len());
    proof {
        assert(hay@.subrange(hay@.len() - p@.len(), hay@.len() as int) == hay@.skip(
            hay@.len() - p@.len(),
        ));
    }
    r
}

/// Copies `s[from..to]` into a new vector.
pub fn slice_vec(s: &[char], from: usize, to: usize) -> (r: Vec<char>)
    requires
        from <= to <= s@.len(),
    ensures
        r@ == s@.subrange(from as int, to as int),
{
    let mut r: Vec<char> = Vec::new();
    let mut i: usize = from;
    while i < to
        invariant
            from <= i <= to <= s@.len(),
            r@ == s@.subrange(from as int, i as int),
        decreases to - i,
    {
        r.push(s[i]);
        i = i + 1;
        proof {
            assert(s@.subrange(from as int, i as int) =~= s@.subrange(from as int, (i - 1) as int).push(
                s@[(i - 1) as int],
            ));
        }
    }
    r
}

// ---------------------------------------------------------------------
// Whitespace and trimming
// ---------------------------------------------------------------------

/// Unicode `White_Space` (`char::is_whitespace`).
pub open spec fn is_ws(c: char) -> bool {
    ||| ('\u{9}' <= c && c <= '\u{d}')
    ||| c == ' '
    ||| c == '\u{85}'
    ||| c == '\u{a0}'
    ||| c == '\u{1680}'
    ||| ('\u{2000}' <= c && c <= '\u{200a}')
    ||| c == '\u{2028}'
    ||| c == '\u{2029}'
    ||| c == '\u{202f}'
    ||| c == '\u{205f}'
    ||| c == '\u{3000}'
}

pub fn is_whitespace(c: char) -> (b: bool)
    ensures
        b == is_ws(c),
{
    (c >= '\u{9}' && c <= '\u{d}') || c == ' ' || c == '\u{85}' || c == '\u{a0}' || c
        == '\u{1680}' || (c >= '\u{2000}' && c <= '\u{200a}') || c == '\u{2028}' || c
        == '\u{2029}' || c == '\u{202f}' || c == '\u{205f}' || c == '\u{3000}'
}

/// Index of the first non-whitespace character (or the length).
pub open spec fn trim_start_idx(s: Seq<char>) -> int
    decreases s.len(),
{
    if s.len() == 0 {
        0
    } else if is_ws(s[0]) {
        1 + trim_start_idx(s.drop_first())
    } else {
        0
    }
}

/// Index just after the last non-whitespace character (or 0).
pub open spec fn trim_end_idx(s: Seq<char>) -> int
    decreases s.len(),
{
    if s.len() == 0 {
        0
    } else if is_ws(s.last()) {
        trim_end_idx(s.drop_last())
    } else {
        s.len() as int
    }
}

/// `str::trim_start`.
pub open spec fn trim_start(s: Seq<char>) -> Seq<char> {
    s.skip(trim_start_idx(s))
}

/// `str::trim_end`.
pub open spec fn trim_end(s: Seq<char>) -> Seq<char> {
    s.take(trim_end_idx(s))
}

/// `str::trim`.
pub open spec fn trim(s: Seq<char>) -> Seq<char> {
    trim_end(trim_start(s))
}

pub proof fn lemma_trim_start_idx(s: Seq<char>)
    ensures
        0 <= trim_start_idx(s) <= s.len(),
        forall|j: int| 0 <= j < trim_start_idx(s) ==> is_ws(#[trigger] s[j]),
        trim_start_idx(s) < s.len() ==> !is_ws(s[trim_start_idx(s)]),
    decreases s.len(),
{
    if s.len() > 0 && is_ws(s[0]) {
        lemma_trim_start_idx(s.drop_first());
        assert forall|j: int| 0 <= j < trim_start_idx(s) implies is_ws(#[trigger] s[j]) by {
            if j > 0 {
                assert(s[j] == s.drop_first()[j - 1]);
            }
        }
    }
}

pub proof fn lemma_trim_end_idx(s: Seq<char>)
    ensures
        0 <= trim_end_idx(s) <= s.len(),
        forall|j: int| trim_end_idx(s) <= j < s.len() ==> is_ws(#[trigger] s[j]),
        trim_end_idx(s) > 0 ==> !is_ws(s[trim_end_idx(s) - 1]),
    decreases s.len(),
{
    if s.len() > 0 && is_ws(s.last()) {
        lemma_trim_end_idx(s.drop_last());
        assert forall|j: int| trim_end_idx(s) <= j < s.len() implies is_ws(#[trigger] s[j]) by {
            if j < s.len() - 1 {
                assert(s[j] == s.drop_last()[j]);
            }
        }
    }
}

/// A prefix of `s` made only of whitespace, followed by a non-space (or the end),
/// has length `trim_start_idx(s)`.
pub proof fn lemma_trim_start_idx_unique(s: Seq<char>, k: int)
    requires
        0 <= k <= s.len(),
        forall|j: int| 0 <= j < k ==> is_ws(#[trigger] s[j]),
        k < s.len() ==> !is_ws(s[k]),
    ensures
        trim_start_idx(s) == k,
    decreases s.len(),
{
    if k > 0 {
        assert(is_ws(s[0]));
        assert forall|j: int| 0 <= j < k - 1 implies is_ws(#[trigger] s.drop_first()[j]) by {
            assert(s.drop_first()[j] == s[j + 1]);
        }
        if k < s.len() {
            assert(s.drop_first()[k - 1] == s[k]);
        }
        lemma_trim_start_idx_unique(s.drop_first(), k - 1);
    } else if s.len() > 0 {
        assert(!is_ws(s[0]));
    }
}

pub proof fn lemma_trim_end_idx_unique(s: Seq<char>, k: int)
    requires
        0 <= k <= s.len(),
        forall|j: int| k <= j < s.len() ==> is_ws(#[trigger] s[j]),
        k > 0 ==> !is_ws(s[k - 1]),
    ensures
        trim_end_idx(s) == k,
    decreases s.len(),
{
    if k < s.len() {
        assert(is_ws(s.last()));
        assert forall|j: int| k <= j < s.len() - 1 implies is_ws(#[trigger] s.drop_last()[j]) by {
            assert(s.drop_last()[j] == s[j]);
        }
        if k > 0 {
            assert(s.drop_last()[k - 1] == s[k - 1]);
        }
        lemma_trim_end_idx_unique(s.drop_last(), k);
    } else if s.len() > 0 {
        assert(!is_ws(s[k - 1]));
    }
}

/// Bounds `lo..hi` of `trim(s[from..to])` within `s`.
pub fn trim_bounds(s: &[char], from: usize, to: usize) -> (r: (usize, usize))
    requires
        from <= to <= s@.len(),
    ensures
        from <= r.0 <= r.1 <= to,
        s@.subrange(r.0 as int, r.1 as int) == trim(s@.subrange(from as int, to as int)),
{
    let ghost t = s@.subrange(from as int, to as int);
    let mut lo: usize = from;
    while lo < to && is_whitespace(s[lo])
        invariant
            from <= lo <= to <= s@.len(),
            forall|j: int| from <= j < lo ==> is_ws(#[trigger] s@[j]),
        decreases to - lo,
    {
        lo = lo + 1;
    }
    proof {
        assert forall|j: int| 0 <= j < lo - from implies is_ws(#[trigger] t[j]) by {
            assert(t[j] == s@[from + j]);
        }
        if lo < to {
            assert(t[lo - from] == s@[lo as int]);
        }
        lemma_trim_start_idx_unique(t, lo - from);
    }
    let mut hi: usize = to;
    while hi > lo && is_whitespace(s[hi - 1])
        invariant
            from <= lo <= hi <= to <= s@.len(),
            forall|j: int| hi <= j < to ==> is_ws(#[trigger] s@[j]),
        decreases hi - lo,
    {
        hi = hi - 1;
    }
    proof {
        let u = trim_start(t);
        assert(u =~= s@.subrange(lo as int, to as int));
        assert forall|j: int| hi - lo <= j < u.len() implies is_ws(#[trigger] u[j]) by {
            assert(u[j] == s@[lo + j]);
        }
        if hi > lo {
            assert(u[hi - lo - 1] == s@[hi - 1]);
        }
        lemma_trim_end_idx_unique(u, hi - lo);
        assert(trim(t) =~= s@.subrange(lo as int, hi as int));
    }
    (lo, hi)
}

/// `str::trim` on a character vector.
pub fn trim_chars(s: &[char]) -> (r: Vec<char>)
    ensures
        r@ == trim(s@),
{
    let (lo, hi) = trim_bounds(s, 0, s.len());
    proof {
        assert(s@.subrange(0, s@.len() as int) =~= s@);
    }
    slice_vec(s, lo, hi)
}

// ---------------------------------------------------------------------
// Decimal and hexadecimal rendering
// ---------------------------------------------------------------------

/// The ASCII digit for `d < 16` (lowercase hex digits above 9).
pub open spec fn digit_char(d: nat) -> char {
    if d < 10 {
        ((d + 48) as u8) as char
    } else {
        ((d - 10 + 97) as u8) as char
    }
}

/// Decimal rendering of `n` without leading zeros (`Display for u64`).
pub open spec fn dec(n: nat) -> Seq<char>
    decreases n,
{
    if n < 10 {
        seq![digit_char(n)]
    } else {
        dec(n / 10).push(digit_char(n % 10))
    }
}

/// Decimal rendering of a signed integer (`Display for i64`).
pub open spec fn dec_signed(n: int) -> Seq<char> {
    if n < 0 {
        seq!['-'] + dec((-n) as nat)
    } else {
        dec(n as nat)
    }
}

fn digit(d: u64) -> (c: char)
    requires
        d < 16,
    ensures
        c == digit_char(d as nat),
{
    if d < 10 {
        ((d as u8) + 48) as char
    } else {
        ((d as u8) - 10 + 97) as char
    }
}

proof fn lemma_dec_len(n: nat)
    ensures
        dec(n).len() >= 1,
    decreases n,
{
    if n >= 10 {
        lemma_dec_len(n / 10);
    }
}

/// Decimal rendering of an unsigned integer.
pub fn u64_dec(n: u64) -> (r: Vec<char>)
    ensures
        r@ == dec(n as nat),
    decreases n,
{
    if n < 10 {
        let mut v: Vec<char> = Vec::new();
        v.push(digit(n));
        proof {
            assert(v@ =~= seq![digit_char(n as nat)]);
        }
        v
    } else {
        let mut v = u64_dec(n / 10);
        v.push(digit(n % 10));
        v
    }
}

/// Decimal rendering as a `String`.
pub fn u64_to_string(n: u64) -> (r: String)
    ensures
        r@ == dec(n as nat),
{
    let v = u64_dec(n);
    string_from_chars(v.as_slice())
}

/// Decimal rendering of a signed integer.
pub fn i64_dec(n: i64) -> (r: Vec<char>)
    ensures
        r@ == dec_signed(n as int),
{
    if n < 0 {
        let m: u64 = if n == i64::MIN {
            9223372036854775808u64
        } else {
            (-n) as u64
        };
        let mut v: Vec<char> = Vec::new();
        v.push('-');
        let d = u64_dec(m);
        push_all(&mut v, d.as_slice());
        proof {
            assert(v@ =~= seq!['-'] + dec((-(n as int)) as nat));
        }
        v
    } else {
        u64_dec(n as u64)
    }
}

/// Lowercase hexadecimal rendering of `n` in exactly `width` digits
/// (the low `width` nibbles; `format!("{n:016x}")` for `width == 16`).
pub open spec fn hex_fixed(n: nat, width: nat) -> Seq<char>
    decreases width,
{
    if width == 0 {
        Seq::empty()
    } else {
        hex_fixed(n / 16, (width - 1) as nat).push(digit_char(n % 16))
    }
}

/// Renders all 16 hex digits of `n`, most significant first.
pub fn u64_hex16(n: u64) -> (r: Vec<char>)
    ensures
        r@ == hex_fixed(n as nat, 16),
{
    let mut digits: Vec<char> = Vec::new();
    let mut k: usize = 0;
    let mut m: u64 = n;
    let ghost mut pw: nat = 1;
    // digits[j] holds hex digit j counted from the least significant end.
    while k < 16
        invariant
            0 <= k <= 16,
            digits@.len() == k,
            pw == pow16(k as nat),
            m as nat == n as nat / pw,
            forall|j: int| 0 <= j < k ==> #[trigger] digits@[j] == digit_char(
                (n as nat / pow16(j as nat)) % 16,
            ),
        decreases 16 - k,
    {
        digits.push(digit(m % 16));
        proof {
            lemma_pow16_pos(k as nat);
            lemma_div_div16(n as nat, pw);
            pw = pw * 16;
        }
        m = m / 16;
        k = k + 1;
    }
    let mut r: Vec<char> = Vec::new();
    let mut i: usize = 16;
    while i > 0
        invariant
            0 <= i <= 16,
            digits@.len() == 16,
            forall|j: int| 0 <= j < 16 ==> #[trigger] digits@[j] == digit_char(
                (n as nat / pow16(j as nat)) % 16,
            ),
            r@ == hex_fixed(n as nat / pow16(i as nat), (16 - i) as nat),
        decreases i,
    {
        i = i - 1;
        r.push(digits[i]);
        proof {
            lemma_pow16_pos(i as nat);
            lemma_div_div16(n as nat, pow16(i as nat));
            assert(pow16((i + 1) as nat) == pow16(i as nat) * 16);
            let q = n as nat / pow16(i as nat);
            assert(q / 16 == n as nat / pow16((i + 1) as nat));
            assert(hex_fixed(q, (16 - i) as nat) == hex_fixed(q / 16, (16 - i - 1) as nat).push(
                digit_char(q % 16),
            ));
        }
    }
    proof {
        assert(pow16(0) == 1);
    }
    r
}

pub open spec fn pow16(k: nat) -> nat
    decreases k,
{
    if k == 0 {
        1
    } else {
        16 * pow16((k - 1) as nat)
    }
}

proof fn lemma_div_div16(n: nat, p: nat)
    requires
        p >= 1,
    ensures
        n / p / 16 == n / (p * 16),
        p * 16 >= 1,
{
    vstd::arithmetic::div_mod::lemma_div_denominator(n as int, p as int, 16);
}

proof fn lemma_pow16_pos(k: nat)
    ensures
        pow16(k) >= 1,
    decreases k,
{
    if k > 0 {
        lemma_pow16_pos((k - 1) as nat);
    }
}

// ---------------------------------------------------------------------
// Decimal parsing
// ---------------------------------------------------------------------

pub open spec fn is_digit(c: char) -> bool {
    '0' <= c && c <= '9'
}

pub open spec fn digit_value(c: char) -> nat {
    ((c as u32) - 48) as nat
}

/// The value of a string of decimal digits.
pub open spec fn digits_value(s: Seq<char>) -> nat
    decreases s.len(),
{
    if s.len() == 0 {
        0
    } else {
        digits_value(s.drop_last()) * 10 + digit_value(s.last())
    }
}

/// What `str::parse::<uN>` accepts: an optional `+` followed by one or more
/// ASCII digits; `None` when the text is not of that form. (Range is checked
/// separately against the target type's maximum.)
pub open spec fn parse_unsigned(s: Seq<char>) -> Option<nat> {
    let d = if s.len() > 0 && s[0] == '+' {
        s.drop_first()
    } else {
        s
    };
    if d.len() > 0 && all_digits(d) {
        Some(digits_value(d))
    } else {
        None
    }
}

/// Every character of `s` is an ASCII digit.
pub open spec fn all_digits(s: Seq<char>) -> bool {
    forall|i: int| 0 <= i < s.len() ==> is_digit(#[trigger] s[i])
}

/// `str::parse::<T>()` for an unsigned integer type `T` whose maximum is `max`.
pub open spec fn parse_bounded(s: Seq<char>, max: nat) -> Option<nat> {
    match parse_unsigned(s) {
        Some(v) => if v <= max {
            Some(v)
        } else {
            None
        },
        None => None,
    }
}

proof fn lemma_parse_unsigned_def(s: Seq<char>, d: Seq<char>)
    requires
        d == (if s.len() > 0 && s[0] == '+' {
            s.drop_first()
        } else {
            s
        }),
    ensures
        parse_unsigned(s) == (if d.len() > 0 && all_digits(d) {
            Some(digits_value(d))
        } else {
            None
        }),
{
}

proof fn lemma_digits_value_mono(s: Seq<char>, k: int)
    requires
        0 <= k <= s.len(),
    ensures
        digits_value(s.take(k)) <= digits_value(s),
    decreases s.len() - k,
{
    if k < s.len() {
        lemma_digits_value_mono(s, k + 1);
        assert(s.take(k + 1).drop_last() =~= s.take(k));
        assert(digits_value(s.take(k + 1)) == digits_value(s.take(k)) * 10 + digit_value(
            s.take(k + 1).last(),
        ));
    } else {
        assert(s.take(k) =~= s);
    }
}

/// Parses a decimal unsigned integer no greater than `max`, with the
/// acceptance rules of `str::parse` for unsigned integer types.
pub fn parse_u64_max(s: &[char], max: u64) -> (r: Option<u64>)
    ensures
        r == (match parse_bounded(s@, max as nat) {
            Some(v) => Some(v as u64),
            None => None,
        }),
{
    let start: usize = if s.len() > 0 && s[0] == '+' {
        1
    } else {
        0
    };
    let ghost d = if s@.len() > 0 && s@[0] == '+' {
        s@.drop_first()
    } else {
        s@
    };
    assert(d =~= s@.skip(start as int));
    if start >= s.len() {
        assert(d.len() == 0);
        return None;
    }
    let mut acc: u64 = 0;
    let mut i: usize = start;
    while i < s.len()
        invariant
            start <= i <= s@.len(),
            d == s@.skip(start as int),
            d == (if s@.len() > 0 && s@[0] == '+' {
                s@.drop_first()
            } else {
                s@
            }),
            forall|j: int| start <= j < i ==> is_digit(#[trigger] s@[j]),
            acc as nat == digits_value(d.take(i - start)),
            acc <= max,
        decreases s@.len() - i,
    {
        let c = s[i];
        if !(c >= '0' && c <= '9') {
            proof {
                assert(!is_digit(d[i - start]));
                assert(!all_digits(d));
                lemma_parse_unsigned_def(s@, d);
                assert(parse_unsigned(s@) is None);
            }
            return None;
        }
        let dv: u64 = (c as u32 - 48) as u64;
        proof {
            assert(d.take(i - start + 1).drop_last() =~= d.take(i - start));
            assert(d.take(i - start + 1).last() == c);
        }
        if dv > max || acc > (max - dv) / 10 {
            proof {
                if dv <= max {
                    assert(acc * 10 + dv > max) by (nonlinear_arith)
                        requires
                            acc > (max - dv) / 10,
                            dv <= max,
                    ;
                }
                lemma_digits_value_mono(d, i - start + 1);
                assert(digits_value(d.take(i - start + 1)) == acc * 10 + dv);
                lemma_parse_unsigned_def(s@, d);
                assert(parse_bounded(s@, max as nat) is None);
            }
            return None;
        }
        proof {
            assert(acc * 10 + dv <= max) by (nonlinear_arith)
                requires
                    acc <= (max - dv) / 10,
                    dv <= max,
            ;
        }
        acc = acc * 10 + dv;
        i = i + 1;
    }
    proof {
        assert(d.take(s@.len() - start) =~= d);
        assert forall|j: int| 0 <= j < d.len() implies is_digit(#[trigger] d[j]) by {
            assert(d[j] == s@[start + j]);
        }
        assert(all_digits(d));
        lemma_parse_unsigned_def(s@, d);
    }
    Some(acc)
}


/// Lexicographic order on character sequences, by code point (the order in
/// which `str` compares, UTF-8 preserving code-point order).
pub open spec fn chars_lt(a: Seq<char>, b: Seq<char>) -> bool
    decreases a.len(),
{
    if a.len() == 0 {
        b.len() > 0
    } else if b.len() == 0 {
        false
    } else if a[0] != b[0] {
        (a[0] as int) < (b[0] as int)
    } else {
        chars_lt(a.drop_first(), b.drop_first())
    }
}

pub proof fn lemma_chars_lt_irreflexive(a: Seq<char>)
    ensures
        !chars_lt(a, a),
    decreases a.len(),
{
    if a.len() > 0 {
        lemma_chars_lt_irreflexive(a.drop_first());
    }
}

pub proof fn lemma_chars_lt_asymmetric(a: Seq<char>, b: Seq<char>)
    ensures
        !(chars_lt(a, b) && chars_lt(b, a)),
    decreases a.len(),
{
    if a.len() > 0 && b.len() > 0 && a[0] == b[0] {
        lemma_chars_lt_asymmetric(a.drop_first(), b.drop_first());
    }
}

pub proof fn lemma_chars_lt_transitive(a: Seq<char>, b: Seq<char>, c: Seq<char>)
    requires
        chars_lt(a, b),
        chars_lt(b, c),
    ensures
        chars_lt(a, c),
    decreases a.len(),
{
    if a.len() > 0 && b.len() > 0 && c.len() > 0 && a[0] == b[0] && b[0] == c[0] {
        lemma_chars_lt_transitive(a.drop_first(), b.drop_first(), c.drop_first());
    }
}

pub proof fn lemma_chars_lt_total(a: Seq<char>, b: Seq<char>)
    requires
        a != b,
    ensures
        chars_lt(a, b) || chars_lt(b, a),
    decreases a.len(),
{
    if a.len() == 0 {
        assert(b.len() > 0) by {
            if b.len() == 0 {
                assert(a =~= b);
            }
        }
    } else if b.len() == 0 {
    } else if a[0] != b[0] {
        assert((a[0] as int) != (b[0] as int));
    } else {
        if a.drop_first() == b.drop_first() {
            assert(a.drop_first().len() == a.len() - 1);
            assert(b.drop_first().len() == b.len() - 1);
            assert(a.len() == b.len());
            assert(a =~= b) by {
                assert forall|i: int| 0 <= i < a.len() implies a[i] == b[i] by {
                    if i > 0 {
                        assert(a[i] == a.drop_first()[i - 1]);
                        assert(b[i] == b.drop_first()[i - 1]);
                    }
                }
            }
        }
        lemma_chars_lt_total(a.drop_first(), b.drop_first());
    }
}

/// Whether `a` sorts strictly before `b`.
pub fn chars_less(a: &[char], b: &[char]) -> (r: bool)
    ensures
        r == chars_lt(a@, b@),
{
    let mut i: usize = 0;
    proof {
        assert(a@.skip(0) =~= a@);
        assert(b@.skip(0) =~= b@);
    }
    while i < a.len() && i < b.len()
        invariant
            0 <= i <= a@.len(),
            i <= b@.len(),
            chars_lt(a@, b@) == chars_lt(a@.skip(i as int), b@.skip(i as int)),
        decreases a@.len() - i,
    {
        let x = a[i];
        let y = b[i];
        if x != y {
            proof {
                assert(a@.skip(i as int)[0] == x);
                assert(b@.skip(i as int)[0] == y);
            }
            return x < y;
        }
        proof {
            assert(a@.skip(i as int).drop_first() =~= a@.skip(i + 1));
            assert(b@.skip(i as int).drop_first() =~= b@.skip(i + 1));
        }
        i = i + 1;
    }
    i == a.len() && i < b.len()
}

/// Whether two strings hold the same characters.
pub fn str_eq(a: &str, b: &str) -> (r: bool)
    ensures
        r == (a@ == b@),
{
    let x = chars_of(a);
    let y = chars_of(b);
    if x.len() != y.len() {
        return false;
    }
    let r = matches_at(x.as_slice(), y.as_slice(), 0);
    proof {
        if r {
            assert(x@.subrange(0, y@.len() as int) =~= x@);
        } else {
            if x@ == y@ {
                assert(x@.subrange(0, y@.len() as int) =~= x@);
            }
        }
    }
    r
}

// ---------------------------------------------------------------------
// Lines
// ---------------------------------------------------------------------

/// Scanning `s` left to right: the lines completed so far and the line in
/// progress.
pub open spec fn lines_fold(s: Seq<char>) -> (Seq<Seq<char>>, Seq<char>)
    decreases s.len(),
{
    if s.len() == 0 {
        (Seq::empty(), Seq::empty())
    } else {
        let (d, c) = lines_fold(s.drop_last());
        if s.last() == '\n' {
            (d.push(c), Seq::empty())
        } else {
            (d, c.push(s.last()))
        }
    }
}

/// The pieces of `s` between line feeds (the last one possibly empty).
pub open spec fn line_pieces(s: Seq<char>) -> Seq<Seq<char>> {
    lines_fold(s).0.push(lines_fold(s).1)
}

/// Splits `s` at every line feed (see `line_pieces`).
pub fn split_lines(s: &[char]) -> (r: Vec<Vec<char>>)
    ensures
        r@.len() == line_pieces(s@).len(),
        forall|i: int| 0 <= i < r@.len() ==> #[trigger] r@[i]@ == line_pieces(s@)[i],
{
    let mut done: Vec<Vec<char>> = Vec::new();
    let mut cur: Vec<char> = Vec::new();
    let mut i: usize = 0;
    while i < s.len()
        invariant
            0 <= i <= s@.len(),
            done@.len() == lines_fold(s@.take(i as int)).0.len(),
            forall|k: int| 0 <= k < done@.len() ==> #[trigger] done@[k]@ == lines_fold(s@.take(i as int)).0[k],
            cur@ == lines_fold(s@.take(i as int)).1,
        decreases s@.len() - i,
    {
        proof {
            assert(s@.take(i + 1).drop_last() =~= s@.take(i as int));
        }
        let c = s[i];
        if c == '\n' {
            let line = cur;
            done.push(line);
            cur = Vec::new();
        } else {
            cur.push(c);
        }
        i = i + 1;
    }
    proof {
        assert(s@.take(s@.len() as int) =~= s@);
    }
    done.push(cur);
    done
}

/// Scanning `s` left to right: the pieces completed so far at separator
/// `sep`, and the piece in progress.
pub open spec fn split_fold(s: Seq<char>, sep: char) -> (Seq<Seq<char>>, Seq<char>)
    decreases s.len(),
{
    if s.len() == 0 {
        (Seq::empty(), Seq::empty())
    } else {
        let (d, c) = split_fold(s.drop_last(), sep);
        if s.last() == sep {
            (d.push(c), Seq::empty())
        } else {
            (d, c.push(s.last()))
        }
    }
}

/// The pieces of `s` between occurrences of `sep` (`str::split` with a
/// character pattern): never empty, and a leading, trailing or doubled
/// separator gives an empty piece.
pub open spec fn split_pieces(s: Seq<char>, sep: char) -> Seq<Seq<char>> {
    split_fold(s, sep).0.push(split_fold(s, sep).1)
}

/// Splits `s` at every occurrence of `sep` (see `split_pieces`).
pub fn split_on(s: &[char], sep: char) -> (r: Vec<Vec<char>>)
    ensures
        r@.len() == split_pieces(s@, sep).len(),
        forall|i: int| 0 <= i < r@.len() ==> #[trigger] r@[i]@ == split_pieces(s@, sep)[i],
{
    let mut done: Vec<Vec<char>> = Vec::new();
    let mut cur: Vec<char> = Vec::new();
    let mut i: usize = 0;
    while i < s.len()
        invariant
            0 <= i <= s@.len(),
            done@.len() == split_fold(s@.take(i as int), sep).0.len(),
            forall|k: int|
                0 <= k < done@.len() ==> #[trigger] done@[k]@ == split_fold(s@.take(i as int), sep).0[k],
            cur@ == split_fold(s@.take(i as int), sep).1,
        decreases s@.len() - i,
    {
        proof {
            assert(s@.take(i + 1).drop_last() =~= s@.take(i as int));
        }
        let c = s[i];
        if c == sep {
            let piece = cur;
            done.push(piece);
            cur = Vec::new();
        } else {
            cur.push(c);
        }
        i = i + 1;
    }
    proof {
        assert(s@.take(s@.len() as int) =~= s@);
    }
    done.push(cur);
    done
}

pub proof fn lemma_first_ci_from(hay: Seq<char>, needle: Seq<char>, from: int)
    ensures
        first_ci_from(hay, needle, from) matches Some(i) ==> from <= i && occurs_ci_at(hay, needle, i)
            && forall|j: int| from <= j < i ==> !occurs_ci_at(hay, needle, j),
        first_ci_from(hay, needle, from) is None ==> forall|j: int|
            from <= j ==> !occurs_ci_at(hay, needle, j),
{
    reveal(first_ci_from);
    if exists|i: int| from <= i && occurs_ci_at(hay, needle, i) {
        let w = choose|i: int| from <= i && occurs_ci_at(hay, needle, i);
        lemma_first_ci_witness(hay, needle, from, w);
    }
}

proof fn lemma_first_ci_witness(hay: Seq<char>, needle: Seq<char>, from: int, w: int)
    requires
        from <= w,
        occurs_ci_at(hay, needle, w),
    ensures
        exists|i: int|
            from <= i && occurs_ci_at(hay, needle, i) && forall|j: int|
                from <= j < i ==> !occurs_ci_at(hay, needle, j),
    decreases w - from,
{
    if exists|j: int| from <= j < w && occurs_ci_at(hay, needle, j) {
        let j = choose|j: int| from <= j < w && occurs_ci_at(hay, needle, j);
        lemma_first_ci_witness(hay, needle, from, j);
    } else {
        assert(from <= w && occurs_ci_at(hay, needle, w) && forall|j: int|
            from <= j < w ==> !occurs_ci_at(hay, needle, j));
    }
}

pub proof fn lemma_first_char_from(s: Seq<char>, c: char, from: int)
    ensures
        first_char_from(s, c, from) matches Some(i) ==> from <= i < s.len() && s[i] == c
            && forall|j: int| from <= j < i ==> s[j] != c,
        first_char_from(s, c, from) is None ==> forall|j: int| from <= j < s.len() ==> s[j] != c,
{
    reveal(first_char_from);
    if exists|i: int| from <= i < s.len() && s[i] == c {
        let w = choose|i: int| from <= i < s.len() && s[i] == c;
        lemma_first_char_witness(s, c, from, w);
    }
}

proof fn lemma_first_char_witness(s: Seq<char>, c: char, from: int, w: int)
    requires
        from <= w < s.len(),
        s[w] == c,
    ensures
        exists|i: int| from <= i < s.len() && s[i] == c && forall|j: int| from <= j < i ==> s[j] != c,
    decreases w - from,
{
    if exists|j: int| from <= j < w && s[j] == c {
        let j = choose|j: int| from <= j < w && s[j] == c;
        lemma_first_char_witness(s, c, from, j);
    } else {
        assert(from <= w < s.len() && s[w] == c && forall|j: int| from <= j < w ==> s[j] != c);
    }
}

/// `str::trim_start` on a character slice.
pub fn trim_start_chars(s: &[char]) -> (r: Vec<char>)
    ensures
        r@ == trim_start(s@),
{
    let mut lo: usize = 0;
    while lo < s.len() && is_whitespace(s[lo])
        invariant
            0 <= lo <= s@.len(),
            forall|j: int| 0 <= j < lo ==> is_ws(#[trigger] s@[j]),
        decreases s@.len() - lo,
    {
        lo = lo + 1;
    }
    proof {
        lemma_trim_start_idx_unique(s@, lo as int);
        assert(s@.subrange(lo as int, s@.len() as int) =~= s@.skip(lo as int));
    }
    slice_vec(s, lo, s.len())
}

/// What Rust's `str::to_lowercase` makes of a text.
pub uninterp spec fn to_lowercase_spec(s: Seq<char>) -> Seq<char>;

/// `str::to_lowercase`: the full Unicode lowercase mapping of the text.
/// The contract names the result, a function of the text alone.
#[verifier::external_body]
pub(crate) fn to_lowercase(s: &str) -> (r: String)
    ensures
        r@ == to_lowercase_spec(s@),
{
    s.to_lowercase()
}

} // verus!
