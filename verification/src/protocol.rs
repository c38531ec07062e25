//! The client–daemon protocol: length-prefixed frames, the response and
//! metadata records, and the per-user, per-instance daemon file names.
use crate::format::OutputFormat;
use crate::text::{
    chars_less, chars_lt, chars_of, dec, hex_fixed, lemma_chars_lt_total, lemma_chars_lt_transitive,
    ends_with, ends_with_chars, push_str, slice_vec, starts_with, starts_with_chars, string_from_chars,
    u64_dec, u64_hex16,
};
use vstd::prelude::*;
use vstd::string::StringSliceAdditionalSpecFns;

verus! {

// ---------------------------------------------------------------------
// Requests and responses
// ---------------------------------------------------------------------

/// The output format of a request: its explicit format when it names one,
/// else JSON when the older `json_output` flag is set, else text.
pub fn resolve_request_format(output_format: Option<OutputFormat>, json_output: bool) -> (r: OutputFormat)
    ensures
        r == (match output_format {
            Some(f) => f,
            None => if json_output {
                OutputFormat::Json
            } else {
                OutputFormat::Text
            },
        }),
{
    match output_format {
        Some(f) => f,
        None => if json_output {
            OutputFormat::Json
        } else {
            OutputFormat::Text
        },
    }
}

/// The daemon's answer to one request.
pub struct DaemonResponse {
    pub success: bool,
    pub output: String,
    pub error: String,
    pub navigated_to: Option<String>,
    pub error_code: Option<u32>,
}

/// What a daemon publishes about itself: the browser it was started for,
/// the endpoint it is attached to, its process id and its start time.
pub struct DaemonInfo {
    pub browser: String,
    pub ws_url: String,
    pub pid: u32,
    pub started_unix: u64,
}

// ---------------------------------------------------------------------
// Instance keys
// ---------------------------------------------------------------------

/// FNV-1a (64-bit) of a byte string.
pub open spec fn fnv1a(bytes: Seq<u8>) -> u64
    decreases bytes.len(),
{
    if bytes.len() == 0 {
        0xcbf2_9ce4_8422_2325u64
    } else {
        let h = fnv1a(bytes.drop_last()) ^ (bytes.last() as u64);
        ((h as nat * 0x0000_0100_0000_01b3nat) % 0x1_0000_0000_0000_0000nat) as u64
    }
}

/// The identity of one daemon instance: the FNV-1a hash of the endpoint's
/// UTF-8 bytes, as 16 lowercase hex digits.
pub fn instance_key(ws_url: &str) -> (r: String)
    ensures
        r@ == hex_fixed(fnv1a(ws_url.spec_bytes()) as nat, 16),
{
    let bytes = ws_url.as_bytes();
    let mut hash: u64 = 0xcbf2_9ce4_8422_2325;
    let mut i: usize = 0;
    while i < bytes.len()
        invariant
            bytes@ == ws_url.spec_bytes(),
            0 <= i <= bytes@.len(),
            hash == fnv1a(bytes@.take(i as int)),
        decreases bytes@.len() - i,
    {
        proof {
            assert(bytes@.take(i + 1).drop_last() =~= bytes@.take(i as int));
        }
        hash = hash ^ (bytes[i] as u64);
        hash = hash.wrapping_mul(0x0000_0100_0000_01b3);
        i = i + 1;
    }
    proof {
        assert(bytes@.take(bytes@.len() as int) =~= bytes@);
    }
    let v = u64_hex16(hash);
    string_from_chars(v.as_slice())
}

// ---------------------------------------------------------------------
// Daemon file names
// ---------------------------------------------------------------------

/// The stem shared by every daemon file of a user: `chrome-devtools-daemon`,
/// then `-<uid>` where the platform has user ids.
pub open spec fn file_prefix_spec(uid: Option<u32>) -> Seq<char> {
    "chrome-devtools-daemon"@ + match uid {
        Some(u) => seq!['-'] + dec(u as nat),
        None => Seq::empty(),
    }
}

/// See `file_prefix_spec`.
pub fn daemon_file_prefix(uid: Option<u32>) -> (r: String)
    ensures
        r@ == file_prefix_spec(uid),
{
    let mut v: Vec<char> = Vec::new();
    push_str(&mut v, "chrome-devtools-daemon");
    match uid {
        Some(u) => {
            v.push('-');
            let d = u64_dec(u as u64);
            crate::text::push_all(&mut v, d.as_slice());
        },
        None => {},
    }
    proof {
        assert(v@ =~= file_prefix_spec(uid));
    }
    string_from_chars(v.as_slice())
}

/// The file name of instance `key`'s file with extension `ext`:
/// `<prefix>-<key>.<ext>`.
pub open spec fn keyed_name_spec(prefix: Seq<char>, key: Seq<char>, ext: Seq<char>) -> Seq<char> {
    prefix + seq!['-'] + key + seq!['.'] + ext
}

/// See `keyed_name_spec`.
pub fn keyed_file_name(prefix: &str, key: &str, ext: &str) -> (r: String)
    ensures
        r@ == keyed_name_spec(prefix@, key@, ext@),
{
    let mut v: Vec<char> = Vec::new();
    push_str(&mut v, prefix);
    v.push('-');
    push_str(&mut v, key);
    v.push('.');
    push_str(&mut v, ext);
    proof {
        assert(v@ =~= keyed_name_spec(prefix@, key@, ext@));
    }
    string_from_chars(v.as_slice())
}

/// The name of the one startup lock shared by all instances: `<prefix>.lock`.
pub fn lock_file_name(prefix: &str) -> (r: String)
    ensures
        r@ == prefix@ + ".lock"@,
{
    let mut v: Vec<char> = Vec::new();
    push_str(&mut v, prefix);
    push_str(&mut v, ".lock");
    string_from_chars(v.as_slice())
}

/// The pid-file name of the older one-daemon-per-user layout: `<prefix>.pid`.
pub fn legacy_unkeyed_pid_file_name(prefix: &str) -> (r: String)
    ensures
        r@ == prefix@ + ".pid"@,
{
    let mut v: Vec<char> = Vec::new();
    push_str(&mut v, prefix);
    push_str(&mut v, ".pid");
    string_from_chars(v.as_slice())
}

/// The instance key a file name encodes: the part between `<prefix>-` and
/// `.pid`, when the name has both and that part is not empty.
pub open spec fn key_of_file_name(prefix: Seq<char>, name: Seq<char>) -> Option<Seq<char>> {
    let head = prefix + seq!['-'];
    let tail = ".pid"@;
    if starts_with(name, head) && ends_with(name, tail) && name.len() > head.len() + tail.len() {
        Some(name.subrange(head.len() as int, name.len() - tail.len()))
    } else {
        None
    }
}

/// See `key_of_file_name`.
pub fn instance_key_from_file_name(prefix: &str, name: &str) -> (r: Option<String>)
    ensures
        match r {
            Some(k) => key_of_file_name(prefix@, name@) == Some(k@),
            None => key_of_file_name(prefix@, name@) is None,
        },
{
    let mut head: Vec<char> = Vec::new();
    push_str(&mut head, prefix);
    head.push('-');
    let tail = chars_of(".pid");
    let n = chars_of(name);
    assert(head@ =~= prefix@ + seq!['-']);
    if n.len() <= head.len() || n.len() - head.len() <= tail.len() {
        return None;
    }
    if !starts_with_chars(n.as_slice(), head.as_slice()) {
        return None;
    }
    if !ends_with_chars(n.as_slice(), tail.as_slice()) {
        return None;
    }
    let key = slice_vec(n.as_slice(), head.len(), n.len() - tail.len());
    Some(string_from_chars(key.as_slice()))
}

/// Some entry of `s` reads `x`.
pub open spec fn key_listed(s: Seq<String>, x: Seq<char>) -> bool {
    exists|i: int| 0 <= i < s.len() && #[trigger] s[i]@ == x
}

/// One of the first `m` names encodes key `x`.
pub open spec fn names_give_key(prefix: Seq<char>, names: Seq<String>, m: int, x: Seq<char>) -> bool {
    exists|j: int| 0 <= j < m && key_of_file_name(prefix, #[trigger] names[j]@) == Some(x)
}

/// Inserts `k` into the strictly sorted keys `out` unless it is there.
fn insert_key_sorted(out: &mut Vec<String>, k: String)
    requires
        forall|i: int, j: int| 0 <= i < j < old(out)@.len() ==> chars_lt(#[trigger] old(out)@[i]@, #[trigger] old(out)@[j]@),
    ensures
        forall|i: int, j: int| 0 <= i < j < final(out)@.len() ==> chars_lt(#[trigger] final(out)@[i]@, #[trigger] final(out)@[j]@),
        forall|x: Seq<char>|
            #[trigger] key_listed(final(out)@, x) <==> (x == k@ || key_listed(old(out)@, x)),
{
    let ghost before = out@;
    let kc = chars_of(k.as_str());
    let mut lo: usize = 0;
    let mut hi: usize = out.len();
    while lo < hi
        invariant
            0 <= lo <= hi <= before.len(),
            out@ == before,
            kc@ == k@,
            forall|i: int, j: int| 0 <= i < j < before.len() ==> chars_lt(#[trigger] before[i]@, #[trigger] before[j]@),
            forall|i: int| 0 <= i < lo ==> chars_lt(#[trigger] before[i]@, k@),
            forall|i: int| hi <= i < before.len() ==> !chars_lt(#[trigger] before[i]@, k@),
        decreases hi - lo,
    {
        let mid = lo + (hi - lo) / 2;
        let mc = chars_of(out[mid].as_str());
        if chars_less(mc.as_slice(), kc.as_slice()) {
            proof {
                assert forall|i: int| 0 <= i < mid + 1 implies chars_lt(#[trigger] before[i]@, k@) by {
                    if i < mid {
                        lemma_chars_lt_transitive(before[i]@, before[mid as int]@, k@);
                    }
                }
            }
            lo = mid + 1;
        } else {
            proof {
                assert forall|i: int| mid <= i < before.len() implies !chars_lt(#[trigger] before[i]@, k@) by {
                    if i > mid && chars_lt(before[i]@, k@) {
                        lemma_chars_lt_transitive(before[mid as int]@, before[i]@, k@);
                    }
                }
            }
            hi = mid;
        }
    }
    if lo < out.len() {
        let lc = chars_of(out[lo].as_str());
        if !chars_less(kc.as_slice(), lc.as_slice()) {
            // neither sorts before the other: the key is already present
            proof {
                if before[lo as int]@ != k@ {
                    lemma_chars_lt_total(before[lo as int]@, k@);
                }
            }
            return;
        }
    }
    out.insert(lo, k);
    proof {
        let p = lo as int;
        let after = out@;
        assert forall|i: int, j: int| 0 <= i < j < after.len() implies chars_lt(#[trigger] after[i]@, #[trigger] after[j]@) by {
            if j < p {
                assert(after[i] == before[i]);
                assert(after[j] == before[j]);
            } else if j == p {
                assert(after[i] == before[i]);
            } else if i < p {
                assert(after[i] == before[i]);
                assert(after[j] == before[j - 1]);

            } else if i == p {
                assert(after[j] == before[j - 1]);
                if j - 1 > p {
                    lemma_chars_lt_transitive(k@, before[p]@, before[j - 1]@);
                }
            } else {
                assert(after[i] == before[i - 1]);
                assert(after[j] == before[j - 1]);
            }
        }
        assert forall|x: Seq<char>|
            #[trigger] key_listed(after, x) <==> (x == k@ || key_listed(before, x)) by {
            if exists|i: int| 0 <= i < after.len() && #[trigger] after[i]@ == x {
                let i = choose|i: int| 0 <= i < after.len() && #[trigger] after[i]@ == x;
                if i < p {
                    assert(after[i] == before[i]);
                } else if i > p {
                    assert(after[i] == before[i - 1]);
                }
            }
            if x == k@ {
                assert(after[p]@ == x);
            }
            if exists|i: int| 0 <= i < before.len() && #[trigger] before[i]@ == x {
                let i = choose|i: int| 0 <= i < before.len() && #[trigger] before[i]@ == x;
                if i < p {
                    assert(after[i] == before[i]);
                } else {
                    assert(after[i + 1] == before[i]);
                }
            }
        }
    }
}

/// The instance keys named by a directory's file names: each name's key
/// (see `key_of_file_name`), once each, in ascending order.
pub fn select_instance_keys(prefix: &str, names: &Vec<String>) -> (r: Vec<String>)
    ensures
        forall|i: int, j: int| 0 <= i < j < r@.len() ==> chars_lt(#[trigger] r@[i]@, #[trigger] r@[j]@),
        forall|x: Seq<char>|
            #[trigger] key_listed(r@, x) <==> names_give_key(prefix@, names@, names@.len() as int, x),
{
    let mut out: Vec<String> = Vec::new();
    let mut j: usize = 0;
    while j < names.len()
        invariant
            0 <= j <= names@.len(),
            forall|a: int, b: int| 0 <= a < b < out@.len() ==> chars_lt(#[trigger] out@[a]@, #[trigger] out@[b]@),
            forall|x: Seq<char>|
                #[trigger] key_listed(out@, x) <==> names_give_key(prefix@, names@, j as int, x),
        decreases names@.len() - j,
    {
        let ghost before = out@;
        match instance_key_from_file_name(prefix, names[j].as_str()) {
            Some(k) => {
                let ghost kv = k@;
                insert_key_sorted(&mut out, k);
                proof {
                    assert forall|x: Seq<char>|
                        #[trigger] key_listed(out@, x) <==> names_give_key(prefix@, names@, j + 1, x) by {
                        if names_give_key(prefix@, names@, j + 1, x) {
                            let m = choose|m: int| 0 <= m < j + 1 && key_of_file_name(prefix@, #[trigger] names@[m]@) == Some(x);
                            if m < j {
                                assert(names_give_key(prefix@, names@, j as int, x));
                                assert(key_listed(before, x));
                            }
                        }
                        if x == kv {
                            assert(key_of_file_name(prefix@, names@[j as int]@) == Some(x));
                        }
                        if key_listed(before, x) {
                            assert(names_give_key(prefix@, names@, j as int, x));
                            let m = choose|m: int| 0 <= m < j && key_of_file_name(prefix@, #[trigger] names@[m]@) == Some(x);
                            assert(0 <= m < j + 1);
                        }
                    }
                }
            },
            None => {
                proof {
                    assert forall|x: Seq<char>|
                        #[trigger] key_listed(out@, x) <==> names_give_key(prefix@, names@, j + 1, x) by {
                        if names_give_key(prefix@, names@, j + 1, x) {
                            let m = choose|m: int| 0 <= m < j + 1 && key_of_file_name(prefix@, #[trigger] names@[m]@) == Some(x);
                            assert(m < j);
                            assert(names_give_key(prefix@, names@, j as int, x));
                        }
                        if key_listed(out@, x) {
                            assert(names_give_key(prefix@, names@, j as int, x));
                            let m = choose|m: int| 0 <= m < j && key_of_file_name(prefix@, #[trigger] names@[m]@) == Some(x);
                            assert(0 <= m < j + 1);
                        }
                    }
                }
            },
        }
        j = j + 1;
    }
    out
}

// ---------------------------------------------------------------------
// Framing
// ---------------------------------------------------------------------

/// The largest payload a frame may announce: 64 MiB.
pub const MAX_FRAME_LEN: u32 = 67108864u32;

/// The big-endian number a 4-byte header holds.
pub open spec fn be_u32(b: Seq<u8>) -> nat {
    b[0] as nat * 16777216 + b[1] as nat * 65536 + b[2] as nat * 256 + b[3] as nat
}

/// A frame: the payload's length (as a `u32`) in 4 big-endian bytes, then
/// the payload.
pub fn encode_frame(data: &[u8]) -> (r: Vec<u8>)
    ensures
        r@.len() == 4 + data@.len(),
        be_u32(r@.take(4)) == (data@.len() as u32) as nat,
        r@.skip(4) == data@,
{
    let n = data.len() as u32;
    let b0 = (n >> 24u32) as u8;
    let b1 = ((n >> 16u32) & 0xffu32) as u8;
    let b2 = ((n >> 8u32) & 0xffu32) as u8;
    let b3 = (n & 0xffu32) as u8;
    proof {
        assert(b0 as nat * 16777216 + b1 as nat * 65536 + b2 as nat * 256 + b3 as nat == n as nat)
            by (bit_vector)
            requires
                b0 == (n >> 24u32) as u8,
                b1 == ((n >> 16u32) & 0xffu32) as u8,
                b2 == ((n >> 8u32) & 0xffu32) as u8,
                b3 == (n & 0xffu32) as u8,
        ;
    }
    let mut out: Vec<u8> = Vec::new();
    out.push(b0);
    out.push(b1);
    out.push(b2);
    out.push(b3);
    let mut i: usize = 0;
    while i < data.len()
        invariant
            0 <= i <= data@.len(),
            out@.len() == 4 + i,
            out@[0] == b0,
            out@[1] == b1,
            out@[2] == b2,
            out@[3] == b3,
            out@.skip(4) == data@.take(i as int),
        decreases data@.len() - i,
    {
        out.push(data[i]);
        proof {
            assert(out@.skip(4) =~= data@.take(i + 1));
        }
        i = i + 1;
    }
    proof {
        assert(data@.take(data@.len() as int) =~= data@);
    }
    out
}

/// Why a frame header is refused.
#[derive(Debug, Clone, Copy, PartialEq, Eq, Structural)]
pub enum FrameError {
    /// The announced length exceeds `MAX_FRAME_LEN`.
    TooLarge(u32),
}

impl FrameError {
    /// `Message too large: <len> bytes`.
    pub fn message(&self) -> (r: String)
        ensures
            r@ == (match *self {
                FrameError::TooLarge(n) => "Message too large: "@ + dec(n as nat) + " bytes"@,
            }),
    {
        match self {
            FrameError::TooLarge(n) => {
                let mut v: Vec<char> = Vec::new();
                push_str(&mut v, "Message too large: ");
                let d = u64_dec(*n as u64);
                crate::text::push_all(&mut v, d.as_slice());
                push_str(&mut v, " bytes");
                string_from_chars(v.as_slice())
            },
        }
    }
}

/// The payload length a frame header announces, refused above 64 MiB.
pub fn frame_len(header: [u8; 4]) -> (r: Result<usize, FrameError>)
    ensures
        match r {
            Ok(n) => n == be_u32(header@) && n <= MAX_FRAME_LEN,
            Err(FrameError::TooLarge(n)) => n == be_u32(header@) && n > MAX_FRAME_LEN,
        },
{
    let b0 = header[0] as u32;
    let b1 = header[1] as u32;
    let b2 = header[2] as u32;
    let b3 = header[3] as u32;
    let n: u32 = b0 * 16777216 + b1 * 65536 + b2 * 256 + b3;
    if n > MAX_FRAME_LEN {
        Err(FrameError::TooLarge(n))
    } else {
        Ok(n as usize)
    }
}

/// A frame's header announces its payload's length, which `frame_len`
/// accepts whenever the payload is at most 64 MiB.
pub proof fn lemma_frame_round_trip(data: Seq<u8>, frame: Seq<u8>)
    requires
        data.len() <= MAX_FRAME_LEN,
        frame.len() == 4 + data.len(),
        be_u32(frame.take(4)) == (data.len() as u32) as nat,
        frame.skip(4) == data,
    ensures
        be_u32(frame.take(4)) == data.len(),
        be_u32(frame.take(4)) <= MAX_FRAME_LEN,
        frame.subrange(4, 4 + be_u32(frame.take(4)) as int) == data,
{
    assert(frame.subrange(4, 4 + data.len() as int) =~= frame.skip(4));
}

} // verus!
