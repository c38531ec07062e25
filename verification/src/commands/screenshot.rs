//! Screenshots and screencasts: the capture parameters a request asks for,
//! the decoding of the captured image, and the format a recording uses.
use crate::text::{chars_of, lower_chars, lower_seq, owned, push_str, str_eq, string_from_chars, to_lowercase, to_lowercase_spec, u64_dec, dec};
use vstd::prelude::*;

verus! {

/// The capture parameters of a screenshot request that do not depend on the
/// page: the image format in lowercase, the JPEG/WebP quality (PNG takes
/// none; at most 100), and whether the page's size must be measured first.
pub struct CaptureParams {
    pub format: String,
    pub quality: Option<u64>,
    pub needs_metrics: bool,
}

/// The quality sent for a (lowercase) format.
pub open spec fn quality_spec(format_lower: Seq<char>, quality: Option<u64>) -> Option<u64> {
    match quality {
        Some(q) => if format_lower != "png"@ {
            Some(if q < 100 {
                q
            } else {
                100u64
            })
        } else {
            None
        },
        None => None,
    }
}

/// Works out the page-independent capture parameters. The size is measured
/// for a full-page capture or when a maximum width or height is given.
pub fn capture_params(format: &str, quality: Option<u64>, full_page: bool, has_max_width: bool, has_max_height: bool) -> (r:
    CaptureParams)
    ensures
        r.format@ == lower_seq(format@),
        r.quality == quality_spec(lower_seq(format@), quality),
        r.needs_metrics == (full_page || has_max_width || has_max_height),
{
    let fc = chars_of(format);
    let lower = lower_chars(fc.as_slice());
    let f = string_from_chars(lower.as_slice());
    let q = match quality {
        Some(q) => if !str_eq(f.as_str(), "png") {
            Some(
                if q < 100 {
                    q
                } else {
                    100u64
                },
            )
        } else {
            None
        },
        None => None,
    };
    CaptureParams { format: f, quality: q, needs_metrics: full_page || has_max_width || has_max_height }
}

/// What the standard base64 alphabet, with padding, decodes a text to; none
/// where the text is no valid base64.
pub uninterp spec fn base64_standard_decode(text: Seq<char>) -> Option<Seq<u8>>;

/// `base64::engine::general_purpose::STANDARD.decode`: the bytes the text
/// encodes, or the decoder's error message where it is no valid base64.
/// What that message says is not stated.
#[verifier::external_body]
fn base64_decode(text: &str) -> (r: Result<Vec<u8>, String>)
    ensures
        match r {
            Ok(b) => base64_standard_decode(text@) == Some(b@),
            Err(_) => base64_standard_decode(text@) is None,
        },
{
    match base64::Engine::decode(&base64::engine::general_purpose::STANDARD, text) {
        Ok(b) => Ok(b),
        Err(e) => Err(e.to_string()),
    }
}

/// Decodes the base64 image data of a capture.
pub fn decode_screenshot(data: &str) -> (r: Result<Vec<u8>, String>)
    ensures
        match r {
            Ok(b) => base64_standard_decode(data@) == Some(b@),
            Err(_) => base64_standard_decode(data@) is None,
        },
{
    base64_decode(data)
}

/// `Screenshot saved to <path> (<n> bytes)`.
pub fn screenshot_saved_message(path: &str, byte_count: usize) -> (r: String)
    ensures
        r@ == "Screenshot saved to "@ + path@ + " ("@ + dec(byte_count as nat) + " bytes)"@,
{
    let mut m = chars_of("Screenshot saved to ");
    push_str(&mut m, path);
    push_str(&mut m, " (");
    let d = u64_dec(byte_count as u64);
    crate::text::push_all(&mut m, d.as_slice());
    push_str(&mut m, " bytes)");
    string_from_chars(m.as_slice())
}

// ---------------------------------------------------------------------
// Screencast
// ---------------------------------------------------------------------

/// What `Path::extension` gives for a path: the part of its file name after
/// the last dot, where there is one.
pub uninterp spec fn path_extension_spec(path: Seq<char>) -> Option<Seq<char>>;

/// `std::path::Path::extension`, as text.
#[verifier::external_body]
fn path_extension(path: &str) -> (r: Option<String>)
    ensures
        match r {
            Some(e) => path_extension_spec(path@) == Some(e@),
            None => path_extension_spec(path@) is None,
        },
{
    std::path::Path::new(path).extension().and_then(|s| s.to_str()).map(|s| s.to_string())
}

/// The recording format: the one asked for, else the output file's
/// extension, else `mp4`, lowercased; only `mp4` and `webm` are taken.
pub open spec fn screencast_format_spec(output: Seq<char>, format: Option<Seq<char>>) -> Result<
    Seq<char>,
    Seq<char>,
> {
    let selected = match format {
        Some(f) => to_lowercase_spec(f),
        None => match path_extension_spec(output) {
            Some(e) => to_lowercase_spec(e),
            None => "mp4"@,
        },
    };
    if selected == "mp4"@ || selected == "webm"@ {
        Ok(selected)
    } else {
        Err("Unsupported screencast format \""@ + selected + "\". Supported formats: mp4, webm"@)
    }
}

/// Picks the recording format (see `screencast_format_spec`).
pub fn screencast_format(output: &str, format: Option<&str>) -> (r: Result<String, String>)
    ensures
        match (r, screencast_format_spec(output@, match format {
            Some(f) => Some(f@),
            None => None,
        })) {
            (Ok(a), Ok(b)) => a@ == b,
            (Err(a), Err(b)) => a@ == b,
            _ => false,
        },
{
    let selected = match format {
        Some(f) => to_lowercase(f),
        None => match path_extension(output) {
            Some(e) => to_lowercase(e.as_str()),
            None => owned("mp4"),
        },
    };
    if str_eq(selected.as_str(), "mp4") || str_eq(selected.as_str(), "webm") {
        Ok(selected)
    } else {
        let mut m = chars_of("Unsupported screencast format \"");
        push_str(&mut m, selected.as_str());
        push_str(&mut m, "\". Supported formats: mp4, webm");
        Err(string_from_chars(m.as_slice()))
    }
}

/// The report of a started recording.
pub fn screencast_started_message(output: &str) -> (r: String)
    ensures
        r@ == "Screencast recording successfully started. Output will be saved as "@ + output@
            + "."@,
{
    let mut m = chars_of("Screencast recording successfully started. Output will be saved as ");
    push_str(&mut m, output);
    push_str(&mut m, ".");
    string_from_chars(m.as_slice())
}

} // verus!
