//! Command telemetry: where the log of command runs is kept and which file a
//! run is logged to.
use crate::text::{chars_of, dec, push_str, string_from_chars, u64_dec};
use vstd::prelude::*;

verus! {

/// The directory, under the home directory, that holds the telemetry logs.
pub const LOG_DIR_PARENT: &'static str = ".chrome-devtools-cli";

/// The telemetry log directory's own name.
pub const LOG_DIR_NAME: &'static str = "logs";

/// Seconds in a day: the logs rotate daily.
pub const SECONDS_PER_DAY: u64 = 86400;

/// The log file of the day a run at `unix_secs` falls in:
/// `telemetry-<days since the epoch>.log`.
pub fn log_file_name(unix_secs: u64) -> (r: String)
    ensures
        r@ == "telemetry-"@ + dec((unix_secs / 86400) as nat) + ".log"@,
{
    let mut m = chars_of("telemetry-");
    let d = u64_dec(unix_secs / SECONDS_PER_DAY);
    crate::text::push_all(&mut m, d.as_slice());
    push_str(&mut m, ".log");
    string_from_chars(m.as_slice())
}

} // verus!
