//! Stable, machine-readable error codes and the typed error that carries one.
use crate::text::{dec, push_str, string_from_chars, u64_dec};
use vstd::prelude::*;

verus! {

/// Stable error codes for the command line. Each variant has a number that
/// does not change between versions, so callers can tell errors apart
/// without parsing messages.
#[derive(Debug, Clone, Copy, PartialEq, Eq, Structural)]
pub enum ErrorCode {
    /// Unspecified or unknown error.
    Unspecified,
    /// The browser's WebSocket endpoint could not be resolved.
    ChromeEndpointResolution,
    /// The DevTools connection failed.
    ChromeConnection,
    /// No such page.
    TargetNotFound,
    /// A command failed on the page.
    CommandExecution,
    /// A file could not be read or written.
    FileIo,
    /// The daemon could not be spawned or reached.
    Daemon,
    /// Bad arguments or missing fields.
    InvalidInput,
    /// A script threw on the page.
    JavaScriptError,
    /// The WebSocket closed unexpectedly.
    WebSocketDisconnected,
}

/// The stable number of each code.
pub open spec fn code_number(c: ErrorCode) -> u32 {
    match c {
        ErrorCode::Unspecified => 10,
        ErrorCode::ChromeEndpointResolution => 1,
        ErrorCode::ChromeConnection => 2,
        ErrorCode::TargetNotFound => 3,
        ErrorCode::CommandExecution => 4,
        ErrorCode::FileIo => 5,
        ErrorCode::Daemon => 6,
        ErrorCode::InvalidInput => 7,
        ErrorCode::JavaScriptError => 8,
        ErrorCode::WebSocketDisconnected => 9,
    }
}

impl ErrorCode {
    /// The stable number of this code.
    pub fn code(&self) -> (r: u32)
        ensures
            r == code_number(*self),
    {
        match self {
            ErrorCode::Unspecified => 10,
            ErrorCode::ChromeEndpointResolution => 1,
            ErrorCode::ChromeConnection => 2,
            ErrorCode::TargetNotFound => 3,
            ErrorCode::CommandExecution => 4,
            ErrorCode::FileIo => 5,
            ErrorCode::Daemon => 6,
            ErrorCode::InvalidInput => 7,
            ErrorCode::JavaScriptError => 8,
            ErrorCode::WebSocketDisconnected => 9,
        }
    }
}

/// Distinct codes have distinct numbers, and every number lies in `1..=10`.
pub proof fn lemma_code_numbers_distinct(a: ErrorCode, b: ErrorCode)
    ensures
        code_number(a) == code_number(b) <==> a == b,
        1 <= code_number(a) <= 10,
{
}

/// An error with a stable code, a message and, optionally, the text of the
/// error that caused it.
#[derive(Debug)]
pub struct CliError {
    code: ErrorCode,
    message: String,
    source: Option<String>,
}

/// How an error reads: `[E<code>] <message>`, then `\nCause: <source>` when
/// there is a cause.
pub open spec fn error_text(code: ErrorCode, message: Seq<char>, source: Option<Seq<char>>) -> Seq<
    char,
> {
    "[E"@ + dec(code_number(code) as nat) + "] "@ + message + match source {
        Some(s) => "\nCause: "@ + s,
        None => Seq::empty(),
    }
}

impl CliError {
    pub closed spec fn code_spec(&self) -> ErrorCode {
        self.code
    }

    pub closed spec fn message_spec(&self) -> Seq<char> {
        self.message@
    }

    pub closed spec fn source_spec(&self) -> Option<Seq<char>> {
        match self.source {
            Some(s) => Some(s@),
            None => None,
        }
    }

    /// An error with `code` and `message` and no cause.
    pub fn new(code: ErrorCode, message: &str) -> (r: Self)
        ensures
            r.code_spec() == code,
            r.message_spec() == message@,
            r.source_spec() is None,
    {
        CliError { code, message: crate::text::owned(message), source: None }
    }

    /// An error with `code` and `message`, caused by an error reading `source`.
    pub fn with_source(code: ErrorCode, message: &str, source: &str) -> (r: Self)
        ensures
            r.code_spec() == code,
            r.message_spec() == message@,
            r.source_spec() == Some(source@),
    {
        CliError {
            code,
            message: crate::text::owned(message),
            source: Some(crate::text::owned(source)),
        }
    }

    /// An unclassified error wrapping another error's text, which is both
    /// its message and its cause.
    pub fn from_message(text: &str) -> (r: Self)
        ensures
            r.code_spec() == ErrorCode::Unspecified,
            r.message_spec() == text@,
            r.source_spec() == Some(text@),
    {
        CliError::with_source(ErrorCode::Unspecified, text, text)
    }

    /// The stable code.
    pub fn code(&self) -> (r: ErrorCode)
        ensures
            r == self.code_spec(),
    {
        self.code
    }

    /// The message.
    pub fn message(&self) -> (r: &str)
        ensures
            r@ == self.message_spec(),
    {
        self.message.as_str()
    }

    /// The numeric code as a decimal string.
    pub fn code_str(&self) -> (r: String)
        ensures
            r@ == dec(code_number(self.code_spec()) as nat),
    {
        let v = u64_dec(self.code.code() as u64);
        string_from_chars(v.as_slice())
    }

    /// How the error reads (see `error_text`).
    pub fn to_display_string(&self) -> (r: String)
        ensures
            r@ == error_text(self.code_spec(), self.message_spec(), self.source_spec()),
    {
        let mut v: Vec<char> = Vec::new();
        push_str(&mut v, "[E");
        let d = u64_dec(self.code.code() as u64);
        crate::text::push_all(&mut v, d.as_slice());
        push_str(&mut v, "] ");
        push_str(&mut v, self.message.as_str());
        match &self.source {
            Some(s) => {
                push_str(&mut v, "\nCause: ");
                push_str(&mut v, s.as_str());
            },
            None => {},
        }
        proof {
            assert(v@ =~= error_text(self.code_spec(), self.message_spec(), self.source_spec()));
        }
        string_from_chars(v.as_slice())
    }
}

} // verus!
