//! The output format a command renders in.
use vstd::prelude::*;

verus! {

/// Plain text, pretty JSON or TOON.
#[derive(Debug, Clone, Copy, PartialEq, Eq, Structural)]
pub enum OutputFormat {
    Text,
    Json,
    Toon,
}

impl Default for OutputFormat {
    fn default() -> (r: Self)
        ensures
            r == OutputFormat::Text,
    {
        OutputFormat::Text
    }
}

impl OutputFormat {
    /// The format the `--json` and `--toon` flags select; `--toon` wins when
    /// both are given, and text is the default.
    pub fn from_flags(json: bool, toon: bool) -> (r: Self)
        ensures
            r == (if toon {
                OutputFormat::Toon
            } else if json {
                OutputFormat::Json
            } else {
                OutputFormat::Text
            }),
    {
        if toon {
            OutputFormat::Toon
        } else if json {
            OutputFormat::Json
        } else {
            OutputFormat::Text
        }
    }

    pub fn is_text(self) -> (b: bool)
        ensures
            b == (self == OutputFormat::Text),
    {
        self == OutputFormat::Text
    }

    pub fn is_json(self) -> (b: bool)
        ensures
            b == (self == OutputFormat::Json),
    {
        self == OutputFormat::Json
    }

    pub fn is_toon(self) -> (b: bool)
        ensures
            b == (self == OutputFormat::Toon),
    {
        self == OutputFormat::Toon
    }
}

} // verus!
