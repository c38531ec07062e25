//! What a command hands back: its output and what happened along the way.
use crate::text::owned;
use vstd::prelude::*;

verus! {

/// The result of one command: the text to show, and the page it navigated
/// to, the page it ran against and a non-fatal error code, where any.
pub struct CommandResult {
    pub output: String,
    pub navigated_to: Option<String>,
    pub target_id: Option<String>,
    pub error_code: Option<u32>,
}

/// The view of an optional string.
pub open spec fn opt_view(o: Option<String>) -> Option<Seq<char>> {
    match o {
        Some(s) => Some(s@),
        None => None,
    }
}

impl Default for CommandResult {
    fn default() -> (r: Self)
        ensures
            r.output@ == Seq::<char>::empty(),
            r.navigated_to is None,
            r.target_id is None,
            r.error_code is None,
    {
        CommandResult { output: String::new(), navigated_to: None, target_id: None, error_code: None }
    }
}

impl CommandResult {
    /// A result with just an output text.
    pub fn output(output: &str) -> (r: Self)
        ensures
            r.output@ == output@,
            r.navigated_to is None,
            r.target_id is None,
            r.error_code is None,
    {
        CommandResult { output: owned(output), navigated_to: None, target_id: None, error_code: None }
    }

    /// The same result, navigated to `url`.
    pub fn with_navigated_to(self, url: &str) -> (r: Self)
        ensures
            r.output@ == self.output@,
            opt_view(r.navigated_to) == Some(url@),
            opt_view(r.target_id) == opt_view(self.target_id),
            r.error_code == self.error_code,
    {
        let mut s = self;
        s.navigated_to = Some(owned(url));
        s
    }

    /// The same result, run against page `target_id`.
    pub fn with_target_id(self, target_id: &str) -> (r: Self)
        ensures
            r.output@ == self.output@,
            opt_view(r.navigated_to) == opt_view(self.navigated_to),
            opt_view(r.target_id) == Some(target_id@),
            r.error_code == self.error_code,
    {
        let mut s = self;
        s.target_id = Some(owned(target_id));
        s
    }

    /// The same result, navigated to `after` when it differs from `before`.
    pub fn with_navigated_to_if_changed(self, after: String, before: String) -> (r: Self)
        ensures
            r.output@ == self.output@,
            opt_view(r.navigated_to) == (if after@ != before@ {
                Some(after@)
            } else {
                opt_view(self.navigated_to)
            }),
            opt_view(r.target_id) == opt_view(self.target_id),
            r.error_code == self.error_code,
    {
        let mut s = self;
        if !crate::text::str_eq(after.as_str(), before.as_str()) {
            s.navigated_to = Some(after);
        }
        s
    }

    /// The same result, with non-fatal error code `code`.
    pub fn with_error_code(self, code: u32) -> (r: Self)
        ensures
            r.output@ == self.output@,
            opt_view(r.navigated_to) == opt_view(self.navigated_to),
            opt_view(r.target_id) == opt_view(self.target_id),
            r.error_code == Some(code),
    {
        let mut s = self;
        s.error_code = Some(code);
        s
    }
}

} // verus!
