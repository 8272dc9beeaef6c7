//! A compiled regular expression that cannot be separated from the pattern
//! it was compiled from: only `regex_new` builds one.

use vstd::prelude::*;
use crate::pattern::{is_plain_literal, regex_compiles};

verus! {

/// A compiled regular expression together with the pattern it came from.
pub struct CompiledPattern {
    regex: regex::Regex,
    source: Ghost<Seq<char>>,
}

impl CompiledPattern {
    /// The pattern text this regex was compiled from.
    pub closed spec fn source(&self) -> Seq<char> {
        self.source@
    }

    /// The compiled regex.
    pub fn regex(&self) -> &regex::Regex {
        &self.regex
    }
}

/// Calls `regex::Regex::new` and keeps the pattern beside the regex: it
/// succeeds exactly on the patterns that `regex_compiles` names, and the
/// result holds the regex compiled from `pattern`. A short pattern of
/// letters and digits is valid syntax and far below the default size
/// limit, so it compiles.
#[verifier::external_body]
pub(crate) fn regex_new(pattern: &str) -> (res: Result<CompiledPattern, regex::Error>)
    ensures
        res is Ok <==> regex_compiles(pattern@),
        res matches Ok(p) ==> p.source() == pattern@,
        is_plain_literal(pattern@) && pattern@.len() <= 100 ==> res is Ok,
{
    match regex::Regex::new(pattern) {
        Ok(regex) => Ok(CompiledPattern { regex, source: Ghost(pattern@) }),
        Err(e) => Err(e),
    }
}

} // verus!
