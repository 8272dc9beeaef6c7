//! Regular-expression patterns of rules, matched by the `regex` crate.

use vstd::prelude::*;
pub use crate::compiled::CompiledPattern;
use crate::compiled::regex_new;
use crate::text::occurs_in;

verus! {

/// `regex::Regex`, a compiled regular expression, carried opaquely.
#[verifier::external_type_specification]
#[verifier::external_body]
pub struct ExRegex(regex::Regex);

/// `regex::Error`, why a pattern did not compile, carried opaquely.
#[verifier::external_type_specification]
#[verifier::external_body]
pub struct ExRegexError(regex::Error);

/// Whether `regex::Regex::new` accepts a pattern (it is valid syntax and
/// within the default size limit).
pub uninterp spec fn regex_compiles(pattern: Seq<char>) -> bool;

/// Whether the regex compiled from `pattern` finds a match anywhere in
/// `haystack` (`regex::Regex::is_match`).
pub uninterp spec fn regex_finds(pattern: Seq<char>, haystack: Seq<char>) -> bool;

/// A pattern made only of ASCII letters and digits: the `regex` syntax
/// reads each such character as itself, so the pattern matches exactly
/// where its text occurs.
pub open spec fn is_plain_literal(pattern: Seq<char>) -> bool {
    forall|i: int|
        0 <= i < pattern.len() ==> {
            let c = #[trigger] pattern[i] as int;
            (48 <= c <= 57) || (65 <= c <= 90) || (97 <= c <= 122)
        }
}

/// Compiles a pattern; `None` when the `regex` crate refuses it.
pub fn compile_pattern(pattern: &str) -> (res: Option<CompiledPattern>)
    ensures
        res is Some <==> regex_compiles(pattern@),
        res matches Some(p) ==> p.source() == pattern@,
        is_plain_literal(pattern@) && pattern@.len() <= 100 ==> res is Some,
{
    match regex_new(pattern) {
        Ok(p) => Some(p),
        Err(_) => None,
    }
}

/// Calls `regex::Regex::is_match` on the regex that `regex_new` compiled
/// from `p.source()`: the answer is `regex_finds` of that pattern and the
/// haystack. The `regex` documentation says `is_match` looks for a match
/// anywhere in the haystack, and its syntax reads a letter or digit as
/// itself, so a pattern of letters and digits is found exactly where its
/// text occurs.
#[verifier::external_body]
fn regex_is_match(p: &CompiledPattern, haystack: &str) -> (res: bool)
    ensures
        res == regex_finds(p.source(), haystack@),
        is_plain_literal(p.source()) ==> res == occurs_in(p.source(), haystack@),
{
    p.regex().is_match(haystack)
}

/// Whether `pattern` compiles and finds a match in `haystack`; a pattern
/// that does not compile matches nothing. A short pattern of letters and
/// digits is found exactly where it occurs, anywhere in the haystack.
pub fn pattern_finds(pattern: &str, haystack: &str) -> (res: bool)
    ensures
        res == (regex_compiles(pattern@) && regex_finds(pattern@, haystack@)),
        is_plain_literal(pattern@) && pattern@.len() <= 100 ==> res == occurs_in(pattern@, haystack@),
{
    match compile_pattern(pattern) {
        Some(p) => regex_is_match(&p, haystack),
        None => false,
    }
}

} // verus!
