//! Compiled patterns. The regular-expression engine is the `regex` crate; this
//! module is the only place that calls it, and states what the rest of the
//! library relies on.
//!
//! To the contracts a compiled pattern is the set of texts in which it finds
//! a match. Nothing here says which texts those are: that is the engine's
//! business. What is stated is that the set depends on the pattern alone.

use regex::Regex;
use vstd::prelude::*;

verus! {

/// `regex::Regex`, a compiled pattern. Nothing of its inside is visible here.
#[verifier::external_type_specification]
#[verifier::external_body]
pub struct ExRegex(regex::Regex);

/// `regex::Error`, the reason why a pattern did not compile.
#[verifier::external_type_specification]
#[verifier::external_body]
pub struct ExRegexError(regex::Error);

/// The texts in which a compiled pattern finds a match: those for which
/// `Regex::is_match` answers `true`.
pub uninterp spec fn regex_language(re: Regex) -> Set<Seq<char>>;

/// What `Regex::new` makes of a pattern: `None` where it reports an error (the
/// pattern is malformed, or its program would exceed the engine's size
/// limit), else the texts in which the compiled pattern finds a match.
pub uninterp spec fn compiled_language(pattern: Seq<char>) -> Option<Set<Seq<char>>>;

/// Calls `Regex::new`. The contract claims that the outcome depends on the
/// pattern alone: an error exactly where `compiled_language` is `None`, and
/// else a regex that matches just the texts that `compiled_language` names.
#[verifier::external_body]
pub(crate) fn compile(pattern: &str) -> (r: Result<Regex, regex::Error>)
    ensures
        match r {
            Ok(re) => compiled_language(pattern@) == Some(regex_language(re)),
            Err(_) => compiled_language(pattern@) is None,
        },
{
    Regex::new(pattern)
}

/// Calls `Regex::is_match`, which says whether the regex finds a match
/// anywhere in `text`. The contract claims that the answer depends on the
/// regex and the text alone.
#[verifier::external_body]
pub(crate) fn is_match(re: &Regex, text: &str) -> (m: bool)
    ensures
        m == regex_language(*re).contains(text@),
{
    re.is_match(text)
}

/// Calls `Regex::clone`. The contract claims that the copy matches the same
/// texts as the regex it was made from.
#[verifier::external_body]
pub(crate) fn duplicate(re: &Regex) -> (r: Regex)
    ensures
        regex_language(r) == regex_language(*re),
{
    re.clone()
}

} // verus!
