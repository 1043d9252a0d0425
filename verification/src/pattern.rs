//! Regular expressions and what they match.

use vstd::prelude::*;

verus! {

/// A compiled regular expression.
#[verifier::external_type_specification]
#[verifier::external_body]
pub struct ExRegex(regex::Regex);

/// The compiled form of a pattern, or the description of what is wrong with it.
pub uninterp spec fn compiled(pattern: Seq<char>) -> Result<regex::Regex, Seq<char>>;

/// Whether a compiled pattern matches somewhere in a text.
pub uninterp spec fn matches_in(regex: regex::Regex, text: Seq<char>) -> bool;

/// `Regex::new`, named by [`compiled`]. A failure is handed out by its `Display`
/// text. The limit on the size of a compiled pattern counts memory, so whether one
/// close to it compiles depends on the width of a pointer, as `usize` does.
#[verifier::external_body]
pub(crate) fn compile(pattern: &str) -> (compilation: Result<regex::Regex, String>)
    ensures
        match compilation {
            Ok(regex) => compiled(pattern@) == Ok::<regex::Regex, Seq<char>>(regex),
            Err(failure) => compiled(pattern@) == Err::<regex::Regex, Seq<char>>(failure@),
        },
{
    regex::Regex::new(pattern).map_err(|failure| failure.to_string())
}

/// `Regex::is_match`, named by [`matches_in`].
#[verifier::external_body]
pub(crate) fn is_match(regex: &regex::Regex, text: &str) -> (found: bool)
    ensures
        found == matches_in(*regex, text@),
{
    regex.is_match(text)
}

/// What searching a text for a pattern gives: whether it matches somewhere, or the
/// description of what is wrong with the pattern.
pub open spec fn search_outcome(pattern: Seq<char>, text: Seq<char>) -> Result<bool, Seq<char>> {
    match compiled(pattern) {
        Ok(regex) => Ok(matches_in(regex, text)),
        Err(failure) => Err(failure),
    }
}

/// Searches a text for a pattern.
pub fn search(pattern: &str, text: &str) -> (outcome: Result<bool, String>)
    ensures
        match outcome {
            Ok(found) => search_outcome(pattern@, text@) == Ok::<bool, Seq<char>>(found),
            Err(failure) => search_outcome(pattern@, text@) == Err::<bool, Seq<char>>(failure@),
        },
{
    match compile(pattern) {
        Ok(regex) => Ok(is_match(&regex, text)),
        Err(failure) => Err(failure),
    }
}

} // verus!
