//! The optional name-rewriting rule, backed by the `regex` crate.
//!
//! This is the one place the library calls outside code.  What the calls
//! return is named by the two uninterpreted functions below; everything
//! else the library proves.

use vstd::prelude::*;

verus! {

/// Whether `pattern` compiles as a regular expression: the (named) result
/// of `regex::Regex::new(pattern).is_ok()`, a function of the pattern
/// alone.
pub uninterp spec fn regex_valid(pattern: Seq<char>) -> bool;

/// The text that replacing every match of `pattern` in `text` with
/// `rewrite` (expanding capture-group references) produces: the (named)
/// result of `regex::Regex::replace_all`, a function of the three
/// arguments alone.
pub uninterp spec fn replaced_of(
    pattern: Seq<char>,
    text: Seq<char>,
    rewrite: Seq<char>,
) -> Seq<char>;

/// Relies on `regex::Regex::new`: compilation succeeds or fails depending
/// only on the pattern.
#[verifier::external_body]
pub(crate) fn regex_is_valid(pattern: &str) -> (r: bool)
    ensures
        r == regex_valid(pattern@),
{
    regex::Regex::new(pattern).is_ok()
}

/// Relies on `regex::Regex::new` and `regex::Regex::replace_all`: with a
/// valid pattern, the replacement text is a function of pattern, haystack
/// and rewrite alone; with an invalid one there is no result.
#[verifier::external_body]
pub(crate) fn regex_replace_all(pattern: &str, text: &str, rewrite: &str) -> (r: Option<String>)
    ensures
        r is Some <==> regex_valid(pattern@),
        r matches Some(s) ==> s@ == replaced_of(pattern@, text@, rewrite@),
{
    match regex::Regex::new(pattern) {
        Ok(re) => Some(re.replace_all(text, rewrite).into_owned()),
        Err(_) => None,
    }
}

} // verus!
