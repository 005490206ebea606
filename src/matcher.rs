//! The boundary with the `regex` crate: compiling a pattern and replacing
//! its matches. Everything the rest of the library knows of a regular
//! expression is stated here. Every regular expression of the library is
//! built by `regex::Regex::new` with its default options, so its pattern
//! text decides how it matches: the names below are keyed by that text.

use vstd::prelude::*;

verus! {

#[verifier::external_type_specification]
#[verifier::external_body]
pub struct ExRegex(regex::Regex);

#[verifier::external_type_specification]
#[verifier::external_body]
pub struct ExRegexError(regex::Error);

/// The pattern text a compiled regular expression was built from.
pub uninterp spec fn pattern_of(re: regex::Regex) -> Seq<char>;

/// Whether `regex::Regex::new` accepts the pattern text.
pub uninterp spec fn pattern_compiles(pattern: Seq<char>) -> bool;

/// Whether the pattern matches somewhere in the text (`regex::Regex::is_match`).
pub uninterp spec fn has_match(pattern: Seq<char>, text: Seq<char>) -> bool;

/// The text with every non-overlapping match of the pattern replaced by the
/// template, capture references in the template expanded
/// (`regex::Regex::replace_all`).
pub uninterp spec fn replaced_all(pattern: Seq<char>, text: Seq<char>, template: Seq<char>) -> Seq<char>;

/// One replacement pass: a text in which the pattern does not match comes
/// back unchanged.
pub open spec fn replace_pass(pattern: Seq<char>, text: Seq<char>, template: Seq<char>) -> Seq<char> {
    if has_match(pattern, text) {
        replaced_all(pattern, text, template)
    } else {
        text
    }
}

/// Relies on `regex::Regex::new`: it fails exactly on the patterns it does
/// not accept, and a compiled expression keeps its pattern text.
#[verifier::external_body]
pub(crate) fn compile_pattern(pattern: &str) -> (r: Result<regex::Regex, regex::Error>)
    ensures
        r is Ok <==> pattern_compiles(pattern@),
        r matches Ok(re) ==> pattern_of(re) == pattern@,
{
    regex::Regex::new(pattern)
}

/// Relies on the `Display` of `regex::Error` for a readable cause.
#[verifier::external_body]
pub(crate) fn error_text(e: &regex::Error) -> String {
    e.to_string()
}

/// Relies on `regex::Regex::replace_all` with a `&str` template: every
/// non-overlapping match is replaced, and a text without a match is
/// returned unchanged.
#[verifier::external_body]
pub(crate) fn replace_every(re: &regex::Regex, text: &str, template: &str) -> (r: String)
    ensures
        has_match(pattern_of(*re), text@) ==> r@ == replaced_all(pattern_of(*re), text@, template@),
        !has_match(pattern_of(*re), text@) ==> r@ == text@,
{
    re.replace_all(text, template).into_owned()
}

} // verus!
