//! The one outside capability the validators use: regular-expression
//! matching, supplied by the regex crate behind a trusted wrapper.

use vstd::prelude::*;

verus! {

/// Whether the regular expression `pattern` matches `text`. The result is a
/// function of the two strings alone; a pattern that the regex crate refuses
/// to compile accepts no text.
pub uninterp spec fn regex_accepts(pattern: Seq<char>, text: Seq<char>) -> bool;

/// The fixed email form a string validator's email constraint checks.
pub open spec fn email_pattern() -> Seq<char> {
    r"^[a-zA-Z0-9._%+-]+@[a-zA-Z0-9.-]+\.[a-zA-Z]{2,}$"@
}

/// Relies on `regex::Regex::new` and `regex::Regex::is_match`: whether a
/// pattern matches a text depends on the pattern and the text alone, and a
/// pattern that does not compile is treated as matching nothing.
#[verifier::external_body]
pub(crate) fn regex_is_match(pattern: &str, text: &str) -> (r: bool)
    ensures
        r == regex_accepts(pattern@, text@),
{
    match regex::Regex::new(pattern) {
        Ok(re) => re.is_match(text),
        Err(_) => false,
    }
}

/// The email pattern as a string, for the matching call.
pub(crate) fn email_pattern_str() -> (r: &'static str)
    ensures
        r@ == email_pattern(),
{
    r"^[a-zA-Z0-9._%+-]+@[a-zA-Z0-9.-]+\.[a-zA-Z]{2,}$"
}

} // verus!
