//! The two lexical patterns of the language, matched with the `regex` crate.

use vstd::prelude::*;

verus! {

/// An identifier: a letter or underscore, then word characters and hyphens,
/// not ending in a separator.
pub const VARIABLE_PATTERN: &'static str = r"^[_a-zA-Z](?:[\w\-]*[a-zA-Z0-9])?$";

/// A literal: an integer, a decimal, or a double-quoted string.
pub const VALUE_PATTERN: &'static str = r#"^(?:\d+(?:\.\d+)?|".*")$"#;

/// Whether the regular expression `pattern` matches somewhere in `text`, as
/// `regex::Regex::is_match` decides it.
pub uninterp spec fn regex_match(pattern: Seq<char>, text: Seq<char>) -> bool;

/// Relies on `regex::Regex::new`, which compiles both patterns of this module,
/// and on `regex::Regex::is_match`, which reports whether the compiled pattern
/// matches `text`.
#[verifier::external_body]
fn pattern_matches(pattern: &str, text: &str) -> (r: bool)
    requires
        pattern@ == VARIABLE_PATTERN@ || pattern@ == VALUE_PATTERN@,
    ensures
        r == regex_match(pattern@, text@),
{
    regex::Regex::new(pattern).unwrap().is_match(text)
}

/// Whether `text` is shaped like a variable name.
pub open spec fn is_variable_text(text: Seq<char>) -> bool {
    regex_match(VARIABLE_PATTERN@, text)
}

/// Whether `text` is shaped like a literal value.
pub open spec fn is_value_text(text: Seq<char>) -> bool {
    regex_match(VALUE_PATTERN@, text)
}

pub fn matches_variable(text: &str) -> (r: bool)
    ensures
        r == is_variable_text(text@),
{
    pattern_matches(VARIABLE_PATTERN, text)
}

pub fn matches_value(text: &str) -> (r: bool)
    ensures
        r == is_value_text(text@),
{
    pattern_matches(VALUE_PATTERN, text)
}

} // verus!
