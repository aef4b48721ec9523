//! The name-matching predicate: a compiled regular expression, held behind a
//! small trusted boundary around the `regex` crate.
//!
//! Two facts are taken on trust and named rather than restated: whether the
//! `regex` crate accepts a pattern (`regex_ok`), and whether a compiled
//! pattern matches a text (`regex_match`). Both are functions of the pattern
//! and the text alone.

use vstd::prelude::*;

verus! {

#[verifier::external_type_specification]
#[verifier::external_body]
pub struct ExRegex(regex::Regex);

/// Whether the `regex` crate accepts `pattern` as a valid regular
/// expression.
pub uninterp spec fn regex_ok(pattern: Seq<char>) -> bool;

/// Whether the regular expression `pattern` matches somewhere in `text`.
pub uninterp spec fn regex_match(pattern: Seq<char>, text: Seq<char>) -> bool;

/// A compiled name-matching predicate. The compiled expression is kept
/// beside the pattern it was compiled from; the pair leaves this module
/// only through `compile`, so the two always agree.
pub struct Pattern {
    source: String,
    re: regex::Regex,
}

impl View for Pattern {
    type V = Seq<char>;

    closed spec fn view(&self) -> Seq<char> {
        self.source@
    }
}

/// Relies on `regex::Regex::new`: it returns `Ok` exactly on the patterns
/// the crate accepts, and the compiled expression matches as the pattern
/// written in `source` does.
#[verifier::external_body]
pub(crate) fn compile(pattern: &str) -> (r: Option<Pattern>)
    ensures
        r is Some <==> regex_ok(pattern@),
        r matches Some(p) ==> p@ == pattern@,
{
    match regex::Regex::new(pattern) {
        Ok(re) => Some(Pattern { source: pattern.to_string(), re }),
        Err(_) => None,
    }
}

/// Relies on `regex::Regex::is_match`: whether the expression compiled from
/// `p`'s pattern matches `text` depends on the pattern and the text alone.
#[verifier::external_body]
pub(crate) fn pattern_matches(p: &Pattern, text: &str) -> (r: bool)
    ensures
        r == regex_match(p@, text@),
{
    p.re.is_match(text)
}

} // verus!
