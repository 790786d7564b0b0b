//! Regular-expression matching through the `regex` crate. What a pattern matches is the
//! `regex` crate's own business: it stands here under two names, whether a pattern compiles
//! and whether a compiled pattern matches a text, both functions of their arguments alone.
use vstd::prelude::*;

verus! {

#[verifier::external_type_specification]
#[verifier::external_body]
pub struct ExRegex(regex::Regex);

/// Whether `regex::Regex::new` accepts the pattern (its syntax is valid and it stays within
/// the default size limits).
pub uninterp spec fn spec_regex_compiles(pattern: Seq<char>) -> bool;

/// Whether the compiled pattern matches somewhere in the text (`regex::Regex::is_match`).
pub uninterp spec fn spec_regex_is_match(pattern: Seq<char>, haystack: Seq<char>) -> bool;

/// A compiled regular expression, together with the pattern it was compiled from.
pub struct CompiledPattern {
    re: regex::Regex,
    pattern: Ghost<Seq<char>>,
}

impl CompiledPattern {
    pub closed spec fn pattern(&self) -> Seq<char> {
        self.pattern@
    }
}

/// Compiles a pattern with `regex::Regex::new`. The result is present exactly when the
/// pattern compiles, and it remembers the pattern.
#[verifier::external_body]
pub(crate) fn compile_pattern(pattern: &str) -> (r: Option<CompiledPattern>)
    ensures
        r is Some <==> spec_regex_compiles(pattern@),
        r matches Some(c) ==> c.pattern() == pattern@,
{
    match regex::Regex::new(pattern) {
        Ok(re) => Some(CompiledPattern { re, pattern: Ghost(pattern@) }),
        Err(_) => None,
    }
}

/// `regex::Regex::is_match`: whether the pattern matches somewhere in the text.
#[verifier::external_body]
pub(crate) fn pattern_is_match(p: &CompiledPattern, haystack: &str) -> (r: bool)
    ensures
        r == spec_regex_is_match(p.pattern(), haystack@),
{
    p.re.is_match(haystack)
}

} // verus!
