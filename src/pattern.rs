//! Regular-expression patterns, compiled by the `regex` crate.
use vstd::prelude::*;

verus! {

/// `regex::Regex`, a compiled pattern of the `regex` crate, carried opaque.
#[verifier::external_type_specification]
#[verifier::external_body]
pub struct ExRegex(regex::Regex);

/// Whether the pattern `source`, compiled case-insensitively or not, matches
/// somewhere in `text`, as `regex::Regex::is_match` decides it.
pub uninterp spec fn regex_matches(source: Seq<char>, insensitive: bool, text: Seq<char>) -> bool;

/// Relies on `regex::RegexBuilder::build`: compiles `source`, or rejects it
/// (the reason is not kept).
#[verifier::external_body]
fn compile(source: &str, insensitive: bool) -> (r: Option<regex::Regex>) {
    regex::RegexBuilder::new(source).case_insensitive(insensitive).build().ok()
}

/// A compiled pattern, with the text and the option it was compiled from.
pub struct Pattern {
    re: regex::Regex,
    source: String,
    insensitive: bool,
}

impl Pattern {
    pub closed spec fn source(&self) -> Seq<char> {
        self.source@
    }

    pub closed spec fn insensitive(&self) -> bool {
        self.insensitive
    }

    /// Compiles `source`; `None` where the `regex` crate rejects it.
    pub fn new(source: &str, insensitive: bool) -> (r: Option<Pattern>)
        ensures
            r matches Some(p) ==> p.source() == source@ && p.insensitive() == insensitive,
    {
        match compile(source, insensitive) {
            None => None,
            Some(re) => Some(Pattern { re, source: source.to_owned(), insensitive }),
        }
    }

    /// Whether the pattern matches somewhere in `text`.
    pub fn is_match(&self, text: &str) -> (r: bool)
        ensures
            r == regex_matches(self.source(), self.insensitive(), text@),
    {
        regex_is_match(self, text)
    }
}

/// Relies on `regex::Regex::is_match`; the regex in `p` was compiled from its
/// source and option, which only `Pattern::new` sets.
#[verifier::external_body]
fn regex_is_match(p: &Pattern, text: &str) -> (r: bool)
    ensures
        r == regex_matches(p.source@, p.insensitive, text@),
{
    p.re.is_match(text)
}

} // verus!
