//! Trusted declarations for the regular-expression engine behind the
//! router's path patterns. Patterns are compiled and matched by the `regex`
//! crate (on bytes); what a pattern matches is named, not restated: the
//! contracts speak of `spec_captures`, the engine's own capture semantics.

use vstd::prelude::*;

verus! {

#[verifier::external_type_specification]
#[verifier::external_body]
pub struct ExRegex(regex::bytes::Regex);

/// The pattern text a compiled regex was built from. `Regex::as_str`
/// documents that a compiled regex keeps exactly the pattern it was
/// constructed with.
pub uninterp spec fn pattern_of(re: regex::bytes::Regex) -> Seq<char>;

/// Whether `regex::bytes::Regex::new` accepts a pattern. Compilation is a
/// function of the pattern text alone (with the crate's default limits).
pub uninterp spec fn spec_regex_ok(pat: Seq<char>) -> bool;

/// The capture groups that matching `pat` against `text` yields: `None` when
/// the pattern matches nowhere in `text`, otherwise one entry per capture
/// group, where entry 0 is the whole match and an entry is `None` when its
/// group took no part in the match. Matching is a function of the pattern
/// and the haystack alone.
pub uninterp spec fn spec_captures(pat: Seq<char>, text: Seq<u8>) -> Option<Seq<Option<Seq<u8>>>>;

/// Relies on `regex::bytes::Regex::new`: compiles a pattern, failing exactly
/// on the patterns the crate rejects, and the compiled value keeps its
/// pattern text (`Regex::as_str`).
#[verifier::external_body]
pub fn regex_compile(pat: &str) -> (r: Option<regex::bytes::Regex>)
    ensures
        r is Some <==> spec_regex_ok(pat@),
        match r {
            Some(re) => pattern_of(re) == pat@,
            None => true,
        },
{
    regex::bytes::Regex::new(pat).ok()
}

/// Relies on `regex::bytes::Regex::captures`: reports the leftmost match of
/// the compiled pattern in `text` and its capture groups. `Captures` always
/// holds at least the whole match as group 0.
#[verifier::external_body]
pub fn regex_captures(re: &regex::bytes::Regex, text: &[u8]) -> (r: Option<Vec<Option<Vec<u8>>>>)
    ensures
        r.deep_view() == spec_captures(pattern_of(*re), text@),
        match r {
            Some(caps) => caps@.len() >= 1 && caps@[0] is Some,
            None => true,
        },
{
    match re.captures(text) {
        Some(caps) => Some(caps.iter().map(|m| m.map(|mm| mm.as_bytes().to_vec())).collect()),
        None => None,
    }
}

} // verus!
