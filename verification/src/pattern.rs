//! The pattern of a symbol, and the searches that the `regex` crate runs for it.
//!
//! What the crate finds is taken on trust and only given names here.

use vstd::prelude::*;

verus! {

/// The pattern that a symbol matches: a run of alphabetic characters, decimal
/// digits and underscores between two word boundaries.
pub const SYMBOL_PATTERN: &'static str = r"\b(\p{Alphabetic}|\d|_)+\b";

/// Whether `regex::bytes::Regex::new` accepts `pattern`.
pub uninterp spec fn regex_compiles(pattern: Seq<char>) -> bool;

/// The matches of `pattern` in `haystack`, as the `regex` crate finds them in
/// bytes mode: the byte span of each match, in the order found.
pub uninterp spec fn regex_matches(pattern: Seq<char>, haystack: Seq<u8>) -> Seq<(usize, usize)>;

/// The pattern that a compiled expression was made from: what its `as_str`
/// gives back.
pub uninterp spec fn pattern_of(re: regex::bytes::Regex) -> Seq<char>;

/// What holds of the spans of any search: each lies inside the haystack, each
/// starts after the one before it started, and none reaches into the next.
pub open spec fn spans_in_order(spans: Seq<(usize, usize)>, len: nat) -> bool {
    &&& forall|i: int| 0 <= i < spans.len() ==> (#[trigger] spans[i]).0 <= spans[i].1 <= len
    &&& forall|i: int, j: int|
        0 <= i < j < spans.len() ==> (#[trigger] spans[i]).0 < (#[trigger] spans[j]).0
            && spans[i].1 <= spans[j].0
}

/// A compiled expression of the `regex` crate, in bytes mode. Nothing inside it
/// is looked at.
#[verifier::external_type_specification]
#[verifier::external_body]
pub struct ExRegex(regex::bytes::Regex);

/// Calls `regex::bytes::Regex::new`, which compiles `pattern` or refuses it.
/// Whether it is accepted is only named; an expression that comes back was
/// made from `pattern`.
#[verifier::external_body]
pub(crate) fn compile(pattern: &str) -> (re: Option<regex::bytes::Regex>)
    ensures
        re.is_some() == regex_compiles(pattern@),
        re.is_some() ==> pattern_of(re.unwrap()) == pattern@,
{
    match regex::bytes::Regex::new(pattern) {
        Ok(re) => Some(re),
        Err(_) => None,
    }
}

/// Collects the start and end of every match that `Regex::find_iter` yields on
/// `haystack`. The matches themselves are only named; what is claimed beyond
/// the name is that the iterator's matches are successive and do not overlap.
#[verifier::external_body]
pub(crate) fn find_matches(re: &regex::bytes::Regex, haystack: &[u8]) -> (spans: Vec<(usize, usize)>)
    ensures
        spans@ == regex_matches(pattern_of(*re), haystack@),
        spans_in_order(spans@, haystack@.len()),
{
    re.find_iter(haystack).map(|m| (m.start(), m.end())).collect()
}

} // verus!
