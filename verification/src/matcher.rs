//! The pattern matcher that tells a range apart from a single identifier.
//!
//! Matching is done by the `regex` crate. What it returns is not proved
//! here: the items of this file state it, and the rest of the crate is
//! proved against them.

use vstd::prelude::*;

verus! {

/// The error with which `regex` refuses a pattern.
#[verifier::external_type_specification]
#[verifier::external_body]
pub struct ExPatternError(regex::Error);

/// Whether `regex::Regex::new` accepts `pattern`.
pub uninterp spec fn pattern_compiles(pattern: Seq<char>) -> bool;

/// What `regex::Regex::captures` finds for `pattern` in `text`: `None` where
/// the pattern matches nowhere, else the capture groups of the leftmost
/// match, the whole match first, each group that took part with the text
/// that it matched.
pub uninterp spec fn pattern_captures(pattern: Seq<char>, text: Seq<char>) -> Option<
    Seq<Option<Seq<char>>>,
>;

/// The capture groups as plain text.
pub open spec fn groups_view(groups: Option<Vec<Option<String>>>) -> Option<
    Seq<Option<Seq<char>>>,
> {
    match groups {
        None => None,
        Some(found) => Some(
            Seq::new(
                found@.len(),
                |i: int|
                    match found@[i] {
                        None => None,
                        Some(part) => Some(part@),
                    },
            ),
        ),
    }
}

/// Compiles `pattern` with `regex::Regex::new` and searches `text` with
/// `regex::Regex::captures`, handing out each group of the match as an owned
/// string. Trusted: the call fails exactly where the pattern is refused, and
/// what it finds depends on the pattern and the text alone; nothing is
/// claimed here of what a given pattern matches.
#[verifier::external_body]
pub(crate) fn captures(pattern: &str, text: &str) -> (r: Result<
    Option<Vec<Option<String>>>,
    regex::Error,
>)
    ensures
        r is Ok <==> pattern_compiles(pattern@),
        r is Ok ==> groups_view(r->Ok_0) == pattern_captures(pattern@, text@),
{
    let compiled = regex::Regex::new(pattern)?;
    Ok(
        compiled.captures(text).map(
            |found| found.iter().map(|group| group.map(|m| m.as_str().to_string())).collect(),
        ),
    )
}

} // verus!
