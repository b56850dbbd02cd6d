//! What this crate relies on of the standard library's strings beyond what
//! `vstd` states of them. Nothing here is proved.

use vstd::prelude::*;

verus! {

/// The upper-case form that `str::to_uppercase` gives for `s`, by the
/// Unicode tables that the standard library was built with.
pub uninterp spec fn uppercase_of(s: Seq<char>) -> Seq<char>;

/// `str::to_uppercase` returns a new string that depends on the characters
/// of `s` alone. Trusted; nothing is claimed of single characters.
pub assume_specification[ str::to_uppercase ](s: &str) -> (upper: String)
    ensures
        upper@ == uppercase_of(s@),
;

/// `String::push` appends the one character `c` and changes nothing else.
/// Trusted.
pub assume_specification[ String::push ](s: &mut String, c: char)
    ensures
        final(s)@ == old(s)@.push(c),
;

} // verus!
