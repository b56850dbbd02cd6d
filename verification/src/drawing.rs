//! Reading one token of the drawing kind: a job name, a single drawing, or
//! a range of drawings that share a prefix of letters.

use crate::matcher::{captures, groups_view, pattern_captures, pattern_compiles};
use crate::number::{decimal_text, parse_u32, parse_u32_spec, push_decimal, ParseError};
use crate::text::uppercase_of;
use crate::token::{count_char, count_of, has_groups, resolve_end, resolved_end, same_text};
use vstd::prelude::*;
use vstd::string::StringExecFns;

verus! {

/// The pattern of a range of drawings: optional letters and digits, a dash,
/// optional letters and digits. The letters behind the dash are not kept.
pub open spec fn drawing_pattern() -> Seq<char> {
    "([a-zA-Z]*)([0-9]+)-[a-zA-Z]*([0-9]+)"@
}

/// The texts that a list of strings holds.
pub open spec fn texts(names: Seq<String>) -> Seq<Seq<char>> {
    Seq::new(names.len(), |i: int| names[i]@)
}

/// The name of the drawing `number` under `prefix`: the prefix and the
/// number in decimal, in upper case.
pub open spec fn drawing_name(prefix: Seq<char>, number: nat) -> Seq<char> {
    uppercase_of(prefix + decimal_text(number))
}

/// The names of the drawings `start` to `end`, both included, ascending;
/// none where `end` lies below `start`.
pub open spec fn drawing_names(prefix: Seq<char>, start: u32, end: u32) -> Seq<Seq<char>> {
    if start <= end {
        Seq::new((end - start + 1) as nat, |k: int| drawing_name(prefix, (start + k) as nat))
    } else {
        Seq::empty()
    }
}

/// The drawings that the range `a-b` under `prefix` stands for. The end is
/// resolved as for a numeric range; an unreadable start is reported before
/// an unreadable end.
pub open spec fn drawings_of(prefix: Seq<char>, a: Seq<char>, b: Seq<char>) -> Result<
    Seq<Seq<char>>,
    ParseError,
> {
    match parse_u32_spec(a) {
        Err(e) => Err(e),
        Ok(start) => match resolved_end(a, b) {
            Err(e) => Err(e),
            Ok(end) => Ok(drawing_names(prefix, start, end)),
        },
    }
}

/// What a token stands for, given what the matcher found in it for the
/// drawing pattern. The token is a range only where the match covers all of
/// it: its three groups are then the prefix and the two sides. Without a
/// match, or with one that leaves part of the token out, the token stands
/// for itself, as written.
pub open spec fn drawings_of_match(
    text: Seq<char>,
    found: Option<Seq<Option<Seq<char>>>>,
) -> Result<Seq<Seq<char>>, ParseError> {
    match found {
        None => Ok(seq![text]),
        Some(groups) => if !has_groups(groups, 3) {
            Err(ParseError::Pattern)
        } else if groups[0]->Some_0 == text {
            drawings_of(groups[1]->Some_0, groups[2]->Some_0, groups[3]->Some_0)
        } else {
            Ok(seq![text])
        },
    }
}

/// What a token stands for. Only a token with exactly one dash is tried as
/// a range; any other stands for itself.
pub open spec fn parse_dwg_spec(text: Seq<char>) -> Result<Seq<Seq<char>>, ParseError> {
    if count_of(text, '-') != 1 {
        Ok(seq![text])
    } else if !pattern_compiles(drawing_pattern()) {
        Err(ParseError::Pattern)
    } else {
        drawings_of_match(text, pattern_captures(drawing_pattern(), text))
    }
}

/// What reading a token gives, as texts.
pub open spec fn names_view(r: Result<Vec<String>, ParseError>) -> Result<
    Seq<Seq<char>>,
    ParseError,
> {
    match r {
        Err(e) => Err(e),
        Ok(names) => Ok(texts(names@)),
    }
}

/// The job name in upper case.
pub fn parse_job(job: &str) -> (name: String)
    ensures
        name@ == uppercase_of(job@),
{
    job.to_uppercase()
}

/// The names of the drawings `start` to `end` under `prefix`.
pub fn expand_drawings(prefix: &str, start: u32, end: u32) -> (names: Vec<String>)
    ensures
        texts(names@) == drawing_names(prefix@, start, end),
{
    let mut names: Vec<String> = Vec::new();
    if start <= end {
        let mut i: u32 = start;
        while i < end
            invariant
                start <= i <= end,
                names@.len() == i - start,
                forall|k: int|
                    0 <= k < names@.len() ==> (#[trigger] names@[k])@ == drawing_name(
                        prefix@,
                        (start + k) as nat,
                    ),
            decreases end - i,
        {
            names.push(name_drawing(prefix, i));
            i = i + 1;
        }
        names.push(name_drawing(prefix, end));
    }
    assert(texts(names@) =~= drawing_names(prefix@, start, end));
    names
}

/// The name of one drawing.
pub fn name_drawing(prefix: &str, number: u32) -> (name: String)
    ensures
        name@ == drawing_name(prefix@, number as nat),
{
    let mut plain = String::from_str(prefix);
    push_decimal(&mut plain, number);
    plain.as_str().to_uppercase()
}

/// Reads the parts of a range of drawings and names each drawing in it.
pub fn drawings_from_parts(prefix: &str, a: &str, b: &str) -> (r: Result<
    Vec<String>,
    ParseError,
>)
    ensures
        names_view(r) == drawings_of(prefix@, a@, b@),
{
    match parse_u32(a) {
        Err(e) => Err(e),
        Ok(start) => match resolve_end(a, b) {
            Err(e) => Err(e),
            Ok(end) => Ok(expand_drawings(prefix, start, end)),
        },
    }
}

/// Reads a token, given what the matcher found in it for the drawing
/// pattern.
pub fn drawings_from_match(dwg: &str, found: &Option<Vec<Option<String>>>) -> (r: Result<
    Vec<String>,
    ParseError,
>)
    ensures
        names_view(r) == drawings_of_match(dwg@, groups_view(*found)),
{
    match found {
        None => Ok(itself(dwg)),
        Some(groups) => {
            let ghost shown = groups_view(*found)->Some_0;
            if groups.len() < 4 {
                return Err(ParseError::Pattern);
            }
            match (
                groups[0].as_ref(),
                groups[1].as_ref(),
                groups[2].as_ref(),
                groups[3].as_ref(),
            ) {
                (Some(whole), Some(prefix), Some(a), Some(b)) => {
                    assert(shown[0] == Some(whole@) && shown[1] == Some(prefix@));
                    assert(shown[2] == Some(a@) && shown[3] == Some(b@));
                    assert(has_groups(shown, 3));
                    if same_text(whole.as_str(), dwg) {
                        drawings_from_parts(prefix.as_str(), a.as_str(), b.as_str())
                    } else {
                        Ok(itself(dwg))
                    }
                },
                _ => {
                    assert(shown[0] is None || shown[1] is None || shown[2] is None || shown[3]
                        is None);
                    Err(ParseError::Pattern)
                },
            }
        },
    }
}

/// The one name that a token which is no range stands for: itself.
fn itself(dwg: &str) -> (names: Vec<String>)
    ensures
        texts(names@) == seq![dwg@],
{
    let mut names: Vec<String> = Vec::new();
    names.push(String::from_str(dwg));
    assert(texts(names@) =~= seq![dwg@]);
    names
}

/// Reads one drawing token: `a1-a3` stands for `A1`, `A2` and `A3`, `b8-12`
/// for `B8` to `B12`, and a token that is no range for itself.
pub fn parse_dwg(dwg: &str) -> (r: Result<Vec<String>, ParseError>)
    ensures
        names_view(r) == parse_dwg_spec(dwg@),
{
    if count_char(dwg, '-') != 1 {
        return Ok(itself(dwg));
    }
    match captures("([a-zA-Z]*)([0-9]+)-[a-zA-Z]*([0-9]+)", dwg) {
        Err(_) => Err(ParseError::Pattern),
        Ok(found) => drawings_from_match(dwg, &found),
    }
}

} // verus!
