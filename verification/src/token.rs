//! Reading one token of the numeric kind: a single identifier, or a range
//! whose end may be written short.

use crate::matcher::{captures, groups_view, pattern_captures, pattern_compiles};
use crate::number::{is_digit, parse_u32, parse_u32_spec, unsigned_body, ParseError};
use crate::prog::CliProg;
use vstd::prelude::*;
use vstd::string::{StrSliceExecFns, StringExecFns};

verus! {

/// How often `c` occurs in `s`.
pub open spec fn count_of(s: Seq<char>, c: char) -> nat
    decreases s.len(),
{
    if s.len() == 0 {
        0
    } else {
        count_of(s.drop_last(), c) + if s.last() == c {
            1nat
        } else {
            0nat
        }
    }
}

/// The pattern of a numeric range: digits, a dash, digits.
pub open spec fn range_pattern() -> Seq<char> {
    "([0-9]+)-([0-9]+)"@
}

/// The end of a range written as `a-b`. Where `b` is shorter than `a` it is
/// a short form: the characters of `a` that `b` lacks are put before it, and
/// the whole is read as the end. Otherwise `b` is read as it stands.
pub open spec fn resolved_end(a: Seq<char>, b: Seq<char>) -> Result<u32, ParseError> {
    if a.len() > b.len() {
        parse_u32_spec(a.subrange(0, a.len() - b.len()) + b)
    } else {
        parse_u32_spec(b)
    }
}

/// The range written as `a-b`: its start is `a` read as a number, its end
/// the resolved end. An unreadable start is reported before an unreadable
/// end. The bounds are not put in order.
pub open spec fn range_of(a: Seq<char>, b: Seq<char>) -> Result<CliProg, ParseError> {
    match parse_u32_spec(a) {
        Err(e) => Err(e),
        Ok(start) => match resolved_end(a, b) {
            Err(e) => Err(e),
            Ok(end) => Ok(CliProg::Range(start, end)),
        },
    }
}

/// The single identifier that `text` stands for.
pub open spec fn single_of(text: Seq<char>) -> Result<CliProg, ParseError> {
    match parse_u32_spec(text) {
        Err(e) => Err(e),
        Ok(value) => Ok(CliProg::Single(value)),
    }
}

/// Whether a match holds the whole match and the groups `1` to `n`, each
/// with text.
pub open spec fn has_groups(groups: Seq<Option<Seq<char>>>, n: int) -> bool {
    &&& groups.len() > n
    &&& forall|i: int| 0 <= i <= n ==> (#[trigger] groups[i]) is Some
}

/// What a token is read as, given what the matcher found in it for the
/// range pattern. The token is a range only where the match covers all of
/// it: its first two groups are then the two sides. Without a match, or
/// with one that leaves part of the token out, the whole token is a single
/// identifier.
pub open spec fn prog_of_match(text: Seq<char>, found: Option<Seq<Option<Seq<char>>>>) -> Result<
    CliProg,
    ParseError,
> {
    match found {
        None => single_of(text),
        Some(groups) => if !has_groups(groups, 2) {
            Err(ParseError::Pattern)
        } else if groups[0]->Some_0 == text {
            range_of(groups[1]->Some_0, groups[2]->Some_0)
        } else {
            single_of(text)
        },
    }
}

/// What a token is read as. Only a token with exactly one dash is tried as
/// a range; any other is a single identifier.
pub open spec fn parse_prog_spec(text: Seq<char>) -> Result<CliProg, ParseError> {
    if count_of(text, '-') != 1 {
        single_of(text)
    } else if !pattern_compiles(range_pattern()) {
        Err(ParseError::Pattern)
    } else {
        prog_of_match(text, pattern_captures(range_pattern(), text))
    }
}

/// A character that is counted at least once occurs somewhere.
pub proof fn lemma_counted_occurs(s: Seq<char>, c: char)
    requires
        count_of(s, c) >= 1,
    ensures
        exists|i: int| 0 <= i < s.len() && s[i] == c,
    decreases s.len(),
{
    if s.len() > 0 {
        if s.last() == c {
            assert(s[s.len() - 1] == c);
        } else {
            lemma_counted_occurs(s.drop_last(), c);
            let i = choose|i: int| 0 <= i < s.drop_last().len() && s.drop_last()[i] == c;
            assert(s[i] == c);
        }
    }
}

/// A text with a dash in it is no number.
pub proof fn lemma_dash_is_no_number(text: Seq<char>)
    requires
        count_of(text, '-') >= 1,
    ensures
        parse_u32_spec(text) == Err::<u32, ParseError>(ParseError::InvalidDigit),
        single_of(text) == Err::<CliProg, ParseError>(ParseError::InvalidDigit),
{
    lemma_counted_occurs(text, '-');
    let i = choose|i: int| 0 <= i < text.len() && text[i] == '-';
    let body = unsigned_body(text);
    if body.len() > 0 {
        if text[0] == '+' {
            assert(body[i - 1] == '-');
            assert(!is_digit(body[i - 1]));
        } else {
            assert(!is_digit(body[i]));
        }
    }
}

/// A token with two or more dashes is refused, whatever stands about them.
pub proof fn lemma_many_dashes_refused(text: Seq<char>)
    requires
        count_of(text, '-') >= 2,
    ensures
        parse_prog_spec(text) == Err::<CliProg, ParseError>(ParseError::InvalidDigit),
{
    lemma_dash_is_no_number(text);
}

/// A token without a dash is read as the number that it holds, and refused
/// as that number would be.
pub proof fn lemma_no_dash_is_single(text: Seq<char>)
    requires
        count_of(text, '-') == 0,
    ensures
        parse_prog_spec(text) == single_of(text),
        parse_prog_spec(text) is Ok <==> parse_u32_spec(text) is Ok,
{
}

/// A single identifier is never guessed: it only comes from a token that
/// reads as that number from its first character to its last, and a token
/// with a dash in it never gives one.
pub proof fn lemma_single_is_the_whole_token(text: Seq<char>, value: u32)
    requires
        parse_prog_spec(text) == Ok::<CliProg, ParseError>(CliProg::Single(value)),
    ensures
        parse_u32_spec(text) == Ok::<u32, ParseError>(value),
        count_of(text, '-') == 0,
{
    if count_of(text, '-') >= 1 {
        lemma_dash_is_no_number(text);
    }
}

/// Counts the occurrences of `c` in `text`, up to `usize::MAX`.
pub fn count_char(text: &str, c: char) -> (count: usize)
    ensures
        count == count_of(text@, c),
{
    let n = text.unicode_len();
    let mut count: usize = 0;
    let mut i: usize = 0;
    while i < n
        invariant
            i <= n,
            n == text@.len(),
            count == count_of(text@.take(i as int), c),
            count <= i,
        decreases n - i,
    {
        let here = text.get_char(i);
        assert(text@.take(i + 1).drop_last() =~= text@.take(i as int));
        if here == c {
            count = count + 1;
        }
        i = i + 1;
    }
    assert(text@.take(n as int) =~= text@);
    count
}

/// Whether two texts hold the same characters.
pub fn same_text(a: &str, b: &str) -> (same: bool)
    ensures
        same == (a@ == b@),
{
    let n = a.unicode_len();
    if n != b.unicode_len() {
        return false;
    }
    let mut i: usize = 0;
    while i < n
        invariant
            i <= n,
            n == a@.len(),
            n == b@.len(),
            a@.take(i as int) == b@.take(i as int),
        decreases n - i,
    {
        if a.get_char(i) != b.get_char(i) {
            return false;
        }
        assert(a@.take(i + 1) =~= a@.take(i as int).push(a@[i as int]));
        assert(b@.take(i + 1) =~= b@.take(i as int).push(b@[i as int]));
        i = i + 1;
    }
    assert(a@.take(n as int) =~= a@);
    assert(b@.take(n as int) =~= b@);
    true
}

/// Reads the end of the range `a-b`, borrowing from `a` where `b` is short.
pub fn resolve_end(a: &str, b: &str) -> (r: Result<u32, ParseError>)
    ensures
        r == resolved_end(a@, b@),
{
    let a_len = a.unicode_len();
    let b_len = b.unicode_len();
    if a_len > b_len {
        let head = a.substring_char(0, a_len - b_len);
        let mut joined = String::from_str(head);
        joined.append(b);
        parse_u32(joined.as_str())
    } else {
        parse_u32(b)
    }
}

/// Reads the two sides of a range.
pub fn range_from_parts(a: &str, b: &str) -> (r: Result<CliProg, ParseError>)
    ensures
        r == range_of(a@, b@),
{
    match parse_u32(a) {
        Err(e) => Err(e),
        Ok(start) => match resolve_end(a, b) {
            Err(e) => Err(e),
            Ok(end) => Ok(CliProg::Range(start, end)),
        },
    }
}

/// Reads a whole token as a single identifier.
pub fn single_from_text(text: &str) -> (r: Result<CliProg, ParseError>)
    ensures
        r == single_of(text@),
{
    match parse_u32(text) {
        Err(e) => Err(e),
        Ok(value) => Ok(CliProg::Single(value)),
    }
}

/// Reads a token, given what the matcher found in it for the range pattern.
pub fn prog_from_match(prog: &str, found: &Option<Vec<Option<String>>>) -> (r: Result<
    CliProg,
    ParseError,
>)
    ensures
        r == prog_of_match(prog@, groups_view(*found)),
{
    match found {
        None => single_from_text(prog),
        Some(groups) => {
            let ghost shown = groups_view(*found)->Some_0;
            if groups.len() < 3 {
                return Err(ParseError::Pattern);
            }
            match (groups[0].as_ref(), groups[1].as_ref(), groups[2].as_ref()) {
                (Some(whole), Some(a), Some(b)) => {
                    assert(shown[0] == Some(whole@) && shown[1] == Some(a@) && shown[2] == Some(
                        b@,
                    ));
                    assert(has_groups(shown, 2));
                    if same_text(whole.as_str(), prog) {
                        range_from_parts(a.as_str(), b.as_str())
                    } else {
                        single_from_text(prog)
                    }
                },
                _ => {
                    assert(shown[0] is None || shown[1] is None || shown[2] is None);
                    Err(ParseError::Pattern)
                },
            }
        },
    }
}

/// Reads one token: `123` is the single identifier 123, `123-456` the range
/// from 123 to 456, and `120-45` the range from 120 to 145. A token that is
/// neither a number nor two numbers about one dash is refused.
pub fn parse_prog(prog: &str) -> (r: Result<CliProg, ParseError>)
    ensures
        r == parse_prog_spec(prog@),
{
    if count_char(prog, '-') != 1 {
        return single_from_text(prog);
    }
    match captures("([0-9]+)-([0-9]+)", prog) {
        Err(_) => Err(ParseError::Pattern),
        Ok(found) => prog_from_match(prog, &found),
    }
}

} // verus!
