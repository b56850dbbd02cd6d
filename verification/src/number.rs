//! Unsigned decimal numbers as text: reading one from a token, and writing
//! one out.

use vstd::prelude::*;
use vstd::string::StrSliceExecFns;

verus! {

/// Why a token could not be read.
#[derive(Clone, Copy, Debug, PartialEq, Eq, Structural)]
pub enum ParseError {
    /// The text is empty.
    Empty,
    /// The text holds something other than decimal digits behind an optional
    /// leading `+`, or no digit at all.
    InvalidDigit,
    /// The digits stand for a number above `u32::MAX`.
    Overflow,
    /// The range pattern was refused by the matcher, or a match came back
    /// without one of the groups that the pattern captures.
    Pattern,
}

/// Whether `c` is one of `0` to `9`.
pub open spec fn is_digit(c: char) -> bool {
    '0' <= c <= '9'
}

/// The value of the decimal digit `c`.
pub open spec fn digit_value(c: char) -> nat {
    (c as nat - '0' as nat) as nat
}

/// Whether `s` holds decimal digits only.
pub open spec fn all_digits(s: Seq<char>) -> bool {
    forall|i: int| 0 <= i < s.len() ==> is_digit(#[trigger] s[i])
}

/// The number that the decimal digits `s` stand for; leading zeros count for
/// nothing, and the empty text stands for zero.
pub open spec fn digits_value(s: Seq<char>) -> nat
    decreases s.len(),
{
    if s.len() == 0 {
        0
    } else {
        digits_value(s.drop_last()) * 10 + digit_value(s.last())
    }
}

/// The text without its one optional leading `+`.
pub open spec fn unsigned_body(s: Seq<char>) -> Seq<char> {
    if s.len() > 0 && s[0] == '+' {
        s.drop_first()
    } else {
        s
    }
}

/// What reading `s` as an unsigned 32-bit decimal number gives.
pub open spec fn parse_u32_spec(s: Seq<char>) -> Result<u32, ParseError> {
    let body = unsigned_body(s);
    if s.len() == 0 {
        Err(ParseError::Empty)
    } else if body.len() == 0 || !all_digits(body) {
        Err(ParseError::InvalidDigit)
    } else if digits_value(body) > u32::MAX {
        Err(ParseError::Overflow)
    } else {
        Ok(digits_value(body) as u32)
    }
}

/// The decimal digit for `d`, which is below ten.
pub open spec fn digit_char(d: nat) -> char {
    (('0' as u8) + (d as u8)) as char
}

/// `n` written in decimal, without leading zeros.
pub open spec fn decimal_text(n: nat) -> Seq<char>
    decreases n,
{
    if n < 10 {
        seq![digit_char(n)]
    } else {
        decimal_text(n / 10).push(digit_char(n % 10))
    }
}

/// A number's decimal text holds digits only and reads back as the number.
pub proof fn lemma_decimal_text_reads_back(n: nat)
    ensures
        decimal_text(n).len() >= 1,
        all_digits(decimal_text(n)),
        digits_value(decimal_text(n)) == n,
        decimal_text(n)[0] != '+',
    decreases n,
{
    if n < 10 {
        let s = decimal_text(n);
        assert(s.drop_last() =~= Seq::<char>::empty());
        assert(digits_value(s.drop_last()) == 0);
        assert(digit_value(s.last()) == n);
    } else {
        lemma_decimal_text_reads_back(n / 10);
        let s = decimal_text(n);
        assert(s.drop_last() =~= decimal_text(n / 10));
        assert(digit_value(s.last()) == n % 10);
        assert forall|i: int| 0 <= i < s.len() implies is_digit(#[trigger] s[i]) by {
            if i < s.len() - 1 {
                assert(s[i] == decimal_text(n / 10)[i]);
            }
        }
    }
}

/// Reading a number's decimal text gives the number back.
pub proof fn lemma_parse_of_decimal_text(n: u32)
    ensures
        parse_u32_spec(decimal_text(n as nat)) == Ok::<u32, ParseError>(n),
{
    lemma_decimal_text_reads_back(n as nat);
}

/// Reads `text` as an unsigned decimal number: an optional `+`, then one or
/// more digits, for a value that fits in 32 bits.
pub fn parse_u32(text: &str) -> (r: Result<u32, ParseError>)
    ensures
        r == parse_u32_spec(text@),
{
    let n = text.unicode_len();
    if n == 0 {
        return Err(ParseError::Empty);
    }
    let start: usize = if text.get_char(0) == '+' {
        1
    } else {
        0
    };
    let ghost body = unsigned_body(text@);
    assert(body =~= text@.skip(start as int));
    if start == n {
        return Err(ParseError::InvalidDigit);
    }
    let mut value: u32 = 0;
    let mut overflow = false;
    let mut i: usize = start;
    while i < n
        invariant
            start <= i <= n,
            n == text@.len(),
            body == text@.skip(start as int),
            body == unsigned_body(text@),
            all_digits(body.take(i - start)),
            !overflow ==> value == digits_value(body.take(i - start)),
            overflow ==> digits_value(body.take(i - start)) > u32::MAX,
        decreases n - i,
    {
        let c = text.get_char(i);
        assert(body[i - start] == c);
        if !(c >= '0' && c <= '9') {
            assert(!is_digit(body[i - start]));
            assert(!all_digits(body));
            return Err(ParseError::InvalidDigit);
        }
        let d: u32 = (c as u32) - ('0' as u32);
        let ghost longer = body.take(i - start + 1);
        assert(longer.drop_last() =~= body.take(i - start));
        assert(longer.last() == c);
        assert(digits_value(longer) == digits_value(body.take(i - start)) * 10 + d);
        if !overflow {
            if value > (u32::MAX - d) / 10 {
                overflow = true;
            } else {
                value = value * 10 + d;
            }
        }
        i = i + 1;
    }
    assert(body.take(i - start) =~= body);
    if overflow {
        Err(ParseError::Overflow)
    } else {
        Ok(value)
    }
}

/// The character for the decimal digit `d`.
fn digit_to_char(d: u32) -> (c: char)
    requires
        d < 10,
    ensures
        c == digit_char(d as nat),
{
    (('0' as u8) + (d as u8)) as char
}

/// Appends `n`, written in decimal, to `out`.
pub fn push_decimal(out: &mut String, n: u32)
    ensures
        final(out)@ == old(out)@ + decimal_text(n as nat),
    decreases n,
{
    if n >= 10 {
        push_decimal(out, n / 10);
    }
    out.push(digit_to_char(n % 10));
    assert(out@ =~= old(out)@ + decimal_text(n as nat));
}

} // verus!
