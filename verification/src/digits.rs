//! Decimal widths of numbers, and the carry of leading digits from one
//! identifier to the next.

use vstd::prelude::*;

verus! {

/// Ten to the power `e`.
pub open spec fn pow10(e: nat) -> nat
    decreases e,
{
    if e == 0 {
        1
    } else {
        10 * pow10((e - 1) as nat)
    }
}

/// The number of decimal digits of `n`; zero has one digit.
pub open spec fn digit_len(n: nat) -> nat
    decreases n,
{
    if n < 10 {
        1
    } else {
        1 + digit_len(n / 10)
    }
}

/// `n` widened to the width of `prev`: the leading digits of `prev` that `n`
/// lacks, followed by the digits of `n`. A value at least as wide as `prev`
/// stays as it is.
pub open spec fn fix_len_spec(n: nat, prev: nat) -> nat {
    if digit_len(n) < digit_len(prev) {
        (prev / pow10(digit_len(n))) * pow10(digit_len(n)) + n
    } else {
        n
    }
}

/// Every number has at least one digit.
pub proof fn lemma_digit_len_positive(n: nat)
    ensures
        digit_len(n) >= 1,
    decreases n,
{
    if n >= 10 {
        lemma_digit_len_positive(n / 10);
    }
}

/// A number of `k` digits lies below `10^k`, and, unless it is zero, at or
/// above `10^(k-1)`: the width is `floor(log10(n)) + 1`.
pub proof fn lemma_digit_len_bounds(n: nat)
    ensures
        n < pow10(digit_len(n)),
        n > 0 ==> pow10((digit_len(n) - 1) as nat) <= n,
        n == 0 ==> digit_len(n) == 1,
    decreases n,
{
    reveal_with_fuel(pow10, 2);
    if n >= 10 {
        lemma_digit_len_bounds(n / 10);
        lemma_digit_len_positive(n / 10);
        let k = digit_len(n / 10);
        assert(pow10(digit_len(n)) == 10 * pow10(k));
        assert(pow10((digit_len(n) - 1) as nat) == 10 * pow10((k - 1) as nat));
    }
}

/// A larger number is never narrower.
pub proof fn lemma_digit_len_monotonic(a: nat, b: nat)
    requires
        a <= b,
    ensures
        digit_len(a) <= digit_len(b),
    decreases a,
{
    if a >= 10 {
        lemma_digit_len_monotonic(a / 10, b / 10);
    }
}

/// Writing `k` further digits behind a positive number adds `k` to its width.
pub proof fn lemma_digit_len_shift(q: nat, k: nat, r: nat)
    requires
        q >= 1,
        r < pow10(k),
    ensures
        digit_len(q * pow10(k) + r) == digit_len(q) + k,
    decreases k,
{
    if k == 0 {
        assert(q * pow10(0) + r == q) by (nonlinear_arith)
            requires
                pow10(0) == 1,
                r == 0,
        ;
    } else {
        let p = pow10((k - 1) as nat);
        let x = q * pow10(k) + r;
        assert(pow10(k) == 10 * p);
        lemma_pow10_positive((k - 1) as nat);
        assert(x == 10 * (q * p) + r) by (nonlinear_arith)
            requires
                x == q * (10 * p) + r,
        ;
        assert(q * p >= 1) by (nonlinear_arith)
            requires
                q >= 1,
                p >= 1,
        ;
        assert(x / 10 == q * p + r / 10);
        assert(r / 10 < p);
        lemma_digit_len_shift(q, (k - 1) as nat, r / 10);
    }
}

/// Powers of ten are positive.
pub proof fn lemma_pow10_positive(e: nat)
    ensures
        pow10(e) >= 1,
    decreases e,
{
    if e > 0 {
        lemma_pow10_positive((e - 1) as nat);
    }
}

/// Powers of ten grow with the exponent.
pub proof fn lemma_pow10_monotonic(a: nat, b: nat)
    requires
        a <= b,
    ensures
        pow10(a) <= pow10(b),
    decreases b,
{
    if a < b {
        lemma_pow10_monotonic(a, (b - 1) as nat);
    }
}

/// Where `n` is narrower than `prev`, the fixed value is `prev` with its
/// last digits replaced by `n`: above the width of `n` it has the digits of
/// `prev`, of which there is at least one, and below it those of `n`.
pub proof fn lemma_fix_len_parts(n: nat, prev: nat)
    requires
        digit_len(n) < digit_len(prev),
    ensures
        n < pow10(digit_len(n)),
        prev / pow10(digit_len(n)) >= 1,
        (prev / pow10(digit_len(n))) * pow10(digit_len(n)) <= prev,
        fix_len_spec(n, prev) == prev - prev % pow10(digit_len(n)) + n,
        fix_len_spec(n, prev) / pow10(digit_len(n)) == prev / pow10(digit_len(n)),
        fix_len_spec(n, prev) % pow10(digit_len(n)) == n,
{
    let m = pow10(digit_len(n));
    let q = prev / m;
    lemma_digit_len_bounds(n);
    lemma_digit_len_bounds(prev);
    lemma_pow10_positive(digit_len(n));
    lemma_pow10_monotonic(digit_len(n), (digit_len(prev) - 1) as nat);
    assert(prev >= m);
    assert(q >= 1 && q * m <= prev && q * m == prev - prev % m) by (nonlinear_arith)
        requires
            q == prev / m,
            prev >= m,
            m >= 1,
    ;
    assert((q * m + n) / m == q && (q * m + n) % m == n) by (nonlinear_arith)
        requires
            n < m,
            m >= 1,
    ;
}

/// The carry never shortens a value, never lowers it, and leaves it exactly
/// as wide as the wider of the value and the carry.
pub proof fn lemma_fix_len_width(n: nat, prev: nat)
    ensures
        fix_len_spec(n, prev) >= n,
        digit_len(n) >= digit_len(prev) ==> fix_len_spec(n, prev) == n,
        digit_len(n) < digit_len(prev) ==> digit_len(fix_len_spec(n, prev)) == digit_len(prev),
        digit_len(fix_len_spec(n, prev)) >= digit_len(n),
{
    if digit_len(n) < digit_len(prev) {
        let k = digit_len(n);
        let m = pow10(k);
        let q = prev / m;
        lemma_fix_len_parts(n, prev);
        lemma_digit_len_shift(q, k, n);
        assert(prev % m < m && prev == q * m + prev % m) by (nonlinear_arith)
            requires
                q == prev / m,
                m >= 1,
        ;
        lemma_digit_len_shift(q, k, prev % m);
    }
}

/// A value that was fixed against a carry is stable: fixing the result
/// against the same carry again changes nothing.
pub proof fn lemma_fix_len_idempotent(n: nat, prev: nat)
    ensures
        fix_len_spec(fix_len_spec(n, prev), prev) == fix_len_spec(n, prev),
{
    lemma_fix_len_width(n, prev);
}

/// Fixing a value against its own fixed form gives that fixed form again.
pub proof fn lemma_fix_len_against_result(n: nat, prev: nat)
    ensures
        fix_len_spec(n, fix_len_spec(n, prev)) == fix_len_spec(n, prev),
{
    lemma_fix_len_width(n, prev);
    if digit_len(n) < digit_len(prev) {
        lemma_fix_len_parts(n, prev);
    }
}

/// For a value at least as wide as the carry, fixing is a no-op, and so is
/// fixing it once more against the value that came out.
pub proof fn lemma_fix_len_noop_when_wide(n: nat, prev: nat)
    requires
        digit_len(n) >= digit_len(prev),
    ensures
        fix_len_spec(n, prev) == n,
        fix_len_spec(n, fix_len_spec(n, prev)) == n,
{
}

/// Any value at least as wide as a fixed value passes it unchanged.
pub proof fn lemma_fix_len_same_or_longer(m: nat, n: nat, prev: nat)
    requires
        digit_len(m) >= digit_len(n),
        digit_len(m) >= digit_len(prev),
    ensures
        fix_len_spec(m, fix_len_spec(n, prev)) == m,
{
    lemma_fix_len_width(n, prev);
}

/// The number of decimal digits of `n`.
pub fn u32_len(n: u32) -> (len: u32)
    ensures
        len == digit_len(n as nat),
        1 <= len <= 10,
{
    let mut rest: u32 = n;
    let mut len: u32 = 1;
    proof {
        lemma_digit_len_monotonic(n as nat, 4294967295);
        assert(digit_len(4294967295) == 10) by {
            reveal_with_fuel(digit_len, 11);
        }
        lemma_digit_len_positive(n as nat);
    }
    while rest >= 10
        invariant
            len + digit_len(rest as nat) == digit_len(n as nat) + 1,
            1 <= len,
            digit_len(n as nat) <= 10,
        decreases rest,
    {
        proof {
            lemma_digit_len_positive((rest / 10) as nat);
        }
        rest = rest / 10;
        len = len + 1;
    }
    len
}

/// Ten to the power `e`, for the exponents whose power fits in 32 bits.
pub fn pow10_u32(e: u32) -> (p: u32)
    requires
        e <= 9,
    ensures
        p == pow10(e as nat),
        1 <= p <= 1_000_000_000,
{
    let mut p: u32 = 1;
    let mut i: u32 = 0;
    proof {
        assert(pow10(9) == 1_000_000_000) by {
            reveal_with_fuel(pow10, 11);
        }
    }
    while i < e
        invariant
            i <= e <= 9,
            p == pow10(i as nat),
            p >= 1,
            pow10(9) == 1_000_000_000,
        decreases e - i,
    {
        proof {
            lemma_pow10_monotonic((i + 1) as nat, 9);
        }
        p = p * 10;
        i = i + 1;
    }
    proof {
        lemma_pow10_monotonic(e as nat, 9);
    }
    p
}

/// `n` fixed against the carry `prev`, or `None` where the fixed value does
/// not fit in 32 bits.
pub fn checked_fix_len(n: u32, prev: u32) -> (fixed: Option<u32>)
    ensures
        fix_len_spec(n as nat, prev as nat) <= u32::MAX ==> fixed == Some(
            fix_len_spec(n as nat, prev as nat) as u32,
        ),
        fix_len_spec(n as nat, prev as nat) > u32::MAX ==> fixed.is_none(),
{
    let n_len = u32_len(n);
    let prev_len = u32_len(prev);
    if n_len < prev_len {
        let unit = pow10_u32(n_len);
        let leading_part = prev / unit;
        proof {
            lemma_fix_len_parts(n as nat, prev as nat);
        }
        let kept = leading_part * unit;
        if n <= u32::MAX - kept {
            Some(kept + n)
        } else {
            None
        }
    } else {
        Some(n)
    }
}

/// `n` fixed against the carry `prev`: where `n` has fewer digits than
/// `prev`, the leading digits of `prev` that it lacks are put before it.
pub fn fix_len(n: u32, prev: u32) -> (fixed: u32)
    requires
        fix_len_spec(n as nat, prev as nat) <= u32::MAX,
    ensures
        fixed == fix_len_spec(n as nat, prev as nat),
        fixed >= n,
        digit_len(n as nat) >= digit_len(prev as nat) ==> fixed == n,
        digit_len(n as nat) < digit_len(prev as nat) ==> digit_len(fixed as nat) == digit_len(
            prev as nat,
        ),
{
    proof {
        lemma_fix_len_width(n as nat, prev as nat);
    }
    match checked_fix_len(n, prev) {
        Some(fixed) => fixed,
        // Not reached: the fixed value fits.
        None => n,
    }
}

} // verus!
