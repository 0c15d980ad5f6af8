//! Decimal text for unsigned integers: the parse that header fields go through and
//! the encoding that reply lengths are written with.

use vstd::prelude::*;

verus! {

/// Why a run of bytes is not an unsigned decimal number.
#[derive(Clone, Copy, Debug, PartialEq, Eq)]
pub enum IntErrorKind {
    /// There were no bytes at all.
    Empty,
    /// A byte that is not a decimal digit (or a lone sign).
    InvalidDigit,
    /// The number is larger than the largest value accepted.
    PosOverflow,
}

pub open spec fn is_digit(b: u8) -> bool {
    48 <= b <= 57
}

pub open spec fn digit_value(b: u8) -> nat {
    (b - 48) as nat
}

/// Reads `s` left to right as decimal digits: the first byte that is not a digit, or
/// the first prefix whose value exceeds `max`, decides the error.
pub open spec fn digits_result(s: Seq<u8>, max: nat) -> Result<nat, IntErrorKind>
    decreases s.len(),
{
    if s.len() == 0 {
        Ok(0)
    } else {
        match digits_result(s.drop_last(), max) {
            Err(e) => Err(e),
            Ok(v) => if !is_digit(s.last()) {
                Err(IntErrorKind::InvalidDigit)
            } else if v * 10 + digit_value(s.last()) > max {
                Err(IntErrorKind::PosOverflow)
            } else {
                Ok(v * 10 + digit_value(s.last()))
            },
        }
    }
}

/// An unsigned decimal number no larger than `max`, with an optional leading `+`.
pub open spec fn parse_unsigned(s: Seq<u8>, max: nat) -> Result<nat, IntErrorKind> {
    if s.len() == 0 {
        Err(IntErrorKind::Empty)
    } else if (s[0] == 43u8 || s[0] == 45u8) && s.len() == 1 {
        Err(IntErrorKind::InvalidDigit)
    } else if s[0] == 43u8 {
        digits_result(s.drop_first(), max)
    } else {
        digits_result(s, max)
    }
}

/// The shortest decimal text of `n`, most significant digit first.
pub open spec fn decimal_encoding(n: nat) -> Seq<u8>
    decreases n,
{
    if n < 10 {
        seq![(48 + n) as u8]
    } else {
        decimal_encoding(n / 10).push((48 + n % 10) as u8)
    }
}

pub open spec fn lift_u64(r: Result<u64, IntErrorKind>) -> Result<nat, IntErrorKind> {
    match r {
        Ok(v) => Ok(v as nat),
        Err(e) => Err(e),
    }
}

proof fn lemma_digits_step(acc: nat, d: nat, max: nat)
    by (nonlinear_arith)
    requires
        acc <= max / 10,
        d <= 9,
    ensures
        acc * 10 <= max,
{
}

proof fn lemma_digits_overflow(acc: nat, max: nat)
    by (nonlinear_arith)
    requires
        acc > max / 10,
    ensures
        acc * 10 > max,
{
}

/// Parses `s` as an unsigned decimal number of at most `max`.
pub fn parse_decimal(s: &[u8], max: u64) -> (r: Result<u64, IntErrorKind>)
    ensures
        lift_u64(r) == parse_unsigned(s@, max as nat),
{
    if s.len() == 0 {
        return Err(IntErrorKind::Empty);
    }
    if (s[0] == 43u8 || s[0] == 45u8) && s.len() == 1 {
        return Err(IntErrorKind::InvalidDigit);
    }
    let start: usize = if s[0] == 43u8 { 1 } else { 0 };
    let ghost digits = if s[0] == 43u8 { s@.drop_first() } else { s@ };
    assert(digits == s@.subrange(start as int, s@.len() as int));
    let mut acc: u64 = 0;
    let mut i: usize = start;
    assert(s@.subrange(start as int, start as int) =~= Seq::<u8>::empty());
    assert(parse_unsigned(s@, max as nat) == digits_result(digits, max as nat));
    while i < s.len()
        invariant
            start <= i <= s.len(),
            acc <= max,
            digits == s@.subrange(start as int, s@.len() as int),
            parse_unsigned(s@, max as nat) == digits_result(digits, max as nat),
            digits_result(s@.subrange(start as int, i as int), max as nat) == Ok::<nat, IntErrorKind>(acc as nat),
        decreases s.len() - i,
    {
        let b = s[i];
        let ghost pre = s@.subrange(start as int, i as int);
        let ghost next = s@.subrange(start as int, i + 1);
        assert(next.drop_last() =~= pre);
        assert(next.last() == b);
        assert(next =~= digits.subrange(0, next.len() as int));
        if b < 48u8 || b > 57u8 {
            proof {
                lemma_digits_prefix_error(digits, next, max as nat);
            }
            return Err(IntErrorKind::InvalidDigit);
        }
        let d: u64 = (b - 48u8) as u64;
        if acc > max / 10 {
            proof {
                lemma_digits_overflow(acc as nat, max as nat);
                lemma_digits_prefix_error(digits, next, max as nat);
            }
            return Err(IntErrorKind::PosOverflow);
        }
        proof {
            lemma_digits_step(acc as nat, d as nat, max as nat);
        }
        let tens: u64 = acc * 10;
        if d > max || tens > max - d {
            proof {
                lemma_digits_prefix_error(digits, next, max as nat);
            }
            return Err(IntErrorKind::PosOverflow);
        }
        acc = tens + d;
        i = i + 1;
    }
    assert(s@.subrange(start as int, i as int) =~= digits);
    Ok(acc)
}

/// Once a prefix of the digits fails, the whole run fails the same way.
proof fn lemma_digits_prefix_error(s: Seq<u8>, prefix: Seq<u8>, max: nat)
    requires
        prefix.len() <= s.len(),
        prefix =~= s.subrange(0, prefix.len() as int),
        digits_result(prefix, max) is Err,
    ensures
        digits_result(s, max) == digits_result(prefix, max),
    decreases s.len() - prefix.len(),
{
    if s.len() > prefix.len() {
        let longer = s.subrange(0, prefix.len() as int + 1);
        assert(longer.drop_last() =~= prefix);
        lemma_digits_prefix_error(s, longer, max);
    } else {
        assert(s =~= prefix);
    }
}

/// Appends the decimal text of `n` to `out`.
pub fn push_decimal(n: u64, out: &mut Vec<u8>)
    ensures
        final(out)@ == old(out)@ + decimal_encoding(n as nat),
    decreases n,
{
    if n >= 10 {
        push_decimal(n / 10, out);
    }
    let digit: u8 = (n % 10) as u8;
    out.push(48u8 + digit);
    proof {
        if n < 10 {
            assert(decimal_encoding(n as nat) =~= seq![(48 + n) as u8]);
        }
    }
}

/// The decimal text of `n`, as `u64::to_string` writes it.
pub fn decimal_bytes(n: u64) -> (r: Vec<u8>)
    ensures
        r@ == decimal_encoding(n as nat),
{
    let mut out: Vec<u8> = Vec::new();
    push_decimal(n, &mut out);
    assert(out@ =~= decimal_encoding(n as nat));
    out
}

proof fn lemma_digits_of_encoding(n: nat, max: nat)
    requires
        n <= max,
    ensures
        digits_result(decimal_encoding(n), max) == Ok::<nat, IntErrorKind>(n),
    decreases n,
{
    let e = decimal_encoding(n);
    if n < 10 {
        assert(e.drop_last() =~= Seq::<u8>::empty());
        assert(digits_result(e.drop_last(), max) == Ok::<nat, IntErrorKind>(0));
    } else {
        lemma_digits_of_encoding(n / 10, max);
        assert(e.drop_last() =~= decimal_encoding(n / 10));
    }
}

proof fn lemma_encoding_starts_with_digit(n: nat)
    ensures
        decimal_encoding(n).len() >= 1,
        is_digit(decimal_encoding(n)[0]),
    decreases n,
{
    if n >= 10 {
        lemma_encoding_starts_with_digit(n / 10);
    }
}

/// Reading back the decimal text of a number gives the number: what a reply writes as
/// a length, a request header accepts as the same count.
pub proof fn lemma_decimal_round_trip(n: nat, max: nat)
    requires
        n <= max,
    ensures
        parse_unsigned(decimal_encoding(n), max) == Ok::<nat, IntErrorKind>(n),
{
    lemma_digits_of_encoding(n, max);
    lemma_encoding_starts_with_digit(n);
}

} // verus!
