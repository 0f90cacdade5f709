//! Decimal numbers: reading them from text the way `str::parse` reads an
//! unsigned integer, and writing them back.

use vstd::prelude::*;
use crate::result::IntErrorKind;

verus! {

pub open spec fn is_digit(c: char) -> bool {
    '0' <= c && c <= '9'
}

pub open spec fn digit_value(c: char) -> nat {
    (c as int - '0' as int) as nat
}

/// The number written by a sequence of decimal digits (most significant first).
pub open spec fn decimal_value(s: Seq<char>) -> nat
    decreases s.len(),
{
    if s.len() == 0 {
        0
    } else {
        decimal_value(s.drop_last()) * 10 + digit_value(s.last())
    }
}

/// The length of the longest prefix of `s` made of decimal digits.
pub open spec fn digit_prefix_len(s: Seq<char>) -> nat
    decreases s.len(),
{
    if s.len() == 0 {
        0
    } else if is_digit(s[0]) {
        1 + digit_prefix_len(s.drop_first())
    } else {
        0
    }
}

/// Reading a run of characters as decimal digits, left to right, into a number that
/// may not exceed `max`: overflow is reported as soon as the digits read so far exceed
/// `max`, a character that is not a digit as soon as it is met.
pub open spec fn scan_digits(s: Seq<char>, max: nat) -> Result<nat, IntErrorKind> {
    let k = digit_prefix_len(s);
    if decimal_value(s.take(k as int)) > max {
        Err(IntErrorKind::PosOverflow)
    } else if k < s.len() {
        Err(IntErrorKind::InvalidDigit)
    } else {
        Ok(decimal_value(s))
    }
}

/// What `str::parse` gives for an unsigned integer type whose largest value is `max`:
/// an optional `+` followed by decimal digits.
pub open spec fn parse_unsigned_spec(s: Seq<char>, max: nat) -> Result<nat, IntErrorKind> {
    if s.len() == 0 {
        Err(IntErrorKind::Empty)
    } else if s.len() == 1 && (s[0] == '+' || s[0] == '-') {
        Err(IntErrorKind::InvalidDigit)
    } else if s[0] == '+' {
        scan_digits(s.drop_first(), max)
    } else {
        scan_digits(s, max)
    }
}


/// `digit_prefix_len` read off a prefix known to consist of digits.
pub(crate) proof fn lemma_digit_prefix_len(s: Seq<char>, j: int)
    requires
        0 <= j <= s.len(),
        forall|i: int| 0 <= i < j ==> is_digit(#[trigger] s[i]),
    ensures
        digit_prefix_len(s) >= j,
        digit_prefix_len(s) <= s.len(),
        j == s.len() ==> digit_prefix_len(s) == j,
        j < s.len() && !is_digit(s[j]) ==> digit_prefix_len(s) == j,
    decreases j,
{
    if j == 0 {
        lemma_digit_prefix_len_facts(s);
    } else {
        let t = s.drop_first();
        assert forall|i: int| 0 <= i < j - 1 implies is_digit(#[trigger] t[i]) by {
            assert(t[i] == s[i + 1]);
        }
        lemma_digit_prefix_len(t, j - 1);
        if j < s.len() {
            assert(t[j - 1] == s[j]);
        }
    }
}

pub(crate) proof fn lemma_digit_prefix_len_facts(s: Seq<char>)
    ensures
        digit_prefix_len(s) <= s.len(),
        digit_prefix_len(s) < s.len() ==> !is_digit(s[digit_prefix_len(s) as int]),
        forall|i: int| 0 <= i < digit_prefix_len(s) ==> is_digit(#[trigger] s[i]),
    decreases s.len(),
{
    if s.len() > 0 && is_digit(s[0]) {
        let t = s.drop_first();
        lemma_digit_prefix_len_facts(t);
        assert forall|i: int| 0 <= i < digit_prefix_len(s) implies is_digit(#[trigger] s[i]) by {
            if i > 0 {
                assert(s[i] == t[i - 1]);
            }
        }
    }
}

/// Reading one more digit of a run multiplies by ten and adds the digit.
pub(crate) proof fn lemma_decimal_value_take_step(s: Seq<char>, j: int)
    requires
        0 <= j < s.len(),
    ensures
        decimal_value(s.take(j + 1)) == decimal_value(s.take(j)) * 10 + digit_value(s[j]),
{
    assert(s.take(j + 1).drop_last() =~= s.take(j));
}

/// The value of a run of digits never decreases as more digits are read.
pub(crate) proof fn lemma_decimal_value_take_monotone(s: Seq<char>, j: int, k: int)
    requires
        0 <= j <= k <= s.len(),
    ensures
        decimal_value(s.take(j)) <= decimal_value(s.take(k)),
    decreases k - j,
{
    if j < k {
        lemma_decimal_value_take_monotone(s, j, k - 1);
        lemma_decimal_value_take_step(s, k - 1);
    }
}

/// A value that reads successfully is no larger than the bound.
pub proof fn lemma_parse_unsigned_bound(s: Seq<char>, max: nat)
    ensures
        parse_unsigned_spec(s, max) matches Ok(v) ==> v <= max,
{
    if s.len() > 0 {
        let t = if s[0] == '+' { s.drop_first() } else { s };
        let k = digit_prefix_len(t);
        lemma_digit_prefix_len_facts(t);
        if k >= t.len() {
            assert(t.take(k as int) =~= t);
        }
    }
}

/// Reads an unsigned decimal integer no larger than `max` from `s`, with the rules of
/// `str::parse` for the unsigned integer types.
pub fn parse_unsigned(s: &str, max: u64) -> (res: Result<u64, IntErrorKind>)
    ensures
        parse_unsigned_spec(s@, max as nat) == (match res {
            Ok(v) => Ok(v as nat),
            Err(e) => Err(e),
        }),
{
    let n = s.unicode_len();
    if n == 0 {
        return Err(IntErrorKind::Empty);
    }
    let c0 = s.get_char(0);
    if n == 1 && (c0 == '+' || c0 == '-') {
        return Err(IntErrorKind::InvalidDigit);
    }
    let start: usize = if c0 == '+' { 1 } else { 0 };
    let ghost t: Seq<char> = s@.skip(start as int);
    assert(c0 == '+' ==> t =~= s@.drop_first());
    assert(c0 != '+' ==> t =~= s@);
    let mut value: u64 = 0;
    let mut i: usize = start;
    assert(t.take(0) =~= Seq::<char>::empty());
    assert(parse_unsigned_spec(s@, max as nat) == scan_digits(t, max as nat));
    while i < n
        invariant
            start <= i <= n,
            n == s@.len(),
            t == s@.skip(start as int),
            forall|j: int| 0 <= j < i - start ==> is_digit(#[trigger] t[j]),
            value as nat == decimal_value(t.take(i - start)),
            value <= max,
            parse_unsigned_spec(s@, max as nat) == scan_digits(t, max as nat),
        decreases n - i,
    {
        let c = s.get_char(i);
        assert(t[i - start] == c);
        if c < '0' || c > '9' {
            proof {
                lemma_digit_prefix_len(t, i - start);
            }
            return Err(IntErrorKind::InvalidDigit);
        }
        let d: u64 = (c as u32 - '0' as u32) as u64;
        proof {
            lemma_decimal_value_take_step(t, i - start);
        }
        if d > max || value > (max - d) / 10 {
            proof {
                lemma_digit_prefix_len(t, i - start + 1);
                lemma_decimal_value_take_monotone(t, i - start + 1, digit_prefix_len(t) as int);
                if d <= max {
                    assert(value * 10 + d > max) by (nonlinear_arith)
                        requires
                            value > (max - d) / 10,
                            d <= max,
                    ;
                }
            }
            return Err(IntErrorKind::PosOverflow);
        }
        assert(value * 10 + d <= max) by (nonlinear_arith)
            requires
                value <= (max - d) / 10,
                d <= max,
        ;
        value = value * 10 + d;
        i = i + 1;
    }
    proof {
        lemma_digit_prefix_len(t, t.len() as int);
        assert(t.take(t.len() as int) =~= t);
    }
    Ok(value)
}

} // verus!
