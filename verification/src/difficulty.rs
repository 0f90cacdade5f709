//! 256-bit unsigned integers, as the chain's cumulative difficulty is written.

use vstd::prelude::*;
use crate::num::{decimal_value, digit_prefix_len, is_digit, digit_value};
use crate::result::DecStrError;

verus! {

/// The base of one 64-bit word.
pub open spec fn word_base() -> nat {
    0x1_0000_0000_0000_0000nat
}

/// 2^256, the first value that does not fit.
pub open spec fn u256_bound() -> nat {
    0x1_0000_0000_0000_0000_0000_0000_0000_0000_0000_0000_0000_0000_0000_0000_0000_0000nat
}

/// A 256-bit unsigned integer held as four 64-bit words, least significant first.
#[derive(Debug, Clone, Copy, PartialEq, Eq, Structural)]
pub struct Difficulty {
    pub w0: u64,
    pub w1: u64,
    pub w2: u64,
    pub w3: u64,
}

/// What a decimal text reads as, as a 256-bit integer: the digits are read left to right,
/// and the first of "too large" or "not a digit" met decides the error.
pub open spec fn dec_str_u256(s: Seq<char>) -> Result<nat, DecStrError> {
    let k = digit_prefix_len(s);
    if decimal_value(s.take(k as int)) >= u256_bound() {
        Err(DecStrError::InvalidLength)
    } else if k < s.len() {
        Err(DecStrError::InvalidCharacter)
    } else {
        Ok(decimal_value(s))
    }
}

impl Difficulty {
    /// The number that the words hold.
    pub open spec fn value(self) -> nat {
        self.w0 as nat + word_base() * (self.w1 as nat + word_base() * (self.w2 as nat
            + word_base() * self.w3 as nat))
    }

    /// Zero.
    pub fn zero() -> (res: Difficulty)
        ensures
            res.value() == 0,
    {
        Difficulty { w0: 0, w1: 0, w2: 0, w3: 0 }
    }

    /// Every value that the words can hold is below 2^256.
    pub proof fn lemma_value_bound(self)
        ensures
            self.value() < u256_bound(),
    {
        let b = word_base();
        let h2 = self.w2 as nat + b * self.w3 as nat;
        let h1 = self.w1 as nat + b * h2;
        assert(h2 < b * b) by (nonlinear_arith)
            requires
                h2 == self.w2 as nat + b * self.w3 as nat,
                self.w2 < b,
                self.w3 < b,
        ;
        assert(h1 < b * b * b) by (nonlinear_arith)
            requires
                h1 == self.w1 as nat + b * h2,
                self.w1 < b,
                h2 < b * b,
        ;
        assert(self.value() < b * b * b * b) by (nonlinear_arith)
            requires
                self.value() == self.w0 as nat + b * h1,
                self.w0 < b,
                h1 < b * b * b,
        ;
        assert(b * b * b * b == u256_bound());
    }

    /// `self > other`, comparing the numbers that the words hold.
    pub fn gt(&self, other: &Difficulty) -> (res: bool)
        ensures
            res == (self.value() > other.value()),
    {
        proof {
            let b = word_base();
            let x2 = self.w2 as nat + b * self.w3 as nat;
            let y2 = other.w2 as nat + b * other.w3 as nat;
            let x1 = self.w1 as nat + b * x2;
            let y1 = other.w1 as nat + b * y2;
            lemma_two_digit_gt(self.w2 as nat, self.w3 as nat, other.w2 as nat, other.w3 as nat);
            lemma_two_digit_gt(self.w1 as nat, x2, other.w1 as nat, y2);
            lemma_two_digit_gt(self.w0 as nat, x1, other.w0 as nat, y1);
        }
        if self.w3 != other.w3 {
            self.w3 > other.w3
        } else if self.w2 != other.w2 {
            self.w2 > other.w2
        } else if self.w1 != other.w1 {
            self.w1 > other.w1
        } else {
            self.w0 > other.w0
        }
    }

    /// `self * 10 + d`, or `None` where that does not fit in 256 bits.
    fn mul10_add(&self, d: u64) -> (res: Option<Difficulty>)
        requires
            d < 10,
        ensures
            match res {
                Some(r) => r.value() == self.value() * 10 + d,
                None => self.value() * 10 + d >= u256_bound(),
            },
    {
        let (r0, c0) = mul10_add_word(self.w0, d);
        let (r1, c1) = mul10_add_word(self.w1, c0);
        let (r2, c2) = mul10_add_word(self.w2, c1);
        let (r3, c3) = mul10_add_word(self.w3, c2);
        let r = Difficulty { w0: r0, w1: r1, w2: r2, w3: r3 };
        proof {
            let b = word_base();
            let h2 = self.w2 as nat + b * self.w3 as nat;
            let h1 = self.w1 as nat + b * h2;
            lemma_shift_mul10(self.w2 as nat, self.w3 as nat, c1 as nat, r2 as nat, c2 as nat);
            lemma_shift_mul10(self.w1 as nat, h2, c0 as nat, r1 as nat, c1 as nat);
            lemma_shift_mul10(self.w0 as nat, h1, d as nat, r0 as nat, c0 as nat);
            // self * 10 + d == r + B^4 * c3
            let g2 = self.w3 as nat * 10 + c2 as nat;
            assert(g2 == r3 as nat + b * c3 as nat);
            let g1 = r2 as nat + b * g2;
            let g0 = r1 as nat + b * g1;
            assert(self.value() * 10 + d == r0 as nat + b * g0);
            assert(r0 as nat + b * g0 == r.value() + b * b * b * b * c3 as nat) by (nonlinear_arith)
                requires
                    g2 == r3 as nat + b * c3 as nat,
                    g1 == r2 as nat + b * g2,
                    g0 == r1 as nat + b * g1,
                    r.value() == r0 as nat + b * (r1 as nat + b * (r2 as nat + b * r3 as nat)),
            ;
            assert(b * b * b * b == u256_bound());
            r.lemma_value_bound();
            if c3 > 0 {
                assert(u256_bound() * c3 as nat >= u256_bound()) by (nonlinear_arith)
                    requires
                        c3 > 0,
                ;
            }
        }
        if c3 != 0 {
            None
        } else {
            Some(r)
        }
    }

    /// Reads a decimal text as a 256-bit unsigned integer, as `from_dec_str` of the
    /// `uint` crate's integer types does: every character must be a decimal digit (the
    /// empty text reads as zero) and the value must fit.
    pub fn from_dec_str(s: &str) -> (res: Result<Difficulty, DecStrError>)
        ensures
            dec_str_u256(s@) == (match res {
                Ok(v) => Ok(v.value()),
                Err(e) => Err(e),
            }),
    {
        let n = s.unicode_len();
        let mut acc = Difficulty::zero();
        let mut i: usize = 0;
        assert(s@.take(0) =~= Seq::<char>::empty());
        while i < n
            invariant
                i <= n,
                n == s@.len(),
                forall|j: int| 0 <= j < i ==> is_digit(#[trigger] s@[j]),
                acc.value() == decimal_value(s@.take(i as int)),
            decreases n - i,
        {
            let c = s.get_char(i);
            if c < '0' || c > '9' {
                proof {
                    crate::num::lemma_digit_prefix_len(s@, i as int);
                    acc.lemma_value_bound();
                }
                return Err(DecStrError::InvalidCharacter);
            }
            let d: u64 = (c as u32 - '0' as u32) as u64;
            proof {
                crate::num::lemma_decimal_value_take_step(s@, i as int);
            }
            match acc.mul10_add(d) {
                Some(next) => {
                    acc = next;
                },
                None => {
                    proof {
                        crate::num::lemma_digit_prefix_len(s@, i + 1);
                        crate::num::lemma_decimal_value_take_monotone(
                            s@,
                            i + 1,
                            digit_prefix_len(s@) as int,
                        );
                    }
                    return Err(DecStrError::InvalidLength);
                },
            }
            i = i + 1;
        }
        proof {
            crate::num::lemma_digit_prefix_len(s@, n as int);
            assert(s@.take(n as int) =~= s@);
            acc.lemma_value_bound();
        }
        Ok(acc)
    }
}

/// One word times ten plus a carry: the low word and the carry out.
fn mul10_add_word(w: u64, carry: u64) -> (res: (u64, u64))
    requires
        carry < 10,
    ensures
        res.0 as nat + word_base() * res.1 as nat == w as nat * 10 + carry as nat,
        res.1 < 10,
{
    let t: u128 = w as u128 * 10 + carry as u128;
    let lo: u128 = t % 0x1_0000_0000_0000_0000u128;
    let hi: u128 = t / 0x1_0000_0000_0000_0000u128;
    assert(hi < 10);
    (lo as u64, hi as u64)
}

/// Multiplying `lo + B * hi` by ten and adding a carry, where `lo * 10 + carry` splits
/// into a word `r` and a carry out `c`.
proof fn lemma_shift_mul10(lo: nat, hi: nat, carry: nat, r: nat, c: nat)
    requires
        lo * 10 + carry == r + word_base() * c,
    ensures
        (lo + word_base() * hi) * 10 + carry == r + word_base() * (hi * 10 + c),
{
    let b = word_base();
    assert((lo + b * hi) * 10 + carry == (lo * 10 + carry) + b * (hi * 10)) by (nonlinear_arith);
}

/// Two-digit numbers in base 2^64 compare by their high digit first.
proof fn lemma_two_digit_gt(x0: nat, x1: nat, y0: nat, y1: nat)
    requires
        x0 < word_base(),
        y0 < word_base(),
    ensures
        (x0 + word_base() * x1 > y0 + word_base() * y1) == (x1 > y1 || (x1 == y1 && x0 > y0)),
{
    let b = word_base();
    if x1 > y1 {
        assert(x0 + b * x1 > y0 + b * y1) by (nonlinear_arith)
            requires
                x1 > y1,
                y0 < b,
        ;
    } else if x1 < y1 {
        assert(x0 + b * x1 < y0 + b * y1) by (nonlinear_arith)
            requires
                x1 < y1,
                x0 < b,
        ;
    }
}

/// Every number below 2^256 written in decimal reads back as itself, and whatever reads
/// successfully is below 2^256.
pub proof fn lemma_dec_str_u256_round_trip(n: nat)
    ensures
        n < u256_bound() ==> dec_str_u256(crate::text::decimal_text(n)) == Ok::<nat, DecStrError>(n),
        forall|s: Seq<char>| #[trigger] dec_str_u256(s) is Ok ==> dec_str_u256(s)->Ok_0 < u256_bound(),
{
    let t = crate::text::decimal_text(n);
    crate::text::lemma_decimal_text_reads_back(n);
    crate::num::lemma_digit_prefix_len(t, t.len() as int);
    assert(t.take(t.len() as int) =~= t);
    assert forall|s: Seq<char>| #[trigger] dec_str_u256(s) is Ok implies dec_str_u256(s)->Ok_0 < u256_bound() by {
        let k = digit_prefix_len(s);
        crate::num::lemma_digit_prefix_len_facts(s);
        assert(s.take(k as int) =~= s);
    }
}

} // verus!
