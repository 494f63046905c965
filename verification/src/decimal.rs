//! Exact decimal numerals for the relational assertion operators: parsing a
//! signed decimal string and comparing two such numerals by bringing them to a
//! common denominator. A numeral that does not fit (more than nineteen
//! significant digits) is treated as unparsable, and the comparison operators
//! then evaluate to false, matching the soft-fail policy for malformed
//! numeric assertions.

use vstd::prelude::*;

use crate::bytes::{all_digits, digits_val, find_spec, is_digit, lemma_find_spec, parse_u64_dec,
    parse_u64_spec, strip_plus};
use crate::bytes::find_byte;

verus! {

/// A parsed decimal numeral: the value is `(-1)^neg * mant / 10^scale`.
pub struct Dec {
    pub neg: bool,
    pub mant: u64,
    pub scale: u64,
}

/// Ten to the power `e`.
pub open spec fn pow10(e: nat) -> nat
    decreases e,
{
    if e == 0 {
        1
    } else {
        10 * pow10((e - 1) as nat)
    }
}

/// Powers of ten are positive and grow with the exponent.
pub proof fn lemma_pow10_mono(a: nat, b: nat)
    requires
        a <= b,
    ensures
        1 <= pow10(a) <= pow10(b),
    decreases b,
{
    if b == 0 {
    } else if a == b {
        lemma_pow10_mono((a - 1) as nat, (b - 1) as nat);
    } else {
        lemma_pow10_mono(a, (b - 1) as nat);
    }
}

/// The numeral of nineteen zeros, spelled out once.
pub proof fn lemma_pow10_19()
    ensures
        pow10(19) == 10_000_000_000_000_000_000,
{
    assert(pow10(0) == 1);
    assert(pow10(1) == 10);
    assert(pow10(2) == 100);
    assert(pow10(3) == 1000);
    assert(pow10(4) == 10000);
    assert(pow10(5) == 100000);
    assert(pow10(6) == 1000000);
    assert(pow10(7) == 10000000);
    assert(pow10(8) == 100000000);
    assert(pow10(9) == 1000000000);
    assert(pow10(10) == 10000000000);
    assert(pow10(11) == 100000000000);
    assert(pow10(12) == 1000000000000);
    assert(pow10(13) == 10000000000000);
    assert(pow10(14) == 100000000000000);
    assert(pow10(15) == 1000000000000000);
    assert(pow10(16) == 10000000000000000);
    assert(pow10(17) == 100000000000000000);
    assert(pow10(18) == 1000000000000000000);
    assert(pow10(19) == 10_000_000_000_000_000_000);
}

/// A string of `l` decimal digits writes a number below ten to the `l`.
pub proof fn lemma_digits_val_bound(s: Seq<u8>)
    requires
        forall|i: int| 0 <= i < s.len() ==> is_digit(#[trigger] s[i]),
    ensures
        digits_val(s) < pow10(s.len()),
    decreases s.len(),
{
    if s.len() > 0 {
        lemma_digits_val_bound(s.drop_last());
    }
}

/// Ten to the power `e`, at runtime.
pub fn pow10_u64(e: u64) -> (r: u64)
    requires
        e <= 19,
    ensures
        r == pow10(e as nat),
{
    proof {
        lemma_pow10_19();
    }
    let mut r: u64 = 1;
    let mut k: u64 = 0;
    while k < e
        invariant
            k <= e <= 19,
            r == pow10(k as nat),
        decreases e - k,
    {
        proof {
            lemma_pow10_mono((k + 1) as nat, 19);
            lemma_pow10_19();
        }
        r = r * 10;
        k = k + 1;
    }
    r
}

/// A leading sign split off: the sign bit and what follows it.
pub open spec fn sign_of(s: Seq<u8>) -> (bool, Seq<u8>) {
    if s.len() > 0 && s[0] == ('-' as u8) {
        (true, s.drop_first())
    } else if s.len() > 0 && s[0] == ('+' as u8) {
        (false, s.drop_first())
    } else {
        (false, s)
    }
}

/// Every byte is a decimal digit; an empty string passes.
pub open spec fn digits_only(s: Seq<u8>) -> bool {
    forall|i: int| 0 <= i < s.len() ==> is_digit(#[trigger] s[i])
}

/// The decimal numeral grammar: an optional sign, an integer part, and an
/// optional `.` with a fraction part, at least one digit in all. The parse
/// succeeds when the scaled value stays below ten to the nineteenth and the
/// fraction carries at most nineteen digits.
pub open spec fn parse_dec_spec(s: Seq<u8>) -> Option<Dec> {
    let p = sign_of(s);
    let t = p.1;
    let i = find_spec(t, '.' as u8);
    let ipart = if 0 <= i < t.len() {
        t.subrange(0, i)
    } else {
        t
    };
    let fpart = if 0 <= i < t.len() {
        t.subrange(i + 1, t.len() as int)
    } else {
        Seq::<u8>::empty()
    };
    if digits_only(ipart) && digits_only(fpart) && ipart.len() + fpart.len() > 0 && fpart.len()
        <= 19 && digits_val(ipart) * pow10(fpart.len()) + digits_val(fpart) < pow10(19) {
        Some(
            Dec {
                neg: p.0,
                mant: (digits_val(ipart) * pow10(fpart.len()) + digits_val(fpart)) as u64,
                scale: fpart.len() as u64,
            },
        )
    } else {
        None
    }
}

fn digits_only_exec(s: &[u8]) -> (r: bool)
    ensures
        r == digits_only(s@),
{
    let mut i: usize = 0;
    while i < s.len()
        invariant
            0 <= i <= s@.len(),
            forall|k: int| 0 <= k < i ==> is_digit(#[trigger] s@[k]),
        decreases s.len() - i,
    {
        if s[i] < ('0' as u8) || s[i] > ('9' as u8) {
            return false;
        }
        i = i + 1;
    }
    true
}

/// Parse a signed decimal numeral such as `-12.75`.
pub fn parse_dec(s: &[u8]) -> (r: Option<Dec>)
    ensures
        r == parse_dec_spec(s@),
        r is Some ==> r->0.scale <= 19 && r->0.mant < pow10(19),
{
    proof {
        lemma_pow10_19();
    }
    let (neg, rest_start): (bool, usize) = if s.len() > 0 && s[0] == ('-' as u8) {
        (true, 1)
    } else if s.len() > 0 && s[0] == ('+' as u8) {
        (false, 1)
    } else {
        (false, 0)
    };
    let t = &s[rest_start..s.len()];
    proof {
        assert(sign_of(s@).1 =~= t@);
        assert(sign_of(s@).0 == neg);
    }
    let dot = find_byte(t, '.' as u8);
    proof {
        lemma_find_spec(t@, '.' as u8);
    }
    let ghost gi = find_spec(t@, '.' as u8);
    let (ip, fp): (&[u8], &[u8]) = if dot < t.len() {
        (&t[0..dot], &t[dot + 1..t.len()])
    } else {
        (t, &t[0..0])
    };
    proof {
        if gi < t@.len() {
            assert(ip@ =~= t@.subrange(0, gi));
            assert(fp@ =~= t@.subrange(gi + 1, t@.len() as int));
        } else {
            assert(ip@ =~= t@);
            assert(fp@ =~= Seq::<u8>::empty());
        }
    }
    if !digits_only_exec(ip) || !digits_only_exec(fp) {
        return None;
    }
    if ip.len() == 0 && fp.len() == 0 {
        return None;
    }
    if fp.len() > 19 {
        return None;
    }
    let iv: u64 = if ip.len() == 0 {
        0
    } else {
        proof {
            assert(strip_plus(ip@) =~= ip@);
            assert(all_digits(ip@));
        }
        match parse_u64_dec(ip) {
            Some(v) => v,
            None => {
                // the integer part alone exceeds `u64::MAX`, so the scaled
                // value certainly reaches ten to the nineteenth
                proof {
                    lemma_pow10_mono(0, fp@.len() as nat);
                    assert(digits_val(ip@) * pow10(fp@.len() as nat) >= digits_val(ip@) * 1) by (nonlinear_arith)
                        requires
                            pow10(fp@.len() as nat) >= 1,
                            digits_val(ip@) >= 0,
                    ;
                }
                return None;
            },
        }
    };
    let fv: u64 = if fp.len() == 0 {
        0
    } else {
        proof {
            assert(strip_plus(fp@) =~= fp@);
            assert(all_digits(fp@));
            lemma_digits_val_bound(fp@);
            lemma_pow10_mono(fp@.len() as nat, 19);
        }
        match parse_u64_dec(fp) {
            Some(v) => v,
            None => {
                proof {
                    assert(false);
                }
                0
            },
        }
    };
    proof {
        if fp@.len() > 0 {
            lemma_digits_val_bound(fp@);
        }
    }
    let pw = pow10_u64(fp.len() as u64);
    proof {
        lemma_pow10_mono(fp@.len() as nat, 19);
        assert((iv as u128) * (pw as u128) <= (u64::MAX as u128) * (pow10(19) as u128))
            by (nonlinear_arith)
            requires
                0 <= iv as u128 <= u64::MAX as u128,
                0 <= pw as u128 <= pow10(19) as u128,
        ;
    }
    let m: u128 = iv as u128 * pw as u128 + fv as u128;
    if m < 10_000_000_000_000_000_000u128 {
        Some(Dec { neg, mant: m as u64, scale: fp.len() as u64 })
    } else {
        None
    }
}

/// The outcome of an exact numeric comparison.
#[derive(PartialEq, Eq, Structural, Clone, Copy, Debug)]
pub enum NumCmp {
    Less,
    Equal,
    Greater,
}

/// The integer `(-1)^neg * mant * 10^e`: the numerator of a decimal numeral
/// brought to a common denominator with one of scale `e`.
pub open spec fn dec_num(d: Dec, e: nat) -> int {
    if d.neg {
        -(d.mant * pow10(e))
    } else {
        d.mant * pow10(e)
    }
}

/// Compare two decimal numerals exactly, by cross-multiplying with the other
/// numeral's denominator.
pub fn compare_dec(a: &Dec, b: &Dec) -> (r: NumCmp)
    requires
        a.scale <= 19,
        b.scale <= 19,
    ensures
        (r == NumCmp::Less) == (dec_num(*a, b.scale as nat) < dec_num(*b, a.scale as nat)),
        (r == NumCmp::Equal) == (dec_num(*a, b.scale as nat) == dec_num(*b, a.scale as nat)),
        (r == NumCmp::Greater) == (dec_num(*a, b.scale as nat) > dec_num(*b, a.scale as nat)),
{
    let pa = pow10_u64(b.scale);
    let pb = pow10_u64(a.scale);
    proof {
        lemma_pow10_19();
        lemma_pow10_mono(b.scale as nat, 19);
        lemma_pow10_mono(a.scale as nat, 19);
        assert((a.mant as u128) * (pa as u128) <= (u64::MAX as u128) * (pow10(19) as u128))
            by (nonlinear_arith)
            requires
                0 <= a.mant as u128 <= u64::MAX as u128,
                0 <= pa as u128 <= pow10(19) as u128,
        ;
        assert((b.mant as u128) * (pb as u128) <= (u64::MAX as u128) * (pow10(19) as u128))
            by (nonlinear_arith)
            requires
                0 <= b.mant as u128 <= u64::MAX as u128,
                0 <= pb as u128 <= pow10(19) as u128,
        ;
    }
    let m1: u128 = a.mant as u128 * pa as u128;
    let m2: u128 = b.mant as u128 * pb as u128;
    proof {
        assert(m1 == a.mant * pow10(b.scale as nat));
        assert(m2 == b.mant * pow10(a.scale as nat));
    }
    if a.neg == b.neg {
        let (x, y): (u128, u128) = if a.neg {
            (m2, m1)
        } else {
            (m1, m2)
        };
        if x < y {
            NumCmp::Less
        } else if x == y {
            NumCmp::Equal
        } else {
            NumCmp::Greater
        }
    } else {
        if m1 == 0 && m2 == 0 {
            NumCmp::Equal
        } else if a.neg {
            NumCmp::Less
        } else {
            NumCmp::Greater
        }
    }
}

} // verus!
