//! Numbers as decimal text: unsigned numbers of up to 256 bits, and signed
//! fixed-point numbers.

use crate::model::{sign_bound, twos_complement, Amount, Dec};
use vstd::prelude::*;
use vstd::string::*;

verus! {

/// The decimal digit of `d`, for `d` below ten.
pub open spec fn spec_digit(d: int) -> char {
    if d == 0 {
        '0'
    } else if d == 1 {
        '1'
    } else if d == 2 {
        '2'
    } else if d == 3 {
        '3'
    } else if d == 4 {
        '4'
    } else if d == 5 {
        '5'
    } else if d == 6 {
        '6'
    } else if d == 7 {
        '7'
    } else if d == 8 {
        '8'
    } else {
        '9'
    }
}

/// The decimal digits of `n`, the most significant first, without leading
/// zeros; `"0"` for zero.
pub open spec fn decimal(n: nat) -> Seq<char>
    decreases n,
{
    if n < 10 {
        seq![spec_digit(n as int)]
    } else {
        decimal(n / 10).push(spec_digit((n % 10) as int))
    }
}

/// The last `width` decimal digits of `n`, with leading zeros where `n` has
/// fewer.
pub open spec fn padded(n: nat, width: nat) -> Seq<char>
    decreases width,
{
    if width == 0 {
        Seq::empty()
    } else {
        padded(n / 10, (width - 1) as nat).push(spec_digit((n % 10) as int))
    }
}

/// The text without the zeros at its end.
pub open spec fn trim_zeros(text: Seq<char>) -> Seq<char>
    decreases text.len(),
{
    if text.len() > 0 && text.last() == '0' {
        trim_zeros(text.drop_last())
    } else {
        text
    }
}

/// Ten to the power twelve: the number of units in one whole of a `Dec`.
pub open spec fn dec_unit() -> nat {
    1_000_000_000_000
}

/// The decimal text of a fixed-point number given in units of ten to the
/// power minus twelve: a minus sign if it is negative, the whole part, and,
/// unless the fraction is zero, a point and the twelve digits of the
/// fraction without the zeros at their end.
pub open spec fn dec_text(units: int) -> Seq<char> {
    let magnitude = (if units < 0 {
        -units
    } else {
        units
    }) as nat;
    let sign = if units < 0 {
        seq!['-']
    } else {
        Seq::empty()
    };
    let fraction = magnitude % dec_unit();
    let tail = if fraction == 0 {
        Seq::empty()
    } else {
        seq!['.'] + trim_zeros(padded(fraction, 12))
    };
    sign + decimal(magnitude / dec_unit()) + tail
}

/// The text in reverse order.
pub open spec fn reversed(text: Seq<char>) -> Seq<char> {
    Seq::new(text.len(), |i: int| text[text.len() - 1 - i])
}

/// The decimal digit of `d`.
fn digit(d: u64) -> (c: char)
    requires
        d < 10,
    ensures
        c == spec_digit(d as int),
{
    if d == 0 {
        '0'
    } else if d == 1 {
        '1'
    } else if d == 2 {
        '2'
    } else if d == 3 {
        '3'
    } else if d == 4 {
        '4'
    } else if d == 5 {
        '5'
    } else if d == 6 {
        '6'
    } else if d == 7 {
        '7'
    } else if d == 8 {
        '8'
    } else {
        '9'
    }
}

/// Appends `digits` to `out`, the last one first.
fn push_reversed(out: &mut String, digits: &Vec<char>)
    ensures
        final(out)@ == old(out)@ + reversed(digits@),
{
    let mut i: usize = digits.len();
    while i > 0
        invariant
            i <= digits.len(),
            out@ == old(out)@ + reversed(digits@).take(digits.len() - i),
        decreases i,
    {
        i = i - 1;
        out.push(digits[i]);
        assert(reversed(digits@).take(digits.len() - i) == reversed(digits@).take(
            digits.len() - i - 1,
        ).push(digits@[i as int]));
    }
    assert(reversed(digits@).take(digits.len() as int) == reversed(digits@));
}

/// One step of long division: the word `word` below the remainder `rem`,
/// divided by `d`.
fn div_step(rem: u64, word: u64, d: u64) -> (r: (u64, u64))
    requires
        0 < d,
        rem < d,
    ensures
        rem * 0x1_0000_0000_0000_0000 + word == r.0 * d + r.1,
        r.1 < d,
{
    let cur: u128 = (rem as u128) * 0x1_0000_0000_0000_0000u128 + (word as u128);
    let q: u128 = cur / (d as u128);
    let m: u128 = cur % (d as u128);
    proof {
        let c = cur as int;
        let dd = d as int;
        assert(c == dd * (c / dd) + c % dd && 0 <= c % dd < dd) by (nonlinear_arith)
            requires
                dd > 0,
        ;
        assert(c / dd < 0x1_0000_0000_0000_0000) by (nonlinear_arith)
            requires
                dd > 0,
                0 <= c < dd * 0x1_0000_0000_0000_0000,
                c == dd * (c / dd) + c % dd,
                0 <= c % dd,
        ;
        assert(dd * (c / dd) == (c / dd) * dd) by (nonlinear_arith);
    }
    (q as u64, m as u64)
}

/// Long division goes word by word: if the words so far are `quotient * d +
/// rem`, and the next word below `rem` is `q * d + r`, then the words with
/// the next one are `(quotient * 2^64 + q) * d + r`.
proof fn lemma_division_step(so_far: int, quotient: int, rem: int, word: int, q: int, r: int, d: int)
    requires
        so_far == quotient * d + rem,
        rem * 0x1_0000_0000_0000_0000 + word == q * d + r,
    ensures
        so_far * 0x1_0000_0000_0000_0000 + word == (quotient * 0x1_0000_0000_0000_0000 + q) * d
            + r,
{
    assert((quotient * d + rem) * 0x1_0000_0000_0000_0000 == (quotient * 0x1_0000_0000_0000_0000)
        * d + rem * 0x1_0000_0000_0000_0000) by (nonlinear_arith);
    assert((quotient * 0x1_0000_0000_0000_0000 + q) * d == (quotient * 0x1_0000_0000_0000_0000)
        * d + q * d) by (nonlinear_arith);
}

/// Long division of a number of 256 bits by a word.
fn div_small(a: Amount, d: u64) -> (r: (Amount, u64))
    requires
        0 < d,
    ensures
        a@ == r.0@ * d + r.1,
        r.1 < d,
{
    let (q3, r3) = div_step(0, a.w3, d);
    let (q2, r2) = div_step(r3, a.w2, d);
    let (q1, r1) = div_step(r2, a.w1, d);
    let (q0, r0) = div_step(r1, a.w0, d);
    let q = Amount { w0: q0, w1: q1, w2: q2, w3: q3 };
    proof {
        let a3 = a.w3 as int;
        let a2 = a3 * 0x1_0000_0000_0000_0000 + a.w2;
        let a1 = a2 * 0x1_0000_0000_0000_0000 + a.w1;
        let b3 = q3 as int;
        let b2 = b3 * 0x1_0000_0000_0000_0000 + q2;
        let b1 = b2 * 0x1_0000_0000_0000_0000 + q1;
        lemma_division_step(a3, b3, r3 as int, a.w2 as int, q2 as int, r2 as int, d as int);
        lemma_division_step(a2, b2, r2 as int, a.w1 as int, q1 as int, r1 as int, d as int);
        lemma_division_step(a1, b1, r1 as int, a.w0 as int, q0 as int, r0 as int, d as int);
    }
    (q, r0)
}

/// Appends the decimal digits of `n` to `out`.
pub fn push_decimal(out: &mut String, n: Amount)
    ensures
        final(out)@ == old(out)@ + decimal(n@),
{
    let mut rest = n;
    let mut digits: Vec<char> = Vec::new();
    assert(decimal(n@) == decimal(rest@) + reversed(digits@));
    while rest.w3 != 0 || rest.w2 != 0 || rest.w1 != 0 || rest.w0 >= 10
        invariant
            decimal(n@) == decimal(rest@) + reversed(digits@),
        decreases rest@,
    {
        let (q, r) = div_small(rest, 10);
        let ghost tail = reversed(digits@);
        digits.push(digit(r));
        proof {
            assert(rest@ >= 10);
            assert(q@ == rest@ / 10 && r == rest@ % 10);
            assert(reversed(digits@) == seq![spec_digit(r as int)] + tail);
            assert(decimal(q@).push(spec_digit(r as int)) + tail == decimal(q@) + (
            seq![spec_digit(r as int)] + tail));
        }
        rest = q;
    }
    let ghost tail = reversed(digits@);
    digits.push(digit(rest.w0));
    proof {
        assert(rest@ == rest.w0);
        assert(reversed(digits@) == seq![spec_digit(rest.w0 as int)] + tail);
    }
    push_reversed(out, &digits);
}

/// Appends the decimal digits of `n` to `out`.
pub fn push_decimal_u64(out: &mut String, n: u64)
    ensures
        final(out)@ == old(out)@ + decimal(n as nat),
{
    push_decimal(out, Amount { w0: n, w1: 0, w2: 0, w3: 0 });
}

/// The decimal text of an unsigned number of 256 bits.
pub fn amount_text(n: &Amount) -> (text: String)
    ensures
        text@ == decimal(n@),
{
    let mut out = String::new();
    push_decimal(&mut out, *n);
    out
}

/// Ten to the power `k`.
pub open spec fn pow10(k: nat) -> nat
    decreases k,
{
    if k == 0 {
        1
    } else {
        10 * pow10((k - 1) as nat)
    }
}

/// Appends the last `width` decimal digits of `n` to `out`.
fn push_padded(out: &mut String, n: u64, width: usize)
    ensures
        final(out)@ == old(out)@ + padded(n as nat, width as nat),
{
    let mut rest = n;
    let mut digits: Vec<char> = Vec::new();
    let mut i: usize = 0;
    assert(padded(n as nat, width as nat) == padded(rest as nat, (width - i) as nat) + reversed(
        digits@,
    ));
    while i < width
        invariant
            i <= width,
            digits@.len() == i,
            padded(n as nat, width as nat) == padded(rest as nat, (width - i) as nat) + reversed(
                digits@,
            ),
        decreases width - i,
    {
        let ghost tail = reversed(digits@);
        let d = rest % 10;
        digits.push(digit(d));
        proof {
            assert(reversed(digits@) == seq![spec_digit(d as int)] + tail);
            assert(padded((rest / 10) as nat, (width - i - 1) as nat).push(spec_digit(d as int))
                + tail == padded((rest / 10) as nat, (width - i - 1) as nat) + (seq![
                spec_digit(d as int),
            ] + tail));
        }
        rest = rest / 10;
        i = i + 1;
    }
    push_reversed(out, &digits);
}

/// Appends the twelve digits of the fraction `fraction`, without the zeros
/// at their end.
fn push_fraction(out: &mut String, fraction: u64)
    requires
        0 < fraction < dec_unit(),
    ensures
        final(out)@ == old(out)@ + trim_zeros(padded(fraction as nat, 12)),
{
    let mut f = fraction;
    let mut width: usize = 12;
    proof {
        reveal_with_fuel(pow10, 13);
        assert(pow10(12) == dec_unit());
    }
    while f % 10 == 0
        invariant
            0 < f < pow10(width as nat),
            width <= 12,
            trim_zeros(padded(fraction as nat, 12)) == trim_zeros(padded(f as nat, width as nat)),
        decreases f,
    {
        proof {
            assert(width > 0);
            assert(padded(f as nat, width as nat) == padded(
                (f / 10) as nat,
                (width - 1) as nat,
            ).push('0'));
            assert(padded(f as nat, width as nat).drop_last() == padded(
                (f / 10) as nat,
                (width - 1) as nat,
            ));
        }
        f = f / 10;
        width = width - 1;
    }
    proof {
        assert(width > 0);
        assert(padded(f as nat, width as nat).last() == spec_digit((f % 10) as int));
    }
    push_padded(out, f, width);
}

/// The number that the 256 bits of `a` make when each bit is flipped and
/// one is added: zero for zero, else two to the power 256 less `a`.
fn negated(a: Amount) -> (r: Amount)
    ensures
        r@ == if a@ == 0 {
            0
        } else {
            2 * sign_bound() - a@
        },
{
    let n0 = u64::MAX - a.w0;
    let n1 = u64::MAX - a.w1;
    let n2 = u64::MAX - a.w2;
    let n3 = u64::MAX - a.w3;
    if n0 < u64::MAX {
        Amount { w0: n0 + 1, w1: n1, w2: n2, w3: n3 }
    } else if n1 < u64::MAX {
        Amount { w0: 0, w1: n1 + 1, w2: n2, w3: n3 }
    } else if n2 < u64::MAX {
        Amount { w0: 0, w1: 0, w2: n2 + 1, w3: n3 }
    } else if n3 < u64::MAX {
        Amount { w0: 0, w1: 0, w2: 0, w3: n3 + 1 }
    } else {
        Amount { w0: 0, w1: 0, w2: 0, w3: 0 }
    }
}

/// The decimal text of a fixed-point number.
pub fn dec_to_text(value: &Dec) -> (text: String)
    ensures
        text@ == dec_text(value@),
{
    let negative = value.raw.w3 >= 0x8000_0000_0000_0000;
    let magnitude = if negative {
        negated(value.raw)
    } else {
        value.raw
    };
    proof {
        reveal(twos_complement);
        assert(negative <==> value.raw@ >= sign_bound());
        assert(negative <==> value@ < 0);
        assert(magnitude@ == if value@ < 0 {
            -value@
        } else {
            value@
        });
    }
    let (whole, fraction) = div_small(magnitude, 1_000_000_000_000);
    assert(whole@ == magnitude@ / dec_unit() && fraction == magnitude@ % dec_unit());
    let mut out = String::new();
    if negative {
        out.push('-');
    }
    push_decimal(&mut out, whole);
    if fraction != 0 {
        out.push('.');
        push_fraction(&mut out, fraction);
    }
    proof {
        let sign = if value@ < 0 {
            seq!['-']
        } else {
            Seq::<char>::empty()
        };
        let tail = if fraction == 0 {
            Seq::<char>::empty()
        } else {
            seq!['.'] + trim_zeros(padded(fraction as nat, 12))
        };
        assert(out@ == sign + decimal(whole@) + tail);
    }
    out
}

} // verus!
