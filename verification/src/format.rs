//! Fractions as decimal numbers with four digits behind the point.
//!
//! The value is rounded to the nearest ten-thousandth; a value half way
//! between two goes to the even one. A negative fraction has a `-` before
//! it, also where it rounds to nothing.

use crate::metrics::Ratio;
use crate::text::{decimal, digit_char, digit_of, string_of};
use vstd::arithmetic::div_mod::lemma_fundamental_div_mod_converse;
use vstd::prelude::*;

verus! {

/// The greatest denominator of a fraction that can be written.
pub const MAX_DEN: i128 = 0x10_0000_0000_0000_0000_0000_0000;

/// The fraction can be written: its denominator is positive and no greater
/// than `MAX_DEN`.
pub open spec fn writable(r: Ratio) -> bool {
    0 < r.den <= MAX_DEN
}

/// The absolute value of a number.
pub open spec fn magnitude(n: int) -> int {
    if n < 0 {
        -n
    } else {
        n
    }
}

/// The fraction in ten-thousandths, rounded to the nearest whole number,
/// and to the even one of two that are equally near.
pub open spec fn ten_thousandths(num: int, den: int) -> int {
    let whole = (magnitude(num) * 10000) / den;
    let rest = (magnitude(num) * 10000) % den;
    if 2 * rest > den || (2 * rest == den && whole % 2 == 1) {
        whole + 1
    } else {
        whole
    }
}

/// The character between the whole part and the digits behind it.
pub open spec fn decimal_mark(comma: bool) -> char {
    if comma {
        ','
    } else {
        '.'
    }
}

/// A number of ten-thousandths as a decimal number with four digits behind
/// the mark.
pub open spec fn fixed_four(v: int, comma: bool) -> Seq<char> {
    decimal((v / 10000) as nat) + seq![
        decimal_mark(comma),
        digit_char((v / 1000) % 10),
        digit_char((v / 100) % 10),
        digit_char((v / 10) % 10),
        digit_char(v % 10),
    ]
}

/// The fraction as a decimal number with four digits behind the mark.
pub open spec fn ratio_text(r: Ratio, comma: bool) -> Seq<char> {
    let digits = fixed_four(ten_thousandths(r.num as int, r.den as int), comma);
    if r.num < 0 {
        seq!['-'] + digits
    } else {
        digits
    }
}

/// The fraction as a decimal number, or the given text where there is no
/// fraction.
pub open spec fn cell_text(cell: Option<Ratio>, comma: bool, absent: Seq<char>) -> Seq<char> {
    match cell {
        Some(r) => ratio_text(r, comma),
        None => absent,
    }
}

/// Appends the decimal digits of `n` to `buf`.
pub fn push_wide_decimal(buf: &mut Vec<char>, n: u128)
    ensures
        final(buf)@ == old(buf)@ + decimal(n as nat),
    decreases n,
{
    if n >= 10 {
        push_wide_decimal(buf, n / 10);
    }
    buf.push(digit_of((n % 10) as usize));
    proof {
        if n >= 10 {
            assert(buf@ =~= old(buf)@ + decimal((n / 10) as nat).push(
                digit_char((n % 10) as int),
            ));
        } else {
            assert(buf@ =~= old(buf)@ + seq![digit_char(n as int)]);
        }
    }
}

/// Dividing a number times 10000 is dividing the number, and then its
/// remainder times 10000.
proof fn lemma_scaled_division(a: int, d: int, q: int, rest: int, f: int, left: int)
    requires
        0 <= a,
        0 < d,
        q == a / d,
        rest == a % d,
        f == (rest * 10000) / d,
        left == (rest * 10000) % d,
    ensures
        (a * 10000) / d == q * 10000 + f,
        (a * 10000) % d == left,
        0 <= f < 10000,
        0 <= left < d,
{
    vstd::arithmetic::div_mod::lemma_fundamental_div_mod(a, d);
    vstd::arithmetic::div_mod::lemma_fundamental_div_mod(rest * 10000, d);
    vstd::arithmetic::div_mod::lemma_mod_pos_bound(a, d);
    vstd::arithmetic::div_mod::lemma_mod_pos_bound(rest * 10000, d);
    vstd::arithmetic::div_mod::lemma_div_pos_is_pos(rest * 10000, d);
    assert(a * 10000 == (q * 10000 + f) * d + left) by (nonlinear_arith)
        requires
            a == d * q + rest,
            rest * 10000 == d * f + left,
    ;
    lemma_fundamental_div_mod_converse(a * 10000, d, q * 10000 + f, left);
    assert(f < 10000) by (nonlinear_arith)
        requires
            rest * 10000 == d * f + left,
            0 <= rest < d,
            0 <= left,
            0 <= f,
    ;
}

/// A digit of a number is the digit of its part below 10000, for the last
/// four digits.
proof fn lemma_digit(v: int, whole: int, frac: int, unit: int, above: int)
    requires
        v == whole * 10000 + frac,
        0 <= whole,
        0 <= frac < 10000,
        unit > 0,
        unit * above == 1000,
        above > 0,
    ensures
        (v / unit) % 10 == (frac / unit) % 10,
{
    let x = frac / unit;
    let low = frac % unit;
    vstd::arithmetic::div_mod::lemma_fundamental_div_mod(frac, unit);
    vstd::arithmetic::div_mod::lemma_mod_pos_bound(frac, unit);
    vstd::arithmetic::div_mod::lemma_div_pos_is_pos(frac, unit);
    let k = 10 * above;
    assert(v == (whole * k + x) * unit + low) by (nonlinear_arith)
        requires
            v == whole * 10000 + frac,
            frac == unit * x + low,
            unit * above == 1000,
            k == 10 * above,
    ;
    lemma_fundamental_div_mod_converse(v, unit, whole * k + x, low);
    let x1 = x / 10;
    let x0 = x % 10;
    assert(whole * k + x == (whole * above + x1) * 10 + x0) by (nonlinear_arith)
        requires
            k == 10 * above,
            x == 10 * x1 + x0,
    ;
    lemma_fundamental_div_mod_converse(whole * k + x, 10, whole * above + x1, x0);
}

/// The digits behind the mark are those of the part below 10000.
proof fn lemma_parts(v: int, whole: int, frac: int)
    requires
        v == whole * 10000 + frac,
        0 <= whole,
        0 <= frac < 10000,
    ensures
        v / 10000 == whole,
        (v / 1000) % 10 == (frac / 1000) % 10,
        (v / 100) % 10 == (frac / 100) % 10,
        (v / 10) % 10 == (frac / 10) % 10,
        v % 10 == frac % 10,
{
    lemma_fundamental_div_mod_converse(v, 10000, whole, frac);
    lemma_digit(v, whole, frac, 1000, 1);
    lemma_digit(v, whole, frac, 100, 10);
    lemma_digit(v, whole, frac, 10, 100);
    lemma_digit(v, whole, frac, 1, 1000);
}

/// The whole part and the four digits behind the mark of a fraction,
/// rounded.
fn rounded_parts(r: Ratio) -> (p: (u128, u128))
    requires
        writable(r),
    ensures
        p.1 < 10000,
        ten_thousandths(r.num as int, r.den as int) == p.0 * 10000 + p.1,
{
    let a: u128 = if r.num < 0 {
        if r.num == -0x8000_0000_0000_0000_0000_0000_0000_0000 {
            0x8000_0000_0000_0000_0000_0000_0000_0000
        } else {
            (-r.num) as u128
        }
    } else {
        r.num as u128
    };
    let d: u128 = r.den as u128;
    let q: u128 = a / d;
    let rest: u128 = a % d;
    let scaled: u128 = rest * 10000;
    let f: u128 = scaled / d;
    let left: u128 = scaled % d;
    proof {
        lemma_scaled_division(a as int, d as int, q as int, rest as int, f as int, left as int);
    }
    let up = 2 * left > d || (2 * left == d && f % 2 == 1);
    if up {
        if f + 1 == 10000 {
            (q + 1, 0)
        } else {
            (q, f + 1)
        }
    } else {
        (q, f)
    }
}

/// Writes a fraction as a decimal number with four digits behind the mark,
/// which is a comma where `comma_float` holds and a point where not.
pub fn format_ratio(r: Ratio, comma_float: bool) -> (text: String)
    requires
        writable(r),
    ensures
        text@ == ratio_text(r, comma_float),
{
    let (whole, frac) = rounded_parts(r);
    proof {
        lemma_parts(ten_thousandths(r.num as int, r.den as int), whole as int, frac as int);
    }
    let mut buf: Vec<char> = Vec::new();
    if r.num < 0 {
        buf.push('-');
    }
    let ghost sign = buf@;
    push_wide_decimal(&mut buf, whole);
    buf.push(if comma_float {
        ','
    } else {
        '.'
    });
    buf.push(digit_of(((frac / 1000) % 10) as usize));
    buf.push(digit_of(((frac / 100) % 10) as usize));
    buf.push(digit_of(((frac / 10) % 10) as usize));
    buf.push(digit_of((frac % 10) as usize));
    proof {
        assert(buf@ =~= sign + fixed_four(
            ten_thousandths(r.num as int, r.den as int),
            comma_float,
        ));
    }
    string_of(&buf)
}

/// Writes a cell: the fraction as a decimal number, or `absent` where there
/// is none.
pub fn format_cell(cell: Option<Ratio>, comma_float: bool, absent: &str) -> (text: String)
    requires
        cell matches Some(r) ==> writable(r),
    ensures
        text@ == cell_text(cell, comma_float, absent@),
{
    match cell {
        Some(r) => format_ratio(r, comma_float),
        None => absent.to_owned(),
    }
}

} // verus!
