//! Textual rendering of numbers: decimal digits for whole numbers, and a
//! `numerator/denominator` form for the other rationals.

use vstd::prelude::*;
use crate::rational::{nabs, Num, Rat};

verus! {

/// The decimal digit character for `n` (meaningful for `0 <= n <= 9`).
pub open spec fn spec_digit(n: nat) -> char {
    if n == 0 {
        '0'
    } else if n == 1 {
        '1'
    } else if n == 2 {
        '2'
    } else if n == 3 {
        '3'
    } else if n == 4 {
        '4'
    } else if n == 5 {
        '5'
    } else if n == 6 {
        '6'
    } else if n == 7 {
        '7'
    } else if n == 8 {
        '8'
    } else {
        '9'
    }
}

/// The decimal digit string of a natural number, most significant first,
/// without leading zeroes (`0` itself is the single digit `0`).
pub open spec fn spec_nat_str(n: nat) -> Seq<char>
    decreases n,
{
    if n < 10 {
        seq![spec_digit(n)]
    } else {
        spec_nat_str(n / 10).push(spec_digit(n % 10))
    }
}

/// The decimal string of an integer: a `-` sign for negative values, then
/// the digits of the magnitude.
pub open spec fn spec_int_str(x: int) -> Seq<char> {
    if x < 0 {
        seq!['-'] + spec_nat_str(nabs(x))
    } else {
        spec_nat_str(nabs(x))
    }
}

/// The rendering of a rational: the plain integer when the denominator is 1,
/// otherwise `numerator/denominator` of the reduced fraction.
pub open spec fn spec_num_str(r: Rat) -> Seq<char> {
    if r.d == 1 {
        spec_int_str(r.n)
    } else {
        spec_int_str(r.n) + seq!['/'] + spec_nat_str(r.d as nat)
    }
}

/// Relies on `String::push`: appends exactly the one character given.
#[verifier::external_body]
pub(crate) fn push_char(s: &mut String, c: char)
    ensures
        final(s)@ == old(s)@.push(c),
{
    s.push(c);
}

/// The character for one decimal digit.
fn digit_char(n: u64) -> (c: char)
    requires
        n <= 9,
    ensures
        c == spec_digit(n as nat),
{
    match n {
        0 => '0',
        1 => '1',
        2 => '2',
        3 => '3',
        4 => '4',
        5 => '5',
        6 => '6',
        7 => '7',
        8 => '8',
        _ => '9',
    }
}

/// Appends the decimal digits of `n` to `out`.
fn push_nat_digits(out: &mut String, n: u64)
    ensures
        final(out)@ == old(out)@ + spec_nat_str(n as nat),
    decreases n,
{
    if n < 10 {
        push_char(out, digit_char(n));
        proof {
            assert(final(out)@ =~= old(out)@ + spec_nat_str(n as nat));
        }
    } else {
        push_nat_digits(out, n / 10);
        push_char(out, digit_char(n % 10));
        proof {
            assert(final(out)@ =~= old(out)@ + spec_nat_str(n as nat));
        }
    }
}

/// Appends the decimal form of `x`, sign included, to `out`.
fn push_int_digits(out: &mut String, x: i64)
    ensures
        final(out)@ == old(out)@ + spec_int_str(x as int),
{
    if x < 0 {
        push_char(out, '-');
        let mag: u64 = if x == i64::MIN {
            9223372036854775808u64
        } else {
            (-x) as u64
        };
        push_nat_digits(out, mag);
        proof {
            assert(final(out)@ =~= old(out)@ + spec_int_str(x as int));
        }
    } else {
        push_nat_digits(out, x as u64);
    }
}

/// The textual form of a number: `12`, `-3`, or a reduced fraction `3/2`.
pub fn num_to_string(x: &Num) -> (s: String)
    ensures
        s@ == spec_num_str(x@),
{
    let mut out = String::new();
    let n = x.numerator();
    let d = x.denominator();
    push_int_digits(&mut out, n);
    if d != 1 {
        push_char(&mut out, '/');
        push_nat_digits(&mut out, d);
        proof {
            assert(out@ =~= spec_num_str(x@));
        }
    }
    out
}

} // verus!
