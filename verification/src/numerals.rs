//! Decimal numerals: the digit string of a number, most significant digit
//! first, as used in display names.

use vstd::prelude::*;
use vstd::arithmetic::div_mod::lemma_fundamental_div_mod;

verus! {

/// The character of one decimal digit.
pub open spec fn dec_digit(d: nat) -> char
    recommends
        d < 10,
{
    if d == 0 {
        '0'
    } else if d == 1 {
        '1'
    } else if d == 2 {
        '2'
    } else if d == 3 {
        '3'
    } else if d == 4 {
        '4'
    } else if d == 5 {
        '5'
    } else if d == 6 {
        '6'
    } else if d == 7 {
        '7'
    } else if d == 8 {
        '8'
    } else {
        '9'
    }
}

/// The decimal digit string of `n`, most significant digit first, with no
/// leading zeros (`0` is written as one digit).
pub open spec fn dec_digits(n: nat) -> Seq<char>
    decreases n,
{
    if n < 10 {
        seq![dec_digit(n)]
    } else {
        dec_digits(n / 10) + seq![dec_digit(n % 10)]
    }
}

pub(crate) fn dec_digit_exec(d: u64) -> (c: char)
    requires
        d < 10,
    ensures
        c == dec_digit(d as nat),
{
    match d {
        0 => '0',
        1 => '1',
        2 => '2',
        3 => '3',
        4 => '4',
        5 => '5',
        6 => '6',
        7 => '7',
        8 => '8',
        _ => '9',
    }
}

/// Appends the decimal digit string of `n` to `out`.
pub fn push_dec_digits(out: &mut Vec<char>, n: u64)
    ensures
        final(out)@ == old(out)@ + dec_digits(n as nat),
    decreases n,
{
    if n < 10 {
        out.push(dec_digit_exec(n));
        assert(final(out)@ =~= old(out)@ + dec_digits(n as nat));
    } else {
        proof {
            lemma_fundamental_div_mod(n as int, 10);
        }
        push_dec_digits(out, n / 10);
        out.push(dec_digit_exec(n % 10));
        assert(final(out)@ =~= old(out)@ + dec_digits(n as nat));
    }
}

/// The decimal digit string of `n` as a character vector.
pub fn u64_dec_chars(n: u64) -> (r: Vec<char>)
    ensures
        r@ == dec_digits(n as nat),
{
    let mut r: Vec<char> = Vec::new();
    push_dec_digits(&mut r, n);
    assert(r@ =~= dec_digits(n as nat));
    r
}

} // verus!
