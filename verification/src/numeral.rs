//! Decimal rendering of the numeric query parameters, with its
//! mathematical definition and the round-trip back to the number.

use vstd::prelude::*;
use crate::strutil::push_char;

verus! {

/// The decimal digit character for `d` (meaningful for `d < 10`).
pub open spec fn digit_char(d: nat) -> char {
    if d == 0 {
        '0'
    } else if d == 1 {
        '1'
    } else if d == 2 {
        '2'
    } else if d == 3 {
        '3'
    } else if d == 4 {
        '4'
    } else if d == 5 {
        '5'
    } else if d == 6 {
        '6'
    } else if d == 7 {
        '7'
    } else if d == 8 {
        '8'
    } else {
        '9'
    }
}

/// Whether `c` is a decimal digit character.
pub open spec fn is_digit(c: char) -> bool {
    '0' <= c && c <= '9'
}

/// The decimal representation of `n`, most significant digit first,
/// with no leading zeros (`0` is rendered as `"0"`).
pub open spec fn dec_str(n: nat) -> Seq<char>
    decreases n,
{
    if n < 10 {
        seq![digit_char(n)]
    } else {
        proof {
            assert(10 <= n ==> n / 10 < n) by (nonlinear_arith);
        }
        dec_str(n / 10).push(digit_char(n % 10))
    }
}

/// The number denoted by a sequence of digit characters, read in base 10.
pub open spec fn dec_value(s: Seq<char>) -> nat
    decreases s.len(),
{
    if s.len() == 0 {
        0
    } else {
        dec_value(s.drop_last()) * 10 + digit_value(s.last())
    }
}

/// The numeric value of one digit character (meaningful for digits).
pub open spec fn digit_value(c: char) -> nat {
    if c == '0' {
        0
    } else if c == '1' {
        1
    } else if c == '2' {
        2
    } else if c == '3' {
        3
    } else if c == '4' {
        4
    } else if c == '5' {
        5
    } else if c == '6' {
        6
    } else if c == '7' {
        7
    } else if c == '8' {
        8
    } else {
        9
    }
}

/// Every character of a decimal rendering is a digit, and the rendering
/// is never empty.
pub proof fn lemma_dec_str_digits(n: nat)
    ensures
        dec_str(n).len() >= 1,
        forall|k: int| 0 <= k < dec_str(n).len() ==> is_digit(#[trigger] dec_str(n)[k]),
    decreases n,
{
    if n < 10 {
    } else {
        assert(10 <= n ==> n / 10 < n) by (nonlinear_arith);
        lemma_dec_str_digits(n / 10);
        assert(dec_str(n) == dec_str(n / 10).push(digit_char(n % 10)));
        assert forall|k: int| 0 <= k < dec_str(n).len() implies is_digit(#[trigger] dec_str(n)[k]) by {
            if k < dec_str(n / 10).len() {
                assert(dec_str(n)[k] == dec_str(n / 10)[k]);
            }
        }
    }
}

/// Reading a decimal rendering back recovers the number.
pub proof fn lemma_dec_round_trip(n: nat)
    ensures
        dec_value(dec_str(n)) == n,
    decreases n,
{
    if n < 10 {
        let s = seq![digit_char(n)];
        assert(dec_str(n) == s);
        assert(s.drop_last() =~= Seq::<char>::empty());
        assert(dec_value(s.drop_last()) == 0);
        assert(s.last() == digit_char(n));
        assert(digit_value(digit_char(n)) == n);
        assert(dec_value(s) == 0 * 10 + digit_value(digit_char(n)));
    } else {
        assert(10 <= n ==> n / 10 < n) by (nonlinear_arith);
        lemma_dec_round_trip(n / 10);
        let s = dec_str(n / 10).push(digit_char(n % 10));
        assert(dec_str(n) == s);
        assert(s.drop_last() =~= dec_str(n / 10));
        assert(dec_value(s.drop_last()) == n / 10);
        assert(s.last() == digit_char(n % 10));
        assert(digit_value(digit_char(n % 10)) == n % 10);
        assert(dec_value(s) == dec_value(s.drop_last()) * 10 + digit_value(s.last()));
        assert(n / 10 * 10 + n % 10 == n) by (nonlinear_arith);
    }
}

/// The one digit character for `d`.
fn exec_digit_char(d: u64) -> (r: char)
    requires
        d < 10,
    ensures
        r == digit_char(d as nat),
{
    if d == 0 {
        '0'
    } else if d == 1 {
        '1'
    } else if d == 2 {
        '2'
    } else if d == 3 {
        '3'
    } else if d == 4 {
        '4'
    } else if d == 5 {
        '5'
    } else if d == 6 {
        '6'
    } else if d == 7 {
        '7'
    } else if d == 8 {
        '8'
    } else {
        '9'
    }
}

/// Renders `n` in decimal.
pub fn u64_to_dec(n: u64) -> (r: String)
    ensures
        r@ == dec_str(n as nat),
    decreases n,
{
    if n < 10 {
        let mut r = String::new();
        push_char(&mut r, exec_digit_char(n));
        assert(r@ =~= seq![digit_char(n as nat)]);
        r
    } else {
        let mut r = u64_to_dec(n / 10);
        push_char(&mut r, exec_digit_char(n % 10));
        r
    }
}

} // verus!
