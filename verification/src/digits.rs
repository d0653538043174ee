//! Decimal rendering of the numbers that make up a date path.

use vstd::prelude::*;

verus! {

/// The character for one decimal digit.
pub open spec fn digit_char(d: int) -> char
    recommends
        0 <= d <= 9,
{
    if d == 0 {
        '0'
    } else if d == 1 {
        '1'
    } else if d == 2 {
        '2'
    } else if d == 3 {
        '3'
    } else if d == 4 {
        '4'
    } else if d == 5 {
        '5'
    } else if d == 6 {
        '6'
    } else if d == 7 {
        '7'
    } else if d == 8 {
        '8'
    } else {
        '9'
    }
}

/// Decimal representation of a non-negative number, most significant digit
/// first, without leading zeros (except for the number zero itself).
pub open spec fn dec_rep(n: nat) -> Seq<char>
    decreases n,
{
    if n < 10 {
        seq![digit_char(n as int)]
    } else {
        dec_rep(n / 10).push(digit_char((n % 10) as int))
    }
}

/// Decimal representation of an integer: a leading '-' when negative.
pub open spec fn int_rep(i: int) -> Seq<char> {
    if i < 0 {
        seq!['-'] + dec_rep((-i) as nat)
    } else {
        dec_rep(i as nat)
    }
}

/// Two-digit representation: one leading zero pads a single digit.
pub open spec fn two_digit_rep(n: nat) -> Seq<char>
    recommends
        n < 100,
{
    if n < 10 {
        seq!['0'] + dec_rep(n)
    } else {
        dec_rep(n)
    }
}

/// The string for one decimal digit.
fn digit_str(d: u64) -> (r: &'static str)
    requires
        d <= 9,
    ensures
        r@ == seq![digit_char(d as int)],
{
    let r: &'static str = if d == 0 {
        "0"
    } else if d == 1 {
        "1"
    } else if d == 2 {
        "2"
    } else if d == 3 {
        "3"
    } else if d == 4 {
        "4"
    } else if d == 5 {
        "5"
    } else if d == 6 {
        "6"
    } else if d == 7 {
        "7"
    } else if d == 8 {
        "8"
    } else {
        "9"
    };
    proof {
        reveal_strlit("0");
        reveal_strlit("1");
        reveal_strlit("2");
        reveal_strlit("3");
        reveal_strlit("4");
        reveal_strlit("5");
        reveal_strlit("6");
        reveal_strlit("7");
        reveal_strlit("8");
        reveal_strlit("9");
        assert(r@ =~= seq![digit_char(d as int)]);
    }
    r
}

/// Renders `n` in decimal.
pub fn u64_to_string(n: u64) -> (r: String)
    ensures
        r@ == dec_rep(n as nat),
    decreases n,
{
    if n < 10 {
        String::from_str(digit_str(n))
    } else {
        let mut r = u64_to_string(n / 10);
        r.append(digit_str(n % 10));
        proof {
            assert(r@ =~= dec_rep(n as nat));
        }
        r
    }
}

/// Renders `i` in decimal, with a leading '-' when negative.
pub fn i64_to_string(i: i64) -> (r: String)
    ensures
        r@ == int_rep(i as int),
{
    if i < 0 {
        let mut r = String::from_str("-");
        // widen before negating: `-i64::MIN` does not fit in an i64
        let mag = (-(i as i128)) as u64;
        r.append(u64_to_string(mag).as_str());
        proof {
            reveal_strlit("-");
            assert(r@ =~= int_rep(i as int));
        }
        r
    } else {
        u64_to_string(i as u64)
    }
}

/// Renders `n` with at least two digits, zero-padded.
pub fn two_digit_string(n: u64) -> (r: String)
    requires
        n < 100,
    ensures
        r@ == two_digit_rep(n as nat),
{
    if n < 10 {
        let mut r = String::from_str("0");
        r.append(digit_str(n));
        proof {
            reveal_strlit("0");
            assert(r@ =~= two_digit_rep(n as nat));
        }
        r
    } else {
        u64_to_string(n)
    }
}

} // verus!
