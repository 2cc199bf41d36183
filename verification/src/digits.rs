//! Decimal rendering of integers, used for identifier file names and for
//! error messages that carry the offending value.

use vstd::prelude::*;

verus! {

/// The character for a single decimal digit.
pub open spec fn digit_char(d: int) -> char {
    if d == 0 {
        '0'
    } else if d == 1 {
        '1'
    } else if d == 2 {
        '2'
    } else if d == 3 {
        '3'
    } else if d == 4 {
        '4'
    } else if d == 5 {
        '5'
    } else if d == 6 {
        '6'
    } else if d == 7 {
        '7'
    } else if d == 8 {
        '8'
    } else {
        '9'
    }
}

/// The usual decimal rendering of a non-negative integer, most significant
/// digit first, with no leading zeros (except for zero itself).
pub open spec fn dec_rep(n: int) -> Seq<char>
    recommends
        n >= 0,
    decreases n,
{
    if n < 10 {
        seq![digit_char(n)]
    } else {
        dec_rep(n / 10).push(digit_char(n % 10))
    }
}

/// The decimal rendering of a signed integer: a minus sign for negative
/// values, then the digits of the absolute value.
pub open spec fn signed_dec_rep(n: int) -> Seq<char> {
    if n < 0 {
        seq!['-'].add(dec_rep(-n))
    } else {
        dec_rep(n)
    }
}

fn digit_str(d: u8) -> (r: &'static str)
    requires
        d < 10,
    ensures
        r@ == seq![digit_char(d as int)],
{
    proof {
        reveal_strlit("0");
        reveal_strlit("1");
        reveal_strlit("2");
        reveal_strlit("3");
        reveal_strlit("4");
        reveal_strlit("5");
        reveal_strlit("6");
        reveal_strlit("7");
        reveal_strlit("8");
        reveal_strlit("9");
    }
    let r = match d {
        0 => "0",
        1 => "1",
        2 => "2",
        3 => "3",
        4 => "4",
        5 => "5",
        6 => "6",
        7 => "7",
        8 => "8",
        _ => "9",
    };
    proof {
        assert(r@ =~= seq![digit_char(d as int)]);
    }
    r
}

/// Renders an unsigned 128-bit integer in decimal.
pub fn u128_to_decimal(n: u128) -> (s: String)
    ensures
        s@ == dec_rep(n as int),
    decreases n,
{
    if n < 10 {
        let s = digit_str(n as u8).to_owned();
        proof {
            assert(s@ =~= dec_rep(n as int));
        }
        s
    } else {
        let s = u128_to_decimal(n / 10).concat(digit_str((n % 10) as u8));
        proof {
            assert(s@ =~= dec_rep(n as int));
        }
        s
    }
}

/// Renders a signed 64-bit integer in decimal, with a leading minus sign
/// for negative values.
pub fn i64_to_decimal(n: i64) -> (s: String)
    ensures
        s@ == signed_dec_rep(n as int),
{
    if n < 0 {
        let mag: u128 = if n == i64::MIN {
            9223372036854775808u128
        } else {
            (-n) as u128
        };
        assert(mag == -(n as int));
        let digits = u128_to_decimal(mag);
        let s = "-".to_owned().concat(digits.as_str());
        proof {
            reveal_strlit("-");
            assert(s@ =~= signed_dec_rep(n as int));
        }
        s
    } else {
        let s = u128_to_decimal(n as u128);
        proof {
            assert(s@ =~= signed_dec_rep(n as int));
        }
        s
    }
}

} // verus!
