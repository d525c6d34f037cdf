//! Decimal rendering of counter, gauge and histogram values.

use vstd::prelude::*;
use vstd::string::StringExecFns;

verus! {

/// The decimal digit character for a value below ten.
pub open spec fn dec_digit(d: u64) -> char {
    if d == 0 {
        '0'
    } else if d == 1 {
        '1'
    } else if d == 2 {
        '2'
    } else if d == 3 {
        '3'
    } else if d == 4 {
        '4'
    } else if d == 5 {
        '5'
    } else if d == 6 {
        '6'
    } else if d == 7 {
        '7'
    } else if d == 8 {
        '8'
    } else {
        '9'
    }
}

/// The decimal representation of a value: most significant digit first, no
/// sign, no leading zeros (a single zero for zero itself).
pub open spec fn dec_chars(v: u64) -> Seq<char>
    decreases v,
{
    if v < 10 {
        seq![dec_digit(v)]
    } else {
        dec_chars(v / 10).push(dec_digit(v % 10))
    }
}

/// The decimal string of a single digit.
fn digit_str(d: u64) -> (r: &'static str)
    requires
        d < 10,
    ensures
        r@ == seq![dec_digit(d)],
{
    proof {
        reveal_strlit("0");
        reveal_strlit("1");
        reveal_strlit("2");
        reveal_strlit("3");
        reveal_strlit("4");
        reveal_strlit("5");
        reveal_strlit("6");
        reveal_strlit("7");
        reveal_strlit("8");
        reveal_strlit("9");
    }
    if d == 0 {
        "0"
    } else if d == 1 {
        "1"
    } else if d == 2 {
        "2"
    } else if d == 3 {
        "3"
    } else if d == 4 {
        "4"
    } else if d == 5 {
        "5"
    } else if d == 6 {
        "6"
    } else if d == 7 {
        "7"
    } else if d == 8 {
        "8"
    } else {
        "9"
    }
}

/// Renders a value as its decimal string.
pub fn u64_to_string(v: u64) -> (r: String)
    ensures
        r@ == dec_chars(v),
    decreases v,
{
    if v < 10 {
        String::from_str(digit_str(v))
    } else {
        let high = u64_to_string(v / 10);
        let low = digit_str(v % 10);
        let r = high.concat(low);
        proof {
            assert(r@ =~= dec_chars(v));
        }
        r
    }
}

} // verus!
