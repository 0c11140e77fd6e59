//! Integers written in decimal.

use vstd::prelude::*;
use vstd::string::*;
use crate::text::push_char;

verus! {

/// The character of a decimal digit.
pub open spec fn digit_char(d: int) -> char {
    (('0' as u8 + d) as u8) as char
}

/// A natural number in decimal, without leading zeros.
pub open spec fn decimal_of(n: nat) -> Seq<char>
    decreases n,
{
    if n < 10 {
        seq![digit_char(n as int)]
    } else {
        decimal_of(n / 10).push(digit_char((n % 10) as int))
    }
}

/// An integer in decimal, with a `-` before a negative one.
pub open spec fn signed_decimal_of(i: int) -> Seq<char> {
    if i < 0 {
        seq!['-'] + decimal_of((-i) as nat)
    } else {
        decimal_of(i as nat)
    }
}

/// Appends `n` in decimal to `s`.
pub fn push_decimal(s: &mut String, n: u64)
    ensures
        final(s)@ == old(s)@ + decimal_of(n as nat),
    decreases n,
{
    if n >= 10 {
        push_decimal(s, n / 10);
    }
    let d: u8 = (n % 10) as u8;
    push_char(s, (48u8 + d) as char);
    proof {
        if n >= 10 {
            assert(final(s)@ =~= old(s)@ + decimal_of(n as nat));
        } else {
            assert(final(s)@ =~= old(s)@ + decimal_of(n as nat));
        }
    }
}

/// `i` in decimal.
pub fn i32_to_string(i: i32) -> (s: String)
    ensures
        s@ == signed_decimal_of(i as int),
{
    let mut s = String::new();
    if i < 0 {
        push_char(&mut s, '-');
        let magnitude: u64 = (-(i as i64)) as u64;
        push_decimal(&mut s, magnitude);
        proof {
            assert(s@ =~= seq!['-'] + decimal_of((-i) as nat));
        }
    } else {
        push_decimal(&mut s, i as u64);
        proof {
            assert(Seq::<char>::empty() + decimal_of(i as nat) =~= decimal_of(i as nat));
        }
    }
    s
}

} // verus!
