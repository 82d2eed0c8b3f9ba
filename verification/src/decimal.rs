//! Decimal rendering of integers, as `Display` and `{:0w}` give it.

use vstd::prelude::*;

use crate::text::push_char;

verus! {

/// The character of a decimal digit.
pub open spec fn digit_char(d: int) -> char {
    (48 + d) as char
}

/// The decimal digits of `n`, most significant first, without leading zeros.
pub open spec fn decimal(n: nat) -> Seq<char>
    decreases n,
{
    if n < 10 {
        seq![digit_char(n as int)]
    } else {
        decimal(n / 10).push(digit_char((n % 10) as int))
    }
}

/// `i` as `Display` writes it: a `-` for negative values, then the digits.
pub open spec fn signed_decimal(i: int) -> Seq<char> {
    if i < 0 {
        seq!['-'] + decimal((-i) as nat)
    } else {
        decimal(i as nat)
    }
}

/// `s` with `0`s put in front until it is `w` characters long.
pub open spec fn pad_zeros(s: Seq<char>, w: int) -> Seq<char> {
    if s.len() >= w {
        s
    } else {
        Seq::new((w - s.len()) as nat, |k: int| '0') + s
    }
}

/// `i` as `{:0w}` writes it: zeros go between the sign and the digits.
pub open spec fn padded(i: int, w: int) -> Seq<char> {
    if i < 0 {
        seq!['-'] + pad_zeros(decimal((-i) as nat), w - 1)
    } else {
        pad_zeros(decimal(i as nat), w)
    }
}

fn digit(d: u128) -> (c: char)
    requires
        d < 10,
    ensures
        c == digit_char(d as int),
{
    ((d as u8) + 48u8) as char
}

/// Appends the decimal digits of `n` to `out`.
pub fn push_decimal(out: &mut String, n: u128)
    ensures
        final(out)@ == old(out)@ + decimal(n as nat),
    decreases n,
{
    if n < 10 {
        push_char(out, digit(n));
        assert(old(out)@.push(digit_char(n as int)) =~= old(out)@ + decimal(n as nat));
    } else {
        push_decimal(out, n / 10);
        push_char(out, digit(n % 10));
        assert(old(out)@ + decimal((n / 10) as nat) + seq![digit_char((n % 10) as int)]
            =~= old(out)@ + decimal(n as nat));
    }
}

/// Appends `i` as `Display` writes it.
pub fn push_signed(out: &mut String, i: i128)
    ensures
        final(out)@ == old(out)@ + signed_decimal(i as int),
{
    if i < 0 {
        push_char(out, '-');
        let mag: u128 = if i == i128::MIN {
            170141183460469231731687303715884105728u128
        } else {
            (-i) as u128
        };
        push_decimal(out, mag);
        assert(old(out)@.push('-') + decimal(mag as nat) =~= old(out)@ + (seq!['-'] + decimal(
            mag as nat,
        )));
    } else {
        push_decimal(out, i as u128);
    }
}

fn push_zeros(out: &mut String, k: usize)
    ensures
        final(out)@ == old(out)@ + Seq::new(k as nat, |j: int| '0'),
{
    for j in 0..k
        invariant
            out@ == old(out)@ + Seq::new(j as nat, |m: int| '0'),
    {
        push_char(out, '0');
        assert(old(out)@ + Seq::new(j as nat, |m: int| '0') + seq!['0'] =~= old(out)@ + Seq::new(
            (j + 1) as nat,
            |m: int| '0',
        ));
    }
}

/// `n` in decimal, as a `String`.
pub fn decimal_string(n: u128) -> (r: String)
    ensures
        r@ == decimal(n as nat),
{
    let mut s = String::new();
    push_decimal(&mut s, n);
    assert(Seq::<char>::empty() + decimal(n as nat) =~= decimal(n as nat));
    s
}

/// Appends `n` as `{:0w}` writes it.
pub fn push_padded(out: &mut String, n: u128, w: usize)
    ensures
        final(out)@ == old(out)@ + pad_zeros(decimal(n as nat), w as int),
{
    let digits = decimal_string(n);
    let len = crate::text::chars_of(digits.as_str()).len();
    if len < w {
        push_zeros(out, w - len);
    }
    crate::text::push_str(out, digits.as_str());
    proof {
        if len < w {
            assert(old(out)@ + Seq::new((w - len) as nat, |j: int| '0') + decimal(n as nat)
                =~= old(out)@ + pad_zeros(decimal(n as nat), w as int));
        } else {
            assert(pad_zeros(decimal(n as nat), w as int) == decimal(n as nat));
        }
    }
}

/// Appends `i` as `{:0w}` writes it.
pub fn push_padded_signed(out: &mut String, i: i64, w: usize)
    requires
        w >= 1,
    ensures
        final(out)@ == old(out)@ + padded(i as int, w as int),
{
    if i < 0 {
        push_char(out, '-');
        let mag: u128 = if i == i64::MIN {
            9223372036854775808u128
        } else {
            (-i) as u128
        };
        push_padded(out, mag, w - 1);
        assert(old(out)@.push('-') + pad_zeros(decimal(mag as nat), w - 1) =~= old(out)@ + padded(
            i as int,
            w as int,
        ));
    } else {
        push_padded(out, i as u128, w);
    }
}

} // verus!
