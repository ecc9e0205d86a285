//! Decimal rendering of integers, with zero padding.

use vstd::prelude::*;
use crate::text::push_char;

verus! {

/// The character of a decimal digit.
pub open spec fn digit_char(d: int) -> char {
    if d == 0 { '0' } else if d == 1 { '1' } else if d == 2 { '2' } else if d == 3 { '3' }
    else if d == 4 { '4' } else if d == 5 { '5' } else if d == 6 { '6' } else if d == 7 { '7' }
    else if d == 8 { '8' } else { '9' }
}

/// The decimal digits of `n`, without leading zeros ("0" for zero).
pub open spec fn digits(n: nat) -> Seq<char>
    decreases n,
{
    if n < 10 {
        seq![digit_char(n as int)]
    } else {
        digits(n / 10).push(digit_char((n % 10) as int))
    }
}

/// `s` with zeros in front until it is at least `width` long.
pub open spec fn zero_pad(s: Seq<char>, width: nat) -> Seq<char> {
    if s.len() >= width {
        s
    } else {
        Seq::new((width - s.len()) as nat, |i: int| '0') + s
    }
}

/// What `format!("{:0w$}", n)` gives for an integer `n`: the sign, when
/// negative, counts toward the width.
pub open spec fn std_padded(n: int, width: nat) -> Seq<char> {
    if n >= 0 {
        zero_pad(digits(n as nat), width)
    } else {
        seq!['-'] + zero_pad(digits((-n) as nat), if width >= 1 { (width - 1) as nat } else { 0 })
    }
}

pub fn digit_of(d: u64) -> (c: char)
    requires
        d < 10,
    ensures
        c == digit_char(d as int),
{
    if d == 0 { '0' } else if d == 1 { '1' } else if d == 2 { '2' } else if d == 3 { '3' }
    else if d == 4 { '4' } else if d == 5 { '5' } else if d == 6 { '6' } else if d == 7 { '7' }
    else if d == 8 { '8' } else { '9' }
}

/// Appends the decimal digits of `n` to `s`.
pub fn push_digits(s: &mut String, n: u64)
    ensures
        final(s)@ == old(s)@ + digits(n as nat),
    decreases n,
{
    if n < 10 {
        push_char(s, digit_of(n));
    } else {
        push_digits(s, n / 10);
        push_char(s, digit_of(n % 10));
    }
}

/// Appends `n` in decimal, zero-padded to `width` characters.
pub fn push_zero_padded(s: &mut String, n: u64, width: usize)
    ensures
        final(s)@ == old(s)@ + zero_pad(digits(n as nat), width as nat),
{
    let mut body = String::new();
    push_digits(&mut body, n);
    let ghost ds = digits(n as nat);
    assert(body@ == ds);
    let len = body.unicode_len();
    let mut i: usize = len;
    let ghost start = s@;
    while i < width
        invariant
            len == ds.len(),
            len <= i,
            i <= width || len > width,
            len >= width ==> i == len,
            s@ == start + Seq::new((i - len) as nat, |k: int| '0'),
        decreases width - i,
    {
        push_char(s, '0');
        assert(Seq::new((i + 1 - len) as nat, |k: int| '0') =~= Seq::new((i - len) as nat, |k: int| '0').push('0'));
        i = i + 1;
    }
    s.append(body.as_str());
    if len >= width {
        assert(Seq::new((i - len) as nat, |k: int| '0') =~= Seq::<char>::empty());
        assert(s@ =~= start + ds);
    } else {
        assert(s@ =~= start + (Seq::new((width - len) as nat, |k: int| '0') + ds));
    }
}

/// Appends `n` as `format!("{:0w$}", n)` renders it.
pub fn push_std_padded(s: &mut String, n: i64, width: usize)
    requires
        n > i64::MIN,
    ensures
        final(s)@ == old(s)@ + std_padded(n as int, width as nat),
{
    let ghost start = s@;
    if n >= 0 {
        push_zero_padded(s, n as u64, width);
    } else {
        push_char(s, '-');
        let w = if width >= 1 { width - 1 } else { 0 };
        push_zero_padded(s, (-n) as u64, w);
        assert(s@ =~= start + (seq!['-'] + zero_pad(digits((-n) as nat), w as nat)));
    }
}

} // verus!
