//! Reading decimal integers the way `str::parse` does for Rust's integer
//! types: an optional sign followed by one or more ASCII digits, with the
//! value in the type's range.

use vstd::prelude::*;
use crate::text::chars_of;

verus! {

pub open spec fn is_digit(c: char) -> bool {
    '0' <= c && c <= '9'
}

/// The value of a run of ASCII digits.
pub open spec fn digits_value(s: Seq<char>) -> int
    decreases s.len(),
{
    if s.len() == 0 {
        0
    } else {
        digits_value(s.drop_last()) * 10 + (s.last() as int - '0' as int)
    }
}

pub open spec fn all_digits(s: Seq<char>) -> bool {
    forall|i: int| 0 <= i < s.len() ==> is_digit(#[trigger] s[i])
}

/// The sign and digits part of a number: `+` is always allowed in front,
/// `-` only when `min < 0`.
pub open spec fn sign_split(s: Seq<char>, min: int) -> (bool, Seq<char>) {
    if s.len() > 0 && s[0] == '+' {
        (false, s.drop_first())
    } else if s.len() > 0 && s[0] == '-' && min < 0 {
        (true, s.drop_first())
    } else {
        (false, s)
    }
}

/// The value of a sign and digits part, when in `min..=max`.
pub open spec fn int_of_body(neg: bool, body: Seq<char>, min: int, max: int) -> Option<int> {
    if body.len() == 0 || !all_digits(body) {
        None
    } else {
        let v = if neg { -digits_value(body) } else { digits_value(body) };
        if min <= v <= max { Some(v) } else { None }
    }
}

/// What `str::parse` gives for an integer type with values `min..=max`.
pub open spec fn parse_int(s: Seq<char>, min: int, max: int) -> Option<int> {
    int_of_body(sign_split(s, min).0, sign_split(s, min).1, min, max)
}

proof fn lemma_digits_value_nonneg(s: Seq<char>)
    requires
        all_digits(s),
    ensures
        digits_value(s) >= 0,
    decreases s.len(),
{
    if s.len() > 0 {
        assert(all_digits(s.drop_last())) by {
            assert forall|i: int| 0 <= i < s.drop_last().len() implies is_digit(#[trigger] s.drop_last()[i]) by {
                assert(s.drop_last()[i] == s[i]);
            }
        }
        lemma_digits_value_nonneg(s.drop_last());
        assert(is_digit(s[s.len() - 1]));
    }
}

proof fn lemma_digits_value_grows(s: Seq<char>, i: int)
    requires
        all_digits(s),
        0 <= i <= s.len(),
    ensures
        digits_value(s.take(i)) <= digits_value(s),
    decreases s.len() - i,
{
    if i < s.len() {
        lemma_digits_value_grows(s, i + 1);
        assert(s.take(i + 1).drop_last() =~= s.take(i));
        assert(all_digits(s.take(i))) by {
            assert forall|k: int| 0 <= k < s.take(i).len() implies is_digit(#[trigger] s.take(i)[k]) by {
                assert(s.take(i)[k] == s[k]);
            }
        }
        lemma_digits_value_nonneg(s.take(i));
        assert(is_digit(s.take(i + 1).last()));
    } else {
        assert(s.take(i) =~= s);
    }
}

/// Parses `s` as an integer in `min..=max`, as `str::parse` does.
pub fn parse_integer(s: &str, min: i64, max: i64) -> (res: Option<i64>)
    requires
        min <= 0 <= max,
    ensures
        (match res { Some(v) => Some(v as int), None => None }) == parse_int(s@, min as int, max as int),
{
    let v = chars_of(s);
    let n = v.len();
    let (neg, start): (bool, usize) = if n > 0 && v[0] == '+' {
        (false, 1)
    } else if n > 0 && v[0] == '-' && min < 0 {
        (true, 1)
    } else {
        (false, 0)
    };
    let ghost body = v@.skip(start as int);
    proof {
        if start == 1 {
            assert(body =~= v@.drop_first());
        } else {
            assert(body =~= v@);
        }
    }
    proof { assert(sign_split(s@, min as int) == (neg, body)); }
    if start >= n {
        proof { assert(body.len() == 0); }
        return None;
    }
    // The value, capped at 2^64 (larger than any bound allowed here).
    let cap: u128 = 0x1_0000_0000_0000_0000u128;
    let mut acc: u128 = 0;
    let mut i = start;
    proof { assert(body.take(0) =~= Seq::<char>::empty()); }
    while i < n
        invariant
            start < n,
            start <= i <= n,
            n == v@.len(),
            body == v@.skip(start as int),
            cap == 0x1_0000_0000_0000_0000u128,
            parse_int(s@, min as int, max as int) == int_of_body(neg, body, min as int, max as int),
            all_digits(body.take(i - start)),
            acc as int == if digits_value(body.take(i - start)) < cap { digits_value(body.take(i - start)) } else { cap as int },
        decreases n - i,
    {
        let c = v[i];
        let ghost pre = body.take(i - start);
        let ghost nxt = body.take(i + 1 - start);
        proof {
            assert(nxt.drop_last() =~= pre);
            assert(nxt.last() == c);
            assert(body[i - start] == c);
        }
        if !('0' <= c && c <= '9') {
            proof {
                assert(!is_digit(body[i - start]));
            }
            return None;
        }
        let d = (c as u32 - '0' as u32) as u128;
        proof {
            assert forall|k: int| 0 <= k < nxt.len() implies is_digit(#[trigger] nxt[k]) by {
                if k < nxt.len() - 1 {
                    assert(nxt[k] == pre[k]);
                }
            }
            lemma_digits_value_nonneg(pre);
            let dv = digits_value(pre);
            assert(digits_value(nxt) == dv * 10 + d);
            assert((if dv * 10 + d < cap { dv * 10 + d } else { cap as int })
                == (if acc * 10 + d < cap { acc * 10 + d } else { cap as int })) by (nonlinear_arith)
                requires
                    dv >= 0,
                    0 <= d <= 9,
                    acc as int == if dv < cap { dv } else { cap as int },
                    cap == 0x1_0000_0000_0000_0000u128;
        }
        let next = acc * 10 + d;
        acc = if next < cap { next } else { cap };
        i = i + 1;
    }
    proof { assert(body.take(n - start) =~= body); }
    if neg {
        if acc > (0i128 - min as i128) as u128 {
            return None;
        }
        Some((0i128 - acc as i128) as i64)
    } else {
        if acc > max as u128 {
            return None;
        }
        Some(acc as i64)
    }
}


/// Why `str::parse` rejects a text as an integer, as std's `IntErrorKind`
/// tells it.
#[derive(Clone, Copy, Debug, PartialEq, Eq, Structural)]
pub enum IntErrorKind {
    Empty,
    InvalidDigit,
    PosOverflow,
    NegOverflow,
}

/// The first failure met when the digits are read from left to right: a
/// character that is no digit, or a prefix whose value leaves `min..=max`.
pub open spec fn digits_failure(neg: bool, body: Seq<char>, min: int, max: int) -> Option<IntErrorKind>
    decreases body.len(),
{
    if body.len() == 0 {
        None
    } else {
        match digits_failure(neg, body.drop_last(), min, max) {
            Some(e) => Some(e),
            None => if !is_digit(body.last()) {
                Some(IntErrorKind::InvalidDigit)
            } else if neg && -digits_value(body) < min {
                Some(IntErrorKind::NegOverflow)
            } else if !neg && digits_value(body) > max {
                Some(IntErrorKind::PosOverflow)
            } else {
                None
            },
        }
    }
}

/// What `str::parse` gives for an integer type with values `min..=max`,
/// with the kind of error when it fails.
pub open spec fn parse_int_result(s: Seq<char>, min: int, max: int) -> Result<int, IntErrorKind> {
    let (neg, body) = sign_split(s, min);
    if s.len() == 0 {
        Err(IntErrorKind::Empty)
    } else if body.len() == 0 {
        Err(IntErrorKind::InvalidDigit)
    } else {
        match digits_failure(neg, body, min, max) {
            Some(e) => Err(e),
            None => Ok(if neg { -digits_value(body) } else { digits_value(body) }),
        }
    }
}

impl IntErrorKind {
    /// The message std's `ParseIntError` displays for this kind.
    pub open spec fn text(self) -> Seq<char> {
        match self {
            IntErrorKind::Empty => "cannot parse integer from empty string"@,
            IntErrorKind::InvalidDigit => "invalid digit found in string"@,
            IntErrorKind::PosOverflow => "number too large to fit in target type"@,
            IntErrorKind::NegOverflow => "number too small to fit in target type"@,
        }
    }

    /// The message std's `ParseIntError` displays for this kind.
    pub fn message(&self) -> (res: String)
        ensures
            res@ == self.text(),
    {
        match self {
            IntErrorKind::Empty => String::from_str("cannot parse integer from empty string"),
            IntErrorKind::InvalidDigit => String::from_str("invalid digit found in string"),
            IntErrorKind::PosOverflow => String::from_str("number too large to fit in target type"),
            IntErrorKind::NegOverflow => String::from_str("number too small to fit in target type"),
        }
    }
}

/// Parses `s` as an integer in `min..=max`, as `str::parse` does, telling
/// why it fails.
pub fn parse_integer_checked(s: &str, min: i64, max: i64) -> (res: Result<i64, IntErrorKind>)
    requires
        min <= 0 <= max,
    ensures
        (match res { Ok(v) => Ok(v as int), Err(e) => Err(e) }) == parse_int_result(s@, min as int, max as int),
{
    let v = chars_of(s);
    let n = v.len();
    if n == 0 {
        return Err(IntErrorKind::Empty);
    }
    let (neg, start): (bool, usize) = if v[0] == '+' {
        (false, 1)
    } else if v[0] == '-' && min < 0 {
        (true, 1)
    } else {
        (false, 0)
    };
    let ghost body = v@.skip(start as int);
    proof {
        if start == 1 {
            assert(body =~= v@.drop_first());
        } else {
            assert(body =~= v@);
        }
        assert(sign_split(s@, min as int) == (neg, body));
    }
    if start >= n {
        return Err(IntErrorKind::InvalidDigit);
    }
    let bound: u128 = if neg { (0i128 - min as i128) as u128 } else { max as u128 };
    let mut acc: u128 = 0;
    let mut i = start;
    proof { assert(body.take(0) =~= Seq::<char>::empty()); }
    while i < n
        invariant
            start < n,
            start <= i <= n,
            n == v@.len(),
            body == v@.skip(start as int),
            body.len() > 0,
            s@.len() > 0,
            sign_split(s@, min as int) == (neg, body),
            bound as int == if neg { -(min as int) } else { max as int },
            bound <= 0x8000_0000_0000_0000u128,
            digits_failure(neg, body.take(i - start), min as int, max as int) is None,
            all_digits(body.take(i - start)),
            acc as int == digits_value(body.take(i - start)),
            acc <= bound,
        decreases n - i,
    {
        let c = v[i];
        let ghost pre = body.take(i - start);
        let ghost nxt = body.take(i + 1 - start);
        proof {
            assert(nxt.drop_last() =~= pre);
            assert(nxt.last() == c);
            assert(body[i - start] == c);
        }
        if !('0' <= c && c <= '9') {
            proof {
                assert(digits_failure(neg, nxt, min as int, max as int) == Some(IntErrorKind::InvalidDigit));
                lemma_failure_extends(neg, body, (i + 1 - start) as int, min as int, max as int);
            }
            return Err(IntErrorKind::InvalidDigit);
        }
        let d = (c as u32 - '0' as u32) as u128;
        let next = acc * 10 + d;
        proof {
            assert forall|k: int| 0 <= k < nxt.len() implies is_digit(#[trigger] nxt[k]) by {
                if k < nxt.len() - 1 {
                    assert(nxt[k] == pre[k]);
                }
            }
            assert(digits_value(nxt) == next as int);
        }
        if next > bound {
            proof {
                if neg {
                    assert(digits_failure(neg, nxt, min as int, max as int) == Some(IntErrorKind::NegOverflow));
                } else {
                    assert(digits_failure(neg, nxt, min as int, max as int) == Some(IntErrorKind::PosOverflow));
                }
                lemma_failure_extends(neg, body, (i + 1 - start) as int, min as int, max as int);
            }
            if neg {
                return Err(IntErrorKind::NegOverflow);
            } else {
                return Err(IntErrorKind::PosOverflow);
            }
        }
        acc = next;
        i = i + 1;
    }
    proof { assert(body.take(n - start) =~= body); }
    if neg {
        Ok((0i128 - acc as i128) as i64)
    } else {
        Ok(acc as i64)
    }
}

/// Once a prefix of the digits fails, the whole text fails the same way.
proof fn lemma_failure_extends(neg: bool, body: Seq<char>, k: int, min: int, max: int)
    requires
        0 <= k <= body.len(),
        digits_failure(neg, body.take(k), min, max) is Some,
    ensures
        digits_failure(neg, body, min, max) == digits_failure(neg, body.take(k), min, max),
    decreases body.len() - k,
{
    if k < body.len() {
        assert(body.take(k + 1).drop_last() =~= body.take(k));
        lemma_failure_extends(neg, body, k + 1, min, max);
    } else {
        assert(body.take(k) =~= body);
    }
}

/// A text that reads without failure is all digits.
proof fn lemma_no_failure_digits(neg: bool, body: Seq<char>, min: int, max: int)
    requires
        digits_failure(neg, body, min, max) is None,
    ensures
        all_digits(body),
    decreases body.len(),
{
    if body.len() > 0 {
        lemma_no_failure_digits(neg, body.drop_last(), min, max);
        assert forall|i: int| 0 <= i < body.len() implies is_digit(#[trigger] body[i]) by {
            if i < body.len() - 1 {
                assert(body[i] == body.drop_last()[i]);
            }
        }
    }
}

/// What `parse_int_result` reads lies in `min..=max`.
pub proof fn lemma_parse_int_result_range(s: Seq<char>, min: int, max: int)
    requires
        min <= 0 <= max,
        parse_int_result(s, min, max) is Ok,
    ensures
        parse_int_result(s, min, max) matches Ok(v) && min <= v <= max,
{
    let (neg, body) = sign_split(s, min);
    lemma_no_failure_digits(neg, body, min, max);
    lemma_digits_value_nonneg(body);
}

} // verus!
