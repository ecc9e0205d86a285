//! Character-level string helpers with exact contracts.

use vstd::prelude::*;
use vstd::std_specs::iter::IteratorSpec;

verus! {

/// The characters of `s`, in order.
pub fn chars_of(s: &str) -> (res: Vec<char>)
    ensures
        res@ == s@,
{
    let mut res: Vec<char> = Vec::new();
    for c in iter: s.chars()
        invariant
            res@ == iter.seq().take(iter.index() as int),
    {
        res.push(c);
    }
    res
}

/// std's `String::push`: appends one character to `s`.
#[verifier::external_body]
pub(crate) fn push_char(s: &mut String, c: char)
    ensures
        final(s)@ == old(s)@.push(c),
{
    s.push(c);
}

/// The string whose characters are `v`.
pub fn string_of(v: &[char]) -> (res: String)
    ensures
        res@ == v@,
{
    let mut res = String::new();
    let mut i: usize = 0;
    while i < v.len()
        invariant
            i <= v@.len(),
            res@ == v@.subrange(0, i as int),
        decreases v@.len() - i,
    {
        push_char(&mut res, v[i]);
        assert(v@.subrange(0, i + 1) == v@.subrange(0, i as int).push(v@[i as int]));
        i = i + 1;
    }
    assert(v@.subrange(0, v@.len() as int) == v@);
    res
}

/// True when `s` begins with `prefix`.
pub fn starts_with(s: &str, prefix: &str) -> (res: bool)
    ensures
        res == (prefix@.len() <= s@.len() && s@.subrange(0, prefix@.len() as int) == prefix@),
{
    let a = chars_of(s);
    let b = chars_of(prefix);
    if b.len() > a.len() {
        return false;
    }
    let mut i: usize = 0;
    while i < b.len()
        invariant
            a@ == s@,
            b@ == prefix@,
            b@.len() <= a@.len(),
            i <= b@.len(),
            forall|k: int| 0 <= k < i ==> a@[k] == b@[k],
        decreases b@.len() - i,
    {
        if a[i] != b[i] {
            assert(a@.subrange(0, b@.len() as int)[i as int] != b@[i as int]);
            assert(a@.subrange(0, b@.len() as int) != b@);
            return false;
        }
        i = i + 1;
    }
    assert(a@.subrange(0, b@.len() as int) =~= b@);
    true
}


/// True when the two character sequences are equal.
pub fn chars_eq(a: &[char], b: &[char]) -> (res: bool)
    ensures
        res == (a@ == b@),
{
    if a.len() != b.len() {
        return false;
    }
    let mut i: usize = 0;
    while i < a.len()
        invariant
            a@.len() == b@.len(),
            i <= a@.len(),
            forall|k: int| 0 <= k < i ==> a@[k] == b@[k],
        decreases a@.len() - i,
    {
        if a[i] != b[i] {
            return false;
        }
        i = i + 1;
    }
    assert(a@ =~= b@);
    true
}

/// True when the two strings are equal.
pub fn str_eq(a: &str, b: &str) -> (res: bool)
    ensures
        res == (a@ == b@),
{
    let x = chars_of(a);
    let y = chars_of(b);
    chars_eq(x.as_slice(), y.as_slice())
}

/// The characters of `s` before the first `c` (all of `s` when there is
/// none): the first item of `s.split(c)`.
pub open spec fn first_segment(s: Seq<char>, c: char) -> Seq<char>
    decreases s.len(),
{
    if s.len() == 0 {
        s
    } else if s[0] == c {
        Seq::empty()
    } else {
        seq![s[0]] + first_segment(s.drop_first(), c)
    }
}

/// The characters of `s` after the first `c`, when there is one: the second
/// item of `s.splitn(2, c)`.
pub open spec fn after_first(s: Seq<char>, c: char) -> Option<Seq<char>>
    decreases s.len(),
{
    if s.len() == 0 {
        None
    } else if s[0] == c {
        Some(s.drop_first())
    } else {
        after_first(s.drop_first(), c)
    }
}

/// Position of the first `c` in `s`, if any.
pub open spec fn index_of(s: Seq<char>, c: char) -> Option<int>
    decreases s.len(),
{
    if s.len() == 0 {
        None
    } else if s[0] == c {
        Some(0)
    } else {
        match index_of(s.drop_first(), c) {
            Some(i) => Some(i + 1),
            None => None,
        }
    }
}

pub proof fn lemma_index_of(s: Seq<char>, c: char)
    ensures
        match index_of(s, c) {
            Some(i) => 0 <= i < s.len() && s[i] == c && (forall|k: int| 0 <= k < i ==> s[k] != c)
                && first_segment(s, c) == s.take(i) && after_first(s, c) == Some(s.skip(i + 1)),
            None => (forall|k: int| 0 <= k < s.len() ==> s[k] != c) && first_segment(s, c) == s
                && after_first(s, c) is None,
        },
    decreases s.len(),
{
    if s.len() > 0 {
        lemma_index_of(s.drop_first(), c);
        match index_of(s.drop_first(), c) {
            Some(i) => {
                if s[0] != c {
                    assert(s.take(i + 1) =~= seq![s[0]] + s.drop_first().take(i));
                    assert(s.skip(i + 2) =~= s.drop_first().skip(i + 1));
                    assert forall|k: int| 0 <= k < i + 1 implies s[k] != c by {
                        if k > 0 {
                            assert(s[k] == s.drop_first()[k - 1]);
                        }
                    }
                }
            },
            None => {
                if s[0] != c {
                    assert(seq![s[0]] + s.drop_first() =~= s);
                    assert forall|k: int| 0 <= k < s.len() implies s[k] != c by {
                        if k > 0 {
                            assert(s[k] == s.drop_first()[k - 1]);
                        }
                    }
                }
            },
        }
        if s[0] == c {
            assert(s.take(0) =~= Seq::<char>::empty());
            assert(s.skip(1) =~= s.drop_first());
        }
    }
}

/// Position of the first `c` in `v`, if any.
pub fn find_char(v: &[char], c: char) -> (res: Option<usize>)
    ensures
        res matches Some(i) ==> index_of(v@, c) == Some(i as int) && i < v@.len(),
        res is None ==> index_of(v@, c) is None,
{
    proof { lemma_index_of(v@, c); }
    let mut i: usize = 0;
    while i < v.len()
        invariant
            i <= v@.len(),
            forall|k: int| 0 <= k < i ==> v@[k] != c,
        decreases v@.len() - i,
    {
        if v[i] == c {
            proof {
                lemma_index_of(v@, c);
                match index_of(v@, c) {
                    Some(j) => {
                        assert(j == i as int);
                    },
                    None => {},
                }
            }
            return Some(i);
        }
        i = i + 1;
    }
    None
}

/// The string made of `v[from..to]`.
pub fn string_of_range(v: &[char], from: usize, to: usize) -> (res: String)
    requires
        from <= to <= v@.len(),
    ensures
        res@ == v@.subrange(from as int, to as int),
{
    let mut res = String::new();
    let mut i = from;
    while i < to
        invariant
            from <= i <= to <= v@.len(),
            res@ == v@.subrange(from as int, i as int),
        decreases to - i,
    {
        push_char(&mut res, v[i]);
        assert(v@.subrange(from as int, i + 1) == v@.subrange(from as int, i as int).push(v@[i as int]));
        i = i + 1;
    }
    res
}

/// `s.split(c).next()`: the text before the first `c`.
pub fn first_segment_of(s: &str, c: char) -> (res: String)
    ensures
        res@ == first_segment(s@, c),
{
    let v = chars_of(s);
    proof { lemma_index_of(v@, c); }
    match find_char(v.as_slice(), c) {
        Some(i) => string_of_range(v.as_slice(), 0, i),
        None => {
            proof { assert(v@.subrange(0, v@.len() as int) =~= v@); }
            string_of_range(v.as_slice(), 0, v.len())
        },
    }
}

/// Unicode `White_Space`, as `char::is_whitespace` tests it.
pub open spec fn is_white(c: char) -> bool {
    let n = c as u32;
    ||| (0x09 <= n <= 0x0D)
    ||| n == 0x20 || n == 0x85 || n == 0xA0 || n == 0x1680
    ||| (0x2000 <= n <= 0x200A)
    ||| n == 0x2028 || n == 0x2029 || n == 0x202F || n == 0x205F || n == 0x3000
}

pub fn is_white_char(c: char) -> (res: bool)
    ensures
        res == is_white(c),
{
    let n = c as u32;
    (0x09 <= n && n <= 0x0D) || n == 0x20 || n == 0x85 || n == 0xA0 || n == 0x1680
        || (0x2000 <= n && n <= 0x200A) || n == 0x2028 || n == 0x2029 || n == 0x202F
        || n == 0x205F || n == 0x3000
}

/// Number of leading white-space characters of `s`.
pub open spec fn lead_white(s: Seq<char>) -> nat
    decreases s.len(),
{
    if s.len() > 0 && is_white(s[0]) { 1 + lead_white(s.drop_first()) } else { 0 }
}

/// Number of trailing white-space characters of `s`.
pub open spec fn trail_white(s: Seq<char>) -> nat
    decreases s.len(),
{
    if s.len() > 0 && is_white(s.last()) { 1 + trail_white(s.drop_last()) } else { 0 }
}

/// `s.trim()`: `s` without leading and trailing white space.
pub open spec fn trimmed(s: Seq<char>) -> Seq<char> {
    let a = lead_white(s) as int;
    if a == s.len() {
        Seq::empty()
    } else {
        s.subrange(a, s.len() - trail_white(s) as int)
    }
}

proof fn lemma_lead_white(s: Seq<char>, i: int)
    requires
        0 <= i <= s.len(),
        forall|k: int| 0 <= k < i ==> is_white(#[trigger] s[k]),
        i == s.len() || !is_white(s[i]),
    ensures
        lead_white(s) == i,
    decreases s.len(),
{
    if s.len() > 0 && i > 0 {
        assert forall|k: int| 0 <= k < i - 1 implies is_white(#[trigger] s.drop_first()[k]) by {
            assert(s.drop_first()[k] == s[k + 1]);
        }
        lemma_lead_white(s.drop_first(), i - 1);
    }
}

proof fn lemma_trail_white(s: Seq<char>, j: int)
    requires
        0 <= j <= s.len(),
        forall|k: int| j <= k < s.len() ==> is_white(#[trigger] s[k]),
        j == 0 || !is_white(s[j - 1]),
    ensures
        trail_white(s) == s.len() - j,
    decreases s.len(),
{
    if s.len() > 0 && j < s.len() {
        assert forall|k: int| j <= k < s.len() - 1 implies is_white(#[trigger] s.drop_last()[k]) by {
            assert(s.drop_last()[k] == s[k]);
        }
        lemma_trail_white(s.drop_last(), j);
    }
}

proof fn lemma_lead_white_bound(s: Seq<char>)
    ensures
        lead_white(s) <= s.len(),
        lead_white(s) < s.len() ==> !is_white(s[lead_white(s) as int]),
    decreases s.len(),
{
    if s.len() > 0 && is_white(s[0]) {
        lemma_lead_white_bound(s.drop_first());
        if lead_white(s) < s.len() {
            assert(s[lead_white(s) as int] == s.drop_first()[lead_white(s.drop_first()) as int]);
        }
    }
}

proof fn lemma_trail_white_bound(s: Seq<char>)
    ensures
        trail_white(s) <= s.len(),
        forall|k: int| s.len() - trail_white(s) <= k < s.len() ==> is_white(#[trigger] s[k]),
    decreases s.len(),
{
    if s.len() > 0 && is_white(s.last()) {
        lemma_trail_white_bound(s.drop_last());
        assert forall|k: int| s.len() - trail_white(s) <= k < s.len() implies is_white(#[trigger] s[k]) by {
            if k < s.len() - 1 {
                assert(s[k] == s.drop_last()[k]);
            }
        }
    }
}

/// Trimming keeps only characters of the text: a character absent from `s`
/// is absent from `trimmed(s)`.
pub proof fn lemma_trimmed_lacks(s: Seq<char>, c: char)
    requires
        forall|k: int| 0 <= k < s.len() ==> s[k] != c,
    ensures
        forall|k: int| 0 <= k < trimmed(s).len() ==> trimmed(s)[k] != c,
{
    lemma_lead_white_bound(s);
    lemma_trail_white_bound(s);
    let a = lead_white(s) as int;
    if a != s.len() {
        let b = s.len() - trail_white(s) as int;
        if b <= a {
            assert(is_white(s[a]));
        }
        assert forall|k: int| 0 <= k < trimmed(s).len() implies trimmed(s)[k] != c by {
            assert(trimmed(s)[k] == s[a + k]);
        }
    }
}

/// The characters of `v` without leading and trailing white space.
pub fn trim_chars(v: &[char]) -> (res: String)
    ensures
        res@ == trimmed(v@),
{
    let mut i: usize = 0;
    while i < v.len() && is_white_char(v[i])
        invariant
            i <= v@.len(),
            forall|k: int| 0 <= k < i ==> is_white(#[trigger] v@[k]),
        decreases v@.len() - i,
    {
        i = i + 1;
    }
    proof { lemma_lead_white(v@, i as int); }
    if i == v.len() {
        return String::new();
    }
    let mut j: usize = v.len();
    while j > i && is_white_char(v[j - 1])
        invariant
            i < v@.len(),
            !is_white(v@[i as int]),
            i <= j <= v@.len(),
            forall|k: int| j <= k < v@.len() ==> is_white(#[trigger] v@[k]),
        decreases j,
    {
        j = j - 1;
    }
    proof { lemma_trail_white(v@, j as int); }
    string_of_range(v, i, j)
}

/// `s.trim()`.
pub fn trim(s: &str) -> (res: String)
    ensures
        res@ == trimmed(s@),
{
    let v = chars_of(s);
    trim_chars(v.as_slice())
}
/// `pat` occurs in `s` starting at position `i`.
pub open spec fn occurs_at(s: Seq<char>, pat: Seq<char>, i: int) -> bool {
    0 <= i && i + pat.len() <= s.len() && s.subrange(i, i + pat.len()) == pat
}

/// `pat` occurs somewhere in `s` (`str::contains`).
pub open spec fn has_text(s: Seq<char>, pat: Seq<char>) -> bool {
    exists|i: int| occurs_at(s, pat, i)
}

fn matches_at(a: &[char], b: &[char], i: usize) -> (res: bool)
    requires
        i + b@.len() <= a@.len(),
    ensures
        res == occurs_at(a@, b@, i as int),
{
    let n = a.len();
    let mut k: usize = 0;
    while k < b.len()
        invariant
            n == a@.len(),
            i + b@.len() <= a@.len(),
            k <= b@.len(),
            forall|t: int| 0 <= t < k ==> a@[i + t] == b@[t],
        decreases b@.len() - k,
    {
        if a[i + k] != b[k] {
            assert(a@.subrange(i as int, i + b@.len())[k as int] != b@[k as int]);
            return false;
        }
        k = k + 1;
    }
    assert(a@.subrange(i as int, i + b@.len()) =~= b@);
    true
}

/// True when `pat` occurs in `s`.
pub fn contains_text(s: &str, pat: &str) -> (res: bool)
    ensures
        res == has_text(s@, pat@),
{
    let a = chars_of(s);
    let b = chars_of(pat);
    if b.len() > a.len() {
        assert forall|i: int| !occurs_at(s@, pat@, i) by {}
        return false;
    }
    let n = a.len();
    let m = b.len();
    let mut i: usize = 0;
    loop
        invariant
            a@ == s@,
            b@ == pat@,
            n == a@.len(),
            m == b@.len(),
            m <= n,
            i <= n - m,
            forall|t: int| 0 <= t < i ==> !occurs_at(s@, pat@, t),
        ensures
            forall|t: int| 0 <= t <= n - m ==> !occurs_at(s@, pat@, t),
        decreases n - m - i,
    {
        if matches_at(a.as_slice(), b.as_slice(), i) {
            assert(occurs_at(s@, pat@, i as int));
            return true;
        }
        if i == n - m {
            break;
        }
        i = i + 1;
    }
    assert forall|t: int| !occurs_at(s@, pat@, t) by {
        if t > n - m {
            assert(t + pat@.len() > s@.len());
        }
    }
    false
}

} // verus!
