//! The order Rust gives to `String`s (byte order of UTF-8, which is the
//! order of code points), and sorted lists of distinct strings.

use vstd::prelude::*;
use crate::text::chars_of;

verus! {

/// The text of each string of a list.
pub open spec fn strs(v: Seq<String>) -> Seq<Seq<char>> {
    v.map_values(|s: String| s@)
}

/// `a` comes strictly before `b` in lexicographic order of code points.
pub open spec fn lex_lt(a: Seq<char>, b: Seq<char>) -> bool
    decreases a.len(),
{
    if a.len() == 0 {
        b.len() > 0
    } else if b.len() == 0 {
        false
    } else if a[0] != b[0] {
        (a[0] as int) < (b[0] as int)
    } else {
        lex_lt(a.drop_first(), b.drop_first())
    }
}

pub proof fn lemma_lex_irreflexive(a: Seq<char>)
    ensures
        !lex_lt(a, a),
    decreases a.len(),
{
    if a.len() > 0 {
        lemma_lex_irreflexive(a.drop_first());
    }
}

pub proof fn lemma_lex_transitive(a: Seq<char>, b: Seq<char>, c: Seq<char>)
    requires
        lex_lt(a, b),
        lex_lt(b, c),
    ensures
        lex_lt(a, c),
    decreases a.len(),
{
    if a.len() > 0 && b.len() > 0 && c.len() > 0 && a[0] == b[0] && b[0] == c[0] {
        lemma_lex_transitive(a.drop_first(), b.drop_first(), c.drop_first());
    }
}

/// Two different texts are ordered one way or the other.
pub proof fn lemma_lex_total(a: Seq<char>, b: Seq<char>)
    ensures
        a == b || lex_lt(a, b) || lex_lt(b, a),
    decreases a.len(),
{
    if a.len() > 0 && b.len() > 0 {
        if a[0] == b[0] {
            lemma_lex_total(a.drop_first(), b.drop_first());
            if a.drop_first() == b.drop_first() {
                assert(a =~= seq![a[0]] + a.drop_first());
                assert(b =~= seq![b[0]] + b.drop_first());
            }
        } else {
        }
    } else if a.len() == 0 && b.len() == 0 {
        assert(a =~= b);
    }
}

pub proof fn lemma_lex_asymmetric(a: Seq<char>, b: Seq<char>)
    requires
        lex_lt(a, b),
    ensures
        !lex_lt(b, a),
{
    if lex_lt(b, a) {
        lemma_lex_transitive(a, b, a);
        lemma_lex_irreflexive(a);
    }
}

/// Compares two texts in code-point order.
pub fn lex_less(a: &[char], b: &[char]) -> (res: bool)
    ensures
        res == lex_lt(a@, b@),
{
    let mut i: usize = 0;
    assert(a@.skip(0) =~= a@);
    assert(b@.skip(0) =~= b@);
    while i < a.len() && i < b.len() && a[i] == b[i]
        invariant
            i <= a@.len(),
            i <= b@.len(),
            lex_lt(a@, b@) == lex_lt(a@.skip(i as int), b@.skip(i as int)),
        decreases a@.len() - i,
    {
        proof {
            assert(a@.skip(i as int).drop_first() =~= a@.skip(i + 1));
            assert(b@.skip(i as int).drop_first() =~= b@.skip(i + 1));
        }
        i = i + 1;
    }
    if i == a.len() {
        i < b.len()
    } else if i == b.len() {
        false
    } else {
        a[i] < b[i]
    }
}

/// Compares two strings in Rust's `String` order.
pub fn str_less(a: &str, b: &str) -> (res: bool)
    ensures
        res == lex_lt(a@, b@),
{
    let x = chars_of(a);
    let y = chars_of(b);
    lex_less(x.as_slice(), y.as_slice())
}

/// Every entry comes strictly before every later one.
pub open spec fn strictly_sorted(s: Seq<Seq<char>>) -> bool {
    forall|i: int, j: int| 0 <= i < j < s.len() ==> lex_lt(#[trigger] s[i], #[trigger] s[j])
}

/// Two strictly sorted lists with the same entries are the same list.
pub proof fn lemma_sorted_unique(a: Seq<Seq<char>>, b: Seq<Seq<char>>)
    requires
        strictly_sorted(a),
        strictly_sorted(b),
        a.to_set() == b.to_set(),
    ensures
        a == b,
    decreases a.len() + b.len(),
{
    if a.len() == 0 || b.len() == 0 {
        if a.len() > 0 {
            assert(a.to_set().contains(a[0]));
            assert(b.to_set().contains(a[0]));
        }
        if b.len() > 0 {
            assert(b.to_set().contains(b[0]));
            assert(a.to_set().contains(b[0]));
        }
        assert(a =~= b);
    } else {
        // The first entries are the least of the common set.
        assert(a.to_set().contains(a[0]));
        assert(b.to_set().contains(b[0]));
        assert(b.contains(a[0]));
        assert(a.contains(b[0]));
        let ib = choose|k: int| 0 <= k < b.len() && b[k] == a[0];
        let ia = choose|k: int| 0 <= k < a.len() && a[k] == b[0];
        if ib > 0 {
            assert(lex_lt(b[0], b[ib]));
            if ia > 0 {
                assert(lex_lt(a[0], a[ia]));
                lemma_lex_asymmetric(a[0], b[0]);
            } else {
                lemma_lex_irreflexive(b[0]);
            }
        }
        assert(a[0] == b[0]);
        let ra = a.drop_first();
        let rb = b.drop_first();
        assert forall|x: Seq<char>| ra.to_set().contains(x) implies rb.to_set().contains(x) by {
            let k = choose|k: int| 0 <= k < ra.len() && ra[k] == x;
            assert(a[k + 1] == x);
            assert(lex_lt(a[0], x));
            assert(b.to_set().contains(x));
            let m = choose|m: int| 0 <= m < b.len() && b[m] == x;
            if m == 0 {
                lemma_lex_irreflexive(x);
            }
            assert(rb[m - 1] == x);
        }
        assert forall|x: Seq<char>| rb.to_set().contains(x) implies ra.to_set().contains(x) by {
            let k = choose|k: int| 0 <= k < rb.len() && rb[k] == x;
            assert(b[k + 1] == x);
            assert(lex_lt(b[0], x));
            assert(a.to_set().contains(x));
            let m = choose|m: int| 0 <= m < a.len() && a[m] == x;
            if m == 0 {
                lemma_lex_irreflexive(x);
            }
            assert(ra[m - 1] == x);
        }
        assert(ra.to_set() =~= rb.to_set());
        lemma_sorted_unique(ra, rb);
        assert(a =~= seq![a[0]] + ra);
        assert(b =~= seq![b[0]] + rb);
    }
}

/// Adds `x` to a strictly sorted list of distinct strings, unless present.
pub fn insert_sorted(v: &mut Vec<String>, x: String)
    requires
        strictly_sorted(strs(old(v)@)),
    ensures
        strictly_sorted(strs(final(v)@)),
        strs(final(v)@).to_set() == strs(old(v)@).to_set().insert(x@),
{
    let ghost s0 = strs(v@);
    let xs = chars_of(x.as_str());
    let mut i: usize = 0;
    while i < v.len() && str_less(v[i].as_str(), x.as_str())
        invariant
            s0 == strs(v@),
            xs@ == x@,
            strictly_sorted(s0),
            i <= v@.len(),
            forall|k: int| 0 <= k < i ==> lex_lt(#[trigger] s0[k], x@),
        decreases v@.len() - i,
    {
        assert(lex_lt(s0[i as int], x@));
        i = i + 1;
    }
    // Now v[..i] < x <= v[i..].
    if i < v.len() {
        let cur = chars_of(v[i].as_str());
        if !lex_less(xs.as_slice(), cur.as_slice()) {
            // Neither is less: they are equal.
            proof {
                assert(cur@ == s0[i as int]);
                lemma_lex_total(cur@, xs@);
                assert(s0.to_set().contains(x@)) by {
                    assert(s0[i as int] == x@);
                }
                assert(s0.to_set().insert(x@) =~= s0.to_set());
            }
            return;
        }
    }
    let ghost xv = x@;
    v.insert(i, x);
    proof {
        let s1 = strs(v@);
        assert(s1 =~= s0.take(i as int).push(xv) + s0.skip(i as int));
        assert forall|a: int| 0 <= a < s1.len() implies
            (a < i ==> s1[a] == s0[a]) && (a == i ==> s1[a] == xv) && (a > i ==> s1[a] == s0[a - 1]) by {}
        assert forall|a: int, b: int| 0 <= a < b < s1.len() implies lex_lt(#[trigger] s1[a], #[trigger] s1[b]) by {
            if b < i {
                assert(lex_lt(s0[a], s0[b]));
            } else if b == i {
                assert(lex_lt(s0[a], xv));
            } else if a == i {
                // xv < s0[i] <= s0[b - 1]
                if b - 1 > i {
                    assert(lex_lt(s0[i as int], s0[b - 1]));
                    lemma_lex_transitive(xv, s0[i as int], s0[b - 1]);
                }
            } else if a < i {
                assert(lex_lt(s0[a], xv));
                if b - 1 > i {
                    assert(lex_lt(s0[i as int], s0[b - 1]));
                    lemma_lex_transitive(xv, s0[i as int], s0[b - 1]);
                }
                lemma_lex_transitive(s0[a], xv, s0[b - 1]);
            } else {
                assert(lex_lt(s0[a - 1], s0[b - 1]));
            }
        }
        assert forall|y: Seq<char>| s1.to_set().contains(y) == s0.to_set().insert(xv).contains(y) by {
            if s1.to_set().contains(y) {
                let k = choose|k: int| 0 <= k < s1.len() && s1[k] == y;
                if k < i {
                    assert(s0[k] == y);
                } else if k > i {
                    assert(s0[k - 1] == y);
                }
            }
            if s0.to_set().contains(y) {
                let k = choose|k: int| 0 <= k < s0.len() && s0[k] == y;
                if k < i {
                    assert(s1[k] == y);
                } else {
                    assert(s1[k + 1] == y);
                }
            }
            if y == xv {
                assert(s1[i as int] == y);
            }
        }
        assert(s1.to_set() =~= s0.to_set().insert(xv));
    }
}

} // verus!
