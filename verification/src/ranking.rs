//! Stable orderings of entries by a key, given as lists of positions:
//! the newest entries first by a text key (the monthly summary's recent
//! transactions), and the smallest first by a number (monthly points).

use vstd::prelude::*;
use crate::order::{strs, lex_lt, lemma_lex_transitive, lemma_lex_total, str_less};

verus! {

/// Entry `a` comes before entry `b` when entries are sorted by key, from
/// largest to smallest when `descending`, else from smallest to largest;
/// entries with equal keys keep their order.
pub open spec fn text_before(keys: Seq<Seq<char>>, descending: bool, a: int, b: int) -> bool {
    (if descending { lex_lt(keys[b], keys[a]) } else { lex_lt(keys[a], keys[b]) })
        || (keys[a] == keys[b] && a < b)
}

/// Entry `a` comes before entry `b` when entries are sorted by key from
/// largest to smallest, entries with equal keys keeping their order.
pub open spec fn newer_first(keys: Seq<Seq<char>>, a: int, b: int) -> bool {
    text_before(keys, true, a, b)
}

/// `j` is one of the positions listed in `r`.
pub open spec fn listed(r: Seq<usize>, j: int) -> bool {
    exists|k: int| 0 <= k < r.len() && r[k] as int == j
}

/// `r` is the start of the list of all positions `0..n` in the order
/// `before`, and stops early only at `limit`: it lists positions below
/// `n`, each before the next, every position it leaves out comes after
/// all it lists, and it leaves none out when shorter than `limit`.
pub open spec fn ordered_prefix(r: Seq<usize>, n: int, limit: int, before: spec_fn(int, int) -> bool) -> bool {
    &&& r.len() <= limit
    &&& forall|k: int| 0 <= k < r.len() ==> (r[k] as int) < n
    &&& forall|a: int, b: int| 0 <= a < b < r.len() ==> before(r[a] as int, r[b] as int)
    &&& forall|k: int, j: int| 0 <= k < r.len() && 0 <= j < n && !listed(r, j) ==> before(r[k] as int, j)
    &&& r.len() < limit ==> forall|j: int| 0 <= j < n ==> listed(r, j)
}

proof fn lemma_before_transitive(keys: Seq<Seq<char>>, d: bool, a: int, b: int, c: int)
    requires
        text_before(keys, d, a, b),
        text_before(keys, d, b, c),
    ensures
        text_before(keys, d, a, c),
{
    if d {
        if lex_lt(keys[b], keys[a]) && lex_lt(keys[c], keys[b]) {
            lemma_lex_transitive(keys[c], keys[b], keys[a]);
        }
    } else {
        if lex_lt(keys[a], keys[b]) && lex_lt(keys[b], keys[c]) {
            lemma_lex_transitive(keys[a], keys[b], keys[c]);
        }
    }
}

proof fn lemma_before_total(keys: Seq<Seq<char>>, d: bool, a: int, b: int)
    requires
        a != b,
    ensures
        text_before(keys, d, a, b) || text_before(keys, d, b, a),
{
    lemma_lex_total(keys[a], keys[b]);
}

/// The positions of the first `limit` entries in a stable sort by key,
/// descending or ascending.
pub fn text_order(keys: &Vec<String>, limit: usize, descending: bool) -> (res: Vec<usize>)
    ensures
        ordered_prefix(res@, keys@.len() as int, limit as int, |a: int, b: int| text_before(strs(keys@), descending, a, b)),
{
    let ghost ks = strs(keys@);
    let ghost before = |a: int, b: int| text_before(ks, descending, a, b);
    let n = keys.len();
    let mut taken: Vec<bool> = Vec::new();
    while taken.len() < n
        invariant
            taken@.len() <= n,
            forall|j: int| 0 <= j < taken@.len() ==> !taken@[j],
        decreases n - taken@.len(),
    {
        taken.push(false);
    }
    let mut out: Vec<usize> = Vec::new();
    while out.len() < limit
        invariant
            n == keys@.len(),
            ks == strs(keys@),
            before == (|a: int, b: int| text_before(ks, descending, a, b)),
            taken@.len() == n,
            out@.len() <= limit,
            forall|j: int| 0 <= j < n ==> (taken@[j] <==> listed(out@, j)),
            forall|k: int| 0 <= k < out@.len() ==> (out@[k] as int) < n,
            forall|a: int, b: int| 0 <= a < b < out@.len() ==> before(out@[a] as int, out@[b] as int),
            forall|k: int, j: int| 0 <= k < out@.len() && 0 <= j < n && !listed(out@, j) ==> before(out@[k] as int, j),
        decreases limit - out@.len(),
    {
        let mut best: usize = n;
        let mut j: usize = 0;
        while j < n
            invariant
                n == keys@.len(),
                ks == strs(keys@),
                taken@.len() == n,
                j <= n,
                best == n || (best < j && !taken@[best as int]),
                best == n ==> forall|t: int| 0 <= t < j ==> taken@[t],
                best < n ==> forall|t: int| 0 <= t < j && !taken@[t] && t != best ==> text_before(ks, descending, best as int, t),
            decreases n - j,
        {
            if !taken[j] {
                if best == n {
                    best = j;
                } else {
                    let newer = if descending {
                        str_less(keys[best].as_str(), keys[j].as_str())
                    } else {
                        str_less(keys[j].as_str(), keys[best].as_str())
                    };
                    proof {
                        assert(ks[best as int] == keys@[best as int]@);
                        assert(ks[j as int] == keys@[j as int]@);
                    }
                    if newer {
                        proof {
                            assert forall|t: int| 0 <= t < j + 1 && !taken@[t] && t != j implies text_before(ks, descending, j as int, t) by {
                                if t != best {
                                    lemma_before_transitive(ks, descending, j as int, best as int, t);
                                }
                            }
                        }
                        best = j;
                    } else {
                        proof { lemma_before_total(ks, descending, best as int, j as int); }
                    }
                }
            }
            j = j + 1;
        }
        if best == n {
            proof {
                assert forall|j: int| 0 <= j < n implies listed(out@, j) by {
                    assert(taken@[j]);
                }
            }
            return out;
        }
        proof {
            assert(!listed(out@, best as int));
        }
        let ghost old_out = out@;
        out.push(best);
        taken.set(best, true);
        proof {
            assert(out@[old_out.len() as int] == best);
            assert forall|t: int| 0 <= t < n implies (taken@[t] <==> listed(out@, t)) by {
                if t == best as int {
                    assert(out@[old_out.len() as int] as int == t);
                } else {
                    if listed(out@, t) {
                        let k = choose|k: int| 0 <= k < out@.len() && out@[k] as int == t;
                        assert(k < old_out.len());
                        assert(old_out[k] as int == t);
                    }
                    if listed(old_out, t) {
                        let k = choose|k: int| 0 <= k < old_out.len() && old_out[k] as int == t;
                        assert(out@[k] as int == t);
                    }
                }
            }
            assert forall|a: int, b: int| 0 <= a < b < out@.len() implies before(out@[a] as int, out@[b] as int) by {
                if b == old_out.len() {
                    assert(!listed(old_out, best as int));
                    assert(old_out[a] == out@[a]);
                }
            }
            assert forall|k: int, t: int| 0 <= k < out@.len() && 0 <= t < n && !listed(out@, t) implies before(out@[k] as int, t) by {
                assert(!taken@[t]);
                assert(t != best as int);
                if k < old_out.len() {
                    assert(old_out[k] == out@[k]);
                    if listed(old_out, t) {
                        let w = choose|w: int| 0 <= w < old_out.len() && old_out[w] as int == t;
                        assert(out@[w] as int == t);
                    }
                }
            }
        }
    }
    out
}

/// The positions of the `limit` entries with the largest keys, largest
/// first, entries with equal keys in their order (a stable sort by key,
/// descending, cut to `limit`).
pub fn newest_first(keys: &Vec<String>, limit: usize) -> (res: Vec<usize>)
    ensures
        ordered_prefix(res@, keys@.len() as int, limit as int, |a: int, b: int| newer_first(strs(keys@), a, b)),
{
    let r = text_order(keys, limit, true);
    proof {
        let f = |a: int, b: int| text_before(strs(keys@), true, a, b);
        let g = |a: int, b: int| newer_first(strs(keys@), a, b);
        assert(f == g);
    }
    r
}

/// The positions of all entries in a stable sort by key, smallest first.
pub fn oldest_first(keys: &Vec<String>) -> (res: Vec<usize>)
    ensures
        ordered_prefix(res@, keys@.len() as int, keys@.len() as int, |a: int, b: int| text_before(strs(keys@), false, a, b)),
{
    text_order(keys, keys.len(), false)
}

/// Entry `a` comes before entry `b` when entries are sorted by key from
/// smallest to largest, entries with equal keys keeping their order.
pub open spec fn smaller_first(keys: Seq<u64>, a: int, b: int) -> bool {
    keys[a] < keys[b] || (keys[a] == keys[b] && a < b)
}

/// The positions of all entries, smallest key first, entries with equal
/// keys in their order (a stable sort by key).
pub fn smallest_first(keys: &Vec<u64>) -> (res: Vec<usize>)
    ensures
        ordered_prefix(res@, keys@.len() as int, keys@.len() as int, |a: int, b: int| smaller_first(keys@, a, b)),
{
    let ghost ks = keys@;
    let ghost before = |a: int, b: int| smaller_first(ks, a, b);
    let n = keys.len();
    let mut taken: Vec<bool> = Vec::new();
    while taken.len() < n
        invariant
            taken@.len() <= n,
            forall|j: int| 0 <= j < taken@.len() ==> !taken@[j],
        decreases n - taken@.len(),
    {
        taken.push(false);
    }
    let mut out: Vec<usize> = Vec::new();
    while out.len() < n
        invariant
            n == keys@.len(),
            ks == keys@,
            before == (|a: int, b: int| smaller_first(ks, a, b)),
            taken@.len() == n,
            out@.len() <= n,
            forall|j: int| 0 <= j < n ==> (taken@[j] <==> listed(out@, j)),
            forall|k: int| 0 <= k < out@.len() ==> (out@[k] as int) < n,
            forall|a: int, b: int| 0 <= a < b < out@.len() ==> before(out@[a] as int, out@[b] as int),
            forall|k: int, j: int| 0 <= k < out@.len() && 0 <= j < n && !listed(out@, j) ==> before(out@[k] as int, j),
        decreases n - out@.len(),
    {
        let mut best: usize = n;
        let mut j: usize = 0;
        while j < n
            invariant
                n == keys@.len(),
                ks == keys@,
                taken@.len() == n,
                j <= n,
                best == n || (best < j && !taken@[best as int]),
                best == n ==> forall|t: int| 0 <= t < j ==> taken@[t],
                best < n ==> forall|t: int| 0 <= t < j && !taken@[t] && t != best ==> smaller_first(ks, best as int, t),
            decreases n - j,
        {
            if !taken[j] {
                if best == n || keys[j] < keys[best] {
                    best = j;
                }
            }
            j = j + 1;
        }
        if best == n {
            proof {
                assert forall|j: int| 0 <= j < n implies listed(out@, j) by {
                    assert(taken@[j]);
                }
            }
            return out;
        }
        proof {
            assert(!listed(out@, best as int));
        }
        let ghost old_out = out@;
        out.push(best);
        taken.set(best, true);
        proof {
            assert(out@[old_out.len() as int] == best);
            assert forall|t: int| 0 <= t < n implies (taken@[t] <==> listed(out@, t)) by {
                if t == best as int {
                    assert(out@[old_out.len() as int] as int == t);
                } else {
                    if listed(out@, t) {
                        let k = choose|k: int| 0 <= k < out@.len() && out@[k] as int == t;
                        assert(k < old_out.len());
                        assert(old_out[k] as int == t);
                    }
                    if listed(old_out, t) {
                        let k = choose|k: int| 0 <= k < old_out.len() && old_out[k] as int == t;
                        assert(out@[k] as int == t);
                    }
                }
            }
            assert forall|a: int, b: int| 0 <= a < b < out@.len() implies before(out@[a] as int, out@[b] as int) by {
                if b == old_out.len() {
                    assert(!listed(old_out, best as int));
                    assert(old_out[a] == out@[a]);
                }
            }
            assert forall|k: int, t: int| 0 <= k < out@.len() && 0 <= t < n && !listed(out@, t) implies before(out@[k] as int, t) by {
                assert(!taken@[t]);
                assert(t != best as int);
                if k < old_out.len() {
                    assert(old_out[k] == out@[k]);
                    if listed(old_out, t) {
                        let w = choose|w: int| 0 <= w < old_out.len() && old_out[w] as int == t;
                        assert(out@[w] as int == t);
                    }
                }
            }
        }
    }
    out
}

} // verus!
