//! Turning monthly balance points into quarterly ones: each quarter keeps
//! the value of its latest point (its end-of-quarter balance), and the
//! quarters come in the order of their keys.

use vstd::prelude::*;
use crate::calendar::Date;
use crate::numfmt::{digits, std_padded, push_digits, push_std_padded};
use crate::order::{strs, strictly_sorted, insert_sorted};
use crate::ranges::{date_key_date, date_of_key};
use crate::text::str_eq;

verus! {

/// The quarter (1-4) of month `m` (1-12).
pub open spec fn quarter_of(m: int) -> int {
    (m - 1) / 3 + 1
}

/// The key of the quarter a date lies in: `format!("{}-Q{}", year, quarter)`.
pub open spec fn quarter_text(d: Date) -> Seq<char> {
    std_padded(d.year as int, 0) + "-Q"@ + digits(quarter_of(d.month as int) as nat)
}

/// The quarter key of a date.
pub fn quarter_string(d: &Date) -> (res: String)
    requires
        d.valid(),
    ensures
        res@ == quarter_text(*d),
{
    let mut s = String::new();
    push_std_padded(&mut s, d.year as i64, 0);
    s.append("-Q");
    push_digits(&mut s, ((d.month - 1) / 3 + 1) as u64);
    proof { reveal_strlit("-Q"); }
    s
}

/// The quarter key of a chart entry key such as
/// `"2026-03-31T00:00:00+00:00"`: the text before any `T`, read as
/// `"%Y-%m-%d"`.
pub open spec fn quarter_key_of(key: Seq<char>) -> Option<Seq<char>> {
    match date_key_date(key) {
        Some(d) => Some(quarter_text(d)),
        None => None,
    }
}

/// The quarter key of a chart entry key; `None` when it holds no date.
pub fn quarter_key(key: &str) -> (res: Option<String>)
    ensures
        (match res { Some(s) => Some(s@), None => None }) == quarter_key_of(key@),
{
    match date_of_key(key) {
        Some(d) => Some(quarter_string(&d)),
        None => None,
    }
}

/// Entry `i` is the one a quarter keeps: no other entry of its quarter
/// comes later by date, or on the same date later in the list.
pub open spec fn latest_of_quarter(dates: Seq<Date>, i: int) -> bool {
    forall|j: int| 0 <= j < dates.len() && quarter_text(#[trigger] dates[j]) == quarter_text(dates[i])
        ==> dates[j].ord() < dates[i].ord() || (dates[j].ord() == dates[i].ord() && j <= i)
}

/// Some entry lies in the quarter with key `k`.
pub open spec fn has_quarter(dates: Seq<Date>, k: Seq<char>) -> bool {
    exists|i: int| 0 <= i < dates.len() && quarter_text(#[trigger] dates[i]) == k
}

/// The quarters of dated entries, in the order of their keys, each with the
/// position of the entry whose value it keeps: the latest entry of the
/// quarter, entries on the same date counting in list order (a stable sort
/// by date in which the last entry of each quarter wins).
pub fn quarterly_picks(dates: &Vec<Date>) -> (res: Vec<(String, usize)>)
    requires
        forall|i: int| 0 <= i < dates@.len() ==> (#[trigger] dates@[i]).valid(),
    ensures
        strictly_sorted(res@.map_values(|p: (String, usize)| p.0@)),
        forall|k: Seq<char>| res@.map_values(|p: (String, usize)| p.0@).contains(k) <==> has_quarter(dates@, k),
        forall|m: int| 0 <= m < res@.len() ==> {
            let i = (#[trigger] res@[m]).1 as int;
            &&& 0 <= i < dates@.len()
            &&& quarter_text(dates@[i]) == res@[m].0@
            &&& latest_of_quarter(dates@, i)
        },
{
    let n = dates.len();
    let mut texts: Vec<String> = Vec::new();
    let mut keys: Vec<String> = Vec::new();
    let mut i: usize = 0;
    proof {
        assert(strs(keys@).to_set() =~= Set::<Seq<char>>::empty());
    }
    while i < n
        invariant
            n == dates@.len(),
            forall|t: int| 0 <= t < n ==> (#[trigger] dates@[t]).valid(),
            i <= n,
            texts@.len() == i,
            forall|t: int| 0 <= t < i ==> (#[trigger] texts@[t])@ == quarter_text(dates@[t]),
            strictly_sorted(strs(keys@)),
            forall|k: Seq<char>| strs(keys@).to_set().contains(k) <==>
                exists|t: int| 0 <= t < i && quarter_text(#[trigger] dates@[t]) == k,
        decreases n - i,
    {
        let q = quarter_string(&dates[i]);
        let ghost before = strs(keys@).to_set();
        insert_sorted(&mut keys, q.clone());
        proof {
            assert forall|k: Seq<char>| strs(keys@).to_set().contains(k) <==>
                exists|t: int| 0 <= t < i + 1 && quarter_text(#[trigger] dates@[t]) == k by {
                if k == q@ {
                    assert(quarter_text(dates@[i as int]) == k);
                }
                if exists|t: int| 0 <= t < i + 1 && quarter_text(#[trigger] dates@[t]) == k {
                    let t = choose|t: int| 0 <= t < i + 1 && quarter_text(#[trigger] dates@[t]) == k;
                    if t < i {
                        assert(before.contains(k));
                    }
                }
            }
        }
        texts.push(q);
        i = i + 1;
    }
    let mut out: Vec<(String, usize)> = Vec::new();
    let mut m: usize = 0;
    while m < keys.len()
        invariant
            n == dates@.len(),
            forall|t: int| 0 <= t < n ==> (#[trigger] dates@[t]).valid(),
            texts@.len() == n,
            forall|t: int| 0 <= t < n ==> (#[trigger] texts@[t])@ == quarter_text(dates@[t]),
            strictly_sorted(strs(keys@)),
            forall|k: Seq<char>| strs(keys@).to_set().contains(k) <==> has_quarter(dates@, k),
            m <= keys@.len(),
            out@.len() == m,
            forall|a: int| 0 <= a < m ==> (#[trigger] out@[a]).0@ == keys@[a]@,
            forall|a: int| 0 <= a < m ==> {
                let i = (#[trigger] out@[a]).1 as int;
                &&& 0 <= i < n
                &&& quarter_text(dates@[i]) == out@[a].0@
                &&& latest_of_quarter(dates@, i)
            },
        decreases keys@.len() - m,
    {
        let ghost key = keys@[m as int]@;
        proof {
            assert(strs(keys@)[m as int] == key);
            assert(strs(keys@).to_set().contains(key));
            assert(has_quarter(dates@, key));
        }
        let mut best: usize = n;
        let mut j: usize = 0;
        while j < n
            invariant
                n == dates@.len(),
                forall|t: int| 0 <= t < n ==> (#[trigger] dates@[t]).valid(),
                texts@.len() == n,
                forall|t: int| 0 <= t < n ==> (#[trigger] texts@[t])@ == quarter_text(dates@[t]),
                key == keys@[m as int]@,
                m < keys@.len(),
                has_quarter(dates@, key),
                j <= n,
                best <= n,
                best == n ==> forall|t: int| 0 <= t < j ==> quarter_text(#[trigger] dates@[t]) != key,
                best < n ==> best < j && quarter_text(dates@[best as int]) == key,
                best < n ==> forall|t: int| 0 <= t < j && quarter_text(#[trigger] dates@[t]) == key ==>
                    dates@[t].ord() < dates@[best as int].ord()
                    || (dates@[t].ord() == dates@[best as int].ord() && t <= best),
            decreases n - j,
        {
            if str_eq(texts[j].as_str(), keys[m].as_str()) {
                proof {
                    assert(dates@[j as int].valid());
                    if best < n {
                        assert(dates@[best as int].valid());
                    }
                }
                if best == n || dates[best].le(&dates[j]) {
                    best = j;
                }
            }
            j = j + 1;
        }
        if best == n {
            proof {
                let t = choose|t: int| 0 <= t < n && quarter_text(#[trigger] dates@[t]) == key;
                assert(false);
            }
            return out;
        }
        let ghost old_out = out@;
        out.push((keys[m].clone(), best));
        proof {
            assert(out@[m as int].0@ == key);
            assert(latest_of_quarter(dates@, best as int));
            assert forall|a: int| 0 <= a < m + 1 implies {
                let i = (#[trigger] out@[a]).1 as int;
                &&& 0 <= i < n
                &&& quarter_text(dates@[i]) == out@[a].0@
                &&& latest_of_quarter(dates@, i)
            } by {
                if a < m {
                    assert(out@[a] == old_out[a]);
                }
            }
        }
        m = m + 1;
    }
    proof {
        let ks = out@.map_values(|p: (String, usize)| p.0@);
        assert(ks =~= strs(keys@));
        assert forall|k: Seq<char>| ks.contains(k) <==> has_quarter(dates@, k) by {
            if ks.contains(k) {
                let a = choose|a: int| 0 <= a < ks.len() && ks[a] == k;
                assert(strs(keys@).to_set().contains(k));
            }
            if has_quarter(dates@, k) {
                assert(strs(keys@).to_set().contains(k));
                let a = choose|a: int| 0 <= a < strs(keys@).len() && strs(keys@)[a] == k;
                assert(ks[a] == k);
            }
        }
    }
    out
}

} // verus!
