//! Application configuration values.

use vstd::prelude::*;
use crate::text::{starts_with, chars_of, trim, trimmed, index_of, find_char, string_of_range, lemma_index_of, str_eq};
use crate::order::strs;
use crate::numparse::{parse_integer, parse_int};

verus! {

/// A Firefly III base URL that was checked to be an http or https URL.
#[derive(Clone, Debug)]
pub struct FireflyUrl(String);

/// The URL schemes that are accepted.
pub open spec fn is_http_url(s: Seq<char>) -> bool {
    ||| (7 <= s.len() && s.subrange(0, 7) == "http://"@)
    ||| (8 <= s.len() && s.subrange(0, 8) == "https://"@)
}

impl FireflyUrl {
    /// The text of the URL.
    pub closed spec fn text(&self) -> Seq<char> {
        self.0@
    }

    /// Accepts `raw` when it starts with `http://` or `https://`.
    pub fn validate(raw: String) -> (res: Result<FireflyUrl, String>)
        ensures
            is_http_url(raw@) ==> (res matches Ok(u) && u.text() == raw@),
            !is_http_url(raw@) ==> (res matches Err(e)
                && e@ == "FIREFLY_III_URL must be a valid HTTP/HTTPS URL. Got: "@ + raw@),
    {
        proof {
            reveal_strlit("http://");
            reveal_strlit("https://");
            reveal_strlit("FIREFLY_III_URL must be a valid HTTP/HTTPS URL. Got: ");
        }
        if starts_with(raw.as_str(), "http://") || starts_with(raw.as_str(), "https://") {
            Ok(FireflyUrl(raw))
        } else {
            let mut msg = String::from_str("FIREFLY_III_URL must be a valid HTTP/HTTPS URL. Got: ");
            msg.append(raw.as_str());
            Err(msg)
        }
    }

    /// The URL as text.
    pub fn as_str(&self) -> (res: &str)
        ensures
            res@ == self.text(),
    {
        self.0.as_str()
    }
}


/// Settings of the dashboard, read from the environment.
#[derive(Clone, Debug)]
pub struct Config {
    pub firefly_url: FireflyUrl,
    pub firefly_token: String,
    pub host: String,
    pub port: u16,
    pub account_types: Vec<String>,
    pub auto_fetch_accounts: bool,
    pub data_dir: String,
    /// Lifetime of cached chart data, in seconds.
    pub cache_ttl: u64,
    pub time_ranges: Vec<String>,
    pub default_time_range: String,
}

/// The cache lifetime setting: the value as a `u64`, `default` when it is
/// not one.
pub fn parse_cache_ttl(v: &str, default: u64) -> (res: u64)
    requires
        default <= i64::MAX,
    ensures
        res as int == match parse_int(v@, 0, i64::MAX as int) {
            Some(t) => t,
            None => default as int,
        },
{
    match parse_integer(v, 0, i64::MAX) {
        Some(t) => t as u64,
        None => default,
    }
}

/// The pieces of `s` between the `c`s (`s.split(c)`).
pub open spec fn split_all(s: Seq<char>, c: char) -> Seq<Seq<char>>
    decreases s.len(),
{
    match index_of(s, c) {
        Some(i) => if 0 <= i < s.len() { seq![s.take(i)] + split_all(s.skip(i + 1), c) } else { seq![s] },
        None => seq![s],
    }
}

/// A comma-separated setting: each item trimmed, empty items dropped.
pub open spec fn csv_items(s: Seq<char>) -> Seq<Seq<char>> {
    split_all(s, ',').map_values(|p: Seq<char>| trimmed(p)).filter(|p: Seq<char>| p.len() > 0)
}

/// Splits a comma-separated setting into its trimmed, non-empty items.
pub fn parse_list(raw: &str) -> (res: Vec<String>)
    ensures
        strs(res@) == csv_items(raw@),
{
    let v = chars_of(raw);
    let n = v.len();
    let mut start: usize = 0;
    let mut out: Vec<String> = Vec::new();
    let ghost all = csv_items(raw@);
    let ghost pieces_fn = |p: Seq<char>| trimmed(p);
    let ghost keep = |p: Seq<char>| p.len() > 0;
    proof {
        assert(v@.skip(0) =~= v@);
        assert(Seq::<Seq<char>>::empty() + csv_items(v@.skip(0)) =~= all);
    }
    loop
        invariant
            n == v@.len(),
            v@ == raw@,
            start <= n,
            all == csv_items(raw@),
            strs(out@) + csv_items(v@.skip(start as int)) == all,
        decreases n - start,
    {
        let ghost rest = v@.skip(start as int);
        proof { lemma_index_of(rest, ','); }
        let mut j = start;
        while j < n && v[j] != ','
            invariant
                start <= j <= n,
                n == v@.len(),
                forall|k: int| start <= k < j ==> v@[k] != ',',
            decreases n - j,
        {
            j = j + 1;
        }
        let piece = string_of_range(v.as_slice(), start, j);
        let t = trim(piece.as_str());
        let ghost before = strs(out@);
        proof {
            assert(piece@ == rest.take(j - start));
        }
        if j == n {
            proof {
                assert(index_of(rest, ',') is None) by {
                    if let Some(i) = index_of(rest, ',') {
                        assert(rest[i] == v@[start + i]);
                    }
                }
                assert(rest.take(j - start) =~= rest);
                assert(split_all(rest, ',') == seq![rest]);
                reveal_with_fuel(Seq::<Seq<char>>::filter, 2);
                assert(seq![rest].map_values(|p: Seq<char>| trimmed(p)) =~= seq![trimmed(rest)]);
            }
            if t.as_str().unicode_len() > 0 {
                out.push(t);
                proof {
                    assert(csv_items(rest) =~= seq![trimmed(rest)]);
                    assert(strs(out@) =~= before.push(trimmed(rest)));
                    assert(v@.skip(n as int) =~= Seq::<char>::empty());
                    assert(split_all(Seq::<char>::empty(), ',') == seq![Seq::<char>::empty()]);
                }
            } else {
                proof {
                    assert(csv_items(rest) =~= Seq::<Seq<char>>::empty());
                }
            }
            proof {
                assert(strs(out@) =~= all) by {
                    assert(before + csv_items(rest) == all);
                }
            }
            return out;
        }
        proof {
            assert(index_of(rest, ',') == Some(j - start)) by {
                assert(rest[j - start] == ',');
                if let Some(i) = index_of(rest, ',') {
                    if i < j - start {
                        assert(rest[i] == v@[start + i]);
                    }
                }
            }
            assert(rest.skip(j - start + 1) =~= v@.skip(j + 1));
            let tail = v@.skip(j + 1);
            assert(split_all(rest, ',') == seq![rest.take(j - start)] + split_all(tail, ','));
            let mapped = split_all(rest, ',').map_values(|p: Seq<char>| trimmed(p));
            assert(mapped =~= seq![trimmed(rest.take(j - start))] + split_all(tail, ',').map_values(|p: Seq<char>| trimmed(p)));
            lemma_filter_cons(trimmed(rest.take(j - start)), split_all(tail, ',').map_values(|p: Seq<char>| trimmed(p)));
        }
        if t.as_str().unicode_len() > 0 {
            out.push(t);
            proof {
                assert(strs(out@) =~= before.push(t@));
                assert(before.push(t@) + csv_items(v@.skip(j + 1)) =~= before + (seq![t@] + csv_items(v@.skip(j + 1))));
            }
        } else {
            proof {
                assert(before + csv_items(v@.skip(j + 1)) == all);
            }
        }
        start = j + 1;
    }
}

proof fn lemma_filter_cons(x: Seq<char>, rest: Seq<Seq<char>>)
    ensures
        (seq![x] + rest).filter(|p: Seq<char>| p.len() > 0) == if x.len() > 0 {
            seq![x] + rest.filter(|p: Seq<char>| p.len() > 0)
        } else {
            rest.filter(|p: Seq<char>| p.len() > 0)
        },
    decreases rest.len(),
{
    let f = |p: Seq<char>| p.len() > 0;
    reveal_with_fuel(Seq::<Seq<char>>::filter, 1);
    if rest.len() == 0 {
        assert((seq![x] + rest) =~= seq![x]);
        assert(seq![x].drop_last() =~= Seq::<Seq<char>>::empty());
        if x.len() > 0 {
            assert(seq![x] + Seq::<Seq<char>>::empty() =~= seq![x]);
        }
    } else {
        let s = seq![x] + rest;
        assert(s.drop_last() =~= seq![x] + rest.drop_last());
        lemma_filter_cons(x, rest.drop_last());
        assert(s.last() == rest.last());
        if x.len() > 0 {
            if f(rest.last()) {
                assert(seq![x] + rest.drop_last().filter(f).push(rest.last()) =~= (seq![x] + rest.drop_last().filter(f)).push(rest.last()));
            }
        }
    }
}

/// `v.trim().to_lowercase() == "true" || v.trim() == "1"`: the trimmed
/// value is `1` or `true` in any letter case (no other characters lower-case
/// to these letters).
pub open spec fn flag_text(v: Seq<char>) -> bool {
    let t = trimmed(v);
    t == "1"@ || (t.len() == 4
        && (t[0] == 't' || t[0] == 'T') && (t[1] == 'r' || t[1] == 'R')
        && (t[2] == 'u' || t[2] == 'U') && (t[3] == 'e' || t[3] == 'E'))
}

/// Reads a yes/no setting: `true` (any letter case) or `1`.
pub fn parse_flag(v: &str) -> (res: bool)
    ensures
        res == flag_text(v@),
{
    proof { reveal_strlit("1"); }
    let t = trim(v);
    let c = chars_of(t.as_str());
    if str_eq(t.as_str(), "1") {
        return true;
    }
    c.len() == 4 && (c[0] == 't' || c[0] == 'T') && (c[1] == 'r' || c[1] == 'R')
        && (c[2] == 'u' || c[2] == 'U') && (c[3] == 'e' || c[3] == 'E')
}

/// The port setting: the value as a `u16`, 8080 when it is not one.
pub fn parse_port(v: &str) -> (res: u16)
    ensures
        res as int == match parse_int(v@, 0, 65535) {
            Some(p) => p,
            None => 8080,
        },
{
    match parse_integer(v, 0, 65535) {
        Some(p) => p as u16,
        None => 8080,
    }
}
} // verus!
