//! The in-memory tier of the chart data cache: entries with an expiry time,
//! one table per kind of chart data, and the keys they are stored under.

use vstd::prelude::*;
use crate::exclusions::{Exclusions, join, join_strings, cache_key_text};
use crate::order::strs;
use crate::text::str_eq;

verus! {

/// Version tag at the start of every key; changing it retires all entries.
pub open spec fn cache_version_text() -> Seq<char> {
    "v2"@
}

/// One cached value and the last second (Unix time) it may be served at.
#[derive(Debug)]
pub struct CacheEntry {
    pub key: String,
    pub data: String,
    pub expires_at: i64,
}

/// A table of cached values by key.
#[derive(Debug)]
pub struct MemoryCache {
    entries: Vec<CacheEntry>,
}

/// The table the entries make, later entries replacing earlier ones with the
/// same key.
pub open spec fn table_of(s: Seq<CacheEntry>) -> Map<Seq<char>, (Seq<char>, int)>
    decreases s.len(),
{
    if s.len() == 0 {
        Map::empty()
    } else {
        table_of(s.drop_last()).insert(s.last().key@, (s.last().data@, s.last().expires_at as int))
    }
}

/// Position of the last entry with key `k`.
pub open spec fn last_with_key(s: Seq<CacheEntry>, k: Seq<char>) -> Option<int>
    decreases s.len(),
{
    if s.len() == 0 {
        None
    } else if s.last().key@ == k {
        Some(s.len() - 1)
    } else {
        last_with_key(s.drop_last(), k)
    }
}

proof fn lemma_last_with_key(s: Seq<CacheEntry>, k: Seq<char>)
    ensures
        match last_with_key(s, k) {
            Some(i) => 0 <= i < s.len() && s[i].key@ == k && table_of(s).contains_key(k)
                && table_of(s)[k] == (s[i].data@, s[i].expires_at as int)
                && (forall|m: int| i < m < s.len() ==> s[m].key@ != k),
            None => !table_of(s).contains_key(k) && (forall|m: int| 0 <= m < s.len() ==> s[m].key@ != k),
        },
    decreases s.len(),
{
    if s.len() > 0 {
        lemma_last_with_key(s.drop_last(), k);
        if s.last().key@ != k {
            assert forall|m: int| 0 <= m < s.len() - 1 implies s[m] == s.drop_last()[m] by {}
        }
    }
}

proof fn lemma_update_last(s: Seq<CacheEntry>, i: int, e: CacheEntry)
    requires
        last_with_key(s, e.key@) == Some(i),
    ensures
        table_of(s.update(i, e)) == table_of(s).insert(e.key@, (e.data@, e.expires_at as int)),
    decreases s.len(),
{
    lemma_last_with_key(s, e.key@);
    let t = s.update(i, e);
    if i == s.len() - 1 {
        assert(t.drop_last() =~= s.drop_last());
        assert(table_of(t) =~= table_of(s).insert(e.key@, (e.data@, e.expires_at as int)));
    } else {
        assert(t.drop_last() =~= s.drop_last().update(i, e));
        assert(s.last().key@ != e.key@);
        lemma_update_last(s.drop_last(), i, e);
        assert(table_of(t) =~= table_of(s).insert(e.key@, (e.data@, e.expires_at as int)));
    }
}

impl MemoryCache {
    /// The table as a map from key to (data, expiry).
    pub closed spec fn view(&self) -> Map<Seq<char>, (Seq<char>, int)> {
        table_of(self.entries@)
    }

    pub fn new() -> (res: MemoryCache)
        ensures
            res.view() == Map::<Seq<char>, (Seq<char>, int)>::empty(),
    {
        MemoryCache { entries: Vec::new() }
    }

    fn find_last(&self, key: &str) -> (res: Option<usize>)
        ensures
            match res {
                Some(i) => last_with_key(self.entries@, key@) == Some(i as int),
                None => last_with_key(self.entries@, key@) is None,
            },
    {
        let mut i: usize = self.entries.len();
        proof { assert(self.entries@.take(i as int) =~= self.entries@); }
        while i > 0
            invariant
                i <= self.entries@.len(),
                last_with_key(self.entries@, key@) == last_with_key(self.entries@.take(i as int), key@),
            decreases i,
        {
            let ghost pre = self.entries@.take(i as int);
            proof { assert(pre.drop_last() =~= self.entries@.take(i - 1)); }
            if str_eq(self.entries[i - 1].key.as_str(), key) {
                return Some(i - 1);
            }
            i = i - 1;
        }
        proof { assert(self.entries@.take(0) =~= Seq::<CacheEntry>::empty()); }
        None
    }

    /// The data stored under `key`, when it has not expired at time `now`.
    pub fn lookup(&self, key: &str, now: i64) -> (res: Option<String>)
        ensures
            (match res { Some(d) => Some(d@), None => None }) == lookup_spec(self.view(), key@, now as int),
    {
        proof { lemma_last_with_key(self.entries@, key@); }
        match self.find_last(key) {
            Some(i) => {
                if now > self.entries[i].expires_at {
                    None
                } else {
                    Some(self.entries[i].data.clone())
                }
            },
            None => None,
        }
    }

    /// Stores `data` under `key` until `expires_at`, replacing what was
    /// stored under that key.
    pub fn store(&mut self, key: String, data: String, expires_at: i64)
        ensures
            final(self).view() == old(self).view().insert(key@, (data@, expires_at as int)),
    {
        match self.find_last(key.as_str()) {
            Some(i) => {
                let ghost before = self.entries@;
                proof { lemma_last_with_key(before, key@); }
                let e = CacheEntry { key, data, expires_at };
                proof { lemma_update_last(before, i as int, e); }
                self.entries.set(i, e);
            },
            None => {
                let ghost before = self.entries@;
                self.entries.push(CacheEntry { key, data, expires_at });
                proof { assert(self.entries@.drop_last() =~= before); }
            },
        }
    }

    /// Removes every entry.
    pub fn clear(&mut self)
        ensures
            final(self).view() == Map::<Seq<char>, (Seq<char>, int)>::empty(),
    {
        self.entries = Vec::new();
    }
}

/// What a lookup at time `now` gives: the stored data when the key is present
/// and has not expired.
pub open spec fn lookup_spec(t: Map<Seq<char>, (Seq<char>, int)>, key: Seq<char>, now: int) -> Option<Seq<char>> {
    if t.contains_key(key) && now <= t[key].1 { Some(t[key].0) } else { None }
}

/// Reading a key back after storing it, at any time up to its expiry, gives
/// the stored data.
pub proof fn lemma_read_after_write(t: Map<Seq<char>, (Seq<char>, int)>, key: Seq<char>, data: Seq<char>, expires_at: int, now: int)
    requires
        now <= expires_at,
    ensures
        lookup_spec(t.insert(key, (data, expires_at)), key, now) == Some(data),
{
}

/// Storing under one key leaves every other key as it was.
pub proof fn lemma_write_keeps_other_keys(t: Map<Seq<char>, (Seq<char>, int)>, key: Seq<char>, data: Seq<char>, expires_at: int, other: Seq<char>, now: int)
    requires
        other != key,
    ensures
        lookup_spec(t.insert(key, (data, expires_at)), other, now) == lookup_spec(t, other, now),
{
}

/// Nothing is found in an emptied table.
pub proof fn lemma_read_after_clear(key: Seq<char>, now: int)
    ensures
        lookup_spec(Map::<Seq<char>, (Seq<char>, int)>::empty(), key, now) is None,
{
}

/// An entry is no longer served once its expiry has passed.
pub proof fn lemma_expired_not_served(t: Map<Seq<char>, (Seq<char>, int)>, key: Seq<char>, now: int)
    requires
        t.contains_key(key),
        now > t[key].1,
    ensures
        lookup_spec(t, key, now) is None,
{
}


/// Default lifetime of cached chart data, in seconds (five minutes).
pub const DEFAULT_TTL_SECONDS: u64 = 300;

/// Lifetime given to an entry promoted from the persistent tier into memory.
pub const PROMOTE_TTL_SECONDS: u64 = 3600;

/// The expiry of an entry stored at `now` for `ttl` seconds.
pub fn expiry(now: i64, ttl: u64) -> (res: i64)
    requires
        ttl <= i64::MAX,
        now + ttl <= i64::MAX,
    ensures
        res == now + ttl,
{
    now + ttl as i64
}

impl MemoryCache {
    /// Stores `data` under `key` at time `now`, to live `ttl` seconds.
    pub fn store_fresh(&mut self, key: String, data: String, now: i64, ttl: u64)
        requires
            ttl <= i64::MAX,
            now + ttl <= i64::MAX,
        ensures
            final(self).view() == old(self).view().insert(key@, (data@, now + ttl)),
    {
        let at = expiry(now, ttl);
        self.store(key, data, at);
    }

    /// The second step of a tiered read, after memory missed: what the
    /// persistent tier gave is returned and, when there was something,
    /// promoted into memory for `PROMOTE_TTL_SECONDS`.
    pub fn promote(&mut self, key: String, persisted: Option<String>, now: i64) -> (res: Option<String>)
        requires
            now + PROMOTE_TTL_SECONDS <= i64::MAX,
        ensures
            (match res { Some(d) => Some(d@), None => None })
                == (match persisted { Some(d) => Some(d@), None => None }),
            match persisted {
                Some(d) => final(self).view() == old(self).view().insert(key@, (d@, now + PROMOTE_TTL_SECONDS)),
                None => final(self).view() == old(self).view(),
            },
    {
        match persisted {
            Some(d) => {
                let copy = d.clone();
                self.store_fresh(key, d, now, PROMOTE_TTL_SECONDS);
                Some(copy)
            },
            None => None,
        }
    }
}

/// `v2:<kind>:<part>:<part>...`
pub open spec fn key_text(kind: Seq<char>, parts: Seq<Seq<char>>) -> Seq<char> {
    join(seq![cache_version_text(), kind] + parts, ":"@)
}

/// A key part from an optional value, `dflt` when absent.
pub open spec fn part_or(o: Option<Seq<char>>, dflt: Seq<char>) -> Seq<char> {
    match o {
        Some(s) => s,
        None => dflt,
    }
}

/// The accounts part of a key: the ids joined by commas, `all` when absent.
pub open spec fn accounts_part(ids: Option<Seq<Seq<char>>>) -> Seq<char> {
    match ids {
        Some(v) => join(v, ","@),
        None => "all"@,
    }
}

/// The key parts with the exclusions appended, when there are any.
pub open spec fn with_exclusions(parts: Seq<Seq<char>>, ex: Exclusions) -> Seq<Seq<char>> {
    let k = cache_key_text(ex.cats(), ex.buds());
    if k.len() == 0 { parts } else { parts.push(k) }
}

/// Exclusions leave a cache key as it is when they are empty, and change
/// it otherwise: charts made with and without exclusions never share an
/// entry, while keys made without exclusions stay as they were.
pub proof fn lemma_exclusions_key(kind: Seq<char>, parts: Seq<Seq<char>>, ex: Exclusions)
    ensures
        cache_key_text(ex.cats(), ex.buds()).len() == 0 ==> key_text(kind, with_exclusions(parts, ex)) == key_text(kind, parts),
        cache_key_text(ex.cats(), ex.buds()).len() > 0 ==> key_text(kind, with_exclusions(parts, ex)) != key_text(kind, parts),
{
    let k = cache_key_text(ex.cats(), ex.buds());
    if k.len() > 0 {
        let base = seq![cache_version_text(), kind] + parts;
        assert(seq![cache_version_text(), kind] + parts.push(k) =~= base.push(k));
        assert(base.push(k).drop_last() =~= base);
        assert(join(base.push(k), ":"@) == join(base, ":"@) + ":"@ + k);
        assert(join(base.push(k), ":"@).len() > join(base, ":"@).len());
    }
}

/// An optional `&str` as optional text.
pub open spec fn ostr(o: Option<&str>) -> Option<Seq<char>> {
    match o {
        Some(s) => Some(s@),
        None => None,
    }
}

/// An optional list of ids as optional text.
pub open spec fn oids(o: Option<&Vec<String>>) -> Option<Seq<Seq<char>>> {
    match o {
        Some(v) => Some(strs(v@)),
        None => None,
    }
}

fn key_of(kind: &str, parts: Vec<String>) -> (res: String)
    ensures
        res@ == key_text(kind@, strs(parts@)),
{
    proof { reveal_strlit("v2"); }
    let mut all: Vec<String> = Vec::new();
    all.push(String::from_str("v2"));
    all.push(String::from_str(kind));
    let mut rest = parts;
    let ghost pv = strs(rest@);
    all.append(&mut rest);
    proof { assert(strs(all@) =~= seq![cache_version_text(), kind@] + pv); }
    join_strings(&all, ":")
}

fn part(o: Option<&str>, dflt: &str) -> (res: String)
    ensures
        res@ == part_or(ostr(o), dflt@),
{
    match o {
        Some(s) => String::from_str(s),
        None => String::from_str(dflt),
    }
}

fn accounts(ids: Option<&Vec<String>>) -> (res: String)
    ensures
        res@ == accounts_part(oids(ids)),
{
    proof { reveal_strlit("all"); }
    match ids {
        Some(v) => join_strings(v, ","),
        None => String::from_str("all"),
    }
}

fn push_exclusions(parts: &mut Vec<String>, ex: &Exclusions)
    ensures
        strs(final(parts)@) == with_exclusions(strs(old(parts)@), *ex),
{
    let k = ex.cache_key();
    if k.as_str().unicode_len() > 0 {
        let ghost before = strs(parts@);
        parts.push(k);
        proof { assert(strs(parts@) =~= before.push(k@)); }
    }
}

/// Key of the accounts list for a type filter (`all` without one).
pub fn account_key(type_filter: Option<&str>) -> (res: String)
    ensures
        res@ == key_text("accounts"@, seq![part_or(ostr(type_filter), "all"@)]),
{
    let mut parts: Vec<String> = Vec::new();
    parts.push(part(type_filter, "all"));
    proof { assert(strs(parts@) =~= seq![part_or(ostr(type_filter), "all"@)]); }
    key_of("accounts", parts)
}

/// Key of a balance history chart.
pub fn balance_history_key(account_ids: Option<&Vec<String>>, start_date: Option<&str>, end_date: Option<&str>, period: Option<&str>) -> (res: String)
    ensures
        res@ == key_text("balance"@, seq![accounts_part(oids(account_ids)), part_or(ostr(start_date), "default"@),
            part_or(ostr(end_date), "default"@), part_or(ostr(period), "default"@)]),
{
    let mut parts: Vec<String> = Vec::new();
    parts.push(accounts(account_ids));
    parts.push(part(start_date, "default"));
    parts.push(part(end_date, "default"));
    parts.push(part(period, "default"));
    proof {
        assert(strs(parts@) =~= seq![accounts_part(oids(account_ids)), part_or(ostr(start_date), "default"@),
            part_or(ostr(end_date), "default"@), part_or(ostr(period), "default"@)]);
    }
    key_of("balance", parts)
}

/// Key of a (start, end) query of the given kind (`budgets`, `budget_spent`).
pub fn range_key(kind: &str, start_date: Option<&str>, end_date: Option<&str>) -> (res: String)
    ensures
        res@ == key_text(kind@, seq![part_or(ostr(start_date), "default"@), part_or(ostr(end_date), "default"@)]),
{
    let mut parts: Vec<String> = Vec::new();
    parts.push(part(start_date, "default"));
    parts.push(part(end_date, "default"));
    proof {
        assert(strs(parts@) =~= seq![part_or(ostr(start_date), "default"@), part_or(ostr(end_date), "default"@)]);
    }
    key_of(kind, parts)
}

/// Key of a budget list.
pub fn budget_key(start_date: Option<&str>, end_date: Option<&str>) -> (res: String)
    ensures
        res@ == key_text("budgets"@, seq![part_or(ostr(start_date), "default"@), part_or(ostr(end_date), "default"@)]),
{
    range_key("budgets", start_date, end_date)
}

/// Key of a budget-spent chart; exclusions are appended when present.
pub fn budget_spent_key(start_date: Option<&str>, end_date: Option<&str>, ex: &Exclusions) -> (res: String)
    ensures
        res@ == key_text("budget_spent"@, with_exclusions(seq![part_or(ostr(start_date), "default"@),
            part_or(ostr(end_date), "default"@)], *ex)),
{
    let mut parts: Vec<String> = Vec::new();
    parts.push(part(start_date, "default"));
    parts.push(part(end_date, "default"));
    proof {
        assert(strs(parts@) =~= seq![part_or(ostr(start_date), "default"@), part_or(ostr(end_date), "default"@)]);
    }
    push_exclusions(&mut parts, ex);
    key_of("budget_spent", parts)
}

/// Parts of a time series key: start, end, period, accounts.
pub open spec fn series_parts(start_date: Option<&str>, end_date: Option<&str>, period: Option<&str>, account_ids: Option<&Vec<String>>) -> Seq<Seq<char>> {
    seq![part_or(ostr(start_date), "default"@), part_or(ostr(end_date), "default"@),
        part_or(ostr(period), "default"@), accounts_part(oids(account_ids))]
}

fn series_parts_of(start_date: Option<&str>, end_date: Option<&str>, period: Option<&str>, account_ids: Option<&Vec<String>>) -> (res: Vec<String>)
    ensures
        strs(res@) == series_parts(start_date, end_date, period, account_ids),
{
    let mut parts: Vec<String> = Vec::new();
    parts.push(part(start_date, "default"));
    parts.push(part(end_date, "default"));
    parts.push(part(period, "default"));
    parts.push(accounts(account_ids));
    proof { assert(strs(parts@) =~= series_parts(start_date, end_date, period, account_ids)); }
    parts
}

/// Key of a budget-spent history chart; exclusions are appended when present.
pub fn budget_spent_history_key(start_date: Option<&str>, end_date: Option<&str>, period: Option<&str>, account_ids: Option<&Vec<String>>, ex: &Exclusions) -> (res: String)
    ensures
        res@ == key_text("budget_spent_hist"@, with_exclusions(series_parts(start_date, end_date, period, account_ids), *ex)),
{
    let mut parts = series_parts_of(start_date, end_date, period, account_ids);
    push_exclusions(&mut parts, ex);
    key_of("budget_spent_hist", parts)
}

/// Key of an earned/spent chart; exclusions are appended when present.
pub fn earned_spent_key(start_date: Option<&str>, end_date: Option<&str>, period: Option<&str>, account_ids: Option<&Vec<String>>, ex: &Exclusions) -> (res: String)
    ensures
        res@ == key_text("earned_spent"@, with_exclusions(series_parts(start_date, end_date, period, account_ids), *ex)),
{
    let mut parts = series_parts_of(start_date, end_date, period, account_ids);
    push_exclusions(&mut parts, ex);
    key_of("earned_spent", parts)
}

/// Key of an expenses-by-category chart (graph mode `subcategory` by
/// default); exclusions are appended when present.
pub fn expenses_category_key(start_date: Option<&str>, end_date: Option<&str>, period: Option<&str>, account_ids: Option<&Vec<String>>, graph_mode: Option<&str>, ex: &Exclusions) -> (res: String)
    ensures
        res@ == key_text("expenses_cat"@, with_exclusions(
            series_parts(start_date, end_date, period, account_ids).push(part_or(ostr(graph_mode), "subcategory"@)), *ex)),
{
    let mut parts = series_parts_of(start_date, end_date, period, account_ids);
    let ghost before = strs(parts@);
    parts.push(part(graph_mode, "subcategory"));
    proof { assert(strs(parts@) =~= before.push(part_or(ostr(graph_mode), "subcategory"@))); }
    push_exclusions(&mut parts, ex);
    key_of("expenses_cat", parts)
}

/// Key of a net worth chart.
pub fn net_worth_key(start_date: Option<&str>, end_date: Option<&str>, period: Option<&str>) -> (res: String)
    ensures
        res@ == key_text("net_worth"@, seq![part_or(ostr(start_date), "default"@), part_or(ostr(end_date), "default"@),
            part_or(ostr(period), "default"@)]),
{
    let mut parts: Vec<String> = Vec::new();
    parts.push(part(start_date, "default"));
    parts.push(part(end_date, "default"));
    parts.push(part(period, "default"));
    proof {
        assert(strs(parts@) =~= seq![part_or(ostr(start_date), "default"@), part_or(ostr(end_date), "default"@),
            part_or(ostr(period), "default"@)]);
    }
    key_of("net_worth", parts)
}

/// Key of a subcategory spend chart; exclusions are appended when present.
pub fn subcategory_spend_key(
    parent_categories: &Vec<String>,
    subcategories: &Vec<String>,
    start_date: Option<&str>,
    end_date: Option<&str>,
    period: Option<&str>,
    account_ids: Option<&Vec<String>>,
    graph_mode: Option<&str>,
    ex: &Exclusions,
) -> (res: String)
    ensures
        res@ == key_text("subcat_spend"@, with_exclusions(
            seq![join(strs(parent_categories@), ","@), join(strs(subcategories@), ","@)]
                + series_parts(start_date, end_date, period, account_ids)
                    .push(part_or(ostr(graph_mode), "subcategory"@)), *ex)),
{
    let mut parts: Vec<String> = Vec::new();
    parts.push(join_strings(parent_categories, ","));
    parts.push(join_strings(subcategories, ","));
    let mut rest = series_parts_of(start_date, end_date, period, account_ids);
    let ghost a = strs(parts@);
    let ghost b = strs(rest@);
    parts.append(&mut rest);
    let ghost c = strs(parts@);
    parts.push(part(graph_mode, "subcategory"));
    proof {
        assert(c =~= a + b);
        assert(strs(parts@) =~= seq![join(strs(parent_categories@), ","@), join(strs(subcategories@), ","@)]
            + series_parts(start_date, end_date, period, account_ids).push(part_or(ostr(graph_mode), "subcategory"@)));
    }
    push_exclusions(&mut parts, ex);
    key_of("subcat_spend", parts)
}

/// Key of the category list.
pub fn categories_key() -> (res: String)
    ensures
        res@ == key_text("categories"@, Seq::empty()),
{
    let parts: Vec<String> = Vec::new();
    proof { assert(strs(parts@) =~= Seq::<Seq<char>>::empty()); }
    key_of("categories", parts)
}

/// Key of the limits of one budget over a range.
pub fn budget_limit_key(budget_id: &str, start_date: Option<&str>, end_date: Option<&str>) -> (res: String)
    ensures
        res@ == key_text("budget_limit"@, seq![budget_id@, part_or(ostr(start_date), "default"@),
            part_or(ostr(end_date), "default"@)]),
{
    let mut parts: Vec<String> = Vec::new();
    parts.push(String::from_str(budget_id));
    parts.push(part(start_date, "default"));
    parts.push(part(end_date, "default"));
    proof {
        assert(strs(parts@) =~= seq![budget_id@, part_or(ostr(start_date), "default"@), part_or(ostr(end_date), "default"@)]);
    }
    key_of("budget_limit", parts)
}

/// Key of a card paydown analysis.
pub fn card_paydown_key(account_ids: &Vec<String>, start_date: Option<&str>, end_date: Option<&str>) -> (res: String)
    ensures
        res@ == key_text("card_paydown"@, seq![join(strs(account_ids@), ","@),
            part_or(ostr(start_date), "default"@), part_or(ostr(end_date), "default"@)]),
{
    let mut parts: Vec<String> = Vec::new();
    parts.push(join_strings(account_ids, ","));
    parts.push(part(start_date, "default"));
    parts.push(part(end_date, "default"));
    proof {
        assert(strs(parts@) =~= seq![join(strs(account_ids@), ","@), part_or(ostr(start_date), "default"@),
            part_or(ostr(end_date), "default"@)]);
    }
    key_of("card_paydown", parts)
}

/// Key of a Sankey flow; exclusions are appended when present.
pub fn sankey_flow_key(account_ids: &Vec<String>, flow_type: &str, start_date: Option<&str>, end_date: Option<&str>, ex: &Exclusions) -> (res: String)
    ensures
        res@ == key_text("sankey"@, with_exclusions(seq![join(strs(account_ids@), ","@), flow_type@,
            part_or(ostr(start_date), "default"@), part_or(ostr(end_date), "default"@)], *ex)),
{
    let mut parts: Vec<String> = Vec::new();
    parts.push(join_strings(account_ids, ","));
    parts.push(String::from_str(flow_type));
    parts.push(part(start_date, "default"));
    parts.push(part(end_date, "default"));
    proof {
        assert(strs(parts@) =~= seq![join(strs(account_ids@), ","@), flow_type@,
            part_or(ostr(start_date), "default"@), part_or(ostr(end_date), "default"@)]);
    }
    push_exclusions(&mut parts, ex);
    key_of("sankey", parts)
}

/// Key of a monthly summary; exclusions are appended when present.
pub fn monthly_summary_key(month: &str, ex: &Exclusions) -> (res: String)
    ensures
        res@ == key_text("monthly_summary"@, with_exclusions(seq![month@], *ex)),
{
    let mut parts: Vec<String> = Vec::new();
    parts.push(String::from_str(month));
    proof { assert(strs(parts@) =~= seq![month@]); }
    push_exclusions(&mut parts, ex);
    key_of("monthly_summary", parts)
}

/// Key of a reimbursement summary: the range, the reimbursement categories,
/// then the work-expense markers (in the form of an exclusion list) when
/// there are any.
pub fn reimbursement_key(start: &str, end: &str, expense_markers: &Exclusions, reimbursement_categories: &Vec<String>) -> (res: String)
    ensures
        res@ == key_text("reimbursement"@, with_exclusions(seq![start@, end@,
            join(strs(reimbursement_categories@), ","@)], *expense_markers)),
{
    let mut parts: Vec<String> = Vec::new();
    parts.push(String::from_str(start));
    parts.push(String::from_str(end));
    parts.push(join_strings(reimbursement_categories, ","));
    proof {
        assert(strs(parts@) =~= seq![start@, end@, join(strs(reimbursement_categories@), ","@)]);
    }
    push_exclusions(&mut parts, expense_markers);
    key_of("reimbursement", parts)
}

/// Prefix shared by every key of a kind, for clearing the persistent tier.
pub fn kind_prefix(kind: &str) -> (res: String)
    ensures
        res@ == cache_version_text() + ":"@ + kind@ + ":"@,
{
    proof { reveal_strlit("v2:"); reveal_strlit(":"); reveal_strlit("v2"); }
    let mut s = String::from_str("v2:");
    s.append(kind);
    s.append(":");
    proof { assert(s@ =~= cache_version_text() + ":"@ + kind@ + ":"@); }
    s
}
} // verus!
