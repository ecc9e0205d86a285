//! Which chart series and bucket each journal entry contributes to.

use vstd::prelude::*;
use crate::calendar::{ymd_of, period_key_text, parse_date, format_period_key};
use crate::exclusions::{Exclusions, contains_str};
use crate::journal::{
    Journal, or_empty, text_or_empty, spent_for_charts, journal_excluded, is_journal_spent,
    journal_is_excluded,
};
use crate::order::strs;
use crate::periods::{period_key_of, get_period_key};
use crate::text::{
    first_segment, after_first, trimmed, first_segment_of, trim, chars_of, find_char,
    string_of_range, lemma_index_of, str_eq, index_of, lemma_trimmed_lacks,
};

verus! {

/// `key` when it is one of the generated keys, else the last generated key
/// (when there is one).
pub open spec fn snap_to_keys(key: Seq<char>, keys: Seq<Seq<char>>) -> Seq<char> {
    if keys.contains(key) || keys.len() == 0 { key } else { keys.last() }
}

/// The bucket an earned/spent amount goes to: the period key of its date,
/// moved to the last generated key when it is not one of them (a partial end
/// month); a date chrono cannot read as a timestamp is read by its
/// `"%Y-%m-%d"` part.
pub open spec fn earned_spent_bucket(date: Seq<char>, period: Seq<char>, end: Seq<char>, keys: Seq<Seq<char>>) -> Seq<char> {
    let key = period_key_of(date, period, Some(end));
    if key == date && ymd_of(first_segment(date, 'T')) is Some {
        snap_to_keys(period_key_text(ymd_of(first_segment(date, 'T'))->0), keys)
    } else {
        snap_to_keys(key, keys)
    }
}

/// Law: once a range has buckets, every earned/spent amount lands in one of
/// them, so the chart never grows a point of its own.
pub proof fn lemma_bucket_is_generated(date: Seq<char>, period: Seq<char>, end: Seq<char>, keys: Seq<Seq<char>>)
    requires
        keys.len() > 0,
    ensures
        keys.contains(earned_spent_bucket(date, period, end, keys)),
{
    assert(keys[keys.len() - 1] == keys.last());
}

/// Law: an amount keeps the bucket of its own date whenever that bucket is
/// one of the generated keys; only a key the range did not generate (a
/// partial end month) moves, and it moves to the last generated key. A
/// timestamp chrono cannot read is keyed by its `"%Y-%m-%d"` part in the
/// same way.
pub proof fn lemma_bucket_keeps_generated_key(date: Seq<char>, period: Seq<char>, end: Seq<char>, keys: Seq<Seq<char>>)
    ensures ({
        let key = period_key_of(date, period, Some(end));
        let bucket = earned_spent_bucket(date, period, end, keys);
        &&& key != date && keys.contains(key) ==> bucket == key
        &&& key != date && !keys.contains(key) && keys.len() > 0 ==> bucket == keys[keys.len() - 1]
        &&& key == date && ymd_of(first_segment(date, 'T')) is None && keys.contains(key) ==> bucket == key
        &&& (key == date && ymd_of(first_segment(date, 'T')) is Some
            && keys.contains(period_key_text(ymd_of(first_segment(date, 'T'))->0)))
            ==> bucket == period_key_text(ymd_of(first_segment(date, 'T'))->0)
        &&& keys.len() > 0 ==> keys.contains(bucket)
    }),
{
    if keys.len() > 0 {
        lemma_bucket_is_generated(date, period, end, keys);
    }
}

fn snap(key: String, keys: &Vec<String>) -> (res: String)
    ensures
        res@ == snap_to_keys(key@, strs(keys@)),
{
    if contains_str(keys, key.as_str()) || keys.len() == 0 {
        key
    } else {
        keys[keys.len() - 1].clone()
    }
}

/// The key of the earned/spent bucket a journal dated `date` falls in.
pub fn earned_spent_key(date: &str, period: &str, end: &str, period_keys: &Vec<String>) -> (res: String)
    ensures
        res@ == earned_spent_bucket(date@, period@, end@, strs(period_keys@)),
{
    let key = get_period_key(date, period, Some(end));
    if str_eq(key.as_str(), date) {
        let part = first_segment_of(date, 'T');
        match parse_date(part.as_str()) {
            Ok(d) => {
                let parsed_key = format_period_key(&d);
                return snap(parsed_key, period_keys);
            },
            Err(_) => {},
        }
    }
    snap(key, period_keys)
}

/// The full category name of a journal, `"Uncategorized"` when it has none.
pub open spec fn category_or_uncategorized(j: Journal) -> Seq<char> {
    match j.category_name {
        Some(c) => c@,
        None => "Uncategorized"@,
    }
}

/// The expense-by-category series a journal adds to: its full category, or
/// in parent mode the trimmed part before the first `:`. `None` for journals
/// that are not spent or are excluded.
pub open spec fn expense_series(j: Journal, sel: Seq<Seq<char>>, ex: Exclusions, parent_mode: bool) -> Option<Seq<char>> {
    if !spent_for_charts(j, sel) || journal_excluded(ex, j) {
        None
    } else if parent_mode {
        Some(trimmed(first_segment(category_or_uncategorized(j), ':')))
    } else {
        Some(category_or_uncategorized(j))
    }
}

/// Law: parent mode groups the same journals as full mode, under the
/// trimmed part of the full category before its first `:`; a parent-mode
/// series never holds a `:`, and a full-mode series is the journal's own
/// category name.
pub proof fn lemma_parent_series(j: Journal, sel: Seq<Seq<char>>, ex: Exclusions)
    ensures
        expense_series(j, sel, ex, true) is Some <==> expense_series(j, sel, ex, false) is Some,
        expense_series(j, sel, ex, false) matches Some(full)
            ==> expense_series(j, sel, ex, true) == Some(trimmed(first_segment(full, ':'))),
        expense_series(j, sel, ex, true) matches Some(l) ==> forall|k: int| 0 <= k < l.len() ==> l[k] != ':',
        expense_series(j, sel, ex, false) matches Some(full)
            ==> (j.category_name matches Some(c) ==> full == c@),
{
    let full = category_or_uncategorized(j);
    let seg = first_segment(full, ':');
    lemma_index_of(full, ':');
    assert forall|k: int| 0 <= k < seg.len() implies seg[k] != ':' by {
        match index_of(full, ':') {
            Some(i) => { assert(seg[k] == full[k]); },
            None => {},
        }
    }
    lemma_trimmed_lacks(seg, ':');
}

/// The series of the expenses-by-category chart a journal adds to.
pub fn expense_category_label(j: &Journal, selected_ids: &Vec<String>, ex: &Exclusions, parent_mode: bool) -> (res: Option<String>)
    ensures
        (match res { Some(s) => Some(s@), None => None }) == expense_series(*j, strs(selected_ids@), *ex, parent_mode),
{
    if !is_journal_spent(j, selected_ids) {
        return None;
    }
    if journal_is_excluded(ex, j) {
        return None;
    }
    proof { reveal_strlit("Uncategorized"); }
    let full = match &j.category_name {
        Some(c) => c.clone(),
        None => String::from_str("Uncategorized"),
    };
    if parent_mode {
        let parent = first_segment_of(full.as_str(), ':');
        Some(trim(parent.as_str()))
    } else {
        Some(full)
    }
}

/// The budget series a spent journal adds to in the budget history chart:
/// its non-empty budget name. `None` for journals that are not spent, are
/// excluded, or have no budget.
pub open spec fn budget_series(j: Journal, sel: Seq<Seq<char>>, ex: Exclusions) -> Option<Seq<char>> {
    if !spent_for_charts(j, sel) || journal_excluded(ex, j) {
        None
    } else {
        match j.budget_name {
            Some(b) => if b@.len() > 0 { Some(b@) } else { None },
            None => None,
        }
    }
}

/// The series of the budget history chart a journal adds to.
pub fn budget_history_label(j: &Journal, selected_ids: &Vec<String>, ex: &Exclusions) -> (res: Option<String>)
    ensures
        (match res { Some(s) => Some(s@), None => None }) == budget_series(*j, strs(selected_ids@), *ex),
{
    if !is_journal_spent(j, selected_ids) {
        return None;
    }
    if journal_is_excluded(ex, j) {
        return None;
    }
    match &j.budget_name {
        Some(b) => if b.as_str().unicode_len() > 0 { Some(b.clone()) } else { None },
        None => None,
    }
}

/// `(parent, rest)` of `s.splitn(2, ':')`: the text before the first `:` and,
/// when there is a `:`, the text after it.
pub fn split_category(s: &str) -> (res: (String, Option<String>))
    ensures
        res.0@ == first_segment(s@, ':'),
        (match res.1 { Some(r) => Some(r@), None => None }) == after_first(s@, ':'),
{
    let v = chars_of(s);
    let vs = v.as_slice();
    let n = vs.len();
    proof { lemma_index_of(v@, ':'); }
    match find_char(vs, ':') {
        Some(i) => {
            proof {
                lemma_index_of(v@, ':');
                assert(index_of(v@, ':') == Some(i as int));
                assert(i < vs@.len());
            }
            let a = string_of_range(vs, 0, i);
            let b = string_of_range(vs, i + 1, n);
            proof {
                assert(v@.subrange(0, i as int) =~= v@.take(i as int));
                assert(v@.subrange(i + 1, v@.len() as int) =~= v@.skip(i + 1));
            }
            (a, Some(b))
        },
        None => {
            let a = string_of_range(v.as_slice(), 0, v.len());
            proof { assert(v@.subrange(0, v@.len() as int) =~= v@); }
            (a, None)
        },
    }
}

/// The subcategory-spend series a journal adds to: it must be spent, not
/// excluded, have a category whose trimmed parent is selected and, when
/// subcategories are selected, whose `"parent:sub"` is one of them (a
/// category without `:` has the subcategory `"Other"`). The series is the
/// parent in parent mode, else `"parent > sub"`.
pub open spec fn subcategory_series(
    j: Journal,
    sel: Seq<Seq<char>>,
    ex: Exclusions,
    parents: Seq<Seq<char>>,
    subcats: Seq<Seq<char>>,
    parent_mode: bool,
) -> Option<Seq<char>> {
    let full = or_empty(j.category_name);
    let parent = trimmed(first_segment(full, ':'));
    let sub = match after_first(full, ':') {
        Some(r) => trimmed(r),
        None => "Other"@,
    };
    if !spent_for_charts(j, sel) || journal_excluded(ex, j) || full.len() == 0 {
        None
    } else if !parents.contains(parent) {
        None
    } else if subcats.len() > 0 && !subcats.contains(parent + ":"@ + sub) {
        None
    } else if parent_mode {
        Some(parent)
    } else {
        Some(parent + " > "@ + sub)
    }
}

/// The series of the subcategory-spend chart a journal adds to.
pub fn subcategory_label(
    j: &Journal,
    selected_ids: &Vec<String>,
    ex: &Exclusions,
    parent_categories: &Vec<String>,
    subcategories: &Vec<String>,
    parent_mode: bool,
) -> (res: Option<String>)
    ensures
        (match res { Some(s) => Some(s@), None => None }) == subcategory_series(
            *j, strs(selected_ids@), *ex, strs(parent_categories@), strs(subcategories@), parent_mode),
{
    proof {
        reveal_strlit("Other");
        reveal_strlit(":");
        reveal_strlit(" > ");
    }
    if !is_journal_spent(j, selected_ids) {
        return None;
    }
    if journal_is_excluded(ex, j) {
        return None;
    }
    let full = text_or_empty(&j.category_name);
    if full.unicode_len() == 0 {
        return None;
    }
    let (p0, rest) = split_category(full);
    let parent = trim(p0.as_str());
    let sub = match rest {
        Some(r) => trim(r.as_str()),
        None => String::from_str("Other"),
    };
    if !contains_str(parent_categories, parent.as_str()) {
        return None;
    }
    if subcategories.len() > 0 {
        let mut full_name = parent.clone();
        full_name.append(":");
        full_name.append(sub.as_str());
        if !contains_str(subcategories, full_name.as_str()) {
            return None;
        }
    }
    if parent_mode {
        Some(parent)
    } else {
        let mut label = parent;
        label.append(" > ");
        label.append(sub.as_str());
        Some(label)
    }
}

} // verus!
