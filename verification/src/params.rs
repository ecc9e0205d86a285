//! Decoded query strings: picking values out of `(key, value)` pairs.

use vstd::prelude::*;
use crate::exclusions::Exclusions;
use crate::flows::SankeyFlowType;
use crate::order::strs;
use crate::text::str_eq;
use crate::numparse::{parse_int, parse_integer};
use crate::config::{csv_items, parse_list};

verus! {

/// The pairs as text.
pub open spec fn pairs_text(p: Seq<(String, String)>) -> Seq<(Seq<char>, Seq<char>)> {
    p.map_values(|kv: (String, String)| (kv.0@, kv.1@))
}

/// The values of the pairs whose key is `a` or `b`, in order.
pub open spec fn values_for(p: Seq<(Seq<char>, Seq<char>)>, a: Seq<char>, b: Seq<char>) -> Seq<Seq<char>>
    decreases p.len(),
{
    if p.len() == 0 {
        Seq::empty()
    } else {
        let rest = values_for(p.drop_last(), a, b);
        if p.last().0 == a || p.last().0 == b { rest.push(p.last().1) } else { rest }
    }
}

/// The value of the last pair whose key is `a`.
pub open spec fn last_for(p: Seq<(Seq<char>, Seq<char>)>, a: Seq<char>) -> Option<Seq<char>>
    decreases p.len(),
{
    if p.len() == 0 {
        None
    } else if p.last().0 == a {
        Some(p.last().1)
    } else {
        last_for(p.drop_last(), a)
    }
}

/// Values of every pair whose key is `a` or `b`, in order.
pub fn collect_values(params: &[(String, String)], a: &str, b: &str) -> (res: Vec<String>)
    ensures
        strs(res@) == values_for(pairs_text(params@), a@, b@),
{
    let mut out: Vec<String> = Vec::new();
    let mut i: usize = 0;
    let n = params.len();
    proof { assert(pairs_text(params@).take(0) =~= Seq::<(Seq<char>, Seq<char>)>::empty()); }
    while i < n
        invariant
            n == params@.len(),
            i <= n,
            strs(out@) == values_for(pairs_text(params@).take(i as int), a@, b@),
        decreases n - i,
    {
        let ghost pt = pairs_text(params@);
        proof {
            assert(pt.take(i + 1).drop_last() =~= pt.take(i as int));
            assert(pt.take(i + 1).last() == pt[i as int]);
        }
        let k = params[i].0.as_str();
        if str_eq(k, a) || str_eq(k, b) {
            let ghost before = strs(out@);
            out.push(params[i].1.clone());
            proof { assert(strs(out@) =~= before.push(params@[i as int].1@)); }
        }
        i = i + 1;
    }
    proof { assert(pairs_text(params@).take(n as int) =~= pairs_text(params@)); }
    out
}

/// Value of the last pair whose key is `a`.
pub fn last_value(params: &[(String, String)], a: &str) -> (res: Option<String>)
    ensures
        (match res { Some(s) => Some(s@), None => None }) == last_for(pairs_text(params@), a@),
{
    let mut i: usize = params.len();
    proof { assert(pairs_text(params@).take(i as int) =~= pairs_text(params@)); }
    while i > 0
        invariant
            i <= params@.len(),
            last_for(pairs_text(params@), a@) == last_for(pairs_text(params@).take(i as int), a@),
        decreases i,
    {
        let ghost pt = pairs_text(params@);
        proof {
            assert(pt.take(i as int).drop_last() =~= pt.take(i - 1));
            assert(pt.take(i as int).last() == pt[i - 1]);
        }
        if str_eq(params[i - 1].0.as_str(), a) {
            return Some(params[i - 1].1.clone());
        }
        i = i - 1;
    }
    proof { assert(pairs_text(params@).take(0) =~= Seq::<(Seq<char>, Seq<char>)>::empty()); }
    None
}

/// Parses `exclude_categories[]` / `exclude_budgets[]` (and their
/// bracket-less forms) from a decoded query string into `Exclusions`.
pub fn parse_exclusions(params: &[(String, String)]) -> (res: Exclusions)
    ensures
        res.cats() == values_for(pairs_text(params@), "exclude_categories[]"@, "exclude_categories"@),
        res.buds() == values_for(pairs_text(params@), "exclude_budgets[]"@, "exclude_budgets"@),
{
    let categories = collect_values(params, "exclude_categories[]", "exclude_categories");
    let budgets = collect_values(params, "exclude_budgets[]", "exclude_budgets");
    Exclusions::new(categories, budgets)
}

/// The Sankey grouping named by a `flow_type` parameter; any other value,
/// or none, means grouping by destination.
pub open spec fn flow_type_of(v: Option<Seq<char>>) -> SankeyFlowType {
    if v == Some("budget"@) {
        SankeyFlowType::Budget
    } else if v == Some("category"@) {
        SankeyFlowType::Category
    } else if v == Some("subcategory"@) {
        SankeyFlowType::Subcategory
    } else {
        SankeyFlowType::Destination
    }
}

/// The Sankey grouping named by a `flow_type` parameter.
pub fn parse_flow_type(v: Option<&str>) -> (res: SankeyFlowType)
    ensures
        res == flow_type_of(match v { Some(s) => Some(s@), None => None }),
{
    proof {
        reveal_strlit("budget");
        reveal_strlit("category");
        reveal_strlit("subcategory");
    }
    match v {
        Some(s) => {
            if str_eq(s, "budget") {
                SankeyFlowType::Budget
            } else if str_eq(s, "category") {
                SankeyFlowType::Category
            } else if str_eq(s, "subcategory") {
                SankeyFlowType::Subcategory
            } else {
                SankeyFlowType::Destination
            }
        },
        None => SankeyFlowType::Destination,
    }
}

/// The value of the last pair with key `a` that reads as an integer in
/// `min..=max` (pairs whose value does not read are passed over).
pub open spec fn last_int_for(p: Seq<(Seq<char>, Seq<char>)>, a: Seq<char>, min: int, max: int) -> Option<int>
    decreases p.len(),
{
    if p.len() == 0 {
        None
    } else if p.last().0 == a && parse_int(p.last().1, min, max) is Some {
        parse_int(p.last().1, min, max)
    } else {
        last_int_for(p.drop_last(), a, min, max)
    }
}

proof fn lemma_last_int_range(p: Seq<(Seq<char>, Seq<char>)>, a: Seq<char>, min: int, max: int)
    ensures
        last_int_for(p, a, min, max) matches Some(v) ==> min <= v <= max,
    decreases p.len(),
{
    if p.len() > 0 {
        lemma_last_int_range(p.drop_last(), a, min, max);
    }
}

/// Value of the last pair with key `a` that reads as an integer in
/// `min..=max`.
pub fn last_int_value(params: &[(String, String)], a: &str, min: i64, max: i64) -> (res: Option<i64>)
    requires
        min <= 0 <= max,
    ensures
        (match res { Some(v) => Some(v as int), None => None }) == last_int_for(pairs_text(params@), a@, min as int, max as int),
        res matches Some(v) ==> min <= v <= max,
{
    proof { lemma_last_int_range(pairs_text(params@), a@, min as int, max as int); }
    let mut i: usize = params.len();
    proof { assert(pairs_text(params@).take(i as int) =~= pairs_text(params@)); }
    while i > 0
        invariant
            i <= params@.len(),
            min <= 0 <= max,
            last_int_for(pairs_text(params@), a@, min as int, max as int)
                == last_int_for(pairs_text(params@).take(i as int), a@, min as int, max as int),
        decreases i,
    {
        let ghost pt = pairs_text(params@);
        proof {
            assert(pt.take(i as int).drop_last() =~= pt.take(i - 1));
            assert(pt.take(i as int).last() == pt[i - 1]);
        }
        if str_eq(params[i - 1].0.as_str(), a) {
            match parse_integer(params[i - 1].1.as_str(), min, max) {
                Some(v) => return Some(v),
                None => {},
            }
        }
        i = i - 1;
    }
    proof { assert(pairs_text(params@).take(0) =~= Seq::<(Seq<char>, Seq<char>)>::empty()); }
    None
}

/// The comma-separated items (trimmed, empty ones dropped) of every pair
/// with key `a`, in order.
pub open spec fn csv_values_for(p: Seq<(Seq<char>, Seq<char>)>, a: Seq<char>) -> Seq<Seq<char>>
    decreases p.len(),
{
    if p.len() == 0 {
        Seq::empty()
    } else {
        let rest = csv_values_for(p.drop_last(), a);
        if p.last().0 == a { rest + csv_items(p.last().1) } else { rest }
    }
}

/// The comma-separated items of every pair with key `a`, in order.
pub fn collect_csv_values(params: &[(String, String)], a: &str) -> (res: Vec<String>)
    ensures
        strs(res@) == csv_values_for(pairs_text(params@), a@),
{
    let mut out: Vec<String> = Vec::new();
    let mut i: usize = 0;
    let n = params.len();
    proof { assert(pairs_text(params@).take(0) =~= Seq::<(Seq<char>, Seq<char>)>::empty()); }
    while i < n
        invariant
            n == params@.len(),
            i <= n,
            strs(out@) == csv_values_for(pairs_text(params@).take(i as int), a@),
        decreases n - i,
    {
        let ghost pt = pairs_text(params@);
        proof {
            assert(pt.take(i + 1).drop_last() =~= pt.take(i as int));
            assert(pt.take(i + 1).last() == pt[i as int]);
        }
        if str_eq(params[i].0.as_str(), a) {
            let ghost before = strs(out@);
            let mut items = parse_list(params[i].1.as_str());
            let ghost added = strs(items@);
            out.append(&mut items);
            proof { assert(strs(out@) =~= before + added); }
        }
        i = i + 1;
    }
    proof { assert(pairs_text(params@).take(n as int) =~= pairs_text(params@)); }
    out
}

/// The query of the average-cost endpoint.
#[derive(Debug)]
pub struct AvgCostQuery {
    /// Budgets asked for (all when empty).
    pub budget_names: Vec<String>,
    /// The `mode` parameter.
    pub mode: Option<String>,
    /// Months to cover (6 when not given or unreadable).
    pub months: u32,
    /// Accounts asked for (all when empty).
    pub account_ids: Vec<String>,
    /// Month asked for by the previous-year mode.
    pub target_month: Option<u32>,
    /// Year asked for by the previous-year mode.
    pub target_year: Option<i32>,
}

/// Reads the average-cost endpoint's query: `budget_names` repeated,
/// `mode`, `months` (default 6), `account_ids` as comma-separated lists,
/// `month` and `year`; the last readable value of each counts.
pub fn parse_avg_cost_query(params: &[(String, String)]) -> (res: AvgCostQuery)
    ensures
        strs(res.budget_names@) == values_for(pairs_text(params@), "budget_names"@, "budget_names"@),
        (match res.mode { Some(m) => Some(m@), None => None }) == last_for(pairs_text(params@), "mode"@),
        res.months as int == match last_int_for(pairs_text(params@), "months"@, 0, u32::MAX as int) { Some(v) => v, None => 6 },
        strs(res.account_ids@) == csv_values_for(pairs_text(params@), "account_ids"@),
        (match res.target_month { Some(v) => Some(v as int), None => None })
            == last_int_for(pairs_text(params@), "month"@, 0, u32::MAX as int),
        (match res.target_year { Some(v) => Some(v as int), None => None })
            == last_int_for(pairs_text(params@), "year"@, i32::MIN as int, i32::MAX as int),
{
    let budget_names = collect_values(params, "budget_names", "budget_names");
    let mode = last_value(params, "mode");
    let months: u32 = match last_int_value(params, "months", 0, u32::MAX as i64) {
        Some(v) => v as u32,
        None => 6,
    };
    let account_ids = collect_csv_values(params, "account_ids");
    let target_month = match last_int_value(params, "month", 0, u32::MAX as i64) {
        Some(v) => Some(v as u32),
        None => None,
    };
    let target_year = match last_int_value(params, "year", i32::MIN as i64, i32::MAX as i64) {
        Some(v) => Some(v as i32),
        None => None,
    };
    AvgCostQuery { budget_names, mode, months, account_ids, target_month, target_year }
}

} // verus!
