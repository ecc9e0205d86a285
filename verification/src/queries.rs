//! The queries of the dashboard's endpoints, read from decoded
//! `(key, value)` pairs, and how their errors are answered.

use vstd::prelude::*;
use crate::calendar::{Date, ym_text, ymd_text, format_ym, format_ymd};
use crate::flows::SankeyFlowType;
use crate::order::strs;
use crate::params::{
    pairs_text, values_for, last_for, last_int_for, collect_values, last_value, last_int_value,
    flow_type_of, parse_flow_type,
};
use crate::text::{str_eq, has_text, contains_text};

verus! {

/// The account ids of a query: the values of `accounts[]` and `accounts`,
/// and of `accounts%5B%5D` where the endpoint accepts that spelling too, in
/// order.
pub open spec fn account_ids_for(p: Seq<(Seq<char>, Seq<char>)>, encoded_too: bool) -> Seq<Seq<char>>
    decreases p.len(),
{
    if p.len() == 0 {
        Seq::empty()
    } else {
        let rest = account_ids_for(p.drop_last(), encoded_too);
        let k = p.last().0;
        if k == "accounts[]"@ || k == "accounts"@ || (encoded_too && k == "accounts%5B%5D"@) {
            rest.push(p.last().1)
        } else {
            rest
        }
    }
}

/// The account ids of a query.
pub fn collect_account_ids(params: &[(String, String)], encoded_too: bool) -> (res: Vec<String>)
    ensures
        strs(res@) == account_ids_for(pairs_text(params@), encoded_too),
{
    let mut out: Vec<String> = Vec::new();
    let mut i: usize = 0;
    let n = params.len();
    proof { assert(pairs_text(params@).take(0) =~= Seq::<(Seq<char>, Seq<char>)>::empty()); }
    while i < n
        invariant
            n == params@.len(),
            i <= n,
            strs(out@) == account_ids_for(pairs_text(params@).take(i as int), encoded_too),
        decreases n - i,
    {
        let ghost pt = pairs_text(params@);
        proof {
            assert(pt.take(i + 1).drop_last() =~= pt.take(i as int));
            assert(pt.take(i + 1).last() == pt[i as int]);
        }
        let k = params[i].0.as_str();
        if str_eq(k, "accounts[]") || str_eq(k, "accounts") || (encoded_too && str_eq(k, "accounts%5B%5D")) {
            let ghost before = strs(out@);
            out.push(params[i].1.clone());
            proof { assert(strs(out@) =~= before.push(params@[i as int].1@)); }
        }
        i = i + 1;
    }
    proof { assert(pairs_text(params@).take(n as int) =~= pairs_text(params@)); }
    out
}

/// The query of the month summary endpoint.
#[derive(Debug)]
pub struct MonthSummaryQuery {
    pub year: i32,
    pub month: u32,
    pub account_ids: Vec<String>,
}

/// Reads the month summary query: `year` and `month` (the last readable
/// value of each, the current ones by default) and the account filter.
pub fn parse_month_summary_query(params: &[(String, String)], current_year: i32, current_month: u32) -> (res: MonthSummaryQuery)
    ensures
        res.year as int == match last_int_for(pairs_text(params@), "year"@, i32::MIN as int, i32::MAX as int) {
            Some(v) => v,
            None => current_year as int,
        },
        res.month as int == match last_int_for(pairs_text(params@), "month"@, 0, u32::MAX as int) {
            Some(v) => v,
            None => current_month as int,
        },
        strs(res.account_ids@) == account_ids_for(pairs_text(params@), false),
{
    let year = match last_int_value(params, "year", i32::MIN as i64, i32::MAX as i64) {
        Some(v) => v as i32,
        None => current_year,
    };
    let month = match last_int_value(params, "month", 0, u32::MAX as i64) {
        Some(v) => v as u32,
        None => current_month,
    };
    MonthSummaryQuery { year, month, account_ids: collect_account_ids(params, false) }
}

/// An error of the month summary is the caller's fault when it speaks of
/// something invalid or of the future.
pub fn month_summary_bad_request(message: &str) -> (res: bool)
    ensures
        res == (has_text(message@, "Invalid"@) || has_text(message@, "future"@)),
{
    contains_text(message, "Invalid") || contains_text(message, "future")
}

/// The query of the reimbursement summary endpoint.
#[derive(Debug)]
pub struct ReimbursementQuery {
    pub start: String,
    pub end: String,
    pub expense_categories: Vec<String>,
    pub expense_budgets: Vec<String>,
    pub reimbursement_categories: Vec<String>,
}

/// Reads the reimbursement summary query on `today`: the range defaults to
/// the first of the current month through today; the marker lists take the
/// bracketed and plain spellings.
pub fn parse_reimbursement_query(params: &[(String, String)], today: &Date) -> (res: ReimbursementQuery)
    ensures
        res.start@ == match last_for(pairs_text(params@), "start"@) {
            Some(s) => s,
            None => ym_text(*today) + "-01"@,
        },
        res.end@ == match last_for(pairs_text(params@), "end"@) {
            Some(e) => e,
            None => ymd_text(*today),
        },
        strs(res.expense_categories@) == values_for(pairs_text(params@), "expense_categories[]"@, "expense_categories"@),
        strs(res.expense_budgets@) == values_for(pairs_text(params@), "expense_budgets[]"@, "expense_budgets"@),
        strs(res.reimbursement_categories@)
            == values_for(pairs_text(params@), "reimbursement_categories[]"@, "reimbursement_categories"@),
{
    let start = match last_value(params, "start") {
        Some(s) => s,
        None => {
            let mut s = format_ym(today);
            s.append("-01");
            s
        },
    };
    let end = match last_value(params, "end") {
        Some(e) => e,
        None => format_ymd(today),
    };
    ReimbursementQuery {
        start,
        end,
        expense_categories: collect_values(params, "expense_categories[]", "expense_categories"),
        expense_budgets: collect_values(params, "expense_budgets[]", "expense_budgets"),
        reimbursement_categories: collect_values(params, "reimbursement_categories[]", "reimbursement_categories"),
    }
}

/// The reimbursement summary needs at least one marker to work with.
pub fn reimbursement_markers_missing(q: &ReimbursementQuery) -> (res: bool)
    ensures
        res == (q.expense_categories@.len() == 0 && q.expense_budgets@.len() == 0
            && q.reimbursement_categories@.len() == 0),
{
    q.expense_categories.len() == 0 && q.expense_budgets.len() == 0 && q.reimbursement_categories.len() == 0
}

/// The answer when no marker is configured.
pub fn reimbursement_markers_message() -> (res: String)
    ensures
        res@ == "Configure at least one work expense category/budget or reimbursement category"@,
{
    String::from_str("Configure at least one work expense category/budget or reimbursement category")
}

/// An error of the reimbursement summary is the caller's fault when it
/// speaks of something invalid.
pub fn reimbursement_bad_request(message: &str) -> (res: bool)
    ensures
        res == has_text(message@, "Invalid"@),
{
    contains_text(message, "Invalid")
}

/// The query of the Sankey flows endpoint.
#[derive(Debug)]
pub struct SankeyQuery {
    pub account_ids: Vec<String>,
    pub start: Option<String>,
    pub end: Option<String>,
    pub flow_type: SankeyFlowType,
}

/// The view of an optional string.
pub open spec fn opt_view(o: Option<String>) -> Option<Seq<char>> {
    match o {
        Some(s) => Some(s@),
        None => None,
    }
}

/// Reads the Sankey flows query.
pub fn parse_sankey_query(params: &[(String, String)]) -> (res: SankeyQuery)
    ensures
        strs(res.account_ids@) == account_ids_for(pairs_text(params@), false),
        opt_view(res.start) == last_for(pairs_text(params@), "start"@),
        opt_view(res.end) == last_for(pairs_text(params@), "end"@),
        res.flow_type == flow_type_of(last_for(pairs_text(params@), "flow_type"@)),
{
    let flow = last_value(params, "flow_type");
    let flow_type = match &flow {
        Some(f) => parse_flow_type(Some(f.as_str())),
        None => parse_flow_type(None),
    };
    SankeyQuery {
        account_ids: collect_account_ids(params, false),
        start: last_value(params, "start"),
        end: last_value(params, "end"),
        flow_type,
    }
}

/// The query of the monthly summary endpoint: the month and year to show.
#[derive(Debug)]
pub struct SummaryQuery {
    pub month: Option<u32>,
    pub year: Option<i32>,
}

impl SummaryQuery {
    /// The (year, month) to show: the ones asked for, the current ones
    /// otherwise.
    pub fn resolve(&self, current_year: i32, current_month: u32) -> (res: (i32, u32))
        ensures
            res.0 == match self.year { Some(y) => y, None => current_year },
            res.1 == match self.month { Some(m) => m, None => current_month },
    {
        let y = match self.year { Some(y) => y, None => current_year };
        let m = match self.month { Some(m) => m, None => current_month };
        (y, m)
    }
}

} // verus!
