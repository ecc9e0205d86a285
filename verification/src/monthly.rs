//! The month a monthly summary covers: reading `"YYYY-MM"`, the month's
//! first and last day, its days and its neighbours, and which splits the
//! summary leaves out.

use vstd::prelude::*;
use crate::calendar::{
    Date, MIN_YEAR, MAX_YEAR, ymd, last_of_month, month_days, is_valid_ymd, ymd_text,
    std_month_label, days_in_month, format_ymd, format_month_label,
};
use crate::exclusions::{Exclusions, category_excluded};
use crate::numparse::{parse_int_result, parse_integer_checked, lemma_parse_int_result_range};
use crate::text::{after_first, first_segment, index_of, lemma_index_of, chars_of, find_char, string_of_range, str_eq};

verus! {

/// The error for a month text that is not two parts joined by `-`.
pub open spec fn month_format_error() -> Seq<char> {
    "Invalid month format, expected YYYY-MM"@
}

/// The error for a month number outside 1-12.
pub open spec fn month_number_error() -> Seq<char> {
    "Invalid month"@
}

/// How a monthly summary reads its `"YYYY-MM"` month: the text splits on
/// `-` into exactly two parts, the year as an `i32`, the month as a `u32`
/// in 1-12. An unreadable number gives std's integer parse message.
pub open spec fn month_key_result(s: Seq<char>) -> Result<(int, int), Seq<char>> {
    match after_first(s, '-') {
        None => Err(month_format_error()),
        Some(rest) => if after_first(rest, '-') is Some {
            Err(month_format_error())
        } else {
            match parse_int_result(first_segment(s, '-'), i32::MIN as int, i32::MAX as int) {
                Err(e) => Err(e.text()),
                Ok(y) => match parse_int_result(rest, 0, u32::MAX as int) {
                    Err(e) => Err(e.text()),
                    Ok(m) => if 1 <= m <= 12 {
                        Ok((y, m))
                    } else {
                        Err(month_number_error())
                    },
                },
            }
        },
    }
}

/// Reads a `"YYYY-MM"` month as the monthly summary does.
pub fn parse_month_key(month_str: &str) -> (res: Result<(i32, u32), String>)
    ensures
        (match res { Ok((y, m)) => Ok((y as int, m as int)), Err(e) => Err(e@) }) == month_key_result(month_str@),
{
    let v = chars_of(month_str);
    proof { lemma_index_of(v@, '-'); }
    let i = match find_char(v.as_slice(), '-') {
        Some(i) => i,
        None => {
            proof { reveal_strlit("Invalid month format, expected YYYY-MM"); }
            return Err(String::from_str("Invalid month format, expected YYYY-MM"));
        },
    };
    let rest = string_of_range(v.as_slice(), i + 1, v.len());
    let rv = chars_of(rest.as_str());
    proof {
        assert(v@.subrange(i + 1, v@.len() as int) =~= v@.skip(i + 1));
        lemma_index_of(rv@, '-');
    }
    if find_char(rv.as_slice(), '-').is_some() {
        proof { reveal_strlit("Invalid month format, expected YYYY-MM"); }
        return Err(String::from_str("Invalid month format, expected YYYY-MM"));
    }
    let year_text = string_of_range(v.as_slice(), 0, i);
    proof { assert(v@.subrange(0, i as int) =~= v@.take(i as int)); }
    let year = match parse_integer_checked(year_text.as_str(), i32::MIN as i64, i32::MAX as i64) {
        Ok(y) => y,
        Err(e) => return Err(e.message()),
    };
    proof { lemma_parse_int_result_range(first_segment(month_str@, '-'), i32::MIN as int, i32::MAX as int); }
    let month = match parse_integer_checked(rest.as_str(), 0, u32::MAX as i64) {
        Ok(m) => m,
        Err(e) => return Err(e.message()),
    };
    if !(1 <= month && month <= 12) {
        proof { reveal_strlit("Invalid month"); }
        return Err(String::from_str("Invalid month"));
    }
    Ok((year as i32, month as u32))
}

/// The span of one month: its first and last day, its number of days and
/// the `"YYYY-MM"` labels of the months before and after it.
#[derive(Debug)]
pub struct MonthPeriod {
    pub start: Date,
    pub end: Date,
    pub days_in_month: u32,
    pub prev_month: String,
    pub next_month: String,
}

/// The error for a month whose first day chrono cannot represent.
pub open spec fn start_date_error() -> Seq<char> {
    "Invalid start date"@
}

/// The (year, month) before month `m` of year `y`.
pub open spec fn prev_month_of(y: int, m: int) -> (int, int) {
    if m == 1 { (y - 1, 12) } else { (y, m - 1) }
}

/// The (year, month) after month `m` of year `y`.
pub open spec fn next_month_of(y: int, m: int) -> (int, int) {
    if m == 12 { (y + 1, 1) } else { (y, m + 1) }
}

/// The span of month `month` (1-12) of `year`; an error when chrono cannot
/// represent the year. December of chrono's last year is left out: its
/// following January does not exist.
pub fn month_period(year: i32, month: u32) -> (res: Result<MonthPeriod, String>)
    requires
        1 <= month <= 12,
        !(year == MAX_YEAR && month == 12),
    ensures
        !(MIN_YEAR <= year <= MAX_YEAR) ==> (res matches Err(e) && e@ == start_date_error()),
        MIN_YEAR <= year <= MAX_YEAR ==> (res matches Ok(p) && {
            &&& p.start == ymd(year as int, month as int, 1)
            &&& p.end == last_of_month(year as int, month as int)
            &&& p.days_in_month == month_days(year as int, month as int)
            &&& p.prev_month@ == std_month_label(prev_month_of(year as int, month as int).0, prev_month_of(year as int, month as int).1)
            &&& p.next_month@ == std_month_label(next_month_of(year as int, month as int).0, next_month_of(year as int, month as int).1)
        }),
{
    let start = match Date::from_ymd(year, month, 1) {
        Some(d) => d,
        None => {
            proof { reveal_strlit("Invalid start date"); }
            return Err(String::from_str("Invalid start date"));
        },
    };
    let days = days_in_month(year, month);
    let (py, pm) = if month == 1 { (year - 1, 12u32) } else { (year, month - 1) };
    let (ny, nm) = if month == 12 { (year + 1, 1u32) } else { (year, month + 1) };
    Ok(MonthPeriod {
        start,
        end: Date { year, month, day: days },
        days_in_month: days,
        prev_month: format_month_label(py, pm),
        next_month: format_month_label(ny, nm),
    })
}

/// Every day of month `month` of `year`, in order, as `"%Y-%m-%d"`.
pub fn month_day_keys(year: i32, month: u32) -> (res: Vec<String>)
    requires
        MIN_YEAR <= year <= MAX_YEAR,
        1 <= month <= 12,
    ensures
        res@.len() == month_days(year as int, month as int),
        forall|k: int| 0 <= k < res@.len() ==> (#[trigger] res@[k])@ == ymd_text(ymd(year as int, month as int, k + 1)),
{
    let days = days_in_month(year, month);
    let mut out: Vec<String> = Vec::new();
    let mut d: u32 = 1;
    while d <= days
        invariant
            days == month_days(year as int, month as int),
            28 <= days <= 31,
            1 <= d <= days + 1,
            out@.len() == d - 1,
            forall|k: int| 0 <= k < out@.len() ==> (#[trigger] out@[k])@ == ymd_text(ymd(year as int, month as int, k + 1)),
        decreases days + 1 - d,
    {
        let day = Date { year, month, day: d };
        out.push(format_ymd(&day));
        d = d + 1;
    }
    out
}

/// A split is left out of a monthly summary when its category id or its
/// category name is an excluded category, or its budget is excluded.
pub open spec fn summary_split_excluded_spec(
    ex: Exclusions,
    category_id: Option<Seq<char>>,
    category_name: Option<Seq<char>>,
    budget_name: Option<Seq<char>>,
) -> bool {
    ||| (category_id matches Some(id) && category_excluded(ex.cats(), id))
    ||| (category_name matches Some(n) && category_excluded(ex.cats(), n))
    ||| (budget_name matches Some(b) && ex.buds().contains(b))
}

/// Law: a monthly summary leaves a split out when its budget is excluded,
/// when its category (by name or by id) is excluded, or when the parent of
/// its category (the part before the first `:`) is; for no other reason.
/// With nothing excluded, no split is left out.
pub proof fn lemma_summary_exclusion(
    ex: Exclusions,
    category_id: Option<Seq<char>>,
    category_name: Option<Seq<char>>,
    budget_name: Option<Seq<char>>,
)
    ensures
        (budget_name matches Some(b) && ex.buds().contains(b))
            ==> summary_split_excluded_spec(ex, category_id, category_name, budget_name),
        (category_name matches Some(n) && n.len() > 0 && ex.cats().contains(n))
            ==> summary_split_excluded_spec(ex, category_id, category_name, budget_name),
        (category_name matches Some(n) && n.len() > 0 && ex.cats().contains(first_segment(n, ':')))
            ==> summary_split_excluded_spec(ex, category_id, category_name, budget_name),
        (category_id matches Some(i) && i.len() > 0 && ex.cats().contains(i))
            ==> summary_split_excluded_spec(ex, category_id, category_name, budget_name),
        summary_split_excluded_spec(ex, category_id, category_name, budget_name) ==> (
            (budget_name matches Some(b) && ex.buds().contains(b))
            || (category_name matches Some(n) && (ex.cats().contains(n) || ex.cats().contains(first_segment(n, ':'))))
            || (category_id matches Some(i) && (ex.cats().contains(i) || ex.cats().contains(first_segment(i, ':'))))
        ),
        (ex.cats().len() == 0 && ex.buds().len() == 0)
            ==> !summary_split_excluded_spec(ex, category_id, category_name, budget_name),
{
}

/// The view of an optional text.
pub open spec fn opt_text(o: Option<&str>) -> Option<Seq<char>> {
    match o {
        Some(s) => Some(s@),
        None => None,
    }
}

/// Whether a monthly summary leaves a split out.
pub fn summary_split_excluded(
    ex: &Exclusions,
    category_id: Option<&str>,
    category_name: Option<&str>,
    budget_name: Option<&str>,
) -> (res: bool)
    ensures
        res == summary_split_excluded_spec(*ex, opt_text(category_id), opt_text(category_name), opt_text(budget_name)),
{
    let by_id = match category_id {
        Some(id) => ex.is_category_excluded(id),
        None => false,
    };
    let by_name = match category_name {
        Some(n) => ex.is_category_excluded(n),
        None => false,
    };
    let by_budget = match budget_name {
        Some(b) => ex.is_budget_excluded(b),
        None => false,
    };
    by_id || by_name || by_budget
}

/// `name`, or `fallback` when `name` is empty.
pub fn name_or(name: &str, fallback: &str) -> (res: String)
    ensures
        res@ == if name@.len() > 0 { name@ } else { fallback@ },
{
    if name.unicode_len() > 0 {
        String::from_str(name)
    } else {
        String::from_str(fallback)
    }
}

/// Which total of a monthly summary a split adds to.
#[derive(Debug, Clone, Copy, PartialEq, Eq, Structural)]
pub enum SummaryRole {
    /// A deposit: income, by source and into the receiving account.
    Income,
    /// A withdrawal: an expense, by category and out of the paying account.
    Expense,
    /// A transfer: counted apart from income and expenses.
    Transfer,
    /// Any other journal type: listed, but in no total.
    Other,
}

/// The role of a split of journal type `kind` in a monthly summary.
pub open spec fn summary_role_of(kind: Seq<char>) -> SummaryRole {
    if kind == "deposit"@ {
        SummaryRole::Income
    } else if kind == "withdrawal"@ {
        SummaryRole::Expense
    } else if kind == "transfer"@ {
        SummaryRole::Transfer
    } else {
        SummaryRole::Other
    }
}

/// Decides which monthly total a split of journal type `kind` adds to.
pub fn summary_role(kind: &str) -> (res: SummaryRole)
    ensures
        res == summary_role_of(kind@),
{
    if str_eq(kind, "deposit") {
        SummaryRole::Income
    } else if str_eq(kind, "withdrawal") {
        SummaryRole::Expense
    } else if str_eq(kind, "transfer") {
        SummaryRole::Transfer
    } else {
        SummaryRole::Other
    }
}

} // verus!
