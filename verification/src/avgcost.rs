//! The calendar side of the average-cost and budget-comparison views: the
//! date range a mode covers, the month each spending point belongs to and
//! its label, the order of the points, and which budgets are shown.

use vstd::prelude::*;
use crate::calendar::{Date, MIN_YEAR, MAX_YEAR, ymd, last_of_month, is_valid_ymd, days_in_month, ymd_text, ymd_of, format_ymd, parse_date, chrono_year_text, push_chrono_year};
use crate::exclusions::{Exclusions, contains_str};
use crate::numfmt::{std_padded, push_std_padded};
use crate::numparse::{parse_int, parse_integer};
use crate::order::strs;
use crate::text::{chars_of, string_of_range, str_eq};

verus! {

/// How the average-cost view picks its months.
#[derive(Debug, Clone, Copy, PartialEq, Eq, Structural)]
pub enum AvgCostMode {
    /// The last N months up to today.
    LastNMonths,
    /// One month of an earlier year (by default the current month a year ago).
    PreviousYearSameMonth,
}

/// The mode named by the `mode` parameter: `previous_year_same_month`, or
/// the last N months for anything else.
pub open spec fn avg_mode_of(v: Option<Seq<char>>) -> AvgCostMode {
    if v == Some("previous_year_same_month"@) {
        AvgCostMode::PreviousYearSameMonth
    } else {
        AvgCostMode::LastNMonths
    }
}

/// The mode named by the `mode` parameter.
pub fn parse_avg_cost_mode(v: Option<&str>) -> (res: AvgCostMode)
    ensures
        res == avg_mode_of(match v { Some(s) => Some(s@), None => None }),
{
    proof { reveal_strlit("previous_year_same_month"); }
    match v {
        Some(s) => if str_eq(s, "previous_year_same_month") {
            AvgCostMode::PreviousYearSameMonth
        } else {
            AvgCostMode::LastNMonths
        },
        None => AvgCostMode::LastNMonths,
    }
}

/// `(y, m)` stepped back `n` months, one month at a time.
pub open spec fn months_back(y: int, m: int, n: nat) -> (int, int)
    decreases n,
{
    if n == 0 {
        (y, m)
    } else {
        let (py, pm) = months_back(y, m, (n - 1) as nat);
        if pm - 1 < 1 { (py - 1, 12) } else { (py, pm - 1) }
    }
}

/// `months` kept within 1-24.
pub open spec fn clamp_months(months: int) -> int {
    if months < 1 { 1 } else if months > 24 { 24 } else { months }
}

/// The (year, month) the previous-year mode shows: the requested one when
/// both are given, the current month a year ago when neither is, the
/// current month otherwise.
pub open spec fn target_of(today: Date, target_month: Option<u32>, target_year: Option<i32>) -> (int, int) {
    match (target_year, target_month) {
        (Some(y), Some(m)) => (y as int, m as int),
        (None, None) => (today.year - 1, today.month as int),
        _ => (today.year as int, today.month as int),
    }
}

/// The error when the first day of the range does not exist.
pub open spec fn start_error() -> Seq<char> {
    "Failed to compute start date"@
}

/// The error when the day after the range does not exist.
pub open spec fn end_error() -> Seq<char> {
    "Failed to compute end date"@
}

/// The first day, the last day and the number of months the average-cost
/// view covers on `today`.
pub open spec fn avg_cost_range_of(
    today: Date,
    mode: AvgCostMode,
    months_count: int,
    target_month: Option<u32>,
    target_year: Option<i32>,
) -> Result<(Date, Date, int), Seq<char>> {
    match mode {
        AvgCostMode::LastNMonths => {
            let n = clamp_months(months_count);
            let (y, m) = months_back(today.year as int, today.month as int, n as nat);
            if is_valid_ymd(y, m, 1) { Ok((ymd(y, m, 1), today, n)) } else { Err(start_error()) }
        },
        AvgCostMode::PreviousYearSameMonth => {
            let (y, m) = target_of(today, target_month, target_year);
            if !is_valid_ymd(y, m, 1) {
                Err(start_error())
            } else if !is_valid_ymd(if m == 12 { y + 1 } else { y }, if m == 12 { 1 } else { m + 1 }, 1) {
                Err(end_error())
            } else {
                Ok((ymd(y, m, 1), last_of_month(y, m), 1))
            }
        },
    }
}

/// The date range of the average-cost view: its first day, its last day and
/// how many months of data it stands for.
pub fn avg_cost_range(
    today: Date,
    mode: AvgCostMode,
    months_count: u32,
    target_month: Option<u32>,
    target_year: Option<i32>,
) -> (res: Result<(Date, Date, u32), String>)
    requires
        today.valid(),
    ensures
        (match res { Ok((s, e, n)) => Ok((s, e, n as int)), Err(m) => Err(m@) })
            == avg_cost_range_of(today, mode, months_count as int, target_month, target_year),
{
    match mode {
        AvgCostMode::LastNMonths => {
            let n: u32 = if months_count < 1 { 1 } else if months_count > 24 { 24 } else { months_count };
            let mut year: i32 = today.year;
            let mut month: i32 = today.month as i32;
            let mut k: u32 = 0;
            while k < n
                invariant
                    today.valid(),
                    1 <= n <= 24,
                    k <= n,
                    (year as int, month as int) == months_back(today.year as int, today.month as int, k as nat),
                    1 <= month <= 12,
                year * 12 + month == today.year * 12 + today.month - k,
                today.year - 3 <= year <= today.year,
                decreases n - k,
            {
                month = month - 1;
                if month < 1 {
                    month = 12;
                    year = year - 1;
                }
                k = k + 1;
            }
            match Date::from_ymd(year, month as u32, 1) {
                Some(start) => Ok((start, today, n)),
                None => {
                    proof { reveal_strlit("Failed to compute start date"); }
                    Err(String::from_str("Failed to compute start date"))
                },
            }
        },
        AvgCostMode::PreviousYearSameMonth => {
            let (y, m): (i32, u32) = match (target_year, target_month) {
                (Some(y), Some(m)) => (y, m),
                (None, None) => (today.year - 1, today.month),
                _ => (today.year, today.month),
            };
            let start = match Date::from_ymd(y, m, 1) {
                Some(d) => d,
                None => {
                    proof { reveal_strlit("Failed to compute start date"); }
                    return Err(String::from_str("Failed to compute start date"));
                },
            };
            let (ey, em): (i32, u32) = if m + 1 > 12 { (y + 1, 1) } else { (y, m + 1) };
            match Date::from_ymd(ey, em, 1) {
                Some(_) => Ok((start, Date { year: y, month: m, day: days_in_month(y, m) }, 1)),
                None => {
                    proof { reveal_strlit("Failed to compute end date"); }
                    Err(String::from_str("Failed to compute end date"))
                },
            }
        },
    }
}

/// The English abbreviation of month `m` (1-12), as chrono writes `%b`.
pub open spec fn month_abbrev_text(m: int) -> Seq<char> {
    if m == 1 { "Jan"@ } else if m == 2 { "Feb"@ } else if m == 3 { "Mar"@ }
    else if m == 4 { "Apr"@ } else if m == 5 { "May"@ } else if m == 6 { "Jun"@ }
    else if m == 7 { "Jul"@ } else if m == 8 { "Aug"@ } else if m == 9 { "Sep"@ }
    else if m == 10 { "Oct"@ } else if m == 11 { "Nov"@ } else { "Dec"@ }
}

/// The English abbreviation of month `m` (1-12).
pub fn month_abbrev(m: u32) -> (res: String)
    requires
        1 <= m <= 12,
    ensures
        res@ == month_abbrev_text(m as int),
{
    if m == 1 { String::from_str("Jan") } else if m == 2 { String::from_str("Feb") }
    else if m == 3 { String::from_str("Mar") } else if m == 4 { String::from_str("Apr") }
    else if m == 5 { String::from_str("May") } else if m == 6 { String::from_str("Jun") }
    else if m == 7 { String::from_str("Jul") } else if m == 8 { String::from_str("Aug") }
    else if m == 9 { String::from_str("Sep") } else if m == 10 { String::from_str("Oct") }
    else if m == 11 { String::from_str("Nov") } else { String::from_str("Dec") }
}

/// The month a spending point of the average-cost view stands for, read
/// from its date key (`"2026-01-01T00:00:00+00:00"`): the year from the
/// first four characters and the month from the sixth and seventh, each
/// counting as 0 when unreadable. Keys shorter than seven characters, year
/// 0 and months outside 1-12 give no point.
pub open spec fn avg_point_of(key: Seq<char>) -> Option<(int, int)> {
    if key.len() < 7 {
        None
    } else {
        let y = match parse_int(key.take(4), i32::MIN as int, i32::MAX as int) { Some(v) => v, None => 0 };
        let m = match parse_int(key.subrange(5, 7), 0, u32::MAX as int) { Some(v) => v, None => 0 };
        if y == 0 || m == 0 || m > 12 { None } else { Some((y, m)) }
    }
}

/// The label of a spending point: `"Jan 2026"`.
pub open spec fn avg_point_label(y: int, m: int) -> Seq<char> {
    month_abbrev_text(m) + " "@ + std_padded(y, 0)
}

/// The month a spending point stands for and its label.
pub fn avg_point(key: &str) -> (res: Option<(i32, u32, String)>)
    ensures
        (match res { Some((y, m, _)) => Some((y as int, m as int)), None => None }) == avg_point_of(key@),
        res matches Some((y, m, l)) ==> l@ == avg_point_label(y as int, m as int),
{
    let v = chars_of(key);
    if v.len() < 7 {
        return None;
    }
    let ys = string_of_range(v.as_slice(), 0, 4);
    let ms = string_of_range(v.as_slice(), 5, 7);
    proof {
        assert(v@.subrange(0, 4) =~= v@.take(4));
    }
    let y: i64 = match parse_integer(ys.as_str(), i32::MIN as i64, i32::MAX as i64) { Some(y) => y, None => 0 };
    let m: i64 = match parse_integer(ms.as_str(), 0, u32::MAX as i64) { Some(m) => m, None => 0 };
    if y == 0 || m == 0 || m > 12 {
        return None;
    }
    let mut label = month_abbrev(m as u32);
    label.append(" ");
    push_std_padded(&mut label, y, 0);
    proof { reveal_strlit(" "); }
    Some((y as i32, m as u32, label))
}

/// The number the spending points are sorted by: `year * 100 + month`.
/// Years before 0 are left out: the key would wrap around for them.
pub fn point_sort_key(year: i32, month: u32) -> (res: u64)
    requires
        year >= 0,
        month <= 12,
    ensures
        res == year * 100 + month,
{
    (year as u64) * 100 + (month as u64)
}

/// A budget is shown when it is not excluded and, if names are asked
/// for, it is one of them.
pub open spec fn budget_shown(ex: Exclusions, names: Seq<Seq<char>>, name: Seq<char>) -> bool {
    !ex.buds().contains(name) && (names.len() == 0 || names.contains(name))
}

/// Whether a budget is shown.
pub fn budget_selected(ex: &Exclusions, names: &Vec<String>, name: &str) -> (res: bool)
    ensures
        res == budget_shown(*ex, strs(names@), name@),
{
    if ex.is_budget_excluded(name) {
        return false;
    }
    names.len() == 0 || contains_str(names, name)
}

/// The years, date ranges and last month a budget comparison covers.
#[derive(Debug)]
pub struct ComparisonPlan {
    pub current_year: i32,
    pub previous_year: i32,
    /// First day of the current range (`"%Y-%m-%d"`).
    pub start: String,
    /// Last day of the current range.
    pub end: String,
    /// January 1 of the previous year.
    pub prev_start: String,
    /// December 31 of the previous year.
    pub prev_end: String,
    /// The month (1-12) of the end date: the last month with data.
    pub current_month: u32,
}

/// The end date as text: the one asked for, else today.
pub open spec fn comparison_end_text(today: Date, end_date: Option<Seq<char>>) -> Seq<char> {
    match end_date {
        Some(e) => e,
        None => ymd_text(today),
    }
}

/// The budget comparison's years and ranges on `today`: the current range
/// runs from the start asked for (January 1 by default) to the end asked
/// for (today by default); the previous year is compared whole; the end
/// date's month (today's when it cannot be read) is the last with data.
pub fn comparison_plan(today: Date, start_date: Option<&str>, end_date: Option<&str>) -> (res: ComparisonPlan)
    requires
        today.valid(),
        today.year > MIN_YEAR,
    ensures
        res.current_year == today.year,
        res.previous_year == today.year - 1,
        res.start@ == match start_date { Some(s) => s@, None => ymd_text(ymd(today.year as int, 1, 1)) },
        res.end@ == comparison_end_text(today, match end_date { Some(e) => Some(e@), None => None }),
        res.prev_start@ == ymd_text(ymd(today.year - 1, 1, 1)),
        res.prev_end@ == ymd_text(ymd(today.year - 1, 12, 31)),
        res.current_month == match ymd_of(res.end@) { Some(d) => d.month, None => today.month },
{
    let cy = today.year;
    let py = cy - 1;
    let end = match end_date {
        Some(e) => String::from_str(e),
        None => format_ymd(&today),
    };
    let start = match start_date {
        Some(s) => String::from_str(s),
        None => format_ymd(&Date { year: cy, month: 1, day: 1 }),
    };
    let current_month = match parse_date(end.as_str()) {
        Ok(d) => d.month,
        Err(_) => today.month,
    };
    ComparisonPlan {
        current_year: cy,
        previous_year: py,
        start,
        end,
        prev_start: format_ymd(&Date { year: py, month: 1, day: 1 }),
        prev_end: format_ymd(&Date { year: py, month: 12, day: 31 }),
        current_month,
    }
}

/// The twelve month abbreviations, January first.
pub fn month_abbrevs() -> (res: Vec<String>)
    ensures
        res@.len() == 12,
        forall|k: int| 0 <= k < 12 ==> (#[trigger] res@[k])@ == month_abbrev_text(k + 1),
{
    let mut out: Vec<String> = Vec::new();
    let mut m: u32 = 1;
    while m <= 12
        invariant
            1 <= m <= 13,
            out@.len() == m - 1,
            forall|k: int| 0 <= k < out@.len() ==> (#[trigger] out@[k])@ == month_abbrev_text(k + 1),
        decreases 13 - m,
    {
        out.push(month_abbrev(m));
        m = m + 1;
    }
    out
}

/// The English name of month `m` (1-12), as chrono writes `%B`.
pub open spec fn month_name_text(m: int) -> Seq<char> {
    if m == 1 { "January"@ } else if m == 2 { "February"@ } else if m == 3 { "March"@ }
    else if m == 4 { "April"@ } else if m == 5 { "May"@ } else if m == 6 { "June"@ }
    else if m == 7 { "July"@ } else if m == 8 { "August"@ } else if m == 9 { "September"@ }
    else if m == 10 { "October"@ } else if m == 11 { "November"@ } else { "December"@ }
}

/// The English name of month `m` (1-12).
pub fn month_name(m: u32) -> (res: String)
    requires
        1 <= m <= 12,
    ensures
        res@ == month_name_text(m as int),
{
    if m == 1 { String::from_str("January") } else if m == 2 { String::from_str("February") }
    else if m == 3 { String::from_str("March") } else if m == 4 { String::from_str("April") }
    else if m == 5 { String::from_str("May") } else if m == 6 { String::from_str("June") }
    else if m == 7 { String::from_str("July") } else if m == 8 { String::from_str("August") }
    else if m == 9 { String::from_str("September") } else if m == 10 { String::from_str("October") }
    else if m == 11 { String::from_str("November") } else { String::from_str("December") }
}

/// The month of a date as chrono formats it with `"%B %Y"`, e.g.
/// `"September 2026"`.
pub fn month_year_label(d: &Date) -> (res: String)
    requires
        d.valid(),
    ensures
        res@ == month_name_text(d.month as int) + " "@ + chrono_year_text(d.year as int),
{
    let mut s = month_name(d.month);
    s.append(" ");
    proof { reveal_strlit(" "); }
    push_chrono_year(&mut s, d.year);
    s
}

} // verus!
