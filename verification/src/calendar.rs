//! Calendar dates: the proleptic Gregorian calendar that chrono's `NaiveDate`
//! models, with the arithmetic and text forms the dashboard needs.

use vstd::prelude::*;
use crate::numfmt::{digits, zero_pad, std_padded, push_zero_padded, push_std_padded};
use crate::text::push_char;
use chrono::Datelike;

verus! {

/// Earliest year that chrono's `NaiveDate` represents.
pub const MIN_YEAR: i32 = -262143;
/// Latest year that chrono's `NaiveDate` represents.
pub const MAX_YEAR: i32 = 262142;

pub open spec fn is_leap_year(y: int) -> bool {
    (y % 4 == 0 && y % 100 != 0) || y % 400 == 0
}

/// Number of days in month `m` (1-12) of year `y`.
pub open spec fn month_days(y: int, m: int) -> int {
    if m == 2 {
        if is_leap_year(y) { 29 } else { 28 }
    } else if m == 4 || m == 6 || m == 9 || m == 11 {
        30
    } else {
        31
    }
}

/// A day that exists in the calendar, within chrono's range of years.
pub open spec fn is_valid_ymd(y: int, m: int, d: int) -> bool {
    &&& MIN_YEAR <= y <= MAX_YEAR
    &&& 1 <= m <= 12
    &&& 1 <= d <= month_days(y, m)
}

/// A calendar date (year, month 1-12, day 1-31).
#[derive(Clone, Copy, Debug, PartialEq, Eq, Structural)]
pub struct Date {
    pub year: i32,
    pub month: u32,
    pub day: u32,
}

/// The date `(y, m, d)`.
pub open spec fn ymd(y: int, m: int, d: int) -> Date {
    Date { year: y as i32, month: m as u32, day: d as u32 }
}

/// The last day of month `m` of year `y`.
pub open spec fn last_of_month(y: int, m: int) -> Date {
    ymd(y, m, month_days(y, m))
}

/// The first day of the month after month `m` of year `y`.
pub open spec fn first_of_next_month(y: int, m: int) -> Date {
    if m == 12 { ymd(y + 1, 1, 1) } else { ymd(y, m + 1, 1) }
}

impl Date {
    pub open spec fn valid(self) -> bool {
        is_valid_ymd(self.year as int, self.month as int, self.day as int)
    }

    /// A calendar day, with the year far from the limits of `i32`.
    pub open spec fn in_calendar(self) -> bool {
        &&& -1_000_000 <= self.year <= 1_000_000
        &&& 1 <= self.month <= 12
        &&& 1 <= self.day <= month_days(self.year as int, self.month as int)
    }

    /// A calendar day whose neighbours are calendar days too.
    pub open spec fn steppable(self) -> bool {
        self.in_calendar() && -999_999 <= self.year <= 999_999
    }

    /// Month and day lie in their ranges (the year may be any).
    pub open spec fn shaped(self) -> bool {
        1 <= self.month <= 12 && 1 <= self.day <= 31
    }

    /// A number that orders dates as the calendar does.
    pub open spec fn ord(self) -> int {
        self.year * 512 + self.month * 32 + self.day
    }

    /// The day after `self`.
    pub open spec fn next(self) -> Date {
        if self.day < month_days(self.year as int, self.month as int) {
            ymd(self.year as int, self.month as int, self.day + 1)
        } else {
            first_of_next_month(self.year as int, self.month as int)
        }
    }

    /// The day before `self`.
    pub open spec fn prev(self) -> Date {
        if self.day > 1 {
            ymd(self.year as int, self.month as int, self.day - 1)
        } else if self.month > 1 {
            last_of_month(self.year as int, self.month - 1)
        } else {
            last_of_month(self.year - 1, 12)
        }
    }

    /// `self` moved `n` days back.
    pub open spec fn minus_days(self, n: nat) -> Date
        decreases n,
    {
        if n == 0 { self } else { self.prev().minus_days((n - 1) as nat) }
    }

    /// `self` moved `n` days forward.
    pub open spec fn plus_days(self, n: nat) -> Date
        decreases n,
    {
        if n == 0 { self } else { self.next().plus_days((n - 1) as nat) }
    }
}

pub broadcast proof fn lemma_month_days_range(y: int, m: int)
    ensures
        28 <= #[trigger] month_days(y, m) <= 31,
{
}

/// `true` when `y` is a leap year.
pub fn leap_year(y: i32) -> (res: bool)
    ensures
        res == is_leap_year(y as int),
{
    // Shift by a multiple of 400 so the remainders are taken of a
    // non-negative number; leap years repeat every 400 years.
    let z: i64 = y as i64 + 4_000_000_000;
    assert(z % 4 == (y as int) % 4);
    assert(z % 100 == (y as int) % 100);
    assert(z % 400 == (y as int) % 400);
    (z % 4 == 0 && z % 100 != 0) || z % 400 == 0
}

/// Days in month `m` of year `y`.
pub fn days_in_month(y: i32, m: u32) -> (res: u32)
    ensures
        res == month_days(y as int, m as int),
{
    if m == 2 {
        if leap_year(y) { 29 } else { 28 }
    } else if m == 4 || m == 6 || m == 9 || m == 11 {
        30
    } else {
        31
    }
}

/// Whether `(y, m, d)` names a day chrono can represent.
pub fn is_valid_date(y: i32, m: u32, d: u32) -> (res: bool)
    ensures
        res == is_valid_ymd(y as int, m as int, d as int),
{
    MIN_YEAR <= y && y <= MAX_YEAR && 1 <= m && m <= 12 && 1 <= d && d <= days_in_month(y, m)
}

impl Date {
    /// chrono's `NaiveDate::from_ymd_opt`: the date when it exists.
    pub fn from_ymd(year: i32, month: u32, day: u32) -> (res: Option<Date>)
        ensures
            res == (if is_valid_ymd(year as int, month as int, day as int) {
                Some(ymd(year as int, month as int, day as int))
            } else {
                None
            }),
    {
        chrono_from_ymd(year, month, day)
    }

    /// `self <= other` in calendar order.
    pub fn le(&self, other: &Date) -> (res: bool)
        requires
            self.shaped(),
            other.shaped(),
        ensures
            res == (self.ord() <= other.ord()),
    {
        self.year < other.year || (self.year == other.year && (self.month < other.month
            || (self.month == other.month && self.day <= other.day)))
    }

    /// The day after `self`.
    pub fn next_day(&self) -> (res: Date)
        requires
            self.steppable(),
        ensures
            res == self.next(),
            res.ord() > self.ord(),
            res.in_calendar(),
            self.year <= res.year <= self.year + 1,
    {
        let dim = days_in_month(self.year, self.month);
        if self.day < dim {
            Date { year: self.year, month: self.month, day: self.day + 1 }
        } else if self.month < 12 {
            Date { year: self.year, month: self.month + 1, day: 1 }
        } else {
            Date { year: self.year + 1, month: 1, day: 1 }
        }
    }

    /// The day before `self`.
    pub fn prev_day(&self) -> (res: Date)
        requires
            self.steppable(),
        ensures
            res == self.prev(),
            res.ord() < self.ord(),
            res.in_calendar(),
            self.year - 1 <= res.year <= self.year,
    {
        if self.day > 1 {
            Date { year: self.year, month: self.month, day: self.day - 1 }
        } else if self.month > 1 {
            let m = self.month - 1;
            Date { year: self.year, month: m, day: days_in_month(self.year, m) }
        } else {
            let y = self.year - 1;
            Date { year: y, month: 12, day: days_in_month(y, 12) }
        }
    }
}

/// chrono's `NaiveDate::from_ymd_opt` on its own: the date exists exactly
/// when the month is 1-12, the day is within that month (February 29 only in
/// leap years) and the year lies within chrono's range.
#[verifier::external_body]
fn chrono_from_ymd(year: i32, month: u32, day: u32) -> (res: Option<Date>)
    ensures
        res == (if is_valid_ymd(year as int, month as int, day as int) {
            Some(ymd(year as int, month as int, day as int))
        } else {
            None
        }),
{
    chrono::NaiveDate::from_ymd_opt(year, month, day).map(
        |d| Date { year: d.year(), month: d.month(), day: d.day() },
    )
}


/// How chrono writes a year for `%Y`: four digits, zero-padded, for years
/// 0-9999; otherwise a sign followed by at least four digits.
pub open spec fn chrono_year_text(y: int) -> Seq<char> {
    if 0 <= y <= 9999 {
        zero_pad(digits(y as nat), 4)
    } else if y < 0 {
        seq!['-'] + zero_pad(digits((-y) as nat), 4)
    } else {
        seq!['+'] + zero_pad(digits(y as nat), 4)
    }
}

/// Two zero-padded digits, as chrono writes `%m` and `%d`.
pub open spec fn two_digits(n: int) -> Seq<char> {
    zero_pad(digits(n as nat), 2)
}

/// The date as chrono formats it with `"%Y-%m-%d"`.
pub open spec fn ymd_text(d: Date) -> Seq<char> {
    chrono_year_text(d.year as int) + seq!['-'] + two_digits(d.month as int) + seq!['-']
        + two_digits(d.day as int)
}

/// The month of the date as chrono formats it with `"%Y-%m"`.
pub open spec fn ym_text(d: Date) -> Seq<char> {
    chrono_year_text(d.year as int) + seq!['-'] + two_digits(d.month as int)
}

/// Midnight UTC of the date, as formatted with `"%Y-%m-%dT00:00:00+00:00"`.
pub open spec fn period_key_text(d: Date) -> Seq<char> {
    ymd_text(d) + "T00:00:00+00:00"@
}

/// `format!("{:04}-{:02}", year, month)`.
pub open spec fn std_month_label(y: int, m: int) -> Seq<char> {
    std_padded(y, 4) + seq!['-'] + std_padded(m, 2)
}

/// Appends the year as chrono writes `%Y`.
pub fn push_chrono_year(s: &mut String, y: i32)
    ensures
        final(s)@ == old(s)@ + chrono_year_text(y as int),
{
    let ghost start = s@;
    if 0 <= y && y <= 9999 {
        push_zero_padded(s, y as u64, 4);
    } else if y < 0 {
        push_char(s, '-');
        let a: i64 = -(y as i64);
        push_zero_padded(s, a as u64, 4);
        assert(s@ =~= start + chrono_year_text(y as int));
    } else {
        push_char(s, '+');
        push_zero_padded(s, y as u64, 4);
        assert(s@ =~= start + chrono_year_text(y as int));
    }
}

/// Appends the date as `"%Y-%m-%d"`.
pub fn push_ymd(s: &mut String, d: &Date)
    ensures
        final(s)@ == old(s)@ + ymd_text(*d),
{
    let ghost start = s@;
    push_chrono_year(s, d.year);
    push_char(s, '-');
    push_zero_padded(s, d.month as u64, 2);
    push_char(s, '-');
    push_zero_padded(s, d.day as u64, 2);
    assert(s@ =~= start + ymd_text(*d));
}

/// The date as `"%Y-%m-%d"`.
pub fn format_ymd(d: &Date) -> (res: String)
    ensures
        res@ == ymd_text(*d),
{
    let mut s = String::new();
    push_ymd(&mut s, d);
    assert(s@ =~= ymd_text(*d));
    s
}

/// The month of the date as `"%Y-%m"`.
pub fn format_ym(d: &Date) -> (res: String)
    ensures
        res@ == ym_text(*d),
{
    let mut s = String::new();
    push_chrono_year(&mut s, d.year);
    push_char(&mut s, '-');
    push_zero_padded(&mut s, d.month as u64, 2);
    assert(s@ =~= ym_text(*d));
    s
}

/// The date as a period key, `"%Y-%m-%dT00:00:00+00:00"`.
pub fn format_period_key(d: &Date) -> (res: String)
    ensures
        res@ == period_key_text(*d),
{
    let mut s = String::new();
    push_ymd(&mut s, d);
    s.append("T00:00:00+00:00");
    assert(s@ =~= period_key_text(*d));
    s
}

/// `format!("{:04}-{:02}", year, month)`.
pub fn format_month_label(year: i32, month: u32) -> (res: String)
    ensures
        res@ == std_month_label(year as int, month as int),
{
    let mut s = String::new();
    push_std_padded(&mut s, year as i64, 4);
    push_char(&mut s, '-');
    push_std_padded(&mut s, month as i64, 2);
    assert(s@ =~= std_month_label(year as int, month as int));
    s
}

/// What chrono's `NaiveDate::parse_from_str(s, "%Y-%m-%d")` gives for `s`:
/// the (year, month, day) of the date, or the text of the error it reports
/// (its `Display`).
pub uninterp spec fn chrono_parse_ymd(s: Seq<char>) -> Result<(i32, u32, u32), Seq<char>>;

/// What chrono's `NaiveDateTime::parse_from_str(s, fmt)` reads from `s`:
/// the (year, month, day) of the date-time, or `None` when it reports an error.
pub uninterp spec fn chrono_parse_datetime(s: Seq<char>, fmt: Seq<char>) -> Option<(i32, u32, u32)>;

/// The date of a (year, month, day) triple.
pub open spec fn triple_date(t: (i32, u32, u32)) -> Date {
    Date { year: t.0, month: t.1, day: t.2 }
}

/// A parsed triple names a date that exists.
pub open spec fn parsed_ok(r: Option<(i32, u32, u32)>) -> bool {
    r matches Some(t) ==> triple_date(t).valid()
}

/// chrono's `NaiveDate::parse_from_str(s, "%Y-%m-%d")`, with its error
/// turned into the text its `Display` gives. The contract names the outcome
/// `chrono_parse_ymd(s)`, date or error text alike; a `NaiveDate` is always a
/// date that exists within chrono's range of years.
#[verifier::external_body]
fn chrono_naive_date_parse(s: &str) -> (res: Result<Date, String>)
    ensures
        match res {
            Ok(d) => chrono_parse_ymd(s@) == Ok::<(i32, u32, u32), Seq<char>>((d.year, d.month, d.day)) && d.valid(),
            Err(e) => chrono_parse_ymd(s@) == Err::<(i32, u32, u32), Seq<char>>(e@),
        },
{
    match chrono::NaiveDate::parse_from_str(s, "%Y-%m-%d") {
        Ok(d) => Ok(Date { year: d.year(), month: d.month(), day: d.day() }),
        Err(e) => Err(e.to_string()),
    }
}

/// chrono's `NaiveDateTime::parse_from_str(s, fmt)`, keeping only the date.
/// The contract names the outcome `chrono_parse_datetime(s, fmt)`; the date
/// of a `NaiveDateTime` always exists within chrono's range of years.
#[verifier::external_body]
fn chrono_naive_datetime_parse(s: &str, fmt: &str) -> (res: Option<Date>)
    ensures
        match res {
            Some(d) => chrono_parse_datetime(s@, fmt@) == Some((d.year, d.month, d.day)) && d.valid(),
            None => chrono_parse_datetime(s@, fmt@) is None,
        },
{
    chrono::NaiveDateTime::parse_from_str(s, fmt).ok().map(
        |d| Date { year: d.year(), month: d.month(), day: d.day() },
    )
}

/// The date `s` holds in `"%Y-%m-%d"` form, as chrono reads it.
pub open spec fn ymd_of(s: Seq<char>) -> Option<Date> {
    match chrono_parse_ymd(s) {
        Ok(t) => Some(triple_date(t)),
        Err(_) => None,
    }
}

/// The message chrono gives for a text it cannot read as `"%Y-%m-%d"`.
pub open spec fn ymd_error_of(s: Seq<char>) -> Seq<char> {
    match chrono_parse_ymd(s) {
        Ok(_) => Seq::empty(),
        Err(e) => e,
    }
}

/// Parses `s` as `"%Y-%m-%d"`; the error is chrono's message.
pub fn parse_date(s: &str) -> (res: Result<Date, String>)
    ensures
        res is Ok <==> ymd_of(s@) is Some,
        res matches Ok(d) ==> ymd_of(s@) == Some(d) && d.valid(),
        res matches Err(e) ==> e@ == ymd_error_of(s@),
{
    chrono_naive_date_parse(s)
}

/// The formats a transaction date is tried in, in order.
pub open spec fn tx_formats() -> Seq<Seq<char>> {
    seq![
        "%Y-%m-%dT%H:%M:%S%:z"@,
        "%Y-%m-%dT%H:%M:%S%#z"@,
        "%Y-%m-%dT%H:%M:%SZ"@,
        "%Y-%m-%dT%H:%M:%S%.3f%:z"@,
        "%Y-%m-%dT%H:%M:%S%.3f%#z"@,
        "%Y-%m-%dT%H:%M:%S%.3fZ"@
    ]
}

/// The date of a Firefly transaction timestamp: the first of the date-time
/// formats that reads it, else a plain `"%Y-%m-%d"` date.
pub open spec fn tx_date_of(s: Seq<char>) -> Option<Date>
{
    tx_date_from(s, 0)
}

pub open spec fn tx_date_from(s: Seq<char>, i: nat) -> Option<Date>
    decreases 6 - i,
{
    if i >= 6 {
        ymd_of(s)
    } else {
        match chrono_parse_datetime(s, tx_formats()[i as int]) {
            Some(t) => Some(triple_date(t)),
            None => tx_date_from(s, i + 1),
        }
    }
}

proof fn lemma_tx_date_valid(s: Seq<char>, i: nat)
    requires
        forall|k: int| 0 <= k < 6 ==> parsed_ok(#[trigger] chrono_parse_datetime(s, tx_formats()[k])),
        ymd_of(s) matches Some(d) ==> d.valid(),
    ensures
        tx_date_from(s, i) matches Some(d) ==> d.valid(),
    decreases 6 - i,
{
    if i < 6 {
        assert(parsed_ok(chrono_parse_datetime(s, tx_formats()[i as int])));
        lemma_tx_date_valid(s, i + 1);
    }
}

/// Parses a transaction timestamp in any of the accepted forms
/// (ISO 8601 with an offset, `Z`, optional milliseconds, or a plain date).
pub fn parse_tx_date(s: &str) -> (res: Option<Date>)
    ensures
        res == tx_date_of(s@),
        res matches Some(d) ==> d.valid(),
{
    proof {
        reveal_strlit("%Y-%m-%dT%H:%M:%S%:z");
        reveal_strlit("%Y-%m-%dT%H:%M:%S%#z");
        reveal_strlit("%Y-%m-%dT%H:%M:%SZ");
        reveal_strlit("%Y-%m-%dT%H:%M:%S%.3f%:z");
        reveal_strlit("%Y-%m-%dT%H:%M:%S%.3f%#z");
        reveal_strlit("%Y-%m-%dT%H:%M:%S%.3fZ");
    }
    let r0 = chrono_naive_datetime_parse(s, "%Y-%m-%dT%H:%M:%S%:z");
    let r1 = chrono_naive_datetime_parse(s, "%Y-%m-%dT%H:%M:%S%#z");
    let r2 = chrono_naive_datetime_parse(s, "%Y-%m-%dT%H:%M:%SZ");
    let r3 = chrono_naive_datetime_parse(s, "%Y-%m-%dT%H:%M:%S%.3f%:z");
    let r4 = chrono_naive_datetime_parse(s, "%Y-%m-%dT%H:%M:%S%.3f%#z");
    let r5 = chrono_naive_datetime_parse(s, "%Y-%m-%dT%H:%M:%S%.3fZ");
    let r6 = chrono_naive_date_parse(s);
    proof {
        let f = tx_formats();
        assert(f[0] == "%Y-%m-%dT%H:%M:%S%:z"@);
        assert(f[1] == "%Y-%m-%dT%H:%M:%S%#z"@);
        assert(f[2] == "%Y-%m-%dT%H:%M:%SZ"@);
        assert(f[3] == "%Y-%m-%dT%H:%M:%S%.3f%:z"@);
        assert(f[4] == "%Y-%m-%dT%H:%M:%S%.3f%#z"@);
        assert(f[5] == "%Y-%m-%dT%H:%M:%S%.3fZ"@);
        lemma_tx_date_valid(s@, 0);
        reveal_with_fuel(tx_date_from, 7);
    }
    if r0.is_some() {
        r0
    } else if r1.is_some() {
        r1
    } else if r2.is_some() {
        r2
    } else if r3.is_some() {
        r3
    } else if r4.is_some() {
        r4
    } else if r5.is_some() {
        r5
    } else {
        match r6 {
            Ok(d) => Some(d),
            Err(_) => None,
        }
    }
}

/// Days of the proleptic Gregorian calendar before January 1 of year `y`,
/// counted so that January 1 of year 1 is day 1.
pub open spec fn days_before_year(y: int) -> int {
    let p = y - 1;
    365 * p + p / 4 - p / 100 + p / 400
}

/// Days of year `y` before the first day of month `m`.
pub open spec fn days_before_month(y: int, m: int) -> int {
    let l: int = if is_leap_year(y) { 1 } else { 0 };
    if m <= 1 { 0 }
    else if m == 2 { 31 }
    else if m == 3 { 59 + l }
    else if m == 4 { 90 + l }
    else if m == 5 { 120 + l }
    else if m == 6 { 151 + l }
    else if m == 7 { 181 + l }
    else if m == 8 { 212 + l }
    else if m == 9 { 243 + l }
    else if m == 10 { 273 + l }
    else if m == 11 { 304 + l }
    else { 334 + l }
}

/// The date's number in the day count of the proleptic Gregorian calendar
/// (January 1 of year 1, a Monday, is day 1).
pub open spec fn day_number(d: Date) -> int {
    days_before_year(d.year as int) + days_before_month(d.year as int, d.month as int) + d.day
}

/// The day of the week of a date, as days since Monday: 0 for Monday up
/// to 6 for Sunday.
pub open spec fn weekday_from_monday(d: Date) -> int {
    (day_number(d) + 6) % 7
}

/// A year has 365 days, 366 in a leap year.
pub proof fn lemma_year_length(y: int)
    ensures
        days_before_year(y + 1) == days_before_year(y) + 365 + (if is_leap_year(y) { 1int } else { 0int }),
{
    let p = y - 1;
    assert((p + 1) / 4 == p / 4 + (if (p + 1) % 4 == 0 { 1int } else { 0int }));
    assert((p + 1) / 100 == p / 100 + (if (p + 1) % 100 == 0 { 1int } else { 0int }));
    assert((p + 1) / 400 == p / 400 + (if (p + 1) % 400 == 0 { 1int } else { 0int }));
    assert(y % 400 == 0 ==> y % 100 == 0);
    assert(y % 100 == 0 ==> y % 4 == 0);
}

/// The day after a date is the next number of the day count.
pub proof fn lemma_next_number(d: Date)
    requires
        d.in_calendar(),
        d.year < 999_999,
    ensures
        day_number(d.next()) == day_number(d) + 1,
{
    lemma_year_length(d.year as int);
}

/// Earlier dates have smaller numbers in the day count.
pub proof fn lemma_number_monotone(a: Date, b: Date)
    requires
        a.in_calendar(),
        b.in_calendar(),
        a.ord() < b.ord(),
    ensures
        day_number(a) < day_number(b),
{
    broadcast use lemma_month_days_range;
    if a.year < b.year {
        lemma_year_length(a.year as int);
        lemma_years_monotone(a.year + 1, b.year as int);
    }
}

/// Later years begin later in the day count.
pub proof fn lemma_years_monotone(y1: int, y2: int)
    requires
        y1 <= y2,
    ensures
        days_before_year(y1) <= days_before_year(y2),
    decreases y2 - y1,
{
    if y1 < y2 {
        lemma_years_monotone(y1, y2 - 1);
        lemma_year_length(y2 - 1);
    }
}

/// Two calendar dates with the same number in the day count are the same
/// date.
pub proof fn lemma_number_injective(a: Date, b: Date)
    requires
        a.in_calendar(),
        b.in_calendar(),
        day_number(a) == day_number(b),
    ensures
        a == b,
{
    if a.ord() < b.ord() {
        lemma_number_monotone(a, b);
    } else if b.ord() < a.ord() {
        lemma_number_monotone(b, a);
    }
}

/// chrono's `NaiveDate::weekday().num_days_from_monday()`: the day of the
/// week in the proleptic Gregorian calendar, 0 for Monday up to 6 for
/// Sunday.
#[verifier::external_body]
fn chrono_weekday_from_monday(d: &Date) -> (res: u32)
    requires
        d.valid(),
    ensures
        res == weekday_from_monday(*d),
{
    chrono::NaiveDate::from_ymd_opt(d.year, d.month, d.day).unwrap().weekday().num_days_from_monday()
}

/// Days since Monday of the week the date falls in.
pub fn days_from_monday(d: &Date) -> (res: u32)
    requires
        d.valid(),
    ensures
        res == weekday_from_monday(*d),
        res < 7,
{
    chrono_weekday_from_monday(d)
}

pub proof fn lemma_minus_days_step(d: Date, n: nat)
    ensures
        d.minus_days(n + 1) == d.minus_days(n).prev(),
    decreases n,
{
    reveal_with_fuel(Date::minus_days, 2);
    if n > 0 {
        lemma_minus_days_step(d.prev(), (n - 1) as nat);
    }
}

pub proof fn lemma_plus_days_step(d: Date, n: nat)
    ensures
        d.plus_days(n + 1) == d.plus_days(n).next(),
    decreases n,
{
    reveal_with_fuel(Date::plus_days, 2);
    if n > 0 {
        lemma_plus_days_step(d.next(), (n - 1) as nat);
    }
}

/// `d` moved `n` days back, for fewer than a week's worth of days.
pub fn minus_days_short(d: &Date, n: u32) -> (res: Date)
    requires
        d.valid(),
        n < 7,
    ensures
        res == d.minus_days(n as nat),
        res.in_calendar(),
        res.ord() <= d.ord(),
{
    let mut cur = *d;
    let mut i: u32 = 0;
    while i < n
        invariant
            i <= n < 7,
            d.valid(),
            cur == d.minus_days(i as nat),
            cur.in_calendar(),
            cur.ord() <= d.ord(),
            d.year - i <= cur.year <= d.year,
        decreases n - i,
    {
        proof { lemma_minus_days_step(*d, i as nat); }
        cur = cur.prev_day();
        i = i + 1;
    }
    cur
}

/// `d` moved `n` days forward, for at most a week's worth of days.
pub fn plus_days_short(d: &Date, n: u32) -> (res: Date)
    requires
        d.valid(),
        n <= 7,
    ensures
        res == d.plus_days(n as nat),
        res.in_calendar(),
        res.ord() >= d.ord() + n,
{
    let mut cur = *d;
    let mut i: u32 = 0;
    while i < n
        invariant
            i <= n <= 7,
            d.valid(),
            cur == d.plus_days(i as nat),
            cur.in_calendar(),
            d.year <= cur.year <= d.year + i,
            cur.ord() >= d.ord() + i,
        decreases n - i,
    {
        proof { lemma_plus_days_step(*d, i as nat); }
        cur = cur.next_day();
        i = i + 1;
    }
    cur
}
} // verus!
