//! Chart period keys: the bucket a transaction date falls in, and the full
//! list of buckets of a date range, for daily, weekly, monthly, quarterly
//! and yearly periods.

use vstd::prelude::*;
use crate::calendar::{
    Date, ymd, last_of_month, weekday_from_monday, day_number, lemma_next_number,
    lemma_number_monotone, lemma_number_injective, ymd_of, ymd_error_of, tx_date_of, period_key_text,
    days_in_month, days_from_monday, minus_days_short, plus_days_short, parse_date,
    parse_tx_date, format_period_key, is_valid_ymd, is_valid_date, MAX_YEAR, first_of_next_month,
};
use crate::text::str_eq;
use crate::ranges::next_month_first_day;

verus! {

/// First month of the quarter that month `m` lies in.
pub open spec fn quarter_start_month(m: int) -> int {
    if m <= 3 { 1 } else if m <= 6 { 4 } else if m <= 9 { 7 } else { 10 }
}

/// The earlier of two dates.
pub open spec fn min_date(a: Date, b: Date) -> Date {
    if a.ord() > b.ord() { b } else { a }
}

/// The date that stands for the bucket of `date`: the month's last day
/// (not after `end`) for "1M", the quarter's first day for "1Q", the week's
/// Monday for "1W", January 1 for "1Y", and the day itself otherwise.
pub open spec fn period_key_date(date: Date, period: Seq<char>, end: Option<Date>) -> Date {
    if period == "1M"@ {
        let last = last_of_month(date.year as int, date.month as int);
        match end {
            Some(e) => min_date(last, e),
            None => last,
        }
    } else if period == "1Q"@ {
        ymd(date.year as int, quarter_start_month(date.month as int), 1)
    } else if period == "1W"@ {
        date.minus_days(weekday_from_monday(date) as nat)
    } else if period == "1Y"@ {
        ymd(date.year as int, 1, 1)
    } else {
        date
    }
}

/// The period key of a transaction timestamp; a timestamp that cannot be
/// read is its own key.
pub open spec fn period_key_of(date_str: Seq<char>, period: Seq<char>, end: Option<Seq<char>>) -> Seq<char> {
    let end_date = match end {
        Some(e) => ymd_of(e),
        None => None,
    };
    match tx_date_of(date_str) {
        Some(d) => period_key_text(period_key_date(d, period, end_date)),
        None => date_str,
    }
}

fn quarter_start(m: u32) -> (res: u32)
    ensures
        res == quarter_start_month(m as int),
{
    if m <= 3 { 1 } else if m <= 6 { 4 } else if m <= 9 { 7 } else { 10 }
}

/// The bucket date of a valid date.
pub fn period_key_date_of(date: &Date, period: &str, end: Option<Date>) -> (res: Date)
    requires
        date.valid(),
        end matches Some(e) ==> e.valid(),
    ensures
        res == period_key_date(*date, period@, end),
{
    proof {
        reveal_strlit("1M");
        reveal_strlit("1Q");
        reveal_strlit("1W");
        reveal_strlit("1Y");
    }
    if str_eq(period, "1M") {
        let last = Date { year: date.year, month: date.month, day: days_in_month(date.year, date.month) };
        match end {
            Some(e) => {
                if !last.le(&e) {
                    e
                } else {
                    last
                }
            },
            None => last,
        }
    } else if str_eq(period, "1Q") {
        Date { year: date.year, month: quarter_start(date.month), day: 1 }
    } else if str_eq(period, "1W") {
        let wd = days_from_monday(date);
        minus_days_short(date, wd)
    } else if str_eq(period, "1Y") {
        Date { year: date.year, month: 1, day: 1 }
    } else {
        *date
    }
}

/// The key of the chart bucket that a transaction timestamp falls in, as
/// `"YYYY-MM-DDT00:00:00+00:00"`. Monthly keys are the month's last day, but
/// not later than `end_date`. A timestamp that cannot be read is returned
/// unchanged.
pub fn get_period_key(date_str: &str, period: &str, end_date: Option<&str>) -> (res: String)
    ensures
        res@ == period_key_of(date_str@, period@, match end_date {
            Some(e) => Some(e@),
            None => None,
        }),
{
    let end_parsed: Option<Date> = match end_date {
        Some(e) => match parse_date(e) {
            Ok(d) => Some(d),
            Err(_) => None,
        },
        None => None,
    };
    match parse_tx_date(date_str) {
        Some(date) => {
            let key = period_key_date_of(&date, period, end_parsed);
            format_period_key(&key)
        },
        None => String::from_str(date_str),
    }
}


/// The first day of the quarter that `cur` lies in.
pub open spec fn quarter_first(cur: Date) -> Date {
    ymd(cur.year as int, quarter_start_month(cur.month as int), 1)
}

/// The first day of the quarter after the one `cur` lies in.
pub open spec fn next_quarter(cur: Date) -> Date {
    let qs = quarter_start_month(cur.month as int);
    if qs == 10 { ymd(cur.year + 1, 1, 1) } else { ymd(cur.year as int, qs + 3, 1) }
}

/// One turn of the walk over a date range: the bucket date emitted, if any,
/// and the next cursor. Monthly walks step to the first day of the next
/// month, quarterly walks from quarter start to quarter start, weekly walks
/// from Monday to Monday, and daily walks from day to day. `None` where the
/// walk would leave chrono's calendar.
pub open spec fn keys_step(cur: Date, end: Date, period: Seq<char>, have_keys: bool) -> Option<(Option<Date>, Date)> {
    if period == "1M"@ {
        if cur.year == MAX_YEAR && cur.month == 12 {
            None
        } else {
            let last = last_of_month(cur.year as int, cur.month as int);
            let nxt = first_of_next_month(cur.year as int, cur.month as int);
            if last.ord() > end.ord() && have_keys {
                Some((None, nxt))
            } else {
                Some((Some(min_date(last, end)), nxt))
            }
        }
    } else if period == "1Q"@ {
        if cur.year == MAX_YEAR && quarter_start_month(cur.month as int) == 10 {
            None
        } else {
            Some((Some(quarter_first(cur)), next_quarter(cur)))
        }
    } else if period == "1W"@ {
        let k = cur.minus_days(weekday_from_monday(cur) as nat);
        let n = k.plus_days(7);
        if k.valid() && n.valid() { Some((Some(k), n)) } else { None }
    } else {
        let n = cur.next();
        if n.valid() { Some((Some(cur), n)) } else { None }
    }
}

/// The keys of all buckets from `cur` to `end`, or `None` where chrono
/// cannot make a date the walk needs.
pub open spec fn keys_from(cur: Date, end: Date, period: Seq<char>, have_keys: bool) -> Option<Seq<Seq<char>>>
    decreases end.ord() - cur.ord(),
{
    if cur.ord() > end.ord() {
        Some(Seq::empty())
    } else {
        match keys_step(cur, end, period, have_keys) {
            None => None,
            Some((k, nxt)) => {
                let head = match k {
                    Some(kd) => seq![period_key_text(kd)],
                    None => Seq::empty(),
                };
                if nxt.ord() > end.ord() || nxt.ord() <= cur.ord() {
                    Some(head)
                } else {
                    match keys_from(nxt, end, period, have_keys || k is Some) {
                        None => None,
                        Some(r) => Some(head + r),
                    }
                }
            },
        }
    }
}

/// The keys of every bucket between the two `"%Y-%m-%d"` dates.
pub open spec fn period_keys_of(start: Seq<char>, end: Seq<char>, period: Seq<char>) -> Option<Seq<Seq<char>>> {
    match (ymd_of(start), ymd_of(end)) {
        (Some(s), Some(e)) => keys_from(s, e, period, false),
        _ => None,
    }
}

fn quarter_step(cur: &Date) -> (res: Option<(Date, Date)>)
    requires
        cur.valid(),
    ensures
        res matches Some((k, n)) ==> k == quarter_first(*cur) && n == next_quarter(*cur)
            && k.valid() && n.valid() && k.ord() <= cur.ord() && n.ord() > cur.ord(),
        res is None <==> (cur.year == MAX_YEAR && quarter_start_month(cur.month as int) == 10),
{
    let qs = quarter_start(cur.month);
    if qs == 10 && cur.year == MAX_YEAR {
        return None;
    }
    let k = Date { year: cur.year, month: qs, day: 1 };
    let n = if qs == 10 { Date { year: cur.year + 1, month: 1, day: 1 } } else { Date { year: cur.year, month: qs + 3, day: 1 } };
    Some((k, n))
}

fn keys_step_exec(cur: &Date, end: &Date, period: &str, have_keys: bool) -> (res: Option<(Option<Date>, Date)>)
    requires
        cur.valid(),
        end.valid(),
    ensures
        res == keys_step(*cur, *end, period@, have_keys),
        res matches Some((_, n)) ==> n.valid() && n.ord() > cur.ord(),
        cur.ord() <= end.ord() ==> (res matches Some((Some(k), _)) ==> k.valid() && k.ord() <= end.ord()),
{
    proof {
        reveal_strlit("1M");
        reveal_strlit("1Q");
        reveal_strlit("1W");
    }
    if str_eq(period, "1M") {
        if cur.year == MAX_YEAR && cur.month == 12 {
            return None;
        }
        let last = Date { year: cur.year, month: cur.month, day: days_in_month(cur.year, cur.month) };
        let nxt = next_month_first_day(cur);
        if !last.le(end) && have_keys {
            Some((None, nxt))
        } else if !last.le(end) {
            Some((Some(*end), nxt))
        } else {
            Some((Some(last), nxt))
        }
    } else if str_eq(period, "1Q") {
        match quarter_step(cur) {
            None => None,
            Some((k, n)) => Some((Some(k), n)),
        }
    } else if str_eq(period, "1W") {
        let wd = days_from_monday(cur);
        let k = minus_days_short(cur, wd);
        if !is_valid_date(k.year, k.month, k.day) {
            return None;
        }
        let n = plus_days_short(&k, 7);
        proof {
            lemma_week_step(*cur, wd as nat);
        }
        if is_valid_date(n.year, n.month, n.day) {
            Some((Some(k), n))
        } else {
            None
        }
    } else {
        let n = plus_days_short(cur, 1);
        proof {
            reveal_with_fuel(Date::plus_days, 2);
        }
        if is_valid_date(n.year, n.month, n.day) {
            Some((Some(*cur), n))
        } else {
            None
        }
    }
}

/// The bucket dates of the walk from `cur` to `end`, in the order their
/// keys come; `None` where chrono cannot make a date the walk needs.
pub open spec fn key_dates_from(cur: Date, end: Date, period: Seq<char>, have_keys: bool) -> Option<Seq<Date>>
    decreases end.ord() - cur.ord(),
{
    if cur.ord() > end.ord() {
        Some(Seq::empty())
    } else {
        match keys_step(cur, end, period, have_keys) {
            None => None,
            Some((k, nxt)) => {
                let head = match k {
                    Some(kd) => seq![kd],
                    None => Seq::empty(),
                };
                if nxt.ord() > end.ord() || nxt.ord() <= cur.ord() {
                    Some(head)
                } else {
                    match key_dates_from(nxt, end, period, have_keys || k is Some) {
                        None => None,
                        Some(r) => Some(head + r),
                    }
                }
            },
        }
    }
}

/// The key of each bucket date.
pub open spec fn keys_of_dates(ds: Seq<Date>) -> Seq<Seq<char>> {
    ds.map_values(|d: Date| period_key_text(d))
}

/// The dates come in strictly increasing order and all exist.
pub open spec fn increasing_dates(ds: Seq<Date>) -> bool {
    &&& forall|i: int| 0 <= i < ds.len() ==> (#[trigger] ds[i]).valid()
    &&& forall|i: int, j: int| 0 <= i < j < ds.len() ==> (#[trigger] ds[i]).ord() < (#[trigger] ds[j]).ord()
}

/// The keys of the walk are the keys of its bucket dates.
proof fn lemma_keys_are_dates(cur: Date, end: Date, period: Seq<char>, have_keys: bool)
    ensures
        keys_from(cur, end, period, have_keys) == match key_dates_from(cur, end, period, have_keys) {
            Some(s) => Some(keys_of_dates(s)),
            None => None,
        },
    decreases end.ord() - cur.ord(),
{
    if cur.ord() > end.ord() {
        assert(keys_of_dates(Seq::<Date>::empty()) =~= Seq::<Seq<char>>::empty());
    } else {
        match keys_step(cur, end, period, have_keys) {
            None => {},
            Some((k, nxt)) => {
                let head = match k {
                    Some(kd) => seq![kd],
                    None => Seq::<Date>::empty(),
                };
                let head_text = match k {
                    Some(kd) => seq![period_key_text(kd)],
                    None => Seq::<Seq<char>>::empty(),
                };
                assert(keys_of_dates(head) =~= head_text);
                if nxt.ord() > end.ord() || nxt.ord() <= cur.ord() {
                } else {
                    lemma_keys_are_dates(nxt, end, period, have_keys || k is Some);
                    if let Some(r) = key_dates_from(nxt, end, period, have_keys || k is Some) {
                        assert(keys_of_dates(head + r) =~= keys_of_dates(head) + keys_of_dates(r));
                    }
                }
            },
        }
    }
}

/// The day after a calendar day is a later calendar day, and the day before
/// it is the day itself.
proof fn lemma_next_later(d: Date)
    requires
        d.in_calendar(),
        d.year < 999_999,
    ensures
        d.next().in_calendar(),
        d.next().ord() > d.ord(),
        d.next().year <= d.year + 1,
        d.next().prev() == d,
{
    broadcast use crate::calendar::lemma_month_days_range;
}

/// The day before a calendar day is an earlier calendar day.
proof fn lemma_prev_earlier(d: Date)
    requires
        d.in_calendar(),
        d.year > -999_999,
    ensures
        d.prev().in_calendar(),
        d.prev().ord() < d.ord(),
        d.prev().year >= d.year - 1,
{
    broadcast use crate::calendar::lemma_month_days_range;
}

/// Moving forward `n` days, for at most a week's worth, gives later
/// calendar days.
proof fn lemma_plus_days_later(d: Date, n: nat)
    requires
        d.in_calendar(),
        d.year < 999_000,
        n <= 7,
    ensures
        d.plus_days(n).in_calendar(),
        d.plus_days(n).ord() >= d.ord() + n,
        d.plus_days(n).year <= d.year + n,
    decreases n,
{
    if n > 0 {
        lemma_plus_days_later(d, (n - 1) as nat);
        crate::calendar::lemma_plus_days_step(d, (n - 1) as nat);
        lemma_next_later(d.plus_days((n - 1) as nat));
    } else {
        assert(d.plus_days(0) == d);
    }
}

/// Moving back `n` days, for at most a week's worth, gives earlier
/// calendar days.
proof fn lemma_minus_days_earlier(d: Date, n: nat)
    requires
        d.in_calendar(),
        d.year > -999_000,
        n <= 7,
    ensures
        d.minus_days(n).in_calendar(),
        d.minus_days(n).ord() <= d.ord() - n,
        d.minus_days(n).year >= d.year - n,
    decreases n,
{
    if n > 0 {
        lemma_minus_days_earlier(d, (n - 1) as nat);
        crate::calendar::lemma_minus_days_step(d, (n - 1) as nat);
        lemma_prev_earlier(d.minus_days((n - 1) as nat));
    } else {
        assert(d.minus_days(0) == d);
    }
}

/// Going back fewer days never lands earlier than going back more.
proof fn lemma_minus_days_monotone(d: Date, a: nat, b: nat)
    requires
        d.in_calendar(),
        d.year > -999_000,
        a <= b <= 7,
    ensures
        d.minus_days(b).ord() <= d.minus_days(a).ord(),
    decreases b - a,
{
    if a < b {
        lemma_minus_days_monotone(d, a, (b - 1) as nat);
        crate::calendar::lemma_minus_days_step(d, (b - 1) as nat);
        lemma_minus_days_earlier(d, (b - 1) as nat);
        lemma_prev_earlier(d.minus_days((b - 1) as nat));
    }
}

/// A week forward and `i` days back is `7 - i` days forward.
proof fn lemma_week_back(d: Date, i: nat)
    requires
        d.in_calendar(),
        d.year < 999_000,
        i <= 7,
    ensures
        d.plus_days(7).minus_days(i) == d.plus_days((7 - i) as nat),
    decreases i,
{
    if i > 0 {
        lemma_week_back(d, (i - 1) as nat);
        crate::calendar::lemma_minus_days_step(d.plus_days(7), (i - 1) as nat);
        crate::calendar::lemma_plus_days_step(d, (7 - i) as nat);
        lemma_plus_days_later(d, (7 - i) as nat);
        lemma_next_later(d.plus_days((7 - i) as nat));
    } else {
        assert(d.plus_days(7).minus_days(0) == d.plus_days(7));
    }
}

/// The day before a calendar day, then the day after, is the day itself.
proof fn lemma_prev_next(d: Date)
    requires
        d.in_calendar(),
        d.year > -999_999,
    ensures
        d.prev().next() == d,
{
    broadcast use crate::calendar::lemma_month_days_range;
}

/// `w` days back, then `j` forward (no more than `w`), is `w - j` days back.
proof fn lemma_back_forward(d: Date, w: nat, j: nat)
    requires
        d.in_calendar(),
        d.year > -999_000,
        j <= w <= 7,
    ensures
        d.minus_days(w).plus_days(j) == d.minus_days((w - j) as nat),
    decreases j,
{
    if j == 0 {
        assert(d.minus_days(w).plus_days(0) == d.minus_days(w));
    } else {
        lemma_back_forward(d, w, (j - 1) as nat);
        crate::calendar::lemma_plus_days_step(d.minus_days(w), (j - 1) as nat);
        crate::calendar::lemma_minus_days_step(d, (w - j) as nat);
        lemma_minus_days_earlier(d, (w - j) as nat);
        lemma_prev_next(d.minus_days((w - j) as nat));
    }
}

/// Moving `a` days and then `b` days forward is moving `a + b` days.
proof fn lemma_plus_add(d: Date, a: nat, b: nat)
    ensures
        d.plus_days(a).plus_days(b) == d.plus_days(a + b),
    decreases b,
{
    if b == 0 {
        assert(d.plus_days(a).plus_days(0) == d.plus_days(a));
    } else {
        lemma_plus_add(d, a, (b - 1) as nat);
        crate::calendar::lemma_plus_days_step(d.plus_days(a), (b - 1) as nat);
        crate::calendar::lemma_plus_days_step(d, (a + b - 1) as nat);
    }
}

/// One weekly step: from `cur`, back `w` days to its Monday `k`, and a week
/// on from there, lands after `cur`; the Monday lies no earlier than six
/// days before `cur`, and six days before the next Monday is the day after
/// `k`.
proof fn lemma_week_step(cur: Date, w: nat)
    requires
        cur.valid(),
        w < 7,
    ensures ({
        let k = cur.minus_days(w);
        &&& k.in_calendar()
        &&& k.ord() <= cur.ord()
        &&& k.ord() >= cur.minus_days(6).ord()
        &&& k.plus_days(7).ord() > cur.ord()
        &&& k.plus_days(7).minus_days(6) == k.next()
        &&& k.next().ord() > k.ord()
    }),
{
    let k = cur.minus_days(w);
    lemma_minus_days_earlier(cur, w);
    lemma_minus_days_monotone(cur, w, 6);
    lemma_back_forward(cur, w, w);
    assert(cur.minus_days(0) == cur);
    lemma_plus_add(k, w, (7 - w) as nat);
    lemma_plus_days_later(cur, (7 - w) as nat);
    lemma_week_back(k, 6);
    crate::calendar::lemma_plus_days_step(k, 0);
    assert(k.plus_days(0) == k);
    lemma_next_later(k);
}

/// No bucket date of the walk from `cur` lies before this.
pub open spec fn walk_floor(cur: Date, period: Seq<char>) -> int {
    if period == "1M"@ {
        cur.ord()
    } else if period == "1Q"@ {
        quarter_first(cur).ord()
    } else if period == "1W"@ {
        cur.minus_days(6).ord()
    } else {
        cur.ord()
    }
}

/// The bucket dates of the walk from a valid `cur` exist, lie no earlier
/// than the walk's floor, and strictly increase.
proof fn lemma_key_dates_increasing(cur: Date, end: Date, period: Seq<char>, have_keys: bool)
    requires
        cur.valid(),
        end.valid(),
        key_dates_from(cur, end, period, have_keys) is Some,
    ensures ({
        let s = key_dates_from(cur, end, period, have_keys).unwrap();
        &&& increasing_dates(s)
        &&& forall|i: int| 0 <= i < s.len() ==> (#[trigger] s[i]).ord() >= walk_floor(cur, period)
    }),
    decreases end.ord() - cur.ord(),
{
    broadcast use crate::calendar::lemma_month_days_range;
    reveal_strlit("1M");
    reveal_strlit("1Q");
    reveal_strlit("1W");
    assert("1M"@ != "1Q"@ && "1M"@ != "1W"@ && "1Q"@ != "1W"@) by {
        assert("1M"@[1] != "1Q"@[1]);
        assert("1M"@[1] != "1W"@[1]);
        assert("1Q"@[1] != "1W"@[1]);
    }
    if cur.ord() > end.ord() {
        return;
    }
    let (k, nxt) = keys_step(cur, end, period, have_keys).unwrap();
    let head = match k {
        Some(kd) => seq![kd],
        None => Seq::<Date>::empty(),
    };
    // What one step gives: the next cursor is a later date, and the
    // bucket date exists, lies at or after the floor and before the floor
    // of the next cursor.
    if period == "1W"@ {
        let w = weekday_from_monday(cur) as nat;
        lemma_week_step(cur, w);
        assert(walk_floor(nxt, period) == cur.minus_days(w).next().ord());
    } else if period == "1Q"@ {
        assert(nxt.valid());
        assert(quarter_first(nxt) == nxt);
    } else if period == "1M"@ {
        assert(nxt.valid());
    } else {
        lemma_next_later(cur);
    }
    assert(nxt.ord() > cur.ord());
    assert(k matches Some(kd) ==> kd.valid() && kd.ord() >= walk_floor(cur, period)
        && kd.ord() < walk_floor(nxt, period));
    assert(walk_floor(nxt, period) >= walk_floor(cur, period));
    if nxt.ord() > end.ord() {
        let s = key_dates_from(cur, end, period, have_keys).unwrap();
        assert(s =~= head);
    } else {
        let h2 = have_keys || k is Some;
        lemma_key_dates_increasing(nxt, end, period, h2);
        let r = key_dates_from(nxt, end, period, h2).unwrap();
        let s = head + r;
        assert(key_dates_from(cur, end, period, have_keys).unwrap() == s);
        assert forall|i: int| 0 <= i < s.len() implies (#[trigger] s[i]).valid() && s[i].ord() >= walk_floor(cur, period) by {
            if i >= head.len() {
                assert(s[i] == r[i - head.len()]);
            }
        }
        assert forall|i: int, j: int| 0 <= i < j < s.len() implies (#[trigger] s[i]).ord() < (#[trigger] s[j]).ord() by {
            assert(s[j] == r[j - head.len()]);
            if i >= head.len() {
                assert(s[i] == r[i - head.len()]);
            }
        }
    }
}

/// Law: the keys of a date range come in date order, each bucket once.
/// Between two dates that exist, whenever the walk succeeds its keys are
/// the keys of existing dates that strictly increase (`generate_period_keys`
/// walks from the dates it reads, which exist).
pub proof fn lemma_period_keys_in_order(start: Date, end: Date, period: Seq<char>)
    requires
        start.valid(),
        end.valid(),
        keys_from(start, end, period, false) is Some,
    ensures
        key_dates_from(start, end, period, false) matches Some(ds)
            && keys_from(start, end, period, false) == Some(keys_of_dates(ds))
            && increasing_dates(ds),
{
    lemma_keys_are_dates(start, end, period, false);
    lemma_key_dates_increasing(start, end, period, false);
}

/// No date that exists lies strictly between a date and the day after it.
#[verifier::spinoff_prover]
#[verifier::rlimit(30)]
proof fn lemma_next_least(d: Date, x: Date)
    requires
        d.valid(),
        x.valid(),
        x.ord() > d.ord(),
    ensures
        x.ord() >= d.next().ord(),
{
    broadcast use crate::calendar::lemma_month_days_range;
}

/// Two dates that exist with the same order number are the same date.
proof fn lemma_ord_injective(a: Date, b: Date)
    requires
        a.valid(),
        b.valid(),
        a.ord() == b.ord(),
    ensures
        a == b,
{
}

/// Every date from `cur` to `end` is a bucket date of the daily walk.
proof fn lemma_day_covered(cur: Date, end: Date, x: Date, have_keys: bool)
    requires
        cur.valid(),
        end.valid(),
        x.valid(),
        cur.ord() <= x.ord() <= end.ord(),
        key_dates_from(cur, end, "1D"@, have_keys) is Some,
    ensures
        key_dates_from(cur, end, "1D"@, have_keys).unwrap().contains(x),
    decreases end.ord() - cur.ord(),
{
    reveal_strlit("1D");
    reveal_strlit("1M");
    reveal_strlit("1Q");
    reveal_strlit("1W");
    assert("1D"@[1] != "1M"@[1] && "1D"@[1] != "1Q"@[1] && "1D"@[1] != "1W"@[1]);
    let nxt = cur.next();
    lemma_next_later(cur);
    let s = key_dates_from(cur, end, "1D"@, have_keys).unwrap();
    assert(s[0] == cur);
    if x.ord() == cur.ord() {
        lemma_ord_injective(x, cur);
    } else {
        lemma_next_least(cur, x);
        assert(nxt.valid());
        lemma_day_covered(nxt, end, x, true);
        let r = key_dates_from(nxt, end, "1D"@, true).unwrap();
        assert(s == seq![cur] + r);
        let i = choose|i: int| 0 <= i < r.len() && r[i] == x;
        assert(s[i + 1] == x);
    }
}

/// The first day of every quarter that meets the range from `cur` to `end`
/// is a bucket date of the quarterly walk.
proof fn lemma_quarter_covered(cur: Date, end: Date, x: Date, have_keys: bool)
    requires
        cur.valid(),
        end.valid(),
        x.valid(),
        cur.ord() <= x.ord() <= end.ord(),
        key_dates_from(cur, end, "1Q"@, have_keys) is Some,
    ensures
        key_dates_from(cur, end, "1Q"@, have_keys).unwrap().contains(quarter_first(x)),
    decreases end.ord() - cur.ord(),
{
    broadcast use crate::calendar::lemma_month_days_range;
    reveal_strlit("1M");
    reveal_strlit("1Q");
    assert("1Q"@[1] != "1M"@[1]);
    let nxt = next_quarter(cur);
    let s = key_dates_from(cur, end, "1Q"@, have_keys).unwrap();
    assert(s[0] == quarter_first(cur));
    if x.ord() < nxt.ord() {
        assert(x.year == cur.year && quarter_start_month(x.month as int) == quarter_start_month(cur.month as int));
        assert(quarter_first(x) == quarter_first(cur));
    } else {
        assert(nxt.valid());
        lemma_quarter_covered(nxt, end, x, true);
        let r = key_dates_from(nxt, end, "1Q"@, true).unwrap();
        assert(s == seq![quarter_first(cur)] + r);
        let i = choose|i: int| 0 <= i < r.len() && r[i] == quarter_first(x);
        assert(s[i + 1] == quarter_first(x));
    }
}

/// Moving back `n` days, a week's worth at most, lowers the day count by `n`.
proof fn lemma_minus_number(d: Date, n: nat)
    requires
        d.in_calendar(),
        -999_000 < d.year < 999_000,
        n <= 7,
    ensures
        day_number(d.minus_days(n)) == day_number(d) - n,
    decreases n,
{
    if n > 0 {
        lemma_minus_number(d, (n - 1) as nat);
        crate::calendar::lemma_minus_days_step(d, (n - 1) as nat);
        lemma_minus_days_earlier(d, (n - 1) as nat);
        let e = d.minus_days((n - 1) as nat);
        lemma_prev_earlier(e);
        lemma_prev_next(e);
        lemma_next_number(e.prev());
    } else {
        assert(d.minus_days(0) == d);
    }
}

/// Moving forward `n` days, a week's worth at most, raises the day count by
/// `n`.
proof fn lemma_plus_number(d: Date, n: nat)
    requires
        d.in_calendar(),
        d.year < 999_000,
        n <= 7,
    ensures
        day_number(d.plus_days(n)) == day_number(d) + n,
    decreases n,
{
    if n > 0 {
        lemma_plus_number(d, (n - 1) as nat);
        crate::calendar::lemma_plus_days_step(d, (n - 1) as nat);
        lemma_plus_days_later(d, (n - 1) as nat);
        lemma_next_number(d.plus_days((n - 1) as nat));
    } else {
        assert(d.plus_days(0) == d);
    }
}

/// Two dates of one calendar week, Monday to Sunday, have the same Monday.
proof fn lemma_same_monday(k: Date, x: Date)
    requires
        k.valid(),
        x.valid(),
        weekday_from_monday(k) == 0,
        k.ord() <= x.ord(),
        x.ord() < k.plus_days(7).ord(),
    ensures
        x.minus_days(weekday_from_monday(x) as nat) == k,
{
    let wx = weekday_from_monday(x) as nat;
    lemma_plus_days_later(k, 7);
    lemma_plus_number(k, 7);
    if k.ord() < x.ord() {
        lemma_number_monotone(k, x);
    }
    lemma_number_monotone(x, k.plus_days(7));
    let a = day_number(k);
    let b = day_number(x);
    assert((b + 6) % 7 == b - a) by (nonlinear_arith)
        requires
            (a + 6) % 7 == 0,
            a <= b < a + 7,
    {}
    lemma_minus_number(x, wx);
    lemma_minus_days_earlier(x, wx);
    lemma_number_injective(x.minus_days(wx), k);
}

/// The Monday of every week that meets the range from `cur` to `end` is a
/// bucket date of the weekly walk.
#[verifier::rlimit(40)]
proof fn lemma_week_covered(cur: Date, end: Date, x: Date, have_keys: bool)
    requires
        cur.valid(),
        end.valid(),
        x.valid(),
        cur.ord() <= x.ord() <= end.ord(),
        key_dates_from(cur, end, "1W"@, have_keys) is Some,
    ensures
        key_dates_from(cur, end, "1W"@, have_keys).unwrap().contains(
            x.minus_days(weekday_from_monday(x) as nat),
        ),
    decreases end.ord() - cur.ord(),
{
    reveal_strlit("1M");
    reveal_strlit("1Q");
    reveal_strlit("1W");
    assert("1W"@[1] != "1M"@[1] && "1W"@[1] != "1Q"@[1]);
    let w = weekday_from_monday(cur) as nat;
    let k = cur.minus_days(w);
    let nxt = k.plus_days(7);
    lemma_week_step(cur, w);
    assert(keys_step(cur, end, "1W"@, have_keys) is Some);
    assert(k.valid() && nxt.valid());
    assert(keys_step(cur, end, "1W"@, have_keys) == Some((Some(k), nxt)));
    let s = key_dates_from(cur, end, "1W"@, have_keys).unwrap();
    assert(s[0] == k);
    lemma_minus_number(cur, w);
    assert(weekday_from_monday(k) == 0);
    if x.ord() < nxt.ord() {
        lemma_same_monday(k, x);
    } else {
        lemma_week_covered(nxt, end, x, true);
        let r = key_dates_from(nxt, end, "1W"@, true).unwrap();
        assert(s == seq![k] + r);
        let m = x.minus_days(weekday_from_monday(x) as nat);
        let i = choose|i: int| 0 <= i < r.len() && r[i] == m;
        assert(s[i + 1] == m);
    }
}

/// Law: with daily, weekly or quarterly periods, the bucket key of every
/// transaction dated within the range is one of the range's keys, so no
/// amount falls outside the chart. (Monthly ranges leave out a trailing
/// partial month by design.)
pub proof fn lemma_transaction_key_generated(
    start: Date,
    end: Date,
    period: Seq<char>,
    date: Seq<char>,
    end_text: Option<Seq<char>>,
    x: Date,
)
    requires
        start.valid(),
        end.valid(),
        x.valid(),
        tx_date_of(date) == Some(x),
        start.ord() <= x.ord() <= end.ord(),
        period == "1D"@ || period == "1W"@ || period == "1Q"@,
        keys_from(start, end, period, false) is Some,
    ensures
        keys_from(start, end, period, false).unwrap().contains(period_key_of(date, period, end_text)),
{
    reveal_strlit("1D");
    reveal_strlit("1M");
    reveal_strlit("1Q");
    reveal_strlit("1W");
    reveal_strlit("1Y");
    assert("1D"@[1] != "1M"@[1] && "1D"@[1] != "1Q"@[1] && "1D"@[1] != "1W"@[1] && "1D"@[1] != "1Y"@[1]);
    assert("1Q"@[1] != "1M"@[1] && "1Q"@[1] != "1W"@[1] && "1Q"@[1] != "1Y"@[1]);
    assert("1W"@[1] != "1M"@[1] && "1W"@[1] != "1Y"@[1]);
    lemma_keys_are_dates(start, end, period, false);
    let ds = key_dates_from(start, end, period, false).unwrap();
    let target = if period == "1D"@ {
        x
    } else if period == "1W"@ {
        x.minus_days(weekday_from_monday(x) as nat)
    } else {
        quarter_first(x)
    };
    if period == "1D"@ {
        lemma_day_covered(start, end, x, false);
    } else if period == "1W"@ {
        lemma_week_covered(start, end, x, false);
    } else {
        lemma_quarter_covered(start, end, x, false);
    }
    let i = choose|i: int| 0 <= i < ds.len() && ds[i] == target;
    assert(keys_of_dates(ds)[i] == period_key_text(target));
    assert(period_key_of(date, period, end_text) == period_key_text(target));
}

/// Every key is the key of a date that exists and is not later than the
/// end date `end` (read as `"%Y-%m-%d"`).
pub open spec fn keys_not_after(keys: Seq<Seq<char>>, end: Seq<char>) -> bool {
    ymd_of(end) matches Some(e) && forall|i: int| 0 <= i < keys.len() ==> key_not_after(#[trigger] keys[i], e)
}

/// The key is the key of a date that exists and is not later than `e`.
pub open spec fn key_not_after(key: Seq<char>, e: Date) -> bool {
    exists|d: Date| d.valid() && d.ord() <= e.ord() && #[trigger] period_key_text(d) == key
}

/// Message for a date range whose walk leaves chrono's calendar.
pub open spec fn walk_error_text() -> Seq<char> {
    "date out of range while stepping through periods"@
}

/// The key of every chart bucket between `start_date` and `end_date`
/// (both `"%Y-%m-%d"`), in order. Monthly keys are month ends, with a
/// trailing partial month left out when an earlier month is present (a
/// single partial month is kept, clamped to the end date); quarterly keys
/// are the first days of the quarters that meet the range, weekly keys the
/// Mondays of the weeks that meet it, and any other period gives daily keys.
/// A date that cannot be read gives chrono's message; a walk that would
/// leave chrono's calendar gives an error.
pub fn generate_period_keys(start_date: &str, end_date: &str, period: &str) -> (res: Result<Vec<String>, String>)
    ensures
        match res {
            Ok(v) => period_keys_of(start_date@, end_date@, period@) == Some(v@.map_values(|s: String| s@)),
            Err(_) => period_keys_of(start_date@, end_date@, period@) is None,
        },
        res matches Ok(v) ==> keys_not_after(v@.map_values(|s: String| s@), end_date@),
        ymd_of(start_date@) is Some && ymd_of(end_date@) is Some ==> (res matches Err(e) ==> e@ == walk_error_text()),
        ymd_of(start_date@) is None ==> (res matches Err(e) && e@ == ymd_error_of(start_date@)),
        ymd_of(start_date@) is Some && ymd_of(end_date@) is None ==> (res matches Err(e) && e@ == ymd_error_of(end_date@)),
{
    let start = match parse_date(start_date) {
        Ok(d) => d,
        Err(e) => return Err(e),
    };
    let end = match parse_date(end_date) {
        Ok(d) => d,
        Err(e) => return Err(e),
    };
    let ghost p = period@;
    assert(period_keys_of(start_date@, end_date@, p) == keys_from(start, end, p, false));
    let mut keys: Vec<String> = Vec::new();
    let mut cur = start;
    let mut have = false;
    proof {
        assert(keys@.map_values(|s: String| s@) =~= Seq::<Seq<char>>::empty());
        assert(keys_from(cur, end, p, false) == match keys_from(cur, end, p, have) {
            Some(r) => Some(keys@.map_values(|s: String| s@) + r),
            None => None,
        }) by {
            if let Some(r) = keys_from(cur, end, p, false) {
                assert(Seq::<Seq<char>>::empty() + r =~= r);
            }
        }
    }
    while cur.le(&end)
        invariant
            cur.valid(),
            end.valid(),
            p == period@,
            period_keys_of(start_date@, end_date@, p) == keys_from(start, end, p, false),
            have == (keys@.len() > 0),
            ymd_of(end_date@) == Some(end),
            ymd_of(start_date@) == Some(start),
            keys_not_after(keys@.map_values(|s: String| s@), end_date@),
            keys_from(start, end, p, false) == match keys_from(cur, end, p, have) {
                Some(r) => Some(keys@.map_values(|s: String| s@) + r),
                None => None,
            },
        decreases if cur.ord() <= end.ord() { end.ord() - cur.ord() + 1 } else { 0 },
    {
        let ghost done = keys@.map_values(|s: String| s@);
        let ghost old_cur = cur;
        let ghost old_have = have;
        match keys_step_exec(&cur, &end, period, have) {
            None => {
                proof {
                    assert(keys_from(cur, end, p, have) is None);
                    reveal_strlit("date out of range while stepping through periods");
                }
                return Err(String::from_str("date out of range while stepping through periods"));
            },
            Some((k, nxt)) => {
                let ghost head = match k {
                    Some(kd) => seq![period_key_text(kd)],
                    None => Seq::<Seq<char>>::empty(),
                };
                match k {
                    Some(kd) => {
                        let t = format_period_key(&kd);
                        keys.push(t);
                        have = true;
                    },
                    None => {},
                }
                proof {
                    assert(keys@.map_values(|s: String| s@) =~= done + head);
                    assert forall|i: int| 0 <= i < keys@.len() implies key_not_after(#[trigger] keys@[i]@, end) by {
                        if i < done.len() {
                            assert(done[i] == keys@[i]@);
                        } else {
                            let kd = k->0;
                            assert(period_key_text(kd) == keys@[i]@);
                        }
                    }
                    if nxt.ord() > end.ord() {
                        assert(keys_from(nxt, end, p, have) == Some(Seq::<Seq<char>>::empty()));
                        assert(keys_from(old_cur, end, p, old_have) == Some(head));
                        assert(done + head =~= done + head + Seq::<Seq<char>>::empty());
                    } else {
                        match keys_from(nxt, end, p, have) {
                            Some(r) => {
                                assert(done + (head + r) =~= (done + head) + r);
                            },
                            None => {},
                        }
                    }
                }
                cur = nxt;
            },
        }
    }
    proof {
        assert(keys_from(cur, end, p, have) == Some(Seq::<Seq<char>>::empty()));
        assert(keys@.map_values(|s: String| s@) + Seq::<Seq<char>>::empty() =~= keys@.map_values(|s: String| s@));
    }
    Ok(keys)
}
} // verus!
