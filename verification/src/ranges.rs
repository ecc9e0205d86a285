//! Month arithmetic over date ranges: month buckets, month-long chunks,
//! month shifting and the calendar span of a month.

use vstd::prelude::*;
use crate::calendar::{
    Date, ymd, last_of_month, first_of_next_month, is_valid_ymd, month_days, is_valid_date,
    days_in_month, ymd_of, ymd_error_of, ymd_text, std_month_label, parse_date, format_ymd,
    format_month_label, MAX_YEAR, MIN_YEAR,
};
use crate::numfmt::{digits, std_padded, push_digits, push_std_padded};
use crate::text::{push_char, first_segment, first_segment_of};

verus! {

/// The first day of the month after `d`'s month.
pub fn next_month_first_day(d: &Date) -> (res: Date)
    requires
        d.valid(),
        !(d.year == MAX_YEAR && d.month == 12),
    ensures
        res == first_of_next_month(d.year as int, d.month as int),
        res.valid(),
        res.ord() > d.ord(),
{
    if d.month == 12 {
        Date { year: d.year + 1, month: 1, day: 1 }
    } else {
        Date { year: d.year, month: d.month + 1, day: 1 }
    }
}

/// `"YYYY-MM"` labels of the months from `cur`'s month to `end`'s.
pub open spec fn month_labels_from(cur: Date, end: Date) -> Seq<Seq<char>>
    decreases end.ord() - cur.ord(),
{
    if cur.ord() > end.ord() {
        Seq::empty()
    } else {
        let nxt = first_of_next_month(cur.year as int, cur.month as int);
        let head = seq![std_month_label(cur.year as int, cur.month as int)];
        if nxt.ord() > end.ord() || nxt.ord() <= cur.ord() {
            head
        } else {
            head + month_labels_from(nxt, end)
        }
    }
}

/// `"YYYY-MM"` labels for every calendar month from `start` to `end`
/// (inclusive), in order; empty when `start` is after `end`.
pub fn month_bucket_labels(start: Date, end: Date) -> (res: Vec<String>)
    requires
        start.valid(),
        end.valid(),
        !(end.year == MAX_YEAR && end.month == 12),
    ensures
        res@.map_values(|s: String| s@) == month_labels_from(start, end),
{
    let mut labels: Vec<String> = Vec::new();
    let mut cursor = start;
    proof {
        assert(labels@.map_values(|s: String| s@) + month_labels_from(cursor, end)
            =~= month_labels_from(start, end));
    }
    while cursor.le(&end)
        invariant
            cursor.valid(),
            end.valid(),
            !(end.year == MAX_YEAR && end.month == 12),
            labels@.map_values(|s: String| s@) + month_labels_from(cursor, end)
                == month_labels_from(start, end),
        decreases if cursor.ord() <= end.ord() { end.ord() - cursor.ord() + 1 } else { 0 },
    {
        let ghost done = labels@.map_values(|s: String| s@);
        let ghost old_cursor = cursor;
        let label = format_month_label(cursor.year, cursor.month);
        labels.push(label);
        cursor = next_month_first_day(&cursor);
        proof {
            let head = seq![std_month_label(old_cursor.year as int, old_cursor.month as int)];
            assert(labels@.map_values(|s: String| s@) =~= done + head);
            if cursor.ord() > end.ord() {
                assert(month_labels_from(cursor, end) =~= Seq::<Seq<char>>::empty());
                assert(done + head + Seq::<Seq<char>>::empty() =~= done + head);
            } else {
                assert(done + head + month_labels_from(cursor, end) =~= done + (head + month_labels_from(cursor, end)));
            }
        }
    }
    proof {
        assert(month_labels_from(cursor, end) =~= Seq::<Seq<char>>::empty());
        assert(labels@.map_values(|s: String| s@) + Seq::<Seq<char>>::empty() =~= labels@.map_values(|s: String| s@));
    }
    labels
}

/// Month-long pieces of the range from `cur` to `end`, as `"%Y-%m-%d"`
/// pairs; `None` where the range reaches past chrono's last month.
pub open spec fn chunks_from(cur: Date, end: Date) -> Option<Seq<(Seq<char>, Seq<char>)>>
    decreases end.ord() - cur.ord(),
{
    if cur.ord() > end.ord() {
        Some(Seq::empty())
    } else if cur.year == MAX_YEAR && cur.month == 12 {
        None
    } else {
        let next_month = first_of_next_month(cur.year as int, cur.month as int);
        let chunk_end = last_of_month(cur.year as int, cur.month as int);
        let actual_end = if chunk_end.ord() > end.ord() { end } else { chunk_end };
        let head = seq![(ymd_text(cur), ymd_text(actual_end))];
        if next_month.ord() > end.ord() || next_month.ord() <= cur.ord() {
            Some(head)
        } else {
            match chunks_from(next_month, end) {
                Some(r) => Some(head + r),
                None => None,
            }
        }
    }
}

/// The month-long pieces of the range between two `"%Y-%m-%d"` dates.
pub open spec fn date_chunks_of(start: Seq<char>, end: Seq<char>) -> Option<Seq<(Seq<char>, Seq<char>)>> {
    match (ymd_of(start), ymd_of(end)) {
        (Some(s), Some(e)) => chunks_from(s, e),
        _ => None,
    }
}

/// Message for a range that reaches past chrono's last month.
pub open spec fn split_error_text() -> Seq<char> {
    "date out of range while splitting into months"@
}

/// The view of a list of date pairs.
pub open spec fn pairs_view(v: Seq<(String, String)>) -> Seq<(Seq<char>, Seq<char>)> {
    v.map_values(|p: (String, String)| (p.0@, p.1@))
}

/// Splits the range between two `"%Y-%m-%d"` dates into calendar-month
/// pieces `(first day, last day)`, the first starting at `start` and the
/// last ending at `end`. Empty when `start` is after `end`. A date that
/// cannot be read gives chrono's message; a range that reaches chrono's last
/// month gives an error.
pub fn chunk_date_range(start: &str, end: &str) -> (res: Result<Vec<(String, String)>, String>)
    ensures
        match res {
            Ok(v) => date_chunks_of(start@, end@) == Some(pairs_view(v@)),
            Err(_) => date_chunks_of(start@, end@) is None,
        },
        ymd_of(start@) is Some && ymd_of(end@) is Some ==> (res matches Err(e) ==> e@ == split_error_text()),
        ymd_of(start@) is None ==> (res matches Err(e) && e@ == ymd_error_of(start@)),
        ymd_of(start@) is Some && ymd_of(end@) is None ==> (res matches Err(e) && e@ == ymd_error_of(end@)),
{
    let s = match parse_date(start) {
        Ok(d) => d,
        Err(e) => return Err(e),
    };
    let e = match parse_date(end) {
        Ok(d) => d,
        Err(msg) => return Err(msg),
    };
    assert(date_chunks_of(start@, end@) == chunks_from(s, e));
    let mut chunks: Vec<(String, String)> = Vec::new();
    let mut cur = s;
    proof {
        assert(pairs_view(chunks@) =~= Seq::<(Seq<char>, Seq<char>)>::empty());
        if let Some(r) = chunks_from(cur, e) {
            assert(Seq::<(Seq<char>, Seq<char>)>::empty() + r =~= r);
        }
    }
    while cur.le(&e)
        invariant
            cur.valid(),
            e.valid(),
            ymd_of(start@) == Some(s),
            ymd_of(end@) == Some(e),
            date_chunks_of(start@, end@) == chunks_from(s, e),
            chunks_from(s, e) == match chunks_from(cur, e) {
                Some(r) => Some(pairs_view(chunks@) + r),
                None => None,
            },
        decreases if cur.ord() <= e.ord() { e.ord() - cur.ord() + 1 } else { 0 },
    {
        if cur.year == MAX_YEAR && cur.month == 12 {
            proof { reveal_strlit("date out of range while splitting into months"); }
            return Err(String::from_str("date out of range while splitting into months"));
        }
        let ghost done = pairs_view(chunks@);
        let ghost old_cur = cur;
        let next_month = next_month_first_day(&cur);
        let chunk_end = Date { year: cur.year, month: cur.month, day: days_in_month(cur.year, cur.month) };
        let actual_end = if !chunk_end.le(&e) { e } else { chunk_end };
        let a = format_ymd(&cur);
        let b = format_ymd(&actual_end);
        chunks.push((a, b));
        let ghost head = seq![(ymd_text(old_cur), ymd_text(actual_end))];
        proof {
            assert(pairs_view(chunks@) =~= done + head);
        }
        if !next_month.le(&e) {
            proof {
                assert(chunks_from(old_cur, e) == Some(head));
                assert(done + head =~= done + head + Seq::<(Seq<char>, Seq<char>)>::empty());
            }
            return Ok(chunks);
        }
        cur = next_month;
        proof {
            if let Some(r) = chunks_from(cur, e) {
                assert(done + (head + r) =~= (done + head) + r);
            }
        }
    }
    proof {
        assert(chunks_from(cur, e) == Some(Seq::<(Seq<char>, Seq<char>)>::empty()));
        assert(pairs_view(chunks@) + Seq::<(Seq<char>, Seq<char>)>::empty() =~= pairs_view(chunks@));
    }
    Ok(chunks)
}


/// The month-long pieces of the range from `cur` to `end` as pairs of
/// dates; `None` where the range reaches past chrono's last month.
pub open spec fn chunk_spans(cur: Date, end: Date) -> Option<Seq<(Date, Date)>>
    decreases end.ord() - cur.ord(),
{
    if cur.ord() > end.ord() {
        Some(Seq::empty())
    } else if cur.year == MAX_YEAR && cur.month == 12 {
        None
    } else {
        let next_month = first_of_next_month(cur.year as int, cur.month as int);
        let chunk_end = last_of_month(cur.year as int, cur.month as int);
        let actual_end = if chunk_end.ord() > end.ord() { end } else { chunk_end };
        let head = seq![(cur, actual_end)];
        if next_month.ord() > end.ord() || next_month.ord() <= cur.ord() {
            Some(head)
        } else {
            match chunk_spans(next_month, end) {
                Some(r) => Some(head + r),
                None => None,
            }
        }
    }
}

/// Each pair of dates written as `"%Y-%m-%d"`.
pub open spec fn spans_text(s: Seq<(Date, Date)>) -> Seq<(Seq<char>, Seq<char>)> {
    s.map_values(|p: (Date, Date)| (ymd_text(p.0), ymd_text(p.1)))
}

/// The pieces cover the days from `cur` to `end` exactly once, in order:
/// the first starts at `cur`, the last ends at `end`, each lies within one
/// calendar month, and each starts on the day after the one before ends.
pub open spec fn tiles(s: Seq<(Date, Date)>, cur: Date, end: Date) -> bool {
    &&& s.len() >= 1
    &&& s[0].0 == cur
    &&& s[s.len() - 1].1 == end
    &&& forall|i: int| 0 <= i < s.len() ==> {
        let p = #[trigger] s[i];
        &&& p.0.valid() && p.1.valid()
        &&& p.0.ord() <= p.1.ord()
        &&& p.0.year == p.1.year && p.0.month == p.1.month
    }
    &&& forall|i: int, j: int| 0 <= i && j == i + 1 && j < s.len() ==> #[trigger] s[j].0 == (#[trigger] s[i]).1.next()
}

/// The text pieces are the date pieces, written out.
pub proof fn lemma_chunks_text(cur: Date, end: Date)
    ensures
        chunks_from(cur, end) == match chunk_spans(cur, end) {
            Some(s) => Some(spans_text(s)),
            None => None,
        },
    decreases end.ord() - cur.ord(),
{
    if cur.ord() > end.ord() {
        assert(spans_text(Seq::<(Date, Date)>::empty()) =~= Seq::<(Seq<char>, Seq<char>)>::empty());
    } else if cur.year == MAX_YEAR && cur.month == 12 {
    } else {
        let next_month = first_of_next_month(cur.year as int, cur.month as int);
        let chunk_end = last_of_month(cur.year as int, cur.month as int);
        let actual_end = if chunk_end.ord() > end.ord() { end } else { chunk_end };
        let head = seq![(cur, actual_end)];
        assert(spans_text(head) =~= seq![(ymd_text(cur), ymd_text(actual_end))]);
        if next_month.ord() > end.ord() || next_month.ord() <= cur.ord() {
        } else {
            lemma_chunks_text(next_month, end);
            if let Some(r) = chunk_spans(next_month, end) {
                assert(spans_text(head + r) =~= spans_text(head) + spans_text(r));
            }
        }
    }
}

/// Law: splitting a range into month-long pieces leaves no day out and
/// counts none twice. Between two valid dates, with `cur` not after `end`,
/// the pieces start at `cur`, end at `end`, each stays within one month,
/// and each starts the day after the previous one ends.
pub proof fn lemma_chunks_tile(cur: Date, end: Date)
    requires
        cur.valid(),
        end.valid(),
        cur.ord() <= end.ord(),
        chunk_spans(cur, end) is Some,
    ensures
        tiles(chunk_spans(cur, end).unwrap(), cur, end),
    decreases end.ord() - cur.ord(),
{
    broadcast use crate::calendar::lemma_month_days_range;
    let next_month = first_of_next_month(cur.year as int, cur.month as int);
    let chunk_end = last_of_month(cur.year as int, cur.month as int);
    let actual_end = if chunk_end.ord() > end.ord() { end } else { chunk_end };
    let head = seq![(cur, actual_end)];
    assert(next_month.ord() > cur.ord());
    assert(chunk_end.valid());
    assert(chunk_end.next() == next_month);
    if next_month.ord() > end.ord() {
        // `end` lies in `cur`'s month.
        assert(end.year == cur.year && end.month == cur.month);
        assert(end.ord() <= chunk_end.ord());
        if chunk_end.ord() == end.ord() {
            assert(chunk_end == end);
        }
        assert(actual_end == end);
        let s = chunk_spans(cur, end).unwrap();
        assert(s =~= head);
    } else {
        assert(chunk_end.ord() < end.ord());
        assert(actual_end == chunk_end);
        assert(next_month.valid());
        lemma_chunks_tile(next_month, end);
        let r = chunk_spans(next_month, end).unwrap();
        let s = head + r;
        assert(chunk_spans(cur, end).unwrap() == s);
        assert(s[0] == (cur, chunk_end));
        assert(s[s.len() - 1] == r[r.len() - 1]);
        assert forall|i: int| 0 <= i < s.len() implies {
            let p = #[trigger] s[i];
            &&& p.0.valid() && p.1.valid()
            &&& p.0.ord() <= p.1.ord()
            &&& p.0.year == p.1.year && p.0.month == p.1.month
        } by {
            if i > 0 {
                assert(s[i] == r[i - 1]);
            }
        }
        assert forall|i: int, j: int| 0 <= i && j == i + 1 && j < s.len() implies #[trigger] s[j].0 == (#[trigger] s[i]).1.next() by {
            if i == 0 {
                assert(s[j] == r[0]);
            } else {
                assert(s[i] == r[i - 1]);
                assert(s[j] == r[j - 1]);
            }
        }
    }
}

/// Text of the error for a month outside 1-12.
pub open spec fn invalid_month_text(month: int) -> Seq<char> {
    "Invalid month: "@ + digits(month as nat) + " (expected 1-12)"@
}

/// Text of the error for a first of the month that chrono cannot represent.
pub open spec fn invalid_date_text(year: int, month: int) -> Seq<char> {
    "Invalid date: "@ + std_padded(year, 0) + "-"@ + std_padded(month, 2) + "-01"@
}

/// First and last day of a calendar month, and its number of days; an error
/// for a month outside 1-12 or a year chrono cannot represent.
pub fn month_range(year: i32, month: u32) -> (res: Result<(Date, Date, u32), String>)
    requires
        !(year == MAX_YEAR && month == 12),
    ensures
        !(1 <= month <= 12) ==> (res matches Err(e) && e@ == invalid_month_text(month as int)),
        1 <= month <= 12 && !(MIN_YEAR <= year <= MAX_YEAR) ==> (res matches Err(e)
            && e@ == invalid_date_text(year as int, month as int)),
        1 <= month <= 12 && MIN_YEAR <= year <= MAX_YEAR ==> res == Ok::<(Date, Date, u32), String>((
            ymd(year as int, month as int, 1),
            last_of_month(year as int, month as int),
            month_days(year as int, month as int) as u32,
        )),
{
    if !(1 <= month && month <= 12) {
        let mut msg = String::from_str("Invalid month: ");
        push_digits(&mut msg, month as u64);
        msg.append(" (expected 1-12)");
        proof {
            reveal_strlit("Invalid month: ");
            reveal_strlit(" (expected 1-12)");
        }
        return Err(msg);
    }
    let start = match Date::from_ymd(year, month, 1) {
        Some(d) => d,
        None => {
            let mut msg = String::from_str("Invalid date: ");
            push_std_padded(&mut msg, year as i64, 0);
            msg.append("-");
            push_std_padded(&mut msg, month as i64, 2);
            msg.append("-01");
            return Err(msg);
        },
    };
    let days = days_in_month(year, month);
    Ok((start, Date { year, month, day: days }, days))
}

/// The number of months from January of year 0 to `(year, month)`.
pub open spec fn month_count(year: int, month: int) -> int {
    year * 12 + month - 1
}

/// `(year, month)` moved by `delta` calendar months: the month whose count
/// is `month_count(year, month) + delta`.
pub open spec fn shifted(year: int, month: int, delta: int) -> (int, int) {
    let t = month_count(year, month) + delta;
    (t / 12, t % 12 + 1)
}

/// Law: shifting a month by `delta` and then by `-delta` gives it back.
pub proof fn lemma_shift_round_trip(year: int, month: int, delta: int)
    requires
        1 <= month <= 12,
    ensures
        shifted(shifted(year, month, delta).0, shifted(year, month, delta).1, -delta) == (year, month),
{
    let t = month_count(year, month) + delta;
    let s = shifted(year, month, delta);
    assert(s.0 * 12 + s.1 - 1 == t);
    let back = month_count(s.0, s.1) - delta;
    assert(back == year * 12 + month - 1);
    assert(back / 12 == year) by {
        assert(year * 12 <= back < year * 12 + 12);
    }
    assert(back % 12 == month - 1);
}

/// Shifts a (year, month) pair by `delta` months (negative = backwards);
/// months are 1-based in both input and output, and the month count
/// `year * 12 + month - 1` moves by exactly `delta`.
pub fn shift_months(year: i32, month: u32, delta: i64) -> (res: (i32, u32))
    requires
        i32::MIN <= shifted(year as int, month as int, delta as int).0 <= i32::MAX,
    ensures
        1 <= res.1 <= 12,
        res.0 * 12 + res.1 - 1 == year * 12 + month - 1 + delta,
        (res.0 as int, res.1 as int) == shifted(year as int, month as int, delta as int),
{
    let total: i128 = (year as i128) * 12 + (month as i128) - 1 + (delta as i128);
    let ghost t = total as int;
    let (q, r): (i128, i128) = if total >= 0 {
        let u = total as u128;
        ((u / 12) as i128, (u % 12) as i128)
    } else {
        let u = (-total) as u128;
        let qq = (u + 11) / 12;
        let q = -(qq as i128);
        (q, total - 12 * q)
    };
    assert(0 <= r < 12 && q * 12 + r == t) by (nonlinear_arith)
        requires
            t == total as int,
            total >= 0 ==> (q == (total as u128) / 12 && r == (total as u128) % 12),
            total < 0 ==> (q == -(((-total) as u128 + 11) / 12) && r == total - 12 * q),
    ;
    assert(q == t / 12 && r == t % 12) by {
        assert(q * 12 <= t < q * 12 + 12);
    }
    ((q as i32), (r + 1) as u32)
}

/// `(current start, today, previous start, previous end)`: the first day of
/// `today`'s month, `today`, and the first and last days of the month before.
pub open spec fn saved_ranges(today: Date) -> (Date, Date, Date, Date) {
    let (py, pm) = if today.month == 1 { (today.year - 1, 12int) } else { (today.year as int, today.month - 1) };
    (ymd(today.year as int, today.month as int, 1), today, ymd(py, pm, 1), last_of_month(py, pm))
}

/// Law: the saved-this-month ranges are two whole stretches of days, the
/// previous month ending the day before the current month starts, each
/// within one calendar month, and the current one ending today.
pub proof fn lemma_saved_ranges_adjacent(today: Date)
    requires
        today.valid(),
        !(today.year == MIN_YEAR && today.month == 1),
    ensures ({
        let (cur_start, cur_end, prev_start, prev_end) = saved_ranges(today);
        &&& prev_end.next() == cur_start
        &&& prev_start.valid() && prev_end.valid() && cur_start.valid()
        &&& prev_start.ord() <= prev_end.ord() && cur_start.ord() <= cur_end.ord()
        &&& prev_start.year == prev_end.year && prev_start.month == prev_end.month
        &&& cur_start.year == cur_end.year && cur_start.month == cur_end.month
    }),
{
    broadcast use crate::calendar::lemma_month_days_range;
}

/// The current partial month (its first day to `today`) and the whole
/// previous month: `(current start, current end, previous start, previous end)`.
pub fn saved_this_month_ranges(today: Date) -> (res: (Date, Date, Date, Date))
    requires
        today.valid(),
        !(today.year == MIN_YEAR && today.month == 1),
    ensures
        res == saved_ranges(today),
{
    let cur_start = Date { year: today.year, month: today.month, day: 1 };
    let (py, pm) = if today.month == 1 { (today.year - 1, 12u32) } else { (today.year, today.month - 1) };
    let prev_start = Date { year: py, month: pm, day: 1 };
    let prev_end = Date { year: py, month: pm, day: days_in_month(py, pm) };
    (cur_start, today, prev_start, prev_end)
}

/// The date at the start of a date key such as `"2026-01-31T00:00:00+00:00"`
/// or `"2026-01-31"`: the text before the first `T`, read as `"%Y-%m-%d"`.
pub open spec fn date_key_date(key: Seq<char>) -> Option<Date> {
    ymd_of(first_segment(key, 'T'))
}

/// The date at the start of a date key.
pub fn date_of_key(key: &str) -> (res: Option<Date>)
    ensures
        res == date_key_date(key@),
        res matches Some(d) ==> d.valid(),
{
    let part = first_segment_of(key, 'T');
    match parse_date(part.as_str()) {
        Ok(d) => Some(d),
        Err(_) => None,
    }
}

/// Month index 0-11 (0 = January) of a date key.
pub fn month_index_from_date_key(date_key: &str) -> (res: Option<u32>)
    ensures
        res == match date_key_date(date_key@) {
            Some(d) => Some((d.month - 1) as u32),
            None => None,
        },
{
    match date_of_key(date_key) {
        Some(d) => Some(d.month - 1),
        None => None,
    }
}

/// Month 1-12 of the date a budget period starts on.
pub fn period_start_month(period_start: &str) -> (res: Option<u32>)
    ensures
        res == match date_key_date(period_start@) {
            Some(d) => Some(d.month),
            None => None,
        },
{
    match date_of_key(period_start) {
        Some(d) => Some(d.month),
        None => None,
    }
}

/// Year of the date a budget period starts on.
pub fn period_start_year(period_start: &str) -> (res: Option<i32>)
    ensures
        res == match date_key_date(period_start@) {
            Some(d) => Some(d.year),
            None => None,
        },
{
    match date_of_key(period_start) {
        Some(d) => Some(d.year),
        None => None,
    }
}

/// Month `month` of `year` lies after the month of `today`.
pub fn month_is_future(year: i32, month: u32, today: &Date) -> (res: bool)
    ensures
        res == (year > today.year || (year == today.year && month > today.month)),
{
    year > today.year || (year == today.year && month > today.month)
}

/// The error for a reimbursement range with an unreadable date.
pub open spec fn invalid_range_date_text(which: Seq<char>, text: Seq<char>) -> Seq<char> {
    "Invalid "@ + which + " date: "@ + text
}

/// The error for a reimbursement range that ends before it starts.
pub open spec fn reversed_range_text(start: Seq<char>, end: Seq<char>) -> Seq<char> {
    "Invalid range: end "@ + end + " is before start "@ + start
}

/// Reads the two `"%Y-%m-%d"` ends of a reimbursement period: an error
/// naming the end that cannot be read, or a range that ends before it
/// starts.
pub fn reimbursement_range(start: &str, end: &str) -> (res: Result<(Date, Date), String>)
    ensures
        ymd_of(start@) is None ==> (res matches Err(e) && e@ == invalid_range_date_text("start"@, start@)),
        ymd_of(start@) is Some && ymd_of(end@) is None ==> (res matches Err(e) && e@ == invalid_range_date_text("end"@, end@)),
        match (ymd_of(start@), ymd_of(end@)) {
            (Some(s), Some(e)) => if e.ord() < s.ord() {
                res matches Err(m) && m@ == reversed_range_text(start@, end@)
            } else {
                res == Ok::<(Date, Date), String>((s, e))
            },
            _ => true,
        },
{
    let s = match parse_date(start) {
        Ok(d) => d,
        Err(_) => {
            let mut m = String::from_str("Invalid start date: ");
            m.append(start);
            proof {
                reveal_strlit("Invalid start date: ");
                reveal_strlit("Invalid ");
                reveal_strlit("start");
                reveal_strlit(" date: ");
                assert(m@ =~= invalid_range_date_text("start"@, start@));
            }
            return Err(m);
        },
    };
    let e = match parse_date(end) {
        Ok(d) => d,
        Err(_) => {
            let mut m = String::from_str("Invalid end date: ");
            m.append(end);
            proof {
                reveal_strlit("Invalid end date: ");
                reveal_strlit("Invalid ");
                reveal_strlit("end");
                reveal_strlit(" date: ");
                assert(m@ =~= invalid_range_date_text("end"@, end@));
            }
            return Err(m);
        },
    };
    if !s.le(&e) {
        let mut m = String::from_str("Invalid range: end ");
        m.append(end);
        m.append(" is before start ");
        m.append(start);
        return Err(m);
    }
    Ok((s, e))
}
} // verus!
