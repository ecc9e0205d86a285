//! The calendar and account choices of the credit-card paydown analysis:
//! the months it reports, the day its balance history starts, which of the
//! requested accounts are cards, and the month a balance point belongs to.

use vstd::prelude::*;
use crate::calendar::{Date, MIN_YEAR, MAX_YEAR, ymd, ym_text, format_ym, first_of_next_month, month_days, days_in_month};
use crate::ranges::next_month_first_day;
use crate::flows::{month_of_date, journal_month_key};
use crate::order::strs;
use crate::text::{first_segment, first_segment_of};

verus! {

/// The months (`"%Y-%m"`) from `cur`'s month to `end`'s, in order, stepping
/// from `cur` to the first day of each following month.
pub open spec fn months_from(cur: Date, end: Date) -> Seq<Seq<char>>
    decreases end.ord() - cur.ord(),
{
    if cur.ord() > end.ord() {
        Seq::empty()
    } else {
        let nxt = first_of_next_month(cur.year as int, cur.month as int);
        if nxt.ord() > end.ord() || nxt.ord() <= cur.ord() {
            seq![ym_text(cur)]
        } else {
            seq![ym_text(cur)] + months_from(nxt, end)
        }
    }
}

/// The number of months from January of year 0 to the date's month.
pub open spec fn month_index(d: Date) -> int {
    d.year * 12 + d.month - 1
}

/// The first day of the month with index `t`.
pub open spec fn month_start(t: int) -> Date {
    ymd(t / 12, t % 12 + 1, 1)
}

/// Law: the paydown analysis reports every calendar month that meets the
/// range, once each and in ascending order: from `start`'s month to `end`'s,
/// entry `i` being the month `i` months after `start`'s.
pub proof fn lemma_paydown_months(start: Date, end: Date)
    requires
        start.valid(),
        end.valid(),
        start.ord() <= end.ord(),
        !(end.year == MAX_YEAR && end.month == 12),
    ensures
        months_from(start, end).len() == month_index(end) - month_index(start) + 1,
        forall|i: int| 0 <= i < months_from(start, end).len() ==>
            #[trigger] months_from(start, end)[i] == ym_text(month_start(month_index(start) + i)),
    decreases end.ord() - start.ord(),
{
    let nxt = first_of_next_month(start.year as int, start.month as int);
    let t = month_index(start);
    assert(month_start(t).year == start.year && month_start(t).month == start.month) by {
        assert(t / 12 == start.year as int) by {
            assert(start.year * 12 <= t < start.year * 12 + 12);
        }
    }
    assert(ym_text(month_start(t)) == ym_text(start));
    if nxt.ord() > end.ord() {
        assert(end.year == start.year && end.month == start.month);
        assert(months_from(start, end) =~= seq![ym_text(start)]);
    } else {
        assert(nxt.valid());
        assert(month_index(nxt) == t + 1);
        lemma_paydown_months(nxt, end);
        let r = months_from(nxt, end);
        let all = months_from(start, end);
        assert(all == seq![ym_text(start)] + r);
        assert forall|i: int| 0 <= i < all.len() implies #[trigger] all[i] == ym_text(month_start(t + i)) by {
            if i > 0 {
                assert(all[i] == r[i - 1]);
                assert(t + 1 + (i - 1) == t + i);
            }
        }
    }
}

/// Every month from `start`'s to `end`'s as `"%Y-%m"`, in order: each
/// calendar month that meets the range, once.
pub fn card_paydown_months(start: Date, end: Date) -> (res: Vec<String>)
    requires
        start.valid(),
        end.valid(),
        !(end.year == MAX_YEAR && end.month == 12),
    ensures
        strs(res@) == months_from(start, end),
{
    let mut out: Vec<String> = Vec::new();
    let mut cur = start;
    proof {
        assert(strs(out@) + months_from(cur, end) =~= months_from(start, end));
    }
    while cur.le(&end)
        invariant
            cur.valid(),
            end.valid(),
            !(end.year == MAX_YEAR && end.month == 12),
            strs(out@) + months_from(cur, end) == months_from(start, end),
        decreases if cur.ord() <= end.ord() { end.ord() - cur.ord() + 1 } else { 0 },
    {
        let ghost before = strs(out@);
        let ghost old_cur = cur;
        out.push(format_ym(&cur));
        cur = next_month_first_day(&cur);
        proof {
            let head = seq![ym_text(old_cur)];
            assert(strs(out@) =~= before + head);
            if cur.ord() > end.ord() {
                assert(months_from(cur, end) =~= Seq::<Seq<char>>::empty());
                assert(before + head + Seq::<Seq<char>>::empty() =~= before + head);
            } else {
                assert(before + head + months_from(cur, end) =~= before + (head + months_from(cur, end)));
            }
        }
    }
    proof {
        assert(months_from(cur, end) =~= Seq::<Seq<char>>::empty());
        assert(strs(out@) + Seq::<Seq<char>>::empty() =~= strs(out@));
    }
    out
}

/// The day the card balance history starts: the same day of the month
/// before `d`, or that month's last day when it is shorter (so the first
/// month of the range has a starting balance).
pub open spec fn balance_start_of(d: Date) -> Date {
    let (py, pm) = if d.month == 1 { (d.year - 1, 12int) } else { (d.year as int, d.month - 1) };
    let md = month_days(py, pm);
    ymd(py, pm, if d.day > md { md } else { d.day as int })
}

/// The day the card balance history starts: the same day one month before
/// `start`, clamped to that month's last day (March 31 gives February 28 or
/// 29).
pub fn balance_start(start: &Date) -> (res: Date)
    requires
        start.valid(),
        !(start.year == MIN_YEAR && start.month == 1),
    ensures
        res == balance_start_of(*start),
        res.valid(),
{
    broadcast use crate::calendar::lemma_month_days_range;
    let (py, pm) = if start.month == 1 { (start.year - 1, 12u32) } else { (start.year, start.month - 1) };
    let md = days_in_month(py, pm);
    Date { year: py, month: pm, day: if start.day > md { md } else { start.day } }
}

/// The ids whose signal is set, in order.
pub open spec fn signalled(ids: Seq<Seq<char>>, signals: Seq<bool>) -> Seq<Seq<char>>
    decreases ids.len(),
{
    if ids.len() == 0 || signals.len() == 0 {
        Seq::empty()
    } else {
        let rest = signalled(ids.drop_last(), signals.drop_last());
        if signals.last() { rest.push(ids.last()) } else { rest }
    }
}

/// The card accounts among the requested ones: those with a card signal
/// (a liability account, or a negative current or latest balance); every
/// requested account when none has one.
pub open spec fn card_accounts(ids: Seq<Seq<char>>, signals: Seq<bool>) -> Seq<Seq<char>> {
    if signalled(ids, signals).len() == 0 { ids } else { signalled(ids, signals) }
}

/// Chooses the card accounts among the requested ones; `signals[i]` tells
/// whether account `ids[i]` shows a card signal.
pub fn select_card_accounts(ids: &Vec<String>, signals: &Vec<bool>) -> (res: Vec<String>)
    requires
        ids@.len() == signals@.len(),
    ensures
        strs(res@) == card_accounts(strs(ids@), signals@),
{
    let mut out: Vec<String> = Vec::new();
    let mut i: usize = 0;
    proof {
        assert(strs(ids@).take(0) =~= Seq::<Seq<char>>::empty());
        assert(signals@.take(0) =~= Seq::<bool>::empty());
    }
    while i < ids.len()
        invariant
            ids@.len() == signals@.len(),
            i <= ids@.len(),
            strs(out@) == signalled(strs(ids@).take(i as int), signals@.take(i as int)),
        decreases ids@.len() - i,
    {
        proof {
            assert(strs(ids@).take(i + 1).drop_last() =~= strs(ids@).take(i as int));
            assert(signals@.take(i + 1).drop_last() =~= signals@.take(i as int));
        }
        if signals[i] {
            let ghost before = strs(out@);
            out.push(ids[i].clone());
            proof { assert(strs(out@) =~= before.push(strs(ids@)[i as int])); }
        }
        i = i + 1;
    }
    proof {
        assert(strs(ids@).take(ids@.len() as int) =~= strs(ids@));
        assert(signals@.take(ids@.len() as int) =~= signals@);
    }
    if out.len() == 0 {
        let mut all: Vec<String> = Vec::new();
        let mut k: usize = 0;
        while k < ids.len()
            invariant
                k <= ids@.len(),
                strs(all@) == strs(ids@).take(k as int),
            decreases ids@.len() - k,
        {
            let ghost before = strs(all@);
            all.push(ids[k].clone());
            proof { assert(strs(all@) =~= before.push(strs(ids@)[k as int])); }
            k = k + 1;
        }
        proof { assert(strs(ids@).take(ids@.len() as int) =~= strs(ids@)); }
        all
    } else {
        out
    }
}

/// The month (`"YYYY-MM"`) a balance point belongs to: the first seven
/// characters of its date, the date being the text before any `T`.
pub open spec fn balance_month(date: Seq<char>) -> Option<Seq<char>> {
    month_of_date(first_segment(date, 'T'))
}

/// The month a balance point belongs to; `None` for a date too short to
/// have one.
pub fn balance_month_key(date: &str) -> (res: Option<String>)
    ensures
        (match res { Some(s) => Some(s@), None => None }) == balance_month(date@),
{
    let d = first_segment_of(date, 'T');
    journal_month_key(d.as_str())
}

} // verus!
