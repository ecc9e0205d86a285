//! Plain records the dashboard exchanges: query parameters, dashboards,
//! budget-limit envelopes and widget defaults.

use vstd::prelude::*;
use crate::exclusions::{Exclusions, contains_str};
use crate::order::strs;
use crate::text::{first_segment, first_segment_of, str_eq, trim, trimmed};

verus! {

/// Query of GET /api/accounts: the account type to list.
#[derive(Debug)]
pub struct AccountQuery {
    pub account_type: Option<String>,
}

/// Query of the subcategory spend endpoint.
#[derive(Debug)]
pub struct CategorySpendQuery {
    pub parent_categories: Vec<String>,
    pub start: Option<String>,
    pub end: Option<String>,
    pub period: Option<String>,
    pub account_ids: Vec<String>,
}

/// A dashboard: a named page of widgets with an optional date range and
/// exclusions applied to every widget on it.
#[derive(Debug)]
pub struct Dashboard {
    pub id: String,
    pub name: String,
    pub start_date: Option<String>,
    pub end_date: Option<String>,
    pub exclude_categories: Vec<String>,
    pub exclude_budgets: Vec<String>,
    pub created_at: Option<String>,
    pub updated_at: Option<String>,
}

impl Dashboard {
    /// The exclusions the dashboard applies to its widgets.
    pub fn exclusions(&self) -> (res: Exclusions)
        ensures
            res.categories@ == self.exclude_categories@,
            res.budgets@ == self.exclude_budgets@,
    {
        Exclusions::new(self.exclude_categories.clone(), self.exclude_budgets.clone())
    }
}

/// Currency reported for a month (taken from the transactions themselves).
#[derive(Debug)]
pub struct MonthCurrency {
    pub code: Option<String>,
    pub symbol: Option<String>,
}

/// One item of GET /v1/budget-limits, as text.
#[derive(Debug)]
pub struct BulkBudgetLimitData {
    pub id: String,
    pub attrs: BulkBudgetLimitAttrs,
}

/// The attributes of a budget limit, as text.
#[derive(Debug)]
pub struct BulkBudgetLimitAttrs {
    pub start: Option<String>,
    pub end: Option<String>,
    pub budget_id: Option<String>,
    pub amount: Option<String>,
    pub currency_code: Option<String>,
    pub currency_symbol: Option<String>,
}

/// Response envelope from GET /v1/budget-limits.
#[derive(Debug)]
pub struct BulkBudgetLimitResponse {
    pub items: Vec<BulkBudgetLimitData>,
}

/// The date part of an optional timestamp (text before the first `T`),
/// empty when absent.
pub open spec fn date_part_or_empty(v: Option<String>) -> Seq<char> {
    match v {
        Some(s) => first_segment(s@, 'T'),
        None => Seq::empty(),
    }
}

/// The date part of an optional timestamp, empty when absent.
pub fn date_part(v: &Option<String>) -> (res: String)
    ensures
        res@ == date_part_or_empty(*v),
{
    match v {
        Some(s) => first_segment_of(s.as_str(), 'T'),
        None => String::new(),
    }
}

/// The budget a limit belongs to: its `budget_id` attribute, else the item id.
pub fn limit_budget_id(item: &BulkBudgetLimitData) -> (res: String)
    ensures
        res@ == match item.attrs.budget_id {
            Some(b) => b@,
            None => item.id@,
        },
{
    match &item.attrs.budget_id {
        Some(b) => b.clone(),
        None => item.id.clone(),
    }
}

/// Widgets are kept in display order by default at position 0.
pub fn default_display_order() -> (res: i32)
    ensures
        res == 0,
{
    0
}

/// Default widget width in grid columns.
pub fn default_width() -> (res: i32)
    ensures
        res == 12,
{
    12
}

/// Default chart height in pixels.
pub fn default_chart_height() -> (res: i32)
    ensures
        res == 300,
{
    300
}

/// Percentages are relative to the previous point by default.
pub fn default_pct_mode() -> (res: String)
    ensures
        res@ == "from_previous"@,
{
    String::from_str("from_previous")
}

/// Points are hidden by default.
pub fn default_show_points() -> (res: bool)
    ensures
        res == false,
{
    false
}

/// Default number of x-axis labels.
pub fn default_x_axis_limit() -> (res: i32)
    ensures
        res == 6,
{
    6
}

/// Default number of y-axis labels.
pub fn default_y_axis_limit() -> (res: i32)
    ensures
        res == 4,
{
    4
}

/// The area under a line is filled by default.
pub fn default_fill_area() -> (res: bool)
    ensures
        res == true,
{
    true
}

/// The y axis does not start at zero by default.
pub fn default_begin_at_zero() -> (res: bool)
    ensures
        res == false,
{
    false
}

/// Percentages are hidden by default.
pub fn default_show_pct() -> (res: bool)
    ensures
        res == false,
{
    false
}

/// Forecasting is off by default.
pub fn default_enable_forecast() -> (res: bool)
    ensures
        res == false,
{
    false
}

/// Default forecast length in days.
pub fn default_forecast_days() -> (res: i32)
    ensures
        res == 30,
{
    30
}

/// The trend line is hidden by default.
pub fn default_show_trendline() -> (res: bool)
    ensures
        res == false,
{
    false
}

/// Default trend line window in points.
pub fn default_trendline_window() -> (res: i32)
    ensures
        res == 7,
{
    7
}

/// Whether a stored chart-options text holds options: an absent or empty
/// text means none.
pub fn has_chart_options(json: Option<&str>) -> (res: bool)
    ensures
        res == (json matches Some(s) && s@.len() > 0),
{
    match json {
        Some(s) => s.unicode_len() > 0,
        None => false,
    }
}

/// `ids` without `id`, in order.
pub open spec fn without(ids: Seq<Seq<char>>, id: Seq<char>) -> Seq<Seq<char>>
    decreases ids.len(),
{
    if ids.len() == 0 {
        Seq::empty()
    } else {
        let rest = without(ids.drop_last(), id);
        if ids.last() == id {
            rest
        } else {
            rest.push(ids.last())
        }
    }
}

/// Removing `id` shortens the list exactly when `id` occurs in it.
pub proof fn lemma_without_len(ids: Seq<Seq<char>>, id: Seq<char>)
    ensures
        without(ids, id).len() <= ids.len(),
        (without(ids, id).len() < ids.len()) == ids.contains(id),
        !without(ids, id).contains(id),
    decreases ids.len(),
{
    if ids.len() > 0 {
        let init = ids.drop_last();
        lemma_without_len(init, id);
        if init.contains(id) {
            let k = choose|k: int| 0 <= k < init.len() && init[k] == id;
            assert(ids[k] == id);
        }
        if ids.contains(id) && ids.last() != id {
            let k = choose|k: int| 0 <= k < ids.len() && ids[k] == id;
            assert(k < ids.len() - 1);
            assert(init[k] == id);
        }
        if ids.last() == id {
            assert(ids[ids.len() - 1] == id);
        } else {
            let r = without(init, id);
            if r.push(ids.last()).contains(id) {
                let k = choose|k: int| 0 <= k < r.push(ids.last()).len() && r.push(ids.last())[k] == id;
                assert(k < r.len());
                assert(r[k] == id);
            }
        }
    }
}

/// The dashboard ids of a widget after dashboard `id` is deleted, and
/// whether anything was removed.
pub fn remove_dashboard_id(ids: Vec<String>, id: &str) -> (res: (Vec<String>, bool))
    ensures
        strs(res.0@) == without(strs(ids@), id@),
        res.1 == strs(ids@).contains(id@),
{
    let ghost all = strs(ids@);
    let mut out: Vec<String> = Vec::new();
    let mut i: usize = 0;
    proof { assert(all.take(0) =~= Seq::<Seq<char>>::empty()); }
    while i < ids.len()
        invariant
            i <= ids@.len(),
            all == strs(ids@),
            strs(out@) == without(all.take(i as int), id@),
        decreases ids@.len() - i,
    {
        proof { assert(all.take(i + 1).drop_last() =~= all.take(i as int)); }
        if !str_eq(ids[i].as_str(), id) {
            let ghost ob = strs(out@);
            out.push(ids[i].clone());
            proof { assert(strs(out@) =~= ob.push(all[i as int])); }
        }
        i = i + 1;
    }
    proof {
        assert(all.take(ids@.len() as int) =~= all);
        lemma_without_len(all, id@);
    }
    let changed = out.len() != ids.len();
    (out, changed)
}

/// Whether a widget is shown on a dashboard: its dashboard ids contain it.
pub fn on_dashboard(dashboard_ids: &Vec<String>, dashboard_id: &str) -> (res: bool)
    ensures
        res == strs(dashboard_ids@).contains(dashboard_id@),
{
    contains_str(dashboard_ids, dashboard_id)
}

/// A dashboard name is given when it is not blank.
pub fn dashboard_name_ok(name: &str) -> (res: bool)
    ensures
        res == (trimmed(name@).len() > 0),
{
    trim(name).unicode_len() > 0
}

} // verus!
