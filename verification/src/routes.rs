//! The dashboard's HTTP routes: which handler answers which method and
//! path. The server registers exactly these.

use vstd::prelude::*;
use crate::text::{has_text, contains_text, str_eq};

verus! {

/// The HTTP methods the dashboard answers.
#[derive(Debug, Clone, Copy, PartialEq, Eq, Structural)]
pub enum HttpMethod {
    Get,
    Post,
    Put,
    Delete,
}

/// One route: the method and path pattern, and the handler (by its path in
/// the server, e.g. `handlers::account::get_accounts`).
#[derive(Debug)]
pub struct Route {
    pub method: HttpMethod,
    pub path: String,
    pub handler: String,
}

/// The routes, in registration order.
pub open spec fn route_table() -> Seq<(HttpMethod, Seq<char>, Seq<char>)> {
    seq![
        (HttpMethod::Get, "/"@, "handlers::index::index"@),
        (HttpMethod::Get, "/api/accounts"@, "handlers::account::get_accounts"@),
        (HttpMethod::Post, "/api/accounts/refresh"@, "handlers::account::refresh_accounts"@),
        (HttpMethod::Get, "/api/accounts/balance-history"@, "handlers::account::get_balance_history"@),
        (HttpMethod::Post, "/api/accounts/balance-history/refresh"@, "handlers::account::refresh_balance_history"@),
        (HttpMethod::Post, "/api/refresh"@, "handlers::account::refresh_all"@),
        (HttpMethod::Post, "/api/budgets/spent/refresh"@, "handlers::account::refresh_budget_spent"@),
        (HttpMethod::Get, "/api/earned-spent"@, "handlers::account::get_earned_spent"@),
        (HttpMethod::Get, "/api/earned-spent/since"@, "handlers::account::get_earned_spent_since"@),
        (HttpMethod::Get, "/api/expenses-by-category"@, "handlers::account::get_expenses_by_category"@),
        (HttpMethod::Get, "/api/net-worth"@, "handlers::account::get_net_worth"@),
        (HttpMethod::Get, "/api/saved-this-month"@, "handlers::account::get_saved_this_month"@),
        (HttpMethod::Get, "/api/budgets/spent"@, "handlers::account::get_budget_spent"@),
        (HttpMethod::Get, "/api/budgets/spent-history"@, "handlers::account::get_budget_spent_history"@),
        (HttpMethod::Get, "/api/budgets/list"@, "handlers::account::get_budget_list"@),
        (HttpMethod::Get, "/avg-cost"@, "handlers::avg_cost::avg_cost_page"@),
        (HttpMethod::Get, "/api/budgets/avg-cost"@, "handlers::avg_cost::get_avg_cost"@),
        (HttpMethod::Get, "/budget-comparison"@, "handlers::budget_comparison::budget_comparison"@),
        (HttpMethod::Get, "/api/budgets/comparison"@, "handlers::budget_comparison::get_budget_comparison"@),
        (HttpMethod::Get, "/api/categories/list"@, "handlers::category::get_category_list"@),
        (HttpMethod::Get, "/api/categories/subcategory-spend"@, "handlers::category::get_subcategory_spend"@),
        (HttpMethod::Get, "/dashboard"@, "handlers::dashboard::dashboard"@),
        (HttpMethod::Get, "/api/dashboards"@, "handlers::dashboard_api::list_dashboards"@),
        (HttpMethod::Get, "/api/dashboards/{id}/widgets"@, "handlers::dashboard_api::get_dashboard_widgets"@),
        (HttpMethod::Post, "/api/dashboards"@, "handlers::dashboard_api::create_dashboard"@),
        (HttpMethod::Put, "/api/dashboards/{id}"@, "handlers::dashboard_api::update_dashboard"@),
        (HttpMethod::Delete, "/api/dashboards/{id}"@, "handlers::dashboard_api::delete_dashboard"@),
        (HttpMethod::Get, "/api/groups"@, "handlers::group::list_groups"@),
        (HttpMethod::Post, "/api/groups"@, "handlers::group::create_group"@),
        (HttpMethod::Put, "/api/groups/{id}"@, "handlers::group::update_group"@),
        (HttpMethod::Delete, "/api/groups/{id}"@, "handlers::group::delete_group"@),
        (HttpMethod::Get, "/monthly-summary"@, "handlers::monthly_summary::monthly_summary_page"@),
        (HttpMethod::Get, "/api/monthly-summary"@, "handlers::monthly_summary::get_monthly_summary"@),
        (HttpMethod::Get, "/reimbursements"@, "handlers::reimbursement::reimbursements_page"@),
        (HttpMethod::Get, "/api/reimbursements/summary"@, "handlers::reimbursement::get_reimbursements_summary_api"@),
        (HttpMethod::Post, "/api/reimbursements/refresh"@, "handlers::reimbursement::refresh_reimbursements"@),
        (HttpMethod::Get, "/sankey"@, "handlers::sankey::sankey_page"@),
        (HttpMethod::Get, "/api/sankey/flows"@, "handlers::sankey::get_sankey_flows"@),
        (HttpMethod::Get, "/summary"@, "handlers::summary::summary_page"@),
        (HttpMethod::Get, "/api/summary/month"@, "handlers::summary::get_month_summary_api"@),
        (HttpMethod::Get, "/api/summary/monthly"@, "handlers::summary::get_monthly_summary"@),
        (HttpMethod::Get, "/api/widgets"@, "handlers::widget::list_widgets"@),
        (HttpMethod::Post, "/api/widgets"@, "handlers::widget::create_widget"@),
        (HttpMethod::Put, "/api/widgets/{id}"@, "handlers::widget::update_widget"@),
        (HttpMethod::Delete, "/api/widgets/{id}"@, "handlers::widget::delete_widget"@)
    ]
}

/// The routes as plain values.
pub open spec fn routes_view(v: Seq<Route>) -> Seq<(HttpMethod, Seq<char>, Seq<char>)> {
    v.map_values(|r: Route| (r.method, r.path@, r.handler@))
}

fn route(method: HttpMethod, path: &str, handler: &str) -> (res: Route)
    ensures
        res.method == method,
        res.path@ == path@,
        res.handler@ == handler@,
{
    Route { method, path: String::from_str(path), handler: String::from_str(handler) }
}

/// Every route of the dashboard.
#[verifier::rlimit(50)]
pub fn routes() -> (res: Vec<Route>)
    ensures
        routes_view(res@) == route_table(),
{
    let mut out: Vec<Route> = Vec::new();
    out.push(route(HttpMethod::Get, "/", "handlers::index::index"));
    out.push(route(HttpMethod::Get, "/api/accounts", "handlers::account::get_accounts"));
    out.push(route(HttpMethod::Post, "/api/accounts/refresh", "handlers::account::refresh_accounts"));
    out.push(route(HttpMethod::Get, "/api/accounts/balance-history", "handlers::account::get_balance_history"));
    out.push(route(HttpMethod::Post, "/api/accounts/balance-history/refresh", "handlers::account::refresh_balance_history"));
    out.push(route(HttpMethod::Post, "/api/refresh", "handlers::account::refresh_all"));
    out.push(route(HttpMethod::Post, "/api/budgets/spent/refresh", "handlers::account::refresh_budget_spent"));
    out.push(route(HttpMethod::Get, "/api/earned-spent", "handlers::account::get_earned_spent"));
    out.push(route(HttpMethod::Get, "/api/earned-spent/since", "handlers::account::get_earned_spent_since"));
    out.push(route(HttpMethod::Get, "/api/expenses-by-category", "handlers::account::get_expenses_by_category"));
    out.push(route(HttpMethod::Get, "/api/net-worth", "handlers::account::get_net_worth"));
    out.push(route(HttpMethod::Get, "/api/saved-this-month", "handlers::account::get_saved_this_month"));
    out.push(route(HttpMethod::Get, "/api/budgets/spent", "handlers::account::get_budget_spent"));
    out.push(route(HttpMethod::Get, "/api/budgets/spent-history", "handlers::account::get_budget_spent_history"));
    out.push(route(HttpMethod::Get, "/api/budgets/list", "handlers::account::get_budget_list"));
    out.push(route(HttpMethod::Get, "/avg-cost", "handlers::avg_cost::avg_cost_page"));
    out.push(route(HttpMethod::Get, "/api/budgets/avg-cost", "handlers::avg_cost::get_avg_cost"));
    out.push(route(HttpMethod::Get, "/budget-comparison", "handlers::budget_comparison::budget_comparison"));
    out.push(route(HttpMethod::Get, "/api/budgets/comparison", "handlers::budget_comparison::get_budget_comparison"));
    out.push(route(HttpMethod::Get, "/api/categories/list", "handlers::category::get_category_list"));
    out.push(route(HttpMethod::Get, "/api/categories/subcategory-spend", "handlers::category::get_subcategory_spend"));
    out.push(route(HttpMethod::Get, "/dashboard", "handlers::dashboard::dashboard"));
    out.push(route(HttpMethod::Get, "/api/dashboards", "handlers::dashboard_api::list_dashboards"));
    out.push(route(HttpMethod::Get, "/api/dashboards/{id}/widgets", "handlers::dashboard_api::get_dashboard_widgets"));
    out.push(route(HttpMethod::Post, "/api/dashboards", "handlers::dashboard_api::create_dashboard"));
    out.push(route(HttpMethod::Put, "/api/dashboards/{id}", "handlers::dashboard_api::update_dashboard"));
    out.push(route(HttpMethod::Delete, "/api/dashboards/{id}", "handlers::dashboard_api::delete_dashboard"));
    out.push(route(HttpMethod::Get, "/api/groups", "handlers::group::list_groups"));
    out.push(route(HttpMethod::Post, "/api/groups", "handlers::group::create_group"));
    out.push(route(HttpMethod::Put, "/api/groups/{id}", "handlers::group::update_group"));
    out.push(route(HttpMethod::Delete, "/api/groups/{id}", "handlers::group::delete_group"));
    out.push(route(HttpMethod::Get, "/monthly-summary", "handlers::monthly_summary::monthly_summary_page"));
    out.push(route(HttpMethod::Get, "/api/monthly-summary", "handlers::monthly_summary::get_monthly_summary"));
    out.push(route(HttpMethod::Get, "/reimbursements", "handlers::reimbursement::reimbursements_page"));
    out.push(route(HttpMethod::Get, "/api/reimbursements/summary", "handlers::reimbursement::get_reimbursements_summary_api"));
    out.push(route(HttpMethod::Post, "/api/reimbursements/refresh", "handlers::reimbursement::refresh_reimbursements"));
    out.push(route(HttpMethod::Get, "/sankey", "handlers::sankey::sankey_page"));
    out.push(route(HttpMethod::Get, "/api/sankey/flows", "handlers::sankey::get_sankey_flows"));
    out.push(route(HttpMethod::Get, "/summary", "handlers::summary::summary_page"));
    out.push(route(HttpMethod::Get, "/api/summary/month", "handlers::summary::get_month_summary_api"));
    out.push(route(HttpMethod::Get, "/api/summary/monthly", "handlers::summary::get_monthly_summary"));
    out.push(route(HttpMethod::Get, "/api/widgets", "handlers::widget::list_widgets"));
    out.push(route(HttpMethod::Post, "/api/widgets", "handlers::widget::create_widget"));
    out.push(route(HttpMethod::Put, "/api/widgets/{id}", "handlers::widget::update_widget"));
    out.push(route(HttpMethod::Delete, "/api/widgets/{id}", "handlers::widget::delete_widget"));
    proof {
        assert(routes_view(out@) =~= route_table());
    }
    out
}

/// Some registered handler's name contains `name`.
pub open spec fn registered_spec(name: Seq<char>) -> bool {
    exists|i: int| 0 <= i < route_table().len() && has_text(#[trigger] route_table()[i].2, name)
}

/// Whether some registered handler's name contains `name`.
pub fn registered(name: &str) -> (res: bool)
    ensures
        res == registered_spec(name@),
{
    let table = routes();
    let mut i: usize = 0;
    while i < table.len()
        invariant
            routes_view(table@) == route_table(),
            i <= table@.len(),
            forall|k: int| 0 <= k < i ==> !has_text(#[trigger] route_table()[k].2, name@),
        decreases table@.len() - i,
    {
        proof { assert(routes_view(table@)[i as int].2 == table@[i as int].handler@); }
        if contains_text(table[i].handler.as_str(), name) {
            return true;
        }
        i = i + 1;
    }
    false
}

/// The method and path a handler is registered under, when it is.
pub fn route_of(handler: &str) -> (res: Option<(HttpMethod, String)>)
    ensures
        res matches Some((m, p)) ==> exists|i: int| 0 <= i < route_table().len()
            && #[trigger] route_table()[i] == (m, p@, handler@),
        res is None ==> forall|i: int| 0 <= i < route_table().len() ==> (#[trigger] route_table()[i]).2 != handler@,
{
    let table = routes();
    let mut i: usize = 0;
    while i < table.len()
        invariant
            routes_view(table@) == route_table(),
            i <= table@.len(),
            forall|k: int| 0 <= k < i ==> (#[trigger] route_table()[k]).2 != handler@,
        decreases table@.len() - i,
    {
        proof { assert(routes_view(table@)[i as int] == (table@[i as int].method, table@[i as int].path@, table@[i as int].handler@)); }
        if str_eq(table[i].handler.as_str(), handler) {
            let p = table[i].path.clone();
            proof { assert(route_table()[i as int] == (table@[i as int].method, p@, handler@)); }
            return Some((table[i].method, p));
        }
        i = i + 1;
    }
    None
}

} // verus!
