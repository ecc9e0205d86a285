//! Accounts, budgets and categories as Firefly III lists them, and the
//! grouping of categories into parents and subcategories.

use vstd::prelude::*;
use crate::charts::split_category;
use crate::order::{strs, strictly_sorted, insert_sorted, lex_lt, str_less, lemma_lex_total};
use crate::text::{first_segment, after_first, trimmed, trim, str_eq};

verus! {

/// Response of GET /v1/accounts.
#[derive(Debug)]
pub struct AccountArray {
    pub data: Vec<AccountRead>,
}

/// One account of GET /v1/accounts.
#[derive(Debug)]
pub struct AccountRead {
    pub id: String,
    pub attributes: AccountAttributes,
}

/// The attributes of an account.
#[derive(Debug)]
pub struct AccountAttributes {
    pub name: String,
    pub account_type: String,
    pub current_balance: String,
    pub currency_symbol: String,
}

/// An account as the dashboard shows it.
#[derive(Debug)]
pub struct SimpleAccount {
    pub id: String,
    pub name: String,
    pub balance: String,
    pub currency: String,
    pub account_type: String,
}

/// The dashboard form of an account record.
pub open spec fn simple_of(a: AccountRead) -> SimpleAccount {
    SimpleAccount {
        id: a.id,
        name: a.attributes.name,
        balance: a.attributes.current_balance,
        currency: a.attributes.currency_symbol,
        account_type: a.attributes.account_type,
    }
}

/// The account type filter to use: `"all"` means no filter.
pub open spec fn type_filter_of(t: Option<Seq<char>>) -> Option<Seq<char>> {
    if t == Some("all"@) { None } else { t }
}

/// The account type filter to use: `"all"` means no filter.
pub fn normalize_type_filter(type_filter: Option<String>) -> (res: Option<String>)
    ensures
        (match res { Some(s) => Some(s@), None => None }) == type_filter_of(match type_filter {
            Some(s) => Some(s@),
            None => None,
        }),
{
    proof { reveal_strlit("all"); }
    match type_filter {
        Some(t) => if str_eq(t.as_str(), "all") { None } else { Some(t) },
        None => None,
    }
}

/// The account keeps up with the type filter.
/// The family of an account type: Firefly III v6 reports the liability
/// family as `liabilities`, v5 as `liability`; both are one family.
pub open spec fn type_family(t: Seq<char>) -> Seq<char> {
    if t == "liabilities"@ { "liability"@ } else { t }
}

pub open spec fn keeps_type(a: SimpleAccount, filter: Option<Seq<char>>) -> bool {
    match filter {
        Some(t) => type_family(a.account_type@) == type_family(t),
        None => true,
    }
}

/// Whether two account types are of one family.
pub fn same_type_family(a: &str, b: &str) -> (res: bool)
    ensures
        res == (type_family(a@) == type_family(b@)),
{
    proof {
        reveal_strlit("liabilities");
        reveal_strlit("liability");
    }
    let fa = if str_eq(a, "liabilities") { "liability" } else { a };
    let fb = if str_eq(b, "liabilities") { "liability" } else { b };
    str_eq(fa, fb)
}

/// The accounts of the response as the dashboard shows them, in order,
/// keeping only those of the filtered type (when a filter is given).
pub fn simple_accounts(array: AccountArray, type_filter: Option<&str>) -> (res: Vec<SimpleAccount>)
    ensures
        res@ == array.data@.map_values(|a: AccountRead| simple_of(a)).filter(
            |a: SimpleAccount| keeps_type(a, match type_filter { Some(t) => Some(t@), None => None })),
{
    let ghost f = match type_filter { Some(t) => Some(t@), None => None };
    let ghost all = array.data@.map_values(|a: AccountRead| simple_of(a));
    let ghost pred = |a: SimpleAccount| keeps_type(a, f);
    let mut rest = array.data;
    let mut out: Vec<SimpleAccount> = Vec::new();
    let ghost n = rest@.len();
    proof { assert(all.take(0).filter(pred) =~= Seq::<SimpleAccount>::empty()); }
    while rest.len() > 0
        invariant
            n == all.len(),
            rest@.len() <= n,
            f == (match type_filter { Some(t) => Some(t@), None => None }),
            pred == (|a: SimpleAccount| keeps_type(a, f)),
            forall|k: int| 0 <= k < rest@.len() ==> all[n - rest@.len() + k] == simple_of(#[trigger] rest@[k]),
            out@ == all.take(n - rest@.len()).filter(pred),
        decreases rest@.len(),
    {
        let ghost i = n - rest@.len();
        let ghost before = rest@;
        let a = rest.remove(0);
        let s = SimpleAccount {
            id: a.id,
            name: a.attributes.name,
            balance: a.attributes.current_balance,
            currency: a.attributes.currency_symbol,
            account_type: a.attributes.account_type,
        };
        proof {
            assert(s == all[i]);
            assert(all.take(i + 1).drop_last() =~= all.take(i));
            reveal_with_fuel(Seq::<SimpleAccount>::filter, 1);
            assert forall|k: int| 0 <= k < rest@.len() implies all[n - rest@.len() + k] == simple_of(#[trigger] rest@[k]) by {
                assert(rest@[k] == before[k + 1]);
            }
        }
        let keep = match type_filter {
            Some(t) => same_type_family(s.account_type.as_str(), t),
            None => true,
        };
        if keep {
            out.push(s);
        }
    }
    proof {
        assert(all.take(n as int) =~= all);
        assert(pred =~= (|a: SimpleAccount| keeps_type(a, match type_filter { Some(t) => Some(t@), None => None })));
    }
    out
}

/// A budget as the dashboard uses it.
#[derive(Debug)]
pub struct BudgetRead {
    pub id: String,
    pub name: String,
    pub active: bool,
}

/// One entry of the `data` list of GET /v1/budgets.
#[derive(Debug)]
pub struct BudgetDataItem {
    pub id: String,
    pub attrs: BudgetAttrs,
}

/// The attributes of a budget.
#[derive(Debug)]
pub struct BudgetAttrs {
    pub name: String,
    pub active: bool,
}

/// Response from GET /v1/budgets.
#[derive(Debug)]
pub struct BudgetListResponse {
    pub items: Vec<BudgetDataItem>,
}

/// The budget record of a list entry.
pub open spec fn budget_of(item: BudgetDataItem) -> BudgetRead {
    BudgetRead { id: item.id, name: item.attrs.name, active: item.attrs.active }
}

impl BudgetListResponse {
    /// The budget records of the response, in order.
    pub fn budgets(self) -> (res: Vec<BudgetRead>)
        ensures
            res@ == self.items@.map_values(|i: BudgetDataItem| budget_of(i)),
    {
        let ghost all = self.items@.map_values(|i: BudgetDataItem| budget_of(i));
        let mut rest = self.items;
        let mut out: Vec<BudgetRead> = Vec::new();
        let ghost n = rest@.len();
        while rest.len() > 0
            invariant
                n == all.len(),
                rest@.len() <= n,
                forall|k: int| 0 <= k < rest@.len() ==> all[n - rest@.len() + k] == budget_of(#[trigger] rest@[k]),
                out@ == all.take(n - rest@.len()),
            decreases rest@.len(),
        {
            let ghost i = n - rest@.len();
            let ghost before = rest@;
            let item = rest.remove(0);
            out.push(BudgetRead { id: item.id, name: item.attrs.name, active: item.attrs.active });
            proof {
                assert(out@ =~= all.take(i + 1));
                assert forall|k: int| 0 <= k < rest@.len() implies all[n - rest@.len() + k] == budget_of(#[trigger] rest@[k]) by {
                    assert(rest@[k] == before[k + 1]);
                }
            }
        }
        proof { assert(all.take(n as int) =~= all); }
        out
    }
}

/// A category as Firefly III lists it.
#[derive(Debug)]
pub struct CategoryRead {
    pub id: String,
    pub name: String,
}

/// One entry of the `data` list of GET /v1/categories.
#[derive(Debug)]
pub struct CategoryDataItem {
    pub id: String,
    pub attrs: CategoryAttrs,
}

/// The attributes of a category.
#[derive(Debug)]
pub struct CategoryAttrs {
    pub name: String,
}

/// Response from GET /v1/categories.
#[derive(Debug)]
pub struct CategoryListResponse {
    pub items: Vec<CategoryDataItem>,
}

/// The category record of a list entry.
pub open spec fn category_of(item: CategoryDataItem) -> CategoryRead {
    CategoryRead { id: item.id, name: item.attrs.name }
}

impl CategoryListResponse {
    /// The category records of the response, in order.
    pub fn categories(self) -> (res: Vec<CategoryRead>)
        ensures
            res@ == self.items@.map_values(|i: CategoryDataItem| category_of(i)),
    {
        let ghost all = self.items@.map_values(|i: CategoryDataItem| category_of(i));
        let mut rest = self.items;
        let mut out: Vec<CategoryRead> = Vec::new();
        let ghost n = rest@.len();
        while rest.len() > 0
            invariant
                n == all.len(),
                rest@.len() <= n,
                forall|k: int| 0 <= k < rest@.len() ==> all[n - rest@.len() + k] == category_of(#[trigger] rest@[k]),
                out@ == all.take(n - rest@.len()),
            decreases rest@.len(),
        {
            let ghost i = n - rest@.len();
            let ghost before = rest@;
            let item = rest.remove(0);
            out.push(CategoryRead { id: item.id, name: item.attrs.name });
            proof {
                assert(out@ =~= all.take(i + 1));
                assert forall|k: int| 0 <= k < rest@.len() implies all[n - rest@.len() + k] == category_of(#[trigger] rest@[k]) by {
                    assert(rest@[k] == before[k + 1]);
                }
            }
        }
        proof { assert(all.take(n as int) =~= all); }
        out
    }
}

/// A parent category (before the colon) with its subcategories (after the
/// colon). Categories without a colon have the single subcategory "Other".
#[derive(Debug)]
pub struct ParentCategory {
    pub name: String,
    pub category_type: String,
    pub subcategories: Vec<String>,
}

/// The parent of a category name: the trimmed text before the first `:`.
pub open spec fn cat_parent(n: Seq<char>) -> Seq<char> {
    trimmed(first_segment(n, ':'))
}

/// The subcategory of a category name: the trimmed text after the first
/// `:`, or `"Other"` when there is no `:`.
pub open spec fn cat_sub(n: Seq<char>) -> Seq<char> {
    match after_first(n, ':') {
        Some(r) => trimmed(r),
        None => "Other"@,
    }
}

/// The parents of the names.
pub open spec fn parents_of(names: Seq<Seq<char>>) -> Set<Seq<char>> {
    Set::new(|p: Seq<char>| exists|i: int| 0 <= i < names.len() && #[trigger] cat_parent(names[i]) == p)
}

/// The subcategories under parent `p` among the names.
pub open spec fn subs_of(names: Seq<Seq<char>>, p: Seq<char>) -> Set<Seq<char>> {
    Set::new(|s: Seq<char>| exists|i: int| 0 <= i < names.len() && #[trigger] cat_parent(names[i]) == p && cat_sub(names[i]) == s)
}

/// The names of the groups.
pub open spec fn group_names(g: Seq<ParentCategory>) -> Seq<Seq<char>> {
    g.map_values(|c: ParentCategory| c.name@)
}

/// The groups describe the names: one group per parent, in sorted order,
/// each with its subcategories sorted and without repeats.
pub open spec fn groups_of(g: Seq<ParentCategory>, names: Seq<Seq<char>>) -> bool {
    &&& strictly_sorted(group_names(g))
    &&& group_names(g).to_set() == parents_of(names)
    &&& forall|k: int| 0 <= k < g.len() ==> {
        &&& (#[trigger] g[k]).category_type@ == g[k].name@
        &&& strictly_sorted(strs(g[k].subcategories@))
        &&& strs(g[k].subcategories@).to_set() == subs_of(names, g[k].name@)
    }
}

proof fn lemma_prefix_step(names: Seq<Seq<char>>, i: int)
    requires
        0 <= i < names.len(),
    ensures
        parents_of(names.take(i + 1)) == parents_of(names.take(i)).insert(cat_parent(names[i])),
        forall|p: Seq<char>| #[trigger] subs_of(names.take(i + 1), p) == if p == cat_parent(names[i]) {
            subs_of(names.take(i), p).insert(cat_sub(names[i]))
        } else {
            subs_of(names.take(i), p)
        },
{
    let a = names.take(i);
    let b = names.take(i + 1);
    assert forall|p: Seq<char>| parents_of(b).contains(p) == parents_of(a).insert(cat_parent(names[i])).contains(p) by {
        if parents_of(b).contains(p) {
            let k = choose|k: int| 0 <= k < b.len() && #[trigger] cat_parent(b[k]) == p;
            if k < i {
                assert(a[k] == b[k]);
            }
        }
        if parents_of(a).contains(p) {
            let k = choose|k: int| 0 <= k < a.len() && #[trigger] cat_parent(a[k]) == p;
            assert(b[k] == a[k]);
        }
        if p == cat_parent(names[i]) {
            assert(b[i] == names[i]);
        }
    }
    assert(parents_of(b) =~= parents_of(a).insert(cat_parent(names[i])));
    assert forall|p: Seq<char>| #[trigger] subs_of(b, p) == if p == cat_parent(names[i]) {
        subs_of(a, p).insert(cat_sub(names[i]))
    } else {
        subs_of(a, p)
    } by {
        let rhs = if p == cat_parent(names[i]) { subs_of(a, p).insert(cat_sub(names[i])) } else { subs_of(a, p) };
        assert forall|s: Seq<char>| subs_of(b, p).contains(s) == rhs.contains(s) by {
            if subs_of(b, p).contains(s) {
                let k = choose|k: int| 0 <= k < b.len() && #[trigger] cat_parent(b[k]) == p && cat_sub(b[k]) == s;
                if k < i {
                    assert(a[k] == b[k]);
                }
            }
            if subs_of(a, p).contains(s) {
                let k = choose|k: int| 0 <= k < a.len() && #[trigger] cat_parent(a[k]) == p && cat_sub(a[k]) == s;
                assert(b[k] == a[k]);
            }
            if p == cat_parent(names[i]) && s == cat_sub(names[i]) {
                assert(b[i] == names[i]);
            }
        }
        assert(subs_of(b, p) =~= rhs);
    }
}

/// Groups category names by parent (the part before the first `:`), with
/// parents in sorted order, each listing its sorted distinct subcategories.
pub fn group_categories(categories: &Vec<CategoryRead>) -> (res: Vec<ParentCategory>)
    ensures
        groups_of(res@, categories@.map_values(|c: CategoryRead| c.name@)),
{
    let ghost names = categories@.map_values(|c: CategoryRead| c.name@);
    let mut groups: Vec<ParentCategory> = Vec::new();
    let mut i: usize = 0;
    proof {
        assert(group_names(groups@) =~= Seq::<Seq<char>>::empty());
        assert(parents_of(names.take(0)) =~= Set::<Seq<char>>::empty());
        assert(group_names(groups@).to_set() =~= Set::<Seq<char>>::empty());
    }
    while i < categories.len()
        invariant
            i <= categories@.len(),
            names == categories@.map_values(|c: CategoryRead| c.name@),
            groups_of(groups@, names.take(i as int)),
        decreases categories@.len() - i,
    {
        proof { lemma_prefix_step(names, i as int); }
        let (p0, rest) = split_category(categories[i].name.as_str());
        let parent = trim(p0.as_str());
        let sub = match rest {
            Some(r) => trim(r.as_str()),
            None => String::from_str("Other"),
        };
        proof {
            reveal_strlit("Other");
            assert(parent@ == cat_parent(names[i as int]));
            assert(sub@ == cat_sub(names[i as int]));
        }
        let ghost gn = group_names(groups@);
        // Position of the parent among the groups.
        let mut k: usize = 0;
        while k < groups.len() && str_less(groups[k].name.as_str(), parent.as_str())
            invariant
                k <= groups@.len(),
                gn == group_names(groups@),
                forall|m: int| 0 <= m < k ==> lex_lt(#[trigger] gn[m], parent@),
            decreases groups@.len() - k,
        {
            assert(lex_lt(gn[k as int], parent@));
            k = k + 1;
        }
        let ghost g0 = groups@;
        if k < groups.len() && str_eq(groups[k].name.as_str(), parent.as_str()) {
            let mut g = groups.remove(k);
            let ghost old_subs = strs(g.subcategories@);
            insert_sorted(&mut g.subcategories, sub);
            groups.insert(k, g);
            proof {
                assert(groups@ =~= g0.update(k as int, groups@[k as int]));
                assert(group_names(groups@) =~= gn);
                assert forall|m: int| 0 <= m < groups@.len() implies {
                    &&& (#[trigger] groups@[m]).category_type@ == groups@[m].name@
                    &&& strictly_sorted(strs(groups@[m].subcategories@))
                    &&& strs(groups@[m].subcategories@).to_set() == subs_of(names.take(i + 1), groups@[m].name@)
                } by {
                    if m != k {
                        assert(groups@[m] == g0[m]);
                        assert(gn[m] != gn[k as int]);
                    }
                }
                assert(gn[k as int] == parent@);
                assert(gn.to_set().contains(parent@));
                assert(parents_of(names.take(i + 1)) =~= parents_of(names.take(i as int)));
            }
        } else {
            let mut subs: Vec<String> = Vec::new();
            proof { assert(strs(subs@) =~= Seq::<Seq<char>>::empty()); }
            insert_sorted(&mut subs, sub);
            let g = ParentCategory { name: parent.clone(), category_type: parent, subcategories: subs };
            groups.insert(k, g);
            proof {
                if k < g0.len() {
                    lemma_lex_total(gn[k as int], parent@);
                    assert(lex_lt(parent@, gn[k as int]));
                }
                let ng = group_names(groups@);
                assert(ng =~= gn.take(k as int).push(parent@) + gn.skip(k as int));
                assert forall|a: int, b: int| 0 <= a < b < ng.len() implies lex_lt(#[trigger] ng[a], #[trigger] ng[b]) by {
                    if b < k {
                        assert(lex_lt(gn[a], gn[b]));
                    } else if b == k {
                        assert(lex_lt(gn[a], parent@));
                    } else if a == k {
                        if b - 1 > k {
                            assert(lex_lt(gn[k as int], gn[b - 1]));
                            crate::order::lemma_lex_transitive(parent@, gn[k as int], gn[b - 1]);
                        }
                    } else if a < k {
                        if b - 1 > k {
                            assert(lex_lt(gn[k as int], gn[b - 1]));
                            crate::order::lemma_lex_transitive(parent@, gn[k as int], gn[b - 1]);
                        }
                        crate::order::lemma_lex_transitive(gn[a], parent@, gn[b - 1]);
                    } else {
                        assert(lex_lt(gn[a - 1], gn[b - 1]));
                    }
                }
                assert(!parents_of(names.take(i as int)).contains(parent@)) by {
                    if gn.to_set().contains(parent@) {
                        let m = choose|m: int| 0 <= m < gn.len() && gn[m] == parent@;
                        if m < k {
                            crate::order::lemma_lex_irreflexive(parent@);
                        } else if m == k {
                        } else {
                            assert(lex_lt(gn[k as int], gn[m]));
                            crate::order::lemma_lex_asymmetric(parent@, gn[k as int]);
                        }
                    }
                }
                assert forall|y: Seq<char>| ng.to_set().contains(y) == gn.to_set().insert(parent@).contains(y) by {
                    if ng.to_set().contains(y) {
                        let m = choose|m: int| 0 <= m < ng.len() && ng[m] == y;
                        if m < k {
                            assert(gn[m] == y);
                        } else if m > k {
                            assert(gn[m - 1] == y);
                        }
                    }
                    if gn.to_set().contains(y) {
                        let m = choose|m: int| 0 <= m < gn.len() && gn[m] == y;
                        if m < k {
                            assert(ng[m] == y);
                        } else {
                            assert(ng[m + 1] == y);
                        }
                    }
                    if y == parent@ {
                        assert(ng[k as int] == y);
                    }
                }
                assert(ng.to_set() =~= parents_of(names.take(i + 1)));
                assert(subs_of(names.take(i as int), parent@) =~= Set::<Seq<char>>::empty()) by {
                    assert forall|s: Seq<char>| !subs_of(names.take(i as int), parent@).contains(s) by {
                        if subs_of(names.take(i as int), parent@).contains(s) {
                            let q = choose|q: int| 0 <= q < names.take(i as int).len()
                                && #[trigger] cat_parent(names.take(i as int)[q]) == parent@
                                && cat_sub(names.take(i as int)[q]) == s;
                            assert(parents_of(names.take(i as int)).contains(parent@));
                        }
                    }
                }
                assert forall|m: int| 0 <= m < groups@.len() implies {
                    &&& (#[trigger] groups@[m]).category_type@ == groups@[m].name@
                    &&& strictly_sorted(strs(groups@[m].subcategories@))
                    &&& strs(groups@[m].subcategories@).to_set() == subs_of(names.take(i + 1), groups@[m].name@)
                } by {
                    if m < k {
                        assert(groups@[m] == g0[m]);
                        assert(gn[m] != parent@);
                    } else if m > k {
                        assert(groups@[m] == g0[m - 1]);
                        assert(gn[m - 1] != parent@);
                    } else {
                        assert(strs(groups@[m].subcategories@).to_set() =~= Set::<Seq<char>>::empty().insert(sub@));
                    }
                }
            }
        }
        i = i + 1;
    }
    proof { assert(names.take(categories@.len() as int) =~= names); }
    groups
}

} // verus!
