//! Categories and budgets excluded from chart aggregation.

use vstd::prelude::*;
use crate::order::{strs, strictly_sorted, insert_sorted, lemma_sorted_unique};
use crate::text::{first_segment, first_segment_of, str_eq};

verus! {

/// Categories and budgets that are entirely excluded from chart aggregation.
///
/// A category entry matches a journal when the journal's full category name
/// (e.g. `"Work Expenses:Reimbursed"`) either equals the entry or has the
/// entry as its parent (excluding `"Work Expenses"` also excludes every
/// subcategory of it). A budget entry matches when the journal's budget name
/// equals it.
#[derive(Debug, Clone)]
pub struct Exclusions {
    /// Excluded category names: parent names or full "Parent:Sub" names.
    pub categories: Vec<String>,
    /// Excluded budget names.
    pub budgets: Vec<String>,
}

/// The list with each run of equal neighbours reduced to one entry
/// (`Vec::dedup`).
pub open spec fn dedup(s: Seq<Seq<char>>) -> Seq<Seq<char>>
    decreases s.len(),
{
    if s.len() <= 1 {
        s
    } else {
        let d = dedup(s.drop_last());
        if s.last() == s[s.len() - 2] {
            d
        } else {
            d.push(s.last())
        }
    }
}

/// A full category name is excluded by the entries `cats`: it is non-empty
/// and either it or its parent (the part before the first `:`) is listed.
pub open spec fn category_excluded(cats: Seq<Seq<char>>, full: Seq<char>) -> bool {
    full.len() > 0 && (cats.contains(full) || cats.contains(first_segment(full, ':')))
}

/// The parts a cache key is made of: `c=<name>` for each excluded category
/// and `b=<name>` for each excluded budget.
pub open spec fn cache_key_parts(cats: Seq<Seq<char>>, budgets: Seq<Seq<char>>) -> Set<Seq<char>> {
    cats.to_set().map(|c: Seq<char>| "c="@ + c).union(budgets.to_set().map(|b: Seq<char>| "b="@ + b))
}

/// The entries of `l` separated by `sep`.
pub open spec fn join(l: Seq<Seq<char>>, sep: Seq<char>) -> Seq<char>
    decreases l.len(),
{
    if l.len() == 0 {
        Seq::empty()
    } else if l.len() == 1 {
        l[0]
    } else {
        join(l.drop_last(), sep) + sep + l.last()
    }
}

/// The cache key of a set of exclusions: empty when nothing is excluded,
/// else its parts in sorted order, each once, joined by `&`.
pub open spec fn cache_key_text(cats: Seq<Seq<char>>, budgets: Seq<Seq<char>>) -> Seq<char> {
    if cats.len() == 0 && budgets.len() == 0 {
        Seq::empty()
    } else {
        join(
            choose|l: Seq<Seq<char>>| strictly_sorted(l) && l.to_set() == cache_key_parts(cats, budgets),
            "&"@,
        )
    }
}

proof fn lemma_map_insert(s: Set<Seq<char>>, x: Seq<char>, f: spec_fn(Seq<char>) -> Seq<char>)
    ensures
        s.insert(x).map(f) == s.map(f).insert(f(x)),
{
    assert forall|y: Seq<char>| s.insert(x).map(f).contains(y) == s.map(f).insert(f(x)).contains(y) by {
        if s.insert(x).map(f).contains(y) {
            let z = choose|z: Seq<char>| s.insert(x).contains(z) && f(z) == y;
            if z != x {
                assert(s.contains(z));
            }
        }
        if s.map(f).contains(y) {
            let z = choose|z: Seq<char>| s.contains(z) && f(z) == y;
            assert(s.insert(x).contains(z));
        }
        if y == f(x) {
            assert(s.insert(x).contains(x));
        }
    }
    assert(s.insert(x).map(f) =~= s.map(f).insert(f(x)));
}

/// True when `s` is in the list.
pub fn contains_str(v: &Vec<String>, s: &str) -> (res: bool)
    ensures
        res == strs(v@).contains(s@),
{
    let mut i: usize = 0;
    while i < v.len()
        invariant
            i <= v@.len(),
            forall|k: int| 0 <= k < i ==> strs(v@)[k] != s@,
        decreases v@.len() - i,
    {
        if str_eq(v[i].as_str(), s) {
            assert(strs(v@)[i as int] == s@);
            return true;
        }
        i = i + 1;
    }
    false
}

/// `v` with each run of equal neighbours reduced to one entry.
pub fn dedup_strings(v: Vec<String>) -> (res: Vec<String>)
    ensures
        strs(res@) == dedup(strs(v@)),
{
    let mut out: Vec<String> = Vec::new();
    let mut i: usize = 0;
    proof {
        assert(strs(v@).take(0) =~= Seq::<Seq<char>>::empty());
        assert(strs(out@) =~= Seq::<Seq<char>>::empty());
    }
    while i < v.len()
        invariant
            i <= v@.len(),
            strs(out@) == dedup(strs(v@).take(i as int)),
        decreases v@.len() - i,
    {
        let ghost sv = strs(v@);
        let ghost prefix = sv.take(i + 1);
        proof {
            assert(prefix.drop_last() =~= sv.take(i as int));
            assert(prefix.last() == sv[i as int]);
            if i >= 1 {
                assert(prefix[prefix.len() - 2] == sv[i - 1]);
            }
        }
        if i == 0 || !str_eq(v[i].as_str(), v[i - 1].as_str()) {
            proof {
                if i == 0 {
                    assert(prefix =~= seq![sv[0]]);
                }
            }
            out.push(v[i].clone());
            proof {
                assert(strs(out@) =~= dedup(sv.take(i as int)).push(sv[i as int]));
            }
        }
        i = i + 1;
    }
    proof {
        assert(strs(v@).take(v@.len() as int) =~= strs(v@));
    }
    out
}

/// Joins the strings with `sep` between them.
pub fn join_strings(v: &Vec<String>, sep: &str) -> (res: String)
    ensures
        res@ == join(strs(v@), sep@),
{
    let mut res = String::new();
    let mut i: usize = 0;
    proof {
        assert(strs(v@).take(0) =~= Seq::<Seq<char>>::empty());
    }
    while i < v.len()
        invariant
            i <= v@.len(),
            res@ == join(strs(v@).take(i as int), sep@),
        decreases v@.len() - i,
    {
        let ghost sv = strs(v@);
        proof {
            assert(sv.take(i + 1).drop_last() =~= sv.take(i as int));
            assert(sv.take(i + 1).last() == sv[i as int]);
        }
        if i > 0 {
            res.append(sep);
        } else {
            proof {
                assert(sv.take(1) =~= seq![sv[0]]);
                assert(res@ =~= Seq::<char>::empty());
            }
        }
        res.append(v[i].as_str());
        proof {
            if i == 0 {
                assert(res@ =~= sv[0]);
            }
        }
        i = i + 1;
    }
    proof {
        assert(strs(v@).take(v@.len() as int) =~= strs(v@));
    }
    res
}

impl Exclusions {
    /// Excluded category entries.
    pub open spec fn cats(&self) -> Seq<Seq<char>> {
        strs(self.categories@)
    }

    /// Excluded budget entries.
    pub open spec fn buds(&self) -> Seq<Seq<char>> {
        strs(self.budgets@)
    }

    pub fn new(categories: Vec<String>, budgets: Vec<String>) -> (res: Exclusions)
        ensures
            res.categories@ == categories@,
            res.budgets@ == budgets@,
    {
        Exclusions { categories, budgets }
    }

    /// True when nothing is excluded.
    pub fn is_empty(&self) -> (res: bool)
        ensures
            res == (self.categories@.len() == 0 && self.budgets@.len() == 0),
    {
        self.categories.len() == 0 && self.budgets.len() == 0
    }

    /// The two exclusion lists, each appended to the other and with runs of
    /// equal neighbours reduced to one entry.
    pub fn union(&self, other: &Exclusions) -> (res: Exclusions)
        ensures
            res.cats() == dedup(self.cats() + other.cats()),
            res.buds() == dedup(self.buds() + other.buds()),
    {
        let mut categories = self.categories.clone();
        let mut more = other.categories.clone();
        categories.append(&mut more);
        proof {
            assert(strs(categories@) =~= self.cats() + other.cats());
        }
        let categories = dedup_strings(categories);
        let mut budgets = self.budgets.clone();
        let mut more_b = other.budgets.clone();
        budgets.append(&mut more_b);
        proof {
            assert(strs(budgets@) =~= self.buds() + other.buds());
        }
        let budgets = dedup_strings(budgets);
        Exclusions::new(categories, budgets)
    }

    /// True when the journal's category is excluded. `full_category` is the
    /// Firefly category name, e.g. `"Work Expenses"` or
    /// `"Work Expenses:Reimbursed"`.
    pub fn is_category_excluded(&self, full_category: &str) -> (res: bool)
        ensures
            res == category_excluded(self.cats(), full_category@),
    {
        if full_category.unicode_len() == 0 || self.categories.len() == 0 {
            return false;
        }
        if contains_str(&self.categories, full_category) {
            return true;
        }
        let parent = first_segment_of(full_category, ':');
        contains_str(&self.categories, parent.as_str())
    }

    /// True when the journal's budget is excluded.
    pub fn is_budget_excluded(&self, budget_name: &str) -> (res: bool)
        ensures
            res == self.buds().contains(budget_name@),
    {
        if self.budgets.len() == 0 {
            return false;
        }
        contains_str(&self.budgets, budget_name)
    }

    /// True when a journal entry should be dropped from aggregation: its
    /// category or its budget is excluded.
    pub fn is_journal_excluded(&self, category_name: Option<&str>, budget_name: Option<&str>) -> (res: bool)
        ensures
            res == ((category_name matches Some(c) && category_excluded(self.cats(), c@))
                || (budget_name matches Some(b) && self.buds().contains(b@))),
    {
        let category_hit = match category_name {
            Some(c) => self.is_category_excluded(c),
            None => false,
        };
        let budget_hit = match budget_name {
            Some(b) => self.is_budget_excluded(b),
            None => false,
        };
        category_hit || budget_hit
    }

    /// Stable, compact representation used as part of cache keys. Empty when
    /// nothing is excluded, so that cache keys stay identical to the keys
    /// made without exclusions.
    pub fn cache_key(&self) -> (res: String)
        ensures
            res@ == cache_key_text(self.cats(), self.buds()),
            (self.categories@.len() > 0 || self.budgets@.len() > 0) ==> res@.len() > 0,
    {
        if self.is_empty() {
            return String::new();
        }
        let mut parts: Vec<String> = Vec::new();
        let ghost cats = self.cats();
        let ghost buds = self.buds();
        let mut i: usize = 0;
        while i < self.categories.len()
            invariant
                cats == self.cats(),
                i <= self.categories@.len(),
                strictly_sorted(strs(parts@)),
                strs(parts@).to_set() == cats.take(i as int).to_set().map(|c: Seq<char>| "c="@ + c),
            decreases self.categories@.len() - i,
        {
            let mut p = String::from_str("c=");
            p.append(self.categories[i].as_str());
            proof {
                reveal_strlit("c=");
            }
            let ghost before = strs(parts@).to_set();
            let ghost pv = p@;
            insert_sorted(&mut parts, p);
            proof {
                assert(cats.take(i + 1) =~= cats.take(i as int).push(cats[i as int]));
                cats.take(i as int).lemma_push_to_set_commute(cats[i as int]);
                assert(pv == "c="@ + cats[i as int]);
                lemma_map_insert(cats.take(i as int).to_set(), cats[i as int], |c: Seq<char>| "c="@ + c);
                assert(strs(parts@).to_set() =~= cats.take(i + 1).to_set().map(|c: Seq<char>| "c="@ + c));
            }
            i = i + 1;
        }
        let ghost cat_parts = strs(parts@).to_set();
        proof {
            assert(cats.take(cats.len() as int) =~= cats);
        }
        let mut j: usize = 0;
        while j < self.budgets.len()
            invariant
                buds == self.buds(),
                j <= self.budgets@.len(),
                strictly_sorted(strs(parts@)),
                strs(parts@).to_set() == cat_parts.union(buds.take(j as int).to_set().map(|b: Seq<char>| "b="@ + b)),
            decreases self.budgets@.len() - j,
        {
            let mut p = String::from_str("b=");
            p.append(self.budgets[j].as_str());
            proof {
                reveal_strlit("b=");
            }
            let ghost pv = p@;
            insert_sorted(&mut parts, p);
            proof {
                assert(buds.take(j + 1) =~= buds.take(j as int).push(buds[j as int]));
                buds.take(j as int).lemma_push_to_set_commute(buds[j as int]);
                assert(pv == "b="@ + buds[j as int]);
                lemma_map_insert(buds.take(j as int).to_set(), buds[j as int], |b: Seq<char>| "b="@ + b);
                assert(strs(parts@).to_set() =~= cat_parts.union(buds.take(j + 1).to_set().map(|b: Seq<char>| "b="@ + b)));
            }
            j = j + 1;
        }
        proof {
            assert(buds.take(buds.len() as int) =~= buds);
            let l0 = strs(parts@);
            assert(l0.to_set() == cache_key_parts(cats, buds));
            let l1 = choose|l: Seq<Seq<char>>| strictly_sorted(l) && l.to_set() == cache_key_parts(cats, buds);
            lemma_sorted_unique(l0, l1);
            // Some part exists, and every part is at least two characters long.
            reveal_strlit("c=");
            reveal_strlit("b=");
            let some = if cats.len() > 0 {
                assert(cats.to_set().contains(cats[0]));
                assert(cats.to_set().map(|c: Seq<char>| "c="@ + c).contains("c="@ + cats[0]));
                "c="@ + cats[0]
            } else {
                assert(buds.to_set().contains(buds[0]));
                assert(buds.to_set().map(|b: Seq<char>| "b="@ + b).contains("b="@ + buds[0]));
                "b="@ + buds[0]
            };
            assert(l0.to_set().contains(some));
            assert(l0.len() > 0);
            assert(l0.to_set().contains(l0.last()));
            assert(cache_key_parts(cats, buds).contains(l0.last()));
            if cats.to_set().map(|c: Seq<char>| "c="@ + c).contains(l0.last()) {
                let c = choose|c: Seq<char>| cats.to_set().contains(c) && "c="@ + c == l0.last();
                assert(l0.last().len() >= 2);
            } else {
                let b = choose|b: Seq<char>| buds.to_set().contains(b) && "b="@ + b == l0.last();
                assert(l0.last().len() >= 2);
            }
            lemma_join_len(l0, "&"@);
        }
        join_strings(&parts, "&")
    }
}

impl Default for Exclusions {
    fn default() -> (res: Exclusions)
        ensures
            res.categories@.len() == 0,
            res.budgets@.len() == 0,
    {
        Exclusions { categories: Vec::new(), budgets: Vec::new() }
    }
}

/// Exclusions depend only on which names are listed: two sets of exclusions
/// that list the same category names and the same budget names, in any
/// order and with any repeats, give the same cache key.
pub proof fn lemma_cache_key_depends_on_sets(a: &Exclusions, b: &Exclusions)
    requires
        a.cats().to_set() == b.cats().to_set(),
        a.buds().to_set() == b.buds().to_set(),
    ensures
        cache_key_text(a.cats(), a.buds()) == cache_key_text(b.cats(), b.buds()),
{
    if a.cats().len() == 0 && a.buds().len() == 0 {
        if b.cats().len() > 0 {
            assert(b.cats().to_set().contains(b.cats()[0]));
        }
        if b.buds().len() > 0 {
            assert(b.buds().to_set().contains(b.buds()[0]));
        }
    } else if b.cats().len() == 0 && b.buds().len() == 0 {
        if a.cats().len() > 0 {
            assert(a.cats().to_set().contains(a.cats()[0]));
        }
        if a.buds().len() > 0 {
            assert(a.buds().to_set().contains(a.buds()[0]));
        }
    } else {
        assert(cache_key_parts(a.cats(), a.buds()) == cache_key_parts(b.cats(), b.buds()));
    }
}

/// Reducing runs of equal neighbours keeps exactly the same names.
pub proof fn lemma_dedup_members(s: Seq<Seq<char>>, x: Seq<char>)
    ensures
        dedup(s).contains(x) <==> s.contains(x),
    decreases s.len(),
{
    if s.len() > 1 {
        let init = s.drop_last();
        lemma_dedup_members(init, x);
        let d = dedup(init);
        let last_dup = s.last() == s[s.len() - 2];
        assert(dedup(s) == if last_dup { d } else { d.push(s.last()) });
        // d's members are init's members.
        if s.contains(x) {
            let k = choose|k: int| 0 <= k < s.len() && s[k] == x;
            if k < s.len() - 1 || last_dup {
                let m = if k < s.len() - 1 { k } else { s.len() - 2 };
                assert(init[m] == x);
                assert(init.contains(x));
                assert(d.contains(x));
                let w = choose|w: int| 0 <= w < d.len() && d[w] == x;
                if !last_dup {
                    assert(d.push(s.last())[w] == x);
                }
                assert(dedup(s)[w] == x);
            } else {
                assert(d.push(s.last())[d.len() as int] == x);
            }
            assert(dedup(s).contains(x));
        }
        if dedup(s).contains(x) {
            let k = choose|k: int| 0 <= k < dedup(s).len() && dedup(s)[k] == x;
            if last_dup || k < d.len() {
                assert(d[k] == x);
                assert(d.contains(x));
                assert(init.contains(x));
                let m = choose|m: int| 0 <= m < init.len() && init[m] == x;
                assert(s[m] == x);
            } else {
                assert(s[s.len() - 1] == x);
            }
            assert(s.contains(x));
        }
    }
}

/// Nothing is excluded by empty exclusions.
pub proof fn lemma_empty_excludes_nothing(ex: Exclusions, category: Seq<char>, budget: Seq<char>)
    requires
        ex.categories@.len() == 0,
        ex.budgets@.len() == 0,
    ensures
        !category_excluded(ex.cats(), category),
        !ex.buds().contains(budget),
{
    if ex.cats().contains(category) {
        let k = choose|k: int| 0 <= k < ex.cats().len() && ex.cats()[k] == category;
    }
    if ex.cats().contains(first_segment(category, ':')) {
        let k = choose|k: int| 0 <= k < ex.cats().len() && ex.cats()[k] == first_segment(category, ':');
    }
    if ex.buds().contains(budget) {
        let k = choose|k: int| 0 <= k < ex.buds().len() && ex.buds()[k] == budget;
    }
}

/// The union of two sets of exclusions lists exactly the names either
/// lists, so it excludes exactly what either excludes.
pub proof fn lemma_union_excludes_either(a: Exclusions, b: Exclusions, u: Exclusions, name: Seq<char>)
    requires
        u.cats() == dedup(a.cats() + b.cats()),
        u.buds() == dedup(a.buds() + b.buds()),
    ensures
        u.cats().contains(name) <==> (a.cats().contains(name) || b.cats().contains(name)),
        u.buds().contains(name) <==> (a.buds().contains(name) || b.buds().contains(name)),
        category_excluded(u.cats(), name) <==> (category_excluded(a.cats(), name) || category_excluded(b.cats(), name)),
{
    lemma_dedup_members(a.cats() + b.cats(), name);
    lemma_dedup_members(a.buds() + b.buds(), name);
    lemma_dedup_members(a.cats() + b.cats(), first_segment(name, ':'));
    lemma_concat_members(a.cats(), b.cats(), name);
    lemma_concat_members(a.buds(), b.buds(), name);
    lemma_concat_members(a.cats(), b.cats(), first_segment(name, ':'));
}

proof fn lemma_concat_members(a: Seq<Seq<char>>, b: Seq<Seq<char>>, x: Seq<char>)
    ensures
        (a + b).contains(x) <==> (a.contains(x) || b.contains(x)),
{
    if (a + b).contains(x) {
        let k = choose|k: int| 0 <= k < (a + b).len() && (a + b)[k] == x;
        if k < a.len() {
            assert(a[k] == x);
        } else {
            assert(b[k - a.len()] == x);
        }
    }
    if a.contains(x) {
        let k = choose|k: int| 0 <= k < a.len() && a[k] == x;
        assert((a + b)[k] == x);
    }
    if b.contains(x) {
        let k = choose|k: int| 0 <= k < b.len() && b[k] == x;
        assert((a + b)[a.len() + k] == x);
    }
}

/// A join is at least as long as its last entry.
proof fn lemma_join_len(l: Seq<Seq<char>>, sep: Seq<char>)
    requires
        l.len() > 0,
    ensures
        join(l, sep).len() >= l.last().len(),
{
}

} // verus!
