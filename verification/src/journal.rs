//! Firefly III journal entries (the splits of a transaction) and how each
//! one is classified: earned, spent, excluded, and the chart bucket it
//! belongs to.

use vstd::prelude::*;
use crate::exclusions::{Exclusions, category_excluded, contains_str};
use crate::order::strs;
use crate::text::str_eq;

verus! {

/// The fields of a journal entry that the dashboard reads. Each is the text
/// of the JSON field, or `None` when the field is absent or not a string.
#[derive(Debug)]
pub struct Journal {
    pub journal_type: Option<String>,
    pub source_id: Option<String>,
    pub destination_id: Option<String>,
    pub source_name: Option<String>,
    pub destination_name: Option<String>,
    pub category_id: Option<String>,
    pub category_name: Option<String>,
    pub budget_name: Option<String>,
    pub amount: Option<String>,
    pub date: Option<String>,
    pub description: Option<String>,
    pub currency_symbol: Option<String>,
    pub currency_code: Option<String>,
}

/// A transaction: its id and its journal entries (none when the JSON has
/// no `attributes.transactions` array).
#[derive(Debug)]
pub struct Transaction {
    pub id: Option<String>,
    pub journals: Vec<Journal>,
}

/// A copy of an optional string.
pub fn clone_opt(o: &Option<String>) -> (res: Option<String>)
    ensures
        res == *o,
{
    match o {
        Some(s) => Some(s.clone()),
        None => None,
    }
}

impl Clone for Journal {
    fn clone(&self) -> (res: Journal)
        ensures
            res == *self,
    {
        Journal {
            journal_type: clone_opt(&self.journal_type),
            source_id: clone_opt(&self.source_id),
            destination_id: clone_opt(&self.destination_id),
            source_name: clone_opt(&self.source_name),
            destination_name: clone_opt(&self.destination_name),
            category_id: clone_opt(&self.category_id),
            category_name: clone_opt(&self.category_name),
            budget_name: clone_opt(&self.budget_name),
            amount: clone_opt(&self.amount),
            date: clone_opt(&self.date),
            description: clone_opt(&self.description),
            currency_symbol: clone_opt(&self.currency_symbol),
            currency_code: clone_opt(&self.currency_code),
        }
    }
}

/// A copy of a list of journals.
pub fn clone_journals(v: &Vec<Journal>) -> (res: Vec<Journal>)
    ensures
        res@ == v@,
{
    let mut out: Vec<Journal> = Vec::new();
    let mut i: usize = 0;
    while i < v.len()
        invariant
            i <= v@.len(),
            out@ == v@.take(i as int),
        decreases v@.len() - i,
    {
        out.push(v[i].clone());
        proof { assert(v@.take(i + 1) =~= v@.take(i as int).push(v@[i as int])); }
        i = i + 1;
    }
    proof { assert(v@.take(v@.len() as int) =~= v@); }
    out
}

impl Clone for Transaction {
    fn clone(&self) -> (res: Transaction)
        ensures
            res.id == self.id,
            res.journals@ == self.journals@,
    {
        let journals = clone_journals(&self.journals);
        Transaction { id: clone_opt(&self.id), journals }
    }
}

/// The text of an optional field, empty when absent.
pub open spec fn or_empty(o: Option<String>) -> Seq<char> {
    match o {
        Some(s) => s@,
        None => Seq::empty(),
    }
}

/// The text of an optional field.
pub open spec fn opt_view(o: Option<String>) -> Option<Seq<char>> {
    match o {
        Some(s) => Some(s@),
        None => None,
    }
}

/// The text of an optional field, empty when absent.
pub fn text_or_empty(o: &Option<String>) -> (res: &str)
    ensures
        res@ == or_empty(*o),
{
    proof { reveal_strlit(""); }
    match o {
        Some(s) => s.as_str(),
        None => "",
    }
}

/// The category and budget a journal is matched against exclusions with;
/// an empty budget name counts as none.
pub open spec fn exclusion_names(j: Journal) -> (Option<Seq<char>>, Option<Seq<char>>) {
    (
        opt_view(j.category_name),
        match j.budget_name {
            Some(b) => if b@.len() > 0 { Some(b@) } else { None },
            None => None,
        },
    )
}

/// The journal's category or budget is excluded.
pub open spec fn journal_excluded(ex: Exclusions, j: Journal) -> bool {
    let (c, b) = exclusion_names(j);
    (c matches Some(cv) && category_excluded(ex.cats(), cv)) || (b matches Some(bv) && ex.buds().contains(bv))
}

/// The (category, budget) names of a journal for exclusion matching.
pub fn journal_exclusion_names(j: &Journal) -> (res: (Option<&str>, Option<&str>))
    ensures
        (match res.0 { Some(s) => Some(s@), None => None }) == exclusion_names(*j).0,
        (match res.1 { Some(s) => Some(s@), None => None }) == exclusion_names(*j).1,
{
    let category = match &j.category_name {
        Some(c) => Some(c.as_str()),
        None => None,
    };
    let budget = match &j.budget_name {
        Some(b) => if b.as_str().unicode_len() > 0 { Some(b.as_str()) } else { None },
        None => None,
    };
    (category, budget)
}

/// True when the journal must be dropped because its category or budget is
/// excluded.
pub fn journal_is_excluded(ex: &Exclusions, j: &Journal) -> (res: bool)
    ensures
        res == journal_excluded(*ex, *j),
{
    let (category, budget) = journal_exclusion_names(j);
    ex.is_journal_excluded(category, budget)
}

/// The journal counts as spent for the selected accounts, in the sense the
/// spending charts use: withdrawals always; transfers when they leave the
/// selection (with nothing selected, any transfer with a source).
pub open spec fn spent_for_charts(j: Journal, sel: Seq<Seq<char>>) -> bool {
    let t = or_empty(j.journal_type);
    let src = or_empty(j.source_id);
    let dst = or_empty(j.destination_id);
    if t == "withdrawal"@ {
        true
    } else if t == "transfer"@ {
        if sel.len() == 0 {
            src.len() > 0
        } else {
            sel.contains(src) && !sel.contains(dst)
        }
    } else {
        false
    }
}

/// The journal counts as earned for the selected accounts: deposits from
/// outside the selection, and transfers into it from outside.
pub open spec fn counts_earned(j: Journal, sel: Seq<Seq<char>>) -> bool {
    let t = or_empty(j.journal_type);
    let src = or_empty(j.source_id);
    let dst = or_empty(j.destination_id);
    if t == "deposit"@ {
        !sel.contains(src) || sel.len() == 0
    } else if t == "transfer"@ {
        sel.contains(dst) && (!sel.contains(src) || sel.len() == 0)
    } else {
        false
    }
}

/// The journal counts as spent for the selected accounts: withdrawals to
/// outside the selection, and transfers out of it to outside.
pub open spec fn counts_spent(j: Journal, sel: Seq<Seq<char>>) -> bool {
    let t = or_empty(j.journal_type);
    let src = or_empty(j.source_id);
    let dst = or_empty(j.destination_id);
    if t == "withdrawal"@ {
        !sel.contains(dst) || sel.len() == 0
    } else if t == "transfer"@ {
        sel.contains(src) && (!sel.contains(dst) || sel.len() == 0)
    } else {
        false
    }
}

/// Whether a journal counts as spent for the spending charts.
pub fn is_journal_spent(j: &Journal, selected_ids: &Vec<String>) -> (res: bool)
    ensures
        res == spent_for_charts(*j, strs(selected_ids@)),
{
    proof {
        reveal_strlit("withdrawal");
        reveal_strlit("transfer");
    }
    let t = text_or_empty(&j.journal_type);
    let src = text_or_empty(&j.source_id);
    let dst = text_or_empty(&j.destination_id);
    if str_eq(t, "withdrawal") {
        true
    } else if str_eq(t, "transfer") {
        if selected_ids.len() == 0 {
            src.unicode_len() > 0
        } else {
            contains_str(selected_ids, src) && !contains_str(selected_ids, dst)
        }
    } else {
        false
    }
}

/// Whether a journal counts as earned for the selected accounts.
pub fn journal_counts_earned(j: &Journal, selected_ids: &Vec<String>) -> (res: bool)
    ensures
        res == counts_earned(*j, strs(selected_ids@)),
{
    proof {
        reveal_strlit("deposit");
        reveal_strlit("transfer");
    }
    let t = text_or_empty(&j.journal_type);
    let src = text_or_empty(&j.source_id);
    let dst = text_or_empty(&j.destination_id);
    if str_eq(t, "deposit") {
        !contains_str(selected_ids, src) || selected_ids.len() == 0
    } else if str_eq(t, "transfer") {
        contains_str(selected_ids, dst) && (!contains_str(selected_ids, src) || selected_ids.len() == 0)
    } else {
        false
    }
}

/// Whether a journal counts as spent for the selected accounts.
pub fn journal_counts_spent(j: &Journal, selected_ids: &Vec<String>) -> (res: bool)
    ensures
        res == counts_spent(*j, strs(selected_ids@)),
{
    proof {
        reveal_strlit("withdrawal");
        reveal_strlit("transfer");
    }
    let t = text_or_empty(&j.journal_type);
    let src = text_or_empty(&j.source_id);
    let dst = text_or_empty(&j.destination_id);
    if str_eq(t, "withdrawal") {
        !contains_str(selected_ids, dst) || selected_ids.len() == 0
    } else if str_eq(t, "transfer") {
        contains_str(selected_ids, src) && (!contains_str(selected_ids, dst) || selected_ids.len() == 0)
    } else {
        false
    }
}

/// A spent journal (with no accounts selected) whose category or budget
/// matches the work-expense markers.
pub open spec fn work_expense(j: Journal, markers: Exclusions) -> bool {
    counts_spent(j, Seq::empty()) && journal_excluded(markers, j)
}

/// An earned journal (with no accounts selected) whose category matches the
/// reimbursement markers.
pub open spec fn reimbursement(j: Journal, markers: Exclusions) -> bool {
    counts_earned(j, Seq::empty())
        && (exclusion_names(j).0 matches Some(c) && category_excluded(markers.cats(), c))
}

/// True when the journal is a spent journal and its category or budget
/// matches the work-expense markers.
pub fn is_work_expense(j: &Journal, expense_markers: &Exclusions) -> (res: bool)
    ensures
        res == work_expense(*j, *expense_markers),
{
    let selected: Vec<String> = Vec::new();
    proof { assert(strs(selected@) =~= Seq::<Seq<char>>::empty()); }
    if !journal_counts_spent(j, &selected) {
        return false;
    }
    let (category, budget) = journal_exclusion_names(j);
    expense_markers.is_journal_excluded(category, budget)
}

/// True when the journal is an earned journal and its category matches one
/// of the reimbursement markers.
pub fn is_reimbursement(j: &Journal, reimbursement_markers: &Exclusions) -> (res: bool)
    ensures
        res == reimbursement(*j, *reimbursement_markers),
{
    let selected: Vec<String> = Vec::new();
    proof { assert(strs(selected@) =~= Seq::<Seq<char>>::empty()); }
    if !journal_counts_earned(j, &selected) {
        return false;
    }
    let (category, _) = journal_exclusion_names(j);
    reimbursement_markers.is_journal_excluded(category, None)
}

/// How a journal counts toward the earned/spent chart: `(earned, spent)`,
/// both false for an excluded journal.
pub fn earned_spent_class(j: &Journal, selected_ids: &Vec<String>, ex: &Exclusions) -> (res: (bool, bool))
    ensures
        journal_excluded(*ex, *j) ==> res == (false, false),
        !journal_excluded(*ex, *j) ==> res == (counts_earned(*j, strs(selected_ids@)), counts_spent(*j, strs(selected_ids@))),
{
    if journal_is_excluded(ex, j) {
        return (false, false);
    }
    (journal_counts_earned(j, selected_ids), journal_counts_spent(j, selected_ids))
}

/// No journal counts both as earned and as spent, whatever accounts are
/// selected.
pub proof fn lemma_earned_spent_exclusive(j: Journal, sel: Seq<Seq<char>>)
    ensures
        !(counts_earned(j, sel) && counts_spent(j, sel)),
{
    reveal_strlit("deposit");
    reveal_strlit("withdrawal");
    reveal_strlit("transfer");
    let dst = or_empty(j.destination_id);
    if sel.len() == 0 && sel.contains(dst) {
        let k = choose|k: int| 0 <= k < sel.len() && sel[k] == dst;
    }
    assert("deposit"@ != "withdrawal"@) by {
        assert("deposit"@[0] != "withdrawal"@[0]);
    }
    assert("deposit"@ != "transfer"@) by {
        assert("deposit"@[0] != "transfer"@[0]);
    }
    assert("transfer"@ != "withdrawal"@) by {
        assert("transfer"@[0] != "withdrawal"@[0]);
    }
}

/// A transfer between two selected accounts moves money inside the
/// selection: it is neither earned nor spent.
pub proof fn lemma_internal_transfer_neutral(j: Journal, sel: Seq<Seq<char>>)
    requires
        or_empty(j.journal_type) == "transfer"@,
        sel.contains(or_empty(j.source_id)),
        sel.contains(or_empty(j.destination_id)),
    ensures
        !counts_earned(j, sel),
        !counts_spent(j, sel),
{
    reveal_strlit("deposit");
    reveal_strlit("withdrawal");
    reveal_strlit("transfer");
}

/// A journal is never both a work expense and a reimbursement.
pub proof fn lemma_work_expense_not_reimbursement(j: Journal, expense_markers: Exclusions, reimbursement_markers: Exclusions)
    ensures
        !(work_expense(j, expense_markers) && reimbursement(j, reimbursement_markers)),
{
    lemma_earned_spent_exclusive(j, Seq::empty());
}

/// Some journal of some transaction touches one of `ids` (as source or
/// destination).
pub open spec fn involves(tx: Transaction, ids: Seq<Seq<char>>) -> bool {
    exists|k: int| 0 <= k < tx.journals@.len() && ({
        let j = #[trigger] tx.journals@[k];
        (j.source_id matches Some(s) && ids.contains(s@)) || (j.destination_id matches Some(d) && ids.contains(d@))
    })
}

/// True when one of the transaction's journals has a selected account as
/// source or destination.
pub fn transaction_involves_account(tx: &Transaction, account_ids: &Vec<String>) -> (res: bool)
    ensures
        res == involves(*tx, strs(account_ids@)),
{
    let mut k: usize = 0;
    while k < tx.journals.len()
        invariant
            k <= tx.journals@.len(),
            forall|i: int| 0 <= i < k ==> !({
                let j = #[trigger] tx.journals@[i];
                (j.source_id matches Some(s) && strs(account_ids@).contains(s@))
                    || (j.destination_id matches Some(d) && strs(account_ids@).contains(d@))
            }),
        decreases tx.journals@.len() - k,
    {
        let j = &tx.journals[k];
        let source_match = match &j.source_id {
            Some(s) => contains_str(account_ids, s.as_str()),
            None => false,
        };
        let dest_match = match &j.destination_id {
            Some(d) => contains_str(account_ids, d.as_str()),
            None => false,
        };
        if source_match || dest_match {
            return true;
        }
        k = k + 1;
    }
    false
}

/// The transactions that involve one of the accounts, in order; all of them
/// when no account is given.
pub fn transactions_involving(txs: Vec<Transaction>, account_ids: &Vec<String>) -> (res: Vec<Transaction>)
    ensures
        account_ids@.len() == 0 ==> res@ == txs@,
        account_ids@.len() > 0 ==> res@ == txs@.filter(|t: Transaction| involves(t, strs(account_ids@))),
{
    if account_ids.len() == 0 {
        return txs;
    }
    let ghost pred = |t: Transaction| involves(t, strs(account_ids@));
    let mut rest = txs;
    let mut out: Vec<Transaction> = Vec::new();
    let ghost n = rest@.len();
    proof { assert(txs@.take(0).filter(pred) =~= Seq::<Transaction>::empty()); }
    while rest.len() > 0
        invariant
            pred == (|t: Transaction| involves(t, strs(account_ids@))),
            n == txs@.len(),
            rest@.len() <= n,
            rest@ == txs@.skip(n - rest@.len()),
            out@ == txs@.take(n - rest@.len()).filter(pred),
        decreases rest@.len(),
    {
        let ghost i = n - rest@.len();
        let t = rest.remove(0);
        proof {
            assert(t == txs@[i]);
            assert(txs@.take(i + 1).drop_last() =~= txs@.take(i));
            assert(rest@ =~= txs@.skip(i + 1));
            reveal_with_fuel(Seq::<Transaction>::filter, 1);
        }
        if transaction_involves_account(&t, account_ids) {
            out.push(t);
        }
    }
    proof { assert(txs@.take(n as int) =~= txs@); }
    out
}

/// All journals of the transactions, in order.
pub open spec fn all_journals(txs: Seq<Transaction>) -> Seq<Journal>
    decreases txs.len(),
{
    if txs.len() == 0 {
        Seq::empty()
    } else {
        all_journals(txs.drop_last()) + txs.last().journals@
    }
}

/// Flattens transactions into their journals, in order.
pub fn flatten_journals(txs: &Vec<Transaction>) -> (res: Vec<Journal>)
    ensures
        res@ == all_journals(txs@),
{
    let mut out: Vec<Journal> = Vec::new();
    let mut i: usize = 0;
    proof { assert(txs@.take(0) =~= Seq::<Transaction>::empty()); }
    while i < txs.len()
        invariant
            i <= txs@.len(),
            out@ == all_journals(txs@.take(i as int)),
        decreases txs@.len() - i,
    {
        proof { assert(txs@.take(i + 1).drop_last() =~= txs@.take(i as int)); }
        let ghost before = out@;
        let mut k: usize = 0;
        while k < txs[i].journals.len()
            invariant
                i < txs@.len(),
                k <= txs@[i as int].journals@.len(),
                out@ == before + txs@[i as int].journals@.take(k as int),
            decreases txs@[i as int].journals@.len() - k,
        {
            let jc = txs[i].journals[k].clone();
            out.push(jc);
            proof {
                assert(txs@[i as int].journals@.take(k + 1) =~= txs@[i as int].journals@.take(k as int).push(txs@[i as int].journals@[k as int]));
            }
            k = k + 1;
        }
        proof {
            assert(txs@[i as int].journals@.take(k as int) =~= txs@[i as int].journals@);
        }
        i = i + 1;
    }
    proof { assert(txs@.take(txs@.len() as int) =~= txs@); }
    out
}

/// The currency of a list of journals: the symbol and code of the first
/// journal that has either.
pub open spec fn first_currency(js: Seq<Journal>) -> (Option<Seq<char>>, Option<Seq<char>>)
    decreases js.len(),
{
    if js.len() == 0 {
        (None, None)
    } else if js[0].currency_symbol is Some || js[0].currency_code is Some {
        (opt_view(js[0].currency_symbol), opt_view(js[0].currency_code))
    } else {
        first_currency(js.drop_first())
    }
}

/// The currency of a list of journals.
pub fn currency_of(js: &Vec<Journal>) -> (res: (Option<String>, Option<String>))
    ensures
        (opt_view(res.0), opt_view(res.1)) == first_currency(js@),
{
    let mut i: usize = 0;
    proof { assert(js@.skip(0) =~= js@); }
    while i < js.len()
        invariant
            i <= js@.len(),
            first_currency(js@) == first_currency(js@.skip(i as int)),
        decreases js@.len() - i,
    {
        proof { assert(js@.skip(i as int).drop_first() =~= js@.skip(i + 1)); }
        if js[i].currency_symbol.is_some() || js[i].currency_code.is_some() {
            return (clone_opt(&js[i].currency_symbol), clone_opt(&js[i].currency_code));
        }
        i = i + 1;
    }
    (None, None)
}

} // verus!
