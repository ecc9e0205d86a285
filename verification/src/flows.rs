//! Money flows: Sankey diagram links and credit-card paydown classification.

use vstd::prelude::*;
use crate::charts::{split_category, expense_series, budget_series, subcategory_series};
use crate::exclusions::contains_str;
use crate::exclusions::Exclusions;
use crate::journal::{
    Journal, or_empty, text_or_empty, spent_for_charts, journal_excluded, is_journal_spent,
    journal_is_excluded,
};
use crate::order::strs;
use crate::text::{first_segment, after_first, trimmed, trim, str_eq, starts_with};

verus! {

/// A single node in a Sankey diagram.
#[derive(Debug, Clone)]
pub struct SankeyNode {
    pub name: String,
}

/// Supported flow groupings for Sankey diagrams.
#[derive(Debug, Clone, Copy, PartialEq, Eq, Structural)]
pub enum SankeyFlowType {
    Budget,
    Category,
    Subcategory,
    Destination,
}

impl SankeyFlowType {
    /// The name of the grouping, as reported with the flow data.
    pub open spec fn label_text(self) -> Seq<char> {
        match self {
            SankeyFlowType::Budget => "budget"@,
            SankeyFlowType::Category => "category"@,
            SankeyFlowType::Subcategory => "subcategory"@,
            SankeyFlowType::Destination => "destination"@,
        }
    }

    /// The name of the grouping.
    pub fn label(&self) -> (res: String)
        ensures
            res@ == self.label_text(),
    {
        proof {
            reveal_strlit("budget");
            reveal_strlit("category");
            reveal_strlit("subcategory");
            reveal_strlit("destination");
        }
        match self {
            SankeyFlowType::Budget => String::from_str("budget"),
            SankeyFlowType::Category => String::from_str("category"),
            SankeyFlowType::Subcategory => String::from_str("subcategory"),
            SankeyFlowType::Destination => String::from_str("destination"),
        }
    }
}

/// A Sankey link key as text.
pub open spec fn pair_view(p: Option<(String, String)>) -> Option<(Seq<char>, Seq<char>)> {
    match p {
        Some((a, b)) => Some((a@, b@)),
        None => None,
    }
}

/// An optional list of names as text.
pub open spec fn names_view(f: Option<&Vec<String>>) -> Option<Seq<Seq<char>>> {
    match f {
        Some(v) => Some(strs(v@)),
        None => None,
    }
}

/// Destination flow: journals from a selected source account, not excluded,
/// with both a source and a destination name, link source name to
/// destination name.
pub open spec fn destination_link(j: Journal, sources: Seq<Seq<char>>, ex: Exclusions) -> Option<(Seq<char>, Seq<char>)> {
    let src = or_empty(j.source_name);
    let dst = or_empty(j.destination_name);
    if journal_excluded(ex, j) || !sources.contains(or_empty(j.source_id)) || dst.len() == 0 || src.len() == 0 {
        None
    } else {
        Some((src, dst))
    }
}

/// The (source name, destination name) link a journal adds to the
/// destination flow.
pub fn sankey_destination_link(j: &Journal, sources: &Vec<String>, ex: &Exclusions) -> (res: Option<(String, String)>)
    ensures
        pair_view(res) == destination_link(*j, strs(sources@), *ex),
{
    if journal_is_excluded(ex, j) {
        return None;
    }
    if !contains_str(sources, text_or_empty(&j.source_id)) {
        return None;
    }
    let src = text_or_empty(&j.source_name);
    let dst = text_or_empty(&j.destination_name);
    if dst.unicode_len() == 0 || src.unicode_len() == 0 {
        return None;
    }
    Some((String::from_str(src), String::from_str(dst)))
}

/// The name passes an optional filter.
pub open spec fn passes(filter: Option<Seq<Seq<char>>>, name: Seq<char>) -> bool {
    match filter {
        Some(f) => f.contains(name),
        None => true,
    }
}

/// Budget flow: spent, not excluded journals with a source name link the
/// source name to the budget name (`"Unbudgeted"` when absent), when the
/// budget passes the filter.
pub open spec fn budget_link(j: Journal, sources: Seq<Seq<char>>, filter: Option<Seq<Seq<char>>>, ex: Exclusions) -> Option<(Seq<char>, Seq<char>)> {
    let src = or_empty(j.source_name);
    let budget = match j.budget_name {
        Some(b) => b@,
        None => "Unbudgeted"@,
    };
    if journal_excluded(ex, j) || !spent_for_charts(j, sources) || src.len() == 0 || !passes(filter, budget) {
        None
    } else {
        Some((src, budget))
    }
}

/// Law: the budget filter only removes links. A link made under a filter
/// targets a budget the filter lists and is the link made without a
/// filter; a link made without a filter whose budget the filter lists is
/// kept unchanged; an excluded journal links nothing under any filter.
pub proof fn lemma_budget_filter(j: Journal, sources: Seq<Seq<char>>, f: Seq<Seq<char>>, ex: Exclusions)
    ensures
        budget_link(j, sources, Some(f), ex) matches Some((_, b)) ==> f.contains(b),
        budget_link(j, sources, Some(f), ex) is Some
            ==> budget_link(j, sources, Some(f), ex) == budget_link(j, sources, None, ex),
        (budget_link(j, sources, None, ex) matches Some((_, b)) && f.contains(b))
            ==> budget_link(j, sources, Some(f), ex) == budget_link(j, sources, None, ex),
        budget_link(j, sources, None, ex) is None ==> budget_link(j, sources, Some(f), ex) is None,
        journal_excluded(ex, j) ==> budget_link(j, sources, Some(f), ex) is None
            && budget_link(j, sources, None, ex) is None,
        budget_link(j, sources, None, ex) matches Some((s, _)) ==> s.len() > 0,
{
}

fn passes_filter(filter: Option<&Vec<String>>, name: &str) -> (res: bool)
    ensures
        res == passes(names_view(filter), name@),
{
    match filter {
        Some(f) => contains_str(f, name),
        None => true,
    }
}

/// The (source name, budget) link a journal adds to the budget flow.
pub fn sankey_budget_link(j: &Journal, sources: &Vec<String>, budget_filter: Option<&Vec<String>>, ex: &Exclusions) -> (res: Option<(String, String)>)
    ensures
        pair_view(res) == budget_link(*j, strs(sources@), names_view(budget_filter), *ex),
{
    proof { reveal_strlit("Unbudgeted"); }
    if journal_is_excluded(ex, j) {
        return None;
    }
    if !is_journal_spent(j, sources) {
        return None;
    }
    let src = text_or_empty(&j.source_name);
    if src.unicode_len() == 0 {
        return None;
    }
    let budget = match &j.budget_name {
        Some(b) => b.as_str(),
        None => "Unbudgeted",
    };
    if !passes_filter(budget_filter, budget) {
        return None;
    }
    Some((String::from_str(src), String::from_str(budget)))
}

/// The main category of a journal for flows: the trimmed part before the
/// first `:`, `"Uncategorized"` when that is empty.
pub open spec fn main_category(j: Journal) -> Seq<char> {
    let p = trimmed(first_segment(or_empty(j.category_name), ':'));
    if p.len() == 0 { "Uncategorized"@ } else { p }
}

/// The `"Parent > Sub"` name of a journal's category for flows; the
/// subcategory is `"Other"` when missing or blank.
pub open spec fn sub_category(j: Journal) -> Seq<char> {
    let sub = match after_first(or_empty(j.category_name), ':') {
        Some(r) => if trimmed(r).len() > 0 { trimmed(r) } else { "Other"@ },
        None => "Other"@,
    };
    main_category(j) + " > "@ + sub
}

/// Category flow: spent, not excluded journals with a source name link the
/// source name to their main category, when it passes the filter.
pub open spec fn category_link(j: Journal, sources: Seq<Seq<char>>, filter: Option<Seq<Seq<char>>>, ex: Exclusions) -> Option<(Seq<char>, Seq<char>)> {
    let src = or_empty(j.source_name);
    if journal_excluded(ex, j) || !spent_for_charts(j, sources) || src.len() == 0 || !passes(filter, main_category(j)) {
        None
    } else {
        Some((src, main_category(j)))
    }
}

/// Subcategory flow: as the category flow, with `"Parent > Sub"` names.
pub open spec fn subcategory_link(j: Journal, sources: Seq<Seq<char>>, filter: Option<Seq<Seq<char>>>, ex: Exclusions) -> Option<(Seq<char>, Seq<char>)> {
    let src = or_empty(j.source_name);
    if journal_excluded(ex, j) || !spent_for_charts(j, sources) || src.len() == 0 || !passes(filter, sub_category(j)) {
        None
    } else {
        Some((src, sub_category(j)))
    }
}

/// Law: a journal that the exclusions drop feeds no chart built from
/// transactions: it joins no expense, budget or subcategory series, and
/// makes no Sankey link of any kind, whatever the accounts and filters.
pub proof fn lemma_excluded_journal_feeds_nothing(
    j: Journal,
    sel: Seq<Seq<char>>,
    ex: Exclusions,
    parent_mode: bool,
    parents: Seq<Seq<char>>,
    subcats: Seq<Seq<char>>,
    filter: Option<Seq<Seq<char>>>,
)
    requires
        journal_excluded(ex, j),
    ensures
        expense_series(j, sel, ex, parent_mode) is None,
        budget_series(j, sel, ex) is None,
        subcategory_series(j, sel, ex, parents, subcats, parent_mode) is None,
        destination_link(j, sel, ex) is None,
        budget_link(j, sel, filter, ex) is None,
        category_link(j, sel, filter, ex) is None,
        subcategory_link(j, sel, filter, ex) is None,
{
}

fn main_category_of(j: &Journal) -> (res: String)
    ensures
        res@ == main_category(*j),
{
    proof { reveal_strlit("Uncategorized"); }
    let (p0, _) = split_category(text_or_empty(&j.category_name));
    let p = trim(p0.as_str());
    if p.as_str().unicode_len() == 0 {
        String::from_str("Uncategorized")
    } else {
        p
    }
}

fn sub_category_of(j: &Journal) -> (res: String)
    ensures
        res@ == sub_category(*j),
{
    proof {
        reveal_strlit("Other");
        reveal_strlit(" > ");
    }
    let (_, rest) = split_category(text_or_empty(&j.category_name));
    let sub = match rest {
        Some(r) => {
            let t = trim(r.as_str());
            if t.as_str().unicode_len() > 0 { t } else { String::from_str("Other") }
        },
        None => String::from_str("Other"),
    };
    let mut name = main_category_of(j);
    name.append(" > ");
    name.append(sub.as_str());
    name
}

/// The (source name, main category) link a journal adds to the category flow.
pub fn sankey_category_link(j: &Journal, sources: &Vec<String>, category_filter: Option<&Vec<String>>, ex: &Exclusions) -> (res: Option<(String, String)>)
    ensures
        pair_view(res) == category_link(*j, strs(sources@), names_view(category_filter), *ex),
{
    if journal_is_excluded(ex, j) {
        return None;
    }
    if !is_journal_spent(j, sources) {
        return None;
    }
    let src = text_or_empty(&j.source_name);
    if src.unicode_len() == 0 {
        return None;
    }
    let cat = main_category_of(j);
    if !passes_filter(category_filter, cat.as_str()) {
        return None;
    }
    Some((String::from_str(src), cat))
}

/// The (source name, `"Parent > Sub"`) link a journal adds to the
/// subcategory flow.
pub fn sankey_subcategory_link(j: &Journal, sources: &Vec<String>, subcategory_filter: Option<&Vec<String>>, ex: &Exclusions) -> (res: Option<(String, String)>)
    ensures
        pair_view(res) == subcategory_link(*j, strs(sources@), names_view(subcategory_filter), *ex),
{
    if journal_is_excluded(ex, j) {
        return None;
    }
    if !is_journal_spent(j, sources) {
        return None;
    }
    let src = text_or_empty(&j.source_name);
    if src.unicode_len() == 0 {
        return None;
    }
    let cat = sub_category_of(j);
    if !passes_filter(subcategory_filter, cat.as_str()) {
        return None;
    }
    Some((String::from_str(src), cat))
}

/// How a journal moves money for the credit-card paydown analysis.
#[derive(Debug, Clone, Copy, PartialEq, Eq, Structural)]
pub enum CardFlow {
    /// Between two of the user's cards: no change in total card debt.
    SkipCardToCard,
    /// Into a card from another asset account: a payment.
    Payment,
    /// Into a card from a non-asset account: not a payment.
    SkipIntoCardFromNonAsset,
    /// A card purchase (withdrawal from the card).
    SpendingWithdrawal,
    /// A card purchase routed through an expense or revenue destination.
    SpendingTransfer,
    /// The other side of a payment into the card.
    SkipPaymentReverseSide,
    /// Money out of a card with an unknown journal type.
    SkipUnknownType,
    /// No card on either side.
    SkipNoCard,
    /// An interest charge on the card: money out of the card that would be
    /// spending, with a description starting `"Interest:"`.
    Interest,
}

/// Classification of a journal from whether its source and destination are
/// cards, the account types on both sides and the journal type.
pub open spec fn card_flow(source_is_card: bool, dest_is_card: bool, source_type: Option<Seq<char>>, dest_type: Option<Seq<char>>, journal_type: Seq<char>) -> CardFlow {
    if source_is_card && dest_is_card {
        CardFlow::SkipCardToCard
    } else if dest_is_card {
        if source_type == Some("asset"@) { CardFlow::Payment } else { CardFlow::SkipIntoCardFromNonAsset }
    } else if source_is_card {
        if journal_type == "withdrawal"@ {
            CardFlow::SpendingWithdrawal
        } else if journal_type == "transfer"@ {
            if dest_type == Some("expense"@) || dest_type == Some("revenue"@) {
                CardFlow::SpendingTransfer
            } else {
                CardFlow::SkipPaymentReverseSide
            }
        } else {
            CardFlow::SkipUnknownType
        }
    } else {
        CardFlow::SkipNoCard
    }
}

/// The description marks an interest charge: it starts with `"Interest:"`.
pub open spec fn interest_text(description: Option<Seq<char>>) -> bool {
    description matches Some(t) && t.len() >= 9 && t.subrange(0, 9) == "Interest:"@
}

/// Classification of a journal for the paydown analysis: as `card_flow`,
/// except that what would be card spending is an interest charge when the
/// description marks one.
pub open spec fn card_flow_of(
    source_is_card: bool,
    dest_is_card: bool,
    source_type: Option<Seq<char>>,
    dest_type: Option<Seq<char>>,
    journal_type: Seq<char>,
    description: Option<Seq<char>>,
) -> CardFlow {
    let f = card_flow(source_is_card, dest_is_card, source_type, dest_type, journal_type);
    if (f == CardFlow::SpendingWithdrawal || f == CardFlow::SpendingTransfer) && interest_text(description) {
        CardFlow::Interest
    } else {
        f
    }
}

/// Law: a transfer between a funding asset account and a card counts once.
/// The side flowing into the card from the asset account is a payment; the
/// other side of the same transfer, out of the card into that asset
/// account, is skipped (neither payment, spending nor interest); and money
/// moved between two of the user's cards is skipped, whatever the types and
/// descriptions.
pub proof fn lemma_transfer_counted_once(card_type: Option<Seq<char>>, source_type: Option<Seq<char>>, dest_type: Option<Seq<char>>, journal_type: Seq<char>, description: Option<Seq<char>>)
    ensures
        card_flow_of(false, true, Some("asset"@), card_type, "transfer"@, description) == CardFlow::Payment,
        card_flow_of(true, false, card_type, Some("asset"@), "transfer"@, description) == CardFlow::SkipPaymentReverseSide,
        card_flow_of(true, true, source_type, dest_type, journal_type, description) == CardFlow::SkipCardToCard,
{
    reveal_strlit("asset");
    reveal_strlit("expense");
    reveal_strlit("revenue");
    reveal_strlit("transfer");
    reveal_strlit("withdrawal");
    assert("transfer"@.len() != "withdrawal"@.len());
    assert("asset"@.len() != "expense"@.len());
    assert("asset"@.len() != "revenue"@.len());
}

/// Law: money into a card (from an account that is not one of the user's
/// cards) is a payment exactly when it comes from an asset account,
/// whatever the journal type, the destination's type or the description;
/// nothing else is ever a payment.
pub proof fn lemma_payment_from_asset(
    source_is_card: bool,
    dest_is_card: bool,
    source_type: Option<Seq<char>>,
    dest_type: Option<Seq<char>>,
    journal_type: Seq<char>,
    description: Option<Seq<char>>,
)
    ensures
        card_flow_of(false, true, Some("asset"@), dest_type, journal_type, description) == CardFlow::Payment,
        card_flow_of(source_is_card, dest_is_card, source_type, dest_type, journal_type, description) == CardFlow::Payment
            <==> (!source_is_card && dest_is_card && source_type == Some("asset"@)),
{
}

/// Law: a card purchase is spending unless its description marks an
/// interest charge, in which case it is interest and not spending; a charge
/// is never booked both ways.
pub proof fn lemma_interest_apart_from_spending(card_type: Option<Seq<char>>, dest_type: Option<Seq<char>>, description: Option<Seq<char>>)
    ensures
        card_flow_of(true, false, card_type, dest_type, "withdrawal"@, description)
            == (if interest_text(description) { CardFlow::Interest } else { CardFlow::SpendingWithdrawal }),
{
}

/// The description marks an interest charge.
pub fn is_interest_charge(description: Option<&str>) -> (res: bool)
    ensures
        res == interest_text(match description { Some(d) => Some(d@), None => None }),
{
    proof { reveal_strlit("Interest:"); }
    match description {
        Some(d) => starts_with(d, "Interest:"),
        None => false,
    }
}

fn opt_str_is(o: Option<&str>, s: &str) -> (res: bool)
    ensures
        res == ((match o { Some(x) => Some(x@), None => None }) == Some(s@)),
{
    match o {
        Some(x) => str_eq(x, s),
        None => false,
    }
}

/// Classifies one journal for the paydown analysis.
pub fn classify_card_journal(
    source_is_card: bool,
    dest_is_card: bool,
    source_type: Option<&str>,
    dest_type: Option<&str>,
    journal_type: &str,
    description: Option<&str>,
) -> (res: CardFlow)
    ensures
        res == card_flow_of(source_is_card, dest_is_card,
            match source_type { Some(x) => Some(x@), None => None },
            match dest_type { Some(x) => Some(x@), None => None },
            journal_type@,
            match description { Some(x) => Some(x@), None => None }),
{
    proof {
        reveal_strlit("asset");
        reveal_strlit("withdrawal");
        reveal_strlit("transfer");
        reveal_strlit("expense");
        reveal_strlit("revenue");
    }
    let f = if source_is_card && dest_is_card {
        CardFlow::SkipCardToCard
    } else if dest_is_card {
        if opt_str_is(source_type, "asset") { CardFlow::Payment } else { CardFlow::SkipIntoCardFromNonAsset }
    } else if source_is_card {
        if str_eq(journal_type, "withdrawal") {
            CardFlow::SpendingWithdrawal
        } else if str_eq(journal_type, "transfer") {
            if opt_str_is(dest_type, "expense") || opt_str_is(dest_type, "revenue") {
                CardFlow::SpendingTransfer
            } else {
                CardFlow::SkipPaymentReverseSide
            }
        } else {
            CardFlow::SkipUnknownType
        }
    } else {
        CardFlow::SkipNoCard
    };
    let spending = match f {
        CardFlow::SpendingWithdrawal => true,
        CardFlow::SpendingTransfer => true,
        _ => false,
    };
    if spending && is_interest_charge(description) {
        CardFlow::Interest
    } else {
        f
    }
}

impl CardFlow {
    /// The classification as shown in the debug output.
    pub open spec fn text(self) -> Seq<char> {
        match self {
            CardFlow::SkipCardToCard => "skip(card-to-card)"@,
            CardFlow::Payment => "payment(into card from asset)"@,
            CardFlow::SkipIntoCardFromNonAsset => "skip(into card from non-asset)"@,
            CardFlow::SpendingWithdrawal => "spending(withdrawal)"@,
            CardFlow::SpendingTransfer => "spending(transfer to non-asset)"@,
            CardFlow::SkipPaymentReverseSide => "skip(payment reverse side)"@,
            CardFlow::SkipUnknownType => "skip(unknown_type)"@,
            CardFlow::SkipNoCard => "skip(no card involved)"@,
            CardFlow::Interest => "interest(charge on card)"@,
        }
    }

    /// The classification as shown in the debug output.
    pub fn describe(&self) -> (res: String)
        ensures
            res@ == self.text(),
    {
        proof {
            reveal_strlit("skip(card-to-card)");
            reveal_strlit("payment(into card from asset)");
            reveal_strlit("skip(into card from non-asset)");
            reveal_strlit("spending(withdrawal)");
            reveal_strlit("spending(transfer to non-asset)");
            reveal_strlit("skip(payment reverse side)");
            reveal_strlit("skip(unknown_type)");
            reveal_strlit("skip(no card involved)");
            reveal_strlit("interest(charge on card)");
        }
        match self {
            CardFlow::SkipCardToCard => String::from_str("skip(card-to-card)"),
            CardFlow::Payment => String::from_str("payment(into card from asset)"),
            CardFlow::SkipIntoCardFromNonAsset => String::from_str("skip(into card from non-asset)"),
            CardFlow::SpendingWithdrawal => String::from_str("spending(withdrawal)"),
            CardFlow::SpendingTransfer => String::from_str("spending(transfer to non-asset)"),
            CardFlow::SkipPaymentReverseSide => String::from_str("skip(payment reverse side)"),
            CardFlow::SkipUnknownType => String::from_str("skip(unknown_type)"),
            CardFlow::SkipNoCard => String::from_str("skip(no card involved)"),
            CardFlow::Interest => String::from_str("interest(charge on card)"),
        }
    }

    /// Payments reduce card debt.
    pub fn is_payment(&self) -> (res: bool)
        ensures
            res == (*self == CardFlow::Payment),
    {
        match self {
            CardFlow::Payment => true,
            _ => false,
        }
    }

    /// Interest charges increase card debt, apart from spending.
    pub fn is_interest(&self) -> (res: bool)
        ensures
            res == (*self == CardFlow::Interest),
    {
        match self {
            CardFlow::Interest => true,
            _ => false,
        }
    }

    /// Spending increases card debt.
    pub fn is_spending(&self) -> (res: bool)
        ensures
            res == (*self == CardFlow::SpendingWithdrawal || *self == CardFlow::SpendingTransfer),
    {
        match self {
            CardFlow::SpendingWithdrawal => true,
            CardFlow::SpendingTransfer => true,
            _ => false,
        }
    }
}

/// The month (`"YYYY-MM"`, the first seven characters) of a journal date;
/// `None` for a shorter date.
pub open spec fn month_of_date(date: Seq<char>) -> Option<Seq<char>> {
    if date.len() >= 7 { Some(date.take(7)) } else { None }
}

/// The month key of a journal date.
pub fn journal_month_key(date: &str) -> (res: Option<String>)
    ensures
        (match res { Some(s) => Some(s@), None => None }) == month_of_date(date@),
{
    let v = crate::text::chars_of(date);
    if v.len() >= 7 {
        proof { assert(v@.subrange(0, 7) =~= v@.take(7)); }
        Some(crate::text::string_of_range(v.as_slice(), 0, 7))
    } else {
        None
    }
}

} // verus!
