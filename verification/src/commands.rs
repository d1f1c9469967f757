//! The decisions of the tool's commands: which bank transactions to import
//! and how they look in YNAB, how occurrence numbers continue, how the
//! transaction pages are walked, and the smaller choices of `init`,
//! `accounts` and `auth`.

use vstd::prelude::*;

use crate::cli::{tan_type_name, TanType};
use crate::comdirect::{
    clone_account, extract_holder_name, holder_name_of, Account, AccountTransaction,
    AccountTransactionList, ComdirectCredentials, Session, TanChallenge,
};
use crate::config::{ComdirectConfig, Config, OpConfig, SyncConfig, YnabConfig};
use crate::date::{
    add_days, date_before, date_lt, date_shift, date_text, format_date, lemma_date_text_injective,
    lemma_date_text_without, parse_date_with_format, spec_parse_date, utc_today, valid_date, Date,
};
use crate::decimal::{milli_units, parse_decimal, spec_milli_units, spec_parse_decimal};
use crate::op::is_op_reference;
use crate::state::{
    counter_key, counter_key_text, counters_continue, entry_counter_key, ReferenceEntry, State,
};
use crate::text::{
    i64_text, int_text, is_blank, is_blank_seq, join, join_seq, lemma_int_text_chars,
    lemma_int_text_injective, lemma_nat_text_value, lemma_split_first, nat_text, opt_text, owned,
    replace_line_breaks, replace_line_breaks_seq, str_equal, texts_view, trim, trim_seq, u64_text,
};
use crate::text_map::TextMap;
use crate::ynab::{AccountSummary, BudgetSummary, Transaction, TransactionView};

verus! {

// ---------------------------------------------------------------------------
// Amounts
// ---------------------------------------------------------------------------

/// Why an amount could not be converted.
#[derive(Debug)]
pub enum AmountError {
    /// The text is not a decimal number.
    Invalid(String),
    /// The amount in milliunits does not fit (in a `Decimal` while
    /// multiplying, or in an `i64`).
    NotRepresentable,
}

/// An [`AmountError`] with its text taken by its view.
pub enum AmountErrorView {
    Invalid(Seq<char>),
    NotRepresentable,
}

impl View for AmountError {
    type V = AmountErrorView;

    open spec fn view(&self) -> AmountErrorView {
        match self {
            AmountError::Invalid(s) => AmountErrorView::Invalid(s@),
            AmountError::NotRepresentable => AmountErrorView::NotRepresentable,
        }
    }
}

/// The milliunits of an amount text.
pub open spec fn spec_amount_to_milli(value: Seq<char>) -> Result<i64, AmountErrorView> {
    match spec_parse_decimal(value) {
        None => Err(AmountErrorView::Invalid(value)),
        Some(d) => match spec_milli_units(d) {
            Some(v) => Ok(v),
            None => Err(AmountErrorView::NotRepresentable),
        },
    }
}

/// Converts a decimal amount text (such as `-10.10`) to milliunits
/// (`-10100`), rounding half to even.
pub fn amount_to_milli(value: &str) -> (r: Result<i64, AmountError>)
    ensures
        match spec_amount_to_milli(value@) {
            Ok(v) => r == Ok::<i64, AmountError>(v),
            Err(e) => r matches Err(f) && f@ == e,
        },
{
    match parse_decimal(value) {
        None => Err(AmountError::Invalid(owned(value))),
        Some(d) => match milli_units(d) {
            Some(v) => Ok(v),
            None => Err(AmountError::NotRepresentable),
        },
    }
}

// ---------------------------------------------------------------------------
// Occurrence counters
// ---------------------------------------------------------------------------

/// The count under `k`, zero when there is none.
pub open spec fn counter_value(m: Map<Seq<char>, u32>, k: Seq<char>) -> int {
    if m.contains_key(k) {
        m[k] as int
    } else {
        0
    }
}

/// The next occurrence number of `amount_milli` on `date`, which is then
/// counted.
pub fn next_occurrence(counters: &mut TextMap<u32>, date: Date, amount_milli: i64) -> (n: u32)
    requires
        counter_value(old(counters)@, counter_key_text(date, amount_milli)) < u32::MAX,
    ensures
        n == counter_value(old(counters)@, counter_key_text(date, amount_milli)) + 1,
        final(counters)@ == old(counters)@.insert(counter_key_text(date, amount_milli), n),
{
    let key = counter_key(date, amount_milli);
    let current: u32 = match counters.get(&key) {
        Some(v) => *v,
        None => 0,
    };
    let next = current + 1;
    counters.insert(key, next);
    next
}

// ---------------------------------------------------------------------------
// Payee, reference key, memo, import id
// ---------------------------------------------------------------------------

/// The payee of a transaction: the first party with a holder name among
/// creditor, debtor, `deptor` and remitter.
pub open spec fn payee_of(tx: AccountTransaction) -> Option<Seq<char>> {
    if holder_name_of(tx.creditor) is Some {
        holder_name_of(tx.creditor)
    } else if holder_name_of(tx.debtor) is Some {
        holder_name_of(tx.debtor)
    } else if holder_name_of(tx.deptor) is Some {
        holder_name_of(tx.deptor)
    } else {
        holder_name_of(tx.remitter)
    }
}

pub fn pick_payee_name(tx: &AccountTransaction) -> (r: Option<String>)
    ensures
        opt_text(r) == payee_of(*tx),
{
    let creditor = extract_holder_name(&tx.creditor);
    if creditor.is_some() {
        return creditor;
    }
    let debtor = extract_holder_name(&tx.debtor);
    if debtor.is_some() {
        return debtor;
    }
    let deptor = extract_holder_name(&tx.deptor);
    if deptor.is_some() {
        return deptor;
    }
    extract_holder_name(&tx.remitter)
}

/// The key that identifies a bank transaction across syncs: its trimmed
/// reference when it has a non-blank one, else
/// `<date>|<amount>|<remittance info with line breaks as spaces>`.
pub open spec fn reference_key_text(tx: AccountTransaction, date: Date, amount_milli: i64) -> Seq<
    char,
> {
    match tx.reference {
        Some(r) if !is_blank_seq(r@) => trim_seq(r@),
        _ => {
            let memo = match tx.remittance_info {
                Some(m) => replace_line_breaks_seq(m@),
                None => Seq::empty(),
            };
            date_text(date) + "|"@ + int_text(amount_milli as int) + "|"@ + memo
        },
    }
}

pub fn build_reference_key(tx: &AccountTransaction, date: Date, amount_milli: i64) -> (r: String)
    ensures
        r@ == reference_key_text(*tx, date, amount_milli),
{
    if let Some(reference) = &tx.reference {
        if !is_blank(reference.as_str()) {
            return trim(reference.as_str());
        }
    }
    let memo = match &tx.remittance_info {
        Some(m) => replace_line_breaks(m.as_str()),
        None => String::new(),
    };
    let mut r = format_date(date);
    r.append("|");
    let a = i64_text(amount_milli);
    r.append(a.as_str());
    r.append("|");
    r.append(memo.as_str());
    r
}

/// The non-blank parts of a memo: the remittance info, then the text of the
/// transaction type, each trimmed.
pub open spec fn memo_parts(tx: AccountTransaction) -> Seq<Seq<char>> {
    let first: Seq<Seq<char>> = match tx.remittance_info {
        Some(info) => if is_blank_seq(info@) {
            Seq::empty()
        } else {
            seq![trim_seq(info@)]
        },
        None => Seq::empty(),
    };
    let second: Seq<Seq<char>> = match tx.transaction_type {
        Some(t) => match t.text {
            Some(text) => if is_blank_seq(text@) {
                Seq::empty()
            } else {
                seq![trim_seq(text@)]
            },
            None => Seq::empty(),
        },
        None => Seq::empty(),
    };
    first + second
}

/// The memo of a transaction: its parts joined with ` | `, none without
/// parts.
pub open spec fn memo_of(tx: AccountTransaction) -> Option<Seq<char>> {
    if memo_parts(tx).len() == 0 {
        None
    } else {
        Some(join_seq(memo_parts(tx), " | "@))
    }
}

pub fn build_memo(tx: &AccountTransaction) -> (r: Option<String>)
    ensures
        opt_text(r) == memo_of(*tx),
{
    let mut parts: Vec<String> = Vec::new();
    if let Some(info) = &tx.remittance_info {
        if !is_blank(info.as_str()) {
            parts.push(trim(info.as_str()));
        }
    }
    if let Some(t) = &tx.transaction_type {
        if let Some(text) = &t.text {
            if !is_blank(text.as_str()) {
                parts.push(trim(text.as_str()));
            }
        }
    }
    assert(texts_view(parts@) =~= memo_parts(*tx));
    if parts.len() == 0 {
        None
    } else {
        Some(join(&parts, " | "))
    }
}

/// The import id YNAB deduplicates by: `YNAB:<amount>:<date>:<occurrence>`.
pub open spec fn import_id_text(amount_milli: i64, date: Date, occurrence: u32) -> Seq<char> {
    "YNAB:"@ + int_text(amount_milli as int) + ":"@ + date_text(date) + ":"@ + nat_text(
        occurrence as nat,
    )
}

/// An import id after its `YNAB:` prefix.
proof fn lemma_import_id_tail(a: i64, d: Date, o: u32)
    ensures
        import_id_text(a, d, o).len() >= 5,
        import_id_text(a, d, o).subrange(5, import_id_text(a, d, o).len() as int) == int_text(
            a as int,
        ) + seq![':'] + (date_text(d) + seq![':'] + nat_text(o as nat)),
{
    reveal_strlit("YNAB:");
    reveal_strlit(":");
    let w = import_id_text(a, d, o);
    assert(w.subrange(5, w.len() as int) =~= int_text(a as int) + seq![':'] + (date_text(d)
        + seq![':'] + nat_text(o as nat)));
}

/// An import id names its amount, date and occurrence number: different
/// ones give different ids.
pub proof fn lemma_import_id_injective(
    a1: i64,
    d1: Date,
    o1: u32,
    a2: i64,
    d2: Date,
    o2: u32,
)
    requires
        import_id_text(a1, d1, o1) == import_id_text(a2, d2, o2),
    ensures
        a1 == a2,
        d1 == d2,
        o1 == o2,
{
    lemma_import_id_tail(a1, d1, o1);
    lemma_import_id_tail(a2, d2, o2);
    let r1 = date_text(d1) + seq![':'] + nat_text(o1 as nat);
    let r2 = date_text(d2) + seq![':'] + nat_text(o2 as nat);
    lemma_int_text_chars(a1 as int, ':');
    lemma_int_text_chars(a2 as int, ':');
    lemma_split_first(int_text(a1 as int), r1, int_text(a2 as int), r2, ':');
    lemma_int_text_injective(a1 as int, a2 as int);
    lemma_date_text_without(d1, ':');
    lemma_date_text_without(d2, ':');
    lemma_split_first(date_text(d1), nat_text(o1 as nat), date_text(d2), nat_text(o2 as nat), ':');
    lemma_date_text_injective(d1, d2);
    lemma_nat_text_value(o1 as nat);
    lemma_nat_text_value(o2 as nat);
}

pub fn import_id(amount_milli: i64, date: Date, occurrence: u32) -> (r: String)
    ensures
        r@ == import_id_text(amount_milli, date, occurrence),
{
    let mut r = owned("YNAB:");
    let a = i64_text(amount_milli);
    r.append(a.as_str());
    r.append(":");
    let d = format_date(date);
    r.append(d.as_str());
    r.append(":");
    let o = u64_text(occurrence as u64);
    r.append(o.as_str());
    r
}


// ---------------------------------------------------------------------------
// Planning a sync
// ---------------------------------------------------------------------------

/// A bank transaction about to be imported, with what will be remembered of
/// it once YNAB accepted it.
#[derive(Debug)]
pub struct PendingTransaction {
    pub transaction: Transaction,
    pub reference_key: String,
    pub reference_entry: ReferenceEntry,
}

/// A [`PendingTransaction`] with its texts taken by their views.
pub struct PendingView {
    pub transaction: TransactionView,
    pub reference_key: Seq<char>,
    pub reference_entry: ReferenceEntry,
}

impl View for PendingTransaction {
    type V = PendingView;

    open spec fn view(&self) -> PendingView {
        PendingView {
            transaction: self.transaction@,
            reference_key: self.reference_key@,
            reference_entry: self.reference_entry,
        }
    }
}

pub open spec fn pending_views(p: Seq<PendingTransaction>) -> Seq<PendingView> {
    p.map_values(|x: PendingTransaction| x@)
}

/// Why a sync could not be planned.
#[derive(Debug)]
pub enum SyncError {
    /// A booking date is not a `%Y-%m-%d` date.
    InvalidBookingDate(String),
    /// An amount could not be converted to milliunits.
    Amount(AmountError),
}

/// A [`SyncError`] with its texts taken by their views.
pub enum SyncErrorView {
    InvalidBookingDate(Seq<char>),
    Amount(AmountErrorView),
}

impl View for SyncError {
    type V = SyncErrorView;

    open spec fn view(&self) -> SyncErrorView {
        match self {
            SyncError::InvalidBookingDate(s) => SyncErrorView::InvalidBookingDate(s@),
            SyncError::Amount(e) => SyncErrorView::Amount(e@),
        }
    }
}

/// The YNAB transaction for a bank transaction with the given date, amount
/// and occurrence number.
pub open spec fn new_transaction_view(
    tx: AccountTransaction,
    account_id: Seq<char>,
    date: Date,
    amount: i64,
    occurrence: u32,
) -> TransactionView {
    TransactionView {
        account_id,
        date: date_text(date),
        amount,
        payee_name: payee_of(tx),
        memo: memo_of(tx),
        import_id: import_id_text(amount, date, occurrence),
        cleared: Some("uncleared"@),
    }
}

/// Progress of planning: the pending transactions so far and the counters.
pub type PlanResult = Result<(Seq<PendingView>, Map<Seq<char>, u32>), SyncErrorView>;

/// One bank transaction's effect on the plan. It is skipped without a
/// booking date, when dated before the cutoff, and when its reference key is
/// remembered already; otherwise it gets the next occurrence number of its
/// amount and date and becomes pending.
pub open spec fn plan_step(
    acc: PlanResult,
    tx: AccountTransaction,
    refs: Map<Seq<char>, ReferenceEntry>,
    cutoff: Date,
    account_id: Seq<char>,
) -> PlanResult {
    match acc {
        Err(e) => Err(e),
        Ok((pending, counters)) => match tx.booking_date {
            None => Ok((pending, counters)),
            Some(booking_date) => match spec_parse_date(booking_date@, "%Y-%m-%d"@) {
                None => Err(SyncErrorView::InvalidBookingDate(booking_date@)),
                Some(date) => if date_lt(date, cutoff) {
                    Ok((pending, counters))
                } else {
                    match spec_amount_to_milli(tx.amount.value@) {
                        Err(e) => Err(SyncErrorView::Amount(e)),
                        Ok(amount) => {
                            let key = reference_key_text(tx, date, amount);
                            if refs.contains_key(key) {
                                Ok((pending, counters))
                            } else {
                                let ck = counter_key_text(date, amount);
                                let occurrence = (counter_value(counters, ck) + 1) as u32;
                                Ok(
                                    (
                                        pending.push(
                                            PendingView {
                                                transaction: new_transaction_view(
                                                    tx,
                                                    account_id,
                                                    date,
                                                    amount,
                                                    occurrence,
                                                ),
                                                reference_key: key,
                                                reference_entry: ReferenceEntry {
                                                    date,
                                                    amount_milli: amount,
                                                    occurrence,
                                                },
                                            },
                                        ),
                                        counters.insert(ck, occurrence),
                                    ),
                                )
                            }
                        },
                    }
                },
            },
        },
    }
}

/// The plan for a list of bank transactions, taken in order.
pub open spec fn plan_spec(
    txs: Seq<AccountTransaction>,
    refs: Map<Seq<char>, ReferenceEntry>,
    counters: Map<Seq<char>, u32>,
    cutoff: Date,
    account_id: Seq<char>,
) -> PlanResult
    decreases txs.len(),
{
    if txs.len() == 0 {
        Ok((Seq::empty(), counters))
    } else {
        plan_step(
            plan_spec(txs.drop_last(), refs, counters, cutoff, account_id),
            txs.last(),
            refs,
            cutoff,
            account_id,
        )
    }
}

/// Counts stay below `u32::MAX` while `steps` more are counted.
pub open spec fn counters_have_room(counters: Map<Seq<char>, u32>, steps: int) -> bool {
    forall|k: Seq<char>| #[trigger] counters.contains_key(k) ==> counters[k] + steps < u32::MAX
}

/// A planning step uses up at most one unit of room in the counters.
pub proof fn lemma_plan_step_room(
    acc: PlanResult,
    tx: AccountTransaction,
    refs: Map<Seq<char>, ReferenceEntry>,
    cutoff: Date,
    account_id: Seq<char>,
    steps: int,
)
    requires
        1 <= steps < u32::MAX,
        acc matches Ok((p, c)) ==> counters_have_room(c, steps),
    ensures
        plan_step(acc, tx, refs, cutoff, account_id) matches Ok((p, c)) ==> counters_have_room(
            c,
            steps - 1,
        ),
{
    match plan_step(acc, tx, refs, cutoff, account_id) {
        Ok((p2, c2)) => {
            let (p, c) = acc->Ok_0;
            assert forall|k: Seq<char>| #[trigger] c2.contains_key(k) implies c2[k] + (steps - 1)
                < u32::MAX by {
                if c.contains_key(k) {
                    assert(c[k] + steps < u32::MAX);
                }
            }
        },
        Err(_) => {},
    }
}

/// Once planning failed, it stays failed with the same error.
proof fn lemma_plan_error_stays(
    txs: Seq<AccountTransaction>,
    refs: Map<Seq<char>, ReferenceEntry>,
    counters: Map<Seq<char>, u32>,
    cutoff: Date,
    account_id: Seq<char>,
    n: int,
)
    requires
        0 <= n <= txs.len(),
        plan_spec(txs.take(n), refs, counters, cutoff, account_id) is Err,
    ensures
        plan_spec(txs, refs, counters, cutoff, account_id) == plan_spec(
            txs.take(n),
            refs,
            counters,
            cutoff,
            account_id,
        ),
    decreases txs.len() - n,
{
    if n < txs.len() {
        assert(txs.take(n + 1).drop_last() =~= txs.take(n));
        lemma_plan_error_stays(txs, refs, counters, cutoff, account_id, n + 1);
    } else {
        assert(txs.take(n) =~= txs);
    }
}

/// Decides which bank transactions a sync imports (see [`plan_step`]),
/// counting occurrences in `counters`.
pub fn plan_imports(
    transactions: &Vec<AccountTransaction>,
    state: &State,
    counters: &mut TextMap<u32>,
    cutoff: Date,
    account_id: &String,
) -> (r: Result<Vec<PendingTransaction>, SyncError>)
    requires
        transactions@.len() < u32::MAX,
        counters_have_room(old(counters)@, transactions@.len() as int),
    ensures
        match plan_spec(
            transactions@,
            state.reference_occurrences@,
            old(counters)@,
            cutoff,
            account_id@,
        ) {
            Ok((p, c)) => r matches Ok(v) && pending_views(v@) == p && final(counters)@ == c,
            Err(e) => r matches Err(f) && f@ == e,
        },
{
    let ghost refs = state.reference_occurrences@;
    let ghost c0 = counters@;
    let ghost txs = transactions@;
    let mut pending: Vec<PendingTransaction> = Vec::new();
    assert(txs.take(0) =~= Seq::<AccountTransaction>::empty());
    assert(pending_views(pending@) =~= Seq::<PendingView>::empty());
    let mut i: usize = 0;
    while i < transactions.len()
        invariant
            txs == transactions@,
            refs == state.reference_occurrences@,
            c0 == old(counters)@,
            txs.len() < u32::MAX,
            i <= txs.len(),
            plan_spec(txs.take(i as int), refs, c0, cutoff, account_id@) == Ok::<
                (Seq<PendingView>, Map<Seq<char>, u32>),
                SyncErrorView,
            >((pending_views(pending@), counters@)),
            counters_have_room(counters@, txs.len() - i),
        decreases txs.len() - i,
    {
        let tx = &transactions[i];
        let ghost acc = plan_spec(txs.take(i as int), refs, c0, cutoff, account_id@);
        assert(txs.take(i + 1).drop_last() =~= txs.take(i as int));
        assert(txs.take(i + 1).last() == *tx);
        assert(plan_spec(txs.take(i + 1), refs, c0, cutoff, account_id@) == plan_step(
            acc,
            *tx,
            refs,
            cutoff,
            account_id@,
        ));
        proof {
            lemma_plan_step_room(acc, *tx, refs, cutoff, account_id@, txs.len() - i);
        }
        match &tx.booking_date {
            None => {},
            Some(booking_date) => {
                let date = match parse_date_with_format(booking_date.as_str(), "%Y-%m-%d") {
                    Some(d) => d,
                    None => {
                        let e = SyncError::InvalidBookingDate(booking_date.clone());
                        assert(tx.booking_date == Some(*booking_date));
                        assert(spec_parse_date(booking_date@, "%Y-%m-%d"@) is None);
                        assert(plan_spec(txs.take(i + 1), refs, c0, cutoff, account_id@) == Err::<
                            (Seq<PendingView>, Map<Seq<char>, u32>),
                            SyncErrorView,
                        >(e@));
                        proof {
                            lemma_plan_error_stays(txs, refs, c0, cutoff, account_id@, i + 1);
                        }
                        return Err(e);
                    },
                };
                if !date_before(date, cutoff) {
                    let amount = match amount_to_milli(tx.amount.value.as_str()) {
                        Ok(a) => a,
                        Err(e) => {
                            let err = SyncError::Amount(e);
                            assert(plan_spec(txs.take(i + 1), refs, c0, cutoff, account_id@)
                                == Err::<(Seq<PendingView>, Map<Seq<char>, u32>), SyncErrorView>(
                                err@,
                            ));
                            proof {
                                lemma_plan_error_stays(txs, refs, c0, cutoff, account_id@, i + 1);
                            }
                            return Err(err);
                        },
                    };
                    assert(spec_amount_to_milli(tx.amount.value@) == Ok::<i64, AmountErrorView>(amount));
                    let reference_key = build_reference_key(tx, date, amount);
                    if state.reference_occurrences.get(&reference_key).is_none() {
                        let occurrence = next_occurrence(counters, date, amount);
                        let transaction = Transaction {
                            account_id: account_id.clone(),
                            date: format_date(date),
                            amount,
                            payee_name: pick_payee_name(tx),
                            memo: build_memo(tx),
                            import_id: import_id(amount, date, occurrence),
                            cleared: Some(owned("uncleared")),
                        };
                        let item = PendingTransaction {
                            transaction,
                            reference_key,
                            reference_entry: ReferenceEntry { date, amount_milli: amount, occurrence },
                        };
                        let ghost before = pending@;
                        pending.push(item);
                        assert(pending_views(pending@) =~= pending_views(before).push(item@));
                    }
                }
            },
        }
        i = i + 1;
    }
    assert(txs.take(txs.len() as int) =~= txs);
    Ok(pending)
}

/// How a plan turned out, as a returned list or error: the pending
/// transactions of a successful plan, or its error.
pub open spec fn plan_outcome(
    plan: PlanResult,
    r: Result<Vec<PendingTransaction>, SyncError>,
) -> bool {
    match plan {
        Ok((p, c)) => r matches Ok(v) && pending_views(v@) == p,
        Err(e) => r matches Err(f) && f@ == e,
    }
}

/// Every remembered occurrence number leaves room for `steps` more below
/// `u32::MAX`.
pub open spec fn occurrences_have_room(refs: Map<Seq<char>, ReferenceEntry>, steps: int) -> bool {
    forall|k: Seq<char>| #[trigger] refs.contains_key(k) ==> refs[k].occurrence + steps < u32::MAX
}

/// Decides which bank transactions a sync imports, counting occurrences on
/// from the ones the state remembers (see [`State::build_counters`] and
/// [`plan_imports`]).
pub fn plan_sync(
    transactions: &Vec<AccountTransaction>,
    state: &State,
    cutoff: Date,
    account_id: &String,
) -> (r: Result<Vec<PendingTransaction>, SyncError>)
    requires
        transactions@.len() < u32::MAX,
        occurrences_have_room(state.reference_occurrences@, transactions@.len() as int),
    ensures
        exists|c: Map<Seq<char>, u32>|
            #[trigger] counters_continue(state.reference_occurrences@, c) && plan_outcome(
                plan_spec(transactions@, state.reference_occurrences@, c, cutoff, account_id@),
                r,
            ),
{
    let mut counters = state.build_counters();
    let ghost c0 = counters@;
    let ghost refs = state.reference_occurrences@;
    assert forall|k: Seq<char>| #[trigger] c0.contains_key(k) implies c0[k] + transactions@.len()
        < u32::MAX by {
        let key = choose|key: Seq<char>|
            refs.contains_key(key) && entry_counter_key(refs[key]) == k && refs[key].occurrence
                == c0[k];
        assert(refs.contains_key(key));
    }
    let r = plan_imports(transactions, state, &mut counters, cutoff, account_id);
    assert(plan_outcome(plan_spec(transactions@, refs, c0, cutoff, account_id@), r));
    r
}

/// The state after remembering a list of imported transactions, one after
/// another.
pub open spec fn record_spec(
    refs: Map<Seq<char>, ReferenceEntry>,
    items: Seq<PendingView>,
) -> Map<Seq<char>, ReferenceEntry>
    decreases items.len(),
{
    if items.len() == 0 {
        refs
    } else {
        record_spec(refs, items.drop_last()).insert(
            items.last().reference_key,
            items.last().reference_entry,
        )
    }
}

/// Remembers the transactions of a batch that YNAB accepted.
pub fn record_imported(state: &mut State, batch: &Vec<PendingTransaction>)
    ensures
        final(state).reference_occurrences@ == record_spec(
            old(state).reference_occurrences@,
            pending_views(batch@),
        ),
        final(state).last_synced_at == old(state).last_synced_at,
{
    let ghost r0 = state.reference_occurrences@;
    let mut i: usize = 0;
    while i < batch.len()
        invariant
            i <= batch@.len(),
            state.reference_occurrences@ == record_spec(r0, pending_views(batch@).take(i as int)),
            state.last_synced_at == old(state).last_synced_at,
        decreases batch@.len() - i,
    {
        let item = &batch[i];
        state.reference_occurrences.insert(item.reference_key.clone(), item.reference_entry);
        assert(pending_views(batch@).take(i + 1).drop_last() =~= pending_views(batch@).take(
            i as int,
        ));
        i = i + 1;
    }
    assert(pending_views(batch@).take(batch@.len() as int) =~= pending_views(batch@));
}

/// The number of transactions created in YNAB with one request.
pub const IMPORT_BATCH_SIZE: usize = 100;

/// The batches, one after another.
pub open spec fn concat_batches<T>(batches: Seq<Vec<T>>) -> Seq<T>
    decreases batches.len(),
{
    if batches.len() == 0 {
        Seq::empty()
    } else {
        concat_batches(batches.drop_last()) + batches.last()@
    }
}

/// Splits the pending transactions into batches of 100 (the last one
/// possibly smaller), keeping their order.
pub fn import_batches(pending: Vec<PendingTransaction>) -> (batches: Vec<Vec<PendingTransaction>>)
    ensures
        concat_batches(batches@) == pending@,
        forall|i: int|
            0 <= i < batches@.len() ==> 0 < #[trigger] batches@[i]@.len() <= IMPORT_BATCH_SIZE,
        forall|i: int|
            0 <= i < batches@.len() - 1 ==> #[trigger] batches@[i]@.len() == IMPORT_BATCH_SIZE,
{
    let ghost all = pending@;
    let mut rest = pending;
    let mut batches: Vec<Vec<PendingTransaction>> = Vec::new();
    let mut current: Vec<PendingTransaction> = Vec::new();
    while rest.len() > 0
        invariant
            concat_batches(batches@) + current@ + rest@ == all,
            current@.len() < IMPORT_BATCH_SIZE,
            forall|i: int|
                0 <= i < batches@.len() ==> #[trigger] batches@[i]@.len() == IMPORT_BATCH_SIZE,
        decreases rest@.len(),
    {
        let ghost before_rest = rest@;
        let ghost before_current = current@;
        let item = rest.remove(0);
        current.push(item);
        assert(before_rest =~= seq![item] + rest@);
        assert(before_current + before_rest =~= current@ + rest@);
        assert(concat_batches(batches@) + before_current + before_rest =~= concat_batches(
            batches@,
        ) + current@ + rest@);
        if current.len() == IMPORT_BATCH_SIZE {
            let ghost before_batches = batches@;
            let full = current;
            current = Vec::new();
            batches.push(full);
            assert(batches@.drop_last() =~= before_batches);
            assert(concat_batches(batches@) + current@ + rest@ =~= concat_batches(before_batches)
                + full@ + rest@);
        }
    }
    if current.len() > 0 {
        let ghost before_batches = batches@;
        batches.push(current);
        assert(batches@.drop_last() =~= before_batches);
    } else {
        assert(concat_batches(batches@) + current@ =~= concat_batches(batches@));
    }
    assert(concat_batches(batches@) =~= all);
    batches
}

// ---------------------------------------------------------------------------
// The cutoff and the walk through transaction pages
// ---------------------------------------------------------------------------

/// The earliest booking date a sync imports: `lookback_days` before `today`
/// (after it, for a negative count). `None` where that date is out of range.
pub fn sync_cutoff(today: Date, lookback_days: i64) -> (r: Option<Date>)
    requires
        valid_date(today),
    ensures
        lookback_days > i64::MIN ==> r == date_shift(today, -lookback_days),
        lookback_days == i64::MIN ==> r is None,
{
    if lookback_days == i64::MIN {
        None
    } else {
        add_days(today, -lookback_days)
    }
}

/// The cutoff of a sync started now: [`sync_cutoff`] of today's date in UTC.
/// Which date that is depends on the clock.
pub fn current_sync_cutoff(lookback_days: i64) -> (r: Option<Date>)
    ensures
        exists|today: Date|
            valid_date(today) && (lookback_days > i64::MIN ==> r == date_shift(
                today,
                -lookback_days,
            )) && (lookback_days == i64::MIN ==> r is None),
{
    let today = utc_today();
    sync_cutoff(today, lookback_days)
}

/// The booking date of a bank transaction, when it has one that parses.
pub open spec fn booking_date_of(tx: AccountTransaction) -> Option<Date> {
    match tx.booking_date {
        Some(d) => spec_parse_date(d@, "%Y-%m-%d"@),
        None => None,
    }
}

/// Whether a transaction is booked before the cutoff.
pub open spec fn booked_before(tx: AccountTransaction, cutoff: Date) -> bool {
    match booking_date_of(tx) {
        Some(d) => date_lt(d, cutoff),
        None => false,
    }
}

pub fn is_booked_before(tx: &AccountTransaction, cutoff: Date) -> (b: bool)
    ensures
        b == booked_before(*tx, cutoff),
{
    match &tx.booking_date {
        Some(text) => match parse_date_with_format(text.as_str(), "%Y-%m-%d") {
            Some(d) => date_before(d, cutoff),
            None => false,
        },
        None => false,
    }
}

/// Whether a page holds a transaction booked before the cutoff.
pub open spec fn page_reaches_cutoff(values: Seq<AccountTransaction>, cutoff: Date) -> bool {
    exists|i: int| 0 <= i < values.len() && #[trigger] booked_before(values[i], cutoff)
}

/// The walk through the pages of an account's transactions.
#[derive(Debug)]
pub struct FetchProgress {
    /// The transactions of the pages so far, in order.
    pub transactions: Vec<AccountTransaction>,
    /// Where the next page starts.
    pub paging_first: i32,
    /// Whether the walk is over.
    pub done: bool,
}

impl FetchProgress {
    pub fn new() -> (p: FetchProgress)
        ensures
            p.transactions@.len() == 0,
            p.paging_first == 0,
            !p.done,
    {
        FetchProgress { transactions: Vec::new(), paging_first: 0, done: false }
    }

    /// Takes in the page that started at `paging_first`. The walk ends on an
    /// empty page, on a page that reaches back before the cutoff, and when
    /// the next page would start at or after the total the server reported.
    pub fn absorb_page(&mut self, page: AccountTransactionList, cutoff: Date)
        requires
            !old(self).done,
            0 <= old(self).paging_first,
            old(self).paging_first + page.values@.len() <= i32::MAX,
        ensures
            page.values@.len() == 0 ==> final(self).done && final(self).transactions@ == old(
                self,
            ).transactions@ && final(self).paging_first == old(self).paging_first,
            page.values@.len() > 0 ==> {
                &&& final(self).transactions@ == old(self).transactions@ + page.values@
                &&& final(self).paging_first == (if page_reaches_cutoff(page.values@, cutoff) {
                    old(self).paging_first as int
                } else {
                    old(self).paging_first + page.values@.len()
                })
                &&& final(self).done == (page_reaches_cutoff(page.values@, cutoff) || (
                page.paging matches Some(info) && info.matches matches Some(total)
                    && final(self).paging_first >= total))
            },
    {
        let AccountTransactionList { values, paging } = page;
        if values.len() == 0 {
            self.done = true;
            return;
        }
        let ghost vals = values@;
        let values_len = values.len();
        let mut reached_cutoff = false;
        let mut i: usize = 0;
        while i < values.len()
            invariant
                i <= values@.len(),
                reached_cutoff == exists|j: int|
                    0 <= j < i && #[trigger] booked_before(values@[j], cutoff),
            decreases values@.len() - i,
        {
            let before = is_booked_before(&values[i], cutoff);
            if before {
                reached_cutoff = true;
            }
            i = i + 1;
        }
        let mut values = values;
        self.transactions.append(&mut values);
        if reached_cutoff {
            self.done = true;
            return;
        }
        self.paging_first = self.paging_first + values_len as i32;
        if let Some(info) = paging {
            if let Some(total) = info.matches {
                if self.paging_first >= total {
                    self.done = true;
                }
            }
        }
    }
}


// ---------------------------------------------------------------------------
// Accounts, credentials, TAN
// ---------------------------------------------------------------------------

/// Why a command cannot go on.
#[derive(Debug, PartialEq, Eq, Structural)]
pub enum CommandError {
    /// No comdirect account has the configured IBAN.
    NoMatchingAccount,
}

/// Whether an account has the IBAN `iban`.
pub open spec fn has_iban(a: Account, iban: Seq<char>) -> bool {
    a.iban matches Some(i) && i@ == iban
}

/// The first account with the IBAN `iban`.
pub fn find_account_by_iban(accounts: &Vec<Account>, iban: &str) -> (r: Result<Account, CommandError>)
    ensures
        match r {
            Ok(a) => exists|i: int|
                0 <= i < accounts@.len() && has_iban(accounts@[i], iban@) && a == accounts@[i]
                    && forall|j: int| 0 <= j < i ==> !has_iban(#[trigger] accounts@[j], iban@),
            Err(e) => e == CommandError::NoMatchingAccount && forall|j: int|
                0 <= j < accounts@.len() ==> !has_iban(#[trigger] accounts@[j], iban@),
        },
{
    let mut i: usize = 0;
    while i < accounts.len()
        invariant
            i <= accounts@.len(),
            forall|j: int| 0 <= j < i ==> !has_iban(#[trigger] accounts@[j], iban@),
        decreases accounts@.len() - i,
    {
        if let Some(account_iban) = &accounts[i].iban {
            if str_equal(account_iban.as_str(), iban) {
                return Ok(clone_account(&accounts[i]));
            }
        }
        i = i + 1;
    }
    Err(CommandError::NoMatchingAccount)
}

/// Whether `read_secret` can succeed on `reference` and `token_env`.
pub open spec fn secret_read<E, F: Fn(&String, &String) -> Result<String, E>>(
    read_secret: F,
    reference: &String,
    token_env: &String,
) -> bool {
    exists|s: String| read_secret.ensures((reference, token_env), Ok::<String, E>(s))
}

/// Resolves the four comdirect secrets of the configuration with
/// `read_secret(reference, token_env)`, in the order client id, client
/// secret, username, PIN, stopping at the first error.
pub fn resolve_comdirect_credentials<E, F: Fn(&String, &String) -> Result<String, E>>(
    config: &ComdirectConfig,
    op_config: &OpConfig,
    read_secret: F,
) -> (r: Result<ComdirectCredentials, E>)
    requires
        forall|a: &String, b: &String| read_secret.requires((a, b)),
    ensures
        r matches Ok(c) ==> {
            &&& read_secret.ensures(
                (&config.client_id, &op_config.service_account_token_env),
                Ok(c.client_id),
            )
            &&& read_secret.ensures(
                (&config.client_secret, &op_config.service_account_token_env),
                Ok(c.client_secret),
            )
            &&& read_secret.ensures(
                (&config.username, &op_config.service_account_token_env),
                Ok(c.username),
            )
            &&& read_secret.ensures(
                (&config.pin, &op_config.service_account_token_env),
                Ok(c.pin),
            )
        },
        r matches Err(e) ==> {
            ||| read_secret.ensures(
                (&config.client_id, &op_config.service_account_token_env),
                Err(e),
            )
            ||| secret_read(read_secret, &config.client_id, &op_config.service_account_token_env)
                && read_secret.ensures(
                (&config.client_secret, &op_config.service_account_token_env),
                Err(e),
            )
            ||| secret_read(read_secret, &config.client_id, &op_config.service_account_token_env)
                && secret_read(
                read_secret,
                &config.client_secret,
                &op_config.service_account_token_env,
            ) && read_secret.ensures(
                (&config.username, &op_config.service_account_token_env),
                Err(e),
            )
            ||| secret_read(read_secret, &config.client_id, &op_config.service_account_token_env)
                && secret_read(
                read_secret,
                &config.client_secret,
                &op_config.service_account_token_env,
            ) && secret_read(read_secret, &config.username, &op_config.service_account_token_env)
                && read_secret.ensures((&config.pin, &op_config.service_account_token_env), Err(e))
        },
{
    let env = &op_config.service_account_token_env;
    let client_id = match read_secret(&config.client_id, env) {
        Ok(s) => s,
        Err(e) => return Err(e),
    };
    let client_secret = match read_secret(&config.client_secret, env) {
        Ok(s) => s,
        Err(e) => return Err(e),
    };
    let username = match read_secret(&config.username, env) {
        Ok(s) => s,
        Err(e) => return Err(e),
    };
    let pin = match read_secret(&config.pin, env) {
        Ok(s) => s,
        Err(e) => return Err(e),
    };
    Ok(ComdirectCredentials { client_id, client_secret, username, pin })
}

/// What a command does next about the comdirect session.
#[derive(Debug, PartialEq, Eq, Structural)]
pub enum SessionStep {
    /// The session TAN is active: go on.
    Proceed,
    /// The session TAN is inactive: start a TAN challenge to activate it.
    Activate,
    /// The session TAN is inactive and no (further) activation is made.
    Inactive,
}

/// The next step for a session: go on when its TAN is active, else activate
/// it when that may still be tried (`auth` and `sync` try once; `accounts`
/// never does), else stop at an inactive session.
pub fn next_session_step(session: &Session, may_activate: bool) -> (step: SessionStep)
    ensures
        session.session_tan_active ==> step == SessionStep::Proceed,
        !session.session_tan_active && may_activate ==> step == SessionStep::Activate,
        !session.session_tan_active && !may_activate ==> step == SessionStep::Inactive,
{
    if session.session_tan_active {
        SessionStep::Proceed
    } else if may_activate {
        SessionStep::Activate
    } else {
        SessionStep::Inactive
    }
}

/// Whether `accounts` also lists the YNAB accounts of the configured budget:
/// when a budget is configured.
pub fn lists_budget_accounts(config: &YnabConfig) -> (b: bool)
    ensures
        b == (config.budget_id@.len() > 0),
{
    !config.budget_id.as_str().is_empty()
}

/// The TAN type to ask for: the one given on the command line, else the
/// configured one.
pub fn choose_tan_method(tan_type: Option<TanType>, configured: &String) -> (r: String)
    ensures
        r@ == match tan_type {
            Some(t) => tan_type_name(t),
            None => configured@,
        },
{
    match tan_type {
        Some(t) => owned(t.as_str()),
        None => configured.clone(),
    }
}

/// Whether the user has to type a TAN: every TAN type but the push TAN,
/// which is approved in the app.
pub fn tan_input_required(challenge: &TanChallenge) -> (b: bool)
    ensures
        b == (challenge.tan_type@ != "P_TAN_PUSH"@),
{
    !str_equal(challenge.tan_type.as_str(), "P_TAN_PUSH")
}

/// The user id to retry listing accounts with when it failed: `user`, unless
/// that was the one that failed.
pub fn fallback_user_id(user_id: &str) -> (r: Option<String>)
    ensures
        user_id@ == "user"@ ==> r is None,
        user_id@ != "user"@ ==> (r matches Some(u) && u@ == "user"@),
{
    if str_equal(user_id, "user") {
        None
    } else {
        Some(owned("user"))
    }
}

// ---------------------------------------------------------------------------
// init and accounts
// ---------------------------------------------------------------------------

/// The accounts that are not closed, in order.
pub open spec fn open_accounts_of(accounts: Seq<AccountSummary>) -> Seq<AccountSummary> {
    accounts.filter(|a: AccountSummary| !a.closed)
}

pub fn open_accounts(accounts: Vec<AccountSummary>) -> (r: Vec<AccountSummary>)
    ensures
        r@ == open_accounts_of(accounts@),
{
    let ghost all = accounts@;
    let n = accounts.len();
    let mut rest = accounts;
    let mut r: Vec<AccountSummary> = Vec::new();
    let mut taken: usize = 0;
    while rest.len() > 0
        invariant
            all.len() == n,
            taken + rest@.len() == all.len(),
            rest@ == all.subrange(taken as int, all.len() as int),
            r@ == open_accounts_of(all.take(taken as int)),
        decreases rest@.len(),
    {
        let a = rest.remove(0);
        assert(a == all[taken as int]);
        assert(all.take(taken + 1).drop_last() =~= all.take(taken as int));
        reveal_with_fuel(Seq::filter, 1);
        if !a.closed {
            r.push(a);
        }
        taken = taken + 1;
        assert(rest@ =~= all.subrange(taken as int, all.len() as int));
    }
    assert(all.take(all.len() as int) =~= all);
    r
}

/// How a budget or an account is offered for selection: `<name> (<id>)`.
pub open spec fn choice_label(name: Seq<char>, id: Seq<char>) -> Seq<char> {
    name + " ("@ + id + ")"@
}

fn label(name: &String, id: &String) -> (r: String)
    ensures
        r@ == choice_label(name@, id@),
{
    let mut r = name.clone();
    r.append(" (");
    r.append(id.as_str());
    r.append(")");
    r
}

/// The choices offered when selecting a YNAB budget.
pub fn prompt_select_budget(budgets: &Vec<BudgetSummary>) -> (r: Vec<String>)
    ensures
        r@.len() == budgets@.len(),
        forall|i: int|
            0 <= i < budgets@.len() ==> #[trigger] r@[i]@ == choice_label(
                budgets@[i].name@,
                budgets@[i].id@,
            ),
{
    let mut r: Vec<String> = Vec::new();
    let mut i: usize = 0;
    while i < budgets.len()
        invariant
            i <= budgets@.len(),
            r@.len() == i,
            forall|j: int|
                0 <= j < i ==> #[trigger] r@[j]@ == choice_label(budgets@[j].name@, budgets@[j].id@),
        decreases budgets@.len() - i,
    {
        r.push(label(&budgets[i].name, &budgets[i].id));
        i = i + 1;
    }
    r
}

/// The choices offered when selecting a YNAB account.
pub fn prompt_select_account(accounts: &Vec<AccountSummary>) -> (r: Vec<String>)
    ensures
        r@.len() == accounts@.len(),
        forall|i: int|
            0 <= i < accounts@.len() ==> #[trigger] r@[i]@ == choice_label(
                accounts@[i].name@,
                accounts@[i].id@,
            ),
{
    let mut r: Vec<String> = Vec::new();
    let mut i: usize = 0;
    while i < accounts.len()
        invariant
            i <= accounts@.len(),
            r@.len() == i,
            forall|j: int|
                0 <= j < i ==> #[trigger] r@[j]@ == choice_label(
                    accounts@[j].name@,
                    accounts@[j].id@,
                ),
        decreases accounts@.len() - i,
    {
        r.push(label(&accounts[i].name, &accounts[i].id));
        i = i + 1;
    }
    r
}

/// Where `init` expects the 1Password service account token: the
/// environment variable `OP_SERVICE_ACCOUNT_TOKEN`.
pub fn default_op_config() -> (c: OpConfig)
    ensures
        c.service_account_token_env@ == "OP_SERVICE_ACCOUNT_TOKEN"@,
{
    OpConfig { service_account_token_env: owned("OP_SERVICE_ACCOUNT_TOKEN") }
}

/// Whether a configuration names its secrets by 1Password references only:
/// the comdirect client id, client secret, username and PIN, and the YNAB
/// token.
pub open spec fn holds_only_references(c: Config) -> bool {
    &&& is_op_reference(c.comdirect.client_id@)
    &&& is_op_reference(c.comdirect.client_secret@)
    &&& is_op_reference(c.comdirect.username@)
    &&& is_op_reference(c.comdirect.pin@)
    &&& is_op_reference(c.ynab.token@)
}

/// The configuration `init` writes: the answers given, the TAN method
/// `M_TAN`, a lookback of 30 days, and the service account token in
/// `OP_SERVICE_ACCOUNT_TOKEN`. The secrets are given as 1Password
/// references, and only those are stored.
pub fn init_config(
    user_id: String,
    iban: String,
    client_id: String,
    client_secret: String,
    username: String,
    pin: String,
    ynab_token: String,
    budget_id: String,
    account_id: String,
) -> (c: Config)
    requires
        is_op_reference(client_id@),
        is_op_reference(client_secret@),
        is_op_reference(username@),
        is_op_reference(pin@),
        is_op_reference(ynab_token@),
    ensures
        holds_only_references(c),
        c.comdirect == (ComdirectConfig {
            user_id,
            iban,
            client_id,
            client_secret,
            username,
            pin,
            tan_method: c.comdirect.tan_method,
        }),
        c.comdirect.tan_method@ == "M_TAN"@,
        c.ynab == (YnabConfig { token: ynab_token, budget_id, account_id }),
        c.sync.lookback_days == 30,
        c.op.service_account_token_env@ == "OP_SERVICE_ACCOUNT_TOKEN"@,
{
    Config {
        comdirect: ComdirectConfig {
            user_id,
            iban,
            client_id,
            client_secret,
            username,
            pin,
            tan_method: owned("M_TAN"),
        },
        ynab: YnabConfig { token: ynab_token, budget_id, account_id },
        sync: SyncConfig { lookback_days: 30 },
        op: default_op_config(),
    }
}

/// The line `accounts` prints for a YNAB budget: `- <name> (<id>)`.
pub fn budget_line(budget: &BudgetSummary) -> (r: String)
    ensures
        r@ == "- "@ + budget.name@ + " ("@ + budget.id@ + ")"@,
{
    let mut r = owned("- ");
    r.append(budget.name.as_str());
    r.append(" (");
    r.append(budget.id.as_str());
    r.append(")");
    r
}

/// The line `accounts` prints for a YNAB account:
/// `- <name> (<id>, open|closed)`.
pub fn ynab_account_line(account: &AccountSummary) -> (r: String)
    ensures
        r@ == "- "@ + account.name@ + " ("@ + account.id@ + ", "@ + (if account.closed {
            "closed"@
        } else {
            "open"@
        }) + ")"@,
{
    let mut r = owned("- ");
    r.append(account.name.as_str());
    r.append(" (");
    r.append(account.id.as_str());
    r.append(", ");
    if account.closed {
        r.append("closed");
    } else {
        r.append("open");
    }
    r.append(")");
    r
}

} // verus!
