//! Properties of a sync that span several steps or several functions:
//! a sync never imports a remembered transaction, a second sync after
//! remembering the first one's imports imports nothing (and, on the same
//! day, prunes nothing of what the first one left), occurrence numbers
//! continue after the remembered ones, the imports of one sync have
//! distinct import ids, and remembering batch after batch is remembering
//! everything. Also what each import is made of: the amount, date, payee
//! and memo of a bank transaction, and how payee and memo are chosen.

use vstd::prelude::*;

use crate::commands::{
    counter_value, counters_have_room, import_id_text, lemma_import_id_injective,
    lemma_plan_step_room, plan_spec, plan_step, record_spec, PendingView, PlanResult,
};
use crate::comdirect::{AccountInformation, AccountTransaction, EnumText};
use crate::commands::{memo_of, memo_parts, payee_of};
use crate::text::{is_blank_seq, join_seq, trim_seq};
use crate::date::{date_lt, date_shift, day_number, lemma_date_lt_day_number, valid_date, Date};
use crate::state::{
    counters_continue, entries_since, entry_counter_key, prune_cutoff, ReferenceEntry,
};

verus! {

/// The pending transactions of a successful plan.
pub open spec fn planned(r: PlanResult) -> Seq<PendingView> {
    match r {
        Ok((p, c)) => p,
        Err(_) => Seq::empty(),
    }
}

/// The counters after a successful plan.
pub open spec fn planned_counters(r: PlanResult) -> Map<Seq<char>, u32> {
    match r {
        Ok((p, c)) => c,
        Err(_) => Map::empty(),
    }
}

/// A plan that succeeds on a list succeeds on each of its prefixes, and the
/// prefix's pending transactions begin the list's.
pub proof fn lemma_plan_prefix(
    txs: Seq<AccountTransaction>,
    refs: Map<Seq<char>, ReferenceEntry>,
    counters: Map<Seq<char>, u32>,
    cutoff: Date,
    account_id: Seq<char>,
    n: int,
)
    requires
        0 <= n <= txs.len(),
        plan_spec(txs, refs, counters, cutoff, account_id) is Ok,
    ensures
        plan_spec(txs.take(n), refs, counters, cutoff, account_id) is Ok,
        planned(plan_spec(txs, refs, counters, cutoff, account_id)).take(
            planned(plan_spec(txs.take(n), refs, counters, cutoff, account_id)).len() as int,
        ) == planned(plan_spec(txs.take(n), refs, counters, cutoff, account_id)),
        planned(plan_spec(txs.take(n), refs, counters, cutoff, account_id)).len() <= planned(
            plan_spec(txs, refs, counters, cutoff, account_id),
        ).len(),
    decreases txs.len() - n,
{
    if n == txs.len() {
        assert(txs.take(n) =~= txs);
    } else {
        lemma_plan_prefix(txs, refs, counters, cutoff, account_id, n + 1);
        let longer = plan_spec(txs.take(n + 1), refs, counters, cutoff, account_id);
        assert(txs.take(n + 1).drop_last() =~= txs.take(n));
        let shorter = plan_spec(txs.take(n), refs, counters, cutoff, account_id);
        assert(longer == plan_step(shorter, txs[n], refs, cutoff, account_id));
        let full = planned(plan_spec(txs, refs, counters, cutoff, account_id));
        let pl = planned(longer);
        let ps = planned(shorter);
        assert(pl.take(ps.len() as int) =~= ps);
        assert(full.take(ps.len() as int) =~= pl.take(ps.len() as int));
    }
}

/// Remembering keeps what was remembered, and remembers every item.
pub proof fn lemma_record_contains(
    refs: Map<Seq<char>, ReferenceEntry>,
    items: Seq<PendingView>,
    k: Seq<char>,
)
    requires
        refs.contains_key(k) || exists|i: int| 0 <= i < items.len() && items[i].reference_key == k,
    ensures
        record_spec(refs, items).contains_key(k),
    decreases items.len(),
{
    if items.len() > 0 {
        if items.last().reference_key != k {
            if !refs.contains_key(k) {
                let i = choose|i: int| 0 <= i < items.len() && items[i].reference_key == k;
                assert(i < items.len() - 1);
                assert(items.drop_last()[i].reference_key == k);
            }
            lemma_record_contains(refs, items.drop_last(), k);
        }
    }
}

/// A sync imports no transaction whose reference is remembered, and none
/// booked before the cutoff.
pub proof fn law_plan_skips_remembered_and_old(
    txs: Seq<AccountTransaction>,
    refs: Map<Seq<char>, ReferenceEntry>,
    counters: Map<Seq<char>, u32>,
    cutoff: Date,
    account_id: Seq<char>,
)
    requires
        plan_spec(txs, refs, counters, cutoff, account_id) is Ok,
    ensures
        forall|i: int|
            0 <= i < planned(plan_spec(txs, refs, counters, cutoff, account_id)).len() ==> {
                let p = #[trigger] planned(plan_spec(txs, refs, counters, cutoff, account_id))[i];
                !refs.contains_key(p.reference_key) && !date_lt(p.reference_entry.date, cutoff)
            },
    decreases txs.len(),
{
    if txs.len() > 0 {
        let prev = plan_spec(txs.drop_last(), refs, counters, cutoff, account_id);
        assert(prev is Ok);
        law_plan_skips_remembered_and_old(txs.drop_last(), refs, counters, cutoff, account_id);
    }
}

/// Whether pending transaction `p` was made from bank transaction `tx` for
/// the YNAB account `account_id`: booked on the date `p` remembers, with the
/// amount in milliunits that YNAB gets and `p` remembers, and that date as
/// the YNAB date.
pub open spec fn pending_from(p: PendingView, tx: AccountTransaction, account_id: Seq<char>) -> bool {
    &&& tx.booking_date matches Some(b) && crate::date::spec_parse_date(b@, "%Y-%m-%d"@) == Some(
        p.reference_entry.date,
    )
    &&& crate::commands::spec_amount_to_milli(tx.amount.value@) == Ok::<
        i64,
        crate::commands::AmountErrorView,
    >(p.transaction.amount)
    &&& p.reference_entry.amount_milli == p.transaction.amount
    &&& p.transaction.date == crate::date::date_text(p.reference_entry.date)
    &&& p.transaction.account_id == account_id
    &&& p.transaction.payee_name == crate::commands::payee_of(tx)
    &&& p.transaction.memo == crate::commands::memo_of(tx)
    &&& p.transaction.cleared == Some("uncleared"@)
}

/// Every transaction a sync imports is made from one of the bank
/// transactions: YNAB gets the bank amount in milliunits, with its sign
/// (an outflow stays negative), on the booking date, in the configured
/// account, with that transaction's payee and memo; the same amount and
/// date are remembered.
pub proof fn law_imports_come_from_bank_transactions(
    txs: Seq<AccountTransaction>,
    refs: Map<Seq<char>, ReferenceEntry>,
    counters: Map<Seq<char>, u32>,
    cutoff: Date,
    account_id: Seq<char>,
)
    requires
        plan_spec(txs, refs, counters, cutoff, account_id) is Ok,
    ensures
        forall|i: int|
            0 <= i < planned(plan_spec(txs, refs, counters, cutoff, account_id)).len() ==> exists|
                j: int,
            |
                0 <= j < txs.len() && pending_from(
                    #[trigger] planned(plan_spec(txs, refs, counters, cutoff, account_id))[i],
                    txs[j],
                    account_id,
                ),
    decreases txs.len(),
{
    if txs.len() > 0 {
        let prev = plan_spec(txs.drop_last(), refs, counters, cutoff, account_id);
        assert(prev is Ok);
        law_imports_come_from_bank_transactions(txs.drop_last(), refs, counters, cutoff, account_id);
        let pp = planned(prev);
        let p = planned(plan_spec(txs, refs, counters, cutoff, account_id));
        assert forall|i: int| 0 <= i < p.len() implies exists|j: int|
            0 <= j < txs.len() && pending_from(#[trigger] p[i], txs[j], account_id) by {
            if i < pp.len() {
                assert(p[i] == pp[i]);
                let j = choose|j: int|
                    0 <= j < txs.drop_last().len() && pending_from(pp[i], txs.drop_last()[j], account_id);
                assert(txs.drop_last()[j] == txs[j]);
            } else {
                assert(pending_from(p[i], txs[txs.len() - 1], account_id));
            }
        }
    }
}

/// The memo of a bank transaction is made of its remittance info and the
/// text of its transaction type, each trimmed and left out when blank, the
/// two joined with ` | `; the type's key plays no part.
pub proof fn law_memo_parts(tx: AccountTransaction, other_key: Option<String>)
    ensures
        ({
            let rem = tx.remittance_info matches Some(x) && !is_blank_seq(x@);
            let typ = tx.transaction_type matches Some(t) && t.text matches Some(y) && !is_blank_seq(
                y@,
            );
            &&& !rem && !typ ==> memo_of(tx) is None
            &&& rem && !typ ==> memo_of(tx) == Some(trim_seq(tx.remittance_info->0@))
            &&& !rem && typ ==> memo_of(tx) == Some(trim_seq(tx.transaction_type->0.text->0@))
            &&& rem && typ ==> memo_of(tx) == Some(
                trim_seq(tx.remittance_info->0@) + " | "@ + trim_seq(
                    tx.transaction_type->0.text->0@,
                ),
            )
        }),
        memo_of(
            AccountTransaction {
                transaction_type: match tx.transaction_type {
                    Some(t) => Some(EnumText { key: other_key, text: t.text }),
                    None => None,
                },
                ..tx
            },
        ) == memo_of(tx),
{
    let parts = memo_parts(tx);
    let rem = tx.remittance_info matches Some(x) && !is_blank_seq(x@);
    let typ = tx.transaction_type matches Some(t) && t.text matches Some(y) && !is_blank_seq(y@);
    if rem && typ {
        let a = trim_seq(tx.remittance_info->0@);
        let b = trim_seq(tx.transaction_type->0.text->0@);
        assert(parts =~= seq![a, b]);
        assert(parts.drop_last() =~= seq![a]);
        assert(join_seq(parts.drop_last(), " | "@) == a);
    } else if rem {
        assert(parts =~= seq![trim_seq(tx.remittance_info->0@)]);
    } else if typ {
        assert(parts =~= seq![trim_seq(tx.transaction_type->0.text->0@)]);
    } else {
        assert(parts.len() == 0);
    }
}

/// The payee of a bank transaction is the first party, in the order
/// creditor, debtor, `deptor`, remitter, that has a non-blank holder name:
/// that name as it is.
pub proof fn law_payee_order(tx: AccountTransaction)
    ensures
        ({
            let named = |o: Option<AccountInformation>|
                o matches Some(i) && i.holder_name matches Some(n) && !is_blank_seq(n@);
            let name = |o: Option<AccountInformation>| o->Some_0.holder_name->Some_0@;
            &&& named(tx.creditor) ==> payee_of(tx) == Some(name(tx.creditor))
            &&& !named(tx.creditor) && named(tx.debtor) ==> payee_of(tx) == Some(name(tx.debtor))
            &&& !named(tx.creditor) && !named(tx.debtor) && named(tx.deptor) ==> payee_of(tx) == Some(
                name(tx.deptor),
            )
            &&& !named(tx.creditor) && !named(tx.debtor) && !named(tx.deptor) && named(tx.remitter)
                ==> payee_of(tx) == Some(name(tx.remitter))
            &&& !named(tx.creditor) && !named(tx.debtor) && !named(tx.deptor) && !named(tx.remitter)
                ==> payee_of(tx) is None
        }),
{
}

/// After a sync's imports are remembered, planning the same bank
/// transactions again imports nothing (whatever the counters then).
pub proof fn law_second_sync_imports_nothing(
    txs: Seq<AccountTransaction>,
    refs: Map<Seq<char>, ReferenceEntry>,
    counters: Map<Seq<char>, u32>,
    cutoff: Date,
    account_id: Seq<char>,
    later_counters: Map<Seq<char>, u32>,
)
    requires
        plan_spec(txs, refs, counters, cutoff, account_id) is Ok,
    ensures
        plan_spec(
            txs,
            record_spec(refs, planned(plan_spec(txs, refs, counters, cutoff, account_id))),
            later_counters,
            cutoff,
            account_id,
        ) == Ok::<(Seq<PendingView>, Map<Seq<char>, u32>), crate::commands::SyncErrorView>(
            (Seq::empty(), later_counters),
        ),
{
    let full = planned(plan_spec(txs, refs, counters, cutoff, account_id));
    let remembered = record_spec(refs, full);
    assert forall|n: int| 0 <= n <= txs.len() implies #[trigger] plan_spec(
        txs.take(n),
        remembered,
        later_counters,
        cutoff,
        account_id,
    ) == Ok::<(Seq<PendingView>, Map<Seq<char>, u32>), crate::commands::SyncErrorView>(
        (Seq::empty(), later_counters),
    ) by {
        lemma_second_plan_prefix(txs, refs, counters, cutoff, account_id, later_counters, n);
    }
    assert(txs.take(txs.len() as int) =~= txs);
}

/// Remembering transactions dated on or after `cutoff` in a state whose
/// transactions are all dated so keeps it so.
proof fn lemma_record_keeps_dates(
    refs: Map<Seq<char>, ReferenceEntry>,
    items: Seq<PendingView>,
    cutoff: Date,
)
    requires
        forall|k: Seq<char>| #[trigger] refs.contains_key(k) ==> !date_lt(refs[k].date, cutoff),
        forall|i: int|
            0 <= i < items.len() ==> !date_lt(#[trigger] items[i].reference_entry.date, cutoff),
    ensures
        forall|k: Seq<char>| #[trigger]
            record_spec(refs, items).contains_key(k) ==> !date_lt(
                record_spec(refs, items)[k].date,
                cutoff,
            ),
    decreases items.len(),
{
    if items.len() > 0 {
        let rest = items.drop_last();
        assert forall|i: int| 0 <= i < rest.len() implies !date_lt(
            #[trigger] rest[i].reference_entry.date,
            cutoff,
        ) by {
            assert(rest[i] == items[i]);
        }
        lemma_record_keeps_dates(refs, rest, cutoff);
        assert(!date_lt(items[items.len() - 1].reference_entry.date, cutoff));
        let r = record_spec(refs, items);
        assert(r == record_spec(refs, rest).insert(
            items.last().reference_key,
            items.last().reference_entry,
        ));
        assert forall|k: Seq<char>| #[trigger] r.contains_key(k) implies !date_lt(
            r[k].date,
            cutoff,
        ) by {
            if k != items.last().reference_key {
                assert(record_spec(refs, rest).contains_key(k));
            }
        }
    }
}

/// The cutoff of pruning never lies after the cutoff of a sync with the
/// same lookback on the same day.
proof fn lemma_prune_cutoff_not_later(today: Date, lookback_days: i64)
    requires
        valid_date(today),
        lookback_days > i64::MIN,
        prune_cutoff(today, lookback_days) is Some,
        date_shift(today, -lookback_days) is Some,
    ensures
        !date_lt(date_shift(today, -lookback_days)->0, prune_cutoff(today, lookback_days)->0),
{
    if lookback_days < 1 {
        let p = prune_cutoff(today, lookback_days)->0;
        let c = date_shift(today, -lookback_days)->0;
        assert(valid_date(p) && day_number(p) == day_number(today) - 1);
        assert(valid_date(c) && day_number(c) == day_number(today) - lookback_days);
        if date_lt(c, p) {
            lemma_date_lt_day_number(c, p);
        }
    }
}

/// A second sync on the same day as a first one, over the same bank
/// transactions: its pruning keeps every transaction the first sync left
/// remembered (those it found and those it imported), it imports nothing
/// (whatever its counters), and so the state it saves remembers exactly
/// what the first one's did. `today` is the day both syncs run on: pruning
/// is `State::prune_at(today, ..)`, the cutoff `sync_cutoff(today, ..)`,
/// planning `plan_sync` or `plan_imports`, and remembering
/// `record_imported`, whose contracts are the spec functions used here.
pub proof fn law_same_day_second_sync(
    txs: Seq<AccountTransaction>,
    refs: Map<Seq<char>, ReferenceEntry>,
    today: Date,
    lookback_days: i64,
    account_id: Seq<char>,
    counters: Map<Seq<char>, u32>,
    later_counters: Map<Seq<char>, u32>,
)
    requires
        valid_date(today),
        lookback_days > i64::MIN,
        prune_cutoff(today, lookback_days) is Some,
        date_shift(today, -lookback_days) is Some,
        plan_spec(
            txs,
            entries_since(refs, prune_cutoff(today, lookback_days)->0),
            counters,
            date_shift(today, -lookback_days)->0,
            account_id,
        ) is Ok,
    ensures
        ({
            let prune_at = prune_cutoff(today, lookback_days)->0;
            let cutoff = date_shift(today, -lookback_days)->0;
            let kept = entries_since(refs, prune_at);
            let first = planned(plan_spec(txs, kept, counters, cutoff, account_id));
            let after_first = record_spec(kept, first);
            let second = plan_spec(
                txs,
                entries_since(after_first, prune_at),
                later_counters,
                cutoff,
                account_id,
            );
            &&& entries_since(after_first, prune_at) == after_first
            &&& second == Ok::<(Seq<PendingView>, Map<Seq<char>, u32>), crate::commands::SyncErrorView>(
                (Seq::empty(), later_counters),
            )
            &&& record_spec(entries_since(after_first, prune_at), planned(second)) == after_first
        }),
{
    let prune_at = prune_cutoff(today, lookback_days)->0;
    let cutoff = date_shift(today, -lookback_days)->0;
    let kept = entries_since(refs, prune_at);
    let first = planned(plan_spec(txs, kept, counters, cutoff, account_id));
    let after_first = record_spec(kept, first);
    lemma_prune_cutoff_not_later(today, lookback_days);
    law_plan_skips_remembered_and_old(txs, kept, counters, cutoff, account_id);
    assert forall|i: int| 0 <= i < first.len() implies !date_lt(
        #[trigger] first[i].reference_entry.date,
        prune_at,
    ) by {
        assert(!date_lt(first[i].reference_entry.date, cutoff));
    }
    lemma_record_keeps_dates(kept, first, prune_at);
    assert(entries_since(after_first, prune_at) =~= after_first);
    law_second_sync_imports_nothing(txs, kept, counters, cutoff, account_id, later_counters);
}

proof fn lemma_second_plan_prefix(
    txs: Seq<AccountTransaction>,
    refs: Map<Seq<char>, ReferenceEntry>,
    counters: Map<Seq<char>, u32>,
    cutoff: Date,
    account_id: Seq<char>,
    later_counters: Map<Seq<char>, u32>,
    n: int,
)
    requires
        plan_spec(txs, refs, counters, cutoff, account_id) is Ok,
        0 <= n <= txs.len(),
    ensures
        plan_spec(
            txs.take(n),
            record_spec(refs, planned(plan_spec(txs, refs, counters, cutoff, account_id))),
            later_counters,
            cutoff,
            account_id,
        ) == Ok::<(Seq<PendingView>, Map<Seq<char>, u32>), crate::commands::SyncErrorView>(
            (Seq::empty(), later_counters),
        ),
    decreases n,
{
    let full = planned(plan_spec(txs, refs, counters, cutoff, account_id));
    let remembered = record_spec(refs, full);
    if n == 0 {
        assert(txs.take(0) =~= Seq::<AccountTransaction>::empty());
    } else {
        lemma_second_plan_prefix(txs, refs, counters, cutoff, account_id, later_counters, n - 1);
        assert(txs.take(n).drop_last() =~= txs.take(n - 1));
        let tx = txs[n - 1];
        assert(txs.take(n).last() == tx);
        lemma_plan_prefix(txs, refs, counters, cutoff, account_id, n);
        lemma_plan_prefix(txs, refs, counters, cutoff, account_id, n - 1);
        let first_before = plan_spec(txs.take(n - 1), refs, counters, cutoff, account_id);
        let first_after = plan_spec(txs.take(n), refs, counters, cutoff, account_id);
        assert(first_after == plan_step(first_before, tx, refs, cutoff, account_id));
        let pb = planned(first_before);
        let pa = planned(first_after);
        if pa.len() > pb.len() {
            // The transaction became pending: its key is remembered now.
            let k = pa[pb.len() as int].reference_key;
            assert(full[pb.len() as int] == pa[pb.len() as int]);
            lemma_record_contains(refs, full, k);
        } else {
            // The transaction was skipped; if for its key, that key was
            // remembered before and still is.
            match tx.booking_date {
                Some(bd) => match crate::date::spec_parse_date(bd@, "%Y-%m-%d"@) {
                    Some(date) => if !date_lt(date, cutoff) {
                        match crate::commands::spec_amount_to_milli(tx.amount.value@) {
                            Ok(amount) => {
                                let key = crate::commands::reference_key_text(tx, date, amount);
                                lemma_record_contains(refs, full, key);
                            },
                            Err(_) => {},
                        }
                    },
                    None => {},
                },
                None => {},
            }
        }
    }
}

/// Occurrence numbers continue after the remembered ones: when the counters
/// continue the remembered transactions (as `State::build_counters` makes
/// them), every transaction a sync imports has a larger occurrence number
/// than any remembered transaction of the same amount on the same date.
pub proof fn law_occurrences_continue(
    txs: Seq<AccountTransaction>,
    refs: Map<Seq<char>, ReferenceEntry>,
    counters: Map<Seq<char>, u32>,
    cutoff: Date,
    account_id: Seq<char>,
)
    requires
        txs.len() < u32::MAX,
        counters_have_room(counters, txs.len() as int),
        counters_continue(refs, counters),
        plan_spec(txs, refs, counters, cutoff, account_id) is Ok,
    ensures
        forall|i: int, key: Seq<char>|
            0 <= i < planned(plan_spec(txs, refs, counters, cutoff, account_id)).len()
                && #[trigger] refs.contains_key(key) && refs[key].date == planned(
                plan_spec(txs, refs, counters, cutoff, account_id),
            )[i].reference_entry.date && refs[key].amount_milli == #[trigger] planned(
                plan_spec(txs, refs, counters, cutoff, account_id),
            )[i].reference_entry.amount_milli ==> refs[key].occurrence < planned(
                plan_spec(txs, refs, counters, cutoff, account_id),
            )[i].reference_entry.occurrence,
{
    lemma_counters_grow(txs, refs, counters, cutoff, account_id, txs.len() as int);
    let p = planned(plan_spec(txs, refs, counters, cutoff, account_id));
    assert forall|i: int, key: Seq<char>|
        0 <= i < p.len() && #[trigger] refs.contains_key(key) && refs[key].date
            == p[i].reference_entry.date && refs[key].amount_milli
            == #[trigger] p[i].reference_entry.amount_milli implies refs[key].occurrence
        < p[i].reference_entry.occurrence by {
        let e = p[i].reference_entry;
        assert(entry_counter_key(refs[key]) == entry_counter_key(e));
        if refs[key].occurrence > 0 {
            assert(refs[key].occurrence <= counters[entry_counter_key(refs[key])]);
        }
    }
}

/// Within one sync, later imports of the same amount on the same date get
/// larger occurrence numbers.
pub proof fn law_occurrences_increase(
    txs: Seq<AccountTransaction>,
    refs: Map<Seq<char>, ReferenceEntry>,
    counters: Map<Seq<char>, u32>,
    cutoff: Date,
    account_id: Seq<char>,
)
    requires
        txs.len() < u32::MAX,
        counters_have_room(counters, txs.len() as int),
        plan_spec(txs, refs, counters, cutoff, account_id) is Ok,
    ensures
        forall|i: int, j: int|
            0 <= i < j < planned(plan_spec(txs, refs, counters, cutoff, account_id)).len()
                && #[trigger] planned(plan_spec(txs, refs, counters, cutoff, account_id))[i].reference_entry.date
                == #[trigger] planned(plan_spec(txs, refs, counters, cutoff, account_id))[j].reference_entry.date
                && planned(plan_spec(txs, refs, counters, cutoff, account_id))[i].reference_entry.amount_milli
                == planned(plan_spec(txs, refs, counters, cutoff, account_id))[j].reference_entry.amount_milli
                ==> planned(plan_spec(txs, refs, counters, cutoff, account_id))[i].reference_entry.occurrence
                < planned(plan_spec(txs, refs, counters, cutoff, account_id))[j].reference_entry.occurrence,
{
    lemma_counters_grow(txs, refs, counters, cutoff, account_id, txs.len() as int);
}

/// Every pending transaction's import id names its amount, date and
/// occurrence number.
proof fn lemma_plan_import_ids(
    txs: Seq<AccountTransaction>,
    refs: Map<Seq<char>, ReferenceEntry>,
    counters: Map<Seq<char>, u32>,
    cutoff: Date,
    account_id: Seq<char>,
)
    requires
        plan_spec(txs, refs, counters, cutoff, account_id) is Ok,
    ensures
        forall|i: int|
            0 <= i < planned(plan_spec(txs, refs, counters, cutoff, account_id)).len() ==> {
                let p = #[trigger] planned(plan_spec(txs, refs, counters, cutoff, account_id))[i];
                p.transaction.import_id == import_id_text(
                    p.reference_entry.amount_milli,
                    p.reference_entry.date,
                    p.reference_entry.occurrence,
                )
            },
    decreases txs.len(),
{
    if txs.len() > 0 {
        let prev = plan_spec(txs.drop_last(), refs, counters, cutoff, account_id);
        assert(prev is Ok);
        lemma_plan_import_ids(txs.drop_last(), refs, counters, cutoff, account_id);
    }
}

/// Within one sync, no two imports share an import id, so YNAB takes none
/// of them for a duplicate of another.
pub proof fn law_import_ids_distinct(
    txs: Seq<AccountTransaction>,
    refs: Map<Seq<char>, ReferenceEntry>,
    counters: Map<Seq<char>, u32>,
    cutoff: Date,
    account_id: Seq<char>,
)
    requires
        txs.len() < u32::MAX,
        counters_have_room(counters, txs.len() as int),
        plan_spec(txs, refs, counters, cutoff, account_id) is Ok,
    ensures
        forall|i: int, j: int|
            0 <= i < j < planned(plan_spec(txs, refs, counters, cutoff, account_id)).len()
                ==> #[trigger] planned(plan_spec(txs, refs, counters, cutoff, account_id))[i].transaction.import_id
                != #[trigger] planned(plan_spec(txs, refs, counters, cutoff, account_id))[j].transaction.import_id,
{
    let p = planned(plan_spec(txs, refs, counters, cutoff, account_id));
    lemma_plan_import_ids(txs, refs, counters, cutoff, account_id);
    law_occurrences_increase(txs, refs, counters, cutoff, account_id);
    assert forall|i: int, j: int| 0 <= i < j < p.len() implies #[trigger] p[i].transaction.import_id
        != #[trigger] p[j].transaction.import_id by {
        let ei = p[i].reference_entry;
        let ej = p[j].reference_entry;
        if p[i].transaction.import_id == p[j].transaction.import_id {
            lemma_import_id_injective(
                ei.amount_milli,
                ei.date,
                ei.occurrence,
                ej.amount_milli,
                ej.date,
                ej.occurrence,
            );
            assert(ei.occurrence < ej.occurrence);
        }
    }
}

/// What planning keeps true of the counters: they only grow, each pending
/// transaction's occurrence exceeds its count at the start and is at most
/// its count now, and occurrences of one amount on one date increase.
proof fn lemma_counters_grow(
    txs: Seq<AccountTransaction>,
    refs: Map<Seq<char>, ReferenceEntry>,
    counters: Map<Seq<char>, u32>,
    cutoff: Date,
    account_id: Seq<char>,
    total: int,
)
    requires
        plan_spec(txs, refs, counters, cutoff, account_id) is Ok,
        txs.len() <= total < u32::MAX,
        counters_have_room(counters, total),
    ensures
        counters_have_room(
            planned_counters(plan_spec(txs, refs, counters, cutoff, account_id)),
            total - txs.len(),
        ),
        ({
            let r = plan_spec(txs, refs, counters, cutoff, account_id);
            let p = planned(r);
            let c = planned_counters(r);
            &&& forall|k: Seq<char>| #[trigger]
                counter_value(c, k) >= counter_value(counters, k)
            &&& forall|i: int|
                0 <= i < p.len() ==> counter_value(counters, entry_counter_key(#[trigger] p[i].reference_entry))
                    < p[i].reference_entry.occurrence
            &&& forall|i: int|
                0 <= i < p.len() ==> #[trigger] p[i].reference_entry.occurrence <= counter_value(
                    c,
                    entry_counter_key(p[i].reference_entry),
                )
            &&& forall|i: int, j: int|
                0 <= i < j < p.len() && #[trigger] p[i].reference_entry.date == #[trigger] p[j].reference_entry.date
                    && p[i].reference_entry.amount_milli == p[j].reference_entry.amount_milli
                    ==> p[i].reference_entry.occurrence < p[j].reference_entry.occurrence
        }),
    decreases txs.len(),
{
    if txs.len() > 0 {
        let prev = plan_spec(txs.drop_last(), refs, counters, cutoff, account_id);
        assert(prev is Ok);
        lemma_counters_grow(txs.drop_last(), refs, counters, cutoff, account_id, total);
        lemma_plan_step_room(prev, txs.last(), refs, cutoff, account_id, total - (txs.len() - 1));
        let r = plan_spec(txs, refs, counters, cutoff, account_id);
        let pp = planned(prev);
        let pc = planned_counters(prev);
        let p = planned(r);
        let c = planned_counters(r);
        if p.len() > pp.len() {
            let e = p[pp.len() as int].reference_entry;
            let ck = entry_counter_key(e);
            if pc.contains_key(ck) {
                assert(pc[ck] + (total - (txs.len() - 1)) < u32::MAX);
            }
            assert(p == pp.push(p[pp.len() as int]));
            assert(e.occurrence == counter_value(pc, ck) + 1);
            assert(c == pc.insert(ck, e.occurrence));
            assert forall|k: Seq<char>| #[trigger] counter_value(c, k) >= counter_value(counters, k) by {
                assert(counter_value(pc, k) >= counter_value(counters, k));
            }
            assert forall|i: int|
                0 <= i < p.len() implies #[trigger] p[i].reference_entry.occurrence <= counter_value(
                    c,
                    entry_counter_key(p[i].reference_entry),
                ) by {
                if i < pp.len() {
                    assert(p[i] == pp[i]);
                }
            }
            assert forall|i: int|
                0 <= i < p.len() implies counter_value(counters, entry_counter_key(#[trigger] p[i].reference_entry))
                    < p[i].reference_entry.occurrence by {
                if i < pp.len() {
                    assert(p[i] == pp[i]);
                } else {
                    assert(counter_value(pc, ck) >= counter_value(counters, ck));
                }
            }
            assert forall|i: int, j: int|
                0 <= i < j < p.len() && #[trigger] p[i].reference_entry.date == #[trigger] p[j].reference_entry.date
                    && p[i].reference_entry.amount_milli == p[j].reference_entry.amount_milli
                    implies p[i].reference_entry.occurrence < p[j].reference_entry.occurrence by {
                if j < pp.len() {
                    assert(p[i] == pp[i] && p[j] == pp[j]);
                } else {
                    assert(p[i] == pp[i]);
                    assert(entry_counter_key(p[i].reference_entry) == ck);
                }
            }
        } else {
            assert(p =~= pp);
        }
    }
}

/// Remembering one list after another is remembering the two lists
/// together; so remembering the batches of a sync one by one remembers all
/// of its imports.
pub proof fn law_record_in_batches(
    refs: Map<Seq<char>, ReferenceEntry>,
    first: Seq<PendingView>,
    second: Seq<PendingView>,
)
    ensures
        record_spec(record_spec(refs, first), second) == record_spec(refs, first + second),
    decreases second.len(),
{
    if second.len() == 0 {
        assert(first + second =~= first);
    } else {
        law_record_in_batches(refs, first, second.drop_last());
        assert((first + second).drop_last() =~= first + second.drop_last());
        assert((first + second).last() == second.last());
    }
}

} // verus!
