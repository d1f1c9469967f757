use comdirect_ynab::commands::{
    amount_to_milli, build_memo, build_reference_key, import_batches, import_id,
    next_occurrence, pick_payee_name, plan_imports, record_imported, sync_cutoff,
    current_sync_cutoff, next_session_step, lists_budget_accounts, plan_sync,
    AmountError, FetchProgress, PendingTransaction, SessionStep, SyncError,
};
use comdirect_ynab::comdirect::Session;
use comdirect_ynab::config::YnabConfig;
use comdirect_ynab::comdirect::{
    AccountInformation, AccountTransaction, AccountTransactionList, AmountValue, EnumText,
    PagingInfo,
};
use comdirect_ynab::date::Date;
use comdirect_ynab::state::{ReferenceEntry, State};
use comdirect_ynab::text_map::TextMap;

fn date(year: i32, month: u32, day: u32) -> Date {
    Date { year, month, day }
}

fn sample_transaction(
    reference: Option<&str>,
    remittance: Option<&str>,
    tx_type: Option<&str>,
) -> AccountTransaction {
    AccountTransaction {
        reference: reference.map(|value| value.to_string()),
        booking_status: None,
        booking_date: None,
        amount: AmountValue { value: "0".to_string(), unit: None },
        creditor: None,
        debtor: None,
        deptor: None,
        remitter: None,
        remittance_info: remittance.map(|value| value.to_string()),
        transaction_type: tx_type.map(|value| EnumText { key: None, text: Some(value.to_string()) }),
    }
}

fn booked(booking_date: &str, amount: &str, reference: Option<&str>) -> AccountTransaction {
    let mut tx = sample_transaction(reference, Some("Rent"), Some("Transfer"));
    tx.booking_date = Some(booking_date.to_string());
    tx.amount = AmountValue { value: amount.to_string(), unit: Some("EUR".to_string()) };
    tx
}

#[test]
fn amount_to_milli_handles_sign_and_scale() {
    assert_eq!(amount_to_milli("12.345").unwrap(), 12_345);
    assert_eq!(amount_to_milli("-10.10").unwrap(), -10_100);
}

#[test]
fn amount_to_milli_rounds_half_to_even_and_rejects_text() {
    assert_eq!(amount_to_milli("0.0005").unwrap(), 0);
    assert_eq!(amount_to_milli("0.0015").unwrap(), 2);
    assert_eq!(amount_to_milli("-0.0015").unwrap(), -2);
    assert_eq!(amount_to_milli("0").unwrap(), 0);
    match amount_to_milli("abc") {
        Err(AmountError::Invalid(text)) => assert_eq!(text, "abc"),
        other => panic!("unexpected {:?}", other),
    }
    assert!(matches!(amount_to_milli("9223372036854775.808"), Err(AmountError::NotRepresentable)));
}

#[test]
fn amount_to_milli_stays_exact_when_the_product_needs_rescaling() {
    // The largest mantissa at scale 20: times 1000 it no longer fits in 96
    // bits, and the value is still converted exactly.
    assert_eq!(amount_to_milli("792281625.14264337593543950335").unwrap(), 792281625143);
    assert_eq!(amount_to_milli("-792281625.14264337593543950335").unwrap(), -792281625143);
}

#[test]
fn session_steps() {
    let session = |active| Session { identifier: "s".to_string(), session_tan_active: active, activated_2fa: active };
    assert_eq!(next_session_step(&session(true), true), SessionStep::Proceed);
    assert_eq!(next_session_step(&session(true), false), SessionStep::Proceed);
    assert_eq!(next_session_step(&session(false), true), SessionStep::Activate);
    assert_eq!(next_session_step(&session(false), false), SessionStep::Inactive);
    let ynab = |budget: &str| YnabConfig { token: "op://t".to_string(), budget_id: budget.to_string(), account_id: String::new() };
    assert!(lists_budget_accounts(&ynab("b1")));
    assert!(!lists_budget_accounts(&ynab("")));
}

#[test]
fn build_reference_key_prefers_reference() {
    let tx = sample_transaction(Some(" ref-123 "), None, None);
    let key = build_reference_key(&tx, date(2026, 1, 21), 1000);
    assert_eq!(key, "ref-123");
}

#[test]
fn build_reference_key_uses_memo_when_missing_reference() {
    let tx = sample_transaction(None, Some("hello\nworld"), None);
    let key = build_reference_key(&tx, date(2026, 1, 21), 1000);
    assert_eq!(key, "2026-01-21|1000|hello world");
}

#[test]
fn build_reference_key_ignores_blank_reference() {
    let tx = sample_transaction(Some("  "), Some("a\r\nb"), None);
    let key = build_reference_key(&tx, date(2026, 1, 2), -5);
    assert_eq!(key, "2026-01-02|-5|a  b");
}

#[test]
fn build_memo_combines_remittance_and_type() {
    let tx = sample_transaction(None, Some("Rent"), Some("Transfer"));
    let memo = build_memo(&tx).unwrap();
    assert_eq!(memo, "Rent | Transfer");
}

#[test]
fn build_memo_handles_missing_parts() {
    let tx = sample_transaction(None, None, Some("Transfer"));
    let memo = build_memo(&tx).unwrap();
    assert_eq!(memo, "Transfer");
}

#[test]
fn build_memo_trims_and_drops_blank_parts() {
    let tx = sample_transaction(None, Some("  Rent \n"), Some("   "));
    assert_eq!(build_memo(&tx).unwrap(), "Rent");
    let empty = sample_transaction(None, Some(" "), None);
    assert_eq!(build_memo(&empty), None);
}

#[test]
fn next_occurrence_increments_per_amount_date() {
    let d = date(2026, 1, 21);
    let mut counters = TextMap::new();
    let first = next_occurrence(&mut counters, d, 1000);
    let second = next_occurrence(&mut counters, d, 1000);
    let other = next_occurrence(&mut counters, d, 2000);
    assert_eq!(first, 1);
    assert_eq!(second, 2);
    assert_eq!(other, 1);
}

#[test]
fn pick_payee_name_prefers_creditor() {
    let creditor = AccountInformation { holder_name: Some("Creditor".to_string()), iban: None, bic: None };
    let debtor = AccountInformation { holder_name: Some("Debtor".to_string()), iban: None, bic: None };
    let mut tx = sample_transaction(None, None, None);
    tx.creditor = Some(creditor);
    tx.debtor = Some(debtor);
    assert_eq!(pick_payee_name(&tx), Some("Creditor".to_string()));
}

#[test]
fn pick_payee_name_skips_blank_names() {
    let mut tx = sample_transaction(None, None, None);
    tx.creditor = Some(AccountInformation { holder_name: Some(" ".to_string()), iban: None, bic: None });
    tx.deptor = Some(AccountInformation { holder_name: Some("Deptor".to_string()), iban: None, bic: None });
    tx.remitter = Some(AccountInformation { holder_name: Some("Remitter".to_string()), iban: None, bic: None });
    assert_eq!(pick_payee_name(&tx), Some("Deptor".to_string()));
    assert_eq!(pick_payee_name(&sample_transaction(None, None, None)), None);
}

#[test]
fn import_id_has_amount_date_and_occurrence() {
    assert_eq!(import_id(-25500, date(2026, 3, 5), 2), "YNAB:-25500:2026-03-05:2");
}

#[test]
fn plan_imports_builds_pending_transactions() {
    let state = State::new();
    let mut counters = TextMap::new();
    let txs = vec![
        booked("2026-01-20", "-12.50", Some("r1")),
        booked("2026-01-20", "-12.50", Some("r2")),
        booked("2025-12-01", "-1.00", Some("old")),
        sample_transaction(Some("undated"), None, None),
    ];
    let pending = plan_imports(&txs, &state, &mut counters, date(2026, 1, 1), &"acct".to_string()).unwrap();
    assert_eq!(pending.len(), 2);
    assert_eq!(pending[0].transaction.import_id, "YNAB:-12500:2026-01-20:1");
    assert_eq!(pending[1].transaction.import_id, "YNAB:-12500:2026-01-20:2");
    assert_eq!(pending[0].transaction.date, "2026-01-20");
    assert_eq!(pending[0].transaction.account_id, "acct");
    assert_eq!(pending[0].transaction.memo, Some("Rent | Transfer".to_string()));
    assert_eq!(pending[0].transaction.cleared, Some("uncleared".to_string()));
    assert_eq!(pending[1].reference_key, "r2");
    assert_eq!(
        pending[1].reference_entry,
        ReferenceEntry { date: date(2026, 1, 20), amount_milli: -12500, occurrence: 2 }
    );
}

#[test]
fn import_ids_of_one_sync_are_distinct() {
    let state = State::new();
    let mut counters = TextMap::new();
    let txs = vec![
        booked("2026-01-20", "-12.50", Some("a")),
        booked("2026-01-20", "-12.50", Some("b")),
        booked("2026-01-20", "-12.5", Some("c")),
        booked("2026-01-21", "-12.50", Some("d")),
        booked("2026-01-20", "12.50", Some("e")),
    ];
    let pending = plan_imports(&txs, &state, &mut counters, date(2026, 1, 1), &"acct".to_string()).unwrap();
    assert_eq!(pending.len(), 5);
    for i in 0..pending.len() {
        for j in (i + 1)..pending.len() {
            assert_ne!(pending[i].transaction.import_id, pending[j].transaction.import_id);
        }
    }
    assert_eq!(pending[2].transaction.import_id, "YNAB:-12500:2026-01-20:3");
}

#[test]
fn plan_imports_reports_bad_dates_and_amounts() {
    let state = State::new();
    let mut counters = TextMap::new();
    let bad_date = vec![booked("20.01.2026", "1", None)];
    match plan_imports(&bad_date, &state, &mut counters, date(2026, 1, 1), &"a".to_string()) {
        Err(SyncError::InvalidBookingDate(d)) => assert_eq!(d, "20.01.2026"),
        other => panic!("unexpected {:?}", other),
    }
    let bad_amount = vec![booked("2026-01-20", "1,5", None)];
    match plan_imports(&bad_amount, &state, &mut counters, date(2026, 1, 1), &"a".to_string()) {
        Err(SyncError::Amount(AmountError::Invalid(v))) => assert_eq!(v, "1,5"),
        other => panic!("unexpected {:?}", other),
    }
}

#[test]
fn same_day_second_sync_keeps_the_state() {
    // Lookback 0: the sync takes transactions from today on, pruning keeps
    // one day more.
    let today = date(2026, 1, 21);
    let prune_at = date(2026, 1, 20);
    let mut state = State::new();
    let txs = vec![
        booked("2026-01-21", "-12.50", Some("r1")),
        booked("2026-01-20", "3", Some("r0")),
        booked("2026-01-21", "7", None),
    ];
    state.prune_before(prune_at);
    let mut counters = state.build_counters();
    let pending = plan_imports(&txs, &state, &mut counters, today, &"a".to_string()).unwrap();
    assert_eq!(pending.len(), 2);
    for batch in import_batches(pending) {
        record_imported(&mut state, &batch);
    }
    let remembered: Vec<(String, ReferenceEntry)> = (0..state.reference_occurrences.len())
        .map(|i| {
            (state.reference_occurrences.key_at(i).clone(), *state.reference_occurrences.value_at(i))
        })
        .collect();
    state.prune_before(prune_at);
    assert_eq!(state.reference_occurrences.len(), remembered.len());
    for (key, entry) in &remembered {
        assert_eq!(state.reference_occurrences.get(key), Some(entry));
    }
    let again = plan_sync(&txs, &state, today, &"a".to_string()).unwrap();
    assert!(again.is_empty());
}

#[test]
fn second_sync_imports_nothing() {
    let mut state = State::new();
    let txs = vec![
        booked("2026-01-20", "-12.50", Some("r1")),
        booked("2026-01-21", "3", None),
    ];
    let mut counters = state.build_counters();
    let pending = plan_imports(&txs, &state, &mut counters, date(2026, 1, 1), &"a".to_string()).unwrap();
    assert_eq!(pending.len(), 2);
    for batch in import_batches(pending) {
        record_imported(&mut state, &batch);
    }
    let mut counters = state.build_counters();
    let again = plan_imports(&txs, &state, &mut counters, date(2026, 1, 1), &"a".to_string()).unwrap();
    assert!(again.is_empty());
}

#[test]
fn occurrences_continue_after_remembered_ones() {
    let mut state = State::new();
    state.reference_occurrences.insert(
        "earlier".to_string(),
        ReferenceEntry { date: date(2026, 1, 20), amount_milli: 3000, occurrence: 4 },
    );
    let mut counters = state.build_counters();
    let txs = vec![booked("2026-01-20", "3", Some("new"))];
    let pending = plan_imports(&txs, &state, &mut counters, date(2026, 1, 1), &"a".to_string()).unwrap();
    assert_eq!(pending[0].reference_entry.occurrence, 5);
    assert_eq!(pending[0].transaction.import_id, "YNAB:3000:2026-01-20:5");
    let planned = plan_sync(&txs, &state, date(2026, 1, 1), &"a".to_string()).unwrap();
    assert_eq!(planned[0].transaction.import_id, "YNAB:3000:2026-01-20:5");
}

#[test]
fn import_batches_hold_at_most_one_hundred() {
    let mut pending = Vec::new();
    for i in 0..250 {
        pending.push(PendingTransaction {
            transaction: comdirect_ynab::ynab::Transaction {
                account_id: "a".to_string(),
                date: "2026-01-01".to_string(),
                amount: i,
                payee_name: None,
                memo: None,
                import_id: format!("id{}", i),
                cleared: None,
            },
            reference_key: format!("k{}", i),
            reference_entry: ReferenceEntry { date: date(2026, 1, 1), amount_milli: i, occurrence: 1 },
        });
    }
    let batches = import_batches(pending);
    assert_eq!(batches.iter().map(|b| b.len()).collect::<Vec<_>>(), vec![100, 100, 50]);
    assert_eq!(batches[2][49].reference_key, "k249");
    assert!(import_batches(Vec::new()).is_empty());
}

#[test]
fn sync_cutoff_goes_back_the_lookback_window() {
    assert_eq!(sync_cutoff(date(2026, 3, 1), 30), Some(date(2026, 1, 30)));
    assert_eq!(sync_cutoff(date(2024, 3, 1), 1), Some(date(2024, 2, 29)));
    assert_eq!(sync_cutoff(date(2026, 3, 1), -1), Some(date(2026, 3, 2)));
    assert_eq!(sync_cutoff(date(2026, 3, 1), i64::MIN), None);
    assert_eq!(sync_cutoff(date(2026, 3, 1), 4_000_000_000), None);
}

#[test]
fn current_sync_cutoff_lies_in_the_past() {
    let cutoff = current_sync_cutoff(30).unwrap();
    let today = current_sync_cutoff(0).unwrap();
    assert_eq!(sync_cutoff(today, 30), Some(cutoff));
    assert!(cutoff.year >= 2024);
    assert_eq!(current_sync_cutoff(i64::MIN), None);
}

#[test]
fn fetch_progress_walks_pages() {
    let mut progress = FetchProgress::new();
    let page = AccountTransactionList {
        values: vec![booked("2026-01-20", "1", None), booked("2026-01-19", "1", None)],
        paging: Some(PagingInfo { index: Some(0), matches: Some(3) }),
    };
    progress.absorb_page(page, date(2026, 1, 1));
    assert!(!progress.done);
    assert_eq!(progress.paging_first, 2);
    let page = AccountTransactionList {
        values: vec![booked("2026-01-18", "1", None)],
        paging: Some(PagingInfo { index: Some(2), matches: Some(3) }),
    };
    progress.absorb_page(page, date(2026, 1, 1));
    assert!(progress.done);
    assert_eq!(progress.transactions.len(), 3);

    let mut progress = FetchProgress::new();
    progress.absorb_page(
        AccountTransactionList { values: vec![booked("2025-12-01", "1", None)], paging: None },
        date(2026, 1, 1),
    );
    assert!(progress.done);
    assert_eq!(progress.paging_first, 0);

    let mut progress = FetchProgress::new();
    progress.absorb_page(AccountTransactionList { values: vec![], paging: None }, date(2026, 1, 1));
    assert!(progress.done);
}
