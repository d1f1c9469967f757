use comdirect_ynab::cli::{Cli, Command, TanType};
use comdirect_ynab::comdirect::{
    account_balances_url, account_transactions_url, activate_session_url, auth_url,
    bearer_value, challenge_header_value, collect_accounts, extract_holder_name, first_session,
    format_challenge, primary_token_form, request_info_header, request_info_value,
    secondary_token_form, session_activation_body, session_status_url, tan_type_header_value,
    transaction_query, validate_session_url, Account, AccountBalance, AccountBalanceList,
    AccountInformation, ComdirectCredentials, ComdirectError, Session, TanChallenge,
};
use comdirect_ynab::commands::{
    budget_line, choose_tan_method, fallback_user_id, find_account_by_iban, init_config,
    open_accounts, prompt_select_account, prompt_select_budget, resolve_comdirect_credentials,
    tan_input_required, ynab_account_line, CommandError,
};
use comdirect_ynab::config::{ComdirectConfig, OpConfig};
use comdirect_ynab::commands::sync_cutoff;
use comdirect_ynab::date::{format_date, Date};
use comdirect_ynab::decimal::{milli_units, DecimalParts};
use comdirect_ynab::op::{secret_from_output, validate_reference, OpError};
use comdirect_ynab::paths::{paths_for_config, paths_in, Paths, PathsError};
use comdirect_ynab::prompt::{
    parse_usize, prompt_default_text, prompt_text, resolve_default, selection_menu,
    selection_outcome, PromptError,
};
use comdirect_ynab::state::{ReferenceEntry, State};
use comdirect_ynab::text::{i64_text, trim};
use comdirect_ynab::ynab::{
    account_transactions_url as ynab_account_transactions_url, authorization_value,
    budget_accounts_url, budget_transactions_url, budgets_url, latest_transaction_date,
    AccountSummary, BudgetSummary, YnabAccountTransaction,
};

fn ymd(year: i32, month: u32, day: u32) -> Date {
    Date { year, month, day }
}

fn account(id: &str, iban: Option<&str>) -> Account {
    Account {
        account_id: id.to_string(),
        account_display_id: None,
        iban: iban.map(|s| s.to_string()),
        account_type: None,
    }
}

#[test]
fn tan_types_have_api_names() {
    assert_eq!(TanType::MTan.as_str(), "M_TAN");
    assert_eq!(TanType::PTan.as_str(), "P_TAN");
    assert_eq!(TanType::PTanPush.as_str(), "P_TAN_PUSH");
}

#[test]
fn sync_is_the_default_command() {
    assert_eq!(Cli { config: None, command: None }.effective_command(), Command::Sync);
    assert_eq!(Cli { config: None, command: Some(Command::Init) }.effective_command(), Command::Init);
}

#[test]
fn holder_names_must_not_be_blank() {
    let info = Some(AccountInformation { holder_name: Some(" \t".to_string()), iban: None, bic: None });
    assert_eq!(extract_holder_name(&info), None);
    let info = Some(AccountInformation { holder_name: Some(" Jo ".to_string()), iban: None, bic: None });
    assert_eq!(extract_holder_name(&info), Some(" Jo ".to_string()));
    assert_eq!(extract_holder_name(&None), None);
}

#[test]
fn challenges_are_described() {
    let mut c = TanChallenge { id: "1".to_string(), tan_type: "P_TAN".to_string(), challenge: None, available_types: None };
    assert_eq!(format_challenge(&c), "TAN type: P_TAN");
    c.available_types = Some(vec![]);
    assert_eq!(format_challenge(&c), "TAN type: P_TAN");
    c.challenge = Some("abc".to_string());
    c.available_types = Some(vec!["M_TAN".to_string(), "P_TAN".to_string()]);
    assert_eq!(format_challenge(&c), "TAN type: P_TAN (challenge: abc; available: M_TAN, P_TAN)");
}

#[test]
fn comdirect_requests_are_addressed() {
    assert_eq!(auth_url(), "https://api.comdirect.de/oauth/token");
    assert_eq!(session_status_url("u1"), "https://api.comdirect.de/api/session/clients/u1/v1/sessions");
    assert_eq!(
        validate_session_url("u1", "s1"),
        "https://api.comdirect.de/api/session/clients/u1/v1/sessions/s1/validate"
    );
    assert_eq!(activate_session_url("u1", "s1"), "https://api.comdirect.de/api/session/clients/u1/v1/sessions/s1");
    assert_eq!(account_balances_url("user"), "https://api.comdirect.de/api/banking/clients/user/v2/accounts/balances");
    assert_eq!(account_transactions_url("A1"), "https://api.comdirect.de/api/banking/v1/accounts/A1/transactions");
    assert_eq!(bearer_value("tok"), "Bearer tok");
    let query = transaction_query(-20);
    assert_eq!(query[2], ("paging-first".to_string(), "-20".to_string()));
    assert_eq!(query[0], ("transactionState".to_string(), "BOOKED".to_string()));
}

#[test]
fn token_forms_carry_the_credentials() {
    let creds = ComdirectCredentials {
        client_id: "id".to_string(),
        client_secret: "secret".to_string(),
        username: "name".to_string(),
        pin: "1234".to_string(),
    };
    let form = primary_token_form(&creds);
    assert_eq!(form.len(), 5);
    assert_eq!(form[2], ("grant_type".to_string(), "password".to_string()));
    assert_eq!(form[4], ("password".to_string(), "1234".to_string()));
    let form = secondary_token_form(&creds, "primary");
    assert_eq!(form[2], ("grant_type".to_string(), "cd_secondary".to_string()));
    assert_eq!(form[3], ("token".to_string(), "primary".to_string()));
}

#[test]
fn json_values_are_escaped() {
    assert_eq!(tan_type_header_value("a\"b"), "{\"typ\":\"a\\\"b\"}");
    assert_eq!(tan_type_header_value("M_TAN"), "{\"typ\":\"M_TAN\"}");
    assert_eq!(challenge_header_value("c\n1"), "{\"id\":\"c\\n1\"}");
    assert_eq!(challenge_header_value("\u{1}\u{1f}\\é"), "{\"id\":\"\\u0001\\u001f\\\\é\"}");
    assert_eq!(
        session_activation_body("S"),
        "{\"activated2FA\":true,\"identifier\":\"S\",\"sessionTanActive\":true}"
    );
    assert_eq!(
        request_info_value("s", "r"),
        "{\"clientRequestId\":{\"requestId\":\"r\",\"sessionId\":\"s\"}}"
    );
}

#[test]
fn request_info_header_holds_two_uuids() {
    let header = request_info_header();
    assert!(header.starts_with("{\"clientRequestId\":{\"requestId\":\""));
    assert_eq!(header.len(), "{\"clientRequestId\":{\"requestId\":\"\",\"sessionId\":\"\"}}".len() + 72);
}

#[test]
fn first_session_and_accounts() {
    assert_eq!(first_session(vec![]).unwrap_err(), ComdirectError::NoSessionReturned);
    let s = first_session(vec![
        Session { identifier: "a".to_string(), session_tan_active: true, activated_2fa: true },
        Session { identifier: "b".to_string(), session_tan_active: false, activated_2fa: false },
    ])
    .unwrap();
    assert_eq!(s.identifier, "a");

    let list = AccountBalanceList {
        values: vec![
            AccountBalance { account: Some(account("", Some("DE1"))), account_id: Some("X".to_string()) },
            AccountBalance { account: None, account_id: Some("Y".to_string()) },
            AccountBalance { account: None, account_id: None },
        ],
    };
    let accounts = collect_accounts(list).unwrap();
    assert_eq!(accounts.len(), 2);
    assert_eq!(accounts[0].account_id, "X");
    assert_eq!(accounts[0].iban, Some("DE1".to_string()));
    assert_eq!(accounts[1].account_id, "Y");
    let empty = AccountBalanceList { values: vec![AccountBalance { account: None, account_id: None }] };
    assert_eq!(collect_accounts(empty).unwrap_err(), ComdirectError::NoAccounts);
}

#[test]
fn accounts_are_found_by_iban() {
    let accounts = vec![account("1", None), account("2", Some("DE2")), account("3", Some("DE2"))];
    assert_eq!(find_account_by_iban(&accounts, "DE2").unwrap().account_id, "2");
    assert_eq!(find_account_by_iban(&accounts, "DE9").unwrap_err(), CommandError::NoMatchingAccount);
}

#[test]
fn credentials_are_read_in_order() {
    let config = ComdirectConfig {
        user_id: "user".to_string(),
        iban: "DE".to_string(),
        client_id: "op://a".to_string(),
        client_secret: "op://b".to_string(),
        username: "op://c".to_string(),
        pin: "op://d".to_string(),
        tan_method: "M_TAN".to_string(),
    };
    let op = OpConfig { service_account_token_env: "TOKEN".to_string() };
    let creds = resolve_comdirect_credentials(&config, &op, |r: &String, e: &String| -> Result<String, String> {
        Ok(format!("{}@{}", r, e))
    })
    .unwrap();
    assert_eq!(creds.client_id, "op://a@TOKEN");
    assert_eq!(creds.pin, "op://d@TOKEN");
    let failed = resolve_comdirect_credentials(&config, &op, |r: &String, _e: &String| -> Result<String, String> {
        if r == "op://c" { Err("no".to_string()) } else { Ok(r.clone()) }
    });
    assert_eq!(failed.unwrap_err(), "no");
}

#[test]
fn tan_choices() {
    assert_eq!(choose_tan_method(Some(TanType::PTanPush), &"M_TAN".to_string()), "P_TAN_PUSH");
    assert_eq!(choose_tan_method(None, &"P_TAN".to_string()), "P_TAN");
    let mut c = TanChallenge { id: "1".to_string(), tan_type: "P_TAN_PUSH".to_string(), challenge: None, available_types: None };
    assert!(!tan_input_required(&c));
    c.tan_type = "M_TAN".to_string();
    assert!(tan_input_required(&c));
    assert_eq!(fallback_user_id("user"), None);
    assert_eq!(fallback_user_id("123"), Some("user".to_string()));
}

#[test]
fn init_and_accounts_helpers() {
    let accounts = vec![
        AccountSummary { id: "1".to_string(), name: "A".to_string(), closed: true },
        AccountSummary { id: "2".to_string(), name: "B".to_string(), closed: false },
    ];
    assert_eq!(ynab_account_line(&accounts[0]), "- A (1, closed)");
    assert_eq!(ynab_account_line(&accounts[1]), "- B (2, open)");
    assert_eq!(prompt_select_account(&accounts), vec!["A (1)".to_string(), "B (2)".to_string()]);
    let open = open_accounts(accounts);
    assert_eq!(open.len(), 1);
    assert_eq!(open[0].id, "2");
    let budgets = vec![BudgetSummary { id: "b1".to_string(), name: "Home".to_string() }];
    assert_eq!(prompt_select_budget(&budgets), vec!["Home (b1)".to_string()]);
    assert_eq!(budget_line(&budgets[0]), "- Home (b1)");
    let config = init_config(
        "user".into(), "DE".into(), "op://1".into(), "op://2".into(), "op://3".into(),
        "op://4".into(), "op://5".into(), "b1".into(), "a1".into(),
    );
    assert_eq!(config.comdirect.tan_method, "M_TAN");
    assert_eq!(config.sync.lookback_days, 30);
    assert_eq!(config.op.service_account_token_env, "OP_SERVICE_ACCOUNT_TOKEN");
    assert_eq!(config.ynab.account_id, "a1");
}

#[test]
fn op_references_and_output() {
    assert!(validate_reference("  op://vault/item/field ").is_ok());
    assert_eq!(validate_reference("vault/item").unwrap_err(), OpError::InvalidReference);
    assert_eq!(secret_from_output(b" s3cret\n").unwrap(), "s3cret");
    assert_eq!(secret_from_output(&[0xff, 0xfe]).unwrap_err(), OpError::NotUtf8);
}

#[test]
fn prompts() {
    assert_eq!(prompt_text("IBAN"), "IBAN: ");
    assert_eq!(prompt_default_text("user id", "user"), "user id [user]: ");
    assert_eq!(resolve_default("  ", "user"), "user");
    assert_eq!(resolve_default(" 42 ", "user"), "42");
    let lines = selection_menu("YNAB budget", &vec!["A (1)".to_string(), "B (2)".to_string()]).unwrap();
    assert_eq!(lines, vec!["YNAB budget:".to_string(), "  1) A (1)".to_string(), "  2) B (2)".to_string()]);
    assert!(matches!(selection_menu("YNAB budget", &vec![]), Err(PromptError::NoItems(t)) if t == "YNAB budget"));
    assert_eq!(parse_usize("+17"), Some(17));
    assert_eq!(parse_usize("18446744073709551616"), None);
    assert_eq!(parse_usize("-1"), None);
    assert_eq!(parse_usize("+"), None);
    assert!(matches!(selection_outcome("2", 2), Ok(Some(1))));
    assert!(matches!(selection_outcome("3", 2), Ok(None)));
    assert!(matches!(selection_outcome("0", 2), Ok(None)));
    assert!(matches!(selection_outcome("x", 2), Err(PromptError::NotANumber)));
}

#[test]
fn paths_follow_the_config() {
    let paths = paths_for_config("/home/me/.config/tool/config.toml".to_string()).unwrap();
    assert_eq!(paths.base_dir, "/home/me/.config/tool");
    assert_eq!(paths.state, "/home/me/.config/tool/state.json");
    assert!(paths_for_config("/".to_string()).is_err());
}

#[test]
fn paths_in_a_data_directory() {
    let mac = paths_in("/Users/h/Library/Application Support".to_string(), None).unwrap();
    assert_eq!(mac.config, "/Users/h/Library/Application Support/comdirect-ynab/config.toml");
    assert_eq!(mac.base_dir, "/Users/h/Library/Application Support/comdirect-ynab");
    assert_eq!(mac.state, "/Users/h/Library/Application Support/comdirect-ynab/state.json");
    let chosen = paths_in("/data".to_string(), Some("/etc/tool/c.toml".to_string())).unwrap();
    assert_eq!(chosen.config, "/etc/tool/c.toml");
    assert_eq!(chosen.state, "/etc/tool/state.json");
    assert_eq!(paths_in("/data".to_string(), Some("/".to_string())).unwrap_err(), PathsError::NoParent);
}

#[test]
fn default_config_lies_in_the_app_directory() {
    match Paths::new(None) {
        Ok(paths) => {
            assert!(paths.config.ends_with("/comdirect-ynab/config.toml"));
            assert!(paths.base_dir.ends_with("/comdirect-ynab"));
            assert!(paths.state.ends_with("/comdirect-ynab/state.json"));
        }
        Err(error) => assert_eq!(error, PathsError::NoAppDir),
    }
    if let Ok(paths) = Paths::new(Some("/tmp/x/c.toml".to_string())) {
        assert_eq!(paths.config, "/tmp/x/c.toml");
        assert_eq!(paths.state, "/tmp/x/state.json");
    }
}

#[test]
fn ynab_requests_and_dates() {
    assert_eq!(budgets_url(), "https://api.ynab.com/v1/budgets");
    assert_eq!(budget_accounts_url("b"), "https://api.ynab.com/v1/budgets/b/accounts");
    assert_eq!(budget_transactions_url("b"), "https://api.ynab.com/v1/budgets/b/transactions");
    assert_eq!(
        ynab_account_transactions_url("b", "a", Some("unapproved")),
        "https://api.ynab.com/v1/budgets/b/accounts/a/transactions?type=unapproved"
    );
    assert_eq!(authorization_value("t"), "Bearer t");
    let tx = |d: &str| YnabAccountTransaction {
        id: "i".to_string(),
        date: d.to_string(),
        amount: 0,
        payee_name: None,
        approved: None,
        memo: None,
        import_id: None,
    };
    assert_eq!(latest_transaction_date(&vec![tx("2026-01-02"), tx("bad"), tx("2026-03-01"), tx("2025-12-31")]), Some(ymd(2026, 3, 1)));
    assert_eq!(latest_transaction_date(&vec![tx("bad")]), None);
}

#[test]
fn dates_format_like_chrono() {
    assert_eq!(format_date(ymd(2026, 1, 5)), "2026-01-05");
    assert_eq!(format_date(ymd(45, 12, 31)), "0045-12-31");
    assert_eq!(format_date(ymd(-5, 1, 1)), "-0005-01-01");
    assert_eq!(format_date(ymd(12345, 6, 7)), "+12345-06-07");
    assert_eq!(sync_cutoff(ymd(2026, 12, 31), -1), Some(ymd(2027, 1, 1)));
    assert_eq!(sync_cutoff(ymd(262142, 12, 31), -1), None);
    assert_eq!(i64_text(i64::MIN), "-9223372036854775808");
    assert_eq!(trim("\u{3000} x \u{85}"), "x");
}

#[test]
fn milli_units_are_exact_for_small_amounts() {
    assert_eq!(milli_units(DecimalParts { mantissa: 12345, scale: 3 }), Some(12345));
    assert_eq!(milli_units(DecimalParts { mantissa: 25, scale: 4 }), Some(2));
    assert_eq!(milli_units(DecimalParts { mantissa: 35, scale: 4 }), Some(4));
    assert_eq!(milli_units(DecimalParts { mantissa: 0, scale: 7 }), Some(0));
}

#[test]
fn state_prunes_and_counts() {
    let mut state = State::new();
    let entry = |y, m, d, a, o| ReferenceEntry { date: ymd(y, m, d), amount_milli: a, occurrence: o };
    state.reference_occurrences.insert("a".to_string(), entry(2026, 1, 1, 100, 1));
    state.reference_occurrences.insert("b".to_string(), entry(2026, 1, 1, 100, 3));
    state.reference_occurrences.insert("c".to_string(), entry(2025, 6, 1, 100, 2));
    state.reference_occurrences.insert("d".to_string(), entry(2026, 2, 1, 7, 0));
    let counters = state.build_counters();
    assert_eq!(counters.get(&"2026-01-01|100".to_string()), Some(&3));
    assert_eq!(counters.get(&"2025-06-01|100".to_string()), Some(&2));
    assert_eq!(counters.get(&"2026-02-01|7".to_string()), None);
    state.prune_before(ymd(2026, 1, 1));
    assert!(state.reference_occurrences.get(&"c".to_string()).is_none());
    assert!(state.reference_occurrences.get(&"a".to_string()).is_some());
    assert_eq!(state.reference_occurrences.len(), 3);
    // 31 January minus 30 days is 1 January, which stays.
    assert!(state.prune_at(ymd(2026, 1, 31), 30));
    assert_eq!(state.reference_occurrences.len(), 3);
    // A lookback below one day counts as one day: 2 February keeps 1 February.
    assert!(state.prune_at(ymd(2026, 2, 2), 0));
    assert_eq!(state.reference_occurrences.len(), 1);
    assert!(state.reference_occurrences.get(&"d".to_string()).is_some());
    assert!(!state.prune_at(ymd(2026, 2, 2), i64::MAX));
    assert_eq!(state.reference_occurrences.len(), 1);
    assert!(state.prune(30));
    assert!(!state.prune(i64::MAX));
    state.mark_synced();
    assert!(state.last_synced_at.is_some());
}
