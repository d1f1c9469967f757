//! The YNAB API: its data, the addresses of its endpoints, and what is
//! computed from its answers.

use vstd::prelude::*;

use crate::date::{date_before, date_lt, parse_date_with_format, spec_parse_date, Date};
use crate::text::{opt_text, owned};

verus! {

/// The YNAB API's base address.
pub open spec fn ynab_api_base() -> Seq<char> {
    "https://api.ynab.com/v1"@
}

#[derive(Debug)]
pub struct YnabResponse<T> {
    pub data: T,
}

#[derive(Debug)]
pub struct BudgetList {
    pub budgets: Vec<BudgetSummary>,
}

#[derive(Debug)]
pub struct BudgetSummary {
    pub id: String,
    pub name: String,
}

#[derive(Debug)]
pub struct AccountList {
    pub accounts: Vec<AccountSummary>,
}

#[derive(Debug)]
pub struct AccountSummary {
    pub id: String,
    pub name: String,
    pub closed: bool,
}

/// A transaction to create in YNAB.
#[derive(Debug)]
pub struct Transaction {
    pub account_id: String,
    pub date: String,
    pub amount: i64,
    pub payee_name: Option<String>,
    pub memo: Option<String>,
    pub import_id: String,
    pub cleared: Option<String>,
}

/// A [`Transaction`] with its texts taken by their views.
pub struct TransactionView {
    pub account_id: Seq<char>,
    pub date: Seq<char>,
    pub amount: i64,
    pub payee_name: Option<Seq<char>>,
    pub memo: Option<Seq<char>>,
    pub import_id: Seq<char>,
    pub cleared: Option<Seq<char>>,
}

impl View for Transaction {
    type V = TransactionView;

    open spec fn view(&self) -> TransactionView {
        TransactionView {
            account_id: self.account_id@,
            date: self.date@,
            amount: self.amount,
            payee_name: opt_text(self.payee_name),
            memo: opt_text(self.memo),
            import_id: self.import_id@,
            cleared: opt_text(self.cleared),
        }
    }
}

#[derive(Debug)]
pub struct TransactionResponse {
    pub transaction_ids: Option<Vec<String>>,
    pub duplicate_import_ids: Option<Vec<String>>,
}

#[derive(Debug)]
pub struct YnabAccountTransaction {
    pub id: String,
    pub date: String,
    pub amount: i64,
    pub payee_name: Option<String>,
    pub approved: Option<bool>,
    pub memo: Option<String>,
    pub import_id: Option<String>,
}

#[derive(Debug)]
pub struct YnabTransactionList {
    pub transactions: Vec<YnabAccountTransaction>,
}

/// A change of a transaction's payee.
#[derive(Debug)]
pub struct TransactionUpdate {
    pub id: String,
    pub payee_name: Option<String>,
}

/// The `Authorization` header value for a personal access token.
pub fn authorization_value(token: &str) -> (r: String)
    ensures
        r@ == "Bearer "@ + token@,
{
    let mut r = owned("Bearer ");
    r.append(token);
    r
}

/// The list of budgets.
pub fn budgets_url() -> (r: String)
    ensures
        r@ == ynab_api_base() + "/budgets"@,
{
    let mut r = owned("https://api.ynab.com/v1");
    r.append("/budgets");
    r
}

/// The accounts of a budget.
pub fn budget_accounts_url(budget_id: &str) -> (r: String)
    ensures
        r@ == ynab_api_base() + "/budgets/"@ + budget_id@ + "/accounts"@,
{
    let mut r = owned("https://api.ynab.com/v1");
    r.append("/budgets/");
    r.append(budget_id);
    r.append("/accounts");
    r
}

/// The transactions of a budget (where transactions are created and
/// updated).
pub fn budget_transactions_url(budget_id: &str) -> (r: String)
    ensures
        r@ == ynab_api_base() + "/budgets/"@ + budget_id@ + "/transactions"@,
{
    let mut r = owned("https://api.ynab.com/v1");
    r.append("/budgets/");
    r.append(budget_id);
    r.append("/transactions");
    r
}

/// The transactions of one account, optionally of one type only.
pub fn account_transactions_url(budget_id: &str, account_id: &str, transaction_type: Option<&str>) -> (r: String)
    ensures
        r@ == ynab_api_base() + "/budgets/"@ + budget_id@ + "/accounts/"@ + account_id@
            + "/transactions"@ + match transaction_type {
            Some(t) => "?type="@ + t@,
            None => Seq::<char>::empty(),
        },
{
    let mut r = owned("https://api.ynab.com/v1");
    r.append("/budgets/");
    r.append(budget_id);
    r.append("/accounts/");
    r.append(account_id);
    r.append("/transactions");
    match transaction_type {
        Some(t) => {
            r.append("?type=");
            r.append(t);
        },
        None => {
            assert(r@ + Seq::<char>::empty() =~= r@);
        },
    }
    r
}

/// The date of a YNAB transaction, when it is a `%Y-%m-%d` date.
pub open spec fn ynab_date(t: YnabAccountTransaction) -> Option<Date> {
    spec_parse_date(t.date@, "%Y-%m-%d"@)
}

/// The latest of the transactions' dates; transactions whose date does not
/// parse are left out.
pub fn latest_transaction_date(transactions: &Vec<YnabAccountTransaction>) -> (r: Option<Date>)
    ensures
        r is None <==> forall|i: int|
            0 <= i < transactions@.len() ==> #[trigger] ynab_date(transactions@[i]) is None,
        r matches Some(d) ==> exists|i: int|
            0 <= i < transactions@.len() && #[trigger] ynab_date(transactions@[i]) == Some(d),
        r matches Some(d) ==> forall|i: int|
            0 <= i < transactions@.len() && #[trigger] ynab_date(transactions@[i]) is Some
                ==> !date_lt(d, ynab_date(transactions@[i])->0),
{
    let mut latest: Option<Date> = None;
    let mut i: usize = 0;
    while i < transactions.len()
        invariant
            i <= transactions@.len(),
            latest is None <==> forall|j: int|
                0 <= j < i ==> #[trigger] ynab_date(transactions@[j]) is None,
            latest matches Some(d) ==> exists|j: int|
                0 <= j < i && #[trigger] ynab_date(transactions@[j]) == Some(d),
            latest matches Some(d) ==> forall|j: int|
                0 <= j < i && #[trigger] ynab_date(transactions@[j]) is Some ==> !date_lt(
                    d,
                    ynab_date(transactions@[j])->0,
                ),
        decreases transactions@.len() - i,
    {
        let parsed = parse_date_with_format(transactions[i].date.as_str(), "%Y-%m-%d");
        assert(parsed == ynab_date(transactions@[i as int]));
        match parsed {
            Some(d) => {
                match latest {
                    Some(l) => {
                        if date_before(l, d) {
                            latest = Some(d);
                        }
                    },
                    None => {
                        latest = Some(d);
                    },
                }
            },
            None => {},
        }
        i = i + 1;
    }
    latest
}

} // verus!
