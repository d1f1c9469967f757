//! The comdirect REST API: its data, and everything about a request that can
//! be computed before it is sent (addresses, form fields, header values,
//! JSON bodies) or after an answer arrived (picking the session, collecting
//! the accounts).

use vstd::prelude::*;

use crate::text::{
    is_blank, is_blank_seq, join, join_seq, json_string, opt_text, owned, spec_json_string,
    text_pairs_view, texts_view,
};

verus! {

/// The comdirect API's base address.
pub open spec fn api_base() -> Seq<char> {
    "https://api.comdirect.de/api"@
}

/// The comdirect OAuth token endpoint.
pub open spec fn auth_url_text() -> Seq<char> {
    "https://api.comdirect.de/oauth/token"@
}

#[derive(Debug)]
pub struct ComdirectCredentials {
    pub client_id: String,
    pub client_secret: String,
    pub username: String,
    pub pin: String,
}

#[derive(Debug)]
pub struct TokenResponse {
    pub access_token: String,
    pub refresh_token: Option<String>,
    pub expires_in: i64,
    pub scope: String,
}

#[derive(Debug)]
pub struct Session {
    pub identifier: String,
    pub session_tan_active: bool,
    pub activated_2fa: bool,
}

#[derive(Debug)]
pub struct TanChallenge {
    pub id: String,
    pub tan_type: String,
    pub challenge: Option<String>,
    pub available_types: Option<Vec<String>>,
}

#[derive(Debug)]
pub struct AccountBalanceList {
    pub values: Vec<AccountBalance>,
}

#[derive(Debug)]
pub struct AccountBalance {
    pub account: Option<Account>,
    pub account_id: Option<String>,
}

#[derive(Debug)]
pub struct Account {
    pub account_id: String,
    pub account_display_id: Option<String>,
    pub iban: Option<String>,
    pub account_type: Option<EnumText>,
}

#[derive(Debug)]
pub struct AccountTransactionList {
    pub values: Vec<AccountTransaction>,
    pub paging: Option<PagingInfo>,
}

#[derive(Debug)]
pub struct PagingInfo {
    pub index: Option<i32>,
    pub matches: Option<i32>,
}

#[derive(Debug)]
pub struct AccountTransaction {
    pub reference: Option<String>,
    pub booking_status: Option<String>,
    pub booking_date: Option<String>,
    pub amount: AmountValue,
    pub creditor: Option<AccountInformation>,
    pub debtor: Option<AccountInformation>,
    pub deptor: Option<AccountInformation>,
    pub remitter: Option<AccountInformation>,
    pub remittance_info: Option<String>,
    pub transaction_type: Option<EnumText>,
}

#[derive(Debug)]
pub struct AmountValue {
    pub value: String,
    pub unit: Option<String>,
}

#[derive(Debug)]
pub struct AccountInformation {
    pub holder_name: Option<String>,
    pub iban: Option<String>,
    pub bic: Option<String>,
}

#[derive(Debug)]
pub struct EnumText {
    pub key: Option<String>,
    pub text: Option<String>,
}

/// What goes wrong with a comdirect answer.
#[derive(Debug, PartialEq, Eq, Structural)]
pub enum ComdirectError {
    /// The session list was empty.
    NoSessionReturned,
    /// The account list named no account.
    NoAccounts,
}

// ---------------------------------------------------------------------------
// Copies
// ---------------------------------------------------------------------------

pub fn clone_enum_text(e: &EnumText) -> (r: EnumText)
    ensures
        r == *e,
{
    EnumText { key: crate::text::clone_opt_text(&e.key), text: crate::text::clone_opt_text(&e.text) }
}

pub fn clone_account(a: &Account) -> (r: Account)
    ensures
        r == *a,
{
    Account {
        account_id: a.account_id.clone(),
        account_display_id: crate::text::clone_opt_text(&a.account_display_id),
        iban: crate::text::clone_opt_text(&a.iban),
        account_type: match &a.account_type {
            Some(t) => Some(clone_enum_text(t)),
            None => None,
        },
    }
}

// ---------------------------------------------------------------------------
// Holder names and TAN challenges
// ---------------------------------------------------------------------------

/// The holder name of a party, when it has one that is not blank.
pub open spec fn holder_name_of(info: Option<AccountInformation>) -> Option<Seq<char>> {
    match info {
        Some(i) => match i.holder_name {
            Some(n) => if is_blank_seq(n@) {
                None
            } else {
                Some(n@)
            },
            None => None,
        },
        None => None,
    }
}

pub fn extract_holder_name(info: &Option<AccountInformation>) -> (r: Option<String>)
    ensures
        opt_text(r) == holder_name_of(*info),
{
    match info {
        Some(i) => match &i.holder_name {
            Some(n) => if is_blank(n.as_str()) {
                None
            } else {
                Some(n.clone())
            },
            None => None,
        },
        None => None,
    }
}

/// The detail parts of a TAN challenge's description.
pub open spec fn challenge_details(c: TanChallenge) -> Seq<Seq<char>> {
    let first: Seq<Seq<char>> = match c.challenge {
        Some(v) => seq!["challenge: "@ + v@],
        None => Seq::empty(),
    };
    let second: Seq<Seq<char>> = match c.available_types {
        Some(types) => if types@.len() > 0 {
            seq!["available: "@ + join_seq(texts_view(types@), ", "@)]
        } else {
            Seq::empty()
        },
        None => Seq::empty(),
    };
    first + second
}

/// How a TAN challenge is shown to the user.
pub open spec fn challenge_text(c: TanChallenge) -> Seq<char> {
    let details = challenge_details(c);
    if details.len() == 0 {
        "TAN type: "@ + c.tan_type@
    } else {
        "TAN type: "@ + c.tan_type@ + " ("@ + join_seq(details, "; "@) + ")"@
    }
}

pub fn format_challenge(challenge: &TanChallenge) -> (r: String)
    ensures
        r@ == challenge_text(*challenge),
{
    let mut details: Vec<String> = Vec::new();
    if let Some(challenge_value) = &challenge.challenge {
        let mut d = owned("challenge: ");
        d.append(challenge_value.as_str());
        details.push(d);
    }
    let ghost after_first = details@;
    if let Some(types) = &challenge.available_types {
        if types.len() > 0 {
            let mut d = owned("available: ");
            let joined = join(types, ", ");
            d.append(joined.as_str());
            details.push(d);
        }
    }
    assert(texts_view(details@) =~= challenge_details(*challenge));
    let mut r = owned("TAN type: ");
    r.append(challenge.tan_type.as_str());
    if details.len() == 0 {
        r
    } else {
        r.append(" (");
        let joined = join(&details, "; ");
        r.append(joined.as_str());
        r.append(")");
        r
    }
}

// ---------------------------------------------------------------------------
// Requests
// ---------------------------------------------------------------------------

/// The OAuth token endpoint.
pub fn auth_url() -> (r: String)
    ensures
        r@ == auth_url_text(),
{
    owned("https://api.comdirect.de/oauth/token")
}

/// Form fields of the password-grant token request.
pub fn primary_token_form(creds: &ComdirectCredentials) -> (r: Vec<(String, String)>)
    ensures
        text_pairs_view(r@) == seq![
            ("client_id"@, creds.client_id@),
            ("client_secret"@, creds.client_secret@),
            ("grant_type"@, "password"@),
            ("username"@, creds.username@),
            ("password"@, creds.pin@),
        ],
{
    let mut r: Vec<(String, String)> = Vec::new();
    r.push((owned("client_id"), creds.client_id.clone()));
    r.push((owned("client_secret"), creds.client_secret.clone()));
    r.push((owned("grant_type"), owned("password")));
    r.push((owned("username"), creds.username.clone()));
    r.push((owned("password"), creds.pin.clone()));
    assert(text_pairs_view(r@) =~= seq![
        ("client_id"@, creds.client_id@),
        ("client_secret"@, creds.client_secret@),
        ("grant_type"@, "password"@),
        ("username"@, creds.username@),
        ("password"@, creds.pin@),
    ]);
    r
}

/// Form fields of the secondary (`cd_secondary`) token request.
pub fn secondary_token_form(creds: &ComdirectCredentials, primary_access_token: &str) -> (r: Vec<
    (String, String),
>)
    ensures
        text_pairs_view(r@) == seq![
            ("client_id"@, creds.client_id@),
            ("client_secret"@, creds.client_secret@),
            ("grant_type"@, "cd_secondary"@),
            ("token"@, primary_access_token@),
        ],
{
    let mut r: Vec<(String, String)> = Vec::new();
    r.push((owned("client_id"), creds.client_id.clone()));
    r.push((owned("client_secret"), creds.client_secret.clone()));
    r.push((owned("grant_type"), owned("cd_secondary")));
    r.push((owned("token"), owned(primary_access_token)));
    assert(text_pairs_view(r@) =~= seq![
        ("client_id"@, creds.client_id@),
        ("client_secret"@, creds.client_secret@),
        ("grant_type"@, "cd_secondary"@),
        ("token"@, primary_access_token@),
    ]);
    r
}

/// The session list of a client.
pub fn session_status_url(user_id: &str) -> (r: String)
    ensures
        r@ == api_base() + "/session/clients/"@ + user_id@ + "/v1/sessions"@,
{
    let mut r = owned("https://api.comdirect.de/api");
    r.append("/session/clients/");
    r.append(user_id);
    r.append("/v1/sessions");
    r
}

/// The endpoint that starts a session TAN challenge.
pub fn validate_session_url(user_id: &str, session_id: &str) -> (r: String)
    ensures
        r@ == api_base() + "/session/clients/"@ + user_id@ + "/v1/sessions/"@ + session_id@
            + "/validate"@,
{
    let mut r = owned("https://api.comdirect.de/api");
    r.append("/session/clients/");
    r.append(user_id);
    r.append("/v1/sessions/");
    r.append(session_id);
    r.append("/validate");
    r
}

/// The endpoint that activates a session with a TAN.
pub fn activate_session_url(user_id: &str, session_id: &str) -> (r: String)
    ensures
        r@ == api_base() + "/session/clients/"@ + user_id@ + "/v1/sessions/"@ + session_id@,
{
    let mut r = owned("https://api.comdirect.de/api");
    r.append("/session/clients/");
    r.append(user_id);
    r.append("/v1/sessions/");
    r.append(session_id);
    r
}

/// The account balances of a client.
pub fn account_balances_url(user_id: &str) -> (r: String)
    ensures
        r@ == api_base() + "/banking/clients/"@ + user_id@ + "/v2/accounts/balances"@,
{
    let mut r = owned("https://api.comdirect.de/api");
    r.append("/banking/clients/");
    r.append(user_id);
    r.append("/v2/accounts/balances");
    r
}

/// The transactions of an account.
pub fn account_transactions_url(account_id: &str) -> (r: String)
    ensures
        r@ == api_base() + "/banking/v1/accounts/"@ + account_id@ + "/transactions"@,
{
    let mut r = owned("https://api.comdirect.de/api");
    r.append("/banking/v1/accounts/");
    r.append(account_id);
    r.append("/transactions");
    r
}

/// Query parameters of a transaction page request: booked transactions in
/// both directions, starting at `paging_first`.
pub fn transaction_query(paging_first: i32) -> (r: Vec<(String, String)>)
    ensures
        text_pairs_view(r@) == seq![
            ("transactionState"@, "BOOKED"@),
            ("transactionDirection"@, "CREDIT_AND_DEBIT"@),
            ("paging-first"@, crate::text::int_text(paging_first as int)),
        ],
{
    let mut r: Vec<(String, String)> = Vec::new();
    r.push((owned("transactionState"), owned("BOOKED")));
    r.push((owned("transactionDirection"), owned("CREDIT_AND_DEBIT")));
    r.push((owned("paging-first"), crate::text::i64_text(paging_first as i64)));
    assert(text_pairs_view(r@) =~= seq![
        ("transactionState"@, "BOOKED"@),
        ("transactionDirection"@, "CREDIT_AND_DEBIT"@),
        ("paging-first"@, crate::text::int_text(paging_first as int)),
    ]);
    r
}

/// The `Authorization` header value for an access token.
pub fn bearer_value(access_token: &str) -> (r: String)
    ensures
        r@ == "Bearer "@ + access_token@,
{
    let mut r = owned("Bearer ");
    r.append(access_token);
    r
}

/// The `x-once-authentication-info` value that asks for a TAN type:
/// `{"typ":<tan_type>}`.
pub fn tan_type_header_value(tan_type: &str) -> (r: String)
    ensures
        r@ == "{\"typ\":"@ + spec_json_string(tan_type@) + "}"@,
{
    let mut r = owned("{\"typ\":");
    let v = json_string(tan_type);
    r.append(v.as_str());
    r.append("}");
    r
}

/// The `x-once-authentication-info` value that names a challenge:
/// `{"id":<challenge_id>}`.
pub fn challenge_header_value(challenge_id: &str) -> (r: String)
    ensures
        r@ == "{\"id\":"@ + spec_json_string(challenge_id@) + "}"@,
{
    let mut r = owned("{\"id\":");
    let v = json_string(challenge_id);
    r.append(v.as_str());
    r.append("}");
    r
}

/// The JSON body that asks for a session with an active session TAN (keys
/// in serde_json's sorted order).
pub fn session_activation_body(session_id: &str) -> (r: String)
    ensures
        r@ == "{\"activated2FA\":true,\"identifier\":"@ + spec_json_string(session_id@)
            + ",\"sessionTanActive\":true}"@,
{
    let mut r = owned("{\"activated2FA\":true,\"identifier\":");
    let v = json_string(session_id);
    r.append(v.as_str());
    r.append(",\"sessionTanActive\":true}");
    r
}

/// The `x-http-request-info` value for a session id and a request id (keys
/// in serde_json's sorted order).
pub open spec fn request_info_text(session_id: Seq<char>, request_id: Seq<char>) -> Seq<char> {
    "{\"clientRequestId\":{\"requestId\":"@ + spec_json_string(request_id) + ",\"sessionId\":"@
        + spec_json_string(session_id) + "}}"@
}

pub fn request_info_value(session_id: &str, request_id: &str) -> (r: String)
    ensures
        r@ == request_info_text(session_id@, request_id@),
{
    let mut r = owned("{\"clientRequestId\":{\"requestId\":");
    let a = json_string(request_id);
    r.append(a.as_str());
    r.append(",\"sessionId\":");
    let b = json_string(session_id);
    r.append(b.as_str());
    r.append("}}");
    r
}

pub open spec fn is_lower_hex(c: char) -> bool {
    ('0' <= c && c <= '9') || ('a' <= c && c <= 'f')
}

/// The hyphenated lower-case text form of a UUID.
pub open spec fn is_uuid_text(s: Seq<char>) -> bool {
    &&& s.len() == 36
    &&& forall|i: int|
        0 <= i < 36 ==> if i == 8 || i == 13 || i == 18 || i == 23 {
            s[i] == '-'
        } else {
            is_lower_hex(#[trigger] s[i])
        }
}

/// A fresh random (version 4) UUID as text (`Uuid::new_v4().to_string()`).
/// Claimed: the hyphenated lower-case form, with the version digit `4`; the
/// value itself is random.
#[verifier::external_body]
pub(crate) fn new_uuid_text() -> (r: String)
    ensures
        is_uuid_text(r@),
        r@[14] == '4',
{
    uuid::Uuid::new_v4().to_string()
}

/// A fresh `x-http-request-info` value, with a random session id and request
/// id.
pub fn request_info_header() -> (r: String)
    ensures
        exists|s: Seq<char>, q: Seq<char>|
            is_uuid_text(s) && is_uuid_text(q) && r@ == request_info_text(s, q),
{
    let session_id = new_uuid_text();
    let request_id = new_uuid_text();
    request_info_value(session_id.as_str(), request_id.as_str())
}

// ---------------------------------------------------------------------------
// Answers
// ---------------------------------------------------------------------------

/// The first session of a session list.
pub fn first_session(sessions: Vec<Session>) -> (r: Result<Session, ComdirectError>)
    ensures
        match r {
            Ok(s) => sessions@.len() > 0 && s == sessions@[0],
            Err(e) => sessions@.len() == 0 && e == ComdirectError::NoSessionReturned,
        },
{
    let mut sessions = sessions;
    if sessions.len() == 0 {
        Err(ComdirectError::NoSessionReturned)
    } else {
        Ok(sessions.remove(0))
    }
}

/// An account that stands for an account id alone.
pub open spec fn bare_account(account_id: String) -> Account {
    Account { account_id, account_display_id: None, iban: None, account_type: None }
}

/// The account an entry of the balance list names, if any: its account (with
/// the entry's account id filled in when the account's own id is empty), or
/// else an account made of the entry's account id alone.
pub open spec fn balance_account(b: AccountBalance) -> Option<Account> {
    match b.account {
        Some(a) => if a.account_id@.len() == 0 && b.account_id is Some {
            Some(Account { account_id: b.account_id->0, ..a })
        } else {
            Some(a)
        },
        None => match b.account_id {
            Some(id) => Some(bare_account(id)),
            None => None,
        },
    }
}

/// The accounts named by a balance list, in order.
pub open spec fn balance_accounts(values: Seq<AccountBalance>) -> Seq<Account>
    decreases values.len(),
{
    if values.len() == 0 {
        Seq::empty()
    } else {
        let rest = balance_accounts(values.drop_last());
        match balance_account(values.last()) {
            Some(a) => rest.push(a),
            None => rest,
        }
    }
}

/// The accounts of a balance list; an error when it names none.
pub fn collect_accounts(list: AccountBalanceList) -> (r: Result<Vec<Account>, ComdirectError>)
    ensures
        match r {
            Ok(accounts) => accounts@ == balance_accounts(list.values@) && accounts@.len() > 0,
            Err(e) => balance_accounts(list.values@).len() == 0 && e
                == ComdirectError::NoAccounts,
        },
{
    let mut accounts: Vec<Account> = Vec::new();
    let mut i: usize = 0;
    while i < list.values.len()
        invariant
            i <= list.values@.len(),
            accounts@ == balance_accounts(list.values@.subrange(0, i as int)),
        decreases list.values@.len() - i,
    {
        let item = &list.values[i];
        match &item.account {
            Some(a) => {
                let mut acc = clone_account(a);
                if acc.account_id.as_str().is_empty() {
                    if let Some(id) = &item.account_id {
                        acc.account_id = id.clone();
                    }
                }
                accounts.push(acc);
            },
            None => {
                if let Some(id) = &item.account_id {
                    accounts.push(
                        Account {
                            account_id: id.clone(),
                            account_display_id: None,
                            iban: None,
                            account_type: None,
                        },
                    );
                }
            },
        }
        assert(list.values@.subrange(0, i + 1).drop_last() =~= list.values@.subrange(0, i as int));
        i = i + 1;
    }
    assert(list.values@.subrange(0, list.values@.len() as int) =~= list.values@);
    if accounts.len() == 0 {
        Err(ComdirectError::NoAccounts)
    } else {
        Ok(accounts)
    }
}

} // verus!
