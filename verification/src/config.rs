//! The configuration file's contents. It holds `op://` references to
//! secrets, never the secrets themselves.

use vstd::prelude::*;

verus! {

#[derive(Debug)]
pub struct Config {
    pub comdirect: ComdirectConfig,
    pub ynab: YnabConfig,
    pub sync: SyncConfig,
    pub op: OpConfig,
}

#[derive(Debug)]
pub struct ComdirectConfig {
    pub user_id: String,
    pub iban: String,
    pub client_id: String,
    pub client_secret: String,
    pub username: String,
    pub pin: String,
    pub tan_method: String,
}

#[derive(Debug)]
pub struct YnabConfig {
    pub token: String,
    pub budget_id: String,
    pub account_id: String,
}

#[derive(Debug)]
pub struct SyncConfig {
    pub lookback_days: i64,
}

#[derive(Debug)]
pub struct OpConfig {
    pub service_account_token_env: String,
}

} // verus!
