//! Verified core of a command-line tool that imports comdirect bank
//! transactions into YNAB, with the reading of PayPal activity exports and
//! the lookup of a merchant in them by amount and date.

pub mod text;
pub mod text_map;
pub mod date;
pub mod decimal;
pub mod comdirect;
pub mod cli;
pub mod config;
pub mod op;
pub mod paths;
pub mod ynab;
pub mod state;
pub mod commands;
pub mod prompt;
pub mod paypal;
pub mod laws;
