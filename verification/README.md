# comdirect-ynab

Sync comdirect Girokonto transactions to YNAB from the command line.

The decisions of the tool are a library verified with Verus (`src/`); the
program around it (`app/`) reads files, runs `op read`, talks to the two
HTTP APIs and prompts the user.

## Layout

- `src/commands.rs`: which bank transactions a sync imports (`plan_imports`),
  how they look in YNAB (payee, memo, reference key, import id), occurrence
  counters, batches of 100, the walk through transaction pages, and the
  smaller choices of `init`, `accounts` and `auth`.
- `src/laws.rs`: properties of a sync as a whole: remembered and old
  transactions are skipped, a second sync imports nothing (and one on the
  same day leaves the state as the first left it), occurrence numbers
  continue and increase, import ids within a sync are distinct, and
  remembering batch by batch remembers everything.
- `src/state.rs`: the remembered transactions, pruning, and counters rebuilt
  from them.
- `src/comdirect.rs`, `src/ynab.rs`: API data, endpoint addresses, form
  fields, header values and request bodies, and what is read from answers.
- `src/paypal.rs`: PayPal activity exports: columns (found by their
  headers, whatever their order), dates, amounts, and the lookup of a
  merchant by amount and date.
- `src/prompt.rs`, `src/op.rs`, `src/paths.rs`, `src/cli.rs`,
  `src/config.rs`: prompts, 1Password references, file locations (the
  configuration defaults to `comdirect-ynab/config.toml` in the user's data
  directory, on macOS `~/Library/Application Support`), the command line and
  the configuration.
- `src/date.rs`, `src/decimal.rs`, `src/text.rs`, `src/text_map.rs`: dates
  (with `chrono`), decimal amounts (with `rust_decimal`), text rendering, and
  a map keyed by text.
- `app/`: `main`, the clap command line, serde/toml copies of the data
  types, the HTTP clients, and file and terminal I/O.
- `tests/`: tests of the library.

Calls into `chrono`, `rust_decimal`, `serde_json`, `uuid`, `csv`,
`directories` and std's path and UTF-8 functions go through small wrappers
marked `#[verifier::external_body]`; each one's doc comment says what its
contract claims.
