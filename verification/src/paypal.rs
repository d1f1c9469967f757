//! PayPal activity exports: reading the CSV, and looking up the merchant of
//! a bank transaction by its amount and date.

use vstd::prelude::*;

use crate::date::{add_days, date_shift, parse_date_with_format, spec_parse_date, valid_date, Date};
use crate::decimal::{milli_units, parse_decimal, spec_milli_units, spec_parse_decimal};
use crate::text::{chars_of, owned, string_from_chars, texts_view, trim, trim_seq};
use crate::text_map::{
    lemma_pairs_map_empty, lemma_pairs_map_index, lemma_pairs_map_key, lemma_pairs_map_push,
    lemma_pairs_map_update, pairs_map, unique_keys,
};

verus! {

/// Where PayPal offers the activity export.
pub open spec fn download_url_text() -> Seq<char> {
    "https://www.paypal.com/reports/dlog"@
}

pub fn download_url() -> (r: String)
    ensures
        r@ == download_url_text(),
{
    owned("https://www.paypal.com/reports/dlog")
}

/// A PayPal transaction read from the export.
#[derive(Debug)]
pub struct PaypalTransaction {
    pub date: Date,
    pub name: String,
    pub amount_milli: i64,
}

/// The key a PayPal transaction is looked up by.
pub type LookupKey = (i64, Date);

/// Merchant names by amount (in milliunits) and date, each list in the
/// order of the export.
#[derive(Debug)]
pub struct PaypalLookup {
    entries: Vec<(LookupKey, Vec<String>)>,
}

impl View for PaypalLookup {
    type V = Map<LookupKey, Seq<Seq<char>>>;

    closed spec fn view(&self) -> Map<LookupKey, Seq<Seq<char>>> {
        pairs_map(self.pairs())
    }
}

fn clone_texts(v: &Vec<String>) -> (r: Vec<String>)
    ensures
        r@ == v@,
{
    let mut r: Vec<String> = Vec::new();
    let mut i: usize = 0;
    while i < v.len()
        invariant
            i <= v@.len(),
            r@ == v@.take(i as int),
        decreases v@.len() - i,
    {
        r.push(v[i].clone());
        assert(r@ =~= v@.take(i + 1));
        i = i + 1;
    }
    assert(v@.take(v@.len() as int) =~= v@);
    r
}

impl PaypalLookup {
    #[verifier::type_invariant]
    closed spec fn keys_distinct(self) -> bool {
        unique_keys(self.pairs())
    }

    closed spec fn pairs(self) -> Seq<(LookupKey, Seq<Seq<char>>)> {
        self.entries@.map_values(|e: (LookupKey, Vec<String>)| (e.0, texts_view(e.1@)))
    }

    pub fn new() -> (m: Self)
        ensures
            m@ == Map::<LookupKey, Seq<Seq<char>>>::empty(),
    {
        let m = PaypalLookup { entries: Vec::new() };
        proof {
            lemma_pairs_map_empty(m.pairs());
        }
        m
    }

    fn find(&self, key: LookupKey) -> (r: Option<usize>)
        ensures
            match r {
                Some(i) => i < self.pairs().len() && self.pairs()[i as int].0 == key,
                None => !self@.contains_key(key),
            },
    {
        proof {
            use_type_invariant(self);
        }
        let mut i: usize = 0;
        while i < self.entries.len()
            invariant
                i <= self.entries@.len(),
                forall|j: int| 0 <= j < i ==> self.pairs()[j].0 != key,
            decreases self.entries@.len() - i,
        {
            let k = self.entries[i].0;
            if k.0 == key.0 && k.1 == key.1 {
                return Some(i);
            }
            i = i + 1;
        }
        proof {
            if self@.contains_key(key) {
                let j = lemma_pairs_map_key(self.pairs(), key);
            }
        }
        None
    }

    /// The names stored under `key`.
    pub fn get(&self, key: LookupKey) -> (r: Option<&Vec<String>>)
        ensures
            match r {
                Some(names) => self@.contains_key(key) && texts_view(names@) == self@[key],
                None => !self@.contains_key(key),
            },
    {
        proof {
            use_type_invariant(self);
        }
        match self.find(key) {
            Some(i) => {
                proof {
                    lemma_pairs_map_index(self.pairs(), i as int);
                }
                Some(&self.entries[i].1)
            },
            None => None,
        }
    }

    /// Stores `names` under `key`, replacing what was there.
    pub fn insert(&mut self, key: LookupKey, names: Vec<String>)
        ensures
            final(self)@ == old(self)@.insert(key, texts_view(names@)),
    {
        proof {
            use_type_invariant(&*self);
        }
        let ghost nv = texts_view(names@);
        match self.find(key) {
            Some(i) => {
                proof {
                    lemma_pairs_map_update(self.pairs(), i as int, nv);
                }
                let mut entries = Vec::new();
                std::mem::swap(&mut entries, &mut self.entries);
                entries.set(i, (key, names));
                proof {
                    assert(entries@.map_values(
                        |e: (LookupKey, Vec<String>)| (e.0, texts_view(e.1@)),
                    ) =~= old(self).pairs().update(i as int, (old(self).pairs()[i as int].0, nv)));
                }
                self.entries = entries;
            },
            None => {
                proof {
                    lemma_pairs_map_push(self.pairs(), key, nv);
                }
                let mut entries = Vec::new();
                std::mem::swap(&mut entries, &mut self.entries);
                entries.push((key, names));
                proof {
                    assert(entries@.map_values(
                        |e: (LookupKey, Vec<String>)| (e.0, texts_view(e.1@)),
                    ) =~= old(self).pairs().push((key, nv)));
                }
                self.entries = entries;
            },
        }
    }

    /// Appends `name` to the names stored under `key`.
    pub fn add_name(&mut self, key: LookupKey, name: String)
        ensures
            final(self)@ == old(self)@.insert(
                key,
                (if old(self)@.contains_key(key) {
                    old(self)@[key]
                } else {
                    Seq::empty()
                }).push(name@),
            ),
    {
        let mut names = match self.get(key) {
            Some(existing) => clone_texts(existing),
            None => Vec::new(),
        };
        let ghost base = if self@.contains_key(key) {
            self@[key]
        } else {
            Seq::<Seq<char>>::empty()
        };
        assert(texts_view(names@) =~= base);
        let ghost name_view = name@;
        let ghost before = names@;
        names.push(name);
        assert(texts_view(names@) =~= base.push(name_view));
        self.insert(key, names);
    }
}

/// The lookup key of a PayPal transaction.
pub open spec fn key_of(tx: PaypalTransaction) -> LookupKey {
    (tx.amount_milli, tx.date)
}

/// The lookup built from a list of PayPal transactions: under each key, the
/// names of the transactions with that key, in order.
pub open spec fn lookup_of(txs: Seq<PaypalTransaction>) -> Map<LookupKey, Seq<Seq<char>>>
    decreases txs.len(),
{
    if txs.len() == 0 {
        Map::empty()
    } else {
        let m = lookup_of(txs.drop_last());
        let k = key_of(txs.last());
        m.insert(
            k,
            (if m.contains_key(k) {
                m[k]
            } else {
                Seq::empty()
            }).push(txs.last().name@),
        )
    }
}

pub fn build_lookup(transactions: &Vec<PaypalTransaction>) -> (lookup: PaypalLookup)
    ensures
        lookup@ == lookup_of(transactions@),
{
    let mut lookup = PaypalLookup::new();
    let mut i: usize = 0;
    while i < transactions.len()
        invariant
            i <= transactions@.len(),
            lookup@ == lookup_of(transactions@.take(i as int)),
        decreases transactions@.len() - i,
    {
        let tx = &transactions[i];
        lookup.add_name((tx.amount_milli, tx.date), tx.name.clone());
        assert(transactions@.take(i + 1).drop_last() =~= transactions@.take(i as int));
        i = i + 1;
    }
    assert(transactions@.take(transactions@.len() as int) =~= transactions@);
    lookup
}

/// The names of the PayPal transactions with amount and date `k`, in the
/// order of the export.
pub open spec fn names_with_key(txs: Seq<PaypalTransaction>, k: LookupKey) -> Seq<Seq<char>> {
    txs.filter(has_key(k)).map_values(|t: PaypalTransaction| t.name@)
}

/// Whether a PayPal transaction has amount and date `k`.
pub open spec fn has_key(k: LookupKey) -> spec_fn(PaypalTransaction) -> bool {
    |t: PaypalTransaction| t.amount_milli == k.0 && t.date == k.1
}

proof fn lemma_filter_last(txs: Seq<PaypalTransaction>, k: LookupKey)
    requires
        txs.len() > 0,
    ensures
        txs.filter(has_key(k)) == if has_key(k)(txs.last()) {
            txs.drop_last().filter(has_key(k)).push(txs.last())
        } else {
            txs.drop_last().filter(has_key(k))
        },
{
    reveal_with_fuel(Seq::filter, 1);
}

/// Every PayPal transaction is in the lookup under its own amount and date,
/// whatever its sign, and nothing else is: under each amount and date stand
/// the names of exactly the transactions with that amount and date, in the
/// order of the export.
pub proof fn law_lookup_holds_every_transaction(txs: Seq<PaypalTransaction>)
    ensures
        forall|k: LookupKey|
            #![trigger lookup_of(txs).contains_key(k)]
            lookup_of(txs).contains_key(k) <==> exists|i: int|
                0 <= i < txs.len() && (#[trigger] txs[i]).amount_milli == k.0 && txs[i].date == k.1,
        forall|k: LookupKey|
            #![trigger lookup_of(txs)[k]]
            lookup_of(txs).contains_key(k) ==> lookup_of(txs)[k] == names_with_key(txs, k),
        forall|k: LookupKey|
            #![trigger names_with_key(txs, k)]
            !lookup_of(txs).contains_key(k) ==> names_with_key(txs, k).len() == 0,
    decreases txs.len(),
{
    if txs.len() > 0 {
        let pre = txs.drop_last();
        let last = txs.last();
        law_lookup_holds_every_transaction(pre);
        let m = lookup_of(pre);
        let kl = key_of(last);
        assert forall|k: LookupKey| #![trigger lookup_of(txs).contains_key(k)]
            lookup_of(txs).contains_key(k) <==> exists|i: int|
                0 <= i < txs.len() && (#[trigger] txs[i]).amount_milli == k.0 && txs[i].date == k.1 by {
            if k == kl {
                assert(txs[txs.len() - 1] == last);
            } else if m.contains_key(k) {
                let i = choose|i: int|
                    0 <= i < pre.len() && (#[trigger] pre[i]).amount_milli == k.0 && pre[i].date == k.1;
                assert(txs[i] == pre[i]);
            } else {
                if exists|i: int|
                    0 <= i < txs.len() && (#[trigger] txs[i]).amount_milli == k.0 && txs[i].date
                        == k.1 {
                    let i = choose|i: int|
                        0 <= i < txs.len() && (#[trigger] txs[i]).amount_milli == k.0 && txs[i].date
                            == k.1;
                    assert(i < pre.len());
                    assert(pre[i] == txs[i]);
                }
            }
        }
        assert forall|k: LookupKey| #![trigger lookup_of(txs)[k]]
            lookup_of(txs).contains_key(k) implies lookup_of(txs)[k] == names_with_key(txs, k) by {
            let pred = has_key(k);
            let f = |t: PaypalTransaction| t.name@;
            lemma_filter_last(txs, k);
            if k == kl {
                assert(pred(last));
                assert(txs.filter(pred) == pre.filter(pred).push(last));
                assert(txs.filter(pred).map_values(f) =~= pre.filter(pred).map_values(f).push(
                    last.name@,
                ));
                if m.contains_key(k) {
                    assert(m[k] == names_with_key(pre, k));
                } else {
                    assert(names_with_key(pre, k).len() == 0);
                    assert(names_with_key(pre, k) =~= Seq::<Seq<char>>::empty());
                }
            } else {
                assert(!pred(last));
                assert(txs.filter(pred) == pre.filter(pred));
                assert(m[k] == names_with_key(pre, k));
            }
        }
        assert forall|k: LookupKey| #![trigger names_with_key(txs, k)]
            !lookup_of(txs).contains_key(k) implies names_with_key(txs, k).len() == 0 by {
            let pred = has_key(k);
            lemma_filter_last(txs, k);
            assert(k != kl);
            assert(!pred(last));
            assert(txs.filter(pred) == pre.filter(pred));
            assert(names_with_key(pre, k).len() == 0);
        }
    } else {
        assert forall|k: LookupKey| #![trigger names_with_key(txs, k)]
            !lookup_of(txs).contains_key(k) implies names_with_key(txs, k).len() == 0 by {
            reveal_with_fuel(Seq::filter, 1);
            assert(txs.filter(has_key(k)).len() == 0);
        }
    }
}

/// A bank transaction is matched to the single PayPal name stored for its
/// amount on its own date; failing that, on the day before; failing that,
/// on the day after; a day with no name or with several names gives none.
pub proof fn law_match_day_order(m: Map<LookupKey, Seq<Seq<char>>>, amount_milli: i64, date: Date)
    ensures
        ({
            let one = |d: Date| m.contains_key((amount_milli, d)) && m[(amount_milli, d)].len() == 1;
            let before = date_shift(date, -1)->0;
            let after = date_shift(date, 1)->0;
            &&& one(date) ==> match_of(m, amount_milli, date) == Some(m[(amount_milli, date)][0])
            &&& !one(date) && one(before) ==> match_of(m, amount_milli, date) == Some(
                m[(amount_milli, before)][0],
            )
            &&& !one(date) && !one(before) && one(after) ==> match_of(m, amount_milli, date) == Some(
                m[(amount_milli, after)][0],
            )
            &&& !one(date) && !one(before) && !one(after) ==> match_of(m, amount_milli, date) is None
        }),
{
}

/// The date formats of an export are tried in a fixed order: German
/// `DD.MM.YYYY`, then `DD/MM/YYYY`, then US `MM/DD/YYYY`, then ISO; the
/// first that reads the trimmed text gives the date. So a slashed date that
/// reads both ways (`03/04/2026`) is day first.
pub proof fn law_date_formats_in_order(s: Seq<char>)
    ensures
        ({
            let t = trim_seq(s);
            let german = spec_parse_date(t, "%d.%m.%Y"@);
            let day_first = spec_parse_date(t, "%d/%m/%Y"@);
            let month_first = spec_parse_date(t, "%m/%d/%Y"@);
            let iso = spec_parse_date(t, "%Y-%m-%d"@);
            &&& german is Some ==> paypal_date_of(s) == german
            &&& german is None && day_first is Some ==> paypal_date_of(s) == day_first
            &&& german is None && day_first is None && month_first is Some ==> paypal_date_of(s)
                == month_first
            &&& german is None && day_first is None && month_first is None ==> paypal_date_of(s)
                == iso
        }),
{
}

/// Whether exactly one name is stored under `key`.
pub open spec fn has_unique_name(m: Map<LookupKey, Seq<Seq<char>>>, key: LookupKey) -> bool {
    m.contains_key(key) && m[key].len() == 1
}

/// The merchant of a bank transaction: the single name stored for its
/// amount on its date, else on the day before, else on the day after.
pub open spec fn match_of(m: Map<LookupKey, Seq<Seq<char>>>, amount_milli: i64, date: Date) -> Option<
    Seq<char>,
> {
    let same = (amount_milli, date);
    let before = (amount_milli, date_shift(date, -1)->0);
    let after = (amount_milli, date_shift(date, 1)->0);
    if has_unique_name(m, same) {
        Some(m[same][0])
    } else if has_unique_name(m, before) {
        Some(m[before][0])
    } else if has_unique_name(m, after) {
        Some(m[after][0])
    } else {
        None
    }
}

fn unique_name(lookup: &PaypalLookup, key: LookupKey) -> (r: Option<String>)
    ensures
        match r {
            Some(n) => has_unique_name(lookup@, key) && n@ == lookup@[key][0],
            None => !has_unique_name(lookup@, key),
        },
{
    match lookup.get(key) {
        Some(names) => if names.len() == 1 {
            Some(names[0].clone())
        } else {
            None
        },
        None => None,
    }
}

/// Looks up the merchant of a bank transaction (see [`match_of`]).
pub fn match_transaction(lookup: &PaypalLookup, amount_milli: i64, date: Date) -> (r: Option<String>)
    requires
        valid_date(date),
        has_unique_name(lookup@, (amount_milli, date)) || (date_shift(date, -1) is Some && (
        has_unique_name(lookup@, (amount_milli, date_shift(date, -1)->0)) || date_shift(date, 1) is Some)),
    ensures
        crate::text::opt_text(r) == match_of(lookup@, amount_milli, date),
{
    let same = unique_name(lookup, (amount_milli, date));
    if same.is_some() {
        return same;
    }
    let before_date = add_days(date, -1).unwrap();
    let before = unique_name(lookup, (amount_milli, before_date));
    if before.is_some() {
        return before;
    }
    let after_date = add_days(date, 1).unwrap();
    unique_name(lookup, (amount_milli, after_date))
}

// ---------------------------------------------------------------------------
// Dates and amounts of the export
// ---------------------------------------------------------------------------

/// The date formats of PayPal exports, tried in this order: German
/// `DD.MM.YYYY`, `DD/MM/YYYY`, US `MM/DD/YYYY`, ISO `YYYY-MM-DD`.
pub open spec fn paypal_date_of(s: Seq<char>) -> Option<Date> {
    let t = trim_seq(s);
    if spec_parse_date(t, "%d.%m.%Y"@) is Some {
        spec_parse_date(t, "%d.%m.%Y"@)
    } else if spec_parse_date(t, "%d/%m/%Y"@) is Some {
        spec_parse_date(t, "%d/%m/%Y"@)
    } else if spec_parse_date(t, "%m/%d/%Y"@) is Some {
        spec_parse_date(t, "%m/%d/%Y"@)
    } else {
        spec_parse_date(t, "%Y-%m-%d"@)
    }
}

pub fn parse_date(s: &str) -> (r: Option<Date>)
    ensures
        r == paypal_date_of(s@),
{
    let t = trim(s);
    let german = parse_date_with_format(t.as_str(), "%d.%m.%Y");
    if german.is_some() {
        return german;
    }
    let slashed = parse_date_with_format(t.as_str(), "%d/%m/%Y");
    if slashed.is_some() {
        return slashed;
    }
    let us = parse_date_with_format(t.as_str(), "%m/%d/%Y");
    if us.is_some() {
        return us;
    }
    parse_date_with_format(t.as_str(), "%Y-%m-%d")
}

/// `s` without the character `c`.
pub open spec fn without_char(s: Seq<char>, c: char) -> Seq<char>
    decreases s.len(),
{
    if s.len() == 0 {
        Seq::empty()
    } else if s.last() == c {
        without_char(s.drop_last(), c)
    } else {
        without_char(s.drop_last(), c).push(s.last())
    }
}

/// `s` with every `from` replaced by `to`.
pub open spec fn replace_char_seq(s: Seq<char>, from: char, to: char) -> Seq<char> {
    Seq::new(s.len(), |i: int| if s[i] == from { to } else { s[i] })
}

/// Whether the comma is the decimal separator: there is a comma, and no dot
/// after the last comma.
pub open spec fn comma_is_decimal(s: Seq<char>) -> bool {
    exists|i: int|
        0 <= i < s.len() && #[trigger] s[i] == ',' && forall|j: int|
            i < j < s.len() ==> s[j] != '.'
}

/// An amount text of the export made readable as a decimal number: trimmed,
/// without no-break spaces; in German notation (`1.234,56`) without the dots
/// and with the comma as the point, otherwise without commas; then without
/// spaces.
pub open spec fn normalize_amount(s: Seq<char>) -> Seq<char> {
    let t = without_char(trim_seq(s), '\u{a0}');
    let n = if comma_is_decimal(t) {
        replace_char_seq(without_char(t, '.'), ',', '.')
    } else {
        without_char(t, ',')
    };
    without_char(n, ' ')
}

/// The milliunits of an amount of the export.
pub open spec fn paypal_amount_of(s: Seq<char>) -> Option<i64> {
    match spec_parse_decimal(normalize_amount(s)) {
        Some(d) => spec_milli_units(d),
        None => None,
    }
}

fn remove_char(v: &Vec<char>, c: char) -> (r: Vec<char>)
    ensures
        r@ == without_char(v@, c),
{
    let mut r: Vec<char> = Vec::new();
    let mut i: usize = 0;
    while i < v.len()
        invariant
            i <= v@.len(),
            r@ == without_char(v@.take(i as int), c),
        decreases v@.len() - i,
    {
        assert(v@.take(i + 1).drop_last() =~= v@.take(i as int));
        if v[i] != c {
            r.push(v[i]);
        }
        i = i + 1;
    }
    assert(v@.take(v@.len() as int) =~= v@);
    r
}

fn replace_char(v: &Vec<char>, from: char, to: char) -> (r: Vec<char>)
    ensures
        r@ == replace_char_seq(v@, from, to),
{
    let mut r: Vec<char> = Vec::new();
    let mut i: usize = 0;
    while i < v.len()
        invariant
            i <= v@.len(),
            r@ == replace_char_seq(v@, from, to).take(i as int),
        decreases v@.len() - i,
    {
        if v[i] == from {
            r.push(to);
        } else {
            r.push(v[i]);
        }
        assert(r@ =~= replace_char_seq(v@, from, to).take(i + 1));
        i = i + 1;
    }
    assert(replace_char_seq(v@, from, to).take(v@.len() as int) =~= replace_char_seq(
        v@,
        from,
        to,
    ));
    r
}

fn has_decimal_comma(v: &Vec<char>) -> (b: bool)
    ensures
        b == comma_is_decimal(v@),
{
    let mut i = v.len();
    let mut dot_after = false;
    while i > 0
        invariant
            i <= v@.len(),
            dot_after == exists|j: int| i <= j < v@.len() && v@[j] == '.',
            forall|k: int|
                i <= k < v@.len() && #[trigger] v@[k] == ',' ==> exists|j: int|
                    k < j < v@.len() && v@[j] == '.',
        decreases i,
    {
        i = i - 1;
        if v[i] == ',' && !dot_after {
            assert(forall|j: int| i < j < v@.len() ==> v@[j] != '.');
            assert(v@[i as int] == ',');
            return true;
        }
        if v[i] == '.' {
            dot_after = true;
        }
    }
    false
}

/// Converts an amount of the export (`-1.234,56`, `25.50`) to milliunits.
pub fn parse_amount(s: &str) -> (r: Option<i64>)
    ensures
        r == paypal_amount_of(s@),
{
    let trimmed = trim(s);
    let t = remove_char(&chars_of(trimmed.as_str()), '\u{a0}');
    let n = if has_decimal_comma(&t) {
        replace_char(&remove_char(&t, '.'), ',', '.')
    } else {
        remove_char(&t, ',')
    };
    let normalized = string_from_chars(&remove_char(&n, ' '));
    match parse_decimal(normalized.as_str()) {
        Some(d) => milli_units(d),
        None => None,
    }
}


// ---------------------------------------------------------------------------
// The CSV export
// ---------------------------------------------------------------------------

/// Why an export cannot be read.
#[derive(Debug, PartialEq, Eq, Structural)]
pub enum PaypalError {
    /// The header row cannot be read.
    MissingHeaders,
    /// No column is headed `Datum` or `Date`.
    MissingDateColumn,
    /// No column is headed `Name`, `Empfänger` or `Recipient`.
    MissingNameColumn,
    /// No column is headed `Brutto`, `Gross`, `Bruttobetrag` or
    /// `Gross Amount`.
    MissingAmountColumn,
    /// A row cannot be read.
    UnreadableRow,
}

/// Positions of the columns the import reads.
#[derive(Debug, PartialEq, Eq, Structural)]
pub struct ColumnPositions {
    pub date: usize,
    pub name: usize,
    pub gross: usize,
}

/// What `str::to_lowercase` yields.
pub uninterp spec fn spec_lowercase(s: Seq<char>) -> Seq<char>;

/// Whether every character of a text is ASCII.
pub open spec fn is_ascii_text(s: Seq<char>) -> bool {
    forall|i: int| 0 <= i < s.len() ==> (#[trigger] s[i] as u32) < 0x80
}

/// A text with its ASCII capitals `A`..`Z` turned into `a`..`z`.
pub open spec fn ascii_lowercase(s: Seq<char>) -> Seq<char> {
    Seq::new(
        s.len(),
        |i: int|
            if 'A' <= s[i] && s[i] <= 'Z' {
                ((s[i] as u32) + 32) as char
            } else {
                s[i]
            },
    )
}

/// Lower-cases a text (`str::to_lowercase`). Claimed: std's result for it;
/// for ASCII text, Unicode's lower-case mapping turns `A`..`Z` into `a`..`z`
/// and keeps every other character.
#[verifier::external_body]
pub(crate) fn lowercase(s: &str) -> (r: String)
    ensures
        r@ == spec_lowercase(s@),
        is_ascii_text(s@) ==> r@ == ascii_lowercase(s@),
{
    s.to_lowercase()
}

/// `s` without leading byte order marks (`trim_start_matches('\u{feff}')`).
pub open spec fn strip_bom(s: Seq<char>) -> Seq<char>
    decreases s.len(),
{
    if s.len() > 0 && s[0] == '\u{feff}' {
        strip_bom(s.subrange(1, s.len() as int))
    } else {
        s
    }
}

fn strip_bom_text(s: &str) -> (r: String)
    ensures
        r@ == strip_bom(s@),
{
    let v = chars_of(s);
    let n = v.len();
    let mut i: usize = 0;
    assert(v@.subrange(0, n as int) =~= v@);
    while i < n && v[i] == '\u{feff}'
        invariant
            n == v@.len(),
            i <= n,
            strip_bom(v@) == strip_bom(v@.subrange(i as int, n as int)),
        decreases n - i,
    {
        let ghost cur = v@.subrange(i as int, n as int);
        assert(cur.subrange(1, cur.len() as int) =~= v@.subrange(i + 1, n as int));
        i = i + 1;
    }
    crate::text::string_from_range(&v, i, n)
}

/// A header as it is compared: trimmed, without byte order marks, in lower
/// case.
pub open spec fn header_key(h: Seq<char>) -> Seq<char> {
    spec_lowercase(strip_bom(trim_seq(h)))
}

pub open spec fn is_date_header(h: Seq<char>) -> bool {
    h == "datum"@ || h == "date"@
}

pub open spec fn is_name_header(h: Seq<char>) -> bool {
    h == "name"@ || h == "empfänger"@ || h == "recipient"@
}

pub open spec fn is_gross_header(h: Seq<char>) -> bool {
    h == "brutto"@ || h == "gross"@ || h == "bruttobetrag"@ || h == "gross amount"@
}

/// The columns the import looks for.
pub enum Column {
    Date,
    Name,
    Gross,
}

/// Whether a (normalized) header names column `c`.
pub open spec fn heads(c: Column, h: Seq<char>) -> bool {
    match c {
        Column::Date => is_date_header(h),
        Column::Name => is_name_header(h),
        Column::Gross => is_gross_header(h),
    }
}

/// `i` is the first position whose header names column `c`.
pub open spec fn first_header(hs: Seq<Seq<char>>, c: Column, i: int) -> bool {
    &&& 0 <= i < hs.len()
    &&& heads(c, header_key(hs[i]))
    &&& forall|j: int| 0 <= j < i ==> !heads(c, header_key(#[trigger] hs[j]))
}

/// No header names column `c`.
pub open spec fn no_header(hs: Seq<Seq<char>>, c: Column) -> bool {
    forall|j: int| 0 <= j < hs.len() ==> !heads(c, header_key(#[trigger] hs[j]))
}

/// The outcome of detecting the columns of the headers `hs`.
pub open spec fn columns_found(hs: Seq<Seq<char>>, r: Result<ColumnPositions, PaypalError>) -> bool {
    match r {
        Ok(c) => first_header(hs, Column::Date, c.date as int) && first_header(
            hs,
            Column::Name,
            c.name as int,
        ) && first_header(hs, Column::Gross, c.gross as int),
        Err(e) => if no_header(hs, Column::Date) {
            e == PaypalError::MissingDateColumn
        } else if no_header(hs, Column::Name) {
            e == PaypalError::MissingNameColumn
        } else {
            no_header(hs, Column::Gross) && e == PaypalError::MissingAmountColumn
        },
    }
}

fn text_is(a: &String, b: &str) -> (r: bool)
    ensures
        r == (a@ == b@),
{
    crate::text::str_equal(a.as_str(), b)
}

/// Finds the date, name and amount columns by their headers (the first of
/// each); a missing one is an error, checked in that order.
pub fn detect_columns(headers: &Vec<String>) -> (r: Result<ColumnPositions, PaypalError>)
    ensures
        columns_found(texts_view(headers@), r),
{
    let mut date_col: Option<usize> = None;
    let mut name_col: Option<usize> = None;
    let mut gross_col: Option<usize> = None;
    let mut i: usize = 0;
    while i < headers.len()
        invariant
            i <= headers@.len(),
            match date_col {
                Some(c) => c < i && first_header(texts_view(headers@), Column::Date, c as int),
                None => forall|j: int| 0 <= j < i ==> !heads(Column::Date, header_key(#[trigger] texts_view(headers@)[j])),
            },
            match name_col {
                Some(c) => c < i && first_header(texts_view(headers@), Column::Name, c as int),
                None => forall|j: int| 0 <= j < i ==> !heads(Column::Name, header_key(#[trigger] texts_view(headers@)[j])),
            },
            match gross_col {
                Some(c) => c < i && first_header(texts_view(headers@), Column::Gross, c as int),
                None => forall|j: int| 0 <= j < i ==> !heads(Column::Gross, header_key(#[trigger] texts_view(headers@)[j])),
            },
        decreases headers@.len() - i,
    {
        let trimmed = trim(headers[i].as_str());
        let stripped = strip_bom_text(trimmed.as_str());
        let h = lowercase(stripped.as_str());
        assert(h@ == header_key(texts_view(headers@)[i as int]));
        if date_col.is_none() && (text_is(&h, "datum") || text_is(&h, "date")) {
            date_col = Some(i);
        }
        if name_col.is_none() && (text_is(&h, "name") || text_is(&h, "empfänger") || text_is(
            &h,
            "recipient",
        )) {
            name_col = Some(i);
        }
        if gross_col.is_none() && (text_is(&h, "brutto") || text_is(&h, "gross") || text_is(
            &h,
            "bruttobetrag",
        ) || text_is(&h, "gross amount")) {
            gross_col = Some(i);
        }
        i = i + 1;
    }
    let date = match date_col {
        Some(c) => c,
        None => return Err(PaypalError::MissingDateColumn),
    };
    let name = match name_col {
        Some(c) => c,
        None => {
            assert(!no_header(texts_view(headers@), Column::Date)) by {
                assert(heads(Column::Date, header_key(texts_view(headers@)[date as int])));
            };
            return Err(PaypalError::MissingNameColumn);
        },
    };
    let gross = match gross_col {
        Some(c) => c,
        None => {
            assert(!no_header(texts_view(headers@), Column::Date)) by {
                assert(heads(Column::Date, header_key(texts_view(headers@)[date as int])));
            };
            assert(!no_header(texts_view(headers@), Column::Name)) by {
                assert(heads(Column::Name, header_key(texts_view(headers@)[name as int])));
            };
            return Err(PaypalError::MissingAmountColumn);
        },
    };
    Ok(ColumnPositions { date, name, gross })
}

/// A CSV table as read: the header row (when it could be read), the rows
/// read before the first unreadable one, and whether one was unreadable.
#[derive(Debug)]
pub struct CsvTable {
    pub headers: Option<Vec<String>>,
    pub rows: Vec<Vec<String>>,
    pub failed: bool,
}

/// A [`CsvTable`] with its texts taken by their views.
pub struct CsvTableView {
    pub headers: Option<Seq<Seq<char>>>,
    pub rows: Seq<Seq<Seq<char>>>,
    pub failed: bool,
}

impl View for CsvTable {
    type V = CsvTableView;

    open spec fn view(&self) -> CsvTableView {
        CsvTableView {
            headers: match self.headers {
                Some(h) => Some(texts_view(h@)),
                None => None,
            },
            rows: self.rows@.map_values(|r: Vec<String>| texts_view(r@)),
            failed: self.failed,
        }
    }
}

/// What the `csv` crate reads from the bytes of a file, with a header row
/// and rows of varying length.
pub uninterp spec fn spec_read_csv(data: Seq<u8>) -> CsvTableView;

/// Reads CSV data (`csv::ReaderBuilder::new().flexible(true)`, then the
/// header row and the records, stopping at the first record that cannot be
/// read). Claimed: what the csv crate reads from these bytes.
#[verifier::external_body]
pub(crate) fn read_csv(data: &[u8]) -> (r: CsvTable)
    ensures
        r@ == spec_read_csv(data@),
{
    let mut reader = csv::ReaderBuilder::new().flexible(true).from_reader(data);
    let headers = match reader.headers() {
        Ok(h) => Some(h.iter().map(String::from).collect()),
        Err(_) => None,
    };
    let mut rows = Vec::new();
    let mut failed = false;
    for record in reader.records() {
        match record {
            Ok(r) => rows.push(r.iter().map(String::from).collect()),
            Err(_) => { failed = true; break; },
        }
    }
    CsvTable { headers, rows, failed }
}

/// The field at position `i` of a row, empty when the row is shorter.
pub open spec fn field(row: Seq<Seq<char>>, i: int) -> Seq<char> {
    if 0 <= i < row.len() {
        row[i]
    } else {
        Seq::empty()
    }
}

/// The PayPal transaction a row stands for: `None` when its name is blank or
/// its date or amount does not parse.
pub open spec fn row_transaction(row: Seq<Seq<char>>, cols: ColumnPositions) -> Option<
    (Date, Seq<char>, i64),
> {
    let name = trim_seq(field(row, cols.name as int));
    if name.len() == 0 {
        None
    } else {
        match paypal_date_of(field(row, cols.date as int)) {
            None => None,
            Some(date) => match paypal_amount_of(field(row, cols.gross as int)) {
                None => None,
                Some(amount) => Some((date, name, amount)),
            },
        }
    }
}

/// The transactions of the rows, in order.
pub open spec fn rows_transactions(rows: Seq<Seq<Seq<char>>>, cols: ColumnPositions) -> Seq<
    (Date, Seq<char>, i64),
>
    decreases rows.len(),
{
    if rows.len() == 0 {
        Seq::empty()
    } else {
        let rest = rows_transactions(rows.drop_last(), cols);
        match row_transaction(rows.last(), cols) {
            Some(t) => rest.push(t),
            None => rest,
        }
    }
}

/// The position of the first header that names column `c`, if any.
pub open spec fn first_heading(hs: Seq<Seq<char>>, c: Column) -> Option<int> {
    if exists|i: int| first_header(hs, c, i) {
        Some(choose|i: int| first_header(hs, c, i))
    } else {
        None
    }
}

/// The columns of the headers `hs`: the first header of each column, or the
/// first missing column (date, then name, then amount).
pub open spec fn detected_columns(hs: Seq<Seq<char>>) -> Result<ColumnPositions, PaypalError> {
    match first_heading(hs, Column::Date) {
        None => Err(PaypalError::MissingDateColumn),
        Some(d) => match first_heading(hs, Column::Name) {
            None => Err(PaypalError::MissingNameColumn),
            Some(n) => match first_heading(hs, Column::Gross) {
                None => Err(PaypalError::MissingAmountColumn),
                Some(g) => Ok(ColumnPositions { date: d as usize, name: n as usize, gross: g as usize }),
            },
        },
    }
}

/// What reading an export gives for the table the CSV reader made of it.
pub open spec fn csv_outcome(t: CsvTableView) -> Result<Seq<(Date, Seq<char>, i64)>, PaypalError> {
    match t.headers {
        None => Err(PaypalError::MissingHeaders),
        Some(hs) => match detected_columns(hs) {
            Err(e) => Err(e),
            Ok(c) => if t.failed {
                Err(PaypalError::UnreadableRow)
            } else {
                Ok(rows_transactions(t.rows, c))
            },
        },
    }
}

/// The first of the headers that name a column is found, and it is the only
/// first one.
proof fn lemma_first_heading(hs: Seq<Seq<char>>, c: Column, n: int)
    requires
        0 <= n <= hs.len(),
        exists|j: int| 0 <= j < n && heads(c, header_key(#[trigger] hs[j])),
    ensures
        exists|i: int| first_header(hs, c, i),
    decreases n,
{
    if exists|j: int| 0 <= j < n - 1 && heads(c, header_key(#[trigger] hs[j])) {
        lemma_first_heading(hs, c, n - 1);
    } else {
        assert(first_header(hs, c, n - 1));
    }
}

/// `first_heading` is the first header of a column, and `None` exactly when
/// no header names it.
proof fn lemma_first_heading_is(hs: Seq<Seq<char>>, c: Column)
    ensures
        first_heading(hs, c) is None <==> no_header(hs, c),
        forall|i: int| #[trigger] first_header(hs, c, i) ==> first_heading(hs, c) == Some(i),
{
    assert forall|i: int| #[trigger] first_header(hs, c, i) implies first_heading(hs, c) == Some(
        i,
    ) by {
        let k = choose|k: int| first_header(hs, c, k);
        assert(first_header(hs, c, k));
        if k < i {
            assert(!heads(c, header_key(hs[k])));
        } else if i < k {
            assert(!heads(c, header_key(hs[i])));
        }
    }
    if !no_header(hs, c) {
        assert(exists|j: int| 0 <= j < hs.len() && heads(c, header_key(#[trigger] hs[j])));
        lemma_first_heading(hs, c, hs.len() as int);
    } else {
        if exists|i: int| first_header(hs, c, i) {
            let i = choose|i: int| first_header(hs, c, i);
            assert(heads(c, header_key(hs[i])));
        }
    }
}

/// What `detect_columns` finds is `detected_columns`.
proof fn lemma_detected_columns(hs: Seq<Seq<char>>, r: Result<ColumnPositions, PaypalError>)
    requires
        columns_found(hs, r),
        hs.len() <= usize::MAX,
    ensures
        r == detected_columns(hs),
{
    lemma_first_heading_is(hs, Column::Date);
    lemma_first_heading_is(hs, Column::Name);
    lemma_first_heading_is(hs, Column::Gross);
    match r {
        Ok(c) => {
            assert(first_heading(hs, Column::Date) == Some(c.date as int));
            assert(first_heading(hs, Column::Name) == Some(c.name as int));
            assert(first_heading(hs, Column::Gross) == Some(c.gross as int));
        },
        Err(e) => {},
    }
}

/// `perm` reorders `n` positions: each new position takes one old one, and
/// every old one is taken once.
pub open spec fn is_permutation(perm: Seq<int>, n: int) -> bool {
    &&& perm.len() == n
    &&& forall|j: int| 0 <= j < n ==> 0 <= #[trigger] perm[j] < n
    &&& forall|i: int, j: int| 0 <= i < j < n ==> perm[i] != perm[j]
    &&& forall|k: int| 0 <= k < n ==> #[trigger] takes(perm, n, k)
}

/// Some new position of `perm` takes the old position `k`.
pub open spec fn takes(perm: Seq<int>, n: int, k: int) -> bool {
    exists|j: int| 0 <= j < n && #[trigger] perm[j] == k
}

/// The fields of a row (or the headers) in the order `perm` gives: the new
/// `j`-th is the old `perm[j]`-th.
pub open spec fn reorder(row: Seq<Seq<char>>, perm: Seq<int>) -> Seq<Seq<char>> {
    Seq::new(perm.len(), |j: int| row[perm[j]])
}

/// At most one header names column `c`.
pub open spec fn at_most_one_header(hs: Seq<Seq<char>>, c: Column) -> bool {
    forall|i: int, j: int|
        0 <= i < hs.len() && 0 <= j < hs.len() && heads(c, header_key(#[trigger] hs[i])) && heads(
            c,
            header_key(#[trigger] hs[j]),
        ) ==> i == j
}

/// The table with its columns reordered by `perm`, in the header row and in
/// every row.
pub open spec fn reorder_columns(t: CsvTableView, perm: Seq<int>) -> CsvTableView {
    CsvTableView {
        headers: match t.headers {
            Some(hs) => Some(reorder(hs, perm)),
            None => None,
        },
        rows: t.rows.map_values(|r: Seq<Seq<char>>| reorder(r, perm)),
        failed: t.failed,
    }
}

/// Where the only header of a column lands when the columns are reordered.
proof fn lemma_reordered_heading(hs: Seq<Seq<char>>, perm: Seq<int>, c: Column)
    requires
        is_permutation(perm, hs.len() as int),
        at_most_one_header(hs, c),
    ensures
        match first_heading(hs, c) {
            None => first_heading(reorder(hs, perm), c) is None,
            Some(k) => first_heading(reorder(hs, perm), c) matches Some(j) && 0 <= j < hs.len()
                && perm[j] == k,
        },
{
    let h2 = reorder(hs, perm);
    lemma_first_heading_is(hs, c);
    lemma_first_heading_is(h2, c);
    match first_heading(hs, c) {
        None => {
            assert forall|j: int| 0 <= j < h2.len() implies !heads(c, header_key(#[trigger] h2[j])) by {
                assert(h2[j] == hs[perm[j]]);
            }
        },
        Some(k) => {
            assert(first_header(hs, c, k));
            assert(takes(perm, hs.len() as int, k));
            let j = choose|j: int| 0 <= j < hs.len() && #[trigger] perm[j] == k;
            assert(h2[j] == hs[k]);
            assert forall|i: int| 0 <= i < j implies !heads(c, header_key(#[trigger] h2[i])) by {
                assert(h2[i] == hs[perm[i]]);
                if heads(c, header_key(hs[perm[i]])) {
                    assert(perm[i] == k);
                }
            }
            assert(first_header(h2, c, j));
        },
    }
}

/// Reading the reordered rows with the moved columns reads the same
/// transactions.
proof fn lemma_reordered_rows(
    rows: Seq<Seq<Seq<char>>>,
    perm: Seq<int>,
    n: int,
    c1: ColumnPositions,
    c2: ColumnPositions,
)
    requires
        is_permutation(perm, n),
        forall|r: int| 0 <= r < rows.len() ==> (#[trigger] rows[r]).len() == n,
        0 <= c2.date < n && perm[c2.date as int] == c1.date,
        0 <= c2.name < n && perm[c2.name as int] == c1.name,
        0 <= c2.gross < n && perm[c2.gross as int] == c1.gross,
    ensures
        rows_transactions(rows.map_values(|r: Seq<Seq<char>>| reorder(r, perm)), c2)
            == rows_transactions(rows, c1),
    decreases rows.len(),
{
    if rows.len() > 0 {
        let moved = rows.map_values(|r: Seq<Seq<char>>| reorder(r, perm));
        let rest = rows.drop_last();
        assert(moved.drop_last() =~= rest.map_values(|r: Seq<Seq<char>>| reorder(r, perm)));
        assert forall|r: int| 0 <= r < rest.len() implies (#[trigger] rest[r]).len() == n by {
            assert(rest[r] == rows[r]);
        }
        lemma_reordered_rows(rest, perm, n, c1, c2);
        let row = rows.last();
        let row2 = moved.last();
        assert(row2 == reorder(row, perm));
        assert(row.len() == n);
        assert(field(row2, c2.date as int) == field(row, c1.date as int));
        assert(field(row2, c2.name as int) == field(row, c1.name as int));
        assert(field(row2, c2.gross as int) == field(row, c1.gross as int));
    }
}

/// Columns are found by their headers, not by their places: reordering the
/// columns of an export (the same way in the header row and in every row,
/// each row as long as the header row, no column named by two headers)
/// reads the same transactions, or fails the same way.
pub proof fn law_column_order_irrelevant(t: CsvTableView, perm: Seq<int>)
    requires
        t.headers is Some,
        t.headers->0.len() <= usize::MAX,
        is_permutation(perm, t.headers->0.len() as int),
        forall|r: int| 0 <= r < t.rows.len() ==> (#[trigger] t.rows[r]).len() == t.headers->0.len(),
        at_most_one_header(t.headers->0, Column::Date),
        at_most_one_header(t.headers->0, Column::Name),
        at_most_one_header(t.headers->0, Column::Gross),
    ensures
        csv_outcome(reorder_columns(t, perm)) == csv_outcome(t),
{
    let hs = t.headers->0;
    let h2 = reorder(hs, perm);
    let n = hs.len() as int;
    lemma_reordered_heading(hs, perm, Column::Date);
    lemma_reordered_heading(hs, perm, Column::Name);
    lemma_reordered_heading(hs, perm, Column::Gross);
    assert(reorder_columns(t, perm).headers == Some(h2));
    match detected_columns(hs) {
        Ok(c1) => {
            let c2 = detected_columns(h2)->Ok_0;
            lemma_first_heading_is(hs, Column::Date);
            lemma_first_heading_is(hs, Column::Name);
            lemma_first_heading_is(hs, Column::Gross);
            lemma_reordered_rows(t.rows, perm, n, c1, c2);
        },
        Err(_) => {},
    }
}

pub open spec fn transaction_tuple(t: PaypalTransaction) -> (Date, Seq<char>, i64) {
    (t.date, t.name@, t.amount_milli)
}

fn field_text(row: &Vec<String>, i: usize) -> (r: &str)
    ensures
        r@ == field(texts_view(row@), i as int),
{
    if i < row.len() {
        row[i].as_str()
    } else {
        proof {
            reveal_strlit("");
        }
        ""
    }
}

/// Reads the transactions of a PayPal activity export from the file's
/// bytes: rows with a blank name or an unreadable date or amount are left
/// out.
pub fn parse_csv_data(data: &[u8]) -> (r: Result<Vec<PaypalTransaction>, PaypalError>)
    ensures
        match r {
            Ok(txs) => csv_outcome(spec_read_csv(data@)) == Ok::<
                Seq<(Date, Seq<char>, i64)>,
                PaypalError,
            >(txs@.map_values(|t: PaypalTransaction| transaction_tuple(t))),
            Err(e) => csv_outcome(spec_read_csv(data@)) == Err::<
                Seq<(Date, Seq<char>, i64)>,
                PaypalError,
            >(e),
        },
{
    let table = read_csv(data);
    let headers = match &table.headers {
        Some(h) => h,
        None => return Err(PaypalError::MissingHeaders),
    };
    let detected = detect_columns(headers);
    proof {
        lemma_detected_columns(texts_view(headers@), detected);
    }
    let cols = match detected {
        Ok(c) => c,
        Err(e) => return Err(e),
    };
    if table.failed {
        return Err(PaypalError::UnreadableRow);
    }
    let ghost rows = table@.rows;
    let mut transactions: Vec<PaypalTransaction> = Vec::new();
    let mut i: usize = 0;
    while i < table.rows.len()
        invariant
            i <= table.rows@.len(),
            rows == table@.rows,
            transactions@.map_values(|t: PaypalTransaction| transaction_tuple(t))
                == rows_transactions(rows.take(i as int), cols),
        decreases table.rows@.len() - i,
    {
        let row = &table.rows[i];
        assert(rows[i as int] == texts_view(row@));
        assert(rows.take(i + 1).drop_last() =~= rows.take(i as int));
        let ghost before = transactions@;
        let name = trim(field_text(row, cols.name));
        if !name.as_str().is_empty() {
            if let Some(date) = parse_date(field_text(row, cols.date)) {
                if let Some(amount_milli) = parse_amount(field_text(row, cols.gross)) {
                    transactions.push(PaypalTransaction { date, name, amount_milli });
                    assert(transactions@.map_values(|t: PaypalTransaction| transaction_tuple(t))
                        =~= before.map_values(|t: PaypalTransaction| transaction_tuple(t)).push(
                        (date, trim_seq(rows[i as int][cols.name as int]), amount_milli),
                    ));
                }
            }
        }
        i = i + 1;
    }
    assert(rows.take(rows.len() as int) =~= rows);
    Ok(transactions)
}

} // verus!
