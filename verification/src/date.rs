//! Calendar dates as plain values, with the calendar arithmetic, parsing and
//! clock readings that `chrono` provides.

use chrono::Datelike;
use vstd::prelude::*;

use crate::text::{
    is_digit, lemma_split_last, lemma_zero_pad_value, nat_text, push_char, u64_text_padded,
    zero_pad,
};

verus! {

/// A date of the proleptic Gregorian calendar (what `chrono::NaiveDate`
/// holds).
#[derive(Clone, Copy, Debug, PartialEq, Eq, Structural, Hash)]
pub struct Date {
    pub year: i32,
    pub month: u32,
    pub day: u32,
}

/// A point in time as seconds and nanoseconds since the Unix epoch (UTC).
#[derive(Clone, Copy, Debug, PartialEq, Eq, Structural)]
pub struct Timestamp {
    pub seconds: i64,
    pub nanos: u32,
}

/// The first year `chrono::NaiveDate` can hold.
pub const MIN_YEAR: i32 = -262143;

/// The last year `chrono::NaiveDate` can hold.
pub const MAX_YEAR: i32 = 262142;

pub open spec fn is_leap_year(y: int) -> bool {
    (y % 4 == 0 && y % 100 != 0) || y % 400 == 0
}

pub open spec fn days_in_month(y: int, m: int) -> int {
    if m == 2 {
        if is_leap_year(y) {
            29
        } else {
            28
        }
    } else if m == 4 || m == 6 || m == 9 || m == 11 {
        30
    } else {
        31
    }
}

/// A date that exists and lies in the range that `chrono` supports.
pub open spec fn valid_date(d: Date) -> bool {
    &&& MIN_YEAR <= d.year <= MAX_YEAR
    &&& 1 <= d.month <= 12
    &&& 1 <= d.day <= days_in_month(d.year as int, d.month as int)
}

/// Days in the months of year `y` before month `m`.
pub open spec fn days_before_month(y: int, m: int) -> int {
    let base: int = if m == 1 {
        0
    } else if m == 2 {
        31
    } else if m == 3 {
        59
    } else if m == 4 {
        90
    } else if m == 5 {
        120
    } else if m == 6 {
        151
    } else if m == 7 {
        181
    } else if m == 8 {
        212
    } else if m == 9 {
        243
    } else if m == 10 {
        273
    } else if m == 11 {
        304
    } else {
        334
    };
    if m > 2 && is_leap_year(y) {
        base + 1
    } else {
        base
    }
}

/// Consecutive days have consecutive numbers (day 0 is 0000-01-01).
pub open spec fn day_number(d: Date) -> int {
    let y = d.year as int;
    365 * y + (y + 3) / 4 - (y + 99) / 100 + (y + 399) / 400 + days_before_month(y, d.month as int)
        + d.day - 1
}

/// The day number of 1 January of year `y`.
pub open spec fn year_start(y: int) -> int {
    365 * y + (y + 3) / 4 - (y + 99) / 100 + (y + 399) / 400
}

/// A year has 366 days when it is a leap year, else 365.
proof fn lemma_year_length(y: int)
    ensures
        year_start(y + 1) - year_start(y) == if is_leap_year(y) {
            366int
        } else {
            365int
        },
{
    assert((y + 4) / 4 - (y + 3) / 4 == if y % 4 == 0 { 1int } else { 0int });
    assert((y + 100) / 100 - (y + 99) / 100 == if y % 100 == 0 { 1int } else { 0int });
    assert((y + 400) / 400 - (y + 399) / 400 == if y % 400 == 0 { 1int } else { 0int });
    if y % 100 == 0 {
        assert(y % 4 == 0);
    }
    if y % 400 == 0 {
        assert(y % 100 == 0);
    }
}

/// Later years start later.
proof fn lemma_year_start_grows(a: int, b: int)
    requires
        a <= b,
    ensures
        year_start(a) + 365 * (b - a) <= year_start(b),
    decreases b - a,
{
    if a < b {
        lemma_year_start_grows(a, b - 1);
        lemma_year_length(b - 1);
    }
}

/// The days of a valid date's year before it, and the whole year's days.
proof fn lemma_day_in_year(d: Date)
    requires
        valid_date(d),
    ensures
        0 <= days_before_month(d.year as int, d.month as int) + d.day - 1,
        days_before_month(d.year as int, d.month as int) + d.day - 1 < year_start(d.year + 1)
            - year_start(d.year as int),
{
    lemma_year_length(d.year as int);
}

/// For valid dates, chronological order is the order of day numbers.
pub proof fn lemma_date_lt_day_number(a: Date, b: Date)
    requires
        valid_date(a),
        valid_date(b),
        date_lt(a, b),
    ensures
        day_number(a) < day_number(b),
{
    lemma_day_in_year(a);
    lemma_day_in_year(b);
    if a.year < b.year {
        lemma_year_start_grows(a.year + 1, b.year as int);
    } else if a.month < b.month {
        let y = a.year as int;
        assert(days_before_month(y, a.month as int) + days_in_month(y, a.month as int)
            <= days_before_month(y, b.month as int));
    }
}

/// The date `k` days after `d` (before it for negative `k`), if that date is
/// in range.
pub open spec fn date_shift(d: Date, k: int) -> Option<Date> {
    if exists|e: Date| valid_date(e) && day_number(e) == day_number(d) + k {
        Some(choose|e: Date| valid_date(e) && day_number(e) == day_number(d) + k)
    } else {
        None
    }
}

/// Chronological order, which for valid dates is the order of
/// (year, month, day).
pub open spec fn date_lt(a: Date, b: Date) -> bool {
    a.year < b.year || (a.year == b.year && (a.month < b.month || (a.month == b.month && a.day
        < b.day)))
}

/// `a < b` for dates.
pub fn date_before(a: Date, b: Date) -> (r: bool)
    ensures
        r == date_lt(a, b),
{
    a.year < b.year || (a.year == b.year && (a.month < b.month || (a.month == b.month && a.day
        < b.day)))
}

/// How `chrono` writes a year: four digits for 0..=9999, otherwise an
/// explicit sign followed by at least four digits.
pub open spec fn year_text(y: int) -> Seq<char> {
    if 0 <= y <= 9999 {
        zero_pad(nat_text(y as nat), 4)
    } else if y < 0 {
        seq!['-'] + zero_pad(nat_text((-y) as nat), 4)
    } else {
        seq!['+'] + zero_pad(nat_text(y as nat), 4)
    }
}

/// The `%Y-%m-%d` rendering of a date, which is also its `Display` form.
pub open spec fn date_text(d: Date) -> Seq<char> {
    year_text(d.year as int) + seq!['-'] + zero_pad(nat_text(d.month as nat), 2) + seq!['-']
        + zero_pad(nat_text(d.day as nat), 2)
}

/// The rendering of a year determines the year.
pub proof fn lemma_year_text_injective(a: int, b: int)
    requires
        year_text(a) == year_text(b),
    ensures
        a == b,
{
    let na: nat = if a < 0 { (-a) as nat } else { a as nat };
    let nb: nat = if b < 0 { (-b) as nat } else { b as nat };
    lemma_zero_pad_value(na, 4);
    lemma_zero_pad_value(nb, 4);
    let pa = zero_pad(nat_text(na), 4);
    let pb = zero_pad(nat_text(nb), 4);
    let ta = year_text(a);
    let tb = year_text(b);
    if 0 <= a <= 9999 {
        assert(ta == pa);
        assert(is_digit(ta[0]));
    } else {
        assert(ta.subrange(1, ta.len() as int) =~= pa);
        assert(ta[0] == (if a < 0 { '-' } else { '+' }));
    }
    if 0 <= b <= 9999 {
        assert(tb == pb);
        assert(is_digit(tb[0]));
    } else {
        assert(tb.subrange(1, tb.len() as int) =~= pb);
        assert(tb[0] == (if b < 0 { '-' } else { '+' }));
    }
    assert(ta[0] == tb[0]);
    assert(pa == pb);
    assert(na == nb);
}

/// The characters of a year's rendering: digits and a sign.
pub proof fn lemma_year_text_chars(y: int)
    ensures
        forall|k: int|
            0 <= k < year_text(y).len() ==> is_digit(#[trigger] year_text(y)[k]) || year_text(y)[k]
                == '-' || year_text(y)[k] == '+',
{
    let n: nat = if y < 0 { (-y) as nat } else { y as nat };
    lemma_zero_pad_value(n, 4);
    let p = zero_pad(nat_text(n), 4);
    assert forall|k: int| 0 <= k < year_text(y).len() implies is_digit(#[trigger] year_text(y)[k])
        || year_text(y)[k] == '-' || year_text(y)[k] == '+' by {
        if !(0 <= y <= 9999) && k > 0 {
            assert(year_text(y)[k] == p[k - 1]);
        }
    }
}

/// The `%Y-%m-%d` rendering of a date determines the date.
pub proof fn lemma_date_text_injective(a: Date, b: Date)
    requires
        date_text(a) == date_text(b),
    ensures
        a == b,
{
    let ya = year_text(a.year as int);
    let yb = year_text(b.year as int);
    let ma = zero_pad(nat_text(a.month as nat), 2);
    let mb = zero_pad(nat_text(b.month as nat), 2);
    let da = zero_pad(nat_text(a.day as nat), 2);
    let db = zero_pad(nat_text(b.day as nat), 2);
    lemma_zero_pad_value(a.month as nat, 2);
    lemma_zero_pad_value(b.month as nat, 2);
    lemma_zero_pad_value(a.day as nat, 2);
    lemma_zero_pad_value(b.day as nat, 2);
    assert(!da.contains('-'));
    assert(!db.contains('-'));
    assert(!ma.contains('-'));
    assert(!mb.contains('-'));
    assert(date_text(a) =~= (ya + seq!['-'] + ma) + seq!['-'] + da);
    assert(date_text(b) =~= (yb + seq!['-'] + mb) + seq!['-'] + db);
    lemma_split_last(ya + seq!['-'] + ma, da, yb + seq!['-'] + mb, db, '-');
    lemma_split_last(ya, ma, yb, mb, '-');
    lemma_year_text_injective(a.year as int, b.year as int);
}

/// The characters of a date's rendering: digits and signs.
pub proof fn lemma_date_text_chars(d: Date)
    ensures
        forall|k: int|
            0 <= k < date_text(d).len() ==> is_digit(#[trigger] date_text(d)[k]) || date_text(d)[k]
                == '-' || date_text(d)[k] == '+',
{
    let y = year_text(d.year as int);
    let m = zero_pad(nat_text(d.month as nat), 2);
    let dd = zero_pad(nat_text(d.day as nat), 2);
    lemma_year_text_chars(d.year as int);
    lemma_zero_pad_value(d.month as nat, 2);
    lemma_zero_pad_value(d.day as nat, 2);
    let t = date_text(d);
    assert forall|k: int| 0 <= k < t.len() implies is_digit(#[trigger] t[k]) || t[k] == '-' || t[k]
        == '+' by {
        if k < y.len() {
            assert(t[k] == y[k]);
        } else if k == y.len() {
        } else if k < y.len() + 1 + m.len() {
            assert(t[k] == m[k - y.len() - 1]);
        } else if k == y.len() + 1 + m.len() {
        } else {
            assert(t[k] == dd[k - y.len() - 2 - m.len()]);
        }
    }
}

/// A date's rendering holds no character other than digits and signs.
pub proof fn lemma_date_text_without(d: Date, c: char)
    requires
        !is_digit(c),
        c != '-',
        c != '+',
    ensures
        !date_text(d).contains(c),
{
    lemma_date_text_chars(d);
}

/// Renders a date as `YYYY-MM-DD`.
pub fn format_date(d: Date) -> (r: String)
    ensures
        r@ == date_text(d),
{
    let mut r = String::new();
    if 0 <= d.year && d.year <= 9999 {
        let y = u64_text_padded(d.year as u64, 4);
        r.append(y.as_str());
    } else if d.year < 0 {
        push_char(&mut r, '-');
        let magnitude: u64 = (-(d.year as i64)) as u64;
        let y = u64_text_padded(magnitude, 4);
        r.append(y.as_str());
    } else {
        push_char(&mut r, '+');
        let y = u64_text_padded(d.year as u64, 4);
        r.append(y.as_str());
    }
    push_char(&mut r, '-');
    let m = u64_text_padded(d.month as u64, 2);
    r.append(m.as_str());
    push_char(&mut r, '-');
    let day = u64_text_padded(d.day as u64, 2);
    r.append(day.as_str());
    assert(r@ =~= date_text(d));
    r
}

/// What `chrono::NaiveDate::parse_from_str(text, format)` yields.
pub uninterp spec fn spec_parse_date(text: Seq<char>, format: Seq<char>) -> Option<Date>;

/// Parses `text` with the `strftime`-style `format`
/// (`chrono::NaiveDate::parse_from_str`). Claimed: the result is chrono's
/// for these arguments, and a parsed date is a valid date in chrono's range.
#[verifier::external_body]
pub(crate) fn parse_date_with_format(text: &str, format: &str) -> (r: Option<Date>)
    ensures
        r == spec_parse_date(text@, format@),
        r matches Some(d) ==> valid_date(d),
{
    match chrono::NaiveDate::parse_from_str(text, format) {
        Ok(nd) => Some(Date { year: nd.year(), month: nd.month(), day: nd.day() }),
        Err(_) => None,
    }
}

/// The date `days` days after `date` (`chrono::NaiveDate::checked_add_signed`
/// with a whole number of days). Claimed: the result is the date whose day
/// number is `days` more than that of `date`, or `None` when no such date is
/// in chrono's range.
#[verifier::external_body]
pub(crate) fn add_days(date: Date, days: i64) -> (r: Option<Date>)
    requires
        valid_date(date),
    ensures
        r == date_shift(date, days as int),
{
    let nd = match chrono::NaiveDate::from_ymd_opt(date.year, date.month, date.day) {
        Some(nd) => nd,
        None => return None,
    };
    let delta = match chrono::TimeDelta::try_days(days) {
        Some(delta) => delta,
        None => return None,
    };
    match nd.checked_add_signed(delta) {
        Some(x) => Some(Date { year: x.year(), month: x.month(), day: x.day() }),
        None => None,
    }
}

/// Today's date in UTC (`chrono::Utc::now().date_naive()`). Claimed: a valid
/// date; which one depends on the clock.
#[verifier::external_body]
pub(crate) fn utc_today() -> (r: Date)
    ensures
        valid_date(r),
{
    let nd = chrono::Utc::now().date_naive();
    Date { year: nd.year(), month: nd.month(), day: nd.day() }
}

/// The current time (`chrono::Utc::now()`). Nothing is claimed of the value:
/// it depends on the clock.
#[verifier::external_body]
pub(crate) fn utc_now() -> (r: Timestamp) {
    let now = chrono::Utc::now();
    Timestamp { seconds: now.timestamp(), nanos: now.timestamp_subsec_nanos() }
}

} // verus!
