//! Decimal amounts as (mantissa, scale) pairs, and the conversion of an
//! amount of currency to integer thousandths ("milliunits"), with the
//! arithmetic done by `rust_decimal`.

use rust_decimal::prelude::ToPrimitive;
use vstd::prelude::*;

verus! {

/// A `rust_decimal::Decimal` taken apart: its value is
/// `mantissa / 10^scale`.
#[derive(Clone, Copy, Debug, PartialEq, Eq, Structural)]
pub struct DecimalParts {
    pub mantissa: i128,
    pub scale: u32,
}

/// The largest mantissa magnitude a `Decimal` holds (96 bits).
pub const MAX_MANTISSA: i128 = 0xFFFF_FFFF_FFFF_FFFF_FFFF_FFFF;

/// The largest scale a `Decimal` holds.
pub const MAX_SCALE: u32 = 28;

pub open spec fn pow10(k: nat) -> int
    decreases k,
{
    if k == 0 {
        1
    } else {
        10 * pow10((k - 1) as nat)
    }
}

pub proof fn lemma_pow10_positive(k: nat)
    ensures
        pow10(k) >= 1,
    decreases k,
{
    if k > 0 {
        lemma_pow10_positive((k - 1) as nat);
    }
}

/// A pair that a `Decimal` can hold.
pub open spec fn in_decimal_range(d: DecimalParts) -> bool {
    -MAX_MANTISSA <= d.mantissa <= MAX_MANTISSA && d.scale <= MAX_SCALE
}

pub open spec fn abs(x: int) -> int {
    if x < 0 {
        -x
    } else {
        x
    }
}

/// `m / p` rounded to the nearest integer, ties to the even neighbour
/// (`RoundingStrategy::MidpointNearestEven`), symmetric around zero.
pub open spec fn round_half_even(m: int, p: int) -> int {
    let q = abs(m) / p;
    let r = abs(m) % p;
    let up = 2 * r > p || (2 * r == p && q % 2 == 1);
    let magnitude = if up {
        q + 1
    } else {
        q
    };
    if m < 0 {
        -magnitude
    } else {
        magnitude
    }
}

/// `m / p` with the fraction dropped (toward zero).
pub open spec fn truncate_div(m: int, p: int) -> int {
    if m < 0 {
        -(abs(m) / p)
    } else {
        m / p
    }
}

/// What `Decimal::round_dp(dp)` yields.
pub open spec fn spec_round_dp(d: DecimalParts, dp: u32) -> DecimalParts {
    if d.scale <= dp {
        d
    } else {
        DecimalParts {
            mantissa: round_half_even(d.mantissa as int, pow10((d.scale - dp) as nat)) as i128,
            scale: dp,
        }
    }
}

pub open spec fn fits_i64(x: int) -> bool {
    i64::MIN <= x <= i64::MAX
}

/// What `ToPrimitive::to_i64` yields for a decimal: its integer part, when
/// that fits.
pub open spec fn spec_to_i64(d: DecimalParts) -> Option<i64> {
    let t = truncate_div(d.mantissa as int, pow10(d.scale as nat));
    if fits_i64(t) {
        Some(t as i64)
    } else {
        None
    }
}

/// What `Decimal::from_str` yields for a text, taken apart.
pub uninterp spec fn spec_parse_decimal(text: Seq<char>) -> Option<DecimalParts>;

/// What `Decimal::checked_mul` yields for two decimals, taken apart.
pub uninterp spec fn spec_decimal_checked_mul(a: DecimalParts, b: DecimalParts) -> Option<
    DecimalParts,
>;

/// Parses a decimal number (`<Decimal as FromStr>::from_str`). Claimed: the
/// result is rust_decimal's for this text, and a parsed decimal is in the
/// range a `Decimal` holds.
#[verifier::external_body]
pub(crate) fn parse_decimal(text: &str) -> (r: Option<DecimalParts>)
    ensures
        r == spec_parse_decimal(text@),
        r matches Some(d) ==> in_decimal_range(d),
{
    match <rust_decimal::Decimal as std::str::FromStr>::from_str(text) {
        Ok(d) => Some(DecimalParts { mantissa: d.mantissa(), scale: d.scale() }),
        Err(_) => None,
    }
}

/// Multiplies two decimals (`Decimal::checked_mul`), `None` on overflow.
/// Claimed: the result is rust_decimal's; a zero factor gives zero at scale
/// 0; when the exact product's mantissa and scale fit a `Decimal` the
/// product is exact; a result is in range; and a product by one thousand
/// that comes back is exact in value (rust_decimal then drops at most three
/// trailing digits of the product's mantissa, which are zeros, and rounds
/// only on a non-zero remainder).
#[verifier::external_body]
pub(crate) fn decimal_checked_mul(a: DecimalParts, b: DecimalParts) -> (r: Option<DecimalParts>)
    requires
        in_decimal_range(a),
        in_decimal_range(b),
    ensures
        r == spec_decimal_checked_mul(a, b),
        (a.mantissa == 0 || b.mantissa == 0) ==> r == Some(DecimalParts { mantissa: 0, scale: 0 }),
        (a.mantissa != 0 && b.mantissa != 0 && abs(a.mantissa * b.mantissa) <= MAX_MANTISSA
            && a.scale + b.scale <= MAX_SCALE) ==> r == Some(
            DecimalParts { mantissa: (a.mantissa * b.mantissa) as i128, scale: (a.scale + b.scale) as u32 },
        ),
        r matches Some(p) ==> in_decimal_range(p),
        (b == thousand() && a.mantissa != 0 && r is Some) ==> ({
            let p = r->0;
            &&& p.scale <= a.scale
            &&& p.mantissa * pow10((a.scale - p.scale) as nat) == a.mantissa * 1000
        }),
{
    let x = rust_decimal::Decimal::from_i128_with_scale(a.mantissa, a.scale);
    let y = rust_decimal::Decimal::from_i128_with_scale(b.mantissa, b.scale);
    match x.checked_mul(y) {
        Some(p) => Some(DecimalParts { mantissa: p.mantissa(), scale: p.scale() }),
        None => None,
    }
}

/// Rounds to `dp` fractional digits, ties to even (`Decimal::round_dp`).
/// Claimed: exactly `spec_round_dp`, which rust_decimal's source computes.
#[verifier::external_body]
pub(crate) fn decimal_round_dp(d: DecimalParts, dp: u32) -> (r: DecimalParts)
    requires
        in_decimal_range(d),
    ensures
        r == spec_round_dp(d, dp),
        in_decimal_range(r) || d.scale <= dp,
{
    let x = rust_decimal::Decimal::from_i128_with_scale(d.mantissa, d.scale);
    let y = x.round_dp(dp);
    DecimalParts { mantissa: y.mantissa(), scale: y.scale() }
}

/// The integer part as an `i64` (`ToPrimitive::to_i64`). Claimed: exactly
/// `spec_to_i64`, which rust_decimal's source computes.
#[verifier::external_body]
pub(crate) fn decimal_to_i64(d: DecimalParts) -> (r: Option<i64>)
    requires
        in_decimal_range(d),
    ensures
        r == spec_to_i64(d),
{
    let x = rust_decimal::Decimal::from_i128_with_scale(d.mantissa, d.scale);
    x.to_i64()
}

/// One thousand, the number of milliunits in a unit.
pub open spec fn thousand() -> DecimalParts {
    DecimalParts { mantissa: 1000, scale: 0 }
}

/// The amount `d` in milliunits: `d * 1000` rounded to an integer, ties to
/// even; `None` when the product overflows a `Decimal` or the result does not
/// fit in an `i64`.
pub open spec fn spec_milli_units(d: DecimalParts) -> Option<i64> {
    match spec_decimal_checked_mul(d, thousand()) {
        Some(p) => spec_to_i64(spec_round_dp(p, 0)),
        None => None,
    }
}

/// The exact milliunits of `d`: `mantissa * 1000 / 10^scale` rounded half to
/// even, when that fits in an `i64`.
pub open spec fn exact_milli_units(d: DecimalParts) -> Option<i64> {
    let v = round_half_even(d.mantissa * 1000, pow10(d.scale as nat));
    if fits_i64(v) {
        Some(v as i64)
    } else {
        None
    }
}

/// Powers of ten multiply by adding exponents.
proof fn lemma_pow10_add(a: nat, b: nat)
    ensures
        pow10(a) * pow10(b) == pow10(a + b),
    decreases a,
{
    if a > 0 {
        lemma_pow10_add((a - 1) as nat, b);
        assert(pow10(a) * pow10(b) == 10 * (pow10((a - 1) as nat) * pow10(b))) by (nonlinear_arith)
            requires
                pow10(a) == 10 * pow10((a - 1) as nat),
        ;
    }
}

/// Rounding a quotient does not change when numerator and divisor are
/// multiplied by the same positive number.
proof fn lemma_round_half_even_scaled(x: int, y: int, c: int)
    requires
        y >= 1,
        c >= 1,
    ensures
        round_half_even(x * c, y * c) == round_half_even(x, y),
{
    let ax = abs(x);
    let q = ax / y;
    let r = ax % y;
    assert(ax == q * y + r && 0 <= r < y) by {
        vstd::arithmetic::div_mod::lemma_fundamental_div_mod(ax, y);
    }
    assert(abs(x * c) == ax * c) by (nonlinear_arith)
        requires
            c >= 1,
            ax == abs(x),
    ;
    assert(ax * c == q * (y * c) + r * c && 0 <= r * c < y * c) by (nonlinear_arith)
        requires
            ax == q * y + r,
            0 <= r < y,
            c >= 1,
    ;
    vstd::arithmetic::div_mod::lemma_fundamental_div_mod_converse(ax * c, y * c, q, r * c);
    assert((2 * (r * c) > y * c) == (2 * r > y) && (2 * (r * c) == y * c) == (2 * r == y))
        by (nonlinear_arith)
        requires
            c >= 1,
    ;
    assert((x * c < 0) == (x < 0)) by (nonlinear_arith)
        requires
            c >= 1,
    ;
}

/// Converts a decimal amount to milliunits. Zero is zero, and an amount whose
/// mantissa times 1000 still fits a `Decimal` is converted exactly.
pub fn milli_units(d: DecimalParts) -> (r: Option<i64>)
    requires
        in_decimal_range(d),
    ensures
        r == spec_milli_units(d),
        d.mantissa == 0 ==> r == Some(0i64),
        abs(d.mantissa * 1000) <= MAX_MANTISSA ==> r == exact_milli_units(d),
        r is Some ==> r == exact_milli_units(d),
{
    let k = DecimalParts { mantissa: 1000, scale: 0 };
    proof {
        lemma_pow10_positive(d.scale as nat);
        assert(pow10(0) == 1);
        let p = pow10(d.scale as nat);
        if d.mantissa == 0 {
            assert(abs(0) / p == 0 && abs(0) % p == 0) by (nonlinear_arith)
                requires
                    p >= 1,
            ;
        }
    }
    match decimal_checked_mul(d, k) {
        Some(p) => {
            let rounded = decimal_round_dp(p, 0);
            proof {
                let x = rounded.mantissa as int;
                assert(abs(x) / 1 == abs(x) && abs(x) % 1 == 0);
                assert(x / 1 == x);
                let y = p.mantissa as int;
                assert(abs(y) / 1 == abs(y) && abs(y) % 1 == 0);
                if d.mantissa != 0 {
                    let j = (d.scale - p.scale) as nat;
                    lemma_pow10_positive(j);
                    lemma_pow10_positive(p.scale as nat);
                    lemma_pow10_add(p.scale as nat, j);
                    assert(p.mantissa * pow10(j) == d.mantissa * 1000);
                    lemma_round_half_even_scaled(p.mantissa as int, pow10(p.scale as nat), pow10(j));
                    assert(pow10(p.scale as nat) * pow10(j) == pow10(d.scale as nat));
                    assert(round_half_even(d.mantissa * 1000, pow10(d.scale as nat))
                        == round_half_even(p.mantissa as int, pow10(p.scale as nat)));
                    if p.scale == 0 {
                        assert(round_half_even(y, 1) == y) by {
                            assert(abs(y) / 1 == abs(y) && abs(y) % 1 == 0);
                        }
                    }
                }
            }
            decimal_to_i64(rounded)
        },
        None => None,
    }
}

} // verus!
