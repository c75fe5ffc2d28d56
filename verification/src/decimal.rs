use rust_decimal::Decimal;
use vstd::prelude::*;

verus! {

/// Number of fractional digits that every amount and balance carries.
pub const SCALE: u32 = 4;

/// Largest number of fractional digits that a decimal can carry.
pub const MAX_SCALE: u32 = 28;

/// Largest magnitude of a decimal's mantissa: `2^96 - 1`.
pub const MANTISSA_LIMIT: i128 = 79228162514264337593543950335;

/// Whether `mantissa` fits in the 96 bits that a decimal has for it.
pub open spec fn is_mantissa(mantissa: int) -> bool {
    -MANTISSA_LIMIT <= mantissa <= MANTISSA_LIMIT
}

/// Calls `Decimal::from_i128_with_scale` on both operands, `+` on the two
/// decimals and `Decimal::mantissa` on the sum. Both operands have the same
/// scale and the exact sum fits in 96 bits, so the addition neither rescales
/// nor rounds nor panics: the sum keeps the scale, and its mantissa is the
/// sum of the mantissas.
#[verifier::external_body]
fn decimal_add(a: i128, b: i128, scale: u32) -> (sum: i128)
    requires
        scale <= MAX_SCALE,
        is_mantissa(a as int),
        is_mantissa(b as int),
        is_mantissa(a + b),
    ensures
        sum == a + b,
{
    (Decimal::from_i128_with_scale(a, scale) + Decimal::from_i128_with_scale(b, scale)).mantissa()
}

/// Calls `Decimal::from_i128_with_scale` on both operands, `-` on the two
/// decimals and `Decimal::mantissa` on the difference. Both operands have the
/// same scale and the exact difference fits in 96 bits, so the subtraction
/// neither rescales nor rounds nor panics: the difference keeps the scale,
/// and its mantissa is the difference of the mantissas.
#[verifier::external_body]
fn decimal_sub(a: i128, b: i128, scale: u32) -> (difference: i128)
    requires
        scale <= MAX_SCALE,
        is_mantissa(a as int),
        is_mantissa(b as int),
        is_mantissa(a - b),
    ensures
        difference == a - b,
{
    (Decimal::from_i128_with_scale(a, scale) - Decimal::from_i128_with_scale(b, scale)).mantissa()
}

/// Calls `<` on two decimals built by `Decimal::from_i128_with_scale`. With
/// one scale for both, decimals are ordered as their mantissas are.
#[verifier::external_body]
fn decimal_lt(a: i128, b: i128, scale: u32) -> (less: bool)
    requires
        scale <= MAX_SCALE,
        is_mantissa(a as int),
        is_mantissa(b as int),
    ensures
        less == (a < b),
{
    Decimal::from_i128_with_scale(a, scale) < Decimal::from_i128_with_scale(b, scale)
}

/// Calls `Decimal::is_sign_negative` on a decimal built by
/// `Decimal::from_i128_with_scale`, which sets the sign bit exactly when the
/// mantissa is below zero.
#[verifier::external_body]
fn decimal_is_sign_negative(mantissa: i128, scale: u32) -> (negative: bool)
    requires
        scale <= MAX_SCALE,
        is_mantissa(mantissa as int),
    ensures
        negative == (mantissa < 0),
{
    Decimal::from_i128_with_scale(mantissa, scale).is_sign_negative()
}

/// A decimal without the zeros at the end of its fraction: its mantissa
/// and its scale. Zero has the scale zero.
pub open spec fn normalized(mantissa: int, scale: nat) -> (int, nat)
    decreases scale,
{
    if mantissa == 0 {
        (0, 0)
    } else if scale > 0 && mantissa % 10 == 0 {
        normalized(mantissa / 10, (scale - 1) as nat)
    } else {
        (mantissa, scale)
    }
}

/// Calls `Decimal::normalize` on a decimal built by
/// `Decimal::from_i128_with_scale`, and `Decimal::mantissa` and
/// `Decimal::scale` on what it gives. `normalize` strips the zeros at the end
/// of the fraction, one for each step down of the scale, and gives zero the
/// scale zero.
#[verifier::external_body]
fn decimal_normalize(mantissa: i128, scale: u32) -> (parts: (i128, u32))
    requires
        scale <= MAX_SCALE,
        is_mantissa(mantissa as int),
    ensures
        parts.0 == normalized(mantissa as int, scale as nat).0,
        parts.1 == normalized(mantissa as int, scale as nat).1,
{
    let normal = Decimal::from_i128_with_scale(mantissa, scale).normalize();
    (normal.mantissa(), normal.scale())
}

/// The text that `Decimal` writes for the decimal with this mantissa and
/// this scale.
pub uninterp spec fn decimal_text(mantissa: int, scale: nat) -> Seq<char>;

/// Calls `to_string` on a decimal built by `Decimal::from_i128_with_scale`.
/// The text depends on the mantissa and the scale alone.
#[verifier::external_body]
fn decimal_to_string(mantissa: i128, scale: u32) -> (text: String)
    requires
        scale <= MAX_SCALE,
        is_mantissa(mantissa as int),
    ensures
        text@ == decimal_text(mantissa as int, scale as nat),
{
    Decimal::from_i128_with_scale(mantissa, scale).to_string()
}

/// Normalizing neither raises the scale nor takes the mantissa further from
/// zero.
pub proof fn lemma_normalized_bounds(mantissa: int, scale: nat)
    ensures
        normalized(mantissa, scale).1 <= scale,
        mantissa >= 0 ==> 0 <= normalized(mantissa, scale).0 <= mantissa,
        mantissa <= 0 ==> mantissa <= normalized(mantissa, scale).0 <= 0,
    decreases scale,
{
    if mantissa != 0 && scale > 0 && mantissa % 10 == 0 {
        lemma_normalized_bounds(mantissa / 10, (scale - 1) as nat);
    }
}

/// A text with a fraction: the text itself where it has a decimal point,
/// and the text with `.0` behind it where it has none.
pub open spec fn fraction_shown(text: Seq<char>) -> Seq<char> {
    if text.contains('.') {
        text
    } else {
        text + seq!['.', '0']
    }
}

/// Gives a number's text a fraction of one digit where it has none, so that
/// a whole number does not read as an integer.
pub fn with_fraction(text: String) -> (shown: String)
    ensures
        shown@ == fraction_shown(text@),
{
    let length: usize = text.as_str().unicode_len();
    let mut found = false;
    let mut i: usize = 0;
    while i < length
        invariant
            length == text@.len(),
            0 <= i <= length,
            found ==> text@.contains('.'),
            !found ==> forall|k: int| 0 <= k < i ==> text@[k] != '.',
        decreases length - i,
    {
        if text.as_str().get_char(i) == '.' {
            found = true;
        }
        i += 1;
    }
    if found {
        text
    } else {
        proof {
            reveal_strlit(".0");
        }
        text.concat(".0")
    }
}

/// The text of a balance as the output shows it: without zeros at the end
/// of the fraction, but with one digit of fraction at least.
pub fn format_decimal(value: Balance) -> (text: String)
    requires
        value.wf(),
    ensures
        text@ == fraction_shown(
            decimal_text(normalized(value@, SCALE as nat).0, normalized(value@, SCALE as nat).1),
        ),
{
    proof {
        lemma_normalized_bounds(value@, SCALE as nat);
    }
    let (mantissa, scale) = decimal_normalize(value.units, SCALE);
    with_fraction(decimal_to_string(mantissa, scale))
}

/// Ten to the power of `exponent`.
pub open spec fn pow10(exponent: nat) -> int
    decreases exponent,
{
    if exponent == 0 {
        1
    } else {
        10 * pow10((exponent - 1) as nat)
    }
}

/// Whether `mantissa` and `scale` are the parts of a decimal.
pub open spec fn is_decimal(mantissa: int, scale: nat) -> bool {
    is_mantissa(mantissa) && scale <= MAX_SCALE
}

/// Whether `units` ten-thousandths are exactly the decimal with this
/// mantissa and this scale: `units / 10^4 == mantissa / 10^scale`.
pub open spec fn units_match(units: int, mantissa: int, scale: nat) -> bool {
    units * pow10(scale) == mantissa * pow10(SCALE as nat)
}

/// A power of ten is above zero.
pub proof fn lemma_pow10_positive(exponent: nat)
    ensures
        pow10(exponent) > 0,
    decreases exponent,
{
    if exponent > 0 {
        lemma_pow10_positive((exponent - 1) as nat);
    }
}

/// Ten to a sum is the product of the two powers.
pub proof fn lemma_pow10_adds(a: nat, b: nat)
    ensures
        pow10(a + b) == pow10(a) * pow10(b),
    decreases a,
{
    if a > 0 {
        lemma_pow10_adds((a - 1) as nat, b);
        assert(10 * (pow10((a - 1) as nat) * pow10(b)) == (10 * pow10((a - 1) as nat)) * pow10(b))
            by (nonlinear_arith);
    }
}

/// At most one number of ten-thousandths matches a decimal.
pub proof fn lemma_units_unique(units: int, other: int, mantissa: int, scale: nat)
    requires
        units_match(units, mantissa, scale),
        units_match(other, mantissa, scale),
    ensures
        units == other,
{
    lemma_pow10_positive(scale);
    let p = pow10(scale);
    assert(units == other) by (nonlinear_arith)
        requires
            p > 0,
            units * p == other * p,
    ;
}

/// A decimal of scale four or less, brought to scale four, matches.
proof fn lemma_scaled_up_matches(units: int, mantissa: int, scale: nat)
    requires
        scale <= SCALE,
        units == mantissa * pow10((SCALE - scale) as nat),
    ensures
        units_match(units, mantissa, scale),
{
    lemma_pow10_adds((SCALE - scale) as nat, scale);
    let up = pow10((SCALE - scale) as nat);
    let p = pow10(scale);
    assert((mantissa * up) * p == mantissa * (up * p)) by (nonlinear_arith);
}

/// A decimal of scale four or more whose digits beyond the fourth are all
/// zero matches what is left when they are struck.
proof fn lemma_stripped_matches(units: int, mantissa: int, scale: nat)
    requires
        scale >= SCALE,
        units * pow10((scale - SCALE) as nat) == mantissa,
    ensures
        units_match(units, mantissa, scale),
{
    lemma_pow10_adds((scale - SCALE) as nat, SCALE as nat);
    let down = pow10((scale - SCALE) as nat);
    let four = pow10(SCALE as nat);
    assert(units * (down * four) == (units * down) * four) by (nonlinear_arith);
}

/// Where a digit beyond the fourth is not zero, no number of
/// ten-thousandths matches.
proof fn lemma_digit_left_over(units: int, current: int, mantissa: int, scale: nat, left: nat)
    requires
        SCALE < left <= scale,
        current * pow10((scale - left) as nat) == mantissa,
        units_match(units, mantissa, scale),
    ensures
        current % 10 == 0,
{
    // With `struck` digits gone and `left - 4` to go, the scale splits into
    // `left - 4` and `struck + 4`. Ten to the second of these divides both
    // sides of the match; what remains says that `current` is `units` times
    // ten to the first, which is a multiple of ten.
    let struck = (scale - left) as nat;
    let high = pow10((left - SCALE) as nat);
    let tail = pow10(struck + SCALE as nat);
    let a = pow10(struck);
    let b = pow10(SCALE as nat);
    let q = pow10((left - SCALE - 1) as nat);
    lemma_pow10_adds(struck, SCALE as nat);
    lemma_pow10_adds((left - SCALE) as nat, struck + SCALE as nat);
    lemma_pow10_positive(struck + SCALE as nat);
    assert(units * (high * tail) == (units * high) * tail) by (nonlinear_arith);
    assert((current * a) * b == current * (a * b)) by (nonlinear_arith);
    assert(units * high == current) by (nonlinear_arith)
        requires
            tail > 0,
            (units * high) * tail == current * tail,
    ;
    assert(units * (10 * q) == 10 * (units * q)) by (nonlinear_arith);
}

/// A transaction's amount, as a whole number of ten-thousandths.
#[derive(Clone, Copy, Debug, PartialEq, Eq, Structural)]
pub struct Amount {
    pub units: i64,
}

impl View for Amount {
    type V = int;

    open spec fn view(&self) -> int {
        self.units as int
    }
}

impl Amount {
    /// The amount that a decimal's mantissa and scale stand for. There is
    /// one exactly when the parts are those of a decimal, the decimal has
    /// no digit other than zero beyond the fourth of its fraction, and the
    /// number of ten-thousandths fits.
    pub fn from_decimal_parts(mantissa: i128, scale: u32) -> (result: Option<Amount>)
        ensures
            match result {
                Some(amount) => is_decimal(mantissa as int, scale as nat) && units_match(
                    amount@,
                    mantissa as int,
                    scale as nat,
                ),
                None => !is_decimal(mantissa as int, scale as nat) || forall|units: int|
                    i64::MIN <= units <= i64::MAX ==> !units_match(
                        units,
                        mantissa as int,
                        scale as nat,
                    ),
            },
    {
        if scale > MAX_SCALE || mantissa > MANTISSA_LIMIT || mantissa < -MANTISSA_LIMIT {
            return None;
        }
        let negative = mantissa < 0;
        let mut magnitude: u128 = if negative {
            (-mantissa) as u128
        } else {
            mantissa as u128
        };
        if scale > SCALE {
            let mut left: u32 = scale;
            while left > SCALE
                invariant
                    SCALE <= left <= scale <= MAX_SCALE,
                    negative == (mantissa < 0),
                    magnitude <= MANTISSA_LIMIT,
                    (if negative {
                        -(magnitude as int)
                    } else {
                        magnitude as int
                    }) * pow10((scale - left) as nat) == mantissa,
                decreases left,
            {
                if magnitude % 10 != 0 {
                    proof {
                        let current = if negative {
                            -(magnitude as int)
                        } else {
                            magnitude as int
                        };
                        assert forall|units: int|
                            i64::MIN <= units <= i64::MAX implies !units_match(
                            units,
                            mantissa as int,
                            scale as nat,
                        ) by {
                            if units_match(units, mantissa as int, scale as nat) {
                                lemma_digit_left_over(
                                    units,
                                    current,
                                    mantissa as int,
                                    scale as nat,
                                    left as nat,
                                );
                            }
                        }
                    }
                    return None;
                }
                proof {
                    let struck = (scale - left) as nat;
                    let next = if negative {
                        -((magnitude / 10) as int)
                    } else {
                        (magnitude / 10) as int
                    };
                    assert((next * 10) * pow10(struck) == next * (10 * pow10(struck)))
                        by (nonlinear_arith);
                }
                magnitude = magnitude / 10;
                left = left - 1;
            }
        } else {
            let mut raised: u32 = 0;
            while raised < SCALE - scale
                invariant
                    scale <= SCALE,
                    raised <= SCALE - scale,
                    negative == (mantissa < 0),
                    1 <= pow10(raised as nat) <= 10000,
                    raised < SCALE ==> pow10(raised as nat) <= 1000,
                    magnitude <= MANTISSA_LIMIT * pow10(raised as nat),
                    (if negative {
                        -(magnitude as int)
                    } else {
                        magnitude as int
                    }) == mantissa * pow10(raised as nat),
                decreases SCALE - scale - raised,
            {
                proof {
                    assert(pow10(raised as nat + 1) <= 10000 && (raised + 1 < SCALE ==> pow10(
                        raised as nat + 1,
                    ) <= 1000)) by {
                        reveal_with_fuel(pow10, 5);
                    }
                    assert((mantissa * pow10(raised as nat)) * 10 == mantissa * (10 * pow10(
                        raised as nat,
                    ))) by (nonlinear_arith);
                }
                magnitude = magnitude * 10;
                raised = raised + 1;
            }
        }
        let value: i128 = if negative {
            -(magnitude as i128)
        } else {
            magnitude as i128
        };
        proof {
            if scale > SCALE {
                lemma_stripped_matches(value as int, mantissa as int, scale as nat);
            } else {
                lemma_scaled_up_matches(value as int, mantissa as int, scale as nat);
            }
        }
        if value < i64::MIN as i128 || value > i64::MAX as i128 {
            proof {
                assert forall|units: int| i64::MIN <= units <= i64::MAX implies !units_match(
                    units,
                    mantissa as int,
                    scale as nat,
                ) by {
                    if units_match(units, mantissa as int, scale as nat) {
                        lemma_units_unique(units, value as int, mantissa as int, scale as nat);
                    }
                }
            }
            return None;
        }
        Some(Amount { units: value as i64 })
    }

    /// Whether the amount is below zero.
    pub fn is_negative(&self) -> (negative: bool)
        ensures
            negative == (self@ < 0),
    {
        decimal_is_sign_negative(self.units as i128, SCALE)
    }
}

/// An account's balance, as a whole number of ten-thousandths.
#[derive(Clone, Copy, Debug, PartialEq, Eq, Structural)]
pub struct Balance {
    pub units: i128,
}

impl View for Balance {
    type V = int;

    open spec fn view(&self) -> int {
        self.units as int
    }
}

impl Balance {
    /// A balance is well formed when a decimal can hold it.
    pub open spec fn wf(self) -> bool {
        is_mantissa(self@)
    }

    /// The balance of a fresh account.
    pub fn zero() -> (balance: Balance)
        ensures
            balance@ == 0,
            balance.wf(),
    {
        Balance { units: 0 }
    }

    /// The balance after `amount` has been added to it.
    pub fn credit(self, amount: Amount) -> (balance: Balance)
        requires
            self.wf(),
            is_mantissa(self@ + amount@),
        ensures
            balance@ == self@ + amount@,
            balance.wf(),
    {
        Balance { units: decimal_add(self.units, amount.units as i128, SCALE) }
    }

    /// The balance after `amount` has been taken from it.
    pub fn debit(self, amount: Amount) -> (balance: Balance)
        requires
            self.wf(),
            is_mantissa(self@ - amount@),
        ensures
            balance@ == self@ - amount@,
            balance.wf(),
    {
        Balance { units: decimal_sub(self.units, amount.units as i128, SCALE) }
    }

    /// The sum of two balances.
    pub fn plus(self, other: Balance) -> (balance: Balance)
        requires
            self.wf(),
            other.wf(),
            is_mantissa(self@ + other@),
        ensures
            balance@ == self@ + other@,
            balance.wf(),
    {
        Balance { units: decimal_add(self.units, other.units, SCALE) }
    }

    /// Whether `amount` can be taken from the balance without going below zero.
    pub fn covers(self, amount: Amount) -> (enough: bool)
        requires
            self.wf(),
        ensures
            enough == (self@ >= amount@),
    {
        !decimal_lt(self.units, amount.units as i128, SCALE)
    }
}

} // verus!
