//! Fixed-point decimal rates, and the conversion of token amounts by them.
//!
//! A rate is held as plain values, a mantissa and a scale. The arithmetic on
//! rates is that of the `rust_decimal` crate, so that every replica rounds
//! alike.

use vstd::prelude::*;

verus! {

/// The greatest scale of a [`Dec`].
pub const MAX_SCALE: u32 = 28;

/// The greatest mantissa of a [`Dec`], `2^96 - 1`; the least is its negative.
pub const MAX_MANTISSA: i128 = 0xFFFF_FFFF_FFFF_FFFF_FFFF_FFFF;

/// A decimal number: `mantissa / 10^scale`.
#[derive(Debug, Clone, Copy)]
pub struct Dec {
    /// The digits of the number, as an integer.
    pub mantissa: i128,
    /// How many of the digits stand behind the decimal point.
    pub scale: u32,
}

/// Why a token amount has no voting power.
#[derive(Debug, Clone, Copy, PartialEq, Eq, Structural)]
pub enum VotingPowerError {
    /// The product of rate and amount is out of bounds.
    ProductOutOfBounds,
    /// The product does not fit into the signed 64 bits of a voting power.
    InvalidVotingPower,
}

/// Ten to the power of `n`.
pub open spec fn pow10(n: nat) -> nat
    decreases n,
{
    if n == 0 {
        1
    } else {
        10 * pow10((n - 1) as nat)
    }
}

/// The integral part of `mantissa / 10^scale`: the quotient truncated toward
/// zero.
pub open spec fn integral_part(mantissa: int, scale: nat) -> int {
    if mantissa < 0 {
        -((-mantissa) / (pow10(scale) as int))
    } else {
        mantissa / (pow10(scale) as int)
    }
}

/// What the decimal multiplication of `lhs_mantissa / 10^lhs_scale` by
/// `rhs_mantissa / 10^rhs_scale` gives, as mantissa and scale, or `None`
/// where it overflows. Where the exact product has too many digits the
/// multiplication rounds it; this name stands for what it then returns.
pub uninterp spec fn decimal_product(
    lhs_mantissa: int,
    lhs_scale: nat,
    rhs_mantissa: int,
    rhs_scale: nat,
) -> Option<(int, nat)>;

impl Dec {
    /// Whether mantissa and scale are within the bounds of a decimal.
    pub open spec fn wf(self) -> bool {
        &&& -MAX_MANTISSA <= self.mantissa <= MAX_MANTISSA
        &&& self.scale <= MAX_SCALE
    }

    /// The product of `self` and `rhs` as the decimal multiplication gives it.
    pub open spec fn product(self, rhs: Dec) -> Option<Dec> {
        match decimal_product(
            self.mantissa as int,
            self.scale as nat,
            rhs.mantissa as int,
            rhs.scale as nat,
        ) {
            Some((mantissa, scale)) => Some(
                Dec { mantissa: mantissa as i128, scale: scale as u32 },
            ),
            None => None,
        }
    }

    /// The integral part of a number that is not negative, where it fits
    /// into `u64`. A negative number has none.
    pub open spec fn truncate_u64(self) -> Option<u64> {
        if self.mantissa < 0 {
            None
        } else if integral_part(self.mantissa as int, self.scale as nat) > u64::MAX {
            None
        } else {
            Some(integral_part(self.mantissa as int, self.scale as nat) as u64)
        }
    }

    /// The number without its fractional part: truncated toward zero.
    pub open spec fn truncate_i128(self) -> i128 {
        integral_part(self.mantissa as int, self.scale as nat) as i128
    }

    /// The decimal of the given mantissa and scale, where they are within
    /// bounds.
    pub fn new(mantissa: i128, scale: u32) -> (made: Option<Dec>)
        ensures
            made == if (Dec { mantissa, scale }).wf() {
                Some(Dec { mantissa, scale })
            } else {
                None
            },
    {
        if -MAX_MANTISSA <= mantissa && mantissa <= MAX_MANTISSA && scale <= MAX_SCALE {
            Some(Dec { mantissa, scale })
        } else {
            None
        }
    }

    /// The decimal that stands for a whole number.
    pub fn from_u64(amount: u64) -> (made: Dec)
        ensures
            made == (Dec { mantissa: amount as i128, scale: 0 }),
            made.wf(),
    {
        Dec { mantissa: amount as i128, scale: 0 }
    }
}

/// Multiplies two decimals.
///
/// Trusted: this is `rust_decimal::Decimal::checked_mul`, on decimals made
/// of the given mantissas and scales. Its result is a function of the two
/// operands alone, named [`decimal_product`]. Three things are claimed of
/// it beyond the name. The result is within the bounds of a decimal. Where
/// an operand is zero it is zero with scale zero. And where neither is, the
/// scales add up to no more than [`MAX_SCALE`] and the exact product of the
/// mantissas is within bounds, the result is that product with the sum of
/// the scales: the crate rescales and rounds only a product of more than 96
/// bits or a scale beyond the greatest.
#[verifier::external_body]
fn checked_product(lhs: Dec, rhs: Dec) -> (product: Option<Dec>)
    requires
        lhs.wf(),
        rhs.wf(),
    ensures
        decimal_product(
            lhs.mantissa as int,
            lhs.scale as nat,
            rhs.mantissa as int,
            rhs.scale as nat,
        ) == match product {
            Some(p) => Some((p.mantissa as int, p.scale as nat)),
            None => None,
        },
        product matches Some(p) ==> p.wf(),
        lhs.mantissa == 0 || rhs.mantissa == 0 ==> product == Some(Dec { mantissa: 0, scale: 0 }),
        lhs.mantissa != 0 && rhs.mantissa != 0 && lhs.scale + rhs.scale <= MAX_SCALE
            && -MAX_MANTISSA <= lhs.mantissa * rhs.mantissa <= MAX_MANTISSA ==> product == Some(
            Dec {
                mantissa: (lhs.mantissa * rhs.mantissa) as i128,
                scale: (lhs.scale + rhs.scale) as u32,
            },
        ),
{
    let lhs = rust_decimal::Decimal::from_i128_with_scale(lhs.mantissa, lhs.scale);
    let rhs = rust_decimal::Decimal::from_i128_with_scale(rhs.mantissa, rhs.scale);
    match lhs.checked_mul(rhs) {
        Some(product) => Some(Dec { mantissa: product.mantissa(), scale: product.scale() }),
        None => None,
    }
}

/// Truncates a decimal to `u64`.
///
/// Trusted: this is `rust_decimal`'s `ToPrimitive::to_u64` for `Decimal`. It
/// gives nothing for a negative number; else it drops the fractional part
/// without rounding and gives the integral part where that fits into 64
/// bits.
#[verifier::external_body]
fn truncated_to_u64(dec: Dec) -> (whole: Option<u64>)
    requires
        dec.wf(),
    ensures
        whole == dec.truncate_u64(),
{
    let dec = rust_decimal::Decimal::from_i128_with_scale(dec.mantissa, dec.scale);
    rust_decimal::prelude::ToPrimitive::to_u64(&dec)
}

/// Truncates a decimal to `i128`.
///
/// Trusted: this is `rust_decimal`'s `ToPrimitive::to_i128` for `Decimal`. It
/// drops the fractional part without rounding, keeps the sign, and always
/// gives a value.
#[verifier::external_body]
fn truncated_to_i128(dec: Dec) -> (whole: Option<i128>)
    requires
        dec.wf(),
    ensures
        whole == Some(dec.truncate_i128()),
{
    let dec = rust_decimal::Decimal::from_i128_with_scale(dec.mantissa, dec.scale);
    rust_decimal::prelude::ToPrimitive::to_i128(&dec)
}

/// What [`decimal_mult_u64`] gives, or `None` where the product is out of
/// bounds.
pub open spec fn decimal_mult_u64_spec(dec: Dec, amount: u64) -> Option<u64> {
    match dec.product(Dec { mantissa: amount as i128, scale: 0 }) {
        Some(product) => product.truncate_u64(),
        None => None,
    }
}

/// What [`decimal_mult_i128`] gives, or `None` where the product is out of
/// bounds.
pub open spec fn decimal_mult_i128_spec(dec: Dec, amount: i128) -> Option<i128> {
    if -MAX_MANTISSA <= amount <= MAX_MANTISSA {
        match dec.product(Dec { mantissa: amount, scale: 0 }) {
            Some(product) => Some(product.truncate_i128()),
            None => None,
        }
    } else {
        None
    }
}

/// The integral part of `mantissa * amount / 10^scale`: what multiplying a rate
/// that is not negative by a whole amount and truncating gives, in exact
/// arithmetic.
pub open spec fn exact_mult_u64(dec: Dec, amount: u64) -> int {
    integral_part(dec.mantissa * amount, dec.scale as nat)
}

/// Multiply a value of type Dec with one of type u64 and then return the
/// truncated u64
pub fn decimal_mult_u64(dec: Dec, amount: u64) -> (prod: u64)
    requires
        dec.wf(),
        decimal_mult_u64_spec(dec, amount) is Some,
    ensures
        Some(prod) == decimal_mult_u64_spec(dec, amount),
        0 <= dec.mantissa && dec.mantissa * amount <= MAX_MANTISSA ==> prod == exact_mult_u64(
            dec,
            amount,
        ),
{
    let int_dec = Dec::from_u64(amount);
    let product = checked_product(dec, int_dec);
    assert(product is Some);
    let product = product.unwrap();
    proof {
        if 0 <= dec.mantissa && dec.mantissa * amount <= MAX_MANTISSA {
            lemma_exact_product(dec, amount);
        }
    }
    // truncate the number to the floor
    let truncated = truncated_to_u64(product);
    truncated.unwrap()
}

/// In exact arithmetic a zero operand gives zero, whatever the scale.
proof fn lemma_exact_product(dec: Dec, amount: u64)
    requires
        0 <= dec.mantissa,
        dec.mantissa * amount <= MAX_MANTISSA,
    ensures
        dec.mantissa == 0 || amount == 0 ==> exact_mult_u64(dec, amount) == 0,
        0 <= dec.mantissa * amount,
        pow10(dec.scale as nat) > 0,
        pow10(0) == 1,
{
    lemma_pow10_positive(dec.scale as nat);
    assert(0 <= dec.mantissa * amount) by (nonlinear_arith)
        requires
            0 <= dec.mantissa,
            0 <= amount,
    ;
    if dec.mantissa == 0 || amount == 0 {
        assert(dec.mantissa * amount == 0) by (nonlinear_arith)
            requires
                dec.mantissa == 0 || amount == 0,
        ;
        let p = pow10(dec.scale as nat) as int;
        assert(0int / p == 0) by (nonlinear_arith)
            requires
                p > 0,
        ;
    }
}

/// Powers of ten are positive.
pub proof fn lemma_pow10_positive(n: nat)
    ensures
        pow10(n) > 0,
    decreases n,
{
    if n > 0 {
        lemma_pow10_positive((n - 1) as nat);
    }
}

/// Multiply a value of type Dec with one of type u64 and then return the
/// truncated u64, or `None` where the rate is no decimal or the product is
/// out of bounds.
pub fn checked_decimal_mult_u64(dec: Dec, amount: u64) -> (prod: Option<u64>)
    ensures
        prod == if dec.wf() {
            decimal_mult_u64_spec(dec, amount)
        } else {
            None
        },
        dec.wf() && 0 <= dec.mantissa && dec.mantissa * amount <= MAX_MANTISSA ==> prod == (
        if exact_mult_u64(dec, amount) <= u64::MAX {
            Some(exact_mult_u64(dec, amount) as u64)
        } else {
            None
        }),
{
    match Dec::new(dec.mantissa, dec.scale) {
        None => None,
        Some(dec) => {
            proof {
                if 0 <= dec.mantissa && dec.mantissa * amount <= MAX_MANTISSA {
                    lemma_exact_product(dec, amount);
                }
            }
            match checked_product(dec, Dec::from_u64(amount)) {
                None => None,
                Some(product) => match truncated_to_u64(product) {
                    None => None,
                    Some(_) => Some(decimal_mult_u64(dec, amount)),
                },
            }
        },
    }
}

/// The integral part of `mantissa * amount / 10^scale`, truncated toward
/// zero: what multiplying a rate by a whole amount and truncating gives, in
/// exact arithmetic.
pub open spec fn exact_mult_i128(dec: Dec, amount: i128) -> int {
    integral_part(dec.mantissa * amount, dec.scale as nat)
}

/// Multiply a value of type Dec with one of type i128 and then return the
/// truncated i128
pub fn decimal_mult_i128(dec: Dec, amount: i128) -> (prod: i128)
    requires
        dec.wf(),
        decimal_mult_i128_spec(dec, amount) is Some,
    ensures
        Some(prod) == decimal_mult_i128_spec(dec, amount),
        -MAX_MANTISSA <= dec.mantissa * amount <= MAX_MANTISSA ==> prod == exact_mult_i128(
            dec,
            amount,
        ),
{
    let int_dec = Dec { mantissa: amount, scale: 0 };
    let product = checked_product(dec, int_dec);
    assert(product is Some);
    proof {
        if -MAX_MANTISSA <= dec.mantissa * amount <= MAX_MANTISSA {
            lemma_pow10_positive(dec.scale as nat);
            if dec.mantissa == 0 || amount == 0 {
                assert(dec.mantissa * amount == 0) by (nonlinear_arith)
                    requires
                        dec.mantissa == 0 || amount == 0,
                ;
                let p = pow10(dec.scale as nat) as int;
                assert(0int / p == 0) by (nonlinear_arith)
                    requires
                        p > 0,
                ;
            } else {
                lemma_integral_part_bounds(dec.mantissa * amount, dec.scale as nat);
            }
        }
    }
    // truncate the number to the floor
    let truncated = truncated_to_i128(product.unwrap());
    truncated.unwrap()
}

/// The integral part of a number is no farther from zero than the number's
/// mantissa.
pub proof fn lemma_integral_part_bounds(mantissa: int, scale: nat)
    ensures
        mantissa >= 0 ==> 0 <= integral_part(mantissa, scale) <= mantissa,
        mantissa < 0 ==> mantissa <= integral_part(mantissa, scale) <= 0,
{
    lemma_pow10_positive(scale);
    let p = pow10(scale) as int;
    if mantissa >= 0 {
        assert(0 <= mantissa / p <= mantissa) by (nonlinear_arith)
            requires
                mantissa >= 0,
                p >= 1,
        ;
    } else {
        let m = -mantissa;
        assert(0 <= m / p <= m) by (nonlinear_arith)
            requires
                m >= 0,
                p >= 1,
        ;
    }
}

/// Multiply a value of type Dec with one of type i128 and then return the
/// truncated i128, or `None` where an operand is no decimal or the product
/// is out of bounds.
pub fn checked_decimal_mult_i128(dec: Dec, amount: i128) -> (prod: Option<i128>)
    ensures
        prod == if dec.wf() {
            decimal_mult_i128_spec(dec, amount)
        } else {
            None
        },
{
    match (Dec::new(dec.mantissa, dec.scale), Dec::new(amount, 0)) {
        (Some(dec), Some(int_dec)) => match checked_product(dec, int_dec) {
            None => None,
            Some(_) => Some(decimal_mult_i128(dec, amount)),
        },
        _ => None,
    }
}

/// The voting power that a product of rate and tokens stands for: the
/// product itself, where it fits into the signed 64 bits that the consensus
/// engine counts in.
pub fn voting_power_of_product(prod: u64) -> (power: Result<i64, VotingPowerError>)
    ensures
        power == if prod <= i64::MAX {
            Ok::<i64, VotingPowerError>(prod as i64)
        } else {
            Err::<i64, VotingPowerError>(VotingPowerError::InvalidVotingPower)
        },
{
    if prod <= i64::MAX as u64 {
        Ok(prod as i64)
    } else {
        Err(VotingPowerError::InvalidVotingPower)
    }
}

/// What [`try_into_tm_voting_power`] gives.
pub open spec fn tm_voting_power_spec(votes_per_token: Dec, tokens: u64) -> Result<
    i64,
    VotingPowerError,
> {
    if !votes_per_token.wf() {
        Err(VotingPowerError::ProductOutOfBounds)
    } else {
        match decimal_mult_u64_spec(votes_per_token, tokens) {
            None => Err(VotingPowerError::ProductOutOfBounds),
            Some(prod) => if prod <= i64::MAX {
                Ok(prod as i64)
            } else {
                Err(VotingPowerError::InvalidVotingPower)
            },
        }
    }
}

/// Calculate voting power in the tendermint context (which is stored as i64)
/// from the number of tokens
pub fn into_tm_voting_power(votes_per_token: Dec, tokens: u64) -> (power: i64)
    requires
        tm_voting_power_spec(votes_per_token, tokens) is Ok,
    ensures
        Ok::<i64, VotingPowerError>(power) == tm_voting_power_spec(votes_per_token, tokens),
{
    let prod = decimal_mult_u64(votes_per_token, tokens);
    prod as i64
}

/// Calculate voting power in the tendermint context (which is stored as i64)
/// from the number of tokens, or say why there is none.
pub fn try_into_tm_voting_power(votes_per_token: Dec, tokens: u64) -> (power: Result<
    i64,
    VotingPowerError,
>)
    ensures
        power == tm_voting_power_spec(votes_per_token, tokens),
{
    match checked_decimal_mult_u64(votes_per_token, tokens) {
        None => Err(VotingPowerError::ProductOutOfBounds),
        Some(prod) => match voting_power_of_product(prod) {
            Ok(_) => Ok(into_tm_voting_power(votes_per_token, tokens)),
            Err(e) => Err(e),
        },
    }
}

} // verus!
