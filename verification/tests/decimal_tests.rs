use staking_ledger::decimal::{
    checked_decimal_mult_i128, checked_decimal_mult_u64, decimal_mult_i128, decimal_mult_u64,
    into_tm_voting_power, try_into_tm_voting_power, voting_power_of_product, Dec,
    VotingPowerError, MAX_MANTISSA, MAX_SCALE,
};

fn dec(mantissa: i128, scale: u32) -> Dec {
    Dec::new(mantissa, scale).unwrap()
}

#[test]
fn dec_bounds_are_those_of_96_bits_and_28_digits() {
    assert_eq!(MAX_SCALE, 28);
    assert_eq!(MAX_MANTISSA, (1i128 << 96) - 1);
    assert!(Dec::new(MAX_MANTISSA, 28).is_some());
    assert!(Dec::new(-MAX_MANTISSA, 0).is_some());
    assert!(Dec::new(MAX_MANTISSA + 1, 0).is_none());
    assert!(Dec::new(-MAX_MANTISSA - 1, 0).is_none());
    assert!(Dec::new(1, 29).is_none());
    assert!(Dec::new(i128::MAX, u32::MAX).is_none());
}

#[test]
fn dec_of_a_whole_number_has_no_scale() {
    let made = Dec::from_u64(u64::MAX);
    assert_eq!(made.mantissa, u64::MAX as i128);
    assert_eq!(made.scale, 0);
}

#[test]
fn decimal_mult_by_a_half() {
    assert_eq!(decimal_mult_u64(dec(5, 1), 10), 5);
    assert_eq!(decimal_mult_u64(dec(5, 1), 11), 5);
    assert_eq!(decimal_mult_u64(dec(50, 2), 10), 5);
}

#[test]
fn decimal_mult_truncates_and_does_not_round() {
    // 0.3333333333333333333333333333 * 9 = 2.9999999999999999999999999997
    let third = dec(3_333_333_333_333_333_333_333_333_333, 28);
    assert_eq!(decimal_mult_u64(third, 9), 2);
    assert_eq!(decimal_mult_u64(dec(333, 3), 9), 2);
    assert_eq!(decimal_mult_u64(dec(999, 3), 1), 0);
    assert_eq!(decimal_mult_u64(dec(1999, 3), 1), 1);
    assert_eq!(decimal_mult_u64(dec(15, 1), 3), 4);
}

#[test]
fn decimal_mult_by_zero_and_one() {
    assert_eq!(decimal_mult_u64(dec(0, 0), 10), 0);
    assert_eq!(decimal_mult_u64(dec(0, 28), u64::MAX), 0);
    assert_eq!(decimal_mult_u64(dec(5, 1), 0), 0);
    assert_eq!(decimal_mult_u64(dec(1, 0), u64::MAX), u64::MAX);
    assert_eq!(decimal_mult_u64(dec(10, 1), 12345), 12345);
}

#[test]
fn decimal_mult_of_large_amounts() {
    assert_eq!(decimal_mult_u64(dec(5, 1), u64::MAX), u64::MAX / 2);
    assert_eq!(decimal_mult_u64(dec(25, 2), 1_000_000_000_000), 250_000_000_000);
    assert_eq!(decimal_mult_u64(dec(2, 0), u64::MAX / 2), u64::MAX - 1);
}

#[test]
fn checked_decimal_mult_gives_the_product_where_there_is_one() {
    assert_eq!(checked_decimal_mult_u64(dec(5, 1), 10), Some(5));
    assert_eq!(checked_decimal_mult_u64(dec(333, 3), 9), Some(2));
    assert_eq!(checked_decimal_mult_u64(dec(0, 5), 9), Some(0));
}

#[test]
fn checked_decimal_mult_gives_none_out_of_bounds() {
    // The product does not fit into 64 bits.
    assert_eq!(checked_decimal_mult_u64(dec(2, 0), u64::MAX), None);
    assert_eq!(checked_decimal_mult_u64(dec(11, 1), u64::MAX), None);
    // The product overflows the decimal.
    assert_eq!(checked_decimal_mult_u64(dec(MAX_MANTISSA, 0), u64::MAX), None);
    // A negative product has no unsigned value.
    assert_eq!(checked_decimal_mult_u64(dec(-5, 1), 10), None);
    assert_eq!(checked_decimal_mult_u64(dec(-1, 3), 1), None);
}

#[test]
fn checked_decimal_mult_gives_none_for_what_is_no_decimal() {
    assert_eq!(checked_decimal_mult_u64(Dec { mantissa: 1, scale: 29 }, 1), None);
    assert_eq!(checked_decimal_mult_u64(Dec { mantissa: i128::MAX, scale: 0 }, 1), None);
    assert_eq!(checked_decimal_mult_i128(Dec { mantissa: 1, scale: 29 }, 1), None);
}

#[test]
fn decimal_mult_i128_truncates_toward_zero() {
    assert_eq!(decimal_mult_i128(dec(5, 1), 10), 5);
    assert_eq!(decimal_mult_i128(dec(5, 1), 11), 5);
    assert_eq!(decimal_mult_i128(dec(5, 1), -11), -5);
    assert_eq!(decimal_mult_i128(dec(-5, 1), 11), -5);
    assert_eq!(decimal_mult_i128(dec(-5, 1), -11), 5);
    assert_eq!(decimal_mult_i128(dec(333, 3), 9), 2);
    assert_eq!(decimal_mult_i128(dec(333, 3), -9), -2);
    assert_eq!(decimal_mult_i128(dec(0, 0), -9), 0);
    assert_eq!(decimal_mult_i128(dec(1, 0), MAX_MANTISSA), MAX_MANTISSA);
    assert_eq!(decimal_mult_i128(dec(1, 0), -MAX_MANTISSA), -MAX_MANTISSA);
}

#[test]
fn checked_decimal_mult_i128_gives_none_out_of_bounds() {
    assert_eq!(checked_decimal_mult_i128(dec(5, 1), 10), Some(5));
    assert_eq!(checked_decimal_mult_i128(dec(5, 1), -11), Some(-5));
    assert_eq!(checked_decimal_mult_i128(dec(1, 0), MAX_MANTISSA + 1), None);
    assert_eq!(checked_decimal_mult_i128(dec(1, 0), i128::MIN), None);
    assert_eq!(checked_decimal_mult_i128(dec(2, 0), MAX_MANTISSA), None);
}

#[test]
fn voting_power_is_the_product_where_it_fits() {
    assert_eq!(voting_power_of_product(0), Ok(0));
    assert_eq!(voting_power_of_product(42), Ok(42));
    assert_eq!(voting_power_of_product(i64::MAX as u64), Ok(i64::MAX));
    assert_eq!(
        voting_power_of_product(i64::MAX as u64 + 1),
        Err(VotingPowerError::InvalidVotingPower)
    );
    assert_eq!(voting_power_of_product(u64::MAX), Err(VotingPowerError::InvalidVotingPower));
}

#[test]
fn tm_voting_power_of_tokens() {
    // One vote for a thousand tokens.
    assert_eq!(into_tm_voting_power(dec(1, 3), 1_000_000), 1000);
    assert_eq!(into_tm_voting_power(dec(1, 3), 1_999), 1);
    assert_eq!(into_tm_voting_power(dec(1, 3), 999), 0);
    assert_eq!(into_tm_voting_power(dec(1, 0), i64::MAX as u64), i64::MAX);
    assert_eq!(try_into_tm_voting_power(dec(1, 3), 1_000_000), Ok(1000));
    assert_eq!(try_into_tm_voting_power(dec(5, 1), u64::MAX), Ok(i64::MAX));
}

#[test]
fn tm_voting_power_out_of_range_is_an_error() {
    // 2^63 does not fit into the signed 64 bits.
    assert_eq!(
        try_into_tm_voting_power(dec(1, 0), i64::MAX as u64 + 1),
        Err(VotingPowerError::InvalidVotingPower)
    );
    assert_eq!(
        try_into_tm_voting_power(dec(1, 0), u64::MAX),
        Err(VotingPowerError::InvalidVotingPower)
    );
    assert_eq!(
        try_into_tm_voting_power(dec(2, 0), u64::MAX),
        Err(VotingPowerError::ProductOutOfBounds)
    );
    assert_eq!(
        try_into_tm_voting_power(dec(-1, 0), 5),
        Err(VotingPowerError::ProductOutOfBounds)
    );
    assert_eq!(
        try_into_tm_voting_power(Dec { mantissa: 1, scale: 40 }, 5),
        Err(VotingPowerError::ProductOutOfBounds)
    );
}

fn pow10(scale: u32) -> u128 {
    let mut power: u128 = 1;
    for _ in 0..scale {
        power *= 10;
    }
    power
}

#[test]
fn decimal_mult_is_exact_where_the_product_has_no_more_than_96_bits() {
    let mut state: u128 = 0x2545_F491_4F6C_DD1D;
    let mut next = || {
        state ^= state << 13;
        state ^= state >> 7;
        state ^= state << 17;
        state
    };
    let mut compared = 0;
    while compared < 4000 {
        let mantissa_bits = (next() % 97) as u32;
        let mantissa = if mantissa_bits == 0 { 0 } else { next() >> (128 - mantissa_bits) };
        let amount_bits = (next() % 65) as u32;
        let amount = if amount_bits == 0 { 0 } else { (next() >> (128 - amount_bits)) as u64 };
        let scale = (next() % 29) as u32;
        let exact = match mantissa.checked_mul(amount as u128) {
            Some(exact) if exact <= MAX_MANTISSA as u128 => exact,
            _ => continue,
        };
        let whole = exact / pow10(scale);
        let expected = if whole <= u64::MAX as u128 { Some(whole as u64) } else { None };
        assert_eq!(
            checked_decimal_mult_u64(dec(mantissa as i128, scale), amount),
            expected,
            "{} / 10^{} * {}",
            mantissa,
            scale,
            amount
        );
        let signed = if compared % 2 == 0 { amount as i128 } else { -(amount as i128) };
        let expected = if signed < 0 { -(whole as i128) } else { whole as i128 };
        assert_eq!(
            checked_decimal_mult_i128(dec(mantissa as i128, scale), signed),
            Some(expected)
        );
        assert_eq!(
            checked_decimal_mult_i128(dec(-(mantissa as i128), scale), signed),
            Some(-expected)
        );
        compared += 1;
    }
}

#[test]
fn decimal_mult_at_the_bounds_of_a_decimal() {
    assert_eq!(checked_decimal_mult_u64(dec(MAX_MANTISSA, 28), 1), Some(7));
    assert_eq!(checked_decimal_mult_u64(dec(MAX_MANTISSA, 10), 1), Some(7922816251426433759));
    assert_eq!(checked_decimal_mult_u64(dec(MAX_MANTISSA, 9), 1), None);
    assert_eq!(checked_decimal_mult_u64(dec(1, 28), u64::MAX), Some(0));
    assert_eq!(
        checked_decimal_mult_i128(dec(-MAX_MANTISSA, 0), 1),
        Some(-MAX_MANTISSA)
    );
    assert_eq!(checked_decimal_mult_i128(dec(MAX_MANTISSA, 28), -1), Some(-7));
}
