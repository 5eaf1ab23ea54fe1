use solend_liquidator::decimal::{decimal_to_u256, wad, Decimal, Rate};
use solend_liquidator::error::LendingError;
use solend_liquidator::wide::U256;

const WAD: u128 = 1_000_000_000_000_000_000;

fn limbs(w0: u64, w1: u64, w2: u64, w3: u64) -> U256 {
    U256 { w0, w1, w2, w3 }
}

#[test]
fn test_decimal_to_u256() {
    let test_cases: Vec<u128> = vec![
        85345,
        0,
        92358347573475734753727457,
        285,
        3,
        93674,
        12958324752374577235712,
        3945873256,
        857345777777777777777777,
    ];

    for internal_base in test_cases {
        let decimal = Decimal::from(internal_base);
        let mut dest_u256 = U256::from(0u32);

        decimal_to_u256(&decimal, &mut dest_u256);

        assert_eq!(U256::from(internal_base), dest_u256)
    }
}

#[test]
fn decimal_to_u256_rounds_down() {
    let d = Decimal::from_scaled_val(2 * WAD + WAD / 2);
    let mut dest = U256::from(7u32);
    decimal_to_u256(&d, &mut dest);
    assert_eq!(dest, U256::from(2u32));
}

#[test]
fn wad_is_ten_to_the_eighteen() {
    assert_eq!(wad(), U256::from(WAD));
    assert_eq!(Decimal::wad(), U256::from(WAD));
    assert_eq!(Decimal::one().to_scaled_val(), Ok(WAD));
}

#[test]
fn wide_multiplication_is_exact() {
    let a = U256::from(u128::MAX).checked_add(&U256::from(6u32)).unwrap();
    // a = 2^128 + 5
    assert_eq!(a, limbs(5, 0, 1, 0));
    let b = limbs(3, 1 << 36, 0, 0); // 2^100 + 3
    let p = a.checked_mul(&b).unwrap();
    assert_eq!(p, limbs(15, 343597383680, 3, 68719476736));
    assert_eq!(limbs(0, 0, 1, 0).checked_mul(&limbs(0, 0, 1, 0)), None);
    assert_eq!(limbs(0, 0, 0, 1).checked_mul(&U256::from(0u32)), Some(U256::zero()));
}

#[test]
fn wide_division_is_exact() {
    let n = limbs(12345, 0, 0, 256); // 2^200 + 12345
    let d = limbs(999, 64, 0, 0); // 2^70 + 999
    let (q, r) = n.div_rem(&d);
    assert_eq!(q, limbs(10376293541461623758, 18446744073709551553, 3, 0));
    assert_eq!(r, limbs(1152921504605886295, 39, 0, 0));
    assert_eq!(n.checked_div(&U256::zero()), None);
}

#[test]
fn wide_addition_and_subtraction_carry() {
    let max = limbs(u64::MAX, u64::MAX, u64::MAX, u64::MAX);
    assert_eq!(max.checked_add(&U256::from(1u32)), None);
    assert_eq!(max.overflowing_add(&U256::from(1u32)), (U256::zero(), true));
    assert_eq!(U256::zero().checked_sub(&U256::from(1u32)), None);
    assert_eq!(limbs(0, 1, 0, 0).checked_sub(&U256::from(1u32)), Some(limbs(u64::MAX, 0, 0, 0)));
    assert!(limbs(0, 0, 0, 1).lt(&limbs(0, 0, 0, 2)));
    assert!(!limbs(0, 0, 0, 2).lt(&limbs(u64::MAX, u64::MAX, u64::MAX, 1)));
}

#[test]
fn decimal_multiplication_and_division_round_down() {
    let two_and_half = Decimal::from_scaled_val(2 * WAD + WAD / 2);
    let four = Decimal::from(4u64);
    assert_eq!(two_and_half.try_mul(&four).unwrap().to_scaled_val(), Ok(10 * WAD));
    let one = Decimal::from(1u64);
    let three = Decimal::from(3u64);
    assert_eq!(one.try_div(&three).unwrap().to_scaled_val(), Ok(333333333333333333));
    assert_eq!(three.try_div_u64(2).unwrap().to_scaled_val(), Ok(WAD + WAD / 2));
    assert_eq!(three.try_mul_u64(7).unwrap().to_scaled_val(), Ok(21 * WAD));
}

#[test]
fn decimal_errors_are_math_overflow() {
    let three = Decimal::from(3u64);
    assert_eq!(three.try_div_u64(0), Err(LendingError::MathOverflow));
    assert_eq!(three.try_div(&Decimal::zero()), Err(LendingError::MathOverflow));
    assert_eq!(Decimal::one().try_sub(&three), Err(LendingError::MathOverflow));
    // 2^192 - 1 is the largest decimal; adding one overflows.
    let largest = Decimal::from_raw(limbs(u64::MAX, u64::MAX, u64::MAX, 0)).unwrap();
    let tiny = Decimal::from_scaled_val(1);
    assert_eq!(largest.try_add(&tiny), Err(LendingError::MathOverflow));
    assert_eq!(largest.try_mul(&Decimal::from_scaled_val(2)), Err(LendingError::MathOverflow));
    assert_eq!(largest.to_scaled_val(), Err(LendingError::MathOverflow));
    assert!(Decimal::from_raw(limbs(0, 0, 0, 1)).is_none());
}

#[test]
fn decimal_comparisons() {
    let a = Decimal::from(2u64);
    let b = Decimal::from_scaled_val(2 * WAD + 1);
    assert!(a.lt(&b) && a.le(&b) && !b.le(&a));
    assert!(a.eq_value(&Decimal::from(2u64)));
    assert!(Decimal::zero().is_zero());
}

#[test]
fn rates() {
    assert_eq!(Rate::from_percent(80).to_scaled_val(), 800_000_000_000_000_000);
    assert_eq!(Rate::from_percent(100).to_scaled_val(), WAD);
    assert_eq!(Rate::one().to_scaled_val(), WAD);
    assert_eq!(Rate::from_scaled_val(5).to_scaled_val(), 5);
    let big = Decimal::from_raw(limbs(0, 0, 1, 0)).unwrap();
    assert_eq!(Rate::try_from_decimal(big), Err(LendingError::MathOverflow));
    let ok = Rate::try_from_decimal(Decimal::from(3u64)).unwrap();
    assert_eq!(ok.to_scaled_val(), 3 * WAD);
    let half = Rate::from_percent(50);
    assert_eq!(Decimal::from(9u64).try_mul_rate(&half).unwrap().to_scaled_val(), Ok(4 * WAD + WAD / 2));
    assert_eq!(Decimal::from(9u64).try_div_rate(&half).unwrap().to_scaled_val(), Ok(18 * WAD));
    assert_eq!(Decimal::from_rate(half).to_scaled_val(), Ok(WAD / 2));
}
