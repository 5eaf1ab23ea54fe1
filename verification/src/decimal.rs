//! Fixed-point numbers scaled by 10^18 ("wads"): `Decimal`, held in 192 bits,
//! and `Rate`, held in 128 bits. Every operation either gives the exact
//! floor of the real result or reports `MathOverflow`.

use crate::error::LendingError;
use crate::wide::{b2, b3, U256};
use vstd::arithmetic::div_mod::*;
use vstd::prelude::*;

verus! {

/// 10^18, the scale of both fixed-point types.
pub const WAD: u64 = 1_000_000_000_000_000_000;

/// 10^16, one percent as a wad.
pub const PERCENT_SCALER: u64 = 10_000_000_000_000_000;

/// One past the largest scaled value of a `Decimal` (2^192).
#[verifier::inline]
pub open spec fn decimal_limit() -> int {
    b3()
}

/// One past the largest scaled value of a `Rate` (2^128).
#[verifier::inline]
pub open spec fn rate_limit() -> int {
    b2()
}

/// Scaled sum, `None` when it leaves the decimal range.
pub open spec fn spec_add(a: nat, b: nat) -> Option<nat> {
    if a + b < decimal_limit() {
        Some(a + b)
    } else {
        None
    }
}

/// Scaled difference, `None` when it would be negative.
pub open spec fn spec_sub(a: nat, b: nat) -> Option<nat> {
    if a >= b {
        Some((a - b) as nat)
    } else {
        None
    }
}

/// Product of two scaled values: the raw product must fit, then it is
/// rescaled down (rounding toward zero).
pub open spec fn spec_mul(a: nat, b: nat) -> Option<nat> {
    if a * b < decimal_limit() {
        Some(a * b / (WAD as nat))
    } else {
        None
    }
}

/// Product of a scaled value and a plain integer.
pub open spec fn spec_mul_int(a: nat, b: nat) -> Option<nat> {
    if a * b < decimal_limit() {
        Some(a * b)
    } else {
        None
    }
}

/// Quotient of two scaled values: the numerator is first scaled up, which
/// must fit; a zero divisor fails.
pub open spec fn spec_div(a: nat, b: nat) -> Option<nat> {
    if a * (WAD as nat) < decimal_limit() && b > 0 {
        Some(a * (WAD as nat) / b)
    } else {
        None
    }
}

/// Quotient of a scaled value by a plain integer; a zero divisor fails.
pub open spec fn spec_div_int(a: nat, b: nat) -> Option<nat> {
    if b > 0 {
        Some(a / b)
    } else {
        None
    }
}

/// Scaled value of a whole number.
pub open spec fn spec_from_int(v: nat) -> nat {
    v * (WAD as nat)
}

/// A result of the lending arithmetic: `MathOverflow` where the spec has none.
pub open spec fn math_result(x: Option<nat>, r: Result<Decimal, LendingError>) -> bool {
    match x {
        Some(v) => r is Ok && r->Ok_0@ == v,
        None => r == Err::<Decimal, LendingError>(LendingError::MathOverflow),
    }
}

/// A fixed-point number with 18 decimals, held as a 192-bit scaled value.
#[derive(Clone, Copy, Debug, PartialEq, Eq, Structural)]
pub struct Decimal {
    raw: U256,
}

/// A fixed-point rate with 18 decimals, held as a 128-bit scaled value.
#[derive(Clone, Copy, Debug, PartialEq, Eq, Structural)]
pub struct Rate {
    raw: U256,
}

impl View for Decimal {
    type V = nat;

    /// The scaled value (the number times 10^18).
    closed spec fn view(&self) -> nat {
        self.raw.value()
    }
}

impl View for Rate {
    type V = nat;

    /// The scaled value (the rate times 10^18).
    closed spec fn view(&self) -> nat {
        self.raw.value()
    }
}

impl Decimal {
    /// The decimal whose scaled value is `n` (for `n` below 2^192).
    pub closed spec fn with_value(n: nat) -> Decimal {
        Decimal { raw: U256::of_nat(n) }
    }

    /// The scaled value of `with_value(n)` is `n`; so `Decimal::from(v)` has
    /// the scaled value `v * 10^18`.
    pub proof fn lemma_with_value(n: nat)
        requires
            n < decimal_limit(),
        ensures
            Decimal::with_value(n)@ == n,
    {
        U256::lemma_of_nat_value(n);
    }
}

impl From<u128> for Decimal {
    fn from(v: u128) -> (r: Decimal) {
        let r = Decimal::from_u128(v);
        proof {
            r.raw.lemma_of_nat();
        }
        r
    }
}

impl vstd::std_specs::convert::FromSpecImpl<u128> for Decimal {
    open spec fn obeys_from_spec() -> bool {
        true
    }

    open spec fn from_spec(v: u128) -> Decimal {
        Decimal::with_value(spec_from_int(v as nat))
    }
}

impl From<u64> for Decimal {
    fn from(v: u64) -> (r: Decimal) {
        let r = Decimal::from_u64(v);
        proof {
            r.raw.lemma_of_nat();
        }
        r
    }
}

impl vstd::std_specs::convert::FromSpecImpl<u64> for Decimal {
    open spec fn obeys_from_spec() -> bool {
        true
    }

    open spec fn from_spec(v: u64) -> Decimal {
        Decimal::with_value(spec_from_int(v as nat))
    }
}

fn wad_u256() -> (r: U256)
    ensures
        r.value() == WAD,
{
    U256::from_u64(WAD)
}

impl Decimal {
    #[verifier::type_invariant]
    spec fn in_range(self) -> bool {
        self.raw.value() < decimal_limit()
    }

    /// Every decimal is below its range limit.
    pub fn bounded(&self) -> (r: bool)
        ensures
            r,
            self@ < decimal_limit(),
    {
        proof {
            use_type_invariant(self);
        }
        true
    }

    pub fn zero() -> (r: Decimal)
        ensures
            r@ == 0,
    {
        Decimal { raw: U256::zero() }
    }

    /// One, scaled.
    pub fn one() -> (r: Decimal)
        ensures
            r@ == WAD,
    {
        Decimal { raw: wad_u256() }
    }

    /// The scale, as a raw 256-bit number.
    pub fn wad() -> (r: U256)
        ensures
            r.value() == WAD,
    {
        wad_u256()
    }

    /// The whole number `v`.
    pub fn from_u64(v: u64) -> (r: Decimal)
        ensures
            r@ == spec_from_int(v as nat),
    {
        Self::from_u128(v as u128)
    }

    /// The whole number `v`.
    pub fn from_u128(v: u128) -> (r: Decimal)
        ensures
            r@ == spec_from_int(v as nat),
    {
        let x = U256::from_u128(v);
        assert(v * WAD < decimal_limit()) by (nonlinear_arith)
            requires
                v < rate_limit(),
        ;
        let p = x.checked_mul(&wad_u256());
        match p {
            Some(p) => Decimal { raw: p },
            None => {
                assert(false);
                Decimal::zero()
            },
        }
    }

    /// The decimal whose scaled value is `scaled`.
    pub fn from_scaled_val(scaled: u128) -> (r: Decimal)
        ensures
            r@ == scaled,
    {
        Decimal { raw: U256::from_u128(scaled) }
    }

    /// The decimal whose scaled value is `raw`, if it is in range.
    pub fn from_raw(raw: U256) -> (r: Option<Decimal>)
        ensures
            r is Some <==> raw.value() < decimal_limit(),
            r matches Some(d) ==> d@ == raw.value(),
    {
        if raw.w3 == 0 {
            proof {
                raw.lemma_bounds();
            }
            Some(Decimal { raw })
        } else {
            proof {
                raw.lemma_bounds();
            }
            None
        }
    }

    /// The scaled value, as a raw 256-bit number.
    pub fn raw(&self) -> (r: U256)
        ensures
            r.value() == self@,
    {
        self.raw
    }

    /// The same number as a decimal.
    pub fn from_rate(rate: Rate) -> (r: Decimal)
        ensures
            r@ == rate@,
    {
        proof {
            use_type_invariant(&rate);
        }
        Decimal { raw: rate.raw }
    }

    /// The scaled value as a `u128`, or `MathOverflow`.
    pub fn to_scaled_val(&self) -> (r: Result<u128, LendingError>)
        ensures
            r is Ok <==> self@ < rate_limit(),
            r matches Ok(v) ==> v == self@,
            r matches Err(e) ==> e == LendingError::MathOverflow,
    {
        if self.raw.w3 == 0 && self.raw.w2 == 0 {
            proof {
                self.raw.lemma_bounds();
            }
            Ok(self.raw.low_u128())
        } else {
            proof {
                self.raw.lemma_bounds();
            }
            Err(LendingError::MathOverflow)
        }
    }

    pub fn try_add(&self, rhs: &Decimal) -> (r: Result<Decimal, LendingError>)
        ensures
            math_result(spec_add(self@, rhs@), r),
    {
        proof {
            use_type_invariant(self);
            use_type_invariant(rhs);
        }
        match self.raw.checked_add(&rhs.raw) {
            Some(s) => {
                if s.w3 == 0 {
                    proof {
                        s.lemma_bounds();
                    }
                    Ok(Decimal { raw: s })
                } else {
                    proof {
                        s.lemma_bounds();
                    }
                    Err(LendingError::MathOverflow)
                }
            },
            None => Err(LendingError::MathOverflow),
        }
    }

    pub fn try_sub(&self, rhs: &Decimal) -> (r: Result<Decimal, LendingError>)
        ensures
            math_result(spec_sub(self@, rhs@), r),
    {
        proof {
            use_type_invariant(self);
        }
        match self.raw.checked_sub(&rhs.raw) {
            Some(s) => Ok(Decimal { raw: s }),
            None => Err(LendingError::MathOverflow),
        }
    }

    /// Raw product below the decimal range, then rescaled.
    fn mul_raw(a: &U256, b: &U256) -> (r: Result<Decimal, LendingError>)
        ensures
            math_result(spec_mul(a.value(), b.value()), r),
    {
        match a.checked_mul(b) {
            Some(p) => {
                if p.w3 == 0 {
                    proof {
                        p.lemma_bounds();
                    }
                    let w = wad_u256();
                    let (q, _rem) = p.div_rem(&w);
                    proof {
                        lemma_div_is_ordered_by_denominator(p.value() as int, 1, WAD as int);
                        assert(p.value() / 1 == p.value());
                    }
                    Ok(Decimal { raw: q })
                } else {
                    proof {
                        p.lemma_bounds();
                    }
                    Err(LendingError::MathOverflow)
                }
            },
            None => Err(LendingError::MathOverflow),
        }
    }

    /// Product of two decimals.
    pub fn try_mul(&self, rhs: &Decimal) -> (r: Result<Decimal, LendingError>)
        ensures
            math_result(spec_mul(self@, rhs@), r),
    {
        Self::mul_raw(&self.raw, &rhs.raw)
    }

    /// Product of a decimal and a rate.
    pub fn try_mul_rate(&self, rhs: &Rate) -> (r: Result<Decimal, LendingError>)
        ensures
            math_result(spec_mul(self@, rhs@), r),
    {
        Self::mul_raw(&self.raw, &rhs.raw)
    }

    /// Product of a decimal and a whole number.
    pub fn try_mul_u64(&self, rhs: u64) -> (r: Result<Decimal, LendingError>)
        ensures
            math_result(spec_mul_int(self@, rhs as nat), r),
    {
        match self.raw.checked_mul(&U256::from_u64(rhs)) {
            Some(p) => {
                proof {
                    p.lemma_bounds();
                }
                if p.w3 == 0 {
                    Ok(Decimal { raw: p })
                } else {
                    Err(LendingError::MathOverflow)
                }
            },
            None => Err(LendingError::MathOverflow),
        }
    }

    /// Scaled-up numerator over a raw divisor.
    fn div_raw(a: &U256, b: &U256) -> (r: Result<Decimal, LendingError>)
        ensures
            math_result(spec_div(a.value(), b.value()), r),
    {
        match a.checked_mul(&wad_u256()) {
            Some(p) => {
                proof {
                    p.lemma_bounds();
                }
                if p.w3 != 0 {
                    Err(LendingError::MathOverflow)
                } else if b.is_zero() {
                    Err(LendingError::MathOverflow)
                } else {
                    let (q, _rem) = p.div_rem(b);
                    proof {
                        lemma_div_is_ordered_by_denominator(p.value() as int, 1, b.value() as int);
                        assert(p.value() / 1 == p.value());
                    }
                    Ok(Decimal { raw: q })
                }
            },
            None => Err(LendingError::MathOverflow),
        }
    }

    /// Quotient of two decimals.
    pub fn try_div(&self, rhs: &Decimal) -> (r: Result<Decimal, LendingError>)
        ensures
            math_result(spec_div(self@, rhs@), r),
    {
        Self::div_raw(&self.raw, &rhs.raw)
    }

    /// Quotient of a decimal by a rate.
    pub fn try_div_rate(&self, rhs: &Rate) -> (r: Result<Decimal, LendingError>)
        ensures
            math_result(spec_div(self@, rhs@), r),
    {
        Self::div_raw(&self.raw, &rhs.raw)
    }

    /// Quotient of a decimal by a whole number.
    pub fn try_div_u64(&self, rhs: u64) -> (r: Result<Decimal, LendingError>)
        ensures
            math_result(spec_div_int(self@, rhs as nat), r),
    {
        proof {
            use_type_invariant(self);
        }
        if rhs == 0 {
            Err(LendingError::MathOverflow)
        } else {
            let (q, _rem) = self.raw.div_rem(&U256::from_u64(rhs));
            proof {
                lemma_div_is_ordered_by_denominator(self@ as int, 1, rhs as int);
                assert(self@ / 1 == self@);
            }
            Ok(Decimal { raw: q })
        }
    }

    /// `self < other`.
    pub fn lt(&self, other: &Decimal) -> (r: bool)
        ensures
            r == (self@ < other@),
    {
        self.raw.lt(&other.raw)
    }

    /// `self <= other`.
    pub fn le(&self, other: &Decimal) -> (r: bool)
        ensures
            r == (self@ <= other@),
    {
        self.raw.le(&other.raw)
    }

    /// Equality of values.
    pub fn eq_value(&self, other: &Decimal) -> (r: bool)
        ensures
            r == (self@ == other@),
    {
        self.raw.eq_value(&other.raw)
    }

    /// Whether the value is zero.
    pub fn is_zero(&self) -> (r: bool)
        ensures
            r == (self@ == 0),
    {
        self.raw.is_zero()
    }
}

impl Rate {
    #[verifier::type_invariant]
    spec fn in_range(self) -> bool {
        self.raw.value() < rate_limit()
    }

    pub fn zero() -> (r: Rate)
        ensures
            r@ == 0,
    {
        Rate { raw: U256::zero() }
    }

    /// A rate of one (100%).
    pub fn one() -> (r: Rate)
        ensures
            r@ == WAD,
    {
        Rate { raw: wad_u256() }
    }

    /// `percent`%, i.e. `percent` times 10^16 scaled.
    pub fn from_percent(percent: u8) -> (r: Rate)
        ensures
            r@ == percent * PERCENT_SCALER,
    {
        let scaled: u64 = percent as u64 * PERCENT_SCALER;
        Rate { raw: U256::from_u64(scaled) }
    }

    /// The rate whose scaled value is `scaled`.
    pub fn from_scaled_val(scaled: u64) -> (r: Rate)
        ensures
            r@ == scaled,
    {
        Rate { raw: U256::from_u64(scaled) }
    }

    /// The same number as a rate, or `MathOverflow` when it does not fit in
    /// 128 bits.
    pub fn try_from_decimal(d: Decimal) -> (r: Result<Rate, LendingError>)
        ensures
            r is Ok <==> d@ < rate_limit(),
            r matches Ok(x) ==> x@ == d@,
            r matches Err(e) ==> e == LendingError::MathOverflow,
    {
        let raw = d.raw();
        if raw.w3 == 0 && raw.w2 == 0 {
            proof {
                raw.lemma_bounds();
            }
            Ok(Rate { raw })
        } else {
            proof {
                raw.lemma_bounds();
            }
            Err(LendingError::MathOverflow)
        }
    }

    /// The scaled value as a `u128`.
    pub fn to_scaled_val(&self) -> (r: u128)
        ensures
            r == self@,
    {
        proof {
            use_type_invariant(self);
            self.raw.lemma_bounds();
        }
        self.raw.low_u128()
    }
}

/// The scale 10^18 as a 256-bit number.
pub fn wad() -> (r: U256)
    ensures
        r.value() == WAD,
{
    wad_u256()
}

/// Writes the whole part of `decimal` (its scaled value divided by 10^18,
/// rounded down) into `dest`.
pub fn decimal_to_u256(decimal: &Decimal, dest: &mut U256)
    ensures
        final(dest).value() == decimal@ / (WAD as nat),
{
    let (q, _rem) = decimal.raw().div_rem(&wad_u256());
    *dest = q;
}

/// Converting a whole number to a decimal and taking the whole part back
/// gives the number.
pub proof fn lemma_whole_number_roundtrip(v: nat)
    ensures
        spec_from_int(v) / (WAD as nat) == v,
{
    lemma_fundamental_div_mod_converse(
        (v * (WAD as nat)) as int,
        WAD as int,
        v as int,
        0,
    );
}

} // verus!
