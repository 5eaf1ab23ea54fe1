//! The lending state the liquidator reads (reserves, obligations, price
//! data) and the revaluation of an obligation against current reserves.

use crate::decimal::{
    rate_limit, spec_add, spec_div, spec_div_int, spec_from_int, spec_mul, Decimal, Rate,
    PERCENT_SCALER, WAD,
};
use crate::error::LendingError;
use crate::wide::U256;
use vstd::prelude::*;

verus! {

/// A 32-byte account address.
#[derive(Clone, Copy, Debug, PartialEq, Eq)]
pub struct Pubkey(pub [u8; 32]);

impl View for Pubkey {
    type V = Seq<u8>;

    open spec fn view(&self) -> Seq<u8> {
        self.0@
    }
}

/// Whether two addresses are the same.
pub fn key_eq(a: &Pubkey, b: &Pubkey) -> (r: bool)
    ensures
        r == (a@ == b@),
{
    let mut i: usize = 0;
    while i < 32
        invariant
            i <= 32,
            a@.len() == 32,
            b@.len() == 32,
            forall|j: int| 0 <= j < i ==> a@[j] == b@[j],
        decreases 32 - i,
    {
        if a.0[i] != b.0[i] {
            return false;
        }
        i = i + 1;
    }
    assert(a@ =~= b@);
    true
}

/// Liquidity side of a reserve.
#[derive(Clone, Copy, Debug)]
pub struct ReserveLiquidity {
    /// Decimals of the liquidity mint.
    pub mint_decimals: u8,
    /// Liquidity held by the reserve, in the mint's smallest unit.
    pub available_amount: u64,
    /// Liquidity lent out, as a decimal.
    pub borrowed_amount_wads: Decimal,
    /// Compounded borrow rate since the reserve was created.
    pub cumulative_borrow_rate_wads: Decimal,
    /// Price of one whole token, as a decimal.
    pub market_price: Decimal,
}

/// Collateral side of a reserve.
#[derive(Clone, Copy, Debug)]
pub struct ReserveCollateral {
    /// Collateral tokens in circulation.
    pub mint_total_supply: u64,
}

/// Risk parameters of a reserve.
#[derive(Clone, Copy, Debug)]
pub struct ReserveConfig {
    /// Percent of a deposit's value that may be borrowed against it.
    pub loan_to_value_ratio: u8,
    /// Percent of a deposit's value above which borrows are unhealthy.
    pub liquidation_threshold: u8,
}

/// A lending reserve, as far as valuation reads it.
#[derive(Clone, Copy, Debug)]
pub struct Reserve {
    pub liquidity: ReserveLiquidity,
    pub collateral: ReserveCollateral,
    pub config: ReserveConfig,
}

/// Collateral deposited into an obligation.
#[derive(Clone, Copy, Debug)]
pub struct ObligationCollateral {
    pub deposit_reserve: Pubkey,
    /// Collateral tokens deposited.
    pub deposited_amount: u64,
    pub market_value: Decimal,
}

/// Liquidity borrowed by an obligation.
#[derive(Clone, Copy, Debug)]
pub struct ObligationLiquidity {
    pub borrow_reserve: Pubkey,
    /// The reserve's cumulative borrow rate when interest was last accrued.
    pub cumulative_borrow_rate_wads: Decimal,
    pub borrowed_amount_wads: Decimal,
    pub market_value: Decimal,
}

/// A borrower's position.
#[derive(Clone, Debug)]
pub struct Obligation {
    pub deposits: Vec<ObligationCollateral>,
    pub borrows: Vec<ObligationLiquidity>,
    pub deposited_value: Decimal,
    pub borrowed_value: Decimal,
    pub allowed_borrow_value: Decimal,
    pub unhealthy_borrow_value: Decimal,
}

/// A value together with the address it was read from.
#[derive(Clone, Debug)]
pub struct Enhanced<T> {
    pub inner: T,
    pub pubkey: Pubkey,
}

/// Price data of a reserve's token.
#[derive(Clone, Debug)]
pub struct OracleData {
    pub symbol: String,
    pub reserve_address: Pubkey,
    pub mint_address: Pubkey,
    pub decimals: i64,
    pub price: u64,
}

/// A deposit as the liquidator ranks it.
#[derive(Clone, Debug)]
pub struct Deposit {
    pub deposit_reserve: Pubkey,
    pub deposit_amount: u64,
    pub market_value: Decimal,
    pub symbol: String,
}

/// A borrow as the liquidator ranks it.
#[derive(Clone, Debug)]
pub struct Borrow {
    pub borrow_reserve: Pubkey,
    pub borrow_amount_wads: Decimal,
    pub market_value: Decimal,
    pub mint_address: Pubkey,
    pub symbol: String,
}

/// An obligation's totals in 256-bit integers, with its ranked deposits and
/// borrows.
#[derive(Clone, Debug)]
pub struct RefreshedObligation {
    pub deposited_value: U256,
    pub borrowed_value: U256,
    pub allowed_borrow_value: U256,
    pub unhealthy_borrow_value: U256,
    pub deposits: Vec<Deposit>,
    pub borrows: Vec<Borrow>,
    pub utilization_ratio: U256,
}

// ---------------------------------------------------------------------------
// Lookups
// ---------------------------------------------------------------------------

/// `i` is the first position whose address is `key`.
pub open spec fn is_first_enhanced<T>(s: Seq<Enhanced<T>>, key: Seq<u8>, i: int) -> bool {
    &&& 0 <= i < s.len()
    &&& s[i].pubkey@ == key
    &&& forall|j: int| 0 <= j < i ==> s[j].pubkey@ != key
}

/// The entry kept under `key`: the first one with that address.
pub open spec fn lookup_enhanced<T>(s: Seq<Enhanced<T>>, key: Seq<u8>) -> Option<T> {
    if exists|i: int| is_first_enhanced(s, key, i) {
        Some(s[choose|i: int| is_first_enhanced(s, key, i)].inner)
    } else {
        None
    }
}

/// `i` is the first price record of the reserve `key`.
pub open spec fn is_first_oracle(s: Seq<OracleData>, key: Seq<u8>, i: int) -> bool {
    &&& 0 <= i < s.len()
    &&& s[i].reserve_address@ == key
    &&& forall|j: int| 0 <= j < i ==> s[j].reserve_address@ != key
}

/// The price record kept for the reserve `key`.
pub open spec fn lookup_oracle(s: Seq<OracleData>, key: Seq<u8>) -> Option<OracleData> {
    if exists|i: int| is_first_oracle(s, key, i) {
        Some(s[choose|i: int| is_first_oracle(s, key, i)])
    } else {
        None
    }
}

/// Finds the entry stored under `key`.
pub fn find_enhanced<T>(s: &Vec<Enhanced<T>>, key: &Pubkey) -> (r: Option<usize>)
    ensures
        match r {
            Some(i) => is_first_enhanced(s@, key@, i as int) && lookup_enhanced(s@, key@) == Some(
                s@[i as int].inner,
            ),
            None => lookup_enhanced(s@, key@) is None && forall|j: int|
                0 <= j < s@.len() ==> s@[j].pubkey@ != key@,
        },
{
    let mut i: usize = 0;
    while i < s.len()
        invariant
            i <= s@.len(),
            forall|j: int| 0 <= j < i ==> s@[j].pubkey@ != key@,
        decreases s@.len() - i,
    {
        if key_eq(&s[i].pubkey, key) {
            proof {
                assert(is_first_enhanced(s@, key@, i as int));
                let c = choose|c: int| is_first_enhanced(s@, key@, c);
                assert(c == i as int) by {
                    if c < i {
                        assert(s@[c].pubkey@ != key@);
                    }
                    if c > i {
                        assert(s@[i as int].pubkey@ != key@);
                    }
                }
            }
            return Some(i);
        }
        i = i + 1;
    }
    None
}

/// Finds the price record of the reserve `key`.
pub fn find_oracle(s: &Vec<OracleData>, key: &Pubkey) -> (r: Option<usize>)
    ensures
        match r {
            Some(i) => is_first_oracle(s@, key@, i as int) && lookup_oracle(s@, key@) == Some(
                s@[i as int],
            ),
            None => lookup_oracle(s@, key@) is None,
        },
{
    let mut i: usize = 0;
    while i < s.len()
        invariant
            i <= s@.len(),
            forall|j: int| 0 <= j < i ==> s@[j].reserve_address@ != key@,
        decreases s@.len() - i,
    {
        if key_eq(&s[i].reserve_address, key) {
            proof {
                assert(is_first_oracle(s@, key@, i as int));
                let c = choose|c: int| is_first_oracle(s@, key@, c);
                assert(c == i as int) by {
                    if c < i {
                        assert(s@[c].reserve_address@ != key@);
                    }
                    if c > i {
                        assert(s@[i as int].reserve_address@ != key@);
                    }
                }
            }
            return Some(i);
        }
        i = i + 1;
    }
    None
}

// ---------------------------------------------------------------------------
// Reserve arithmetic
// ---------------------------------------------------------------------------

/// 10^e.
pub open spec fn spec_pow10(e: nat) -> nat
    decreases e,
{
    if e == 0 {
        1
    } else {
        10 * spec_pow10((e - 1) as nat)
    }
}

/// `base^exp`.
pub open spec fn spec_pow_u64(base: nat, exp: nat) -> nat
    decreases exp,
{
    if exp == 0 {
        1
    } else {
        base * spec_pow_u64(base, (exp - 1) as nat)
    }
}

/// Powers of a nonzero base do not shrink as the exponent grows.
proof fn lemma_pow_grows(base: nat, i: nat, j: nat)
    requires
        base >= 1,
        i <= j,
    ensures
        spec_pow_u64(base, i) <= spec_pow_u64(base, j),
    decreases j,
{
    if i < j {
        lemma_pow_grows(base, i, (j - 1) as nat);
        let p = spec_pow_u64(base, (j - 1) as nat);
        assert(base * p >= p) by (nonlinear_arith)
            requires
                base >= 1,
        ;
    }
}

/// `base^exp`, or `None` when it exceeds `u64::MAX`.
fn checked_pow_u64(base: u64, exp: u32) -> (r: Option<u64>)
    ensures
        match r {
            Some(v) => v == spec_pow_u64(base as nat, exp as nat),
            None => spec_pow_u64(base as nat, exp as nat) > u64::MAX,
        },
{
    let mut acc: u64 = 1;
    let mut i: u32 = 0;
    while i < exp
        invariant
            i <= exp,
            acc == spec_pow_u64(base as nat, i as nat),
        decreases exp - i,
    {
        match base.checked_mul(acc) {
            Some(next) => {
                acc = next;
            },
            None => {
                proof {
                    lemma_pow_grows(base as nat, (i + 1) as nat, exp as nat);
                }
                return None;
            },
        }
        i = i + 1;
    }
    Some(acc)
}

proof fn lemma_pow10_is_pow(e: nat)
    ensures
        spec_pow_u64(10, e) == spec_pow10(e),
    decreases e,
{
    if e > 0 {
        lemma_pow10_is_pow((e - 1) as nat);
    }
}

/// 10^decimals, when it fits in a `u64`.
pub open spec fn spec_decimals_factor(decimals: u8) -> Option<nat> {
    if spec_pow10(decimals as nat) <= u64::MAX {
        Some(spec_pow10(decimals as nat))
    } else {
        None
    }
}

fn decimals_factor(decimals: u8) -> (r: Result<u64, LendingError>)
    ensures
        match spec_decimals_factor(decimals) {
            Some(f) => r == Ok::<u64, LendingError>(f as u64),
            None => r == Err::<u64, LendingError>(LendingError::MathOverflow),
        },
{
    proof {
        lemma_pow10_is_pow(decimals as nat);
    }
    match checked_pow_u64(10, decimals as u32) {
        Some(f) => Ok(f),
        None => Err(LendingError::MathOverflow),
    }
}

/// Liquidity the reserve accounts for: available plus lent out.
pub open spec fn spec_total_supply(liquidity: ReserveLiquidity) -> Option<nat> {
    spec_add(spec_from_int(liquidity.available_amount as nat), liquidity.borrowed_amount_wads@)
}

/// Collateral tokens per unit of liquidity; one while either side is empty.
pub open spec fn spec_exchange_rate(reserve: Reserve) -> Option<nat> {
    match spec_total_supply(reserve.liquidity) {
        None => None,
        Some(total) => {
            if reserve.collateral.mint_total_supply == 0 || total == 0 {
                Some(WAD as nat)
            } else {
                match spec_div(spec_from_int(reserve.collateral.mint_total_supply as nat), total) {
                    None => None,
                    Some(q) => if q < rate_limit() {
                        Some(q)
                    } else {
                        None
                    },
                }
            }
        },
    }
}

/// The collateral exchange rate of a reserve.
pub fn collateral_exchange_rate(reserve: &Reserve) -> (r: Result<Rate, LendingError>)
    ensures
        match spec_exchange_rate(*reserve) {
            Some(v) => r is Ok && r->Ok_0@ == v,
            None => r == Err::<Rate, LendingError>(LendingError::MathOverflow),
        },
{
    let total = Decimal::from_u64(reserve.liquidity.available_amount).try_add(
        &reserve.liquidity.borrowed_amount_wads,
    )?;
    if reserve.collateral.mint_total_supply == 0 || total.is_zero() {
        Ok(Rate::one())
    } else {
        let supply = Decimal::from_u64(reserve.collateral.mint_total_supply);
        let q = supply.try_div(&total)?;
        Rate::try_from_decimal(q)
    }
}

/// Liquidity worth `amount` collateral tokens, as a decimal.
pub open spec fn spec_collateral_to_liquidity(reserve: Reserve, amount: u64) -> Option<nat> {
    match spec_exchange_rate(reserve) {
        None => None,
        Some(rate) => spec_div(spec_from_int(amount as nat), rate),
    }
}

/// Market value of `amount` collateral tokens of a reserve.
pub open spec fn spec_deposit_market_value(reserve: Reserve, amount: u64) -> Option<nat> {
    match spec_decimals_factor(reserve.liquidity.mint_decimals) {
        None => None,
        Some(factor) => match spec_collateral_to_liquidity(reserve, amount) {
            None => None,
            Some(liquidity) => match spec_mul(liquidity, reserve.liquidity.market_price@) {
                None => None,
                Some(v) => spec_div_int(v, factor),
            },
        },
    }
}

/// Borrowed amount after bringing a borrow up to the reserve's cumulative
/// rate `rate`.
pub open spec fn spec_accrue_interest(liquidity: ObligationLiquidity, rate: nat) -> Result<
    nat,
    LendingError,
> {
    let previous = liquidity.cumulative_borrow_rate_wads@;
    if rate < previous {
        Err(LendingError::NegativeInterestRate)
    } else if rate == previous {
        Ok(liquidity.borrowed_amount_wads@)
    } else {
        match spec_div(rate, previous) {
            None => Err(LendingError::MathOverflow),
            Some(growth) => if growth >= rate_limit() {
                Err(LendingError::MathOverflow)
            } else {
                match spec_mul(liquidity.borrowed_amount_wads@, growth) {
                    None => Err(LendingError::MathOverflow),
                    Some(b) => Ok(b),
                }
            },
        }
    }
}

/// Brings a borrow up to the reserve's cumulative borrow rate.
pub fn accrue_interest(liquidity: &mut ObligationLiquidity, cumulative_borrow_rate_wads: Decimal) -> (r:
    Result<(), LendingError>)
    ensures
        match spec_accrue_interest(*old(liquidity), cumulative_borrow_rate_wads@) {
            Ok(b) => r is Ok && final(liquidity).borrowed_amount_wads@ == b
                && final(liquidity).cumulative_borrow_rate_wads@ == cumulative_borrow_rate_wads@
                && final(liquidity).borrow_reserve == old(liquidity).borrow_reserve
                && final(liquidity).market_value == old(liquidity).market_value,
            Err(e) => r == Err::<(), LendingError>(e),
        },
{
    if cumulative_borrow_rate_wads.lt(&liquidity.cumulative_borrow_rate_wads) {
        Err(LendingError::NegativeInterestRate)
    } else if cumulative_borrow_rate_wads.eq_value(&liquidity.cumulative_borrow_rate_wads) {
        Ok(())
    } else {
        let growth_decimal = cumulative_borrow_rate_wads.try_div(
            &liquidity.cumulative_borrow_rate_wads,
        )?;
        let growth = Rate::try_from_decimal(growth_decimal)?;
        let borrowed = liquidity.borrowed_amount_wads.try_mul_rate(&growth)?;
        liquidity.borrowed_amount_wads = borrowed;
        liquidity.cumulative_borrow_rate_wads = cumulative_borrow_rate_wads;
        Ok(())
    }
}

/// Market value of `borrowed` (a decimal amount of liquidity) of a reserve.
pub open spec fn spec_borrow_market_value(reserve: Reserve, borrowed: nat) -> Option<nat> {
    match spec_decimals_factor(reserve.liquidity.mint_decimals) {
        None => None,
        Some(factor) => match spec_mul(borrowed, reserve.liquidity.market_price@) {
            None => None,
            Some(v) => spec_div_int(v, factor),
        },
    }
}

// ---------------------------------------------------------------------------
// Revaluing an obligation
// ---------------------------------------------------------------------------

/// Market value of one deposit, or why it cannot be valued.
pub open spec fn spec_deposit_step(
    collateral: ObligationCollateral,
    reserves: Seq<Enhanced<Reserve>>,
    oracles: Seq<OracleData>,
) -> Result<nat, LendingError> {
    match lookup_enhanced(reserves, collateral.deposit_reserve@) {
        None => Err(LendingError::InvalidAccountInput),
        Some(reserve) => match lookup_oracle(oracles, collateral.deposit_reserve@) {
            None => Err(LendingError::InvalidAccountInput),
            Some(_o) => match spec_deposit_market_value(reserve, collateral.deposited_amount) {
                None => Err(LendingError::MathOverflow),
                Some(v) => Ok(v),
            },
        },
    }
}

/// Totals (deposited, allowed to borrow, unhealthy borrow) after adding a
/// deposit of market value `mv` with the given risk parameters.
pub open spec fn spec_add_deposit(totals: (nat, nat, nat), mv: nat, config: ReserveConfig) -> Option<
    (nat, nat, nat),
> {
    let ltv = config.loan_to_value_ratio as nat * PERCENT_SCALER as nat;
    let lt = config.liquidation_threshold as nat * PERCENT_SCALER as nat;
    match (
        spec_add(totals.0, mv),
        spec_mul(mv, ltv),
        spec_mul(mv, lt),
    ) {
        (Some(d), Some(a_inc), Some(u_inc)) => match (spec_add(totals.1, a_inc), spec_add(totals.2, u_inc)) {
            (Some(a), Some(u)) => Some((d, a, u)),
            _ => None,
        },
        _ => None,
    }
}

/// Totals over the deposits, in order; the first failure wins.
pub open spec fn spec_deposit_totals(
    deposits: Seq<ObligationCollateral>,
    reserves: Seq<Enhanced<Reserve>>,
    oracles: Seq<OracleData>,
) -> Result<(nat, nat, nat), LendingError>
    decreases deposits.len(),
{
    if deposits.len() == 0 {
        Ok((0, 0, 0))
    } else {
        match spec_deposit_totals(deposits.drop_last(), reserves, oracles) {
            Err(e) => Err(e),
            Ok(totals) => match spec_deposit_step(deposits.last(), reserves, oracles) {
                Err(e) => Err(e),
                Ok(mv) => match spec_add_deposit(
                    totals,
                    mv,
                    lookup_enhanced(reserves, deposits.last().deposit_reserve@).unwrap().config,
                ) {
                    None => Err(LendingError::MathOverflow),
                    Some(t) => Ok(t),
                },
            },
        }
    }
}

/// Accrued amount and market value of one borrow, or why it cannot be
/// valued.
pub open spec fn spec_borrow_step(
    liquidity: ObligationLiquidity,
    reserves: Seq<Enhanced<Reserve>>,
    oracles: Seq<OracleData>,
) -> Result<(nat, nat), LendingError> {
    match lookup_oracle(oracles, liquidity.borrow_reserve@) {
        None => Err(LendingError::InvalidAccountInput),
        Some(_o) => match lookup_enhanced(reserves, liquidity.borrow_reserve@) {
            None => Err(LendingError::InvalidAccountInput),
            Some(reserve) => match spec_accrue_interest(
                liquidity,
                reserve.liquidity.cumulative_borrow_rate_wads@,
            ) {
                Err(e) => Err(e),
                Ok(borrowed) => match spec_borrow_market_value(reserve, borrowed) {
                    None => Err(LendingError::MathOverflow),
                    Some(v) => Ok((borrowed, v)),
                },
            },
        },
    }
}

/// Total borrowed value over the borrows, in order; the first failure wins.
pub open spec fn spec_borrow_totals(
    borrows: Seq<ObligationLiquidity>,
    reserves: Seq<Enhanced<Reserve>>,
    oracles: Seq<OracleData>,
) -> Result<nat, LendingError>
    decreases borrows.len(),
{
    if borrows.len() == 0 {
        Ok(0)
    } else {
        match spec_borrow_totals(borrows.drop_last(), reserves, oracles) {
            Err(e) => Err(e),
            Ok(total) => match spec_borrow_step(borrows.last(), reserves, oracles) {
                Err(e) => Err(e),
                Ok((_b, mv)) => match spec_add(total, mv) {
                    None => Err(LendingError::MathOverflow),
                    Some(t) => Ok(t),
                },
            },
        }
    }
}

/// The revalued totals (deposited, borrowed, allowed, unhealthy) of an
/// obligation, or the first error met: deposits are valued before borrows.
pub open spec fn spec_refresh(
    obligation: Obligation,
    reserves: Seq<Enhanced<Reserve>>,
    oracles: Seq<OracleData>,
) -> Result<(nat, nat, nat, nat), LendingError> {
    match spec_deposit_totals(obligation.deposits@, reserves, oracles) {
        Err(e) => Err(e),
        Ok(t) => match spec_borrow_totals(obligation.borrows@, reserves, oracles) {
            Err(e) => Err(e),
            Ok(b) => Ok((t.0, b, t.1, t.2)),
        },
    }
}

/// An error in a prefix of the deposits is the error of all of them.
proof fn lemma_deposit_totals_err(
    deposits: Seq<ObligationCollateral>,
    k: int,
    reserves: Seq<Enhanced<Reserve>>,
    oracles: Seq<OracleData>,
)
    requires
        0 <= k <= deposits.len(),
        spec_deposit_totals(deposits.take(k), reserves, oracles) is Err,
    ensures
        spec_deposit_totals(deposits, reserves, oracles) == spec_deposit_totals(
            deposits.take(k),
            reserves,
            oracles,
        ),
    decreases deposits.len() - k,
{
    if k < deposits.len() {
        let next = deposits.take(k + 1);
        assert(next.drop_last() =~= deposits.take(k));
        lemma_deposit_totals_err(deposits, k + 1, reserves, oracles);
    } else {
        assert(deposits.take(k) =~= deposits);
    }
}

/// An error in a prefix of the borrows is the error of all of them.
proof fn lemma_borrow_totals_err(
    borrows: Seq<ObligationLiquidity>,
    k: int,
    reserves: Seq<Enhanced<Reserve>>,
    oracles: Seq<OracleData>,
)
    requires
        0 <= k <= borrows.len(),
        spec_borrow_totals(borrows.take(k), reserves, oracles) is Err,
    ensures
        spec_borrow_totals(borrows, reserves, oracles) == spec_borrow_totals(
            borrows.take(k),
            reserves,
            oracles,
        ),
    decreases borrows.len() - k,
{
    if k < borrows.len() {
        let next = borrows.take(k + 1);
        assert(next.drop_last() =~= borrows.take(k));
        lemma_borrow_totals_err(borrows, k + 1, reserves, oracles);
    } else {
        assert(borrows.take(k) =~= borrows);
    }
}

/// Values one deposit: its market value and the totals with it added.
fn value_deposit(
    collateral: &ObligationCollateral,
    all_reserves: &Vec<Enhanced<Reserve>>,
    tokens_oracle: &Vec<OracleData>,
    deposited_value: &Decimal,
    allowed_borrow_value: &Decimal,
    unhealthy_borrow_value: &Decimal,
) -> (r: Result<(Decimal, Decimal, Decimal, Decimal, usize), LendingError>)
    ensures
        match spec_deposit_step(*collateral, all_reserves@, tokens_oracle@) {
            Err(e) => r == Err::<(Decimal, Decimal, Decimal, Decimal, usize), LendingError>(e),
            Ok(mv) => match spec_add_deposit(
                (deposited_value@, allowed_borrow_value@, unhealthy_borrow_value@),
                mv,
                lookup_enhanced(all_reserves@, collateral.deposit_reserve@).unwrap().config,
            ) {
                None => r == Err::<(Decimal, Decimal, Decimal, Decimal, usize), LendingError>(
                    LendingError::MathOverflow,
                ),
                Some(t) => r is Ok && r->Ok_0.0@ == mv && r->Ok_0.1@ == t.0 && r->Ok_0.2@ == t.1
                    && r->Ok_0.3@ == t.2 && r->Ok_0.4 < tokens_oracle@.len() && lookup_oracle(
                    tokens_oracle@,
                    collateral.deposit_reserve@,
                ) == Some(tokens_oracle@[r->Ok_0.4 as int]),
            },
        },
{
    let reserve_index = match find_enhanced(all_reserves, &collateral.deposit_reserve) {
        Some(i) => i,
        None => {
            return Err(LendingError::InvalidAccountInput);
        },
    };
    let oracle_index = match find_oracle(tokens_oracle, &collateral.deposit_reserve) {
        Some(i) => i,
        None => {
            return Err(LendingError::InvalidAccountInput);
        },
    };
    let reserve = &all_reserves[reserve_index].inner;
    let decimals = match decimals_factor(reserve.liquidity.mint_decimals) {
        Ok(f) => f,
        Err(e) => {
            return Err(e);
        },
    };
    let rate = match collateral_exchange_rate(reserve) {
        Ok(x) => x,
        Err(e) => {
            return Err(e);
        },
    };
    let liquidity = match Decimal::from_u64(collateral.deposited_amount).try_div_rate(&rate) {
        Ok(x) => x,
        Err(e) => {
            return Err(e);
        },
    };
    let value = match liquidity.try_mul(&reserve.liquidity.market_price) {
        Ok(x) => x,
        Err(e) => {
            return Err(e);
        },
    };
    let market_value = match value.try_div_u64(decimals) {
        Ok(x) => x,
        Err(e) => {
            return Err(e);
        },
    };
    let loan_to_value_rate = Rate::from_percent(reserve.config.loan_to_value_ratio);
    let liquidation_threshold_rate = Rate::from_percent(reserve.config.liquidation_threshold);
    let new_deposited = match deposited_value.try_add(&market_value) {
        Ok(x) => x,
        Err(e) => {
            return Err(e);
        },
    };
    let allowed_inc = match market_value.try_mul_rate(&loan_to_value_rate) {
        Ok(x) => x,
        Err(e) => {
            return Err(e);
        },
    };
    let new_allowed = match allowed_borrow_value.try_add(&allowed_inc) {
        Ok(x) => x,
        Err(e) => {
            return Err(e);
        },
    };
    let unhealthy_inc = match market_value.try_mul_rate(&liquidation_threshold_rate) {
        Ok(x) => x,
        Err(e) => {
            return Err(e);
        },
    };
    let new_unhealthy = match unhealthy_borrow_value.try_add(&unhealthy_inc) {
        Ok(x) => x,
        Err(e) => {
            return Err(e);
        },
    };
    Ok((market_value, new_deposited, new_allowed, new_unhealthy, oracle_index))
}

/// Values one borrow: accrues its interest and prices it.
fn value_borrow(
    liquidity: &ObligationLiquidity,
    all_reserves: &Vec<Enhanced<Reserve>>,
    tokens_oracle: &Vec<OracleData>,
) -> (r: Result<(ObligationLiquidity, usize), LendingError>)
    ensures
        match spec_borrow_step(*liquidity, all_reserves@, tokens_oracle@) {
            Err(e) => r == Err::<(ObligationLiquidity, usize), LendingError>(e),
            Ok((b, mv)) => r is Ok && r->Ok_0.0.borrowed_amount_wads@ == b
                && r->Ok_0.0.market_value@ == mv && r->Ok_0.0.borrow_reserve == liquidity.borrow_reserve
                && r->Ok_0.0.cumulative_borrow_rate_wads@ == lookup_enhanced(
                all_reserves@,
                liquidity.borrow_reserve@,
            ).unwrap().liquidity.cumulative_borrow_rate_wads@ && r->Ok_0.1 < tokens_oracle@.len()
                && lookup_oracle(tokens_oracle@, liquidity.borrow_reserve@) == Some(
                tokens_oracle@[r->Ok_0.1 as int],
            ),
        },
{
    let oracle_index = match find_oracle(tokens_oracle, &liquidity.borrow_reserve) {
        Some(i) => i,
        None => {
            return Err(LendingError::InvalidAccountInput);
        },
    };
    let reserve_index = match find_enhanced(all_reserves, &liquidity.borrow_reserve) {
        Some(i) => i,
        None => {
            return Err(LendingError::InvalidAccountInput);
        },
    };
    let reserve = &all_reserves[reserve_index].inner;
    let mut accrued = *liquidity;
    match accrue_interest(&mut accrued, reserve.liquidity.cumulative_borrow_rate_wads) {
        Ok(()) => {},
        Err(e) => {
            return Err(e);
        },
    }
    let decimals = match decimals_factor(reserve.liquidity.mint_decimals) {
        Ok(f) => f,
        Err(e) => {
            return Err(e);
        },
    };
    let value = match accrued.borrowed_amount_wads.try_mul(&reserve.liquidity.market_price) {
        Ok(x) => x,
        Err(e) => {
            return Err(e);
        },
    };
    let market_value = match value.try_div_u64(decimals) {
        Ok(x) => x,
        Err(e) => {
            return Err(e);
        },
    };
    accrued.market_value = market_value;
    Ok((accrued, oracle_index))
}

/// Revalues an obligation against current reserves and prices: every
/// deposit and borrow gets its market value (borrows first accrue interest
/// up to their reserve's cumulative rate), and the obligation's totals are
/// recomputed. Also returns the deposits and borrows, labelled with their
/// token's symbol, for ranking.
pub fn refresh_obligation(
    enhanced_obligation: &Enhanced<Obligation>,
    all_reserves: &Vec<Enhanced<Reserve>>,
    tokens_oracle: &Vec<OracleData>,
) -> (r: Result<(Obligation, Vec<Deposit>, Vec<Borrow>), LendingError>)
    ensures
        r is Err <==> spec_refresh(enhanced_obligation.inner, all_reserves@, tokens_oracle@) is Err,
        r matches Err(e) ==> spec_refresh(enhanced_obligation.inner, all_reserves@, tokens_oracle@)
            == Err::<(nat, nat, nat, nat), LendingError>(e),
        r matches Ok((o, deposits, borrows)) ==> refreshed(
            enhanced_obligation.inner,
            all_reserves@,
            tokens_oracle@,
            o,
            deposits@,
            borrows@,
        ),
{
    let input = &enhanced_obligation.inner;
    let ghost reserves = all_reserves@;
    let ghost oracles = tokens_oracle@;
    let mut deposited_value = Decimal::zero();
    let mut borrowed_value = Decimal::zero();
    let mut allowed_borrow_value = Decimal::zero();
    let mut unhealthy_borrow_value = Decimal::zero();
    let mut new_deposits: Vec<ObligationCollateral> = Vec::new();
    let mut new_borrows: Vec<ObligationLiquidity> = Vec::new();
    let mut deposits: Vec<Deposit> = Vec::new();
    let mut borrows: Vec<Borrow> = Vec::new();
    let n = input.deposits.len();
    let mut i: usize = 0;
    proof {
        assert(input.deposits@.take(0) =~= Seq::<ObligationCollateral>::empty());
    }
    while i < n
        invariant
            n == input.deposits@.len(),
            *input == enhanced_obligation.inner,
            i <= n,
            reserves == all_reserves@,
            oracles == tokens_oracle@,
            spec_deposit_totals(input.deposits@.take(i as int), reserves, oracles) == Ok::<
                (nat, nat, nat),
                LendingError,
            >((deposited_value@, allowed_borrow_value@, unhealthy_borrow_value@)),
            new_deposits@.len() == i,
            deposits@.len() == i,
            forall|j: int|
                0 <= j < i ==> deposit_refreshed(
                    input.deposits@[j],
                    reserves,
                    oracles,
                    #[trigger] new_deposits@[j],
                    deposits@[j],
                ),
        decreases n - i,
    {
        let collateral = &input.deposits[i];
        let ghost prefix = input.deposits@.take(i + 1);
        proof {
            assert(prefix.drop_last() =~= input.deposits@.take(i as int));
            assert(prefix.last() == input.deposits@[i as int]);
        }
        match value_deposit(
            collateral,
            all_reserves,
            tokens_oracle,
            &deposited_value,
            &allowed_borrow_value,
            &unhealthy_borrow_value,
        ) {
            Err(e) => {
                proof {
                    assert(spec_deposit_totals(prefix, reserves, oracles) == Err::<
                        (nat, nat, nat),
                        LendingError,
                    >(e));
                    lemma_deposit_totals_err(input.deposits@, i + 1, reserves, oracles);
                    assert(spec_deposit_totals(input.deposits@, reserves, oracles) == Err::<
                        (nat, nat, nat),
                        LendingError,
                    >(e));
                    assert(spec_refresh(enhanced_obligation.inner, reserves, oracles) == Err::<
                        (nat, nat, nat, nat),
                        LendingError,
                    >(e));
                }
                return Err(e);
            },
            Ok((market_value, d, a, u, oracle_index)) => {
                deposited_value = d;
                allowed_borrow_value = a;
                unhealthy_borrow_value = u;
                new_deposits.push(
                    ObligationCollateral {
                        deposit_reserve: collateral.deposit_reserve,
                        deposited_amount: collateral.deposited_amount,
                        market_value,
                    },
                );
                deposits.push(
                    Deposit {
                        deposit_reserve: collateral.deposit_reserve,
                        deposit_amount: collateral.deposited_amount,
                        market_value,
                        symbol: tokens_oracle[oracle_index].symbol.clone(),
                    },
                );
            },
        }
        i = i + 1;
    }
    proof {
        assert(input.deposits@.take(n as int) =~= input.deposits@);
        assert(input.borrows@.take(0) =~= Seq::<ObligationLiquidity>::empty());
    }
    let m = input.borrows.len();
    let mut k: usize = 0;
    while k < m
        invariant
            n == input.deposits@.len(),
            m == input.borrows@.len(),
            *input == enhanced_obligation.inner,
            k <= m,
            reserves == all_reserves@,
            oracles == tokens_oracle@,
            spec_deposit_totals(input.deposits@, reserves, oracles) == Ok::<
                (nat, nat, nat),
                LendingError,
            >((deposited_value@, allowed_borrow_value@, unhealthy_borrow_value@)),
            spec_borrow_totals(input.borrows@.take(k as int), reserves, oracles) == Ok::<
                nat,
                LendingError,
            >(borrowed_value@),
            new_deposits@.len() == n,
            deposits@.len() == n,
            forall|j: int|
                0 <= j < n ==> deposit_refreshed(
                    input.deposits@[j],
                    reserves,
                    oracles,
                    #[trigger] new_deposits@[j],
                    deposits@[j],
                ),
            new_borrows@.len() == k,
            borrows@.len() == k,
            forall|j: int|
                0 <= j < k ==> borrow_refreshed(
                    input.borrows@[j],
                    reserves,
                    oracles,
                    #[trigger] new_borrows@[j],
                    borrows@[j],
                ),
        decreases m - k,
    {
        let liquidity = &input.borrows[k];
        let ghost prefix = input.borrows@.take(k + 1);
        proof {
            assert(prefix.drop_last() =~= input.borrows@.take(k as int));
            assert(prefix.last() == input.borrows@[k as int]);
        }
        match value_borrow(liquidity, all_reserves, tokens_oracle) {
            Err(e) => {
                proof {
                    assert(spec_borrow_totals(prefix, reserves, oracles) == Err::<nat, LendingError>(
                        e,
                    ));
                    lemma_borrow_totals_err(input.borrows@, k + 1, reserves, oracles);
                }
                return Err(e);
            },
            Ok((refreshed_liquidity, oracle_index)) => {
                let total = match borrowed_value.try_add(&refreshed_liquidity.market_value) {
                    Ok(x) => x,
                    Err(e) => {
                        proof {
                            assert(spec_borrow_totals(prefix, reserves, oracles) == Err::<
                                nat,
                                LendingError,
                            >(e));
                            lemma_borrow_totals_err(input.borrows@, k + 1, reserves, oracles);
                        }
                        return Err(e);
                    },
                };
                borrowed_value = total;
                let oracle = &tokens_oracle[oracle_index];
                borrows.push(
                    Borrow {
                        borrow_reserve: refreshed_liquidity.borrow_reserve,
                        borrow_amount_wads: refreshed_liquidity.borrowed_amount_wads,
                        mint_address: oracle.mint_address,
                        market_value: refreshed_liquidity.market_value,
                        symbol: oracle.symbol.clone(),
                    },
                );
                new_borrows.push(refreshed_liquidity);
            },
        }
        k = k + 1;
    }
    proof {
        assert(input.borrows@.take(m as int) =~= input.borrows@);
    }
    let obligation = Obligation {
        deposits: new_deposits,
        borrows: new_borrows,
        deposited_value,
        borrowed_value,
        allowed_borrow_value,
        unhealthy_borrow_value,
    };
    Ok((obligation, deposits, borrows))
}

/// `out` and `deposit` are `input` revalued.
pub open spec fn deposit_refreshed(
    input: ObligationCollateral,
    reserves: Seq<Enhanced<Reserve>>,
    oracles: Seq<OracleData>,
    out: ObligationCollateral,
    deposit: Deposit,
) -> bool {
    &&& spec_deposit_step(input, reserves, oracles) is Ok
    &&& out.deposit_reserve == input.deposit_reserve
    &&& out.deposited_amount == input.deposited_amount
    &&& out.market_value@ == spec_deposit_step(input, reserves, oracles)->Ok_0
    &&& deposit.deposit_reserve == input.deposit_reserve
    &&& deposit.deposit_amount == input.deposited_amount
    &&& deposit.market_value == out.market_value
    &&& deposit.symbol@ == lookup_oracle(oracles, input.deposit_reserve@).unwrap().symbol@
}

/// `out` and `borrow` are `input` with interest accrued and revalued.
pub open spec fn borrow_refreshed(
    input: ObligationLiquidity,
    reserves: Seq<Enhanced<Reserve>>,
    oracles: Seq<OracleData>,
    out: ObligationLiquidity,
    borrow: Borrow,
) -> bool {
    &&& spec_borrow_step(input, reserves, oracles) is Ok
    &&& out.borrow_reserve == input.borrow_reserve
    &&& out.borrowed_amount_wads@ == spec_borrow_step(input, reserves, oracles)->Ok_0.0
    &&& out.market_value@ == spec_borrow_step(input, reserves, oracles)->Ok_0.1
    &&& out.cumulative_borrow_rate_wads@ == lookup_enhanced(
        reserves,
        input.borrow_reserve@,
    ).unwrap().liquidity.cumulative_borrow_rate_wads@
    &&& borrow.borrow_reserve == input.borrow_reserve
    &&& borrow.borrow_amount_wads == out.borrowed_amount_wads
    &&& borrow.market_value == out.market_value
    &&& borrow.mint_address == lookup_oracle(oracles, input.borrow_reserve@).unwrap().mint_address
    &&& borrow.symbol@ == lookup_oracle(oracles, input.borrow_reserve@).unwrap().symbol@
}

/// `(o, deposits, borrows)` is `input` revalued: the totals are those of
/// `spec_refresh`, and each deposit and borrow is revalued in place.
pub open spec fn refreshed(
    input: Obligation,
    reserves: Seq<Enhanced<Reserve>>,
    oracles: Seq<OracleData>,
    o: Obligation,
    deposits: Seq<Deposit>,
    borrows: Seq<Borrow>,
) -> bool {
    &&& spec_refresh(input, reserves, oracles) is Ok
    &&& o.deposited_value@ == spec_refresh(input, reserves, oracles)->Ok_0.0
    &&& o.borrowed_value@ == spec_refresh(input, reserves, oracles)->Ok_0.1
    &&& o.allowed_borrow_value@ == spec_refresh(input, reserves, oracles)->Ok_0.2
    &&& o.unhealthy_borrow_value@ == spec_refresh(input, reserves, oracles)->Ok_0.3
    &&& o.deposits@.len() == input.deposits@.len()
    &&& deposits.len() == input.deposits@.len()
    &&& forall|j: int|
        0 <= j < input.deposits@.len() ==> deposit_refreshed(
            input.deposits@[j],
            reserves,
            oracles,
            #[trigger] o.deposits@[j],
            deposits[j],
        )
    &&& o.borrows@.len() == input.borrows@.len()
    &&& borrows.len() == input.borrows@.len()
    &&& forall|j: int|
        0 <= j < input.borrows@.len() ==> borrow_refreshed(
            input.borrows@[j],
            reserves,
            oracles,
            #[trigger] o.borrows@[j],
            borrows[j],
        )
}

// ---------------------------------------------------------------------------
// Laws of revaluation
// ---------------------------------------------------------------------------

/// Sum of a sequence of naturals.
pub open spec fn sum_values(s: Seq<nat>) -> nat
    decreases s.len(),
{
    if s.len() == 0 {
        0
    } else {
        sum_values(s.drop_last()) + s.last()
    }
}

/// Market values of a list of deposits.
pub open spec fn collateral_values(s: Seq<ObligationCollateral>) -> Seq<nat> {
    s.map_values(|c: ObligationCollateral| c.market_value@)
}

/// Market values of a list of borrows.
pub open spec fn liquidity_values(s: Seq<ObligationLiquidity>) -> Seq<nat> {
    s.map_values(|l: ObligationLiquidity| l.market_value@)
}

proof fn lemma_deposit_totals_sum(
    deposits: Seq<ObligationCollateral>,
    reserves: Seq<Enhanced<Reserve>>,
    oracles: Seq<OracleData>,
)
    requires
        spec_deposit_totals(deposits, reserves, oracles) is Ok,
    ensures
        forall|j: int|
            0 <= j < deposits.len() ==> (#[trigger] spec_deposit_step(deposits[j], reserves, oracles))
                is Ok,
        spec_deposit_totals(deposits, reserves, oracles)->Ok_0.0 == sum_values(
            deposits.map_values(
                |c: ObligationCollateral| spec_deposit_step(c, reserves, oracles)->Ok_0,
            ),
        ),
    decreases deposits.len(),
{
    if deposits.len() > 0 {
        let prev = deposits.drop_last();
        lemma_deposit_totals_sum(prev, reserves, oracles);
        let f = |c: ObligationCollateral| spec_deposit_step(c, reserves, oracles)->Ok_0;
        assert(deposits.map_values(f).drop_last() =~= prev.map_values(f));
        assert forall|j: int| 0 <= j < deposits.len() implies (#[trigger] spec_deposit_step(
            deposits[j],
            reserves,
            oracles,
        )) is Ok by {
            if j < deposits.len() - 1 {
                assert(deposits[j] == prev[j]);
            }
        }
    }
}

proof fn lemma_borrow_totals_sum(
    borrows: Seq<ObligationLiquidity>,
    reserves: Seq<Enhanced<Reserve>>,
    oracles: Seq<OracleData>,
)
    requires
        spec_borrow_totals(borrows, reserves, oracles) is Ok,
    ensures
        forall|j: int|
            0 <= j < borrows.len() ==> (#[trigger] spec_borrow_step(borrows[j], reserves, oracles))
                is Ok,
        spec_borrow_totals(borrows, reserves, oracles)->Ok_0 == sum_values(
            borrows.map_values(
                |l: ObligationLiquidity| spec_borrow_step(l, reserves, oracles)->Ok_0.1,
            ),
        ),
    decreases borrows.len(),
{
    if borrows.len() > 0 {
        let prev = borrows.drop_last();
        lemma_borrow_totals_sum(prev, reserves, oracles);
        let f = |l: ObligationLiquidity| spec_borrow_step(l, reserves, oracles)->Ok_0.1;
        assert(borrows.map_values(f).drop_last() =~= prev.map_values(f));
        assert forall|j: int| 0 <= j < borrows.len() implies (#[trigger] spec_borrow_step(
            borrows[j],
            reserves,
            oracles,
        )) is Ok by {
            if j < borrows.len() - 1 {
                assert(borrows[j] == prev[j]);
            }
        }
    }
}

/// After revaluation, an obligation's deposited value is the sum of its
/// deposits' market values and its borrowed value the sum of its borrows'
/// market values.
pub proof fn lemma_refreshed_totals_are_sums(
    input: Obligation,
    reserves: Seq<Enhanced<Reserve>>,
    oracles: Seq<OracleData>,
    o: Obligation,
    deposits: Seq<Deposit>,
    borrows: Seq<Borrow>,
)
    requires
        refreshed(input, reserves, oracles, o, deposits, borrows),
    ensures
        o.deposited_value@ == sum_values(collateral_values(o.deposits@)),
        o.borrowed_value@ == sum_values(liquidity_values(o.borrows@)),
{
    lemma_deposit_totals_sum(input.deposits@, reserves, oracles);
    lemma_borrow_totals_sum(input.borrows@, reserves, oracles);
    let f = |c: ObligationCollateral| spec_deposit_step(c, reserves, oracles)->Ok_0;
    assert(input.deposits@.map_values(f) =~= collateral_values(o.deposits@)) by {
        assert forall|j: int| 0 <= j < input.deposits@.len() implies input.deposits@.map_values(
            f,
        )[j] == collateral_values(o.deposits@)[j] by {
            assert(deposit_refreshed(
                input.deposits@[j],
                reserves,
                oracles,
                o.deposits@[j],
                deposits[j],
            ));
        }
    }
    let g = |l: ObligationLiquidity| spec_borrow_step(l, reserves, oracles)->Ok_0.1;
    assert(input.borrows@.map_values(g) =~= liquidity_values(o.borrows@)) by {
        assert forall|j: int| 0 <= j < input.borrows@.len() implies input.borrows@.map_values(g)[j]
            == liquidity_values(o.borrows@)[j] by {
            assert(borrow_refreshed(input.borrows@[j], reserves, oracles, o.borrows@[j], borrows[j]));
        }
    }
}

/// Deposit lists that value the same, position by position, and use the
/// same reserves, have the same totals.
proof fn lemma_deposit_totals_congruent(
    d1: Seq<ObligationCollateral>,
    d2: Seq<ObligationCollateral>,
    reserves: Seq<Enhanced<Reserve>>,
    oracles: Seq<OracleData>,
)
    requires
        d1.len() == d2.len(),
        forall|j: int|
            0 <= j < d1.len() ==> spec_deposit_step(#[trigger] d1[j], reserves, oracles)
                == spec_deposit_step(d2[j], reserves, oracles) && d1[j].deposit_reserve
                == d2[j].deposit_reserve,
    ensures
        spec_deposit_totals(d1, reserves, oracles) == spec_deposit_totals(d2, reserves, oracles),
    decreases d1.len(),
{
    if d1.len() > 0 {
        let p1 = d1.drop_last();
        let p2 = d2.drop_last();
        assert forall|j: int| 0 <= j < p1.len() implies spec_deposit_step(
            #[trigger] p1[j],
            reserves,
            oracles,
        ) == spec_deposit_step(p2[j], reserves, oracles) && p1[j].deposit_reserve
            == p2[j].deposit_reserve by {
            assert(p1[j] == d1[j]);
            assert(p2[j] == d2[j]);
        }
        lemma_deposit_totals_congruent(p1, p2, reserves, oracles);
        assert(d1.last() == d1[d1.len() - 1]);
        assert(d2.last() == d2[d2.len() - 1]);
    }
}

/// Borrow lists that value the same, position by position, have the same
/// total.
proof fn lemma_borrow_totals_congruent(
    b1: Seq<ObligationLiquidity>,
    b2: Seq<ObligationLiquidity>,
    reserves: Seq<Enhanced<Reserve>>,
    oracles: Seq<OracleData>,
)
    requires
        b1.len() == b2.len(),
        forall|j: int|
            0 <= j < b1.len() ==> spec_borrow_step(#[trigger] b1[j], reserves, oracles)
                == spec_borrow_step(b2[j], reserves, oracles),
    ensures
        spec_borrow_totals(b1, reserves, oracles) == spec_borrow_totals(b2, reserves, oracles),
    decreases b1.len(),
{
    if b1.len() > 0 {
        let p1 = b1.drop_last();
        let p2 = b2.drop_last();
        assert forall|j: int| 0 <= j < p1.len() implies spec_borrow_step(
            #[trigger] p1[j],
            reserves,
            oracles,
        ) == spec_borrow_step(p2[j], reserves, oracles) by {
            assert(p1[j] == b1[j]);
            assert(p2[j] == b2[j]);
        }
        lemma_borrow_totals_congruent(p1, p2, reserves, oracles);
        assert(b1.last() == b1[b1.len() - 1]);
        assert(b2.last() == b2[b2.len() - 1]);
    }
}

/// Revaluing an obligation that was just revalued against the same
/// reserves and prices changes nothing: the totals come out the same, and
/// so does every deposit's and borrow's value (interest is already accrued
/// up to the reserves' rates).
pub proof fn lemma_refresh_is_idempotent(
    input: Obligation,
    reserves: Seq<Enhanced<Reserve>>,
    oracles: Seq<OracleData>,
    o: Obligation,
    deposits: Seq<Deposit>,
    borrows: Seq<Borrow>,
)
    requires
        refreshed(input, reserves, oracles, o, deposits, borrows),
    ensures
        spec_refresh(o, reserves, oracles) == spec_refresh(input, reserves, oracles),
        forall|j: int|
            0 <= j < o.deposits@.len() ==> spec_deposit_step(
                #[trigger] o.deposits@[j],
                reserves,
                oracles,
            ) == spec_deposit_step(input.deposits@[j], reserves, oracles),
        forall|j: int|
            0 <= j < o.borrows@.len() ==> spec_borrow_step(
                #[trigger] o.borrows@[j],
                reserves,
                oracles,
            ) == spec_borrow_step(input.borrows@[j], reserves, oracles),
{
    assert forall|j: int| 0 <= j < o.deposits@.len() implies spec_deposit_step(
        #[trigger] o.deposits@[j],
        reserves,
        oracles,
    ) == spec_deposit_step(input.deposits@[j], reserves, oracles) && o.deposits@[j].deposit_reserve
        == input.deposits@[j].deposit_reserve by {
        assert(deposit_refreshed(input.deposits@[j], reserves, oracles, o.deposits@[j], deposits[j]));
    }
    assert forall|j: int| 0 <= j < o.borrows@.len() implies spec_borrow_step(
        #[trigger] o.borrows@[j],
        reserves,
        oracles,
    ) == spec_borrow_step(input.borrows@[j], reserves, oracles) by {
        assert(borrow_refreshed(input.borrows@[j], reserves, oracles, o.borrows@[j], borrows[j]));
    }
    lemma_deposit_totals_congruent(o.deposits@, input.deposits@, reserves, oracles);
    lemma_borrow_totals_congruent(o.borrows@, input.borrows@, reserves, oracles);
}

/// Every reserve lets less be borrowed against a deposit than the value at
/// which borrowing becomes unhealthy.
pub open spec fn thresholds_ordered(reserves: Seq<Enhanced<Reserve>>) -> bool {
    forall|i: int|
        0 <= i < reserves.len() ==> #[trigger] reserves[i].inner.config.loan_to_value_ratio
            <= reserves[i].inner.config.liquidation_threshold
}

proof fn lemma_lookup_in(reserves: Seq<Enhanced<Reserve>>, key: Seq<u8>)
    requires
        lookup_enhanced(reserves, key) is Some,
    ensures
        exists|i: int|
            0 <= i < reserves.len() && reserves[i].inner == lookup_enhanced(reserves, key).unwrap(),
{
    let i = choose|i: int| is_first_enhanced(reserves, key, i);
    assert(reserves[i].inner == lookup_enhanced(reserves, key).unwrap());
}

/// Scaling by a smaller rate gives a smaller product.
proof fn lemma_mul_monotone(mv: nat, x: nat, y: nat)
    requires
        x <= y,
        spec_mul(mv, y) is Some,
    ensures
        spec_mul(mv, x) is Some,
        spec_mul(mv, x)->Some_0 <= spec_mul(mv, y)->Some_0,
{
    assert(mv * x <= mv * y) by (nonlinear_arith)
        requires
            x <= y,
    ;
    vstd::arithmetic::div_mod::lemma_div_is_ordered((mv * x) as int, (mv * y) as int, WAD as int);
}

/// When every reserve's loan-to-value ratio is at most its liquidation
/// threshold, an obligation's allowed borrow value never exceeds its
/// unhealthy borrow value.
pub proof fn lemma_allowed_within_unhealthy(
    deposits: Seq<ObligationCollateral>,
    reserves: Seq<Enhanced<Reserve>>,
    oracles: Seq<OracleData>,
)
    requires
        thresholds_ordered(reserves),
        spec_deposit_totals(deposits, reserves, oracles) is Ok,
    ensures
        spec_deposit_totals(deposits, reserves, oracles)->Ok_0.1 <= spec_deposit_totals(
            deposits,
            reserves,
            oracles,
        )->Ok_0.2,
    decreases deposits.len(),
{
    if deposits.len() > 0 {
        let prev = deposits.drop_last();
        lemma_allowed_within_unhealthy(prev, reserves, oracles);
        let key = deposits.last().deposit_reserve@;
        lemma_lookup_in(reserves, key);
        let i = choose|i: int|
            0 <= i < reserves.len() && reserves[i].inner == lookup_enhanced(reserves, key).unwrap();
        let config = lookup_enhanced(reserves, key).unwrap().config;
        assert(config.loan_to_value_ratio <= config.liquidation_threshold) by {
            assert(reserves[i].inner.config.loan_to_value_ratio
                <= reserves[i].inner.config.liquidation_threshold);
        }
        let mv = spec_deposit_step(deposits.last(), reserves, oracles)->Ok_0;
        let ltv = config.loan_to_value_ratio as nat * PERCENT_SCALER as nat;
        let lt = config.liquidation_threshold as nat * PERCENT_SCALER as nat;
        assert(ltv <= lt) by (nonlinear_arith)
            requires
                config.loan_to_value_ratio <= config.liquidation_threshold,
                ltv == config.loan_to_value_ratio as nat * PERCENT_SCALER as nat,
                lt == config.liquidation_threshold as nat * PERCENT_SCALER as nat,
        ;
        lemma_mul_monotone(mv, ltv, lt);
    }
}

// ---------------------------------------------------------------------------
// Laws of accrual, exchange and valuation
// ---------------------------------------------------------------------------

/// 10^e, as vstd's power of ten.
proof fn lemma_pow10_is_power(e: nat)
    ensures
        spec_pow10(e) == vstd::arithmetic::power::pow(10, e),
    decreases e,
{
    vstd::arithmetic::power::lemma_pow0(10);
    if e > 0 {
        lemma_pow10_is_power((e - 1) as nat);
        vstd::arithmetic::power::lemma_pow_adds(10, (e - 1) as nat, 1);
        vstd::arithmetic::power::lemma_pow1(10);
    }
}

/// A borrow accrues by the growth of its reserve's cumulative borrow rate
/// since the rate recorded with it: below the recorded rate accrual fails;
/// at it the amount stays; above it the amount becomes
/// `amount * floor(rate * 10^18 / recorded) / 10^18`, rounded down. So a
/// borrow recorded at `c` and accrued to `c * g` grows by `g`, whatever `c`
/// is.
pub proof fn lemma_accrual_follows_rate_growth(liquidity: ObligationLiquidity, rate: nat)
    ensures
        rate < liquidity.cumulative_borrow_rate_wads@ ==> spec_accrue_interest(liquidity, rate)
            == Err::<nat, LendingError>(LendingError::NegativeInterestRate),
        rate == liquidity.cumulative_borrow_rate_wads@ ==> spec_accrue_interest(liquidity, rate)
            == Ok::<nat, LendingError>(liquidity.borrowed_amount_wads@),
        rate > liquidity.cumulative_borrow_rate_wads@ && spec_accrue_interest(liquidity, rate)
            is Ok ==> spec_accrue_interest(liquidity, rate)->Ok_0 == liquidity.borrowed_amount_wads@
            * (rate * 1_000_000_000_000_000_000 / liquidity.cumulative_borrow_rate_wads@)
            / 1_000_000_000_000_000_000,
{
}

/// The growth of a cumulative rate depends on the two rates only through
/// their ratio: a rate recorded at `c` and accrued to `c * g / 10^18`
/// (exactly) grows by `g`.
pub proof fn lemma_accrual_growth_is_the_ratio(recorded: nat, g: nat)
    requires
        recorded > 0,
        (recorded * g) % 1_000_000_000_000_000_000 == 0,
    ensures
        (recorded * g / 1_000_000_000_000_000_000) * 1_000_000_000_000_000_000 / recorded == g,
{
    let w: int = 1_000_000_000_000_000_000;
    vstd::arithmetic::div_mod::lemma_fundamental_div_mod((recorded * g) as int, w);
    assert(((recorded * g) as int / w) * w == recorded * g);
    vstd::arithmetic::mul::lemma_mul_is_commutative(recorded as int, g as int);
    vstd::arithmetic::div_mod::lemma_div_multiples_vanish(g as int, recorded as int);
}

/// The collateral exchange rate is the collateral supply over the total
/// liquidity (available plus borrowed), as a wad rounded down:
/// `floor(supply * 10^36 / (available * 10^18 + borrowed_wads))`; it is one
/// when there is no collateral or no liquidity.
pub proof fn lemma_exchange_rate_is_supply_over_liquidity(reserve: Reserve)
    ensures
        spec_exchange_rate(reserve) is Some && reserve.collateral.mint_total_supply > 0 && (
        reserve.liquidity.available_amount > 0 || reserve.liquidity.borrowed_amount_wads@ > 0)
            ==> spec_exchange_rate(reserve)->Some_0 == reserve.collateral.mint_total_supply
            * 1_000_000_000_000_000_000 * 1_000_000_000_000_000_000 / (
        reserve.liquidity.available_amount * 1_000_000_000_000_000_000
            + reserve.liquidity.borrowed_amount_wads@),
        spec_exchange_rate(reserve) is Some && (reserve.collateral.mint_total_supply == 0 || (
        reserve.liquidity.available_amount == 0 && reserve.liquidity.borrowed_amount_wads@ == 0))
            ==> spec_exchange_rate(reserve)->Some_0 == 1_000_000_000_000_000_000,
{
}

/// More borrowed liquidity, all else equal, gives a lower (or equal)
/// exchange rate.
pub proof fn lemma_exchange_rate_falls_with_borrowing(r1: Reserve, r2: Reserve)
    requires
        r1.collateral == r2.collateral,
        r1.liquidity.available_amount == r2.liquidity.available_amount,
        r1.liquidity.borrowed_amount_wads@ <= r2.liquidity.borrowed_amount_wads@,
        r1.collateral.mint_total_supply > 0,
        r1.liquidity.available_amount > 0 || r1.liquidity.borrowed_amount_wads@ > 0,
        spec_exchange_rate(r1) is Some,
        spec_exchange_rate(r2) is Some,
    ensures
        spec_exchange_rate(r2)->Some_0 <= spec_exchange_rate(r1)->Some_0,
{
    lemma_exchange_rate_is_supply_over_liquidity(r1);
    lemma_exchange_rate_is_supply_over_liquidity(r2);
    let w: int = 1_000_000_000_000_000_000;
    let num = r1.collateral.mint_total_supply * w * w;
    let d1 = r1.liquidity.available_amount * w + r1.liquidity.borrowed_amount_wads@;
    let d2 = r2.liquidity.available_amount * w + r2.liquidity.borrowed_amount_wads@;
    assert(0 < d1 <= d2) by (nonlinear_arith)
        requires
            d1 == r1.liquidity.available_amount * w + r1.liquidity.borrowed_amount_wads@,
            d2 == r2.liquidity.available_amount * w + r2.liquidity.borrowed_amount_wads@,
            r1.liquidity.available_amount == r2.liquidity.available_amount,
            r1.liquidity.borrowed_amount_wads@ <= r2.liquidity.borrowed_amount_wads@,
            r1.liquidity.available_amount > 0 || r1.liquidity.borrowed_amount_wads@ > 0,
            w > 0,
    ;
    assert(num >= 0) by (nonlinear_arith)
        requires
            num == r1.collateral.mint_total_supply * w * w,
            w > 0,
    ;
    vstd::arithmetic::div_mod::lemma_div_is_ordered_by_denominator(num, d1, d2);
}

/// A borrow is worth its accrued amount times its reserve's market price,
/// divided by 10 to the power of the reserve's mint decimals, rounded down:
/// `floor(floor(amount * price / 10^18) / 10^decimals)`.
pub proof fn lemma_borrow_value_is_amount_times_price(
    liquidity: ObligationLiquidity,
    reserves: Seq<Enhanced<Reserve>>,
    oracles: Seq<OracleData>,
)
    ensures
        spec_borrow_step(liquidity, reserves, oracles) is Ok ==> {
            let reserve = lookup_enhanced(reserves, liquidity.borrow_reserve@).unwrap();
            let (amount, value) = spec_borrow_step(liquidity, reserves, oracles)->Ok_0;
            &&& spec_accrue_interest(liquidity, reserve.liquidity.cumulative_borrow_rate_wads@)
                == Ok::<nat, LendingError>(amount)
            &&& value as int == (amount * reserve.liquidity.market_price@ / 1_000_000_000_000_000_000) as int
                / vstd::arithmetic::power::pow(10, reserve.liquidity.mint_decimals as nat)
        },
{
    if spec_borrow_step(liquidity, reserves, oracles) is Ok {
        let reserve = lookup_enhanced(reserves, liquidity.borrow_reserve@).unwrap();
        lemma_pow10_is_power(reserve.liquidity.mint_decimals as nat);
    }
}

/// A deposit is worth the liquidity its collateral stands for at the
/// exchange rate, times its reserve's market price, divided by 10 to the
/// power of the reserve's mint decimals, each step rounded down:
/// `floor(floor(floor(amount * 10^36 / rate) * price / 10^18) / 10^decimals)`.
pub proof fn lemma_deposit_value_is_liquidity_times_price(
    collateral: ObligationCollateral,
    reserves: Seq<Enhanced<Reserve>>,
    oracles: Seq<OracleData>,
)
    ensures
        spec_deposit_step(collateral, reserves, oracles) is Ok ==> {
            let reserve = lookup_enhanced(reserves, collateral.deposit_reserve@).unwrap();
            let rate = spec_exchange_rate(reserve)->Some_0;
            &&& spec_exchange_rate(reserve) is Some
            &&& rate > 0
            &&& spec_deposit_step(collateral, reserves, oracles)->Ok_0 as int == ((
                collateral.deposited_amount * 1_000_000_000_000_000_000 * 1_000_000_000_000_000_000
                / (rate as int)) * reserve.liquidity.market_price@ / 1_000_000_000_000_000_000)
                / vstd::arithmetic::power::pow(10, reserve.liquidity.mint_decimals as nat)
        },
{
    if spec_deposit_step(collateral, reserves, oracles) is Ok {
        let reserve = lookup_enhanced(reserves, collateral.deposit_reserve@).unwrap();
        lemma_pow10_is_power(reserve.liquidity.mint_decimals as nat);
    }
}

} // verus!

