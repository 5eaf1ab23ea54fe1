use solend_liquidator::decimal::{Decimal, Rate};
use solend_liquidator::liquidation::assess_obligation;
use solend_liquidator::error::LendingError;
use solend_liquidator::lending::{
    accrue_interest, collateral_exchange_rate, refresh_obligation, Enhanced, Obligation,
    ObligationCollateral, ObligationLiquidity, OracleData, Pubkey, Reserve, ReserveCollateral,
    ReserveConfig, ReserveLiquidity,
};

const WAD: u128 = 1_000_000_000_000_000_000;

fn key(b: u8) -> Pubkey {
    Pubkey([b; 32])
}

fn collateral_reserve() -> Reserve {
    Reserve {
        liquidity: ReserveLiquidity {
            mint_decimals: 6,
            available_amount: 1_000_000_000,
            borrowed_amount_wads: Decimal::from(1_000_000_000u64),
            cumulative_borrow_rate_wads: Decimal::one(),
            market_price: Decimal::from(2u64),
        },
        collateral: ReserveCollateral { mint_total_supply: 1_000_000_000 },
        config: ReserveConfig { loan_to_value_ratio: 75, liquidation_threshold: 80 },
    }
}

fn borrow_reserve() -> Reserve {
    Reserve {
        liquidity: ReserveLiquidity {
            mint_decimals: 9,
            available_amount: 5,
            borrowed_amount_wads: Decimal::zero(),
            cumulative_borrow_rate_wads: Decimal::from_scaled_val(11 * WAD / 10),
            market_price: Decimal::from(10u64),
        },
        collateral: ReserveCollateral { mint_total_supply: 0 },
        config: ReserveConfig { loan_to_value_ratio: 50, liquidation_threshold: 60 },
    }
}

fn reserves() -> Vec<Enhanced<Reserve>> {
    vec![
        Enhanced { inner: collateral_reserve(), pubkey: key(1) },
        Enhanced { inner: borrow_reserve(), pubkey: key(2) },
    ]
}

fn oracles() -> Vec<OracleData> {
    vec![
        OracleData {
            symbol: "SOL".to_string(),
            reserve_address: key(1),
            mint_address: key(11),
            decimals: 1_000_000,
            price: 2_000_000,
        },
        OracleData {
            symbol: "USDC".to_string(),
            reserve_address: key(2),
            mint_address: key(22),
            decimals: 1_000_000_000,
            price: 10_000_000_000,
        },
    ]
}

fn obligation() -> Enhanced<Obligation> {
    Enhanced {
        inner: Obligation {
            deposits: vec![ObligationCollateral {
                deposit_reserve: key(1),
                deposited_amount: 100_000_000,
                market_value: Decimal::zero(),
            }],
            borrows: vec![ObligationLiquidity {
                borrow_reserve: key(2),
                cumulative_borrow_rate_wads: Decimal::one(),
                borrowed_amount_wads: Decimal::from(30_000_000_000u64),
                market_value: Decimal::zero(),
            }],
            deposited_value: Decimal::zero(),
            borrowed_value: Decimal::zero(),
            allowed_borrow_value: Decimal::zero(),
            unhealthy_borrow_value: Decimal::zero(),
        },
        pubkey: key(9),
    }
}

fn scaled(d: &Decimal) -> u128 {
    d.to_scaled_val().unwrap()
}

#[test]
fn exchange_rate_of_a_used_reserve() {
    let rate = collateral_exchange_rate(&collateral_reserve()).unwrap();
    assert_eq!(rate.to_scaled_val(), WAD / 2);
}

#[test]
fn exchange_rate_of_an_empty_reserve_is_one() {
    let rate = collateral_exchange_rate(&borrow_reserve()).unwrap();
    assert_eq!(rate.to_scaled_val(), WAD);
}

#[test]
fn accrual_compounds_by_the_rate_ratio() {
    let mut liquidity = obligation().inner.borrows[0];
    accrue_interest(&mut liquidity, Decimal::from_scaled_val(11 * WAD / 10)).unwrap();
    assert_eq!(scaled(&liquidity.borrowed_amount_wads), 33_000_000_000 * WAD);
    assert_eq!(scaled(&liquidity.cumulative_borrow_rate_wads), 11 * WAD / 10);
    let before = liquidity;
    accrue_interest(&mut liquidity, Decimal::from_scaled_val(11 * WAD / 10)).unwrap();
    assert_eq!(scaled(&liquidity.borrowed_amount_wads), scaled(&before.borrowed_amount_wads));
}

#[test]
fn accrual_refuses_a_falling_rate() {
    let mut liquidity = obligation().inner.borrows[0];
    assert_eq!(
        accrue_interest(&mut liquidity, Decimal::from_scaled_val(WAD / 2)),
        Err(LendingError::NegativeInterestRate)
    );
}

#[test]
fn refresh_values_deposits_and_borrows() {
    let (o, deposits, borrows) = refresh_obligation(&obligation(), &reserves(), &oracles()).unwrap();
    assert_eq!(scaled(&o.deposited_value), 400 * WAD);
    assert_eq!(scaled(&o.allowed_borrow_value), 300 * WAD);
    assert_eq!(scaled(&o.unhealthy_borrow_value), 320 * WAD);
    assert_eq!(scaled(&o.borrowed_value), 330 * WAD);
    assert_eq!(scaled(&o.deposits[0].market_value), 400 * WAD);
    assert_eq!(scaled(&o.borrows[0].market_value), 330 * WAD);
    assert_eq!(scaled(&o.borrows[0].borrowed_amount_wads), 33_000_000_000 * WAD);
    assert_eq!(scaled(&o.borrows[0].cumulative_borrow_rate_wads), 11 * WAD / 10);
    assert_eq!(deposits.len(), 1);
    assert_eq!(deposits[0].symbol, "SOL");
    assert_eq!(deposits[0].deposit_amount, 100_000_000);
    assert_eq!(deposits[0].deposit_reserve, key(1));
    assert_eq!(borrows.len(), 1);
    assert_eq!(borrows[0].symbol, "USDC");
    assert_eq!(borrows[0].mint_address, key(22));
    assert_eq!(scaled(&borrows[0].borrow_amount_wads), 33_000_000_000 * WAD);
}

#[test]
fn refresh_twice_changes_nothing() {
    let (o, d1, b1) = refresh_obligation(&obligation(), &reserves(), &oracles()).unwrap();
    let again = Enhanced { inner: o.clone(), pubkey: key(9) };
    let (o2, d2, b2) = refresh_obligation(&again, &reserves(), &oracles()).unwrap();
    assert_eq!(scaled(&o2.deposited_value), scaled(&o.deposited_value));
    assert_eq!(scaled(&o2.borrowed_value), scaled(&o.borrowed_value));
    assert_eq!(scaled(&o2.allowed_borrow_value), scaled(&o.allowed_borrow_value));
    assert_eq!(scaled(&o2.unhealthy_borrow_value), scaled(&o.unhealthy_borrow_value));
    assert_eq!(scaled(&d2[0].market_value), scaled(&d1[0].market_value));
    assert_eq!(scaled(&b2[0].market_value), scaled(&b1[0].market_value));
    assert_eq!(scaled(&b2[0].borrow_amount_wads), scaled(&b1[0].borrow_amount_wads));
}

#[test]
fn totals_are_sums_and_allowed_within_unhealthy() {
    let mut ob = obligation();
    ob.inner.deposits.push(ObligationCollateral {
        deposit_reserve: key(2),
        deposited_amount: 3_000_000_000,
        market_value: Decimal::zero(),
    });
    let (o, _d, _b) = refresh_obligation(&ob, &reserves(), &oracles()).unwrap();
    let sum = o.deposits.iter().map(|c| scaled(&c.market_value)).sum::<u128>();
    assert_eq!(scaled(&o.deposited_value), sum);
    // second deposit: 3e9 units of a 9-decimal token at $10 = $30
    assert_eq!(scaled(&o.deposits[1].market_value), 30 * WAD);
    assert_eq!(scaled(&o.allowed_borrow_value), 300 * WAD + 15 * WAD);
    assert_eq!(scaled(&o.unhealthy_borrow_value), 320 * WAD + 18 * WAD);
    assert!(scaled(&o.allowed_borrow_value) <= scaled(&o.unhealthy_borrow_value));
}

#[test]
fn empty_obligation_refreshes_to_zero() {
    let mut ob = obligation();
    ob.inner.deposits.clear();
    ob.inner.borrows.clear();
    let (o, d, b) = refresh_obligation(&ob, &reserves(), &oracles()).unwrap();
    assert!(o.deposited_value.is_zero() && o.borrowed_value.is_zero());
    assert!(d.is_empty() && b.is_empty());
}

#[test]
fn refresh_fails_on_unknown_reserve_or_oracle() {
    let only_first = vec![reserves()[0].clone()];
    assert_eq!(
        refresh_obligation(&obligation(), &only_first, &oracles()).err(),
        Some(LendingError::InvalidAccountInput)
    );
    let one_oracle = vec![oracles()[1].clone()];
    assert_eq!(
        refresh_obligation(&obligation(), &reserves(), &one_oracle).err(),
        Some(LendingError::InvalidAccountInput)
    );
}

#[test]
fn refresh_fails_on_falling_rate_and_overflow() {
    let mut rs = reserves();
    rs[1].inner.liquidity.cumulative_borrow_rate_wads = Decimal::from_scaled_val(WAD / 2);
    assert_eq!(
        refresh_obligation(&obligation(), &rs, &oracles()).err(),
        Some(LendingError::NegativeInterestRate)
    );
    let mut rs = reserves();
    rs[0].inner.liquidity.mint_decimals = 20;
    assert_eq!(
        refresh_obligation(&obligation(), &rs, &oracles()).err(),
        Some(LendingError::MathOverflow)
    );
}

#[test]
fn first_entry_under_a_key_is_used() {
    let mut rs = reserves();
    let mut other = collateral_reserve();
    other.liquidity.market_price = Decimal::from(1000u64);
    rs.push(Enhanced { inner: other, pubkey: key(1) });
    let (o, _d, _b) = refresh_obligation(&obligation(), &rs, &oracles()).unwrap();
    assert_eq!(scaled(&o.deposited_value), 400 * WAD);
    let _ = Rate::zero();
}

#[test]
fn underwater_obligation_is_assessed_for_liquidation() {
    let c = assess_obligation(&obligation(), &reserves(), &oracles()).unwrap();
    assert_eq!(scaled(&c.refreshed.borrowed_value), 330 * WAD);
    assert_eq!(scaled(&c.refreshed.unhealthy_borrow_value), 320 * WAD);
    assert_eq!(c.deposit, 0);
    assert_eq!(c.borrow, 0);
    assert_eq!(c.deposits[c.deposit].symbol, "SOL");
    assert_eq!(c.borrows[c.borrow].symbol, "USDC");
}

#[test]
fn healthy_or_unreadable_obligation_is_left_alone() {
    let mut healthy = obligation();
    healthy.inner.borrows[0].borrowed_amount_wads = Decimal::from(20_000_000_000u64);
    // 20e9 accrued by 1.1 is 22e9 units, worth $220, below the $320 threshold
    assert!(assess_obligation(&healthy, &reserves(), &oracles()).is_none());
    let only_first = vec![reserves()[0].clone()];
    assert!(assess_obligation(&obligation(), &only_first, &oracles()).is_none());
    let mut no_deposit = obligation();
    no_deposit.inner.deposits.clear();
    assert!(assess_obligation(&no_deposit, &reserves(), &oracles()).is_none());
}
