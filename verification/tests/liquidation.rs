use solend_liquidator::decimal::Decimal;
use solend_liquidator::lending::{
    Borrow, Deposit, Obligation, ObligationCollateral, ObligationLiquidity, Pubkey,
};
use solend_liquidator::liquidation::{
    is_underwater, liquidation_target, plan_liquidation, repay_amount, select_borrow,
    select_deposit, ReserveAccounts,
};
use solend_liquidator::wide::U256;

fn key(b: u8) -> Pubkey {
    Pubkey([b; 32])
}

fn deposit(value: u64, symbol: &str) -> Deposit {
    Deposit {
        deposit_reserve: key(1),
        deposit_amount: 1,
        market_value: Decimal::from(value),
        symbol: symbol.to_string(),
    }
}

fn borrow(value: u64, symbol: &str) -> Borrow {
    Borrow {
        borrow_reserve: key(2),
        borrow_amount_wads: Decimal::from(1u64),
        market_value: Decimal::from(value),
        mint_address: key(3),
        symbol: symbol.to_string(),
    }
}

fn with_values(borrowed: u64, unhealthy: u64) -> Obligation {
    Obligation {
        deposits: vec![],
        borrows: vec![],
        deposited_value: Decimal::zero(),
        borrowed_value: Decimal::from(borrowed),
        allowed_borrow_value: Decimal::zero(),
        unhealthy_borrow_value: Decimal::from(unhealthy),
    }
}

#[test]
fn underwater_needs_borrowed_above_unhealthy() {
    assert!(is_underwater(&Decimal::from(330u64), &Decimal::from(320u64)));
    assert!(!is_underwater(&Decimal::from(320u64), &Decimal::from(320u64)));
    assert!(!is_underwater(&Decimal::from(100u64), &Decimal::from(320u64)));
    assert!(!is_underwater(&Decimal::from(100u64), &Decimal::zero()));
    assert!(!is_underwater(&Decimal::zero(), &Decimal::zero()));
}

#[test]
fn largest_position_is_selected_and_ties_go_to_the_last() {
    let deposits = vec![deposit(5, "A"), deposit(9, "B"), deposit(9, "C"), deposit(2, "D")];
    assert_eq!(select_deposit(&deposits), Some(2));
    let borrows = vec![borrow(1, "X"), borrow(4, "Y")];
    assert_eq!(select_borrow(&borrows), Some(1));
    assert_eq!(select_deposit(&vec![]), None);
    assert_eq!(select_borrow(&vec![]), None);
}

#[test]
fn liquidation_target_only_when_underwater() {
    let deposits = vec![deposit(5, "A"), deposit(9, "B")];
    let borrows = vec![borrow(7, "X"), borrow(3, "Y")];
    assert_eq!(liquidation_target(&with_values(330, 320), &deposits, &borrows), Some((1, 0)));
    assert_eq!(liquidation_target(&with_values(300, 320), &deposits, &borrows), None);
    assert_eq!(liquidation_target(&with_values(330, 320), &vec![], &borrows), None);
    assert_eq!(liquidation_target(&with_values(330, 320), &deposits, &vec![]), None);
}

#[test]
fn repay_whole_balance_unless_empty() {
    assert_eq!(repay_amount(&U256::from(0u32)), None);
    assert_eq!(repay_amount(&U256::from(123_456u64)), Some(123_456));
    assert_eq!(repay_amount(&U256::from(u64::MAX)), Some(u64::MAX));
}

fn accounts(address: u8, symbol: &str, tag: u8) -> ReserveAccounts {
    ReserveAccounts {
        address: key(address),
        pyth_oracle: key(100 + tag),
        switchboard_oracle: key(150 + tag),
        liquidity_mint: key(200 + tag),
        symbol: symbol.to_string(),
        collateral_mint_address: key(50 + tag),
        collateral_supply_address: key(60 + tag),
        liquidity_address: key(70 + tag),
        liquidity_fee_receiver_address: key(80 + tag),
    }
}

#[test]
fn liquidation_plan_refreshes_each_reserve_once() {
    let obligation = Obligation {
        deposits: vec![
            ObligationCollateral {
                deposit_reserve: key(1),
                deposited_amount: 1,
                market_value: Decimal::zero(),
            },
            ObligationCollateral {
                deposit_reserve: key(2),
                deposited_amount: 1,
                market_value: Decimal::zero(),
            },
        ],
        borrows: vec![ObligationLiquidity {
            borrow_reserve: key(1),
            cumulative_borrow_rate_wads: Decimal::one(),
            borrowed_amount_wads: Decimal::one(),
            market_value: Decimal::zero(),
        }],
        deposited_value: Decimal::zero(),
        borrowed_value: Decimal::zero(),
        allowed_borrow_value: Decimal::zero(),
        unhealthy_borrow_value: Decimal::zero(),
    };
    let reserves = vec![
        accounts(2, "USDC", 0),
        accounts(1, "SOL", 1),
        accounts(3, "SOL", 2),
        accounts(1, "ETH", 3),
    ];
    let plan = plan_liquidation(&obligation, &reserves, &"SOL".to_string(), &"USDC".to_string());
    assert_eq!(plan.obligation_reserves, vec![key(1), key(2), key(1)]);
    assert_eq!(plan.refreshed_reserves, vec![1, 0]);
    assert_eq!(plan.repay_token_info, 1);
    assert_eq!(plan.repay_reserve, 2);
    assert_eq!(plan.withdraw_token_info, 0);
    assert_eq!(plan.withdraw_reserve, 0);
}
