use solana_program::program_pack::Pack;
use solend_liquidator::accounts::{reserve_accounts, wallet_balance};
use solend_liquidator::model::{LiquidityToken, Resef};
use solend_liquidator::oracle::{decimals_multiplier, scale_feed_price};
use solend_liquidator::wide::U256;

#[test]
fn wallet_balance_reads_the_token_amount() {
    let account = spl_token::state::Account {
        mint: solana_program::pubkey::Pubkey::new_from_array([1; 32]),
        owner: solana_program::pubkey::Pubkey::new_from_array([2; 32]),
        amount: 987_654_321,
        state: spl_token::state::AccountState::Initialized,
        ..spl_token::state::Account::default()
    };
    let mut data = vec![0u8; spl_token::state::Account::LEN];
    spl_token::state::Account::pack(account, &mut data).unwrap();
    let w = wallet_balance(&data, "USDC".to_string()).unwrap();
    assert_eq!(w.balance, U256::from(987_654_321u64));
    assert_eq!(w.symbol, "USDC");
}

#[test]
fn wallet_balance_of_a_non_account_is_none() {
    assert!(wallet_balance(&[0u8; 10], "X".to_string()).is_none());
    assert!(wallet_balance(&[0u8; 165], "X".to_string()).is_none());
}

fn resef(address: &str) -> Resef {
    let key = "So1endDq2YkqhipRh3WViPa8hdiSpxWy6z3Z6tMCpAo".to_string();
    Resef {
        liquidity_token: LiquidityToken {
            mint: "EPjFWdd5AufqSSqeM2qN1xzybapC8G4wEGGkZwyTDt1v".to_string(),
            symbol: "USDC".to_string(),
            decimals: 6,
            ..LiquidityToken::default()
        },
        pyth_oracle: "nu11111111111111111111111111111111111111111".to_string(),
        switchboard_oracle: key.clone(),
        address: address.to_string(),
        collateral_mint_address: key.clone(),
        collateral_supply_address: key.clone(),
        liquidity_address: key.clone(),
        liquidity_fee_receiver_address: key,
        user_supply_cap: None,
        user_borrow_cap: None,
    }
}

#[test]
fn reserve_addresses_parse() {
    let text = "BgxfHJDzm44T7XG68MYKx7YisTjZu73tVovyZSjJMpmw";
    let accounts = reserve_accounts(&resef(text)).unwrap();
    let expected: solana_program::pubkey::Pubkey = text.parse().unwrap();
    assert_eq!(accounts.address.0, expected.to_bytes());
    assert_eq!(accounts.symbol, "USDC");
    assert_eq!(
        accounts.liquidity_mint.0,
        "EPjFWdd5AufqSSqeM2qN1xzybapC8G4wEGGkZwyTDt1v"
            .parse::<solana_program::pubkey::Pubkey>()
            .unwrap()
            .to_bytes()
    );
}

#[test]
fn invalid_reserve_address_is_none() {
    assert!(reserve_accounts(&resef("not-a-key")).is_none());
    assert!(reserve_accounts(&resef("")).is_none());
}

#[test]
fn token_decimals_and_feed_prices() {
    assert_eq!(decimals_multiplier(0), 1);
    assert_eq!(decimals_multiplier(6), 1_000_000);
    assert_eq!(decimals_multiplier(18), 1_000_000_000_000_000_000);
    // $23.5 scaled by 1e9, for a 6-decimal token: 23_500_000
    assert_eq!(scale_feed_price(23_500_000_000, 1_000_000), 23_500_000);
    assert_eq!(scale_feed_price(1, 1), 0);
}
