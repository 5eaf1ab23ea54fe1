//! The market configuration published for the lending protocol: markets,
//! their reserves and the reserves' tokens (addresses as base58 text).

use vstd::prelude::*;

verus! {

/// A token lent and borrowed in a reserve.
#[derive(Default, Debug, Clone, PartialEq)]
pub struct LiquidityToken {
    pub coingecko_id: String,
    pub decimals: i64,
    pub logo: String,
    pub mint: String,
    pub name: String,
    pub symbol: String,
    pub volume24h: String,
}

/// A reserve of a market.
#[derive(Default, Debug, Clone, PartialEq)]
pub struct Resef {
    pub liquidity_token: LiquidityToken,
    pub pyth_oracle: String,
    pub switchboard_oracle: String,
    pub address: String,
    pub collateral_mint_address: String,
    pub collateral_supply_address: String,
    pub liquidity_address: String,
    pub liquidity_fee_receiver_address: String,
    /// The cap as JSON text, when one is published.
    pub user_supply_cap: Option<String>,
    /// The cap as JSON text, when one is published.
    pub user_borrow_cap: Option<String>,
}

/// A lending market.
#[derive(Default, Debug, Clone, PartialEq)]
pub struct Market {
    pub name: String,
    pub is_primary: bool,
    pub description: Option<String>,
    pub creator: String,
    pub address: String,
    pub authority_address: String,
    pub owner: String,
    pub reserves: Vec<Resef>,
}

} // verus!
