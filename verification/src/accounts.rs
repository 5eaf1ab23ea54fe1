//! Account addresses and token balances read from their on-chain encodings.

use crate::lending::Pubkey;
use crate::liquidation::ReserveAccounts;
use crate::model::Resef;
use crate::wide::U256;
use spl_token::solana_program::program_pack::Pack;
use std::str::FromStr;
use vstd::prelude::*;

verus! {

/// The 32 bytes a base58 address text decodes to, if it is a valid address.
pub uninterp spec fn parsed_pubkey(text: Seq<char>) -> Option<Seq<u8>>;

/// The four tag bytes of an optional field at `at` mark it absent (0) or
/// present (1).
pub open spec fn option_tag_valid(data: Seq<u8>, at: int) -> bool {
    &&& data[at] == 0 || data[at] == 1
    &&& data[at + 1] == 0
    &&& data[at + 2] == 0
    &&& data[at + 3] == 0
}

/// Whether bytes unpack as an initialized SPL token account: exactly 165
/// bytes, the delegate (at 72), native amount (at 109) and close authority
/// (at 129) tagged absent or present, and the state byte (at 108)
/// initialized (1) or frozen (2).
pub open spec fn token_account_unpacks(data: Seq<u8>) -> bool {
    &&& data.len() == 165
    &&& option_tag_valid(data, 72)
    &&& data[108] == 1 || data[108] == 2
    &&& option_tag_valid(data, 109)
    &&& option_tag_valid(data, 129)
}

/// Little-endian value of a byte string.
pub open spec fn le_value(bytes: Seq<u8>) -> nat
    decreases bytes.len(),
{
    if bytes.len() == 0 {
        0
    } else {
        bytes[0] as nat + 256 * le_value(bytes.drop_first())
    }
}

/// `solana_program::pubkey::Pubkey::from_str`: the address a base58 text
/// stands for, `None` when the text is not one (too long, not base58, or
/// not 32 bytes).
#[verifier::external_body]
pub(crate) fn parse_pubkey(text: &str) -> (r: Option<Pubkey>)
    ensures
        r is Some <==> parsed_pubkey(text@) is Some,
        r matches Some(k) ==> k@ == parsed_pubkey(text@).unwrap(),
{
    solana_program::pubkey::Pubkey::from_str(text).ok().map(|k| Pubkey(k.to_bytes()))
}

/// `spl_token::state::Account::unpack`, keeping the account's `amount`:
/// `Some` exactly when the data is 165 bytes with valid option tags and an
/// initialized or frozen state byte (`token_account_unpacks`); the amount is
/// the little-endian `u64` at bytes 64..72.
#[verifier::external_body]
fn unpack_token_amount(data: &[u8]) -> (r: Option<u64>)
    ensures
        r is Some <==> token_account_unpacks(data@),
        r is Some ==> data@.len() == 165,
        r matches Some(a) ==> a == le_value(data@.subrange(64, 72)),
{
    spl_token::state::Account::unpack(data).ok().map(|account| account.amount)
}

/// A wallet's balance of a token.
#[derive(Debug, Clone)]
pub struct WalletBalanceData {
    pub balance: U256,
    pub symbol: String,
}

/// The balance held in a token account, labelled with the token's symbol;
/// `None` when the data is not an initialized token account.
pub fn wallet_balance(account_data: &[u8], symbol: String) -> (r: Option<WalletBalanceData>)
    ensures
        r is Some <==> token_account_unpacks(account_data@),
        r matches Some(w) ==> w.balance.value() == le_value(account_data@.subrange(64, 72))
            && w.symbol@ == symbol@,
{
    match unpack_token_amount(account_data) {
        Some(amount) => Some(WalletBalanceData { balance: U256::from_u64(amount), symbol }),
        None => None,
    }
}

/// The addresses of a configured reserve, parsed; `None` when any of them
/// is not a valid address.
pub fn reserve_accounts(reserve: &Resef) -> (r: Option<ReserveAccounts>)
    ensures
        r is Some <==> {
            &&& parsed_pubkey(reserve.address@) is Some
            &&& parsed_pubkey(reserve.pyth_oracle@) is Some
            &&& parsed_pubkey(reserve.switchboard_oracle@) is Some
            &&& parsed_pubkey(reserve.liquidity_token.mint@) is Some
            &&& parsed_pubkey(reserve.collateral_mint_address@) is Some
            &&& parsed_pubkey(reserve.collateral_supply_address@) is Some
            &&& parsed_pubkey(reserve.liquidity_address@) is Some
            &&& parsed_pubkey(reserve.liquidity_fee_receiver_address@) is Some
        },
        r matches Some(a) ==> {
            &&& a.address@ == parsed_pubkey(reserve.address@).unwrap()
            &&& a.pyth_oracle@ == parsed_pubkey(reserve.pyth_oracle@).unwrap()
            &&& a.switchboard_oracle@ == parsed_pubkey(reserve.switchboard_oracle@).unwrap()
            &&& a.liquidity_mint@ == parsed_pubkey(reserve.liquidity_token.mint@).unwrap()
            &&& a.symbol@ == reserve.liquidity_token.symbol@
            &&& a.collateral_mint_address@ == parsed_pubkey(reserve.collateral_mint_address@).unwrap()
            &&& a.collateral_supply_address@ == parsed_pubkey(
                reserve.collateral_supply_address@,
            ).unwrap()
            &&& a.liquidity_address@ == parsed_pubkey(reserve.liquidity_address@).unwrap()
            &&& a.liquidity_fee_receiver_address@ == parsed_pubkey(
                reserve.liquidity_fee_receiver_address@,
            ).unwrap()
        },
{
    let address = parse_pubkey(reserve.address.as_str());
    let pyth_oracle = parse_pubkey(reserve.pyth_oracle.as_str());
    let switchboard_oracle = parse_pubkey(reserve.switchboard_oracle.as_str());
    let liquidity_mint = parse_pubkey(reserve.liquidity_token.mint.as_str());
    let collateral_mint_address = parse_pubkey(reserve.collateral_mint_address.as_str());
    let collateral_supply_address = parse_pubkey(reserve.collateral_supply_address.as_str());
    let liquidity_address = parse_pubkey(reserve.liquidity_address.as_str());
    let liquidity_fee_receiver_address = parse_pubkey(
        reserve.liquidity_fee_receiver_address.as_str(),
    );
    match (
        address,
        pyth_oracle,
        switchboard_oracle,
        liquidity_mint,
        collateral_mint_address,
        collateral_supply_address,
        liquidity_address,
        liquidity_fee_receiver_address,
    ) {
        (Some(a), Some(p), Some(s), Some(m), Some(cm), Some(cs), Some(l), Some(f)) => Some(
            ReserveAccounts {
                address: a,
                pyth_oracle: p,
                switchboard_oracle: s,
                liquidity_mint: m,
                symbol: reserve.liquidity_token.symbol.clone(),
                collateral_mint_address: cm,
                collateral_supply_address: cs,
                liquidity_address: l,
                liquidity_fee_receiver_address: f,
            },
        ),
        _ => None,
    }
}

} // verus!
