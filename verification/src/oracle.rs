//! Integer arithmetic of token prices read from price feeds.

use crate::accounts::{parse_pubkey, parsed_pubkey};
use crate::constants::{
    null_oracle, null_oracle_bytes, switchboard_v1_address, switchboard_v1_bytes,
    switchboard_v2_address, switchboard_v2_bytes,
};
use crate::lending::{key_eq, spec_pow10, OracleData, Pubkey};
use crate::model::Resef;
use crate::wide::{b1, U256};
use vstd::prelude::*;

verus! {

/// Fixed-point precision (10^9) a feed's floating-point price is scaled by
/// before it is turned into an integer.
pub const PRICE_PRECISION: u64 = 1_000_000_000;

/// 10^decimals, the number of smallest units in one whole token.
pub fn decimals_multiplier(decimals: i64) -> (r: i64)
    requires
        0 <= decimals <= 18,
    ensures
        r == spec_pow10(decimals as nat),
{
    let mut r: i64 = 1;
    let mut i: i64 = 0;
    while i < decimals
        invariant
            0 <= i <= decimals <= 18,
            r == spec_pow10(i as nat),
            r <= 1_000_000_000_000_000_000,
        decreases decimals - i,
    {
        proof {
            lemma_pow10_bound(i as nat, 17);
            reveal_with_fuel(spec_pow10, 18);
            assert(spec_pow10(17) == 100_000_000_000_000_000);
        }
        r = r * 10;
        i = i + 1;
        proof {
            assert(spec_pow10(i as nat) == 10 * spec_pow10((i - 1) as nat));
        }
    }
    r
}

proof fn lemma_pow10_bound(e: nat, m: nat)
    requires
        e <= m,
    ensures
        spec_pow10(e) <= spec_pow10(m),
    decreases m,
{
    if e < m {
        lemma_pow10_bound(e, (m - 1) as nat);
    }
}

/// A feed price given scaled by 10^9, in smallest token units: the scaled
/// price times `multiplier`, divided by 10^9.
pub open spec fn spec_scaled_price(scaled: u64, multiplier: i64) -> int {
    (scaled * multiplier) / (PRICE_PRECISION as int)
}

/// A scaled feed price converts to whole units of the multiplier, rounded
/// down: the result `r` is the largest number with
/// `r * 10^9 <= scaled * multiplier`. So a multiplier of 10^9 gives the
/// scaled price back, and ten times the multiplier gives at least ten times
/// the result.
pub proof fn lemma_scaled_price_is_floor(scaled: u64, multiplier: i64)
    requires
        multiplier >= 0,
    ensures
        spec_scaled_price(scaled, multiplier) * 1_000_000_000 <= scaled * multiplier,
        scaled * multiplier < (spec_scaled_price(scaled, multiplier) + 1) * 1_000_000_000,
        spec_scaled_price(scaled, 1_000_000_000) == scaled,
        multiplier <= i64::MAX / 10 ==> spec_scaled_price(scaled, (10 * multiplier) as i64) >= 10
            * spec_scaled_price(scaled, multiplier),
{
    let p: int = 1_000_000_000;
    let x = scaled * multiplier;
    assert(x >= 0) by (nonlinear_arith)
        requires
            x == scaled * multiplier,
            multiplier >= 0,
    ;
    vstd::arithmetic::div_mod::lemma_fundamental_div_mod(x, p);
    vstd::arithmetic::div_mod::lemma_mod_pos_bound(x, p);
    vstd::arithmetic::div_mod::lemma_div_multiples_vanish(scaled as int, p);
    if multiplier <= i64::MAX / 10 {
        let y = scaled * ((10 * multiplier) as i64);
        assert(y == 10 * x) by (nonlinear_arith)
            requires
                y == scaled * ((10 * multiplier) as i64),
                x == scaled * multiplier,
                0 <= multiplier <= i64::MAX / 10,
        ;
        let q = x / p;
        vstd::arithmetic::div_mod::lemma_fundamental_div_mod(y, p);
        vstd::arithmetic::div_mod::lemma_mod_pos_bound(y, p);
        assert(y / p >= 10 * q) by (nonlinear_arith)
            requires
                y == 10 * x,
                q * p <= x,
                y == p * (y / p) + y % p,
                0 <= y % p < p,
                p == 1_000_000_000,
        ;
    }
}

/// The price of one whole token in smallest units, from a feed price scaled
/// by 10^9 and the token's decimals multiplier.
pub fn scale_feed_price(scaled: u64, multiplier: i64) -> (r: u64)
    requires
        multiplier >= 0,
        spec_scaled_price(scaled, multiplier) < b1(),
    ensures
        r == spec_scaled_price(scaled, multiplier),
{
    let a = U256::from_u64(scaled);
    let m = U256::from_u64(multiplier as u64);
    assert(scaled * (multiplier as u64) < 0x1_0000_0000_0000_0000_0000_0000_0000_0000) by (
    nonlinear_arith)
        requires
            scaled <= 0xffff_ffff_ffff_ffff,
            multiplier as u64 <= 0xffff_ffff_ffff_ffff,
    ;
    let p = match a.checked_mul(&m) {
        Some(p) => p,
        None => {
            assert(false);
            U256::zero()
        },
    };
    let (q, _rem) = p.div_rem(&U256::from_u64(PRICE_PRECISION));
    proof {
        q.lemma_bounds();
    }
    q.low_u64()
}

/// The price accounts a reserve names.
#[derive(Clone, Copy, Debug)]
pub struct FormedOracle {
    pub price_address: Pubkey,
    pub switchboard_feed_address: Pubkey,
}

/// The reserve's Pyth and Switchboard price accounts, parsed; `None` when
/// either address is not valid.
pub fn form_oracle(reserve: &Resef) -> (r: Option<FormedOracle>)
    ensures
        r is Some <==> parsed_pubkey(reserve.pyth_oracle@) is Some && parsed_pubkey(
            reserve.switchboard_oracle@,
        ) is Some,
        r matches Some(o) ==> o.price_address@ == parsed_pubkey(reserve.pyth_oracle@).unwrap()
            && o.switchboard_feed_address@ == parsed_pubkey(reserve.switchboard_oracle@).unwrap(),
{
    match (parse_pubkey(reserve.pyth_oracle.as_str()), parse_pubkey(reserve.switchboard_oracle.as_str())) {
        (Some(price_address), Some(switchboard_feed_address)) => Some(
            FormedOracle { price_address, switchboard_feed_address },
        ),
        _ => None,
    }
}

/// Whether the price is read from the Pyth account: it is, unless the
/// reserve names the null oracle there.
pub fn reads_pyth(oracle: &FormedOracle) -> (r: bool)
    ensures
        r == (oracle.price_address@ != null_oracle_bytes()),
{
    !key_eq(&oracle.price_address, &null_oracle())
}

/// The generation of a Switchboard feed.
#[derive(Clone, Copy, Debug, PartialEq, Eq)]
pub enum SwitchboardVersion {
    V1,
    V2,
}

/// The Switchboard generation a feed account belongs to, by the program
/// that owns it; `None` for any other owner.
pub fn switchboard_version(owner: &Pubkey) -> (r: Option<SwitchboardVersion>)
    ensures
        r == (if owner@ == switchboard_v1_bytes() {
            Some(SwitchboardVersion::V1)
        } else if owner@ == switchboard_v2_bytes() {
            Some(SwitchboardVersion::V2)
        } else {
            None::<SwitchboardVersion>
        }),
{
    if key_eq(owner, &switchboard_v1_address()) {
        Some(SwitchboardVersion::V1)
    } else if key_eq(owner, &switchboard_v2_address()) {
        Some(SwitchboardVersion::V2)
    } else {
        None
    }
}

/// The price data of a reserve's token at `price` (in smallest units per
/// whole token); `None` when the reserve's address or token mint is not a
/// valid address.
pub fn oracle_data(reserve: &Resef, price: u64) -> (r: Option<OracleData>)
    requires
        0 <= reserve.liquidity_token.decimals <= 18,
    ensures
        r is Some <==> parsed_pubkey(reserve.address@) is Some && parsed_pubkey(
            reserve.liquidity_token.mint@,
        ) is Some,
        r matches Some(d) ==> {
            &&& d.symbol@ == reserve.liquidity_token.symbol@
            &&& d.reserve_address@ == parsed_pubkey(reserve.address@).unwrap()
            &&& d.mint_address@ == parsed_pubkey(reserve.liquidity_token.mint@).unwrap()
            &&& d.decimals == spec_pow10(reserve.liquidity_token.decimals as nat)
            &&& d.price == price
        },
{
    let decimals = decimals_multiplier(reserve.liquidity_token.decimals);
    match (parse_pubkey(reserve.address.as_str()), parse_pubkey(reserve.liquidity_token.mint.as_str())) {
        (Some(reserve_address), Some(mint_address)) => Some(
            OracleData {
                symbol: reserve.liquidity_token.symbol.clone(),
                reserve_address,
                mint_address,
                decimals,
                price,
            },
        ),
        _ => None,
    }
}

} // verus!
