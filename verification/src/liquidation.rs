//! The liquidator's decisions: which obligations are underwater, which
//! deposit and borrow to act on, how much to repay, and which accounts a
//! liquidation must refresh and touch.

use crate::decimal::Decimal;
use crate::lending::{
    key_eq, refresh_obligation, refreshed, spec_refresh, Borrow, Deposit, Enhanced, Obligation,
    OracleData, Pubkey, Reserve,
};
use crate::wide::{b1, U256};
use vstd::prelude::*;

verus! {

/// An obligation may be liquidated when it has borrows and collateral and
/// its borrowed value exceeds the value at which it becomes unhealthy.
pub open spec fn spec_underwater(borrowed: nat, unhealthy: nat) -> bool {
    !(borrowed == 0 || unhealthy == 0 || borrowed <= unhealthy)
}

/// Whether a refreshed obligation may be liquidated.
pub fn is_underwater(borrowed_value: &Decimal, unhealthy_borrow_value: &Decimal) -> (r: bool)
    ensures
        r == spec_underwater(borrowed_value@, unhealthy_borrow_value@),
{
    !(borrowed_value.is_zero() || unhealthy_borrow_value.is_zero() || borrowed_value.le(
        unhealthy_borrow_value,
    ))
}

/// `i` holds the largest value, and no later position holds as much: the
/// element a stable ascending sort puts last.
pub open spec fn is_last_max(values: Seq<nat>, i: int) -> bool {
    &&& 0 <= i < values.len()
    &&& forall|j: int| 0 <= j < values.len() ==> values[j] <= values[i]
    &&& forall|j: int| i < j < values.len() ==> values[j] < values[i]
}

pub open spec fn deposit_values(deposits: Seq<Deposit>) -> Seq<nat> {
    deposits.map_values(|d: Deposit| d.market_value@)
}

pub open spec fn borrow_values(borrows: Seq<Borrow>) -> Seq<nat> {
    borrows.map_values(|b: Borrow| b.market_value@)
}

/// The deposit of largest market value (the last such one on ties).
pub fn select_deposit(deposits: &Vec<Deposit>) -> (r: Option<usize>)
    ensures
        match r {
            Some(i) => is_last_max(deposit_values(deposits@), i as int),
            None => deposits@.len() == 0,
        },
{
    if deposits.len() == 0 {
        return None;
    }
    let ghost values = deposit_values(deposits@);
    let mut best: usize = 0;
    let mut i: usize = 1;
    while i < deposits.len()
        invariant
            values == deposit_values(deposits@),
            values.len() == deposits@.len(),
            1 <= i <= deposits@.len(),
            best < i,
            forall|j: int| 0 <= j < i ==> values[j] <= values[best as int],
            forall|j: int| best < j < i ==> values[j] < values[best as int],
        decreases deposits@.len() - i,
    {
        if deposits[best].market_value.le(&deposits[i].market_value) {
            best = i;
        }
        i = i + 1;
    }
    Some(best)
}

/// The borrow of largest market value (the last such one on ties).
pub fn select_borrow(borrows: &Vec<Borrow>) -> (r: Option<usize>)
    ensures
        match r {
            Some(i) => is_last_max(borrow_values(borrows@), i as int),
            None => borrows@.len() == 0,
        },
{
    if borrows.len() == 0 {
        return None;
    }
    let ghost values = borrow_values(borrows@);
    let mut best: usize = 0;
    let mut i: usize = 1;
    while i < borrows.len()
        invariant
            values == borrow_values(borrows@),
            values.len() == borrows@.len(),
            1 <= i <= borrows@.len(),
            best < i,
            forall|j: int| 0 <= j < i ==> values[j] <= values[best as int],
            forall|j: int| best < j < i ==> values[j] < values[best as int],
        decreases borrows@.len() - i,
    {
        if borrows[best].market_value.le(&borrows[i].market_value) {
            best = i;
        }
        i = i + 1;
    }
    Some(best)
}

/// What to liquidate in a refreshed obligation: the positions (in the
/// deposit and borrow lists) of the largest deposit and the largest borrow,
/// when the obligation is underwater and has both.
pub fn liquidation_target(
    refreshed: &Obligation,
    deposits: &Vec<Deposit>,
    borrows: &Vec<Borrow>,
) -> (r: Option<(usize, usize)>)
    ensures
        match r {
            Some((d, b)) => spec_underwater(
                refreshed.borrowed_value@,
                refreshed.unhealthy_borrow_value@,
            ) && is_last_max(deposit_values(deposits@), d as int) && is_last_max(
                borrow_values(borrows@),
                b as int,
            ),
            None => !spec_underwater(refreshed.borrowed_value@, refreshed.unhealthy_borrow_value@)
                || deposits@.len() == 0 || borrows@.len() == 0,
        },
{
    if !is_underwater(&refreshed.borrowed_value, &refreshed.unhealthy_borrow_value) {
        return None;
    }
    match (select_deposit(deposits), select_borrow(borrows)) {
        (Some(d), Some(b)) => Some((d, b)),
        _ => None,
    }
}

/// An obligation worth liquidating, revalued, with the positions of the
/// deposit to seize and the borrow to repay.
#[derive(Debug)]
pub struct LiquidationCandidate {
    pub refreshed: Obligation,
    pub deposits: Vec<Deposit>,
    pub borrows: Vec<Borrow>,
    pub deposit: usize,
    pub borrow: usize,
}

/// An obligation is worth liquidating when it revalues without error, is
/// underwater once revalued, and has both a deposit and a borrow.
pub open spec fn spec_liquidatable(
    input: Obligation,
    reserves: Seq<Enhanced<Reserve>>,
    oracles: Seq<OracleData>,
) -> bool {
    &&& spec_refresh(input, reserves, oracles) is Ok
    &&& spec_underwater(
        spec_refresh(input, reserves, oracles)->Ok_0.1,
        spec_refresh(input, reserves, oracles)->Ok_0.3,
    )
    &&& input.deposits@.len() > 0
    &&& input.borrows@.len() > 0
}

/// Revalues an obligation and decides whether to liquidate it: `None` when
/// revaluation fails, the obligation is healthy, or it lacks a deposit or a
/// borrow; otherwise the revalued obligation with the largest deposit and
/// the largest borrow picked.
pub fn assess_obligation(
    enhanced_obligation: &Enhanced<Obligation>,
    all_reserves: &Vec<Enhanced<Reserve>>,
    tokens_oracle: &Vec<OracleData>,
) -> (r: Option<LiquidationCandidate>)
    ensures
        r is Some <==> spec_liquidatable(enhanced_obligation.inner, all_reserves@, tokens_oracle@),
        r matches Some(c) ==> {
            &&& refreshed(
                enhanced_obligation.inner,
                all_reserves@,
                tokens_oracle@,
                c.refreshed,
                c.deposits@,
                c.borrows@,
            )
            &&& is_last_max(deposit_values(c.deposits@), c.deposit as int)
            &&& is_last_max(borrow_values(c.borrows@), c.borrow as int)
        },
{
    match refresh_obligation(enhanced_obligation, all_reserves, tokens_oracle) {
        Err(_) => None,
        Ok((refreshed_obligation, deposits, borrows)) => {
            match liquidation_target(&refreshed_obligation, &deposits, &borrows) {
                Some((deposit, borrow)) => Some(
                    LiquidationCandidate {
                        refreshed: refreshed_obligation,
                        deposits,
                        borrows,
                        deposit,
                        borrow,
                    },
                ),
                None => None,
            }
        },
    }
}

/// The amount of liquidity to repay out of a wallet balance: all of it, or
/// nothing when the wallet is empty.
pub fn repay_amount(balance: &U256) -> (r: Option<u64>)
    requires
        balance.value() < b1(),
    ensures
        match r {
            Some(v) => balance.value() > 0 && v == balance.value(),
            None => balance.value() == 0,
        },
{
    if balance.is_zero() {
        None
    } else {
        proof {
            balance.lemma_bounds();
        }
        Some(balance.low_u64())
    }
}

/// Addresses of a configured reserve, as a liquidation needs them.
#[derive(Clone, Debug)]
pub struct ReserveAccounts {
    pub address: Pubkey,
    pub pyth_oracle: Pubkey,
    pub switchboard_oracle: Pubkey,
    pub liquidity_mint: Pubkey,
    pub symbol: String,
    pub collateral_mint_address: Pubkey,
    pub collateral_supply_address: Pubkey,
    pub liquidity_address: Pubkey,
    pub liquidity_fee_receiver_address: Pubkey,
}

/// What a liquidation refreshes and touches, as positions in the market's
/// reserve list.
#[derive(Clone, Debug)]
pub struct LiquidationPlan {
    /// The reserves the obligation uses, deposits first, in order, repeats
    /// kept.
    pub obligation_reserves: Vec<Pubkey>,
    /// For each distinct reserve of the obligation, in order of first use,
    /// the position of its configuration.
    pub refreshed_reserves: Vec<usize>,
    /// First reserve configured with the repay symbol (its mint is repaid
    /// from).
    pub repay_token_info: usize,
    /// First reserve configured with the withdraw symbol (its mint receives
    /// the redeemed liquidity).
    pub withdraw_token_info: usize,
    /// Last reserve configured with the repay symbol.
    pub repay_reserve: usize,
    /// Last reserve configured with the withdraw symbol.
    pub withdraw_reserve: usize,
}

/// The reserves of an obligation, deposits first.
pub open spec fn spec_obligation_reserves(obligation: Obligation) -> Seq<Seq<u8>> {
    obligation.deposits@.map_values(|c: crate::lending::ObligationCollateral| c.deposit_reserve@)
        + obligation.borrows@.map_values(
        |l: crate::lending::ObligationLiquidity| l.borrow_reserve@,
    )
}

/// `i` is the first configured reserve at `address`.
pub open spec fn is_first_address(reserves: Seq<ReserveAccounts>, address: Seq<u8>, i: int) -> bool {
    &&& 0 <= i < reserves.len()
    &&& reserves[i].address@ == address
    &&& forall|j: int| 0 <= j < i ==> reserves[j].address@ != address
}

/// `i` is the first configured reserve with `symbol`.
pub open spec fn is_first_symbol(reserves: Seq<ReserveAccounts>, symbol: Seq<char>, i: int) -> bool {
    &&& 0 <= i < reserves.len()
    &&& reserves[i].symbol@ == symbol
    &&& forall|j: int| 0 <= j < i ==> reserves[j].symbol@ != symbol
}

/// `i` is the last configured reserve with `symbol`.
pub open spec fn is_last_symbol(reserves: Seq<ReserveAccounts>, symbol: Seq<char>, i: int) -> bool {
    &&& 0 <= i < reserves.len()
    &&& reserves[i].symbol@ == symbol
    &&& forall|j: int| i < j < reserves.len() ==> reserves[j].symbol@ != symbol
}

/// The first configured reserve at `address`.
pub fn find_reserve_by_address(reserves: &Vec<ReserveAccounts>, address: &Pubkey) -> (r: Option<
    usize,
>)
    ensures
        match r {
            Some(i) => is_first_address(reserves@, address@, i as int),
            None => forall|j: int| 0 <= j < reserves@.len() ==> reserves@[j].address@ != address@,
        },
{
    let mut i: usize = 0;
    while i < reserves.len()
        invariant
            i <= reserves@.len(),
            forall|j: int| 0 <= j < i ==> reserves@[j].address@ != address@,
        decreases reserves@.len() - i,
    {
        if key_eq(&reserves[i].address, address) {
            return Some(i);
        }
        i = i + 1;
    }
    None
}

/// The first configured reserve with `symbol`.
pub fn find_first_symbol(reserves: &Vec<ReserveAccounts>, symbol: &String) -> (r: Option<usize>)
    ensures
        match r {
            Some(i) => is_first_symbol(reserves@, symbol@, i as int),
            None => forall|j: int| 0 <= j < reserves@.len() ==> reserves@[j].symbol@ != symbol@,
        },
{
    let mut i: usize = 0;
    while i < reserves.len()
        invariant
            i <= reserves@.len(),
            forall|j: int| 0 <= j < i ==> reserves@[j].symbol@ != symbol@,
        decreases reserves@.len() - i,
    {
        if reserves[i].symbol == *symbol {
            return Some(i);
        }
        i = i + 1;
    }
    None
}

/// The last configured reserve with `symbol`.
pub fn find_last_symbol(reserves: &Vec<ReserveAccounts>, symbol: &String) -> (r: Option<usize>)
    ensures
        match r {
            Some(i) => is_last_symbol(reserves@, symbol@, i as int),
            None => forall|j: int| 0 <= j < reserves@.len() ==> reserves@[j].symbol@ != symbol@,
        },
{
    let mut i: usize = reserves.len();
    while i > 0
        invariant
            i <= reserves@.len(),
            forall|j: int| i <= j < reserves@.len() ==> reserves@[j].symbol@ != symbol@,
        decreases i,
    {
        i = i - 1;
        if reserves[i].symbol == *symbol {
            return Some(i);
        }
    }
    None
}

/// Every reserve the obligation uses is configured in the market.
pub open spec fn all_configured(obligation: Obligation, reserves: Seq<ReserveAccounts>) -> bool {
    forall|k: int|
        0 <= k < spec_obligation_reserves(obligation).len() ==> exists|j: int|
            0 <= j < reserves.len() && reserves[j].address@ == #[trigger] spec_obligation_reserves(
                obligation,
            )[k]
}

/// Some reserve of the market carries `symbol`.
pub open spec fn symbol_configured(reserves: Seq<ReserveAccounts>, symbol: Seq<char>) -> bool {
    exists|j: int| 0 <= j < reserves.len() && reserves[j].symbol@ == symbol
}

/// The first configured reserve at `address` (meaningful when there is one).
pub open spec fn first_address_index(reserves: Seq<ReserveAccounts>, address: Seq<u8>) -> int {
    choose|i: int| is_first_address(reserves, address, i)
}

/// Positions of the configured reserves to refresh for `addresses`: for
/// each distinct address, in order of first appearance, the first reserve
/// configured at it.
pub open spec fn refresh_positions(addresses: Seq<Seq<u8>>, reserves: Seq<ReserveAccounts>) -> Seq<
    usize,
>
    decreases addresses.len(),
{
    if addresses.len() == 0 {
        Seq::empty()
    } else {
        let prev = refresh_positions(addresses.drop_last(), reserves);
        let index = first_address_index(reserves, addresses.last()) as usize;
        if prev.contains(index) {
            prev
        } else {
            prev.push(index)
        }
    }
}

proof fn lemma_first_address_unique(reserves: Seq<ReserveAccounts>, address: Seq<u8>, i: int)
    requires
        is_first_address(reserves, address, i),
    ensures
        first_address_index(reserves, address) == i,
{
    let c = first_address_index(reserves, address);
    assert(is_first_address(reserves, address, c));
    if c < i {
        assert(reserves[c].address@ != address);
    }
    if c > i {
        assert(reserves[i].address@ != address);
    }
}

/// Plans the liquidation of `obligation`, repaying the token `repay_symbol`
/// and seizing collateral of the token `withdraw_symbol`.
pub fn plan_liquidation(
    obligation: &Obligation,
    reserves: &Vec<ReserveAccounts>,
    repay_symbol: &String,
    withdraw_symbol: &String,
) -> (r: LiquidationPlan)
    requires
        all_configured(*obligation, reserves@),
        symbol_configured(reserves@, repay_symbol@),
        symbol_configured(reserves@, withdraw_symbol@),
    ensures
        r.obligation_reserves@.map_values(|k: Pubkey| k@) =~= spec_obligation_reserves(*obligation),
        r.refreshed_reserves@ == refresh_positions(spec_obligation_reserves(*obligation), reserves@),
        is_first_symbol(reserves@, repay_symbol@, r.repay_token_info as int),
        is_first_symbol(reserves@, withdraw_symbol@, r.withdraw_token_info as int),
        is_last_symbol(reserves@, repay_symbol@, r.repay_reserve as int),
        is_last_symbol(reserves@, withdraw_symbol@, r.withdraw_reserve as int),
{
    let mut all: Vec<Pubkey> = Vec::new();
    let nd = obligation.deposits.len();
    let mut i: usize = 0;
    while i < nd
        invariant
            nd == obligation.deposits@.len(),
            i <= nd,
            all@.len() == i,
            forall|j: int| 0 <= j < i ==> #[trigger] all@[j]@ == obligation.deposits@[j].deposit_reserve@,
        decreases nd - i,
    {
        all.push(obligation.deposits[i].deposit_reserve);
        i = i + 1;
    }
    let nb = obligation.borrows.len();
    let mut i: usize = 0;
    while i < nb
        invariant
            nd == obligation.deposits@.len(),
            nb == obligation.borrows@.len(),
            i <= nb,
            all@.len() == nd + i,
            forall|j: int| 0 <= j < nd ==> #[trigger] all@[j]@ == obligation.deposits@[j].deposit_reserve@,
            forall|j: int| nd <= j < nd + i ==> #[trigger] all@[j]@ == obligation.borrows@[j - nd].borrow_reserve@,
        decreases nb - i,
    {
        all.push(obligation.borrows[i].borrow_reserve);
        i = i + 1;
    }
    let ghost addresses = spec_obligation_reserves(*obligation);
    proof {
        assert(all@.map_values(|key: Pubkey| key@) =~= addresses);
    }
    let mut refreshed: Vec<usize> = Vec::new();
    let mut k: usize = 0;
    proof {
        assert(addresses.take(0) =~= Seq::<Seq<u8>>::empty());
    }
    while k < all.len()
        invariant
            k <= all@.len(),
            all@.len() == addresses.len(),
            forall|j: int| 0 <= j < addresses.len() ==> #[trigger] addresses[j] == all@[j]@,
            all_configured(*obligation, reserves@),
            addresses == spec_obligation_reserves(*obligation),
            refreshed@ == refresh_positions(addresses.take(k as int), reserves@),
        decreases all@.len() - k,
    {
        let found = find_reserve_by_address(reserves, &all[k]);
        let index = match found {
            Some(index) => index,
            None => {
                proof {
                    assert(addresses[k as int] == all@[k as int]@);
                    let j = choose|j: int|
                        0 <= j < reserves@.len() && reserves@[j].address@ == addresses[k as int];
                    assert(false);
                }
                0
            },
        };
        let mut seen = false;
        let mut p: usize = 0;
        while p < refreshed.len()
            invariant
                p <= refreshed@.len(),
                seen <==> refreshed@.take(p as int).contains(index),
            decreases refreshed@.len() - p,
        {
            proof {
                assert(refreshed@.take(p + 1) =~= refreshed@.take(p as int).push(refreshed@[p as int]));
            }
            let ghost pre = refreshed@.take(p as int);
            let ghost post = refreshed@.take(p + 1);
            if refreshed[p] == index {
                seen = true;
                proof {
                    assert(post[p as int] == index);
                }
            } else {
                proof {
                    if pre.contains(index) {
                        let q = choose|q: int| 0 <= q < pre.len() && pre[q] == index;
                        assert(post[q] == index);
                    } else {
                        assert forall|q: int| 0 <= q < post.len() implies post[q] != index by {
                            if q < p {
                                assert(post[q] == pre[q]);
                                assert(pre[q] != index);
                            }
                        }
                    }
                }
            }
            p = p + 1;
        }
        let ghost before = refreshed@;
        proof {
            assert(refreshed@.take(refreshed@.len() as int) =~= refreshed@);
        }
        if !seen {
            refreshed.push(index);
        }
        proof {
            assert(addresses[k as int] == all@[k as int]@);
            lemma_first_address_unique(reserves@, addresses[k as int], index as int);
            let next = addresses.take(k + 1);
            assert(next.drop_last() =~= addresses.take(k as int));
            assert(next.last() == addresses[k as int]);
        }
        k = k + 1;
    }
    proof {
        assert(addresses.take(all@.len() as int) =~= addresses);
    }
    let repay_token_info = match find_first_symbol(reserves, repay_symbol) {
        Some(i) => i,
        None => {
            proof {
                assert(false);
            }
            0
        },
    };
    let withdraw_token_info = match find_first_symbol(reserves, withdraw_symbol) {
        Some(i) => i,
        None => {
            proof {
                assert(false);
            }
            0
        },
    };
    let repay_reserve = match find_last_symbol(reserves, repay_symbol) {
        Some(i) => i,
        None => {
            proof {
                assert(false);
            }
            0
        },
    };
    let withdraw_reserve = match find_last_symbol(reserves, withdraw_symbol) {
        Some(i) => i,
        None => {
            proof {
                assert(false);
            }
            0
        },
    };
    LiquidationPlan {
        obligation_reserves: all,
        refreshed_reserves: refreshed,
        repay_token_info,
        withdraw_token_info,
        repay_reserve,
        withdraw_reserve,
    }
}

} // verus!
