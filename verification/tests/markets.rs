use solend_liquidator::decimal::Decimal;
use solend_liquidator::lending::{Enhanced, Obligation, Pubkey};
use solend_liquidator::markets::{MarketData, MarketsCapsule};
use solend_liquidator::model::Resef;

fn key(b: u8) -> Pubkey {
    Pubkey([b; 32])
}

fn obligation(at: u8, borrowed: u64) -> Enhanced<Obligation> {
    Enhanced {
        inner: Obligation {
            deposits: vec![],
            borrows: vec![],
            deposited_value: Decimal::zero(),
            borrowed_value: Decimal::from(borrowed),
            allowed_borrow_value: Decimal::zero(),
            unhealthy_borrow_value: Decimal::zero(),
        },
        pubkey: key(at),
    }
}

fn data_with(obligations: Vec<Enhanced<Obligation>>) -> MarketData {
    MarketData { oracle_data: vec![], obligations, reserves: vec![] }
}

fn reserves(n: usize) -> Vec<Resef> {
    (0..n).map(|i| Resef { address: format!("r{}", i), ..Resef::default() }).collect()
}

#[test]
fn registered_market_is_read_in_full_first() {
    let mut capsule = MarketsCapsule::new();
    capsule.update_initially("m1".to_string(), reserves(2));
    let market = capsule.read_for(&"m1".to_string());
    assert!(market.obligations_to_fetch().is_none());
    assert_eq!(market.input_reserves().len(), 2);
    assert_eq!(market.lending_market(), "m1");
    assert!(market.data().obligations.is_empty());
}

#[test]
fn stored_data_is_read_back() {
    let mut capsule = MarketsCapsule::new();
    capsule.update_initially("m1".to_string(), reserves(1));
    capsule.update_initially("m2".to_string(), reserves(3));
    capsule.update_market_data_for("m1".to_string(), data_with(vec![obligation(1, 5), obligation(2, 6)]));
    let m1 = capsule.read_for(&"m1".to_string());
    assert_eq!(m1.data().obligations.len(), 2);
    assert_eq!(m1.obligations_to_fetch(), Some(vec![key(1), key(2)]));
    let m2 = capsule.read_for(&"m2".to_string());
    assert!(m2.obligations_to_fetch().is_none());
    assert_eq!(m2.input_reserves().len(), 3);
}

#[test]
fn data_for_an_unknown_market_is_dropped() {
    let mut capsule = MarketsCapsule::new();
    capsule.update_initially("m1".to_string(), reserves(1));
    capsule.update_market_data_for("other".to_string(), data_with(vec![obligation(1, 5)]));
    capsule.update_distinct_obligation_for("other".to_string(), obligation(1, 5));
    assert!(capsule.read_for(&"m1".to_string()).data().obligations.is_empty());
}

#[test]
fn obligation_update_replaces_or_adds() {
    let mut capsule = MarketsCapsule::new();
    capsule.update_initially("m1".to_string(), reserves(1));
    capsule.update_market_data_for("m1".to_string(), data_with(vec![obligation(1, 5), obligation(2, 6)]));
    capsule.update_distinct_obligation_for("m1".to_string(), obligation(2, 60));
    let m1 = capsule.read_for(&"m1".to_string());
    assert_eq!(m1.data().obligations.len(), 2);
    assert_eq!(m1.data().obligations[1].inner.borrowed_value, Decimal::from(60u64));
    assert_eq!(m1.data().obligations[0].inner.borrowed_value, Decimal::from(5u64));
    capsule.update_distinct_obligation_for("m1".to_string(), obligation(3, 7));
    let m1 = capsule.read_for(&"m1".to_string());
    assert_eq!(m1.obligations_to_fetch(), Some(vec![key(1), key(2), key(3)]));
}

#[test]
fn registering_again_starts_afresh() {
    let mut capsule = MarketsCapsule::new();
    capsule.update_initially("m1".to_string(), reserves(1));
    capsule.update_market_data_for("m1".to_string(), data_with(vec![obligation(1, 5)]));
    capsule.update_initially("m1".to_string(), reserves(4));
    let m1 = capsule.read_for(&"m1".to_string());
    assert!(m1.obligations_to_fetch().is_none());
    assert!(m1.data().obligations.is_empty());
    assert_eq!(m1.input_reserves().len(), 4);
}

#[test]
fn tracked_markets_are_known() {
    let mut capsule = MarketsCapsule::new();
    assert!(!capsule.is_tracked(&"m1".to_string()));
    capsule.update_initially("m1".to_string(), reserves(1));
    assert!(capsule.is_tracked(&"m1".to_string()));
    assert!(!capsule.is_tracked(&"m2".to_string()));
}

#[test]
fn stored_obligations_keep_the_last_per_address() {
    let mut capsule = MarketsCapsule::new();
    capsule.update_initially("m1".to_string(), reserves(1));
    capsule.update_market_data_for(
        "m1".to_string(),
        data_with(vec![obligation(1, 5), obligation(2, 6), obligation(1, 7)]),
    );
    let m1 = capsule.read_for(&"m1".to_string());
    assert_eq!(m1.obligations_to_fetch(), Some(vec![key(1), key(2)]));
    assert_eq!(m1.data().obligations[0].inner.borrowed_value, Decimal::from(7u64));
}
