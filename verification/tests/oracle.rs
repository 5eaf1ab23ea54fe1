use solend_liquidator::constants::{
    null_oracle, solend_program_id, switchboard_v1_address, switchboard_v2_address,
};
use solend_liquidator::lending::Pubkey;
use solend_liquidator::model::{LiquidityToken, Resef};
use solend_liquidator::oracle::{
    form_oracle, oracle_data, reads_pyth, switchboard_version, SwitchboardVersion,
};

fn parsed(text: &str) -> [u8; 32] {
    text.parse::<solana_program::pubkey::Pubkey>().unwrap().to_bytes()
}

#[test]
fn known_addresses_match_their_base58_text() {
    assert_eq!(null_oracle().0, parsed("nu11111111111111111111111111111111111111111"));
    assert_eq!(
        switchboard_v1_address().0,
        parsed("DtmE9D2CSB4L5D6A15mraeEjrGMm6auWVzgaD8hK2tZM")
    );
    assert_eq!(
        switchboard_v2_address().0,
        parsed("SW1TCH7qEPTdLsDHRgPuMQjbQxKdH2aBStViMFnt64f")
    );
    assert_eq!(solend_program_id().0, parsed("So1endDq2YkqhipRh3WViPa8hdiSpxWy6z3Z6tMCpAo"));
}

fn reserve(pyth: &str) -> Resef {
    Resef {
        liquidity_token: LiquidityToken {
            mint: "So11111111111111111111111111111111111111112".to_string(),
            symbol: "SOL".to_string(),
            decimals: 9,
            ..LiquidityToken::default()
        },
        pyth_oracle: pyth.to_string(),
        switchboard_oracle: "AdtRGGhmqvom3Jemp5YNrxd9q9unX36BZk1pujkkXijL".to_string(),
        address: "8PbodeaosQP19SjYFx855UMqWxH2HynZLdBXmsrbac36".to_string(),
        ..Resef::default()
    }
}

#[test]
fn pyth_is_read_unless_the_null_oracle_is_named() {
    let with_pyth = form_oracle(&reserve("H6ARHf6YXhGYeQfUzQNGk6rDNnLBQKrenN712K4AQJEG")).unwrap();
    assert!(reads_pyth(&with_pyth));
    assert_eq!(
        with_pyth.price_address.0,
        parsed("H6ARHf6YXhGYeQfUzQNGk6rDNnLBQKrenN712K4AQJEG")
    );
    assert_eq!(
        with_pyth.switchboard_feed_address.0,
        parsed("AdtRGGhmqvom3Jemp5YNrxd9q9unX36BZk1pujkkXijL")
    );
    let without = form_oracle(&reserve("nu11111111111111111111111111111111111111111")).unwrap();
    assert!(!reads_pyth(&without));
    assert!(form_oracle(&reserve("0OIl")).is_none());
}

#[test]
fn feed_generation_follows_its_owner() {
    assert_eq!(switchboard_version(&switchboard_v1_address()), Some(SwitchboardVersion::V1));
    assert_eq!(switchboard_version(&switchboard_v2_address()), Some(SwitchboardVersion::V2));
    assert_eq!(switchboard_version(&Pubkey([7; 32])), None);
}

#[test]
fn price_data_carries_the_token_and_reserve() {
    let d = oracle_data(&reserve("nu11111111111111111111111111111111111111111"), 23_500_000_000)
        .unwrap();
    assert_eq!(d.symbol, "SOL");
    assert_eq!(d.decimals, 1_000_000_000);
    assert_eq!(d.price, 23_500_000_000);
    assert_eq!(d.reserve_address.0, parsed("8PbodeaosQP19SjYFx855UMqWxH2HynZLdBXmsrbac36"));
    assert_eq!(d.mint_address.0, parsed("So11111111111111111111111111111111111111112"));
    let mut bad = reserve("nu11111111111111111111111111111111111111111");
    bad.address = "x".to_string();
    assert!(oracle_data(&bad, 1).is_none());
}
