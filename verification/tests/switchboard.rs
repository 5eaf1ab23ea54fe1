use solend_liquidator::switchboard::{
    get_aggregator, get_aggregator_result, is_current_round_valid, BundleAccount, ProgramError,
    VrfAccount,
};
use switchboard_protos::protos::aggregator_state::{mod_AggregatorState, AggregatorState, RoundResult};
use switchboard_protos::protos::vrf::VrfAccountData;

fn create_aggregator(current_round: RoundResult, last_round: RoundResult) -> AggregatorState {
    AggregatorState {
        version: Some(1),
        configs: Some(mod_AggregatorState::Configs {
            min_confirmations: Some(10),
            min_update_delay_seconds: Some(10),
            locked: Some(false),
            schedule: None,
        }),
        fulfillment_manager_pubkey: Some(Vec::new()),
        job_definition_pubkeys: Vec::new(),
        agreement: None,
        current_round_result: Some(current_round),
        last_round_result: Some(last_round),
        parse_optimized_result_address: None,
        bundle_auth_addresses: Vec::new(),
    }
}

fn round(num_success: i32, result: f64) -> RoundResult {
    RoundResult {
        num_success: Some(num_success),
        num_error: Some(0),
        result: Some(result),
        round_open_slot: Some(1),
        round_open_timestamp: Some(1),
        min_response: Some(result),
        max_response: Some(result),
        medians: Vec::new(),
    }
}

#[test]
fn test_reject_current_on_sucess_count() {
    let current_round = RoundResult {
        num_success: Some(2),
        num_error: Some(5),
        result: Some(97.0),
        round_open_slot: Some(1),
        round_open_timestamp: Some(1),
        min_response: Some(96.0),
        max_response: Some(100.0),
        medians: Vec::new(),
    };
    let last_round = RoundResult {
        num_success: Some(30),
        num_error: Some(0),
        result: Some(100.0),
        round_open_slot: Some(1),
        round_open_timestamp: Some(1),
        min_response: Some(100.0),
        max_response: Some(100.0),
        medians: Vec::new(),
    };
    let aggregator = create_aggregator(current_round.clone(), last_round.clone());
    assert_eq!(get_aggregator_result(&aggregator).unwrap().clone(), last_round.clone());
}

#[test]
fn test_accept_current_on_sucess_count() {
    let current_round = RoundResult {
        num_success: Some(20),
        num_error: Some(5),
        result: Some(97.0),
        round_open_slot: Some(1),
        round_open_timestamp: Some(1),
        min_response: Some(96.0),
        max_response: Some(100.0),
        medians: Vec::new(),
    };
    let last_round = RoundResult {
        num_success: Some(30),
        num_error: Some(0),
        result: Some(100.0),
        round_open_slot: Some(1),
        round_open_timestamp: Some(1),
        min_response: Some(100.0),
        max_response: Some(100.0),
        medians: Vec::new(),
    };
    let aggregator = create_aggregator(current_round.clone(), last_round.clone());
    assert_eq!(get_aggregator_result(&aggregator).unwrap().clone(), current_round.clone());
}

#[test]
fn current_round_valid_at_exact_minimum() {
    let aggregator = create_aggregator(round(10, 1.0), round(30, 2.0));
    assert_eq!(is_current_round_valid(&aggregator), Ok(true));
    let aggregator = create_aggregator(round(9, 1.0), round(30, 2.0));
    assert_eq!(is_current_round_valid(&aggregator), Ok(false));
}

#[test]
fn current_round_without_configuration_is_an_error() {
    let mut aggregator = create_aggregator(round(10, 1.0), round(30, 2.0));
    aggregator.configs = None;
    assert_eq!(is_current_round_valid(&aggregator), Err(ProgramError::InvalidAccountData));
    assert_eq!(get_aggregator_result(&aggregator), Err(ProgramError::InvalidAccountData));
}

#[test]
fn missing_success_count_is_below_any_minimum() {
    let mut current = round(10, 1.0);
    current.num_success = None;
    let aggregator = create_aggregator(current, round(30, 2.0));
    assert_eq!(is_current_round_valid(&aggregator), Ok(false));
    assert_eq!(get_aggregator_result(&aggregator).unwrap().result, Some(2.0));
}

#[test]
fn without_current_round_the_last_round_is_used() {
    let mut aggregator = create_aggregator(round(10, 1.0), round(30, 2.0));
    aggregator.current_round_result = None;
    assert_eq!(is_current_round_valid(&aggregator), Ok(false));
    assert_eq!(get_aggregator_result(&aggregator).unwrap().result, Some(2.0));
    aggregator.last_round_result = None;
    assert_eq!(get_aggregator_result(&aggregator), Err(ProgramError::InvalidAccountData));
}

#[test]
fn aggregator_account_decodes() {
    let aggregator = create_aggregator(round(20, 97.0), round(30, 100.0));
    let mut data = vec![1u8];
    data.extend(quick_protobuf::serialize_into_vec(&aggregator).unwrap());
    let decoded = get_aggregator(&data).unwrap();
    assert_eq!(decoded, aggregator);
    assert_eq!(decoded.current_round_result.unwrap().num_success, Some(20));
}

#[test]
fn aggregator_account_with_wrong_tag_or_no_data_is_rejected() {
    let aggregator = create_aggregator(round(20, 97.0), round(30, 100.0));
    let mut data = vec![6u8];
    data.extend(quick_protobuf::serialize_into_vec(&aggregator).unwrap());
    assert_eq!(get_aggregator(&data), Err(ProgramError::InvalidAccountData));
    assert_eq!(get_aggregator(&[]), Err(ProgramError::InvalidAccountData));
}

#[test]
fn aggregator_account_that_does_not_decode_is_rejected() {
    let data = vec![1u8, 0xff, 0xff, 0xff];
    assert_eq!(get_aggregator(&data), Err(ProgramError::InvalidAccountData));
}

#[test]
fn bundle_account_needs_bundle_tag() {
    assert!(BundleAccount::new(vec![6u8, 0, 0]).is_ok());
    assert_eq!(BundleAccount::new(vec![1u8]).err(), Some(ProgramError::InvalidAccountData));
    assert_eq!(BundleAccount::new(vec![]).err(), Some(ProgramError::InvalidAccountData));
}

fn vrf_account(value: Option<Vec<u8>>, min: Option<i32>, num: Option<i32>) -> VrfAccount {
    let state = VrfAccountData {
        value,
        min_proof_confirmations: min,
        num_proof_confirmations: num,
        ..VrfAccountData::default()
    };
    let mut data = vec![8u8];
    data.extend(quick_protobuf::serialize_into_vec(&state).unwrap());
    VrfAccount::new(data).ok().unwrap()
}

#[test]
fn vrf_randomness_with_enough_confirmations() {
    let account = vrf_account(Some(vec![7, 8, 9]), Some(2), Some(3));
    assert_eq!(account.get_verified_randomness(), Ok(vec![7, 8, 9]));
    let account = vrf_account(Some(vec![1]), Some(2), Some(2));
    assert_eq!(account.get_verified_randomness(), Ok(vec![1]));
}

#[test]
fn vrf_randomness_rejected_when_unconfirmed_or_missing() {
    let account = vrf_account(Some(vec![7, 8, 9]), Some(3), Some(2));
    assert_eq!(account.get_verified_randomness(), Err(ProgramError::InvalidAccountData));
    let account = vrf_account(None, Some(1), Some(2));
    assert_eq!(account.get_verified_randomness(), Err(ProgramError::InvalidAccountData));
    let account = vrf_account(Some(vec![1]), None, Some(2));
    assert_eq!(account.get_verified_randomness(), Err(ProgramError::InvalidAccountData));
    let account = vrf_account(Some(vec![1]), Some(1), None);
    assert_eq!(account.get_verified_randomness(), Err(ProgramError::InvalidAccountData));
}

#[test]
fn vrf_account_needs_vrf_tag() {
    assert!(VrfAccount::new(vec![1u8]).is_err());
    let bad = VrfAccount::new(vec![8u8, 0xff, 0xff]).ok().unwrap();
    assert_eq!(bad.get_verified_randomness(), Err(ProgramError::InvalidAccountData));
}

#[test]
fn field_running_past_its_message_is_rejected() {
    // a two-byte message whose version varint runs one byte past its end,
    // followed by an unknown eight-byte field
    assert_eq!(
        get_aggregator(&[0x01, 0x02, 0x08, 0x96, 0x01, 0x09]),
        Err(ProgramError::InvalidAccountData)
    );
    assert_eq!(
        get_aggregator(&[0x01, 0x08, 0x96, 0x01, 0x09]),
        Err(ProgramError::InvalidAccountData)
    );
    // a nested round whose length reaches past the aggregator
    assert_eq!(
        get_aggregator(&[0x01, 0x03, 0x32, 0x05, 0x08, 0x01, 0x10]),
        Err(ProgramError::InvalidAccountData)
    );
    let vrf = VrfAccount::new(vec![0x08, 0x02, 0x20, 0x96, 0x01, 0x09]).ok().unwrap();
    assert_eq!(vrf.get_verified_randomness(), Err(ProgramError::InvalidAccountData));
}

#[test]
fn unknown_fields_of_every_wire_type_are_skipped() {
    let body: Vec<u8> = vec![
        0x08, 0x05, // version 5
        0xA0, 0x06, 0x01, // field 100, varint
        0xA9, 0x06, 1, 2, 3, 4, 5, 6, 7, 8, // field 101, eight bytes
        0xB5, 0x06, 9, 9, 9, 9, // field 102, four bytes
        0xBA, 0x06, 0x02, 0xAA, 0xBB, // field 103, two bytes
        0x32, 0x02, 0x08, 0x14, // current round, 20 successes
    ];
    let mut data = vec![0x01, body.len() as u8];
    data.extend(&body);
    assert!(solend_liquidator::wire::aggregator_is_framed(&data[1..]));
    let decoded = get_aggregator(&data).unwrap();
    assert_eq!(decoded.version, Some(5));
    assert_eq!(decoded.current_round_result.unwrap().num_success, Some(20));
    // a group start (wire type 3) is refused by the reader
    assert_eq!(get_aggregator(&[0x01, 0x02, 0xA3, 0x06]), Err(ProgramError::InvalidAccountData));
}

#[test]
fn aggregator_with_every_field_decodes() {
    let mut aggregator = create_aggregator(round(20, 97.0), round(30, 100.0));
    aggregator.configs.as_mut().unwrap().schedule = Some("*/5 * * * *".to_string());
    aggregator.job_definition_pubkeys = vec![vec![1, 2, 3], vec![4]];
    aggregator.bundle_auth_addresses = vec![vec![9; 32]];
    aggregator.parse_optimized_result_address = Some(vec![7; 32]);
    aggregator.agreement = Some(
        switchboard_protos::protos::aggregator_state::FulfillmentAgreement {
            node_pubkeys: vec![vec![5; 32]],
            requested: Some(true),
        },
    );
    aggregator.last_round_result.as_mut().unwrap().medians = vec![1.5, 2.5];
    let mut data = vec![1u8];
    data.extend(quick_protobuf::serialize_into_vec(&aggregator).unwrap());
    assert_eq!(get_aggregator(&data).unwrap(), aggregator);
}
