//! Reading Switchboard (v1) feed accounts: aggregator rounds, bundles and
//! VRF accounts. The account formats are protobuf messages decoded by
//! `quick_protobuf` into `switchboard_protos` types; the first byte of an
//! account tells its kind.

use switchboard_protos::protos::aggregator_state::{AggregatorState, RoundResult};
use switchboard_protos::protos::switchboard_account_types::SwitchboardAccountType;
use switchboard_protos::protos::vrf::VrfAccountData;
use crate::wire::{aggregator_framed, aggregator_is_framed, vrf_framed, vrf_is_framed};
use vstd::prelude::*;

verus! {

#[verifier::external_type_specification]
#[verifier::external_body]
pub struct ExAggregatorState(AggregatorState);

#[verifier::external_type_specification]
#[verifier::external_body]
pub struct ExRoundResult(RoundResult);

#[verifier::external_type_specification]
#[verifier::external_body]
pub struct ExVrfAccountData(VrfAccountData);

/// Why an account could not be read.
#[derive(Clone, Copy, Debug, PartialEq, Eq, Structural)]
pub enum ProgramError {
    /// The account is not of the expected kind or does not decode.
    InvalidAccountData,
}

/// The current round of an aggregator, if it has one.
pub uninterp spec fn current_round(aggregator: AggregatorState) -> Option<RoundResult>;

/// The last round of an aggregator, if it has one.
pub uninterp spec fn last_round(aggregator: AggregatorState) -> Option<RoundResult>;

/// How many oracles answered the aggregator's current round (outer `None`:
/// no current round; inner `None`: the count is not recorded).
pub uninterp spec fn current_round_successes(aggregator: AggregatorState) -> Option<Option<i32>>;

/// The aggregator's required number of confirmations (outer `None`: the
/// aggregator has no configuration; inner `None`: no minimum recorded).
pub uninterp spec fn configured_min_confirmations(aggregator: AggregatorState) -> Option<
    Option<i32>,
>;

/// The aggregator a byte string decodes to as a protobuf message.
pub uninterp spec fn decoded_aggregator(bytes: Seq<u8>) -> Option<AggregatorState>;

/// The VRF account a byte string decodes to as a protobuf message.
pub uninterp spec fn decoded_vrf(bytes: Seq<u8>) -> Option<VrfAccountData>;

/// The randomness held by a VRF account, if any.
pub uninterp spec fn vrf_value(data: VrfAccountData) -> Option<Seq<u8>>;

/// The confirmations a VRF account requires, if recorded.
pub uninterp spec fn vrf_min_confirmations(data: VrfAccountData) -> Option<i32>;

/// The confirmations a VRF account has, if recorded.
pub uninterp spec fn vrf_num_confirmations(data: VrfAccountData) -> Option<i32>;

/// Reads the field `current_round_result` of an `AggregatorState` (a
/// reference to it, no copy).
#[verifier::external_body]
fn current_round_of(aggregator: &AggregatorState) -> (r: Option<&RoundResult>)
    ensures
        r is Some <==> current_round(*aggregator) is Some,
        r matches Some(x) ==> *x == current_round(*aggregator).unwrap(),
{
    aggregator.current_round_result.as_ref()
}

/// Reads the field `last_round_result` of an `AggregatorState`.
#[verifier::external_body]
fn last_round_of(aggregator: &AggregatorState) -> (r: Option<&RoundResult>)
    ensures
        r is Some <==> last_round(*aggregator) is Some,
        r matches Some(x) ==> *x == last_round(*aggregator).unwrap(),
{
    aggregator.last_round_result.as_ref()
}

/// Reads `num_success` of the current round of an `AggregatorState`; the
/// result is `None` exactly when there is no current round.
#[verifier::external_body]
fn current_round_successes_of(aggregator: &AggregatorState) -> (r: Option<Option<i32>>)
    ensures
        r == current_round_successes(*aggregator),
        r is Some <==> current_round(*aggregator) is Some,
{
    aggregator.current_round_result.as_ref().map(|round| round.num_success)
}

/// Reads `min_confirmations` of the configuration of an `AggregatorState`;
/// the result is `None` exactly when there is no configuration.
#[verifier::external_body]
fn min_confirmations_of(aggregator: &AggregatorState) -> (r: Option<Option<i32>>)
    ensures
        r == configured_min_confirmations(*aggregator),
{
    aggregator.configs.as_ref().map(|configs| configs.min_confirmations)
}

/// `quick_protobuf::deserialize_from_slice` into an `AggregatorState`:
/// `None` when the bytes do not decode. It is called on framed bytes only
/// (`aggregator_framed`: every field lies inside the message holding it).
/// On those the reader never moves past a message's end, so the subtraction
/// `end - start` in its `read_unknown` cannot underflow and the call returns
/// (the reader's position sums stay far below a 64-bit `usize`). On bytes
/// that are not framed the reader never returns `Ok`: it errs, or it
/// underflows there.
#[verifier::external_body]
fn decode_aggregator(bytes: &[u8]) -> (r: Option<AggregatorState>)
    requires
        aggregator_framed(bytes@),
    ensures
        r == decoded_aggregator(bytes@),
{
    quick_protobuf::deserialize_from_slice::<AggregatorState>(bytes).ok()
}

/// `quick_protobuf::deserialize_from_slice` into a `VrfAccountData`:
/// `None` when the bytes do not decode. It is called on framed bytes only
/// (`vrf_framed`), on which the reader cannot underflow, as for
/// `decode_aggregator`.
#[verifier::external_body]
fn decode_vrf(bytes: &[u8]) -> (r: Option<VrfAccountData>)
    requires
        vrf_framed(bytes@),
    ensures
        r == decoded_vrf(bytes@),
{
    quick_protobuf::deserialize_from_slice::<VrfAccountData>(bytes).ok()
}

/// Reads the field `value` of a `VrfAccountData` (a copy of the bytes).
#[verifier::external_body]
fn vrf_value_of(data: &VrfAccountData) -> (r: Option<Vec<u8>>)
    ensures
        r is Some <==> vrf_value(*data) is Some,
        r matches Some(v) ==> v@ == vrf_value(*data).unwrap(),
{
    data.value.clone()
}

/// Reads the field `min_proof_confirmations` of a `VrfAccountData`.
#[verifier::external_body]
fn vrf_min_confirmations_of(data: &VrfAccountData) -> (r: Option<i32>)
    ensures
        r == vrf_min_confirmations(*data),
{
    data.min_proof_confirmations
}

/// Reads the field `num_proof_confirmations` of a `VrfAccountData`.
#[verifier::external_body]
fn vrf_num_confirmations_of(data: &VrfAccountData) -> (r: Option<i32>)
    ensures
        r == vrf_num_confirmations(*data),
{
    data.num_proof_confirmations
}

/// The tag byte of aggregator accounts, `SwitchboardAccountType::TYPE_AGGREGATOR`
/// (1 in the crate's source).
#[verifier::external_body]
fn aggregator_tag() -> (r: u8)
    ensures
        r == 1,
{
    SwitchboardAccountType::TYPE_AGGREGATOR as u8
}

/// The tag byte of bundle accounts, `SwitchboardAccountType::TYPE_BUNDLE`
/// (6 in the crate's source).
#[verifier::external_body]
fn bundle_tag() -> (r: u8)
    ensures
        r == 6,
{
    SwitchboardAccountType::TYPE_BUNDLE as u8
}

/// The tag byte of VRF accounts, `SwitchboardAccountType::TYPE_VRF` (8 in
/// the crate's source).
#[verifier::external_body]
fn vrf_tag() -> (r: u8)
    ensures
        r == 8,
{
    SwitchboardAccountType::TYPE_VRF as u8
}

/// `a < b` for optional counts, where a missing count is below every count.
pub open spec fn option_lt(a: Option<i32>, b: Option<i32>) -> bool {
    match (a, b) {
        (None, Some(_)) => true,
        (Some(x), Some(y)) => x < y,
        _ => false,
    }
}

fn option_i32_lt(a: Option<i32>, b: Option<i32>) -> (r: bool)
    ensures
        r == option_lt(a, b),
{
    match (a, b) {
        (None, Some(_)) => true,
        (Some(x), Some(y)) => x < y,
        _ => false,
    }
}

/// Whether the aggregator's current round may be used: false without a
/// current round; an error without a configuration; otherwise true unless
/// fewer oracles answered than the configuration requires.
pub open spec fn spec_current_round_valid(aggregator: AggregatorState) -> Result<bool, ProgramError> {
    match current_round_successes(aggregator) {
        None => Ok(false),
        Some(successes) => match configured_min_confirmations(aggregator) {
            None => Err(ProgramError::InvalidAccountData),
            Some(min) => Ok(!option_lt(successes, min)),
        },
    }
}

/// Returns whether the current open round is considered valid for usage.
pub fn is_current_round_valid(aggregator: &AggregatorState) -> (r: Result<bool, ProgramError>)
    ensures
        r == spec_current_round_valid(*aggregator),
        r == Ok::<bool, ProgramError>(true) ==> current_round(*aggregator) is Some,
{
    let successes = match current_round_successes_of(aggregator) {
        None => {
            return Ok(false);
        },
        Some(s) => s,
    };
    let min = match min_confirmations_of(aggregator) {
        None => {
            return Err(ProgramError::InvalidAccountData);
        },
        Some(m) => m,
    };
    if option_i32_lt(successes, min) {
        return Ok(false);
    }
    Ok(true)
}

/// Given the data of a Switchboard feed account, parses the aggregator
/// state: the account must start with the aggregator tag, and the rest must
/// be a framed protobuf message that decodes.
pub fn get_aggregator(data: &[u8]) -> (r: Result<AggregatorState, ProgramError>)
    ensures
        data@.len() == 0 || data@[0] != 1 ==> r == Err::<AggregatorState, ProgramError>(
            ProgramError::InvalidAccountData,
        ),
        data@.len() > 0 && data@[0] == 1 && !aggregator_framed(data@.drop_first()) ==> r == Err::<
            AggregatorState,
            ProgramError,
        >(ProgramError::InvalidAccountData),
        data@.len() > 0 && data@[0] == 1 && aggregator_framed(data@.drop_first()) ==> match decoded_aggregator(data@.drop_first()) {
            Some(a) => r == Ok::<AggregatorState, ProgramError>(a),
            None => r == Err::<AggregatorState, ProgramError>(ProgramError::InvalidAccountData),
        },
{
    if data.len() == 0 || data[0] != aggregator_tag() {
        return Err(ProgramError::InvalidAccountData);
    }
    let rest = slice_from_one(data);
    if !aggregator_is_framed(rest) {
        return Err(ProgramError::InvalidAccountData);
    }
    match decode_aggregator(rest) {
        Some(a) => Ok(a),
        None => Err(ProgramError::InvalidAccountData),
    }
}

/// Everything after the first byte.
fn slice_from_one(data: &[u8]) -> (r: &[u8])
    requires
        data@.len() > 0,
    ensures
        r@ == data@.drop_first(),
{
    let (_head, rest) = data.split_at(1);
    assert(rest@ =~= data@.drop_first());
    rest
}

/// The round an aggregator's result is read from: the current one when it
/// is valid, the last one otherwise.
pub open spec fn spec_aggregator_result(aggregator: AggregatorState) -> Result<
    RoundResult,
    ProgramError,
> {
    match spec_current_round_valid(aggregator) {
        Err(e) => Err(e),
        Ok(true) => match current_round(aggregator) {
            Some(r) => Ok(r),
            None => Err(ProgramError::InvalidAccountData),
        },
        Ok(false) => match last_round(aggregator) {
            Some(r) => Ok(r),
            None => Err(ProgramError::InvalidAccountData),
        },
    }
}

/// Returns the most recent resolution round that is considered valid for
/// the aggregator.
pub fn get_aggregator_result(aggregator: &AggregatorState) -> (r: Result<&RoundResult, ProgramError>)
    ensures
        spec_current_round_valid(*aggregator) == Ok::<bool, ProgramError>(true) ==> r is Ok
            && *r->Ok_0 == current_round(*aggregator).unwrap(),
        match spec_aggregator_result(*aggregator) {
            Ok(round) => r is Ok && *r->Ok_0 == round,
            Err(e) => r == Err::<&RoundResult, ProgramError>(e),
        },
{
    let mut maybe_round = current_round_of(aggregator);
    if !is_current_round_valid(aggregator)? {
        maybe_round = last_round_of(aggregator);
    }
    match maybe_round {
        Some(round) => Ok(round),
        None => Err(ProgramError::InvalidAccountData),
    }
}

/// A Switchboard bundle account (its data).
pub struct BundleAccount {
    data: Vec<u8>,
}

impl BundleAccount {
    /// The account's data.
    pub closed spec fn data(&self) -> Seq<u8> {
        self.data@
    }

    /// Accepts account data that starts with the bundle tag.
    pub fn new(data: Vec<u8>) -> (r: Result<BundleAccount, ProgramError>)
        ensures
            r is Ok <==> data@.len() > 0 && data@[0] == 6,
            r matches Ok(b) ==> b.data() == data@,
            r matches Err(e) ==> e == ProgramError::InvalidAccountData,
    {
        if data.len() == 0 || data[0] != bundle_tag() {
            return Err(ProgramError::InvalidAccountData);
        }
        Ok(BundleAccount { data })
    }
}

/// A Switchboard VRF account (its data, which starts with the VRF tag).
pub struct VrfAccount {
    data: Vec<u8>,
}

impl VrfAccount {
    #[verifier::type_invariant]
    spec fn tagged(self) -> bool {
        self.data@.len() > 0
    }

    /// The account's data.
    pub closed spec fn data(&self) -> Seq<u8> {
        self.data@
    }

    /// Accepts account data that starts with the VRF tag.
    pub fn new(data: Vec<u8>) -> (r: Result<VrfAccount, ProgramError>)
        ensures
            r is Ok <==> data@.len() > 0 && data@[0] == 8,
            r matches Ok(v) ==> v.data() == data@,
            r matches Err(e) ==> e == ProgramError::InvalidAccountData,
    {
        if data.len() == 0 || data[0] != vrf_tag() {
            return Err(ProgramError::InvalidAccountData);
        }
        Ok(VrfAccount { data })
    }

    /// Returns the current verified randomness value held in the account;
    /// fails when the account is not a framed protobuf message or does not
    /// decode, holds no randomness, lacks either confirmation count, or has
    /// fewer proof confirmations than required.
    pub fn get_verified_randomness(&self) -> (r: Result<Vec<u8>, ProgramError>)
        ensures
            !vrf_framed(self.data().drop_first()) ==> r == Err::<Vec<u8>, ProgramError>(
                ProgramError::InvalidAccountData,
            ),
            vrf_framed(self.data().drop_first()) ==> match decoded_vrf(self.data().drop_first()) {
                None => r == Err::<Vec<u8>, ProgramError>(ProgramError::InvalidAccountData),
                Some(state) => match (
                    vrf_value(state),
                    vrf_min_confirmations(state),
                    vrf_num_confirmations(state),
                ) {
                    (Some(value), Some(min), Some(num)) => if num < min {
                        r == Err::<Vec<u8>, ProgramError>(ProgramError::InvalidAccountData)
                    } else {
                        r is Ok && r->Ok_0@ == value
                    },
                    _ => r == Err::<Vec<u8>, ProgramError>(ProgramError::InvalidAccountData),
                },
            },
    {
        proof {
            use_type_invariant(self);
        }
        let rest = slice_from_one(self.data.as_slice());
        if !vrf_is_framed(rest) {
            return Err(ProgramError::InvalidAccountData);
        }
        let state = match decode_vrf(rest) {
            Some(s) => s,
            None => {
                return Err(ProgramError::InvalidAccountData);
            },
        };
        let value = match vrf_value_of(&state) {
            Some(v) => v,
            None => {
                return Err(ProgramError::InvalidAccountData);
            },
        };
        let min_confirmations = match vrf_min_confirmations_of(&state) {
            Some(m) => m,
            None => {
                return Err(ProgramError::InvalidAccountData);
            },
        };
        let num_confirmations = match vrf_num_confirmations_of(&state) {
            Some(n) => n,
            None => {
                return Err(ProgramError::InvalidAccountData);
            },
        };
        if num_confirmations < min_confirmations {
            return Err(ProgramError::InvalidAccountData);
        }
        Ok(value)
    }
}

} // verus!
