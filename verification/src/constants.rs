//! Program and oracle addresses the liquidator recognises.

use crate::lending::Pubkey;
use vstd::prelude::*;

verus! {

/// Bytes of the placeholder address a reserve names when it has no Pyth
/// price account (`nu11111111111111111111111111111111111111111`).
pub open spec fn null_oracle_bytes() -> Seq<u8> {
    seq![
        11u8, 193, 238, 216, 208, 116, 241, 195, 55, 212, 76, 22, 75, 202, 40, 216,
        76, 206, 27, 169, 138, 64, 177, 28, 19, 90, 156, 0, 0, 0, 0, 0,
    ]
}

/// Bytes of the first Switchboard program
/// (`DtmE9D2CSB4L5D6A15mraeEjrGMm6auWVzgaD8hK2tZM`).
pub open spec fn switchboard_v1_bytes() -> Seq<u8> {
    seq![
        191u8, 142, 223, 28, 148, 107, 86, 187, 67, 210, 95, 152, 184, 123, 107, 229,
        17, 23, 48, 10, 97, 38, 26, 249, 249, 249, 78, 237, 122, 90, 128, 136,
    ]
}

/// Bytes of the second Switchboard program
/// (`SW1TCH7qEPTdLsDHRgPuMQjbQxKdH2aBStViMFnt64f`).
pub open spec fn switchboard_v2_bytes() -> Seq<u8> {
    seq![
        6u8, 136, 81, 198, 140, 104, 50, 240, 47, 165, 129, 177, 191, 73, 27, 119,
        202, 65, 119, 107, 162, 185, 136, 181, 166, 250, 186, 142, 227, 162, 236, 144,
    ]
}

/// Bytes of the lending program
/// (`So1endDq2YkqhipRh3WViPa8hdiSpxWy6z3Z6tMCpAo`).
pub open spec fn solend_program_bytes() -> Seq<u8> {
    seq![
        6u8, 155, 139, 152, 90, 171, 83, 42, 69, 9, 13, 232, 85, 127, 205, 220,
        190, 108, 183, 239, 199, 58, 10, 101, 176, 111, 146, 3, 93, 183, 62, 236,
    ]
}

/// The placeholder address of a missing Pyth price account.
pub fn null_oracle() -> (r: Pubkey)
    ensures
        r@ == null_oracle_bytes(),
{
    let r = Pubkey(
        [
            11, 193, 238, 216, 208, 116, 241, 195, 55, 212, 76, 22, 75, 202, 40, 216, 76, 206,
            27, 169, 138, 64, 177, 28, 19, 90, 156, 0, 0, 0, 0, 0,
        ],
    );
    assert(r@ =~= null_oracle_bytes());
    r
}

/// The first Switchboard program.
pub fn switchboard_v1_address() -> (r: Pubkey)
    ensures
        r@ == switchboard_v1_bytes(),
{
    let r = Pubkey(
        [
            191, 142, 223, 28, 148, 107, 86, 187, 67, 210, 95, 152, 184, 123, 107, 229, 17, 23,
            48, 10, 97, 38, 26, 249, 249, 249, 78, 237, 122, 90, 128, 136,
        ],
    );
    assert(r@ =~= switchboard_v1_bytes());
    r
}

/// The second Switchboard program.
pub fn switchboard_v2_address() -> (r: Pubkey)
    ensures
        r@ == switchboard_v2_bytes(),
{
    let r = Pubkey(
        [
            6, 136, 81, 198, 140, 104, 50, 240, 47, 165, 129, 177, 191, 73, 27, 119, 202, 65,
            119, 107, 162, 185, 136, 181, 166, 250, 186, 142, 227, 162, 236, 144,
        ],
    );
    assert(r@ =~= switchboard_v2_bytes());
    r
}

/// The lending program.
pub fn solend_program_id() -> (r: Pubkey)
    ensures
        r@ == solend_program_bytes(),
{
    let r = Pubkey(
        [
            6, 155, 139, 152, 90, 171, 83, 42, 69, 9, 13, 232, 85, 127, 205, 220, 190, 108, 183,
            239, 199, 58, 10, 101, 176, 111, 146, 3, 93, 183, 62, 236,
        ],
    );
    assert(r@ =~= solend_program_bytes());
    r
}

} // verus!
