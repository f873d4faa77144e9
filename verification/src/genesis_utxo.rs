//! The genesis treasury output: the project reserve paid once to the
//! treasury key.
use vstd::prelude::*;
use crate::bytes::{is_all_zero, push_bytes, push_u64_le, spec_all_zero, spec_u64_le};
use crate::crypto::{sha256, spec_sha256};
use crate::economy::{Economy, PROJECT_RESERVE_UNITS};
use crate::genesis::GenesisState;
use crate::utxo::{Utxo, UtxoId, UtxoKey, UtxoModel, UtxoSet};

verus! {

pub const TREASURY_PUBLIC_KEY_LENGTH: usize = 33;

/// Domain tag of the genesis treasury transaction identifier.
pub open spec fn genesis_treasury_tag() -> Seq<u8> {
    seq![
        78u8, 73, 79, 45, 71, 69, 78, 69, 83, 73, 83, 45, 84, 82, 69, 65, 83, 85, 82, 89, 45, 82, 69,
        83, 69, 82, 86, 69, 45, 86, 49,
    ]
}

/// Identifier of the genesis treasury transaction for a treasury key.
pub open spec fn spec_genesis_treasury_id(public_key: Seq<u8>) -> Seq<u8> {
    spec_sha256(genesis_treasury_tag() + public_key + spec_u64_le(PROJECT_RESERVE_UNITS))
}

/// A treasury key is 33 bytes and not all zeros.
pub open spec fn treasury_key_ok(public_key: Seq<u8>) -> bool {
    public_key.len() == TREASURY_PUBLIC_KEY_LENGTH && !spec_all_zero(public_key)
}

/// The genesis set: one output of the project reserve to the treasury key.
pub fn create_genesis_utxo(treasury_public_key: Vec<u8>) -> (r: Result<UtxoSet, String>)
    ensures
        r is Ok <==> treasury_key_ok(treasury_public_key@),
        r matches Ok(set) ==> set.wf() && set@ == Map::<UtxoKey, UtxoModel>::empty().insert(
            (spec_genesis_treasury_id(treasury_public_key@), 0u32),
            UtxoModel { amount: PROJECT_RESERVE_UNITS, recipient: treasury_public_key@ },
        ),
{
    let genesis = GenesisState::new();
    if !genesis.is_valid() {
        return Err(String::from_str("invalid NIO genesis policy"));
    }
    if treasury_public_key.len() != TREASURY_PUBLIC_KEY_LENGTH {
        return Err(String::from_str("treasury public key must be exactly 33 bytes"));
    }
    if is_all_zero(treasury_public_key.as_slice()) {
        return Err(String::from_str("treasury public key cannot be all zeros"));
    }
    let reserve_amount = Economy::project_reserve();
    let mining_cap = Economy::mining_cap();
    let total_supply = Economy::total_supply();
    if reserve_amount == 0 {
        return Err(String::from_str("treasury reserve cannot be zero"));
    }
    match reserve_amount.checked_add(mining_cap) {
        Some(v) => {
            if v != total_supply {
                return Err(String::from_str("genesis allocations do not equal total supply"));
            }
        },
        None => {
            return Err(String::from_str("genesis allocations do not equal total supply"));
        },
    }
    let tag: [u8; 31] = [
        78u8, 73, 79, 45, 71, 69, 78, 69, 83, 73, 83, 45, 84, 82, 69, 65, 83, 85, 82, 89, 45, 82, 69,
        83, 69, 82, 86, 69, 45, 86, 49,
    ];
    let mut data: Vec<u8> = Vec::new();
    push_bytes(&mut data, &tag);
    push_bytes(&mut data, treasury_public_key.as_slice());
    push_u64_le(&mut data, reserve_amount);
    assert(tag@ =~= genesis_treasury_tag());
    assert(data@ =~= genesis_treasury_tag() + treasury_public_key@ + spec_u64_le(PROJECT_RESERVE_UNITS));
    let transaction_id = sha256(data.as_slice());
    let ghost pk = treasury_public_key@;
    let treasury_utxo = Utxo {
        id: UtxoId { transaction_id, output_index: 0 },
        amount: reserve_amount,
        recipient: treasury_public_key,
    };
    let mut set = UtxoSet::new();
    match set.insert(treasury_utxo) {
        Ok(()) => {},
        Err(e) => {
            return Err(e);
        },
    }
    assert(set@ =~= Map::<UtxoKey, UtxoModel>::empty().insert(
        (spec_genesis_treasury_id(pk), 0u32),
        UtxoModel { amount: PROJECT_RESERVE_UNITS, recipient: pk },
    ));
    Ok(set)
}

/// Checks that a set is exactly the genesis treasury set for a key: one
/// output, paying the project reserve to the key.
pub fn validate_genesis_utxo(set: &UtxoSet, treasury_public_key: &[u8]) -> (r: Result<(), String>)
    requires
        set.wf(),
    ensures
        r is Ok <==> (treasury_key_ok(treasury_public_key@) && set@.len() == 1 && exists|k: UtxoKey|
            #[trigger] set@.contains_key(k) && set@[k] == (UtxoModel {
                amount: PROJECT_RESERVE_UNITS,
                recipient: treasury_public_key@,
            })),
{
    let genesis = GenesisState::new();
    if !genesis.is_valid() {
        return Err(String::from_str("invalid NIO genesis policy"));
    }
    if treasury_public_key.len() != TREASURY_PUBLIC_KEY_LENGTH {
        return Err(String::from_str("treasury public key must be exactly 33 bytes"));
    }
    if is_all_zero(treasury_public_key) {
        return Err(String::from_str("treasury public key cannot be all zeros"));
    }
    if set.len() != 1 {
        return Err(String::from_str("genesis UTXO set must contain exactly one treasury UTXO"));
    }
    let expected_amount = Economy::project_reserve();
    if !set.has_output(expected_amount, treasury_public_key) {
        return Err(String::from_str("100 NIO treasury genesis UTXO not found"));
    }
    Ok(())
}

/// The set that `create_genesis_utxo` makes for a key is one that
/// `validate_genesis_utxo` accepts for the same key.
pub proof fn lemma_created_genesis_validates(public_key: Seq<u8>)
    requires
        treasury_key_ok(public_key),
    ensures
        ({
            let m = Map::<UtxoKey, UtxoModel>::empty().insert(
                (spec_genesis_treasury_id(public_key), 0u32),
                UtxoModel { amount: PROJECT_RESERVE_UNITS, recipient: public_key },
            );
            &&& m.len() == 1
            &&& exists|k: UtxoKey| #[trigger] m.contains_key(k) && m[k] == (UtxoModel {
                amount: PROJECT_RESERVE_UNITS,
                recipient: public_key,
            })
        }),
{
    let k = (spec_genesis_treasury_id(public_key), 0u32);
    let m = Map::<UtxoKey, UtxoModel>::empty().insert(
        k,
        UtxoModel { amount: PROJECT_RESERVE_UNITS, recipient: public_key },
    );
    assert(m.dom() =~= Set::<UtxoKey>::empty().insert(k));
    assert(m.contains_key(k));
}

} // verus!
