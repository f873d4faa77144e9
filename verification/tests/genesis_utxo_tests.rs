use nio_blockchain::economy::{Economy};
use nio_blockchain::genesis_utxo::{TREASURY_PUBLIC_KEY_LENGTH, create_genesis_utxo, validate_genesis_utxo};

fn treasury_public_key() -> Vec<u8> {
    // Placeholder valid-length key for UTXO-layer tests.
    // Cryptographic public-key validation will be added
    // in the transaction/signature layer.
    let mut key = vec![0u8; TREASURY_PUBLIC_KEY_LENGTH];
    key[0] = 0x02;
    key[1] = 0x01;
    key
}

#[test]
fn genesis_creates_treasury_reserve() {
    let key = treasury_public_key();

    let set = create_genesis_utxo(key.clone()).expect("genesis UTXO should be created");

    assert_eq!(set.len(), 1);

    let utxo = set.iter().next().expect("treasury UTXO must exist");

    assert_eq!(utxo.amount, Economy::project_reserve());

    assert_eq!(utxo.amount, 100 * nio_blockchain::economy::UNITS_PER_NIO);

    assert_eq!(utxo.recipient, key);
}

#[test]
fn treasury_reserve_is_exactly_100_nio() {
    let set =
        create_genesis_utxo(treasury_public_key()).expect("genesis UTXO should be created");

    let utxo = set.iter().next().unwrap();

    assert_eq!(utxo.amount, 100 * nio_blockchain::economy::UNITS_PER_NIO);
}

#[test]
fn genesis_utxo_is_valid() {
    let key = treasury_public_key();

    let set = create_genesis_utxo(key.clone()).expect("genesis UTXO should be created");

    assert!(validate_genesis_utxo(&set, &key).is_ok());
}

#[test]
fn mining_cap_remains_900_nio() {
    assert_eq!(Economy::mining_cap(), 900 * nio_blockchain::economy::UNITS_PER_NIO);
}

#[test]
fn treasury_plus_mining_equals_total() {
    assert_eq!(
        Economy::project_reserve() + Economy::mining_cap(),
        Economy::total_supply()
    );
}

#[test]
fn invalid_public_key_length_is_rejected() {
    assert!(create_genesis_utxo(vec![1u8; 32]).is_err());
}

#[test]
fn zero_public_key_is_rejected() {
    assert!(create_genesis_utxo(vec![0u8; TREASURY_PUBLIC_KEY_LENGTH]).is_err());
}
