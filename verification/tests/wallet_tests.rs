use nio_blockchain::keys::{SecretKey};
use nio_blockchain::transaction::{Transaction, TransactionInput, TransactionOutput};
use nio_blockchain::utxo::{Utxo, UtxoId, UtxoSet};
use nio_blockchain::wallet::{Wallet};

fn test_secret_key() -> SecretKey {
    SecretKey::from_slice(&[1u8; 32]).expect("test secret key must be valid")
}

fn make_transaction() -> Transaction {
    Transaction::new(
        1,
        vec![TransactionInput {
            previous_output: [7u8; 32],
            output_index: 0,
            public_key: Vec::new(),
            signature: Vec::new(),
        }],
        vec![TransactionOutput {
            amount: 900,
            recipient: vec![2u8; 33],
        }],
        100,
    )
}

// ------------------------------------------------------------
// WALLET CREATION
// ------------------------------------------------------------

#[test]
fn wallet_can_be_created() {
    let wallet = Wallet::new().expect("wallet creation should succeed");

    assert_eq!(wallet.secret_key().secret_bytes().len(), 32);
}

#[test]
fn two_wallets_have_different_keys() {
    let wallet1 = Wallet::new().expect("wallet 1 should be created");

    let wallet2 = Wallet::new().expect("wallet 2 should be created");

    assert_ne!(
        wallet1.secret_key().secret_bytes(),
        wallet2.secret_key().secret_bytes()
    );
}

// ------------------------------------------------------------
// PUBLIC KEY
// ------------------------------------------------------------

#[test]
fn public_key_is_33_bytes() {
    let wallet = Wallet::from_secret_key(test_secret_key());

    assert_eq!(wallet.public_key_bytes().len(), 33);
}

#[test]
fn same_secret_key_produces_same_public_key() {
    let wallet1 = Wallet::from_secret_key(test_secret_key());

    let wallet2 = Wallet::from_secret_key(test_secret_key());

    assert_eq!(wallet1.public_key_bytes(), wallet2.public_key_bytes());
}

// ------------------------------------------------------------
// ADDRESS
// ------------------------------------------------------------

#[test]
fn address_starts_with_nio_prefix() {
    let wallet = Wallet::from_secret_key(test_secret_key());

    assert!(wallet.address().starts_with("NIO1"));
}

#[test]
fn same_key_produces_same_address() {
    let wallet1 = Wallet::from_secret_key(test_secret_key());

    let wallet2 = Wallet::from_secret_key(test_secret_key());

    assert_eq!(wallet1.address(), wallet2.address());
}

#[test]
fn different_keys_produce_different_addresses() {
    let wallet1 = Wallet::from_secret_key(test_secret_key());

    let wallet2 = Wallet::new().expect("wallet should be created");

    assert_ne!(wallet1.address(), wallet2.address());
}

// ------------------------------------------------------------
// TRANSACTION SIGNING
// ------------------------------------------------------------

#[test]
fn wallet_can_sign_transaction() {
    let wallet = Wallet::from_secret_key(test_secret_key());

    let mut tx = make_transaction();

    wallet
        .sign_transaction(&mut tx, 0)
        .expect("transaction should be signed");

    assert!(tx.verify_input(0).expect("verification should work"));
}

#[test]
fn wallet_can_sign_all_inputs() {
    let wallet = Wallet::from_secret_key(test_secret_key());

    let mut tx = Transaction::new(
        1,
        vec![
            TransactionInput {
                previous_output: [7u8; 32],
                output_index: 0,
                public_key: Vec::new(),
                signature: Vec::new(),
            },
            TransactionInput {
                previous_output: [8u8; 32],
                output_index: 0,
                public_key: Vec::new(),
                signature: Vec::new(),
            },
        ],
        vec![TransactionOutput {
            amount: 1800,
            recipient: vec![2u8; 33],
        }],
        200,
    );

    wallet
        .sign_transaction_all(&mut tx)
        .expect("all inputs should be signed");

    assert!(tx
        .verify_input(0)
        .expect("first input verification should work"));

    assert!(tx
        .verify_input(1)
        .expect("second input verification should work"));
}

// ------------------------------------------------------------
// BALANCE
// ------------------------------------------------------------

#[test]
fn wallet_balance_is_calculated_from_utxos() {
    let wallet = Wallet::from_secret_key(test_secret_key());

    let recipient = wallet.public_key_bytes();

    let mut set = UtxoSet::new();

    set.insert(Utxo {
        id: UtxoId {
            transaction_id: [1u8; 32],
            output_index: 0,
        },
        amount: 400,
        recipient: recipient.clone(),
    })
    .expect("UTXO insertion should succeed");

    set.insert(Utxo {
        id: UtxoId {
            transaction_id: [2u8; 32],
            output_index: 0,
        },
        amount: 600,
        recipient,
    })
    .expect("UTXO insertion should succeed");

    assert_eq!(wallet.balance(&set), 1000);
}

#[test]
fn wallet_does_not_count_other_addresses() {
    let wallet = Wallet::from_secret_key(test_secret_key());

    let mut set = UtxoSet::new();

    set.insert(Utxo {
        id: UtxoId {
            transaction_id: [1u8; 32],
            output_index: 0,
        },
        amount: 1000,
        recipient: vec![9u8; 33],
    })
    .expect("UTXO insertion should succeed");

    assert_eq!(wallet.balance(&set), 0);
}

#[test]
fn signing_changes_only_the_signed_input() {
    let wallet = Wallet::from_secret_key(test_secret_key());
    let original = make_transaction();
    let mut tx = original.clone();
    wallet.sign_transaction(&mut tx, 0).expect("sign");
    assert_eq!(tx.version, original.version);
    assert_eq!(tx.fee, original.fee);
    assert_eq!(tx.outputs, original.outputs);
    assert_eq!(tx.inputs[0].previous_output, original.inputs[0].previous_output);
    assert_eq!(tx.inputs[0].public_key, wallet.public_key_bytes());
    assert_eq!(tx.inputs[0].signature.len(), 64);
    assert_eq!(tx.verify_input(0), Ok(true));

    let mut all = original.clone();
    wallet.sign_transaction_all(&mut all).expect("sign all");
    assert_eq!(all, tx);
}

#[test]
fn secret_keys_must_lie_between_zero_and_the_group_order() {
    let order: [u8; 32] = [
        0xFF, 0xFF, 0xFF, 0xFF, 0xFF, 0xFF, 0xFF, 0xFF, 0xFF, 0xFF, 0xFF, 0xFF, 0xFF, 0xFF, 0xFF, 0xFE,
        0xBA, 0xAE, 0xDC, 0xE6, 0xAF, 0x48, 0xA0, 0x3B, 0xBF, 0xD2, 0x5E, 0x8C, 0xD0, 0x36, 0x41, 0x41,
    ];
    let mut below = order;
    below[31] = 0x40;
    assert!(SecretKey::from_slice(&[0u8; 32]).is_err());
    assert!(SecretKey::from_slice(&order).is_err());
    assert!(SecretKey::from_slice(&[0xFFu8; 32]).is_err());
    assert!(SecretKey::from_slice(&below).is_ok());
    assert!(SecretKey::from_slice(&[1u8; 32]).is_ok());
    assert!(SecretKey::from_slice(&[1u8; 31]).is_err());
}
