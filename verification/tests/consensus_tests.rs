use nio_blockchain::block::{Block};
use nio_blockchain::consensus::{ConsensusValidator};
use nio_blockchain::economy::{Economy, INITIAL_REWARD_UNITS};
use nio_blockchain::keys::{SecretKey};
use nio_blockchain::transaction::{Transaction, TransactionInput, TransactionOutput};
use nio_blockchain::utxo::{UtxoSet};

fn empty_utxos() -> UtxoSet {
    UtxoSet::new()
}

fn tx(value: u8) -> Transaction {
    Transaction::new(
        1,
        vec![TransactionInput {
            previous_output: [value; 32],
            output_index: 0,
            public_key: Vec::new(),
            signature: Vec::new(),
        }],
        vec![TransactionOutput {
            amount: 100,
            recipient: vec![2u8; 33],
        }],
        0,
    )
}

// ------------------------------------------------------------
// VALID HEADER
// ------------------------------------------------------------

#[test]
fn valid_header_is_accepted() {
    let previous_hash = [7u8; 32];

    let block = Block::new(1, 1, previous_hash, 1_000, 1, 0, INITIAL_REWARD_UNITS);

    assert!(ConsensusValidator::validate_header(&block, previous_hash, 1).is_ok());
}

// ------------------------------------------------------------
// WRONG HEIGHT
// ------------------------------------------------------------

#[test]
fn wrong_height_is_rejected() {
    let previous_hash = [7u8; 32];

    let block = Block::new(1, 5, previous_hash, 1_000, 1, 0, INITIAL_REWARD_UNITS);

    assert!(
        ConsensusValidator::validate_block(&block, previous_hash, 1, 0, &empty_utxos(),)
            .is_err()
    );
}

// ------------------------------------------------------------
// WRONG PREVIOUS HASH
// ------------------------------------------------------------

#[test]
fn wrong_previous_hash_is_rejected() {
    let block = Block::new(1, 1, [8u8; 32], 1_000, 1, 0, INITIAL_REWARD_UNITS);

    assert!(
        ConsensusValidator::validate_block(&block, [7u8; 32], 1, 0, &empty_utxos(),).is_err()
    );
}

// ------------------------------------------------------------
// VALID EMPTY BLOCK
// ------------------------------------------------------------

#[test]
fn valid_empty_block_is_accepted() {
    let previous_hash = [7u8; 32];

    let mut block = Block::new(1, 1, previous_hash, 1_000, 1, 0, INITIAL_REWARD_UNITS);

    // Mine the test block so its proof-of-work is actually valid.
    nio_blockchain::mining::Miner::mine(&mut block).expect("test block should be mineable");

    let result =
        ConsensusValidator::validate_block(&block, previous_hash, 1, 0, &empty_utxos());

    assert!(result.is_ok(), "CONSENSUS ERROR: {:?}", result);
    assert_eq!(result.unwrap(), 0);
}

// ------------------------------------------------------------
// EXCESSIVE REWARD
// ------------------------------------------------------------

#[test]
fn consensus_excessive_reward_is_rejected() {
    let previous_hash = [7u8; 32];

    let block = Block::new(1, 1, previous_hash, 1_000, 1, 0, INITIAL_REWARD_UNITS + 1);

    assert!(
        ConsensusValidator::validate_block(&block, previous_hash, 1, 0, &empty_utxos(),)
            .is_err()
    );
}

// ------------------------------------------------------------
// INVALID MERKLE ROOT
// ------------------------------------------------------------

#[test]
fn consensus_invalid_merkle_root_is_rejected() {
    let previous_hash = [7u8; 32];

    let mut block = Block::new(1, 1, previous_hash, 1_000, 1, 0, INITIAL_REWARD_UNITS);

    block.header.merkle_root = [9u8; 32];

    assert!(
        ConsensusValidator::validate_block(&block, previous_hash, 1, 0, &empty_utxos(),)
            .is_err()
    );
}

// ------------------------------------------------------------
// SUPPLY CAP
// ------------------------------------------------------------

#[test]
fn supply_above_cap_is_rejected() {
    let previous_hash = [7u8; 32];

    let block = Block::new(1, 1, previous_hash, 1_000, 1, 0, 0);

    let result = ConsensusValidator::validate_block(
        &block,
        previous_hash,
        1,
        Economy::mining_cap() + 1,
        &empty_utxos(),
    );

    assert!(result.is_err());
}

// ------------------------------------------------------------
// TRANSACTION VALIDATION
// ------------------------------------------------------------

#[test]
fn consensus_invalid_transaction_is_rejected() {
    let previous_hash = [7u8; 32];

    let transaction = tx(1);

    let block = Block::new_with_transactions(
        1,
        1,
        previous_hash,
        1_000,
        1,
        0,
        INITIAL_REWARD_UNITS,
        vec![transaction],
    );

    assert!(
        ConsensusValidator::validate_block(&block, previous_hash, 1, 0, &empty_utxos(),)
            .is_err()
    );
}

// ------------------------------------------------------------
// 8.4 BLOCK-LEVEL DOUBLE SPEND
// ------------------------------------------------------------

#[test]
fn double_spend_inside_same_block_is_rejected() {
    let previous_hash = [7u8; 32];

    let secret_key = SecretKey::from_slice(&[1u8; 32]).expect("valid secret key");

    let public_key = pk_of(&secret_key)
        .serialize()
        .to_vec();

    let previous_output = [1u8; 32];

    let mut utxos = UtxoSet::new();

    utxos
        .insert(nio_blockchain::utxo::Utxo {
            id: nio_blockchain::utxo::UtxoId {
                transaction_id: previous_output,
                output_index: 0,
            },
            amount: 1_000,
            recipient: public_key.clone(),
        })
        .expect("UTXO insert");

    let mut tx1 = Transaction::new(
        1,
        vec![TransactionInput {
            previous_output,
            output_index: 0,
            public_key: Vec::new(),
            signature: Vec::new(),
        }],
        vec![TransactionOutput {
            amount: 900,
            recipient: public_key.clone(),
        }],
        100,
    );

    tx1.sign_input(0, &secret_key).expect("tx1 should sign");

    let mut tx2 = Transaction::new(
        1,
        vec![TransactionInput {
            previous_output,
            output_index: 0,
            public_key: Vec::new(),
            signature: Vec::new(),
        }],
        vec![TransactionOutput {
            amount: 800,
            recipient: public_key,
        }],
        200,
    );

    tx2.sign_input(0, &secret_key).expect("tx2 should sign");

    let mut block = Block::new_with_transactions(
        1,
        1,
        previous_hash,
        1_000,
        1,
        0,
        INITIAL_REWARD_UNITS + 100 + 200,
        vec![tx1, tx2],
    );

    nio_blockchain::mining::Miner::mine(&mut block).expect("block should be mineable");

    let result = ConsensusValidator::validate_block(&block, previous_hash, 1, 0, &utxos);

    assert!(
        result.is_err(),
        "double spend inside block must be rejected"
    );
}

// ------------------------------------------------------------
// 8.4 INVALID TOTAL FEE
// ------------------------------------------------------------

#[test]
fn incorrect_total_miner_reward_is_rejected() {
    let previous_hash = [7u8; 32];

    let secret_key = SecretKey::from_slice(&[1u8; 32]).expect("valid secret key");

    let public_key = pk_of(&secret_key)
        .serialize()
        .to_vec();

    let previous_output = [2u8; 32];

    let mut utxos = UtxoSet::new();

    utxos
        .insert(nio_blockchain::utxo::Utxo {
            id: nio_blockchain::utxo::UtxoId {
                transaction_id: previous_output,
                output_index: 0,
            },
            amount: 1_000,
            recipient: public_key.clone(),
        })
        .expect("UTXO insert");

    let mut transaction = Transaction::new(
        1,
        vec![TransactionInput {
            previous_output,
            output_index: 0,
            public_key: Vec::new(),
            signature: Vec::new(),
        }],
        vec![TransactionOutput {
            amount: 900,
            recipient: public_key,
        }],
        100,
    );

    transaction
        .sign_input(0, &secret_key)
        .expect("transaction should sign");

    let mut block = Block::new_with_transactions(
        1,
        1,
        previous_hash,
        1_000,
        1,
        0,
        INITIAL_REWARD_UNITS,
        vec![transaction],
    );

    nio_blockchain::mining::Miner::mine(&mut block).expect("block should be mineable");

    let result = ConsensusValidator::validate_block(&block, previous_hash, 1, 0, &utxos);

    assert!(
        result.is_err(),
        "miner reward without transaction fee must be rejected"
    );
}
// ------------------------------------------------------------
// 8.5 ATOMIC BLOCK ROLLBACK
// ------------------------------------------------------------

#[test]
fn failed_block_does_not_modify_original_utxo_state() {
    let previous_hash = [7u8; 32];

    let secret_key = SecretKey::from_slice(&[1u8; 32]).expect("valid secret key");

    let public_key = pk_of(&secret_key)
        .serialize()
        .to_vec();

    let previous_output = [3u8; 32];

    let mut utxos = UtxoSet::new();

    utxos
        .insert(nio_blockchain::utxo::Utxo {
            id: nio_blockchain::utxo::UtxoId {
                transaction_id: previous_output,
                output_index: 0,
            },
            amount: 1_000,
            recipient: public_key.clone(),
        })
        .expect("UTXO insert");

    let original_hash = utxos.state_hash();
    let original_len = utxos.len();

    let mut valid_tx = Transaction::new(
        1,
        vec![TransactionInput {
            previous_output,
            output_index: 0,
            public_key: Vec::new(),
            signature: Vec::new(),
        }],
        vec![TransactionOutput {
            amount: 900,
            recipient: public_key.clone(),
        }],
        100,
    );

    valid_tx
        .sign_input(0, &secret_key)
        .expect("valid transaction should sign");

    let invalid_tx = tx(99);

    let mut block = Block::new_with_transactions(
        1,
        1,
        previous_hash,
        1_000,
        1,
        0,
        INITIAL_REWARD_UNITS + 100,
        vec![valid_tx, invalid_tx],
    );

    nio_blockchain::mining::Miner::mine(&mut block).expect("block should be mineable");

    let result = ConsensusValidator::validate_block(&block, previous_hash, 1, 0, &utxos);

    assert!(result.is_err());

    assert_eq!(
        utxos.state_hash(),
        original_hash,
        "failed block changed original UTXO state"
    );

    assert_eq!(
        utxos.len(),
        original_len,
        "failed block changed original UTXO count"
    );
}

// ------------------------------------------------------------
// 8.5 FEE ACCOUNTING
// ------------------------------------------------------------

#[test]
fn miner_reward_includes_all_transaction_fees() {
    let previous_hash = [7u8; 32];

    let secret_key = SecretKey::from_slice(&[1u8; 32]).expect("valid secret key");

    let public_key = pk_of(&secret_key)
        .serialize()
        .to_vec();

    let previous_output_1 = [4u8; 32];
    let previous_output_2 = [5u8; 32];

    let mut utxos = UtxoSet::new();

    utxos
        .insert(nio_blockchain::utxo::Utxo {
            id: nio_blockchain::utxo::UtxoId {
                transaction_id: previous_output_1,
                output_index: 0,
            },
            amount: 1_000,
            recipient: public_key.clone(),
        })
        .expect("UTXO 1 insert");

    utxos
        .insert(nio_blockchain::utxo::Utxo {
            id: nio_blockchain::utxo::UtxoId {
                transaction_id: previous_output_2,
                output_index: 0,
            },
            amount: 2_000,
            recipient: public_key.clone(),
        })
        .expect("UTXO 2 insert");

    let mut tx1 = Transaction::new(
        1,
        vec![TransactionInput {
            previous_output: previous_output_1,
            output_index: 0,
            public_key: Vec::new(),
            signature: Vec::new(),
        }],
        vec![TransactionOutput {
            amount: 900,
            recipient: public_key.clone(),
        }],
        100,
    );

    tx1.sign_input(0, &secret_key).expect("tx1 should sign");

    let mut tx2 = Transaction::new(
        1,
        vec![TransactionInput {
            previous_output: previous_output_2,
            output_index: 0,
            public_key: Vec::new(),
            signature: Vec::new(),
        }],
        vec![TransactionOutput {
            amount: 1_800,
            recipient: public_key,
        }],
        200,
    );

    tx2.sign_input(0, &secret_key).expect("tx2 should sign");

    let expected_reward = INITIAL_REWARD_UNITS + 100 + 200;

    let mut block = Block::new_with_transactions(
        1,
        1,
        previous_hash,
        1_000,
        1,
        0,
        expected_reward,
        vec![tx1, tx2],
    );

    nio_blockchain::mining::Miner::mine(&mut block).expect("block should be mineable");

    let result = ConsensusValidator::validate_block(&block, previous_hash, 1, 0, &utxos);

    assert!(result.is_ok(), "CONSENSUS ERROR: {:?}", result);
    assert_eq!(result.unwrap(), 300);
}
// ------------------------------------------------------------
// STATE SAFETY
// ------------------------------------------------------------

#[test]
fn validation_does_not_modify_utxo_state() {
    let previous_hash = [7u8; 32];

    let utxos = UtxoSet::new();
    let original_hash = utxos.state_hash();

    let block = Block::new(1, 1, previous_hash, 1_000, 1, 0, INITIAL_REWARD_UNITS);

    let _ = ConsensusValidator::validate_block(&block, previous_hash, 1, 0, &utxos);

    assert_eq!(utxos.state_hash(), original_hash);
}

// ------------------------------------------------------------
// VALID TRANSACTION BLOCK
// ------------------------------------------------------------

#[test]
fn valid_transaction_block_is_accepted_and_fee_is_returned() {
    let previous_hash = [7u8; 32];

    let secret_key = SecretKey::from_slice(&[1u8; 32]).expect("valid secret key");

    let public_key = pk_of(&secret_key)
        .serialize()
        .to_vec();

    let mut utxos = UtxoSet::new();

    let previous_output = [1u8; 32];

    utxos
        .insert(nio_blockchain::utxo::Utxo {
            id: nio_blockchain::utxo::UtxoId {
                transaction_id: previous_output,
                output_index: 0,
            },
            amount: 1_000,
            recipient: public_key.clone(),
        })
        .expect("UTXO insert should succeed");

    let mut transaction = Transaction::new(
        1,
        vec![TransactionInput {
            previous_output,
            output_index: 0,
            public_key: Vec::new(),
            signature: Vec::new(),
        }],
        vec![TransactionOutput {
            amount: 900,
            recipient: public_key,
        }],
        100,
    );

    transaction
        .sign_input(0, &secret_key)
        .expect("transaction should sign");

    let mut block = Block::new_with_transactions(
        1,
        1,
        previous_hash,
        1_000,
        1,
        0,
        INITIAL_REWARD_UNITS + 100,
        vec![transaction],
    );

    nio_blockchain::mining::Miner::mine(&mut block).expect("block should be mineable");

    let result = ConsensusValidator::validate_block(&block, previous_hash, 1, 0, &utxos);

    assert!(result.is_ok(), "CONSENSUS ERROR: {:?}", result);
    assert_eq!(result.unwrap(), 100);
}
// ------------------------------------------------------------
// ZERO DIFFICULTY
// ------------------------------------------------------------

#[test]
fn zero_difficulty_is_rejected() {
    let previous_hash = [7u8; 32];

    let block = Block::new(1, 1, previous_hash, 1_000, 0, 0, INITIAL_REWARD_UNITS);

    assert!(ConsensusValidator::validate_header(&block, previous_hash, 1).is_err());
}

/// Public key of a library secret key, shaped like a curve point.
struct TestPublicKey([u8; 33]);

impl TestPublicKey {
    fn serialize(&self) -> [u8; 33] {
        self.0
    }
}

fn pk_of(secret: &SecretKey) -> TestPublicKey {
    TestPublicKey(secret.public_key_bytes())
}
