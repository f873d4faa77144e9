use nio_blockchain::block_builder::{BlockBuilder};
use nio_blockchain::chain::{Blockchain};
use nio_blockchain::economy::{INITIAL_REWARD_UNITS};
use nio_blockchain::keys::{SecretKey};
use nio_blockchain::mempool::{Mempool};
use nio_blockchain::mining::{Miner};
use nio_blockchain::transaction::{Transaction, TransactionInput, TransactionOutput};
use nio_blockchain::utxo::{Utxo, UtxoId, UtxoSet};

// ============================================================
// TEST HELPERS
// ============================================================

fn secret_key() -> SecretKey {
    SecretKey::from_slice(&[1u8; 32]).expect("valid secret key")
}

fn public_key() -> Vec<u8> {

    let public = pk_of(&secret_key());

    public.serialize().to_vec()
}

fn input(value: u8) -> TransactionInput {
    TransactionInput {
        previous_output: [value; 32],
        output_index: 0,
        public_key: Vec::new(),
        signature: Vec::new(),
    }
}

fn output(amount: u64) -> TransactionOutput {
    TransactionOutput {
        amount,
        recipient: public_key(),
    }
}

fn signed_transaction(value: u8, output_amount: u64, fee: u64) -> Transaction {
    let mut tx = Transaction::new(1, vec![input(value)], vec![output(output_amount)], fee);

    tx.sign_input(0, &secret_key())
        .expect("transaction should be signed");

    tx
}

fn utxo(value: u8, amount: u64) -> Utxo {
    Utxo {
        id: UtxoId {
            transaction_id: [value; 32],
            output_index: 0,
        },
        amount,
        recipient: public_key(),
    }
}

// ============================================================
// SELECTION TESTS
// ============================================================

#[test]
fn selects_highest_fee_first() {
    let mut mempool = Mempool::new();

    mempool.add(signed_transaction(1, 90, 10)).expect("tx1");

    mempool.add(signed_transaction(2, 70, 30)).expect("tx2");

    mempool.add(signed_transaction(3, 80, 20)).expect("tx3");

    let selected = BlockBuilder::select_transactions(&mempool, 3);

    assert_eq!(selected.len(), 3);
    assert_eq!(selected[0].fee, 30);
    assert_eq!(selected[1].fee, 20);
    assert_eq!(selected[2].fee, 10);
}

#[test]
fn selection_limit_is_respected() {
    let mut mempool = Mempool::new();

    mempool.add(signed_transaction(1, 90, 10)).expect("tx1");

    mempool.add(signed_transaction(2, 70, 30)).expect("tx2");

    mempool.add(signed_transaction(3, 80, 20)).expect("tx3");

    let selected = BlockBuilder::select_transactions(&mempool, 2);

    assert_eq!(selected.len(), 2);
    assert_eq!(selected[0].fee, 30);
    assert_eq!(selected[1].fee, 20);
}

#[test]
fn zero_selection_limit_returns_empty() {
    let mempool = Mempool::new();

    let selected = BlockBuilder::select_transactions(&mempool, 0);

    assert!(selected.is_empty());
}

// ============================================================
// UTXO VALIDATION TESTS
// ============================================================

#[test]
fn selected_transactions_are_validated() {
    let mut utxos = UtxoSet::new();

    utxos.insert(utxo(1, 100)).expect("utxo insertion");

    let tx = signed_transaction(1, 90, 10);

    let fee = BlockBuilder::validate_selected_transactions(&[tx], &utxos)
        .expect("transaction should be valid");

    assert_eq!(fee, 10);
}

#[test]
fn block_builder_invalid_transaction_is_rejected() {
    let utxos = UtxoSet::new();

    let tx = signed_transaction(1, 90, 10);

    assert!(BlockBuilder::validate_selected_transactions(&[tx], &utxos,).is_err());
}

#[test]
fn block_builder_missing_utxo_is_rejected() {
    let utxos = UtxoSet::new();

    let tx = signed_transaction(99, 90, 10);

    assert!(BlockBuilder::validate_selected_transactions(&[tx], &utxos,).is_err());
}

// ============================================================
// TEMPLATE TESTS
// ============================================================

#[test]
fn empty_mempool_can_create_template() {
    let blockchain = Blockchain::new();
    let mempool = Mempool::new();

    let block = BlockBuilder::build_template(&blockchain, &mempool, 100, 1_000)
        .expect("template should build");

    assert_eq!(block.header.height, 1);

    assert_eq!(block.header.previous_hash, blockchain.latest_block().hash());

    assert!(block.transactions.is_empty());

    assert_eq!(block.miner_reward, INITIAL_REWARD_UNITS);

    assert!(block.has_valid_merkle_root());
}

#[test]
fn block_builder_timestamp_must_increase() {
    let blockchain = Blockchain::new();
    let mempool = Mempool::new();

    let result = BlockBuilder::build_template(&blockchain, &mempool, 10, 0);

    assert!(result.is_err());
}

#[test]
fn block_builder_template_has_valid_merkle_root() {
    let blockchain = Blockchain::new();
    let mempool = Mempool::new();

    let block = BlockBuilder::build_template(&blockchain, &mempool, 10, 1_000)
        .expect("template should build");

    assert!(block.has_valid_merkle_root());
}

// ============================================================
// POW TEST
// ============================================================

#[test]
fn block_builder_build_and_mine_produces_valid_pow() {
    let blockchain = Blockchain::new();
    let mempool = Mempool::new();

    let block = BlockBuilder::build_and_mine(&blockchain, &mempool, 10, 1_000)
        .expect("mining should succeed");

    assert!(Miner::validate(&block));
}

/// Public key of a library secret key, shaped like a curve point.
struct TestPublicKey([u8; 33]);

impl TestPublicKey {
    fn serialize(&self) -> [u8; 33] {
        self.0
    }
}

fn pk_of(secret: &SecretKey) -> TestPublicKey {
    TestPublicKey(secret.public_key_bytes())
}
