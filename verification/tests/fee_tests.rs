use nio_blockchain::fee::{FeeAccounting};
use nio_blockchain::transaction::{Transaction, TransactionInput, TransactionOutput};
use nio_blockchain::utxo::{Utxo, UtxoId, UtxoSet};

fn tx_id(value: u8) -> [u8; 32] {
    [value; 32]
}

fn make_utxo(value: u8, amount: u64) -> Utxo {
    Utxo {
        id: UtxoId {
            transaction_id: tx_id(value),
            output_index: 0,
        },
        amount,
        recipient: vec![1u8; 33],
    }
}

fn make_input(value: u8) -> TransactionInput {
    TransactionInput {
        previous_output: tx_id(value),
        output_index: 0,
        public_key: Vec::new(),
        signature: Vec::new(),
    }
}

fn make_output(amount: u64) -> TransactionOutput {
    TransactionOutput {
        amount,
        recipient: vec![2u8; 33],
    }
}

fn make_transaction(input_value: u8, output_amount: u64, fee: u64) -> Transaction {
    Transaction::new(
        1,
        vec![make_input(input_value)],
        vec![make_output(output_amount)],
        fee,
    )
}

#[test]
fn transaction_fee_is_read_correctly() {
    let tx = make_transaction(1, 900, 100);

    assert_eq!(FeeAccounting::transaction_fee(&tx), 100);
}

#[test]
fn valid_fee_is_accepted() {
    let mut utxo_set = UtxoSet::new();

    utxo_set
        .insert(make_utxo(1, 1000))
        .expect("UTXO insertion should succeed");

    let tx = make_transaction(1, 900, 100);

    assert!(FeeAccounting::validate_transaction_fee(&utxo_set, &tx).is_ok());
}

#[test]
fn excessive_fee_is_rejected() {
    let mut utxo_set = UtxoSet::new();

    utxo_set
        .insert(make_utxo(1, 1000))
        .expect("UTXO insertion should succeed");

    let tx = make_transaction(1, 900, 101);

    assert!(FeeAccounting::validate_transaction_fee(&utxo_set, &tx).is_err());
}

#[test]
fn zero_fee_is_allowed() {
    let mut utxo_set = UtxoSet::new();

    utxo_set
        .insert(make_utxo(1, 1000))
        .expect("UTXO insertion should succeed");

    let tx = make_transaction(1, 1000, 0);

    assert!(FeeAccounting::validate_transaction_fee(&utxo_set, &tx).is_ok());
}

#[test]
fn total_fees_are_calculated() {
    let tx1 = make_transaction(1, 900, 100);

    let tx2 = make_transaction(2, 450, 50);

    let transactions = vec![tx1, tx2];

    assert_eq!(
        FeeAccounting::total_fees(&transactions).expect("fee calculation should succeed"),
        150
    );
}

#[test]
fn multiple_fees_are_added_safely() {
    let tx1 = make_transaction(1, 990, 10);

    let tx2 = make_transaction(2, 980, 20);

    let tx3 = make_transaction(3, 970, 30);

    let transactions = vec![tx1, tx2, tx3];

    assert_eq!(
        FeeAccounting::total_fees(&transactions).expect("fee calculation should succeed"),
        60
    );
}

#[test]
fn miner_payout_adds_reward_and_fees() {
    assert_eq!(
        FeeAccounting::miner_payout(1000, 250).expect("payout calculation should succeed"),
        1250
    );
}

#[test]
fn miner_payout_overflow_is_rejected() {
    assert!(FeeAccounting::miner_payout(u64::MAX, 1).is_err());
}

#[test]
fn fee_coinbase_fee_must_be_zero() {
    let coinbase =
        Transaction::coinbase(500, vec![1u8; 33]).expect("coinbase should be created");

    assert_eq!(
        FeeAccounting::total_fees(&[coinbase]).expect("coinbase should have zero fee"),
        0
    );
}
