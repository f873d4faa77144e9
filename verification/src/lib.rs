//! NIO blockchain core: monetary policy, blocks, transactions, UTXO state,
//! consensus rules, mempool and peer-to-peer wire formats.
use vstd::prelude::*;

pub mod assoc;
pub mod block;
pub mod block_builder;
pub mod bytes;
pub mod chain;
pub mod consensus;
pub mod crypto;
pub mod difficulty;
pub mod economy;
pub mod fee;
pub mod genesis;
pub mod genesis_utxo;
pub mod keys;
pub mod mempool;
pub mod mining;
pub mod p2p;
pub mod p2p_codec;
pub mod p2p_discovery;
pub mod p2p_handshake;
pub mod p2p_handshake_session;
pub mod p2p_manager;
pub mod p2p_message;
pub mod p2p_message_codec;
pub mod p2p_peer_discovery;
pub mod p2p_peer_manager;
pub mod p2p_protocol;
pub mod p2p_runtime;
pub mod p2p_transport;
pub mod peer_table;
pub mod reserve;
pub mod supply_math;
pub mod transaction;
pub mod treasury;
pub mod treasury_key;
pub mod utxo;
pub mod wallet;

pub use crate::block::Block;
pub use crate::block_builder::BlockBuilder;
pub use crate::chain::Blockchain;
pub use crate::difficulty::DifficultyAdjustment;
pub use crate::economy::INITIAL_REWARD_UNITS;
pub use crate::fee::FeeAccounting;
pub use crate::genesis::GenesisState;
pub use crate::mempool::{Mempool, MempoolConfig, MempoolError};
pub use crate::mining::Miner;
pub use crate::reserve::ProjectReserve;
pub use crate::transaction::{Transaction, TransactionId, TransactionInput, TransactionOutput};
pub use crate::treasury::{TreasuryAddress, TreasuryAllocation, TREASURY_ADDRESS_LENGTH};
pub use crate::utxo::{Utxo, UtxoId, UtxoSet};
pub use crate::wallet::Wallet;

verus! {

} // verus!
