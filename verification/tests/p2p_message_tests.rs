use nio_blockchain::p2p::{PeerId};
use nio_blockchain::p2p_message::{HeaderRef, MAX_BLOCKS_PER_MESSAGE, MAX_HEADERS_PER_MESSAGE, MAX_REJECT_REASON_LENGTH, P2P_MESSAGE_PROTOCOL_VERSION, P2pMessage, P2pMessageType};

fn node_id(value: u8) -> PeerId {
    [value; 32]
}

fn hash(value: u8) -> [u8; 32] {
    [value; 32]
}

// ------------------------------------------------------------
// MESSAGE TYPES
// ------------------------------------------------------------

#[test]
fn message_type_codes_are_stable() {
    assert_eq!(P2pMessageType::Version.code(), 1);

    assert_eq!(P2pMessageType::VerAck.code(), 2);

    assert_eq!(P2pMessageType::Ping.code(), 3);

    assert_eq!(P2pMessageType::Pong.code(), 4);

    assert_eq!(P2pMessageType::GetHeaders.code(), 5);

    assert_eq!(P2pMessageType::Headers.code(), 6);

    assert_eq!(P2pMessageType::GetBlocks.code(), 7);

    assert_eq!(P2pMessageType::Blocks.code(), 8);

    assert_eq!(P2pMessageType::Transaction.code(), 9);

    assert_eq!(P2pMessageType::Reject.code(), 10);
}

// ------------------------------------------------------------
// VERSION
// ------------------------------------------------------------

#[test]
fn valid_version_message_is_accepted() {
    let message = P2pMessage::Version {
        protocol_version: P2P_MESSAGE_PROTOCOL_VERSION,
        node_id: node_id(1),
        user_agent: "/nio:0.1.0/".to_string(),
        start_height: 0,
    };

    assert!(message.validate_for_network().is_ok());
    assert_eq!(message.message_type(), P2pMessageType::Version);
}

#[test]
fn p2p_message_zero_node_id_is_rejected() {
    let message = P2pMessage::Version {
        protocol_version: P2P_MESSAGE_PROTOCOL_VERSION,
        node_id: [0u8; 32],
        user_agent: "/nio:0.1.0/".to_string(),
        start_height: 0,
    };

    assert!(message.validate().is_err());
}

#[test]
fn incompatible_message_protocol_is_rejected() {
    let message = P2pMessage::Version {
        protocol_version: P2P_MESSAGE_PROTOCOL_VERSION + 1,
        node_id: node_id(1),
        user_agent: "/nio:0.1.0/".to_string(),
        start_height: 0,
    };

    assert!(message.validate().is_err());
}

// ------------------------------------------------------------
// PING / PONG
// ------------------------------------------------------------

#[test]
fn ping_is_valid() {
    let message = P2pMessage::Ping { nonce: 100 };

    assert!(message.validate_for_network().is_ok());
    assert_eq!(message.message_name(), "ping");
}

#[test]
fn pong_is_valid() {
    let message = P2pMessage::Pong { nonce: 100 };

    assert!(message.validate_for_network().is_ok());
}

// ------------------------------------------------------------
// HEADERS
// ------------------------------------------------------------

#[test]
fn getheaders_is_valid() {
    let message = P2pMessage::GetHeaders {
        locator: vec![hash(1), hash(2)],
        stop_hash: None,
    };

    assert!(message.validate_for_network().is_ok());
}

#[test]
fn empty_getheaders_is_rejected() {
    let message = P2pMessage::GetHeaders {
        locator: Vec::new(),
        stop_hash: None,
    };

    assert!(message.validate().is_err());
}

#[test]
fn headers_message_is_valid() {
    let message = P2pMessage::Headers {
        headers: vec![
            HeaderRef {
                hash: hash(1),
                height: 1,
            },
            HeaderRef {
                hash: hash(2),
                height: 2,
            },
        ],
    };

    assert!(message.validate_for_network().is_ok());
}

#[test]
fn zero_header_hash_is_rejected() {
    let message = P2pMessage::Headers {
        headers: vec![HeaderRef {
            hash: [0u8; 32],
            height: 1,
        }],
    };

    assert!(message.validate().is_err());
}

// ------------------------------------------------------------
// BLOCKS
// ------------------------------------------------------------

#[test]
fn getblocks_is_valid() {
    let message = P2pMessage::GetBlocks {
        locator: vec![hash(1)],
        stop_hash: Some(hash(2)),
    };

    assert!(message.validate_for_network().is_ok());
}

#[test]
fn empty_getblocks_is_rejected() {
    let message = P2pMessage::GetBlocks {
        locator: Vec::new(),
        stop_hash: None,
    };

    assert!(message.validate().is_err());
}

#[test]
fn blocks_message_is_valid() {
    let message = P2pMessage::Blocks {
        hashes: vec![hash(1), hash(2)],
    };

    assert!(message.validate_for_network().is_ok());
}

#[test]
fn empty_blocks_message_is_rejected() {
    let message = P2pMessage::Blocks { hashes: Vec::new() };

    assert!(message.validate().is_err());
}

#[test]
fn zero_block_hash_is_rejected() {
    let message = P2pMessage::Blocks {
        hashes: vec![[0u8; 32]],
    };

    assert!(message.validate().is_err());
}

// ------------------------------------------------------------
// TRANSACTION
// ------------------------------------------------------------

#[test]
fn transaction_message_is_valid() {
    let message = P2pMessage::Transaction {
        transaction_id: hash(9),
    };

    assert!(message.validate_for_network().is_ok());
}

#[test]
fn p2p_message_zero_transaction_id_is_rejected() {
    let message = P2pMessage::Transaction {
        transaction_id: [0u8; 32],
    };

    assert!(message.validate().is_err());
}

// ------------------------------------------------------------
// REJECT
// ------------------------------------------------------------

#[test]
fn reject_message_is_valid() {
    let message = P2pMessage::Reject {
        message_type: P2pMessageType::Transaction,
        reason: "invalid transaction".to_string(),
    };

    assert!(message.validate_for_network().is_ok());
}

#[test]
fn empty_reject_reason_is_rejected() {
    let message = P2pMessage::Reject {
        message_type: P2pMessageType::Transaction,
        reason: String::new(),
    };

    assert!(message.validate().is_err());
}

// ------------------------------------------------------------
// SIZE
// ------------------------------------------------------------

#[test]
fn message_size_is_bounded() {
    let message = P2pMessage::Ping { nonce: 1 };

    assert!(message.is_within_size_limit());

    assert!(message.estimated_size() < 1_000);
}

#[test]
fn excessive_headers_are_rejected() {
    let message = P2pMessage::Headers {
        headers: vec![
            HeaderRef {
                hash: hash(1),
                height: 1,
            };
            MAX_HEADERS_PER_MESSAGE + 1
        ],
    };

    assert!(message.validate().is_err());
}

#[test]
fn excessive_blocks_are_rejected() {
    let message = P2pMessage::Blocks {
        hashes: vec![hash(1); MAX_BLOCKS_PER_MESSAGE + 1],
    };

    assert!(message.validate().is_err());
}

#[test]
fn excessive_reject_reason_is_rejected() {
    let message = P2pMessage::Reject {
        message_type: P2pMessageType::Ping,
        reason: "x".repeat(MAX_REJECT_REASON_LENGTH + 1),
    };

    assert!(message.validate().is_err());
}
