use nio_blockchain::p2p::{PeerId};
use nio_blockchain::p2p_protocol::{MAX_MESSAGE_SIZE, MessageType, P2P_PROTOCOL_VERSION, ProtocolHeader, ProtocolMessage, ProtocolSession, ProtocolState, validate_peer_id, validate_peer_pair};

fn peer_id(value: u8) -> PeerId {
    [value; 32]
}

#[test]
fn p2p_protocol_protocol_version_is_one() {
    assert_eq!(P2P_PROTOCOL_VERSION, 1);
}

#[test]
fn ping_message_can_be_created() {
    let message = ProtocolMessage::empty(MessageType::Ping).expect("ping");

    assert_eq!(message.version, P2P_PROTOCOL_VERSION);
    assert_eq!(message.message_type, MessageType::Ping);
    assert!(message.is_empty());
    assert!(message.validate().is_ok());
}

#[test]
fn pong_message_can_be_created() {
    let message = ProtocolMessage::empty(MessageType::Pong).expect("pong");

    assert!(message.validate().is_ok());
}

#[test]
fn ping_with_payload_is_rejected() {
    let message =
        ProtocolMessage::new(MessageType::Ping, vec![1]).expect("message construction");

    assert!(message.validate().is_err());
}

#[test]
fn pong_with_payload_is_rejected() {
    let message =
        ProtocolMessage::new(MessageType::Pong, vec![1]).expect("message construction");

    assert!(message.validate().is_err());
}

#[test]
fn oversized_message_is_rejected() {
    let payload = vec![0u8; MAX_MESSAGE_SIZE + 1];

    assert!(ProtocolMessage::new(MessageType::Transaction, payload).is_err());
}

#[test]
fn p2p_protocol_unknown_message_type_is_rejected() {
    assert_eq!(MessageType::from_u8(255), None);
}

#[test]
fn known_message_types_are_decoded() {
    assert_eq!(MessageType::from_u8(1), Some(MessageType::Ping));

    assert_eq!(MessageType::from_u8(11), Some(MessageType::Block));
}

#[test]
fn request_and_response_categories_are_correct() {
    assert!(MessageType::Ping.is_request());
    assert!(MessageType::GetPeers.is_request());

    assert!(MessageType::Pong.is_response());
    assert!(MessageType::Peers.is_response());
}

#[test]
fn protocol_header_is_created() {
    let header =
        ProtocolHeader::new(P2P_PROTOCOL_VERSION, MessageType::Ping, 0).expect("header");

    assert!(header.validate().is_ok());
    assert_eq!(header.payload_length, 0);
}

#[test]
fn invalid_header_version_is_rejected() {
    let header = ProtocolHeader::new(P2P_PROTOCOL_VERSION + 1, MessageType::Ping, 0);

    assert!(header.is_err());
}

#[test]
fn local_zero_peer_id_is_rejected() {
    assert!(ProtocolSession::new([0u8; 32]).is_err());
}

#[test]
fn p2p_protocol_protocol_session_starts_connected() {
    let session = ProtocolSession::new(peer_id(1)).expect("session");

    assert_eq!(session.state(), ProtocolState::Connected);

    assert!(!session.is_established());
    assert!(!session.is_closed());
    assert!(!session.is_failed());
}

#[test]
fn handshake_pending_state_works() {
    let mut session = ProtocolSession::new(peer_id(1)).expect("session");

    session.mark_handshake_pending().expect("handshake pending");

    assert_eq!(session.state(), ProtocolState::HandshakePending);
}

#[test]
fn remote_peer_establishes_session() {
    let mut session = ProtocolSession::new(peer_id(1)).expect("session");

    session.set_remote_node_id(peer_id(2)).expect("remote peer");

    assert_eq!(session.remote_node_id(), Some(peer_id(2)));

    assert!(session.is_established());
}

#[test]
fn zero_remote_peer_is_rejected() {
    let mut session = ProtocolSession::new(peer_id(1)).expect("session");

    assert!(session.set_remote_node_id([0u8; 32]).is_err());
}

#[test]
fn p2p_protocol_self_connection_is_rejected() {
    let mut session = ProtocolSession::new(peer_id(1)).expect("session");

    assert!(session.set_remote_node_id(peer_id(1)).is_err());

    assert!(session.is_failed());
}

#[test]
fn sent_message_counter_increases() {
    let mut session = ProtocolSession::new(peer_id(1)).expect("session");

    let message = ProtocolMessage::empty(MessageType::Ping).expect("ping");

    session.record_sent(&message).expect("send");

    assert_eq!(session.sent_messages(), 1);
}

#[test]
fn received_message_counter_increases() {
    let mut session = ProtocolSession::new(peer_id(1)).expect("session");

    let message = ProtocolMessage::empty(MessageType::Ping).expect("ping");

    session.record_received(&message).expect("receive");

    assert_eq!(session.received_messages(), 1);
}

#[test]
fn close_state_works() {
    let mut session = ProtocolSession::new(peer_id(1)).expect("session");

    session.begin_close().expect("begin close");

    assert_eq!(session.state(), ProtocolState::Closing);

    session.close();

    assert!(session.is_closed());
}

#[test]
fn failed_session_cannot_send() {
    let mut session = ProtocolSession::new(peer_id(1)).expect("session");

    session.fail();

    let message = ProtocolMessage::empty(MessageType::Ping).expect("ping");

    assert!(session.record_sent(&message).is_err());
}

#[test]
fn peer_id_validation_works() {
    assert!(validate_peer_id(&peer_id(1)).is_ok());

    assert!(validate_peer_id(&[0u8; 32]).is_err());
}

#[test]
fn peer_pair_validation_works() {
    assert!(validate_peer_pair(&peer_id(1), &peer_id(2)).is_ok());

    assert!(validate_peer_pair(&peer_id(1), &peer_id(1)).is_err());
}

#[test]
fn handshake_payload_must_not_be_empty() {
    let message = ProtocolMessage::empty(MessageType::Handshake).expect("message");

    assert!(message.validate().is_err());
}

#[test]
fn transaction_payload_must_not_be_empty() {
    let message = ProtocolMessage::empty(MessageType::Transaction).expect("message");

    assert!(message.validate().is_err());
}

#[test]
fn block_payload_must_not_be_empty() {
    let message = ProtocolMessage::empty(MessageType::Block).expect("message");

    assert!(message.validate().is_err());
}

#[test]
fn get_peers_payload_must_be_empty() {
    let message = ProtocolMessage::empty(MessageType::GetPeers).expect("message");

    assert!(message.validate().is_ok());
}

#[test]
fn get_headers_requires_payload() {
    let message = ProtocolMessage::empty(MessageType::GetHeaders).expect("message");

    assert!(message.validate().is_err());
}

#[test]
fn get_blocks_requires_payload() {
    let message = ProtocolMessage::empty(MessageType::GetBlocks).expect("message");

    assert!(message.validate().is_err());
}
