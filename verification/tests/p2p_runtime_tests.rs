use nio_blockchain::p2p_handshake::{Handshake, HANDSHAKE_VERSION};
use nio_blockchain::p2p_protocol::{ProtocolMessage, MessageType, ProtocolSession, ProtocolState};
use nio_blockchain::p2p_runtime::{require_established, RuntimeConfig};

fn node_id(value: u8) -> [u8; 32] {
    [value; 32]
}

#[test]
fn runtime_rejects_zero_node_id() {
    let result = RuntimeConfig::new([0u8; 32], "/nio:0.1.0/");

    assert!(result.is_err());
}

#[test]
fn runtime_rejects_empty_user_agent() {
    let result = RuntimeConfig::new(node_id(1), "");

    assert!(result.is_err());
}

#[test]
fn runtime_rejects_oversized_user_agent() {
    let user_agent = "A".repeat(129);

    let result = RuntimeConfig::new(node_id(1), &user_agent);

    assert!(result.is_err());
}

#[test]
fn runtime_accepts_valid_configuration() {
    let runtime = RuntimeConfig::new(node_id(1), "/nio:0.1.0/").expect("runtime");

    assert_eq!(runtime.local_node_id(), node_id(1));

    assert_eq!(runtime.user_agent(), "/nio:0.1.0/");
}

#[test]
fn runtime_accepts_user_agent_of_exactly_128_bytes() {
    let user_agent = "A".repeat(128);
    assert!(RuntimeConfig::new(node_id(1), &user_agent).is_ok());
}

#[test]
fn runtime_local_handshake_announces_identity() {
    let runtime = RuntimeConfig::new(node_id(3), "/nio:0.1.0/").expect("runtime");
    let handshake = runtime.local_handshake();
    assert_eq!(handshake.protocol_version, HANDSHAKE_VERSION);
    assert_eq!(handshake.node_id, node_id(3));
    assert_eq!(handshake.user_agent, "/nio:0.1.0/");
    assert!(handshake.validate().is_ok());
}

#[test]
fn runtime_opens_established_session_with_remote() {
    let runtime = RuntimeConfig::new(node_id(1), "/nio:0.1.0/").expect("runtime");
    let remote = Handshake::new(node_id(2), "/nio:0.1.0/").expect("remote");
    let session = runtime.open_session(&remote).expect("session");
    assert!(session.is_established());
    assert_eq!(session.local_node_id(), node_id(1));
    assert_eq!(session.remote_node_id(), Some(node_id(2)));
    assert_eq!(session.sent_messages(), 0);
    assert_eq!(session.received_messages(), 0);
}

#[test]
fn runtime_refuses_session_with_itself() {
    let runtime = RuntimeConfig::new(node_id(1), "/nio:0.1.0/").expect("runtime");
    let remote = Handshake::new(node_id(1), "/nio:0.1.0/").expect("remote");
    assert!(runtime.open_session(&remote).is_err());
}

#[test]
fn runtime_refuses_session_with_zero_remote() {
    let runtime = RuntimeConfig::new(node_id(1), "/nio:0.1.0/").expect("runtime");
    let remote = Handshake { protocol_version: HANDSHAKE_VERSION, node_id: [0u8; 32], user_agent: "/x/".to_string() };
    assert!(runtime.open_session(&remote).is_err());
}

#[test]
fn messages_need_an_established_session() {
    let mut session = ProtocolSession::new(node_id(1)).expect("session");
    assert_eq!(session.state(), ProtocolState::Connected);
    assert!(require_established(&session).is_err());
    session.set_remote_node_id(node_id(2)).expect("remote");
    assert!(require_established(&session).is_ok());
    let ping = ProtocolMessage::empty(MessageType::Ping).expect("ping");
    session.record_sent(&ping).expect("sent");
    assert_eq!(session.sent_messages(), 1);
    session.begin_close().expect("closing");
    assert!(require_established(&session).is_err());
}
