use nio_blockchain::p2p::{NetworkMessage, PeerAddress, PeerId, PeerManager};

fn peer_id(value: u8) -> PeerId {
    [value; 32]
}

fn address(port: u16) -> PeerAddress {
    PeerAddress::v4([127, 0, 0, 1], port)
}

#[test]
fn p2p_peer_manager_starts_empty() {
    let manager = PeerManager::new(8).expect("manager");

    assert!(manager.is_empty());
    assert_eq!(manager.len(), 0);
}

#[test]
fn zero_peer_limit_is_rejected() {
    assert!(PeerManager::new(0).is_err());
}

#[test]
fn p2p_peer_can_be_added() {
    let mut manager = PeerManager::new(8).expect("manager");

    manager
        .add_peer(peer_id(1), address(9001))
        .expect("peer should be added");

    assert_eq!(manager.len(), 1);
    assert!(manager.contains(&peer_id(1)));
}

#[test]
fn p2p_duplicate_peer_is_rejected() {
    let mut manager = PeerManager::new(8).expect("manager");

    manager
        .add_peer(peer_id(1), address(9001))
        .expect("first peer");

    assert!(manager.add_peer(peer_id(1), address(9002)).is_err());
}

#[test]
fn p2p_peer_limit_is_enforced() {
    let mut manager = PeerManager::new(2).expect("manager");

    manager.add_peer(peer_id(1), address(9001)).expect("peer 1");

    manager.add_peer(peer_id(2), address(9002)).expect("peer 2");

    assert!(manager.add_peer(peer_id(3), address(9003)).is_err());
}

#[test]
fn peer_can_connect() {
    let mut manager = PeerManager::new(8).expect("manager");

    manager.add_peer(peer_id(1), address(9001)).expect("peer");

    manager.connect(&peer_id(1)).expect("connect");

    assert_eq!(manager.connected_count(), 1);
    assert!(manager.get(&peer_id(1)).unwrap().connected);
}

#[test]
fn peer_can_disconnect() {
    let mut manager = PeerManager::new(8).expect("manager");

    manager.add_peer(peer_id(1), address(9001)).expect("peer");

    manager.connect(&peer_id(1)).expect("connect");
    manager.disconnect(&peer_id(1)).expect("disconnect");

    assert_eq!(manager.connected_count(), 0);
}

#[test]
fn p2p_peer_can_be_removed() {
    let mut manager = PeerManager::new(8).expect("manager");

    manager.add_peer(peer_id(1), address(9001)).expect("peer");

    manager.remove_peer(&peer_id(1)).expect("remove");

    assert!(manager.is_empty());
}

#[test]
fn ping_message_is_valid() {
    let message = NetworkMessage::Ping { nonce: 123 };

    assert_eq!(message.message_name(), "ping");
    assert!(message.validate_for_network().is_ok());
}

#[test]
fn pong_message_is_valid() {
    let message = NetworkMessage::Pong { nonce: 456 };

    assert!(message.validate_for_network().is_ok());
}

#[test]
fn get_peers_message_is_valid() {
    let message = NetworkMessage::GetPeers;

    assert!(message.validate_for_network().is_ok());
}

#[test]
fn peers_message_is_valid() {
    let message = NetworkMessage::Peers {
        peers: vec![peer_id(1), peer_id(2), peer_id(3)],
    };

    assert!(message.validate_for_network().is_ok());
}

#[test]
fn p2p_too_many_peers_are_rejected() {
    let message = NetworkMessage::Peers {
        peers: vec![[1u8; 32]; 257],
    };

    assert!(message.validate_for_network().is_err());
}

#[test]
fn block_request_must_have_positive_count() {
    let message = NetworkMessage::GetBlocks {
        start_height: 0,
        count: 0,
    };

    assert!(message.validate_for_network().is_err());
}

#[test]
fn block_request_limit_is_enforced() {
    let message = NetworkMessage::GetBlocks {
        start_height: 0,
        count: 2_001,
    };

    assert!(message.validate_for_network().is_err());
}

#[test]
fn valid_block_request_is_accepted() {
    let message = NetworkMessage::GetBlocks {
        start_height: 100,
        count: 100,
    };

    assert!(message.validate_for_network().is_ok());
}

#[test]
fn p2p_protocol_version_is_one() {
    assert_eq!(NetworkMessage::protocol_version(), 1);
}

#[test]
fn message_names_are_stable() {
    assert_eq!(NetworkMessage::Ping { nonce: 1 }.message_name(), "ping");

    assert_eq!(NetworkMessage::Pong { nonce: 1 }.message_name(), "pong");

    assert_eq!(NetworkMessage::GetPeers.message_name(), "get_peers");
}

#[test]
fn network_message_size_is_bounded() {
    let message = NetworkMessage::Ping { nonce: 1 };

    assert!(message.is_within_size_limit());
    assert!(message.estimated_size() < 1_000);
}
