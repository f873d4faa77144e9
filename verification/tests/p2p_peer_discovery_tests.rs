use nio_blockchain::p2p::{PeerAddress, PeerId};
use nio_blockchain::p2p_manager::{PeerManager};
use nio_blockchain::p2p_peer_discovery::{DiscoveredPeer, PeerDiscovery, add_discovered_peer, add_peers, all_discovered_peers, apply_peers_message, build_get_peers_message, build_peers_message, connected_discovered_peers, decode_peers_message, decode_peers_payload, discover_and_add_peer, encode_peers_payload};
use nio_blockchain::p2p_protocol::{MAX_PEER_ADDRESSES, MessageType, ProtocolMessage};

const PEER_ENTRY_SIZE_IPV4: usize = 32 + 1 + 4 + 2;

const PEER_ENTRY_SIZE_IPV6: usize = 32 + 1 + 16 + 2;

const COUNT_SIZE: usize = 2;

fn peer_id(value: u8) -> PeerId {
    [value; 32]
}

/*
 * Generates a deterministic non-zero PeerId
 * from a usize.
 *
 * This avoids u8 overflow in tests when
 * MAX_PEER_ADDRESSES is larger than 255.
 */
fn indexed_peer_id(index: usize) -> PeerId {
    let mut id = [0u8; 32];

    let bytes = (index as u64).to_be_bytes();

    id[..8].copy_from_slice(&bytes);

    /*
     * Make sure the ID can never become
     * the all-zero PeerId.
     */
    if id == [0u8; 32] {
        id[31] = 1;
    }

    id
}

fn address(port: u16) -> PeerAddress {
    PeerAddress::v4([127, 0, 0, 1], port)
}

fn ipv6_address(port: u16) -> PeerAddress {
    PeerAddress::v6([0, 0, 0, 0, 0, 0, 0, 0, 0, 0, 0, 0, 0, 0, 0, 1], port)
}

fn discovered_peer(value: u8, port: u16) -> DiscoveredPeer {
    DiscoveredPeer::new(peer_id(value), address(port)).expect("discovered peer")
}

#[test]
fn discovered_peer_can_be_created() {
    let peer = discovered_peer(1, 8333);

    assert_eq!(peer.peer_id, peer_id(1));

    assert_eq!(peer.address, address(8333));
}

#[test]
fn p2p_peer_discovery_zero_peer_id_is_rejected() {
    let result = DiscoveredPeer::new([0u8; 32], address(8333));

    assert!(result.is_err());
}

#[test]
fn discovery_starts_empty() {
    let discovery = PeerDiscovery::new();

    assert_eq!(discovery.discovered_count(), 0);
}

#[test]
fn peer_can_be_discovered() {
    let mut discovery = PeerDiscovery::new();

    let peer = discovered_peer(1, 8333);

    let inserted = discovery.discover(&peer).expect("discover");

    assert!(inserted);

    assert!(discovery.contains(&peer_id(1)));

    assert_eq!(discovery.discovered_count(), 1);
}

#[test]
fn duplicate_discovery_is_ignored() {
    let mut discovery = PeerDiscovery::new();

    let peer = discovered_peer(1, 8333);

    assert!(discovery.discover(&peer).expect("first discovery"));

    assert!(!discovery.discover(&peer).expect("second discovery"));

    assert_eq!(discovery.discovered_count(), 1);
}

#[test]
fn discovery_can_be_cleared() {
    let mut discovery = PeerDiscovery::new();

    let peer = discovered_peer(1, 8333);

    discovery.discover(&peer).expect("discover");

    discovery.clear();

    assert_eq!(discovery.discovered_count(), 0);

    assert!(!discovery.contains(&peer_id(1)));
}

#[test]
fn discovered_peer_can_be_added_to_manager() {
    let mut manager = PeerManager::new();

    let peer = discovered_peer(1, 8333);

    let added = add_discovered_peer(&mut manager, &peer).expect("add");

    assert!(added);

    assert_eq!(manager.peer_count(), 1);

    assert!(manager.contains_peer(&peer_id(1)));
}

#[test]
fn existing_peer_is_not_added_twice() {
    let mut manager = PeerManager::new();

    let peer = discovered_peer(1, 8333);

    assert!(add_discovered_peer(&mut manager, &peer,).expect("first add"));

    assert!(!add_discovered_peer(&mut manager, &peer,).expect("second add"));

    assert_eq!(manager.peer_count(), 1);
}

#[test]
fn discover_and_add_works() {
    let mut discovery = PeerDiscovery::new();

    let mut manager = PeerManager::new();

    let peer = discovered_peer(1, 8333);

    let added =
        discover_and_add_peer(&mut discovery, &mut manager, peer).expect("discover and add");

    assert!(added);

    assert_eq!(discovery.discovered_count(), 1);

    assert_eq!(manager.peer_count(), 1);
}

#[test]
fn duplicate_discover_and_add_is_ignored() {
    let mut discovery = PeerDiscovery::new();

    let mut manager = PeerManager::new();

    let peer = discovered_peer(1, 8333);

    assert!(discover_and_add_peer(&mut discovery, &mut manager, peer.clone(),).expect("first"));

    assert!(!discover_and_add_peer(&mut discovery, &mut manager, peer,).expect("second"));

    assert_eq!(discovery.discovered_count(), 1);

    assert_eq!(manager.peer_count(), 1);
}

#[test]
fn multiple_peers_can_be_added() {
    let mut manager = PeerManager::new();

    let peers = vec![
        discovered_peer(1, 8333),
        discovered_peer(2, 8334),
        discovered_peer(3, 8335),
    ];

    let added = add_peers(&mut manager, &peers).expect("add peers");

    assert_eq!(added, 3);

    assert_eq!(manager.peer_count(), 3);
}

#[test]
fn existing_peers_are_skipped() {
    let mut manager = PeerManager::new();

    let peer1 = discovered_peer(1, 8333);

    let peer2 = discovered_peer(2, 8334);

    add_discovered_peer(&mut manager, &peer1).expect("first");

    let peers = vec![peer1, peer2];

    let added = add_peers(&mut manager, &peers).expect("add peers");

    assert_eq!(added, 1);

    assert_eq!(manager.peer_count(), 2);
}

#[test]
fn connected_peers_are_returned() {
    let mut manager = PeerManager::new();

    let peer1 = discovered_peer(1, 8333);

    let peer2 = discovered_peer(2, 8334);

    add_discovered_peer(&mut manager, &peer1).expect("peer1");

    add_discovered_peer(&mut manager, &peer2).expect("peer2");

    manager.mark_connected(&peer_id(1)).expect("connect");

    let connected = connected_discovered_peers(&manager);

    assert_eq!(connected.len(), 1);

    assert_eq!(connected[0].peer_id, peer_id(1));

    assert_eq!(connected[0].address, address(8333));
}

#[test]
fn all_peers_are_returned() {
    let mut manager = PeerManager::new();

    let peers = vec![discovered_peer(1, 8333), discovered_peer(2, 8334)];

    add_peers(&mut manager, &peers).expect("add");

    let all = all_discovered_peers(&manager);

    assert_eq!(all.len(), 2);

    assert!(all.iter().any(|peer| { peer.peer_id == peer_id(1) }));

    assert!(all.iter().any(|peer| { peer.peer_id == peer_id(2) }));
}

#[test]
fn ipv4_peers_payload_roundtrip() {
    let peers = vec![discovered_peer(1, 8333), discovered_peer(2, 8334)];

    let encoded = encode_peers_payload(&peers).expect("encode");

    let decoded = decode_peers_payload(&encoded).expect("decode");

    assert_eq!(decoded, peers);
}

#[test]
fn ipv6_peers_payload_roundtrip() {
    let peer = DiscoveredPeer::new(peer_id(1), ipv6_address(9333)).expect("peer");

    let peers = vec![peer];

    let encoded = encode_peers_payload(&peers).expect("encode");

    let decoded = decode_peers_payload(&encoded).expect("decode");

    assert_eq!(decoded, peers);
}

#[test]
fn empty_peers_payload_is_valid() {
    let encoded = encode_peers_payload(&[]).expect("encode");

    let decoded = decode_peers_payload(&encoded).expect("decode");

    assert!(decoded.is_empty());
}

#[test]
fn duplicate_peer_ids_are_rejected() {
    let peer = discovered_peer(1, 8333);

    assert!(encode_peers_payload(&[peer.clone(), peer]).is_err());
}

#[test]
fn zero_peer_id_in_payload_is_rejected() {
    let mut payload = Vec::new();

    payload.extend_from_slice(&1u16.to_be_bytes());

    payload.extend_from_slice(&[0u8; 32]);

    payload.push(4);

    payload.extend_from_slice(&[127, 0, 0, 1]);

    payload.extend_from_slice(&8333u16.to_be_bytes());

    assert!(decode_peers_payload(&payload,).is_err());
}

#[test]
fn invalid_address_family_is_rejected() {
    let mut payload = Vec::new();

    payload.extend_from_slice(&1u16.to_be_bytes());

    payload.extend_from_slice(&peer_id(1));

    payload.push(99);

    payload.extend_from_slice(&8333u16.to_be_bytes());

    assert!(decode_peers_payload(&payload,).is_err());
}

#[test]
fn trailing_payload_data_is_rejected() {
    let peers = vec![discovered_peer(1, 8333)];

    let mut encoded = encode_peers_payload(&peers).expect("encode");

    encoded.push(0xFF);

    assert!(decode_peers_payload(&encoded,).is_err());
}

#[test]
fn get_peers_message_is_created() {
    let message = build_get_peers_message().expect("get peers");

    assert_eq!(message.message_type, MessageType::GetPeers);

    assert!(message.payload.is_empty());

    assert!(message.validate().is_ok());
}

#[test]
fn peers_message_is_created() {
    let peers = vec![discovered_peer(1, 8333), discovered_peer(2, 8334)];

    let message = build_peers_message(&peers).expect("peers message");

    assert_eq!(message.message_type, MessageType::Peers);

    let decoded = decode_peers_message(&message).expect("decode message");

    assert_eq!(decoded, peers);
}

#[test]
fn wrong_message_type_is_rejected() {
    let message = ProtocolMessage::empty(MessageType::GetPeers).expect("message");

    assert!(decode_peers_message(&message,).is_err());
}

#[test]
fn local_peer_is_rejected() {
    let local = peer_id(1);

    let peers = vec![discovered_peer(1, 8333), discovered_peer(2, 8334)];

    let message = build_peers_message(&peers).expect("message");

    let mut manager = PeerManager::new();

    let mut discovery = PeerDiscovery::new();

    assert!(apply_peers_message(&local, &mut manager, &mut discovery, &message,).is_err());

    assert_eq!(manager.peer_count(), 0);
}

#[test]
fn peers_message_can_be_applied() {
    let local = peer_id(1);

    let peers = vec![discovered_peer(2, 8334), discovered_peer(3, 8335)];

    let message = build_peers_message(&peers).expect("message");

    let mut manager = PeerManager::new();

    let mut discovery = PeerDiscovery::new();

    let added =
        apply_peers_message(&local, &mut manager, &mut discovery, &message).expect("apply");

    assert_eq!(added, 2);

    assert_eq!(manager.peer_count(), 2);

    assert_eq!(discovery.discovered_count(), 2);
}

#[test]
fn p2p_peer_discovery_too_many_peers_are_rejected() {
    let peers = (0..=MAX_PEER_ADDRESSES)
        .map(|index| {
            let id = indexed_peer_id(index + 1);

            let port = 8333u16.saturating_add(index as u16);

            DiscoveredPeer::new(id, address(port)).expect("discovered peer")
        })
        .collect::<Vec<_>>();

    assert!(peers.len() > MAX_PEER_ADDRESSES);

    assert!(encode_peers_payload(&peers,).is_err());
}

#[test]
fn peer_payload_size_is_reasonable() {
    let peers = vec![discovered_peer(1, 8333)];

    let payload = encode_peers_payload(&peers).expect("encode");

    assert!(payload.len() <= PEER_ENTRY_SIZE_IPV4 + COUNT_SIZE);

    const {
        assert!(PEER_ENTRY_SIZE_IPV6 > PEER_ENTRY_SIZE_IPV4);
    }
}

#[test]
fn zero_local_peer_id_is_rejected() {
    let peers = vec![discovered_peer(1, 8333)];

    let message = build_peers_message(&peers).expect("message");

    let mut manager = PeerManager::new();

    let mut discovery = PeerDiscovery::new();

    assert!(apply_peers_message(&[0u8; 32], &mut manager, &mut discovery, &message,).is_err());

    assert_eq!(manager.peer_count(), 0);

    assert_eq!(discovery.discovered_count(), 0);
}
