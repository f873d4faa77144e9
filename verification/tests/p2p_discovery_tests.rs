use nio_blockchain::p2p::{PeerAddress, PeerId, PeerManager};
use nio_blockchain::p2p_discovery::{DiscoveredPeer, MAX_DISCOVERY_PEERS, MAX_DISCOVERY_RESULTS, PeerDiscovery, validate_discovered_peer};

fn peer_id(value: u8) -> PeerId {
    [value; 32]
}

fn address(port: u16) -> PeerAddress {
    PeerAddress::v4([127, 0, 0, 1], port)
}

fn discovered_peer(id: u8, port: u16) -> DiscoveredPeer {
    DiscoveredPeer::new(peer_id(id), address(port)).expect("valid discovered peer")
}

#[test]
fn valid_discovered_peer_is_created() {
    let peer = discovered_peer(2, 9002);

    assert_eq!(peer.id, peer_id(2));
    assert_eq!(peer.address, address(9002));
}

#[test]
fn p2p_discovery_zero_peer_id_is_rejected() {
    assert!(DiscoveredPeer::new([0u8; 32], address(9001)).is_err());
}

#[test]
fn zero_port_is_rejected() {
    let address = PeerAddress::v4([127, 0, 0, 1], 0);

    assert!(DiscoveredPeer::new(peer_id(2), address).is_err());
}

#[test]
fn discovery_rejects_zero_local_id() {
    assert!(PeerDiscovery::new([0u8; 32], 10).is_err());
}

#[test]
fn discovery_rejects_zero_max_results() {
    assert!(PeerDiscovery::new(peer_id(1), 0).is_err());
}

#[test]
fn discovery_rejects_excessive_max_results() {
    assert!(PeerDiscovery::new(peer_id(1), MAX_DISCOVERY_RESULTS + 1).is_err());
}

#[test]
fn self_peer_is_not_returned() {
    let discovery = PeerDiscovery::new(peer_id(1), 10).expect("discovery");

    let peers = vec![discovered_peer(1, 9001), discovered_peer(2, 9002)];

    let result = discovery.discover(&peers).expect("discover");

    assert_eq!(result.len(), 1);
    assert_eq!(result[0].id, peer_id(2));
}

#[test]
fn duplicate_peers_are_removed() {
    let discovery = PeerDiscovery::new(peer_id(1), 10).expect("discovery");

    let peers = vec![
        discovered_peer(2, 9002),
        discovered_peer(2, 9002),
        discovered_peer(3, 9003),
    ];

    let result = discovery.discover(&peers).expect("discover");

    assert_eq!(result.len(), 2);
    assert_eq!(result[0].id, peer_id(2));
    assert_eq!(result[1].id, peer_id(3));
}

#[test]
fn discovery_result_limit_is_enforced() {
    let discovery = PeerDiscovery::new(peer_id(1), 2).expect("discovery");

    let peers = vec![
        discovered_peer(2, 9002),
        discovered_peer(3, 9003),
        discovered_peer(4, 9004),
    ];

    let result = discovery.discover(&peers).expect("discover");

    assert_eq!(result.len(), 2);
}

#[test]
fn too_many_discovered_peers_are_rejected() {
    let discovery = PeerDiscovery::new(peer_id(1), 10).expect("discovery");

    let peers = vec![discovered_peer(2, 9002); MAX_DISCOVERY_PEERS + 1];

    assert!(discovery.discover(&peers).is_err());
}

#[test]
fn peer_can_be_added_to_manager() {
    let discovery = PeerDiscovery::new(peer_id(1), 10).expect("discovery");

    let mut manager = PeerManager::new(8).expect("manager");

    let peer = discovered_peer(2, 9002);

    discovery
        .add_discovered_peer(&mut manager, peer)
        .expect("peer should be added");

    assert_eq!(manager.len(), 1);
    assert!(manager.contains(&peer_id(2)));
}

#[test]
fn self_peer_cannot_be_added() {
    let discovery = PeerDiscovery::new(peer_id(1), 10).expect("discovery");

    let mut manager = PeerManager::new(8).expect("manager");

    let peer = discovered_peer(1, 9001);

    assert!(discovery.add_discovered_peer(&mut manager, peer).is_err());

    assert!(manager.is_empty());
}

#[test]
fn duplicate_peer_is_not_added_twice() {
    let discovery = PeerDiscovery::new(peer_id(1), 10).expect("discovery");

    let mut manager = PeerManager::new(8).expect("manager");

    let peer = discovered_peer(2, 9002);

    discovery
        .add_discovered_peer(&mut manager, peer.clone())
        .expect("first add");

    assert!(discovery.add_discovered_peer(&mut manager, peer).is_err());

    assert_eq!(manager.len(), 1);
}

#[test]
fn add_many_adds_valid_new_peers() {
    let discovery = PeerDiscovery::new(peer_id(1), 10).expect("discovery");

    let mut manager = PeerManager::new(8).expect("manager");

    let peers = vec![
        discovered_peer(2, 9002),
        discovered_peer(3, 9003),
        discovered_peer(4, 9004),
    ];

    let added = discovery.add_many(&mut manager, &peers).expect("add many");

    assert_eq!(added, 3);
    assert_eq!(manager.len(), 3);
}

#[test]
fn add_many_ignores_existing_peers() {
    let discovery = PeerDiscovery::new(peer_id(1), 10).expect("discovery");

    let mut manager = PeerManager::new(8).expect("manager");

    manager
        .add_peer(peer_id(2), address(9002))
        .expect("existing peer");

    let peers = vec![discovered_peer(2, 9002), discovered_peer(3, 9003)];

    let added = discovery.add_many(&mut manager, &peers).expect("add many");

    assert_eq!(added, 1);
    assert_eq!(manager.len(), 2);
}

#[test]
fn manager_discovery_works() {
    let discovery = PeerDiscovery::new(peer_id(1), 10).expect("discovery");

    let mut manager = PeerManager::new(8).expect("manager");

    manager.add_peer(peer_id(2), address(9002)).expect("peer 2");

    manager.add_peer(peer_id(3), address(9003)).expect("peer 3");

    let result = discovery.discover_from_manager(&manager).expect("discover");

    assert_eq!(result.len(), 2);
}

#[test]
fn peer_pair_validation_rejects_self() {
    assert!(validate_discovered_peer(&peer_id(1), &discovered_peer(1, 9001)).is_err());
}

#[test]
fn valid_peer_pair_is_accepted() {
    assert!(validate_discovered_peer(&peer_id(1), &discovered_peer(2, 9002)).is_ok());
}
