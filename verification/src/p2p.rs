//! Peer identifiers and addresses, the network message envelope and the
//! bounded peer table.
use vstd::prelude::*;
use crate::block::Block;
use crate::peer_table::PeerTable;
use crate::transaction::{Transaction, TransactionModel};

verus! {

/// A peer's 32-byte node identifier.
pub type PeerId = [u8; 32];

pub const PROTOCOL_VERSION: u32 = 1;

pub const MAX_BLOCK_MESSAGE_SIZE: usize = 2_000_000;

pub const MAX_TRANSACTION_MESSAGE_SIZE: usize = 100_000;

/// A peer's network address: an IPv4 or IPv6 address and a port.
#[derive(Debug, Clone, Copy, PartialEq, Eq)]
pub enum PeerAddress {
    V4 { octets: [u8; 4], port: u16 },
    V6 { segments: [u8; 16], port: u16 },
}

impl PeerAddress {
    pub open spec fn spec_port(self) -> u16 {
        match self {
            PeerAddress::V4 { port, .. } => port,
            PeerAddress::V6 { port, .. } => port,
        }
    }

    pub fn v4(octets: [u8; 4], port: u16) -> (r: Self)
        ensures
            r == (PeerAddress::V4 { octets, port }),
    {
        PeerAddress::V4 { octets, port }
    }

    pub fn v6(segments: [u8; 16], port: u16) -> (r: Self)
        ensures
            r == (PeerAddress::V6 { segments, port }),
    {
        PeerAddress::V6 { segments, port }
    }

    pub fn port(&self) -> (r: u16)
        ensures
            r == self.spec_port(),
    {
        match self {
            PeerAddress::V4 { port, .. } => *port,
            PeerAddress::V6 { port, .. } => *port,
        }
    }
}

#[derive(Debug, Clone, Copy, PartialEq, Eq)]
pub struct Peer {
    pub id: PeerId,
    pub address: PeerAddress,
    pub connected: bool,
}

pub enum NetworkMessage {
    Ping { nonce: u64 },
    Pong { nonce: u64 },
    GetPeers,
    Peers { peers: Vec<PeerId> },
    GetBlocks { start_height: u64, count: u32 },
    Block { block: Block },
    Transaction { transaction: Transaction },
}

/// Size estimate of one transaction inside a block message.
pub open spec fn block_tx_size(t: TransactionModel) -> int {
    (64 + t.inputs.len() * 160 + t.outputs.len() * 100) as int
}

/// Sum of the transaction size estimates.
pub open spec fn block_txs_size(txs: Seq<TransactionModel>) -> int
    decreases txs.len(),
{
    if txs.len() == 0 {
        0
    } else {
        block_txs_size(txs.drop_last()) + block_tx_size(txs.last())
    }
}

impl NetworkMessage {
    pub open spec fn spec_valid(&self) -> bool {
        match self {
            NetworkMessage::Peers { peers } => peers@.len() <= 256,
            NetworkMessage::GetBlocks { count, .. } => 1 <= *count <= 2000,
            NetworkMessage::Block { block } => block.transactions@.len() <= 10_000,
            NetworkMessage::Transaction { transaction } => transaction.inputs@.len() <= 1000
                && transaction.outputs@.len() <= 1000,
            _ => true,
        }
    }

    pub open spec fn spec_estimated_size(&self) -> int {
        match self {
            NetworkMessage::Ping { .. } => 16,
            NetworkMessage::Pong { .. } => 16,
            NetworkMessage::GetPeers => 8,
            NetworkMessage::Peers { peers } => (8 + peers@.len() * 32) as int,
            NetworkMessage::GetBlocks { .. } => 24,
            NetworkMessage::Block { block } => 256 + block_txs_size(block@.transactions),
            NetworkMessage::Transaction { transaction } => (128 + transaction.inputs@.len() * 160
                + transaction.outputs@.len() * 100) as int,
        }
    }

    pub open spec fn spec_within_size_limit(&self) -> bool {
        match self {
            NetworkMessage::Block { .. } => self.spec_estimated_size() <= MAX_BLOCK_MESSAGE_SIZE,
            NetworkMessage::Transaction { .. } => self.spec_estimated_size() <= MAX_TRANSACTION_MESSAGE_SIZE,
            _ => true,
        }
    }

    pub fn protocol_version() -> (r: u32)
        ensures
            r == 1,
    {
        PROTOCOL_VERSION
    }

    pub fn message_name(&self) -> (r: &'static str)
        ensures
            r@ == (match self {
                NetworkMessage::Ping { .. } => "ping"@,
                NetworkMessage::Pong { .. } => "pong"@,
                NetworkMessage::GetPeers => "get_peers"@,
                NetworkMessage::Peers { .. } => "peers"@,
                NetworkMessage::GetBlocks { .. } => "get_blocks"@,
                NetworkMessage::Block { .. } => "block"@,
                NetworkMessage::Transaction { .. } => "transaction"@,
            }),
    {
        match self {
            NetworkMessage::Ping { .. } => "ping",
            NetworkMessage::Pong { .. } => "pong",
            NetworkMessage::GetPeers => "get_peers",
            NetworkMessage::Peers { .. } => "peers",
            NetworkMessage::GetBlocks { .. } => "get_blocks",
            NetworkMessage::Block { .. } => "block",
            NetworkMessage::Transaction { .. } => "transaction",
        }
    }

    pub fn validate(&self) -> (r: Result<(), String>)
        ensures
            r is Ok <==> self.spec_valid(),
    {
        match self {
            NetworkMessage::Peers { peers } => {
                if peers.len() > 256 {
                    return Err(String::from_str("too many peers in network message"));
                }
                Ok(())
            },
            NetworkMessage::GetBlocks { count, .. } => {
                if *count == 0 {
                    return Err(String::from_str("block request count cannot be zero"));
                }
                if *count > 2000 {
                    return Err(String::from_str("block request exceeds maximum count"));
                }
                Ok(())
            },
            NetworkMessage::Block { block } => {
                if block.transactions.len() > 10_000 {
                    return Err(String::from_str("block contains too many transactions"));
                }
                Ok(())
            },
            NetworkMessage::Transaction { transaction } => {
                if transaction.inputs.len() > 1000 {
                    return Err(String::from_str("transaction contains too many inputs"));
                }
                if transaction.outputs.len() > 1000 {
                    return Err(String::from_str("transaction contains too many outputs"));
                }
                Ok(())
            },
            _ => Ok(()),
        }
    }

    /// Size estimate of the message in bytes.
    pub fn estimated_size(&self) -> (r: usize)
        requires
            self.spec_estimated_size() <= usize::MAX,
        ensures
            r == self.spec_estimated_size(),
    {
        match self {
            NetworkMessage::Ping { .. } => 16,
            NetworkMessage::Pong { .. } => 16,
            NetworkMessage::GetPeers => 8,
            NetworkMessage::Peers { peers } => 8 + peers.len() * 32,
            NetworkMessage::GetBlocks { .. } => 24,
            NetworkMessage::Block { block } => {
                let ghost txs = block@.transactions;
                let mut total: usize = 0;
                let n = block.transactions.len();
                for i in 0..n
                    invariant
                        n == txs.len(),
                        txs == block@.transactions,
                        256 + block_txs_size(txs) <= usize::MAX,
                        total == block_txs_size(txs.take(i as int)),
                {
                    let t = &block.transactions[i];
                    proof {
                        assert(txs[i as int] == t@);
                        assert(txs.take(i + 1).drop_last() =~= txs.take(i as int));
                        lemma_block_txs_size_prefix(txs, i + 1);
                    }
                    total = total + (64 + t.inputs.len() * 160 + t.outputs.len() * 100);
                }
                assert(txs.take(n as int) =~= txs);
                256 + total
            },
            NetworkMessage::Transaction { transaction } => 128 + transaction.inputs.len() * 160
                + transaction.outputs.len() * 100,
        }
    }

    pub fn is_within_size_limit(&self) -> (r: bool)
        requires
            self.spec_estimated_size() <= usize::MAX,
        ensures
            r == self.spec_within_size_limit(),
    {
        match self {
            NetworkMessage::Block { .. } => self.estimated_size() <= MAX_BLOCK_MESSAGE_SIZE,
            NetworkMessage::Transaction { .. } => self.estimated_size() <= MAX_TRANSACTION_MESSAGE_SIZE,
            _ => true,
        }
    }

    pub fn validate_for_network(&self) -> (r: Result<(), String>)
        requires
            self.spec_estimated_size() <= usize::MAX,
        ensures
            r is Ok <==> self.spec_valid() && self.spec_within_size_limit(),
    {
        match self.validate() {
            Ok(()) => {},
            Err(e) => return Err(e),
        }
        if !self.is_within_size_limit() {
            return match self {
                NetworkMessage::Block { .. } => Err(String::from_str("block message exceeds network size limit")),
                _ => Err(String::from_str("transaction message exceeds network size limit")),
            };
        }
        Ok(())
    }
}

/// A prefix's size estimate does not exceed the whole list's.
proof fn lemma_block_txs_size_prefix(txs: Seq<TransactionModel>, i: int)
    requires
        0 <= i <= txs.len(),
    ensures
        0 <= block_txs_size(txs.take(i)) <= block_txs_size(txs),
    decreases txs.len(),
{
    if i == txs.len() {
        assert(txs.take(i) =~= txs);
        if txs.len() > 0 {
            lemma_block_txs_size_prefix(txs.drop_last(), i - 1);
            assert(txs.drop_last().take(i - 1) =~= txs.drop_last());
        }
    } else {
        lemma_block_txs_size_prefix(txs.drop_last(), i);
        assert(txs.drop_last().take(i) =~= txs.take(i));
    }
}

/// Peers by identifier, at most `max_peers` of them.
#[derive(Debug, Clone, PartialEq, Eq)]
pub struct PeerManager {
    peers: PeerTable<Peer>,
    max_peers: usize,
}

impl PeerManager {
    pub closed spec fn peer_map(&self) -> Map<Seq<u8>, Peer> {
        self.peers.map()
    }

    pub closed spec fn spec_max_peers(&self) -> usize {
        self.max_peers
    }

    /// The peers in insertion order.
    pub closed spec fn peer_seq(&self) -> Seq<Peer> {
        self.peers.values()
    }

    /// Every stored peer sits under its own identifier, and the table never
    /// exceeds its limit.
    pub closed spec fn wf(&self) -> bool {
        &&& self.peers.wf()
        &&& self.max_peers > 0
        &&& self.peers.map().len() <= self.max_peers
        &&& forall|k: Seq<u8>| #[trigger] self.peers.map().contains_key(k) ==> self.peers.map()[k].id@ == k
    }

    pub fn new(max_peers: usize) -> (r: Result<Self, String>)
        ensures
            r is Ok <==> max_peers > 0,
            r matches Ok(m) ==> m.wf() && m.peer_map() == Map::<Seq<u8>, Peer>::empty() && m.spec_max_peers()
                == max_peers,
    {
        if max_peers == 0 {
            return Err(String::from_str("max peers cannot be zero"));
        }
        Ok(PeerManager { peers: PeerTable::new(), max_peers })
    }

    pub fn len(&self) -> (r: usize)
        requires
            self.wf(),
        ensures
            r == self.peer_map().len(),
    {
        self.peers.len()
    }

    pub fn is_empty(&self) -> (r: bool)
        requires
            self.wf(),
        ensures
            r == (self.peer_map().len() == 0),
    {
        self.peers.len() == 0
    }

    pub fn max_peers(&self) -> (r: usize)
        ensures
            r == self.spec_max_peers(),
    {
        self.max_peers
    }

    pub fn contains(&self, id: &PeerId) -> (r: bool)
        requires
            self.wf(),
        ensures
            r == self.peer_map().contains_key(id@),
    {
        self.peers.contains(id)
    }

    pub fn get(&self, id: &PeerId) -> (r: Option<&Peer>)
        requires
            self.wf(),
        ensures
            r is Some <==> self.peer_map().contains_key(id@),
            r matches Some(p) ==> *p == self.peer_map()[id@],
    {
        self.peers.get(id)
    }

    /// The stored peers, in the order they were added.
    pub fn peers(&self) -> (r: &[Peer])
        requires
            self.wf(),
        ensures
            r@ == self.peer_seq(),
            r@.len() == self.peer_map().len(),
            forall|i: int| 0 <= i < r@.len() ==> #[trigger] self.peer_map().contains_key(r@[i].id@)
                && self.peer_map()[r@[i].id@] == r@[i],
    {
        proof {
            self.peers.lemma_table();
            assert forall|i: int| 0 <= i < self.peers.values().len() implies #[trigger] self.peers.map().contains_key(
                self.peers.values()[i].id@,
            ) && self.peers.map()[self.peers.values()[i].id@] == self.peers.values()[i] by {
                assert(self.peers.map().contains_key(self.peers.keys()[i]));
            }
        }
        self.peers.entries()
    }

    /// Adds a disconnected peer; fails for a known identifier or a full
    /// table.
    pub fn add_peer(&mut self, id: PeerId, address: PeerAddress) -> (r: Result<(), String>)
        requires
            old(self).wf(),
        ensures
            final(self).wf(),
            final(self).spec_max_peers() == old(self).spec_max_peers(),
            r is Ok <==> !old(self).peer_map().contains_key(id@) && old(self).peer_map().len()
                < old(self).spec_max_peers(),
            r is Ok ==> final(self).peer_map() == old(self).peer_map().insert(
                id@,
                Peer { id, address, connected: false },
            ),
            r is Err ==> final(self).peer_map() == old(self).peer_map(),
    {
        if self.contains(&id) {
            return Err(String::from_str("peer already exists"));
        }
        if self.peers.len() >= self.max_peers {
            return Err(String::from_str("peer limit reached"));
        }
        proof {
            self.peers.lemma_table();
        }
        self.peers.insert(id, Peer { id, address, connected: false });
        proof {
            self.peers.lemma_table();
        }
        Ok(())
    }

    /// Marks a known, disconnected peer connected.
    pub fn connect(&mut self, id: &PeerId) -> (r: Result<(), String>)
        requires
            old(self).wf(),
        ensures
            final(self).wf(),
            final(self).spec_max_peers() == old(self).spec_max_peers(),
            r is Ok <==> old(self).peer_map().contains_key(id@) && !old(self).peer_map()[id@].connected,
            r is Ok ==> final(self).peer_map() == old(self).peer_map().insert(
                id@,
                Peer { connected: true, ..old(self).peer_map()[id@] },
            ),
            r is Err ==> final(self).peer_map() == old(self).peer_map(),
    {
        self.set_connected(id, true)
    }

    /// Marks a known, connected peer disconnected.
    pub fn disconnect(&mut self, id: &PeerId) -> (r: Result<(), String>)
        requires
            old(self).wf(),
        ensures
            final(self).wf(),
            final(self).spec_max_peers() == old(self).spec_max_peers(),
            r is Ok <==> old(self).peer_map().contains_key(id@) && old(self).peer_map()[id@].connected,
            r is Ok ==> final(self).peer_map() == old(self).peer_map().insert(
                id@,
                Peer { connected: false, ..old(self).peer_map()[id@] },
            ),
            r is Err ==> final(self).peer_map() == old(self).peer_map(),
    {
        self.set_connected(id, false)
    }

    fn set_connected(&mut self, id: &PeerId, connected: bool) -> (r: Result<(), String>)
        requires
            old(self).wf(),
        ensures
            final(self).wf(),
            final(self).spec_max_peers() == old(self).spec_max_peers(),
            r is Ok <==> old(self).peer_map().contains_key(id@) && old(self).peer_map()[id@].connected != connected,
            r is Ok ==> final(self).peer_map() == old(self).peer_map().insert(
                id@,
                Peer { connected: connected, ..old(self).peer_map()[id@] },
            ),
            r is Err ==> final(self).peer_map() == old(self).peer_map(),
    {
        let peer = match self.peers.get(id) {
            Some(p) => *p,
            None => return Err(String::from_str("peer does not exist")),
        };
        if peer.connected == connected {
            if connected {
                return Err(String::from_str("peer is already connected"));
            } else {
                return Err(String::from_str("peer is already disconnected"));
            }
        }
        let updated = Peer { id: peer.id, address: peer.address, connected };
        proof {
            self.peers.lemma_table();
        }
        self.peers.set(id, updated);
        proof {
            self.peers.lemma_table();
            assert(self.peers.map().dom() =~= old(self).peers.map().dom());
        }
        Ok(())
    }

    pub fn remove_peer(&mut self, id: &PeerId) -> (r: Result<Peer, String>)
        requires
            old(self).wf(),
        ensures
            final(self).wf(),
            final(self).spec_max_peers() == old(self).spec_max_peers(),
            r is Ok <==> old(self).peer_map().contains_key(id@),
            r matches Ok(p) ==> p == old(self).peer_map()[id@],
            final(self).peer_map() == old(self).peer_map().remove(id@),
    {
        proof {
            self.peers.lemma_table();
        }
        let r = self.peers.remove(id);
        proof {
            self.peers.lemma_table();
        }
        match r {
            Some(p) => Ok(p),
            None => Err(String::from_str("peer does not exist")),
        }
    }

    /// How many stored peers are connected.
    pub fn connected_count(&self) -> (r: usize)
        requires
            self.wf(),
        ensures
            r == self.peer_seq().filter(|p: Peer| p.connected).len(),
    {
        let entries = self.peers.entries();
        let ghost s = entries@;
        let mut count: usize = 0;
        let n = entries.len();
        for i in 0..n
            invariant
                n == s.len(),
                s == entries@,
                count == s.take(i as int).filter(|p: Peer| p.connected).len(),
                count <= i,
        {
            proof {
                assert(s.take(i + 1).drop_last() =~= s.take(i as int));
                s.take(i as int).lemma_filter_len_push(|p: Peer| p.connected, s[i as int]);
                assert(s.take(i as int).push(s[i as int]) =~= s.take(i + 1));
            }
            if entries[i].connected {
                count = count + 1;
            }
        }
        assert(s.take(n as int) =~= s);
        count
    }
}

impl Default for PeerManager {
    fn default() -> (r: Self)
        ensures
            r.wf(),
            r.peer_map() == Map::<Seq<u8>, Peer>::empty(),
            r.spec_max_peers() == 32,
    {
        match Self::new(32) {
            Ok(m) => m,
            Err(_) => {
                proof {
                    assert(false);
                }
                PeerManager { peers: PeerTable::new(), max_peers: 32 }
            },
        }
    }
}

} // verus!
