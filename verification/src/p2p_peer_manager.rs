//! Remote peers of a local node, each with its protocol state, up to a
//! limit.
use vstd::prelude::*;
use crate::bytes::{hash_eq, is_zero_hash, zero_hash};
use crate::p2p::{PeerAddress, PeerId};
use crate::p2p_protocol::ProtocolState;
use crate::peer_table::{peer_id_seq, PeerTable};

verus! {

pub const DEFAULT_MAX_PEERS: usize = 64;

#[derive(Debug, Clone, Copy, PartialEq, Eq)]
pub struct PeerInfo {
    peer_id: PeerId,
    address: PeerAddress,
    state: ProtocolState,
}

/// States in which a peer counts as connected.
pub open spec fn state_connected(s: ProtocolState) -> bool {
    s == ProtocolState::Connected || s == ProtocolState::HandshakePending || s == ProtocolState::Established
}

impl PeerInfo {
    pub closed spec fn id_view(&self) -> Seq<u8> {
        self.peer_id@
    }

    pub closed spec fn spec_address(&self) -> PeerAddress {
        self.address
    }

    pub closed spec fn spec_state(&self) -> ProtocolState {
        self.state
    }

    /// A peer in state `Connected`; fails for a zero identifier.
    pub fn new(peer_id: PeerId, address: PeerAddress) -> (r: Result<Self, String>)
        ensures
            r is Ok <==> peer_id@ != zero_hash(),
            r matches Ok(p) ==> p.id_view() == peer_id@ && p.spec_address() == address && p.spec_state()
                == ProtocolState::Connected,
    {
        if is_zero_hash(&peer_id) {
            return Err(String::from_str("peer id cannot be zero"));
        }
        Ok(PeerInfo { peer_id, address, state: ProtocolState::Connected })
    }

    pub fn peer_id(&self) -> (r: PeerId)
        ensures
            r@ == self.id_view(),
    {
        self.peer_id
    }

    pub fn address(&self) -> (r: PeerAddress)
        ensures
            r == self.spec_address(),
    {
        self.address
    }

    pub fn state(&self) -> (r: ProtocolState)
        ensures
            r == self.spec_state(),
    {
        self.state
    }

    pub fn set_state(&mut self, state: ProtocolState)
        ensures
            final(self).spec_state() == state,
            final(self).id_view() == old(self).id_view(),
            final(self).spec_address() == old(self).spec_address(),
    {
        self.state = state;
    }

    pub fn is_connected(&self) -> (r: bool)
        ensures
            r == state_connected(self.spec_state()),
    {
        match self.state {
            ProtocolState::Connected | ProtocolState::HandshakePending | ProtocolState::Established => true,
            _ => false,
        }
    }
}

#[derive(Debug)]
pub struct PeerManager {
    local_peer_id: PeerId,
    max_peers: usize,
    peers: PeerTable<PeerInfo>,
}

impl PeerManager {
    pub closed spec fn local_view(&self) -> Seq<u8> {
        self.local_peer_id@
    }

    pub closed spec fn spec_max_peers(&self) -> usize {
        self.max_peers
    }

    pub closed spec fn peer_map(&self) -> Map<Seq<u8>, PeerInfo> {
        self.peers.map()
    }

    /// The peers in insertion order.
    pub closed spec fn peer_seq(&self) -> Seq<PeerInfo> {
        self.peers.values()
    }

    /// Identifiers in insertion order.
    pub closed spec fn id_seq(&self) -> Seq<Seq<u8>> {
        self.peers.keys()
    }

    /// Every stored peer sits under its own identifier, which is neither
    /// zero nor the local one; the table stays within its limit.
    pub closed spec fn wf(&self) -> bool {
        &&& self.peers.wf()
        &&& self.max_peers > 0
        &&& self.local_peer_id@ != zero_hash()
        &&& self.peers.map().len() <= self.max_peers
        &&& forall|k: Seq<u8>| #[trigger] self.peers.map().contains_key(k) ==> self.peers.map()[k].id_view() == k
            && k != zero_hash() && k != self.local_peer_id@
    }

    pub fn new(local_peer_id: PeerId) -> (r: Result<Self, String>)
        ensures
            r is Ok <==> local_peer_id@ != zero_hash(),
            r matches Ok(m) ==> m.wf() && m.local_view() == local_peer_id@ && m.spec_max_peers() == DEFAULT_MAX_PEERS
                && m.peer_map() == Map::<Seq<u8>, PeerInfo>::empty(),
    {
        Self::with_max_peers(local_peer_id, DEFAULT_MAX_PEERS)
    }

    pub fn with_max_peers(local_peer_id: PeerId, max_peers: usize) -> (r: Result<Self, String>)
        ensures
            r is Ok <==> local_peer_id@ != zero_hash() && max_peers > 0,
            r matches Ok(m) ==> m.wf() && m.local_view() == local_peer_id@ && m.spec_max_peers() == max_peers
                && m.peer_map() == Map::<Seq<u8>, PeerInfo>::empty(),
    {
        if is_zero_hash(&local_peer_id) {
            return Err(String::from_str("local peer id cannot be zero"));
        }
        if max_peers == 0 {
            return Err(String::from_str("maximum peer count cannot be zero"));
        }
        Ok(PeerManager { local_peer_id, max_peers, peers: PeerTable::new() })
    }

    pub fn local_peer_id(&self) -> (r: PeerId)
        ensures
            r@ == self.local_view(),
    {
        self.local_peer_id
    }

    pub fn max_peers(&self) -> (r: usize)
        ensures
            r == self.spec_max_peers(),
    {
        self.max_peers
    }

    pub fn peer_count(&self) -> (r: usize)
        requires
            self.wf(),
        ensures
            r == self.peer_map().len(),
    {
        self.peers.len()
    }

    pub fn is_full(&self) -> (r: bool)
        requires
            self.wf(),
        ensures
            r == (self.peer_map().len() >= self.spec_max_peers()),
    {
        self.peers.len() >= self.max_peers
    }

    pub fn contains(&self, peer_id: &PeerId) -> (r: bool)
        requires
            self.wf(),
        ensures
            r == self.peer_map().contains_key(peer_id@),
    {
        self.peers.contains(peer_id)
    }

    pub fn get(&self, peer_id: &PeerId) -> (r: Option<&PeerInfo>)
        requires
            self.wf(),
        ensures
            r is Some <==> self.peer_map().contains_key(peer_id@),
            r matches Some(p) ==> *p == self.peer_map()[peer_id@],
    {
        self.peers.get(peer_id)
    }

    /// The peer under an identifier, to change in place. The manager stays
    /// well formed as long as the peer keeps its identifier.
    pub fn get_mut(&mut self, peer_id: &PeerId) -> (r: Option<&mut PeerInfo>)
        requires
            old(self).wf(),
        ensures
            r is Some <==> old(self).peer_map().contains_key(peer_id@),
            r matches Some(p) ==> *p == old(self).peer_map()[peer_id@] && final(self).peer_map()
                == old(self).peer_map().insert(peer_id@, *final(p)) && final(self).local_view() == old(self).local_view()
                && final(self).spec_max_peers() == old(self).spec_max_peers() && (final(p).id_view() == peer_id@
                ==> final(self).wf()),
            r is None ==> final(self).peer_map() == old(self).peer_map() && final(self).wf(),
    {
        proof {
            self.peers.lemma_table();
        }
        self.peers.get_mut(peer_id)
    }

    /// Adds a remote peer in state `Connected`; fails for a zero or local
    /// identifier, a known one, or a full table.
    pub fn add_peer(&mut self, peer_id: PeerId, address: PeerAddress) -> (r: Result<(), String>)
        requires
            old(self).wf(),
        ensures
            final(self).wf(),
            final(self).local_view() == old(self).local_view(),
            final(self).spec_max_peers() == old(self).spec_max_peers(),
            r is Ok <==> peer_id@ != zero_hash() && peer_id@ != old(self).local_view() && !old(self).peer_map().contains_key(
                peer_id@,
            ) && old(self).peer_map().len() < old(self).spec_max_peers(),
            r is Ok ==> final(self).peer_map().dom() == old(self).peer_map().dom().insert(peer_id@)
                && final(self).peer_map()[peer_id@].spec_address() == address
                && final(self).peer_map()[peer_id@].spec_state() == ProtocolState::Connected
                && forall|k: Seq<u8>| #[trigger] old(self).peer_map().contains_key(k) ==> final(self).peer_map()[k]
                    == old(self).peer_map()[k],
            r is Err ==> final(self).peer_map() == old(self).peer_map(),
    {
        if is_zero_hash(&peer_id) {
            return Err(String::from_str("peer id cannot be zero"));
        }
        if hash_eq(&peer_id, &self.local_peer_id) {
            return Err(String::from_str("cannot add local peer as remote peer"));
        }
        if self.peers.contains(&peer_id) {
            return Err(String::from_str("peer already exists"));
        }
        if self.is_full() {
            return Err(String::from_str("peer manager is full"));
        }
        let peer = match PeerInfo::new(peer_id, address) {
            Ok(p) => p,
            Err(e) => return Err(e),
        };
        proof {
            self.peers.lemma_table();
        }
        self.peers.insert(peer_id, peer);
        proof {
            self.peers.lemma_table();
        }
        Ok(())
    }

    pub fn remove_peer(&mut self, peer_id: &PeerId) -> (r: Option<PeerInfo>)
        requires
            old(self).wf(),
        ensures
            final(self).wf(),
            final(self).local_view() == old(self).local_view(),
            final(self).spec_max_peers() == old(self).spec_max_peers(),
            r is Some <==> old(self).peer_map().contains_key(peer_id@),
            r matches Some(p) ==> p == old(self).peer_map()[peer_id@],
            final(self).peer_map() == old(self).peer_map().remove(peer_id@),
    {
        proof {
            self.peers.lemma_table();
        }
        let r = self.peers.remove(peer_id);
        proof {
            self.peers.lemma_table();
        }
        r
    }

    pub fn set_peer_state(&mut self, peer_id: &PeerId, state: ProtocolState) -> (r: Result<(), String>)
        requires
            old(self).wf(),
        ensures
            final(self).wf(),
            final(self).local_view() == old(self).local_view(),
            final(self).spec_max_peers() == old(self).spec_max_peers(),
            r is Ok <==> old(self).peer_map().contains_key(peer_id@),
            r is Ok ==> final(self).peer_map().dom() == old(self).peer_map().dom()
                && final(self).peer_map()[peer_id@].spec_state() == state
                && final(self).peer_map()[peer_id@].spec_address() == old(self).peer_map()[peer_id@].spec_address()
                && forall|k: Seq<u8>| #[trigger] old(self).peer_map().contains_key(k) && k != peer_id@
                    ==> final(self).peer_map()[k] == old(self).peer_map()[k],
            r is Err ==> final(self).peer_map() == old(self).peer_map(),
    {
        let mut peer = match self.peers.get(peer_id) {
            Some(p) => *p,
            None => return Err(String::from_str("peer not found")),
        };
        peer.set_state(state);
        proof {
            self.peers.lemma_table();
        }
        self.peers.set(peer_id, peer);
        proof {
            self.peers.lemma_table();
            assert(self.peers.map().dom() =~= old(self).peers.map().dom());
        }
        Ok(())
    }

    /// Identifiers of the peers in a connected state, in insertion order.
    pub fn connected_peers(&self) -> (r: Vec<PeerId>)
        requires
            self.wf(),
        ensures
            peer_id_seq(r@) == self.peer_seq().filter(|p: PeerInfo| state_connected(p.spec_state())).map_values(
                |p: PeerInfo| p.id_view(),
            ),
    {
        let entries = self.peers.entries();
        let ghost s = entries@;
        let mut out: Vec<PeerId> = Vec::new();
        let n = entries.len();
        for i in 0..n
            invariant
                n == s.len(),
                s == entries@,
                peer_id_seq(out@) == s.take(i as int).filter(|p: PeerInfo| state_connected(p.spec_state())).map_values(
                    |p: PeerInfo| p.id_view(),
                ),
        {
            proof {
                assert(s.take(i as int).push(s[i as int]) =~= s.take(i + 1));
                s.take(i as int).lemma_filter_push(s[i as int], |p: PeerInfo| state_connected(p.spec_state()));
            }
            let ghost before = out@;
            if entries[i].is_connected() {
                out.push(entries[i].peer_id());
                assert(peer_id_seq(out@) =~= peer_id_seq(before).push(s[i as int].id_view()));
            }
            assert(peer_id_seq(out@) =~= s.take(i + 1).filter(|p: PeerInfo| state_connected(p.spec_state())).map_values(
                |p: PeerInfo| p.id_view(),
            ));
        }
        assert(s.take(n as int) =~= s);
        out
    }

    /// Identifiers of all peers, in insertion order.
    pub fn peer_ids(&self) -> (r: Vec<PeerId>)
        requires
            self.wf(),
        ensures
            peer_id_seq(r@) == self.id_seq(),
            r@.len() == self.peer_map().len(),
    {
        proof {
            self.peers.lemma_table();
        }
        let ids = self.peers.ids();
        let mut out: Vec<PeerId> = Vec::new();
        let n = ids.len();
        for i in 0..n
            invariant
                n == ids@.len(),
                out@ == ids@.take(i as int),
        {
            out.push(ids[i]);
            assert(out@ =~= ids@.take(i + 1));
        }
        assert(ids@.take(n as int) =~= ids@);
        out
    }

    pub fn clear(&mut self)
        requires
            old(self).wf(),
        ensures
            final(self).wf(),
            final(self).local_view() == old(self).local_view(),
            final(self).spec_max_peers() == old(self).spec_max_peers(),
            final(self).peer_map() == Map::<Seq<u8>, PeerInfo>::empty(),
    {
        self.peers.clear();
        proof {
            self.peers.lemma_table();
        }
    }
}

} // verus!
