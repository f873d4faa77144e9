//! Managed peers keyed by identifier, each connected or not.
use vstd::prelude::*;
use crate::bytes::{is_zero_hash, zero_hash};
use crate::p2p::{PeerAddress, PeerId};
use crate::peer_table::PeerTable;

verus! {

#[derive(Debug, Clone, Copy, PartialEq, Eq)]
pub struct ManagedPeer {
    pub peer_id: PeerId,
    pub address: PeerAddress,
    pub connected: bool,
}

impl ManagedPeer {
    /// A disconnected peer; fails for a zero identifier.
    pub fn new(peer_id: PeerId, address: PeerAddress) -> (r: Result<Self, String>)
        ensures
            r is Ok <==> peer_id@ != zero_hash(),
            r matches Ok(p) ==> p == (ManagedPeer { peer_id, address, connected: false }),
    {
        if is_zero_hash(&peer_id) {
            return Err(String::from_str("peer id cannot be zero"));
        }
        Ok(ManagedPeer { peer_id, address, connected: false })
    }

    pub fn mark_connected(&mut self)
        ensures
            *final(self) == (ManagedPeer { connected: true, ..*old(self) }),
    {
        self.connected = true;
    }

    pub fn mark_disconnected(&mut self)
        ensures
            *final(self) == (ManagedPeer { connected: false, ..*old(self) }),
    {
        self.connected = false;
    }
}

/// Managed peers by identifier.
#[derive(Debug)]
pub struct PeerManager {
    peers: PeerTable<ManagedPeer>,
}

impl PeerManager {
    pub closed spec fn peer_map(&self) -> Map<Seq<u8>, ManagedPeer> {
        self.peers.map()
    }

    /// The peers in insertion order.
    pub closed spec fn peer_seq(&self) -> Seq<ManagedPeer> {
        self.peers.values()
    }

    /// Every stored peer sits under its own nonzero identifier.
    pub closed spec fn wf(&self) -> bool {
        &&& self.peers.wf()
        &&& forall|k: Seq<u8>| #[trigger] self.peers.map().contains_key(k) ==> self.peers.map()[k].peer_id@ == k
            && k != zero_hash()
    }

    pub fn new() -> (r: Self)
        ensures
            r.wf(),
            r.peer_map() == Map::<Seq<u8>, ManagedPeer>::empty(),
    {
        PeerManager { peers: PeerTable::new() }
    }

    /// Adds a peer under its identifier; fails for a zero or known
    /// identifier.
    pub fn add_peer(&mut self, peer: ManagedPeer) -> (r: Result<(), String>)
        requires
            old(self).wf(),
        ensures
            final(self).wf(),
            r is Ok <==> peer.peer_id@ != zero_hash() && !old(self).peer_map().contains_key(peer.peer_id@),
            r is Ok ==> final(self).peer_map() == old(self).peer_map().insert(peer.peer_id@, peer),
            r is Err ==> final(self).peer_map() == old(self).peer_map(),
    {
        if is_zero_hash(&peer.peer_id) {
            return Err(String::from_str("peer id cannot be zero"));
        }
        if self.peers.contains(&peer.peer_id) {
            return Err(String::from_str("peer already exists"));
        }
        self.peers.insert(peer.peer_id, peer);
        Ok(())
    }

    pub fn remove_peer(&mut self, peer_id: &PeerId) -> (r: Option<ManagedPeer>)
        requires
            old(self).wf(),
        ensures
            final(self).wf(),
            r is Some <==> old(self).peer_map().contains_key(peer_id@),
            r matches Some(p) ==> p == old(self).peer_map()[peer_id@],
            final(self).peer_map() == old(self).peer_map().remove(peer_id@),
    {
        self.peers.remove(peer_id)
    }

    pub fn get_peer(&self, peer_id: &PeerId) -> (r: Option<&ManagedPeer>)
        requires
            self.wf(),
        ensures
            r is Some <==> self.peer_map().contains_key(peer_id@),
            r matches Some(p) ==> *p == self.peer_map()[peer_id@],
    {
        self.peers.get(peer_id)
    }

    /// The peer under an identifier, to change in place. The manager stays
    /// well formed as long as the peer keeps its identifier.
    pub fn get_peer_mut(&mut self, peer_id: &PeerId) -> (r: Option<&mut ManagedPeer>)
        requires
            old(self).wf(),
        ensures
            r is Some <==> old(self).peer_map().contains_key(peer_id@),
            r matches Some(p) ==> *p == old(self).peer_map()[peer_id@] && final(self).peer_map()
                == old(self).peer_map().insert(peer_id@, *final(p)) && (final(p).peer_id@ == peer_id@
                ==> final(self).wf()),
            r is None ==> final(self).peer_map() == old(self).peer_map() && final(self).wf(),
    {
        self.peers.get_mut(peer_id)
    }

    pub fn contains_peer(&self, peer_id: &PeerId) -> (r: bool)
        requires
            self.wf(),
        ensures
            r == self.peer_map().contains_key(peer_id@),
    {
        self.peers.contains(peer_id)
    }

    pub fn peer_count(&self) -> (r: usize)
        requires
            self.wf(),
        ensures
            r == self.peer_map().len(),
    {
        self.peers.len()
    }

    pub fn connected_peer_count(&self) -> (r: usize)
        requires
            self.wf(),
        ensures
            r == self.peer_seq().filter(|p: ManagedPeer| p.connected).len(),
    {
        let entries = self.peers.entries();
        let ghost s = entries@;
        let mut count: usize = 0;
        let n = entries.len();
        for i in 0..n
            invariant
                n == s.len(),
                s == entries@,
                count == s.take(i as int).filter(|p: ManagedPeer| p.connected).len(),
                count <= i,
        {
            proof {
                s.take(i as int).lemma_filter_len_push(|p: ManagedPeer| p.connected, s[i as int]);
                assert(s.take(i as int).push(s[i as int]) =~= s.take(i + 1));
            }
            if entries[i].connected {
                count = count + 1;
            }
        }
        assert(s.take(n as int) =~= s);
        count
    }

    fn set_connected(&mut self, peer_id: &PeerId, connected: bool) -> (r: Result<(), String>)
        requires
            old(self).wf(),
        ensures
            final(self).wf(),
            r is Ok <==> old(self).peer_map().contains_key(peer_id@),
            r is Ok ==> final(self).peer_map() == old(self).peer_map().insert(
                peer_id@,
                ManagedPeer { connected: connected, ..old(self).peer_map()[peer_id@] },
            ),
            r is Err ==> final(self).peer_map() == old(self).peer_map(),
    {
        let peer = match self.peers.get(peer_id) {
            Some(p) => *p,
            None => return Err(String::from_str("peer not found")),
        };
        let updated = ManagedPeer { peer_id: peer.peer_id, address: peer.address, connected };
        self.peers.set(peer_id, updated);
        Ok(())
    }

    pub fn mark_connected(&mut self, peer_id: &PeerId) -> (r: Result<(), String>)
        requires
            old(self).wf(),
        ensures
            final(self).wf(),
            r is Ok <==> old(self).peer_map().contains_key(peer_id@),
            r is Ok ==> final(self).peer_map() == old(self).peer_map().insert(
                peer_id@,
                ManagedPeer { connected: true, ..old(self).peer_map()[peer_id@] },
            ),
            r is Err ==> final(self).peer_map() == old(self).peer_map(),
    {
        self.set_connected(peer_id, true)
    }

    pub fn mark_disconnected(&mut self, peer_id: &PeerId) -> (r: Result<(), String>)
        requires
            old(self).wf(),
        ensures
            final(self).wf(),
            r is Ok <==> old(self).peer_map().contains_key(peer_id@),
            r is Ok ==> final(self).peer_map() == old(self).peer_map().insert(
                peer_id@,
                ManagedPeer { connected: false, ..old(self).peer_map()[peer_id@] },
            ),
            r is Err ==> final(self).peer_map() == old(self).peer_map(),
    {
        self.set_connected(peer_id, false)
    }

    /// The stored peers in the order they were added.
    pub fn peers(&self) -> (r: Vec<ManagedPeer>)
        requires
            self.wf(),
        ensures
            r@ == self.peer_seq(),
    {
        let entries = self.peers.entries();
        let mut out: Vec<ManagedPeer> = Vec::new();
        let n = entries.len();
        for i in 0..n
            invariant
                n == entries@.len(),
                out@ == entries@.take(i as int),
        {
            out.push(entries[i]);
            assert(out@ =~= entries@.take(i + 1));
        }
        assert(entries@.take(n as int) =~= entries@);
        out
    }

    /// The connected peers in the order they were added.
    pub fn connected_peers(&self) -> (r: Vec<ManagedPeer>)
        requires
            self.wf(),
        ensures
            r@ == self.peer_seq().filter(|p: ManagedPeer| p.connected),
    {
        let entries = self.peers.entries();
        let ghost s = entries@;
        let mut out: Vec<ManagedPeer> = Vec::new();
        let n = entries.len();
        for i in 0..n
            invariant
                n == s.len(),
                s == entries@,
                out@ == s.take(i as int).filter(|p: ManagedPeer| p.connected),
        {
            proof {
                assert(s.take(i as int).push(s[i as int]) =~= s.take(i + 1));
                s.take(i as int).lemma_filter_push(s[i as int], |p: ManagedPeer| p.connected);
            }
            if entries[i].connected {
                out.push(entries[i]);
            }
        }
        assert(s.take(n as int) =~= s);
        out
    }
}

impl Default for PeerManager {
    fn default() -> (r: Self)
        ensures
            r.wf(),
            r.peer_map() == Map::<Seq<u8>, ManagedPeer>::empty(),
    {
        Self::new()
    }
}

} // verus!
