//! Peer discovery against the bounded peer table: filtering candidate lists
//! and adding discovered peers.
use vstd::prelude::*;
use crate::bytes::{hash_eq, is_zero_hash, zero_hash};
use crate::p2p::{Peer, PeerAddress, PeerId, PeerManager};

verus! {

pub const MAX_DISCOVERY_PEERS: usize = 256;

pub const MAX_DISCOVERY_RESULTS: usize = 64;

#[derive(Debug, Clone, Copy, PartialEq, Eq)]
pub struct DiscoveredPeer {
    pub id: PeerId,
    pub address: PeerAddress,
}

/// A candidate is well formed: nonzero identifier and nonzero port.
pub open spec fn candidate_ok(p: DiscoveredPeer) -> bool {
    p.id@ != zero_hash() && p.address.spec_port() != 0
}

/// Whether a peer with identifier `id` is among `s`.
pub open spec fn has_id(s: Seq<DiscoveredPeer>, id: Seq<u8>) -> bool {
    exists|j: int| 0 <= j < s.len() && (#[trigger] s[j]).id@ == id
}

/// Result of filtering the first `i` candidates: stop once `max` are kept,
/// fail on a malformed candidate before that, skip the local node and
/// repeated identifiers.
pub open spec fn discover_prefix(local: Seq<u8>, max: int, peers: Seq<DiscoveredPeer>, i: int) -> Option<Seq<DiscoveredPeer>>
    decreases i,
{
    if i <= 0 {
        Some(Seq::empty())
    } else {
        match discover_prefix(local, max, peers, i - 1) {
            None => None,
            Some(res) => if res.len() >= max {
                Some(res)
            } else {
                let p = peers[i - 1];
                if !candidate_ok(p) {
                    None
                } else if p.id@ == local || has_id(res, p.id@) {
                    Some(res)
                } else {
                    Some(res.push(p))
                }
            },
        }
    }
}

impl DiscoveredPeer {
    pub fn new(id: PeerId, address: PeerAddress) -> (r: Result<Self, String>)
        ensures
            r is Ok <==> id@ != zero_hash() && address.spec_port() != 0,
            r matches Ok(p) ==> p == (DiscoveredPeer { id, address }),
    {
        match validate_peer_id(&id) {
            Ok(()) => {},
            Err(e) => return Err(e),
        }
        match validate_socket_address(&address) {
            Ok(()) => {},
            Err(e) => return Err(e),
        }
        Ok(DiscoveredPeer { id, address })
    }
}

#[derive(Debug, Clone, Copy, PartialEq, Eq)]
pub struct PeerDiscovery {
    local_node_id: PeerId,
    max_results: usize,
}

impl PeerDiscovery {
    pub closed spec fn local_view(&self) -> Seq<u8> {
        self.local_node_id@
    }

    pub closed spec fn spec_max_results(&self) -> usize {
        self.max_results
    }

    pub closed spec fn wf(&self) -> bool {
        self.local_node_id@ != zero_hash() && 1 <= self.max_results <= MAX_DISCOVERY_RESULTS
    }

    pub fn new(local_node_id: PeerId, max_results: usize) -> (r: Result<Self, String>)
        ensures
            r is Ok <==> local_node_id@ != zero_hash() && 1 <= max_results <= MAX_DISCOVERY_RESULTS,
            r matches Ok(d) ==> d.wf() && d.local_view() == local_node_id@ && d.spec_max_results() == max_results,
    {
        match validate_peer_id(&local_node_id) {
            Ok(()) => {},
            Err(e) => return Err(e),
        }
        if max_results == 0 {
            return Err(String::from_str("maximum discovery results cannot be zero"));
        }
        if max_results > MAX_DISCOVERY_RESULTS {
            return Err(String::from_str("maximum discovery results exceeds protocol limit"));
        }
        Ok(PeerDiscovery { local_node_id, max_results })
    }

    pub fn local_node_id(&self) -> (r: PeerId)
        ensures
            r@ == self.local_view(),
    {
        self.local_node_id
    }

    pub fn max_results(&self) -> (r: usize)
        ensures
            r == self.spec_max_results(),
    {
        self.max_results
    }

    /// Keeps candidates in order, skipping the local node and repeated
    /// identifiers, until `max_results` are kept.
    pub fn discover(&self, peers: &[DiscoveredPeer]) -> (r: Result<Vec<DiscoveredPeer>, String>)
        requires
            self.wf(),
        ensures
            r is Ok <==> peers@.len() <= MAX_DISCOVERY_PEERS && discover_prefix(
                self.local_view(),
                self.spec_max_results() as int,
                peers@,
                peers@.len() as int,
            ) is Some,
            r matches Ok(v) ==> Some(v@) == discover_prefix(
                self.local_view(),
                self.spec_max_results() as int,
                peers@,
                peers@.len() as int,
            ),
    {
        if peers.len() > MAX_DISCOVERY_PEERS {
            return Err(String::from_str("too many discovered peers"));
        }
        let ghost local = self.local_view();
        let ghost max = self.spec_max_results() as int;
        let mut result: Vec<DiscoveredPeer> = Vec::new();
        let n = peers.len();
        let mut i: usize = 0;
        while i < n
            invariant_except_break
                i <= n,
                n == peers@.len(),
                local == self.local_view(),
                max == self.spec_max_results(),
                self.wf(),
                discover_prefix(local, max, peers@, i as int) == Some(result@),
                result@.len() < max,
            ensures
                discover_prefix(local, max, peers@, n as int) == Some(result@),
            decreases n - i,
        {
            let peer = peers[i];
            match validate_peer_id(&peer.id) {
                Ok(()) => {},
                Err(e) => {
                    proof {
                        lemma_discover_fails_after(local, max, peers@, i + 1, n as int);
                    }
                    return Err(e);
                },
            }
            match validate_socket_address(&peer.address) {
                Ok(()) => {},
                Err(e) => {
                    proof {
                        lemma_discover_fails_after(local, max, peers@, i + 1, n as int);
                    }
                    return Err(e);
                },
            }
            i = i + 1;
            if hash_eq(&peer.id, &self.local_node_id) {
                continue;
            }
            if contains_id(&result, &peer.id) {
                continue;
            }
            result.push(peer);
            if result.len() >= self.max_results {
                proof {
                    lemma_discover_stays(local, max, peers@, i as int, n as int);
                }
                break;
            }
        }
        Ok(result)
    }

    /// Candidates from the peer table, except the local node, filtered as
    /// by `discover`.
    pub fn discover_from_manager(&self, manager: &PeerManager) -> (r: Result<Vec<DiscoveredPeer>, String>)
        requires
            self.wf(),
            manager.wf(),
        ensures
            r is Ok <==> candidates_of(self.local_view(), manager.peer_seq()).len() <= MAX_DISCOVERY_PEERS
                && (forall|i: int| 0 <= i < manager.peer_seq().len() && manager.peer_seq()[i].id@ != self.local_view()
                ==> (#[trigger] manager.peer_seq()[i]).address.spec_port() != 0 && manager.peer_seq()[i].id@
                != zero_hash()) && discover_prefix(
                self.local_view(),
                self.spec_max_results() as int,
                candidates_of(self.local_view(), manager.peer_seq()),
                candidates_of(self.local_view(), manager.peer_seq()).len() as int,
            ) is Some,
            r matches Ok(v) ==> Some(v@) == discover_prefix(
                self.local_view(),
                self.spec_max_results() as int,
                candidates_of(self.local_view(), manager.peer_seq()),
                candidates_of(self.local_view(), manager.peer_seq()).len() as int,
            ),
    {
        let ghost local = self.local_view();
        let peers = manager.peers();
        let ghost s = peers@;
        let mut candidates: Vec<DiscoveredPeer> = Vec::new();
        let n = peers.len();
        for i in 0..n
            invariant
                n == s.len(),
                s == peers@,
                s == manager.peer_seq(),
                local == self.local_view(),
                manager.wf(),
                candidates@ == candidates_of(local, s.take(i as int)),
                forall|j: int| 0 <= j < i && s[j].id@ != local ==> (#[trigger] s[j]).address.spec_port() != 0
                    && s[j].id@ != zero_hash(),
        {
            let peer = peers[i];
            proof {
                assert(s.take(i + 1).drop_last() =~= s.take(i as int));
            }
            if !hash_eq(&peer.id, &self.local_node_id) {
                let candidate = match DiscoveredPeer::new(peer.id, peer.address) {
                    Ok(c) => c,
                    Err(e) => {
                        return Err(e);
                    },
                };
                candidates.push(candidate);
            }
        }
        proof {
            assert(s.take(n as int) =~= s);
        }
        self.discover(candidates.as_slice())
    }

    /// Adds a well-formed, non-local, unknown peer to the table.
    pub fn add_discovered_peer(&self, manager: &mut PeerManager, peer: DiscoveredPeer) -> (r: Result<(), String>)
        requires
            self.wf(),
            old(manager).wf(),
        ensures
            final(manager).wf(),
            final(manager).spec_max_peers() == old(manager).spec_max_peers(),
            r is Ok <==> add_ok(self.local_view(), old(manager).peer_map(), old(manager).spec_max_peers(), peer),
            r is Ok ==> final(manager).peer_map() == old(manager).peer_map().insert(
                peer.id@,
                Peer { id: peer.id, address: peer.address, connected: false },
            ),
            r is Err ==> final(manager).peer_map() == old(manager).peer_map(),
    {
        match self.add_discovered(manager, peer) {
            AddOutcome::Added => Ok(()),
            AddOutcome::Known => Err(String::from_str("peer already exists")),
            AddOutcome::Refused(e) => Err(e),
        }
    }

    fn add_discovered(&self, manager: &mut PeerManager, peer: DiscoveredPeer) -> (r: AddOutcome)
        requires
            self.wf(),
            old(manager).wf(),
        ensures
            final(manager).wf(),
            final(manager).spec_max_peers() == old(manager).spec_max_peers(),
            r is Added <==> add_ok(self.local_view(), old(manager).peer_map(), old(manager).spec_max_peers(), peer),
            r is Known <==> candidate_ok(peer) && peer.id@ != self.local_view() && old(manager).peer_map().contains_key(
                peer.id@,
            ),
            r is Added ==> final(manager).peer_map() == old(manager).peer_map().insert(
                peer.id@,
                Peer { id: peer.id, address: peer.address, connected: false },
            ),
            !(r is Added) ==> final(manager).peer_map() == old(manager).peer_map(),
    {
        match validate_peer_id(&peer.id) {
            Ok(()) => {},
            Err(e) => return AddOutcome::Refused(e),
        }
        match validate_socket_address(&peer.address) {
            Ok(()) => {},
            Err(e) => return AddOutcome::Refused(e),
        }
        if hash_eq(&peer.id, &self.local_node_id) {
            return AddOutcome::Refused(String::from_str("cannot add local node as peer"));
        }
        if manager.contains(&peer.id) {
            return AddOutcome::Known;
        }
        match manager.add_peer(peer.id, peer.address) {
            Ok(()) => AddOutcome::Added,
            Err(e) => AddOutcome::Refused(e),
        }
    }

    /// Adds the candidates in order, skipping known ones; stops at the
    /// first other refusal. Returns how many were added.
    pub fn add_many(&self, manager: &mut PeerManager, peers: &[DiscoveredPeer]) -> (r: Result<usize, String>)
        requires
            self.wf(),
            old(manager).wf(),
        ensures
            final(manager).wf(),
            final(manager).spec_max_peers() == old(manager).spec_max_peers(),
            r is Ok <==> peers@.len() <= MAX_DISCOVERY_PEERS && add_many_prefix(
                self.local_view(),
                old(manager).peer_map(),
                old(manager).spec_max_peers(),
                peers@,
                peers@.len() as int,
            ) is Some,
            r matches Ok(n) ==> Some((final(manager).peer_map(), n as int)) == add_many_prefix(
                self.local_view(),
                old(manager).peer_map(),
                old(manager).spec_max_peers(),
                peers@,
                peers@.len() as int,
            ),
            peers@.len() > MAX_DISCOVERY_PEERS ==> final(manager).peer_map() == old(manager).peer_map(),
    {
        if peers.len() > MAX_DISCOVERY_PEERS {
            return Err(String::from_str("too many discovered peers"));
        }
        let ghost local = self.local_view();
        let ghost m0 = manager.peer_map();
        let ghost max = manager.spec_max_peers();
        let mut added: usize = 0;
        let n = peers.len();
        for i in 0..n
            invariant
                n == peers@.len(),
                n <= MAX_DISCOVERY_PEERS,
                self.wf(),
                local == self.local_view(),
                manager.wf(),
                manager.spec_max_peers() == max,
                max == old(manager).spec_max_peers(),
                m0 == old(manager).peer_map(),
                add_many_prefix(local, m0, max, peers@, i as int) == Some((manager.peer_map(), added as int)),
                added <= i,
        {
            let peer = peers[i];
            match self.add_discovered(manager, peer) {
                AddOutcome::Added => {
                    added = added + 1;
                },
                AddOutcome::Known => {},
                AddOutcome::Refused(e) => {
                    proof {
                        lemma_add_many_fails_after(local, m0, max, peers@, i + 1, n as int);
                    }
                    return Err(e);
                },
            }
        }
        Ok(added)
    }
}

/// Outcome of adding one discovered peer.
enum AddOutcome {
    Added,
    Known,
    Refused(String),
}

/// Whether adding `p` to a table `m` with limit `max` succeeds.
pub open spec fn add_ok(local: Seq<u8>, m: Map<Seq<u8>, Peer>, max: usize, p: DiscoveredPeer) -> bool {
    candidate_ok(p) && p.id@ != local && !m.contains_key(p.id@) && m.len() < max
}

/// Table and count after adding the first `i` candidates, skipping known
/// ones; `None` at the first other refusal.
pub open spec fn add_many_prefix(
    local: Seq<u8>,
    m: Map<Seq<u8>, Peer>,
    max: usize,
    peers: Seq<DiscoveredPeer>,
    i: int,
) -> Option<(Map<Seq<u8>, Peer>, int)>
    decreases i,
{
    if i <= 0 {
        Some((m, 0))
    } else {
        match add_many_prefix(local, m, max, peers, i - 1) {
            None => None,
            Some(st) => {
                let p = peers[i - 1];
                if add_ok(local, st.0, max, p) {
                    Some((st.0.insert(p.id@, Peer { id: p.id, address: p.address, connected: false }), st.1 + 1))
                } else if candidate_ok(p) && p.id@ != local && st.0.contains_key(p.id@) {
                    Some(st)
                } else {
                    None
                }
            },
        }
    }
}

/// Candidates built from table peers, leaving out the local node.
pub open spec fn candidates_of(local: Seq<u8>, s: Seq<Peer>) -> Seq<DiscoveredPeer>
    decreases s.len(),
{
    if s.len() == 0 {
        Seq::empty()
    } else {
        let rest = candidates_of(local, s.drop_last());
        let p = s.last();
        if p.id@ == local {
            rest
        } else {
            rest.push(DiscoveredPeer { id: p.id, address: p.address })
        }
    }
}

proof fn lemma_discover_fails_after(local: Seq<u8>, max: int, peers: Seq<DiscoveredPeer>, i: int, n: int)
    requires
        1 <= i <= n,
        discover_prefix(local, max, peers, i) is None,
    ensures
        discover_prefix(local, max, peers, n) is None,
    decreases n - i,
{
    if i < n {
        lemma_discover_fails_after(local, max, peers, i + 1, n);
    }
}

proof fn lemma_discover_stays(local: Seq<u8>, max: int, peers: Seq<DiscoveredPeer>, i: int, n: int)
    requires
        0 <= i <= n,
        discover_prefix(local, max, peers, i) is Some,
        discover_prefix(local, max, peers, i).unwrap().len() >= max,
    ensures
        discover_prefix(local, max, peers, n) == discover_prefix(local, max, peers, i),
    decreases n - i,
{
    if i < n {
        lemma_discover_stays(local, max, peers, i, n - 1);
    }
}

proof fn lemma_add_many_fails_after(
    local: Seq<u8>,
    m: Map<Seq<u8>, Peer>,
    max: usize,
    peers: Seq<DiscoveredPeer>,
    i: int,
    n: int,
)
    requires
        1 <= i <= n,
        add_many_prefix(local, m, max, peers, i) is None,
    ensures
        add_many_prefix(local, m, max, peers, n) is None,
    decreases n - i,
{
    if i < n {
        lemma_add_many_fails_after(local, m, max, peers, i + 1, n);
    }
}

/// Whether `v` holds a peer with identifier `id`.
fn contains_id(v: &Vec<DiscoveredPeer>, id: &PeerId) -> (r: bool)
    ensures
        r == has_id(v@, id@),
{
    let n = v.len();
    for i in 0..n
        invariant
            n == v@.len(),
            forall|j: int| 0 <= j < i ==> (#[trigger] v@[j]).id@ != id@,
    {
        if hash_eq(&v[i].id, id) {
            return true;
        }
    }
    false
}

pub fn validate_peer_id(peer_id: &PeerId) -> (r: Result<(), String>)
    ensures
        r is Ok <==> peer_id@ != zero_hash(),
{
    if is_zero_hash(peer_id) {
        return Err(String::from_str("peer id cannot be zero"));
    }
    Ok(())
}

pub fn validate_socket_address(address: &PeerAddress) -> (r: Result<(), String>)
    ensures
        r is Ok <==> address.spec_port() != 0,
{
    if address.port() == 0 {
        return Err(String::from_str("peer port cannot be zero"));
    }
    Ok(())
}

pub fn validate_discovered_peer(local_node_id: &PeerId, peer: &DiscoveredPeer) -> (r: Result<(), String>)
    ensures
        r is Ok <==> local_node_id@ != zero_hash() && candidate_ok(*peer) && local_node_id@ != peer.id@,
{
    match validate_peer_id(local_node_id) {
        Ok(()) => {},
        Err(e) => return Err(e),
    }
    match validate_peer_id(&peer.id) {
        Ok(()) => {},
        Err(e) => return Err(e),
    }
    match validate_socket_address(&peer.address) {
        Ok(()) => {},
        Err(e) => return Err(e),
    }
    if hash_eq(local_node_id, &peer.id) {
        return Err(String::from_str("discovered peer cannot be local node"));
    }
    Ok(())
}

} // verus!
