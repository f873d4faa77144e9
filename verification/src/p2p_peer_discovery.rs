//! Discovery bookkeeping over the managed peer table, and the binary
//! peers payload exchanged in GetPeers / Peers messages.
use vstd::prelude::*;
use crate::bytes::{
    hash_eq, is_zero_hash, lemma_u16_be_roundtrip, push_bytes, push_u16_be, read_array_16, read_array_32,
    read_array_4, read_u16_be, spec_u16_be, spec_u16_from_be, zero_hash,
};
use crate::p2p::{PeerAddress, PeerId};
use crate::p2p_manager::{ManagedPeer, PeerManager};
use crate::p2p_protocol::{spec_payload_valid, MessageType, ProtocolMessage, MAX_PEER_ADDRESSES, P2P_PROTOCOL_VERSION};
use crate::peer_table::peer_id_seq;

verus! {

#[derive(Debug, Clone, Copy, PartialEq, Eq)]
pub struct DiscoveredPeer {
    pub peer_id: PeerId,
    pub address: PeerAddress,
}

impl DiscoveredPeer {
    pub fn new(peer_id: PeerId, address: PeerAddress) -> (r: Result<Self, String>)
        ensures
            r is Ok <==> peer_id@ != zero_hash(),
            r matches Ok(p) ==> p == (DiscoveredPeer { peer_id, address }),
    {
        if is_zero_hash(&peer_id) {
            return Err(String::from_str("peer id cannot be zero"));
        }
        Ok(DiscoveredPeer { peer_id, address })
    }
}

/// The set of identifiers discovered so far.
#[derive(Debug)]
pub struct PeerDiscovery {
    discovered: Vec<PeerId>,
}

impl PeerDiscovery {
    pub closed spec fn id_set(&self) -> Set<Seq<u8>> {
        peer_id_seq(self.discovered@).to_set()
    }

    pub closed spec fn wf(&self) -> bool {
        peer_id_seq(self.discovered@).no_duplicates()
    }

    pub fn new() -> (r: Self)
        ensures
            r.wf(),
            r.id_set() == Set::<Seq<u8>>::empty(),
    {
        let r = PeerDiscovery { discovered: Vec::new() };
        assert(peer_id_seq(r.discovered@) =~= Seq::<Seq<u8>>::empty());
        assert(r.id_set() =~= Set::<Seq<u8>>::empty());
        r
    }

    pub fn discovered_count(&self) -> (r: usize)
        requires
            self.wf(),
        ensures
            r == self.id_set().len(),
    {
        proof {
            peer_id_seq(self.discovered@).unique_seq_to_set();
        }
        self.discovered.len()
    }

    pub fn contains(&self, peer_id: &PeerId) -> (r: bool)
        ensures
            r == self.id_set().contains(peer_id@),
    {
        let n = self.discovered.len();
        for i in 0..n
            invariant
                n == self.discovered@.len(),
                forall|j: int| 0 <= j < i ==> (#[trigger] self.discovered@[j])@ != peer_id@,
        {
            if hash_eq(&self.discovered[i], peer_id) {
                assert(peer_id_seq(self.discovered@)[i as int] == peer_id@);
                return true;
            }
        }
        proof {
            if self.id_set().contains(peer_id@) {
                let j = choose|j: int| 0 <= j < peer_id_seq(self.discovered@).len() && peer_id_seq(self.discovered@)[j]
                    == peer_id@;
                assert(self.discovered@[j]@ == peer_id@);
            }
        }
        false
    }

    /// Records a peer's identifier; true when it was new. Fails for a zero
    /// identifier.
    pub fn discover(&mut self, peer: &DiscoveredPeer) -> (r: Result<bool, String>)
        requires
            old(self).wf(),
        ensures
            final(self).wf(),
            r is Ok <==> peer.peer_id@ != zero_hash(),
            r matches Ok(b) ==> b == !old(self).id_set().contains(peer.peer_id@),
            r is Ok ==> final(self).id_set() == old(self).id_set().insert(peer.peer_id@),
            r is Err ==> final(self).id_set() == old(self).id_set(),
    {
        if is_zero_hash(&peer.peer_id) {
            return Err(String::from_str("peer id cannot be zero"));
        }
        if self.contains(&peer.peer_id) {
            assert(self.id_set().insert(peer.peer_id@) =~= self.id_set());
            return Ok(false);
        }
        let ghost before = peer_id_seq(self.discovered@);
        self.discovered.push(peer.peer_id);
        proof {
            assert(peer_id_seq(self.discovered@) =~= before.push(peer.peer_id@));
            before.lemma_push_to_set_commute(peer.peer_id@);
            assert(!before.contains(peer.peer_id@));
            assert forall|i: int, j: int| 0 <= i < j < before.len() + 1 implies peer_id_seq(self.discovered@)[i]
                != peer_id_seq(self.discovered@)[j] by {
                if j == before.len() {
                    assert(before[i] == peer_id_seq(self.discovered@)[i]);
                }
            }
        }
        Ok(true)
    }

    pub fn clear(&mut self)
        ensures
            final(self).wf(),
            final(self).id_set() == Set::<Seq<u8>>::empty(),
    {
        self.discovered.clear();
        assert(peer_id_seq(self.discovered@) =~= Seq::<Seq<u8>>::empty());
        assert(self.id_set() =~= Set::<Seq<u8>>::empty());
    }
}

impl Default for PeerDiscovery {
    fn default() -> (r: Self)
        ensures
            r.wf(),
            r.id_set() == Set::<Seq<u8>>::empty(),
    {
        Self::new()
    }
}

/// The managed peer a discovered peer becomes.
pub open spec fn managed(p: DiscoveredPeer) -> ManagedPeer {
    ManagedPeer { peer_id: p.peer_id, address: p.address, connected: false }
}

/// Adds a discovered peer to the table unless already known; true when
/// added. Fails for a zero identifier.
pub fn add_discovered_peer(manager: &mut PeerManager, peer: &DiscoveredPeer) -> (r: Result<bool, String>)
    requires
        old(manager).wf(),
    ensures
        final(manager).wf(),
        r is Ok <==> peer.peer_id@ != zero_hash(),
        r matches Ok(b) ==> b == !old(manager).peer_map().contains_key(peer.peer_id@),
        r matches Ok(true) ==> final(manager).peer_map() == old(manager).peer_map().insert(peer.peer_id@, managed(*peer)),
        !(r matches Ok(true)) ==> final(manager).peer_map() == old(manager).peer_map(),
{
    if is_zero_hash(&peer.peer_id) {
        return Err(String::from_str("peer id cannot be zero"));
    }
    if manager.contains_peer(&peer.peer_id) {
        return Ok(false);
    }
    let managed_peer = match ManagedPeer::new(peer.peer_id, peer.address) {
        Ok(p) => p,
        Err(e) => return Err(e),
    };
    match manager.add_peer(managed_peer) {
        Ok(()) => {},
        Err(e) => return Err(e),
    }
    Ok(true)
}

/// Records the peer as discovered and, when it is new, adds it to the
/// table; true when added.
pub fn discover_and_add_peer(discovery: &mut PeerDiscovery, manager: &mut PeerManager, peer: DiscoveredPeer) -> (r: Result<bool, String>)
    requires
        old(discovery).wf(),
        old(manager).wf(),
    ensures
        final(discovery).wf(),
        final(manager).wf(),
        r is Ok <==> peer.peer_id@ != zero_hash(),
        r is Ok ==> final(discovery).id_set() == old(discovery).id_set().insert(peer.peer_id@),
        r matches Ok(b) ==> b == (!old(discovery).id_set().contains(peer.peer_id@) && !old(manager).peer_map().contains_key(
            peer.peer_id@,
        )),
        r matches Ok(true) ==> final(manager).peer_map() == old(manager).peer_map().insert(peer.peer_id@, managed(peer)),
        !(r matches Ok(true)) ==> final(manager).peer_map() == old(manager).peer_map(),
        r is Err ==> final(discovery).id_set() == old(discovery).id_set(),
{
    if is_zero_hash(&peer.peer_id) {
        return Err(String::from_str("peer id cannot be zero"));
    }
    let discovered = match discovery.discover(&peer) {
        Ok(b) => b,
        Err(e) => return Err(e),
    };
    if !discovered {
        return Ok(false);
    }
    add_discovered_peer(manager, &peer)
}

/// Table and count after adding the first `i` peers, skipping known ones;
/// `None` at a zero identifier.
pub open spec fn add_peers_prefix(m: Map<Seq<u8>, ManagedPeer>, peers: Seq<DiscoveredPeer>, i: int) -> Option<(Map<Seq<u8>, ManagedPeer>, int)>
    decreases i,
{
    if i <= 0 {
        Some((m, 0))
    } else {
        match add_peers_prefix(m, peers, i - 1) {
            None => None,
            Some(st) => {
                let p = peers[i - 1];
                if p.peer_id@ == zero_hash() {
                    None
                } else if st.0.contains_key(p.peer_id@) {
                    Some(st)
                } else {
                    Some((st.0.insert(p.peer_id@, managed(p)), st.1 + 1))
                }
            },
        }
    }
}

proof fn lemma_add_peers_fails_after(m: Map<Seq<u8>, ManagedPeer>, peers: Seq<DiscoveredPeer>, i: int, n: int)
    requires
        1 <= i <= n,
        add_peers_prefix(m, peers, i) is None,
    ensures
        add_peers_prefix(m, peers, n) is None,
    decreases n - i,
{
    if i < n {
        lemma_add_peers_fails_after(m, peers, i + 1, n);
    }
}

/// Adds each unknown peer in order; returns how many were added.
pub fn add_peers(manager: &mut PeerManager, peers: &[DiscoveredPeer]) -> (r: Result<usize, String>)
    requires
        old(manager).wf(),
    ensures
        final(manager).wf(),
        r is Ok <==> peers@.len() <= MAX_PEER_ADDRESSES && add_peers_prefix(old(manager).peer_map(), peers@, peers@.len() as int)
            is Some,
        r matches Ok(n) ==> Some((final(manager).peer_map(), n as int)) == add_peers_prefix(
            old(manager).peer_map(),
            peers@,
            peers@.len() as int,
        ),
{
    if peers.len() > MAX_PEER_ADDRESSES {
        return Err(String::from_str("too many peers"));
    }
    let ghost m0 = manager.peer_map();
    let mut added: usize = 0;
    let n = peers.len();
    for i in 0..n
        invariant
            n == peers@.len(),
            n <= MAX_PEER_ADDRESSES,
            manager.wf(),
            m0 == old(manager).peer_map(),
            add_peers_prefix(m0, peers@, i as int) == Some((manager.peer_map(), added as int)),
            added <= i,
    {
        let peer = peers[i];
        if is_zero_hash(&peer.peer_id) {
            proof {
                lemma_add_peers_fails_after(m0, peers@, i + 1, n as int);
            }
            return Err(String::from_str("peer id cannot be zero"));
        }
        if !manager.contains_peer(&peer.peer_id) {
            let managed_peer = match ManagedPeer::new(peer.peer_id, peer.address) {
                Ok(p) => p,
                Err(e) => return Err(e),
            };
            match manager.add_peer(managed_peer) {
                Ok(()) => {},
                Err(e) => return Err(e),
            }
            added = added + 1;
        }
    }
    Ok(added)
}

/// The discovered peer a managed peer is advertised as.
pub open spec fn advertised(p: ManagedPeer) -> DiscoveredPeer {
    DiscoveredPeer { peer_id: p.peer_id, address: p.address }
}

/// Connected peers of the table, in insertion order.
pub fn connected_discovered_peers(manager: &PeerManager) -> (r: Vec<DiscoveredPeer>)
    requires
        manager.wf(),
    ensures
        r@ == manager.peer_seq().filter(|p: ManagedPeer| p.connected).map_values(|p: ManagedPeer| advertised(p)),
{
    let peers = manager.connected_peers();
    to_discovered(&peers)
}

/// All peers of the table, in insertion order.
pub fn all_discovered_peers(manager: &PeerManager) -> (r: Vec<DiscoveredPeer>)
    requires
        manager.wf(),
    ensures
        r@ == manager.peer_seq().map_values(|p: ManagedPeer| advertised(p)),
{
    let peers = manager.peers();
    to_discovered(&peers)
}

fn to_discovered(peers: &Vec<ManagedPeer>) -> (r: Vec<DiscoveredPeer>)
    ensures
        r@ == peers@.map_values(|p: ManagedPeer| advertised(p)),
{
    let mut out: Vec<DiscoveredPeer> = Vec::new();
    let n = peers.len();
    for i in 0..n
        invariant
            n == peers@.len(),
            out@ == peers@.take(i as int).map_values(|p: ManagedPeer| advertised(p)),
    {
        let p = peers[i];
        out.push(DiscoveredPeer { peer_id: p.peer_id, address: p.address });
        assert(out@ =~= peers@.take(i + 1).map_values(|p: ManagedPeer| advertised(p)));
    }
    assert(peers@.take(n as int) =~= peers@);
    out
}

// Peers payload: a big-endian u16 count, then per peer the 32-byte
// identifier, an address family byte (4 or 6), the 4 or 16 address bytes
// and a big-endian u16 port.

/// Encoding of an address: family byte, address bytes, port.
pub open spec fn address_bytes(a: PeerAddress) -> Seq<u8> {
    match a {
        PeerAddress::V4 { octets, port } => seq![4u8] + octets@ + spec_u16_be(port),
        PeerAddress::V6 { segments, port } => seq![6u8] + segments@ + spec_u16_be(port),
    }
}

/// Encoding of one peer entry.
pub open spec fn entry_bytes(p: DiscoveredPeer) -> Seq<u8> {
    p.peer_id@ + address_bytes(p.address)
}

/// Encodings of the entries, concatenated.
pub open spec fn entries_bytes(s: Seq<DiscoveredPeer>) -> Seq<u8>
    decreases s.len(),
{
    if s.len() == 0 {
        Seq::empty()
    } else {
        entries_bytes(s.drop_last()) + entry_bytes(s.last())
    }
}

/// The peers payload for a list of peers.
pub open spec fn spec_peers_payload(s: Seq<DiscoveredPeer>) -> Seq<u8> {
    spec_u16_be(s.len() as u16) + entries_bytes(s)
}

/// A list that can be sent: at most the protocol limit, no zero and no
/// repeated identifier.
pub open spec fn peers_encodable(s: Seq<DiscoveredPeer>) -> bool {
    &&& s.len() <= MAX_PEER_ADDRESSES
    &&& forall|i: int| 0 <= i < s.len() ==> (#[trigger] s[i]).peer_id@ != zero_hash()
    &&& forall|i: int, j: int| 0 <= i < j < s.len() ==> (#[trigger] s[i]).peer_id@ != (#[trigger] s[j]).peer_id@
}

proof fn lemma_entry_len(p: DiscoveredPeer)
    ensures
        entry_bytes(p).len() == (match p.address {
            PeerAddress::V4 { .. } => 39int,
            PeerAddress::V6 { .. } => 51int,
        }),
{
}

/// The encodings of a prefix of the list start the encoding of the list.
proof fn lemma_entries_prefix(s: Seq<DiscoveredPeer>, j: int)
    requires
        0 <= j <= s.len(),
    ensures
        entries_bytes(s.take(j)).len() <= entries_bytes(s).len(),
        entries_bytes(s).subrange(0, entries_bytes(s.take(j)).len() as int) == entries_bytes(s.take(j)),
    decreases s.len(),
{
    if j == s.len() {
        assert(s.take(j) =~= s);
        assert(entries_bytes(s).subrange(0, entries_bytes(s).len() as int) =~= entries_bytes(s));
    } else {
        lemma_entries_prefix(s.drop_last(), j);
        assert(s.drop_last().take(j) =~= s.take(j));
        assert(entries_bytes(s).subrange(0, entries_bytes(s.take(j)).len() as int) =~= entries_bytes(
            s.drop_last(),
        ).subrange(0, entries_bytes(s.take(j)).len() as int));
    }
}

proof fn lemma_entries_step(s: Seq<DiscoveredPeer>, k: int)
    requires
        0 <= k < s.len(),
    ensures
        entries_bytes(s.take(k + 1)) == entries_bytes(s.take(k)) + entry_bytes(s[k]),
{
    assert(s.take(k + 1).drop_last() =~= s.take(k));
}

/// Where entry `k` of a payload for `v` lies: right after the encodings of
/// the entries before it.
proof fn lemma_entry_at(payload: Seq<u8>, v: Seq<DiscoveredPeer>, k: int)
    requires
        payload == spec_peers_payload(v),
        0 <= k < v.len(),
    ensures
        2 + entries_bytes(v.take(k + 1)).len() <= payload.len(),
        payload.subrange(2 + entries_bytes(v.take(k)).len() as int, 2 + entries_bytes(v.take(k + 1)).len() as int) == entry_bytes(
            v[k],
        ),
{
    lemma_entries_prefix(v, k + 1);
    lemma_entries_step(v, k);
    let a = entries_bytes(v.take(k)).len() as int;
    let b = entries_bytes(v.take(k + 1)).len() as int;
    assert(payload.subrange(2 + a, 2 + b) =~= entries_bytes(v).subrange(0, b).subrange(a, b));
}

/// Family byte of an address.
pub open spec fn family_byte(a: PeerAddress) -> u8 {
    match a {
        PeerAddress::V4 { .. } => 4,
        PeerAddress::V6 { .. } => 6,
    }
}

/// What a decoder finds at entry `k` of the payload for `v`.
proof fn lemma_decode_entry(p: Seq<u8>, v: Seq<DiscoveredPeer>, k: int, cursor: int)
    requires
        represents(p, v),
        0 <= k < v.len(),
        cursor == 2 + entries_bytes(v.take(k)).len(),
    ensures
        cursor + entry_bytes(v[k]).len() <= p.len(),
        entries_bytes(v.take(k + 1)).len() == entries_bytes(v.take(k)).len() + entry_bytes(v[k]).len(),
        p.subrange(cursor, cursor + 32) == v[k].peer_id@,
        p[cursor + 32] == family_byte(v[k].address),
        v[k].address matches PeerAddress::V4 { octets, port } ==> entry_bytes(v[k]).len() == 39 && p.subrange(
            cursor + 33,
            cursor + 37,
        ) == octets@ && spec_u16_from_be(p[cursor + 37], p[cursor + 38]) == port,
        v[k].address matches PeerAddress::V6 { segments, port } ==> entry_bytes(v[k]).len() == 51 && p.subrange(
            cursor + 33,
            cursor + 49,
        ) == segments@ && spec_u16_from_be(p[cursor + 49], p[cursor + 50]) == port,
{
    lemma_entry_at(p, v, k);
    lemma_entries_step(v, k);
    lemma_entry_len(v[k]);
    let e = entry_bytes(v[k]);
    let end = cursor + e.len();
    assert(p.subrange(cursor, end) == e);
    assert(p.subrange(cursor, cursor + 32) =~= e.subrange(0, 32));
    assert(e.subrange(0, 32) =~= v[k].peer_id@);
    assert(p[cursor + 32] == e[32]);
    match v[k].address {
        PeerAddress::V4 { octets, port } => {
            assert(p.subrange(cursor + 33, cursor + 37) =~= e.subrange(33, 37));
            assert(e.subrange(33, 37) =~= octets@);
            assert(e.subrange(37, 39) =~= spec_u16_be(port));
            assert(p.subrange(cursor + 37, cursor + 39) =~= e.subrange(37, 39));
            assert(p[cursor + 37] == p.subrange(cursor + 37, cursor + 39)[0]);
            assert(p[cursor + 38] == p.subrange(cursor + 37, cursor + 39)[1]);
            lemma_u16_be_roundtrip(port, 0, 0);
        },
        PeerAddress::V6 { segments, port } => {
            assert(p.subrange(cursor + 33, cursor + 49) =~= e.subrange(33, 49));
            assert(e.subrange(33, 49) =~= segments@);
            assert(e.subrange(49, 51) =~= spec_u16_be(port));
            assert(p.subrange(cursor + 49, cursor + 51) =~= e.subrange(49, 51));
            assert(p[cursor + 49] == p.subrange(cursor + 49, cursor + 51)[0]);
            assert(p[cursor + 50] == p.subrange(cursor + 49, cursor + 51)[1]);
            lemma_u16_be_roundtrip(port, 0, 0);
        },
    }
}

pub fn encode_peers_payload(peers: &[DiscoveredPeer]) -> (r: Result<Vec<u8>, String>)
    ensures
        r is Ok <==> peers_encodable(peers@),
        r matches Ok(b) ==> b@ == spec_peers_payload(peers@),
{
    if peers.len() > MAX_PEER_ADDRESSES {
        return Err(String::from_str("too many peers"));
    }
    let mut buffer: Vec<u8> = Vec::new();
    let count = peers.len() as u16;
    push_u16_be(&mut buffer, count);
    let n = peers.len();
    assert(peers@.take(0) =~= Seq::<DiscoveredPeer>::empty());
    for i in 0..n
        invariant
            n == peers@.len(),
            n <= MAX_PEER_ADDRESSES,
            count == n,
            buffer@ == spec_u16_be(count) + entries_bytes(peers@.take(i as int)),
            forall|a: int| 0 <= a < i ==> (#[trigger] peers@[a]).peer_id@ != zero_hash(),
            forall|a: int, b: int| 0 <= a < b < i ==> (#[trigger] peers@[a]).peer_id@ != (#[trigger] peers@[b]).peer_id@,
    {
        let peer = peers[i];
        if is_zero_hash(&peer.peer_id) {
            return Err(String::from_str("peer id cannot be zero"));
        }
        let mut j: usize = 0;
        while j < i
            invariant
                j <= i < n,
                n == peers@.len(),
                peer == peers@[i as int],
                forall|a: int| 0 <= a < j ==> (#[trigger] peers@[a]).peer_id@ != peer.peer_id@,
            decreases i - j,
        {
            if hash_eq(&peers[j].peer_id, &peer.peer_id) {
                return Err(String::from_str("duplicate peer id in payload"));
            }
            j = j + 1;
        }
        let ghost before = buffer@;
        push_bytes(&mut buffer, &peer.peer_id);
        match peer.address {
            PeerAddress::V4 { octets, port } => {
                buffer.push(4u8);
                push_bytes(&mut buffer, &octets);
                push_u16_be(&mut buffer, port);
            },
            PeerAddress::V6 { segments, port } => {
                buffer.push(6u8);
                push_bytes(&mut buffer, &segments);
                push_u16_be(&mut buffer, port);
            },
        }
        proof {
            lemma_entries_step(peers@, i as int);
            assert(buffer@ =~= before + entry_bytes(peers@[i as int]));
        }
    }
    assert(peers@.take(n as int) =~= peers@);
    Ok(buffer)
}

/// Whether `payload` is the encoding of the sendable list `v`.
pub open spec fn represents(payload: Seq<u8>, v: Seq<DiscoveredPeer>) -> bool {
    peers_encodable(v) && payload == spec_peers_payload(v)
}

/// Decodes a peers payload. It succeeds exactly on the encoding of a
/// sendable list, and then gives that list back.
pub fn decode_peers_payload(payload: &[u8]) -> (r: Result<Vec<DiscoveredPeer>, String>)
    ensures
        r matches Ok(v) ==> represents(payload@, v@),
        forall|v: Seq<DiscoveredPeer>| #[trigger] represents(payload@, v) ==> (r matches Ok(w) && w@ == v),
{
    let ghost p = payload@;
    if payload.len() < 2 {
        proof {
            assert forall|v: Seq<DiscoveredPeer>| #[trigger] represents(p, v) implies false by {}
        }
        return Err(String::from_str("peers payload is too short"));
    }
    let count16 = read_u16_be(payload, 0);
    let count = count16 as usize;
    proof {
        assert forall|v: Seq<DiscoveredPeer>| #[trigger] represents(p, v) implies v.len() == count by {
            lemma_u16_be_roundtrip(v.len() as u16, p[0], p[1]);
            assert(p[0] == spec_u16_be(v.len() as u16)[0]);
            assert(p[1] == spec_u16_be(v.len() as u16)[1]);
        }
    }
    if count > MAX_PEER_ADDRESSES {
        return Err(String::from_str("peer count exceeds maximum"));
    }
    if count == 0 {
        if payload.len() != 2 {
            proof {
                assert forall|v: Seq<DiscoveredPeer>| #[trigger] represents(p, v) implies false by {
                    assert(entries_bytes(v) =~= Seq::<u8>::empty());
                }
            }
            return Err(String::from_str("invalid empty peers payload"));
        }
        let r: Vec<DiscoveredPeer> = Vec::new();
        proof {
            lemma_u16_be_roundtrip(0u16, p[0], p[1]);
            assert(p =~= spec_peers_payload(r@));
            assert forall|v: Seq<DiscoveredPeer>| #[trigger] represents(p, v) implies v == r@ by {
                assert(v =~= r@);
            }
        }
        return Ok(r);
    }
    let mut cursor: usize = 2;
    let mut result: Vec<DiscoveredPeer> = Vec::new();
    assert(p.subrange(2, 2) =~= entries_bytes(result@));
    for k in 0..count
        invariant
            p == payload@,
            2 <= cursor <= p.len(),
            1 <= count <= MAX_PEER_ADDRESSES,
            count == spec_u16_from_be(p[0], p[1]),
            result@.len() == k,
            p.subrange(2, cursor as int) == entries_bytes(result@),
            forall|a: int| 0 <= a < k ==> (#[trigger] result@[a]).peer_id@ != zero_hash(),
            forall|a: int, b: int| 0 <= a < b < k ==> (#[trigger] result@[a]).peer_id@ != (#[trigger] result@[b]).peer_id@,
            forall|v: Seq<DiscoveredPeer>| #[trigger] represents(p, v) ==> v.len() == count && result@ == v.take(k as int),
    {
        let ghost c0 = cursor as int;
        assert(c0 == 2 + entries_bytes(result@).len());
        if payload.len() - cursor < 33 {
            proof {
                assert forall|v: Seq<DiscoveredPeer>| #[trigger] represents(p, v) implies false by {
                    lemma_decode_entry(p, v, k as int, c0);
                }
            }
            return Err(String::from_str("truncated peer entry"));
        }
        let peer_id = read_array_32(payload, cursor);
        if is_zero_hash(&peer_id) {
            proof {
                assert forall|v: Seq<DiscoveredPeer>| #[trigger] represents(p, v) implies false by {
                    lemma_decode_entry(p, v, k as int, c0);
                }
            }
            return Err(String::from_str("peer id cannot be zero"));
        }
        let mut j: usize = 0;
        while j < k
            invariant
                j <= k,
                k < count,
                p == payload@,
                c0 == 2 + entries_bytes(result@).len(),
                c0 + 32 <= p.len(),
                peer_id@ == p.subrange(c0, c0 + 32),
                result@.len() == k,
                forall|a: int| 0 <= a < j ==> (#[trigger] result@[a]).peer_id@ != peer_id@,
                forall|v: Seq<DiscoveredPeer>| #[trigger] represents(p, v) ==> v.len() == count && result@ == v.take(
                    k as int,
                ),
            decreases k - j,
        {
            if hash_eq(&result[j].peer_id, &peer_id) {
                proof {
                    assert forall|v: Seq<DiscoveredPeer>| #[trigger] represents(p, v) implies false by {
                        lemma_decode_entry(p, v, k as int, c0);
                        assert(result@[j as int] == v[j as int]);
                    }
                }
                return Err(String::from_str("duplicate peer id"));
            }
            j = j + 1;
        }
        let family = payload[cursor + 32];
        let start = cursor + 33;
        let address;
        if family == 4 {
            if payload.len() - start < 6 {
                proof {
                    assert forall|v: Seq<DiscoveredPeer>| #[trigger] represents(p, v) implies false by {
                        lemma_decode_entry(p, v, k as int, c0);
                    }
                }
                return Err(String::from_str("truncated ipv4 peer entry"));
            }
            let octets = read_array_4(payload, start);
            let port = read_u16_be(payload, start + 4);
            address = PeerAddress::V4 { octets, port };
            cursor = start + 6;
        } else if family == 6 {
            if payload.len() - start < 18 {
                proof {
                    assert forall|v: Seq<DiscoveredPeer>| #[trigger] represents(p, v) implies false by {
                        lemma_decode_entry(p, v, k as int, c0);
                    }
                }
                return Err(String::from_str("truncated ipv6 peer entry"));
            }
            let segments = read_array_16(payload, start);
            let port = read_u16_be(payload, start + 16);
            address = PeerAddress::V6 { segments, port };
            cursor = start + 18;
        } else {
            proof {
                assert forall|v: Seq<DiscoveredPeer>| #[trigger] represents(p, v) implies false by {
                    lemma_decode_entry(p, v, k as int, c0);
                }
            }
            return Err(String::from_str("unknown address family"));
        }
        let peer = DiscoveredPeer { peer_id, address };
        let ghost before = result@;
        result.push(peer);
        proof {
            assert(p.subrange(c0, cursor as int) =~= entry_bytes(peer)) by {
                if family == 4 {
                    assert(p.subrange(c0 + 37, c0 + 39) =~= spec_u16_be(spec_u16_from_be(p[c0 + 37], p[c0 + 38]))) by {
                        lemma_u16_be_roundtrip(0u16, p[c0 + 37], p[c0 + 38]);
                    }
                } else {
                    assert(p.subrange(c0 + 49, c0 + 51) =~= spec_u16_be(spec_u16_from_be(p[c0 + 49], p[c0 + 50]))) by {
                        lemma_u16_be_roundtrip(0u16, p[c0 + 49], p[c0 + 50]);
                    }
                }
            }
            lemma_entries_step(result@, k as int);
            assert(result@.take(k as int) =~= before);
            assert(result@.take(k + 1) =~= result@);
            assert(p.subrange(2, cursor as int) =~= p.subrange(2, c0) + p.subrange(c0, cursor as int));
            assert forall|v: Seq<DiscoveredPeer>| #[trigger] represents(p, v) implies v.len() == count && result@ == v.take(
                k + 1,
            ) by {
                lemma_decode_entry(p, v, k as int, c0);
                assert(peer.peer_id@ =~= v[k as int].peer_id@);
                assert(peer.peer_id =~= v[k as int].peer_id);
                match (peer.address, v[k as int].address) {
                    (PeerAddress::V4 { octets: o1, port: q1 }, PeerAddress::V4 { octets: o2, port: q2 }) => {
                        assert(o1@ =~= o2@);
                        assert(o1 =~= o2);
                    },
                    (PeerAddress::V6 { segments: o1, port: q1 }, PeerAddress::V6 { segments: o2, port: q2 }) => {
                        assert(o1@ =~= o2@);
                        assert(o1 =~= o2);
                    },
                    _ => {},
                }
                assert(peer.address == v[k as int].address);
                assert(v.take(k + 1) =~= v.take(k as int).push(v[k as int]));
            }
        }
    }
    if cursor != payload.len() {
        proof {
            assert forall|v: Seq<DiscoveredPeer>| #[trigger] represents(p, v) implies false by {
                assert(v.take(count as int) =~= v);
                assert(result@ == v);
                assert(p.len() == 2 + entries_bytes(v).len());
            }
        }
        return Err(String::from_str("unexpected trailing data in peers payload"));
    }
    proof {
        lemma_u16_be_roundtrip(count16, p[0], p[1]);
        assert(p =~= p.subrange(0, 2) + p.subrange(2, cursor as int));
        assert(p.subrange(0, 2) =~= spec_u16_be(result@.len() as u16));
        assert forall|v: Seq<DiscoveredPeer>| #[trigger] represents(p, v) implies v == result@ by {
            assert(v.take(count as int) =~= v);
        }
    }
    Ok(result)
}

/// Encoding then decoding a sendable list of peers gives it back.
pub proof fn lemma_peers_payload_roundtrip(v: Seq<DiscoveredPeer>)
    requires
        peers_encodable(v),
    ensures
        represents(spec_peers_payload(v), v),
{
}

pub fn build_get_peers_message() -> (r: Result<ProtocolMessage, String>)
    ensures
        r matches Ok(m) && m.version == P2P_PROTOCOL_VERSION && m.message_type == MessageType::GetPeers
            && m.payload@.len() == 0,
{
    ProtocolMessage::empty(MessageType::GetPeers)
}

pub fn build_peers_message(peers: &[DiscoveredPeer]) -> (r: Result<ProtocolMessage, String>)
    ensures
        r is Ok <==> peers_encodable(peers@),
        r matches Ok(m) ==> m.version == P2P_PROTOCOL_VERSION && m.message_type == MessageType::Peers && m.payload@
            == spec_peers_payload(peers@),
{
    let payload = match encode_peers_payload(peers) {
        Ok(b) => b,
        Err(e) => return Err(e),
    };
    proof {
        lemma_payload_len(peers@);
    }
    ProtocolMessage::new(MessageType::Peers, payload)
}

proof fn lemma_payload_len(v: Seq<DiscoveredPeer>)
    ensures
        entries_bytes(v).len() <= 51 * v.len(),
    decreases v.len(),
{
    if v.len() > 0 {
        lemma_payload_len(v.drop_last());
        lemma_entry_len(v.last());
    }
}

pub fn decode_peers_message(message: &ProtocolMessage) -> (r: Result<Vec<DiscoveredPeer>, String>)
    ensures
        r matches Ok(v) ==> message.message_type == MessageType::Peers && represents(message.payload@, v@),
        message.message_type == MessageType::Peers ==> forall|v: Seq<DiscoveredPeer>| #[trigger] represents(
            message.payload@,
            v,
        ) ==> (r matches Ok(w) && w@ == v),
{
    if message.message_type != MessageType::Peers {
        return Err(String::from_str("message is not a peers message"));
    }
    decode_peers_payload(message.payload.as_slice())
}

/// Adds each decoded peer that is new to discovery and unknown to the
/// table; returns how many were added.
pub open spec fn apply_prefix(
    ids: Set<Seq<u8>>,
    m: Map<Seq<u8>, ManagedPeer>,
    peers: Seq<DiscoveredPeer>,
    i: int,
) -> (Set<Seq<u8>>, Map<Seq<u8>, ManagedPeer>, int)
    decreases i,
{
    if i <= 0 {
        (ids, m, 0)
    } else {
        let st = apply_prefix(ids, m, peers, i - 1);
        let p = peers[i - 1];
        if st.0.contains(p.peer_id@) {
            st
        } else if st.1.contains_key(p.peer_id@) {
            (st.0.insert(p.peer_id@), st.1, st.2)
        } else {
            (st.0.insert(p.peer_id@), st.1.insert(p.peer_id@, managed(p)), st.2 + 1)
        }
    }
}

/// Whether one of the peers has identifier `id`.
fn lists_id(peers: &Vec<DiscoveredPeer>, id: &PeerId) -> (r: bool)
    ensures
        r == exists|i: int| 0 <= i < peers@.len() && (#[trigger] peers@[i]).peer_id@ == id@,
{
    let n = peers.len();
    for i in 0..n
        invariant
            n == peers@.len(),
            forall|a: int| 0 <= a < i ==> (#[trigger] peers@[a]).peer_id@ != id@,
    {
        if hash_eq(&peers[i].peer_id, id) {
            return true;
        }
    }
    false
}

/// Applies a Peers message: decodes it, refuses it when it lists the
/// local node, then records and adds each new peer.
pub fn apply_peers_message(
    local_peer_id: &PeerId,
    manager: &mut PeerManager,
    discovery: &mut PeerDiscovery,
    message: &ProtocolMessage,
) -> (r: Result<usize, String>)
    requires
        old(manager).wf(),
        old(discovery).wf(),
    ensures
        final(manager).wf(),
        final(discovery).wf(),
        r is Ok ==> message.message_type == MessageType::Peers && local_peer_id@ != zero_hash(),
        r matches Ok(n) ==> exists|v: Seq<DiscoveredPeer>| #[trigger] represents(message.payload@, v)
            && (forall|i: int| 0 <= i < v.len() ==> (#[trigger] v[i]).peer_id@ != local_peer_id@)
            && apply_prefix(old(discovery).id_set(), old(manager).peer_map(), v, v.len() as int) == (
            final(discovery).id_set(),
            final(manager).peer_map(),
            n as int,
        ),
        (message.message_type == MessageType::Peers && local_peer_id@ != zero_hash() && exists|v: Seq<DiscoveredPeer>|
            #[trigger] represents(message.payload@, v) && forall|i: int| 0 <= i < v.len() ==> (#[trigger] v[i]).peer_id@
                != local_peer_id@) ==> r is Ok,
        r is Err ==> final(manager).peer_map() == old(manager).peer_map() && final(discovery).id_set() == old(
            discovery,
        ).id_set(),
{
    if message.message_type != MessageType::Peers {
        return Err(String::from_str("message is not a peers message"));
    }
    if is_zero_hash(local_peer_id) {
        return Err(String::from_str("local peer id cannot be zero"));
    }
    let peers = match decode_peers_message(message) {
        Ok(v) => v,
        Err(e) => return Err(e),
    };
    let n = peers.len();
    if lists_id(&peers, local_peer_id) {
        return Err(String::from_str("peer payload contains local node"));
    }
    let ghost ids0 = discovery.id_set();
    let ghost m0 = manager.peer_map();
    let mut added: usize = 0;
    for i in 0..n
        invariant
            n == peers@.len(),
            peers_encodable(peers@),
            manager.wf(),
            discovery.wf(),
            apply_prefix(ids0, m0, peers@, i as int) == (discovery.id_set(), manager.peer_map(), added as int),
            added <= i,
    {
        let peer = peers[i];
        let fresh = match discovery.discover(&peer) {
            Ok(b) => b,
            Err(e) => {
                proof {
                    assert(peers@[i as int].peer_id@ != zero_hash());
                }
                return Err(e);
            },
        };
        if fresh {
            match add_discovered_peer(manager, &peer) {
                Ok(b) => {
                    if b {
                        added = added + 1;
                    }
                },
                Err(e) => {
                    proof {
                        assert(peers@[i as int].peer_id@ != zero_hash());
                    }
                    return Err(e);
                },
            }
        }
    }
    Ok(added)
}

} // verus!
