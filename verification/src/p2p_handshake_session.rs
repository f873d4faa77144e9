//! The handshake exchange as bytes: the frame each side sends and the
//! checks on the frame received, around the handshake session.
use vstd::prelude::*;
use vstd::utf8::{decode_utf8_encode_utf8, encode_utf8, encode_utf8_decode_utf8, encode_utf8_valid_utf8};
use crate::bytes::{
    copy_range, lemma_u16_be_roundtrip, lemma_u32_at, push_bytes, push_u16_be, push_u32_be, read_array_32,
    read_u16_be, read_u32_be, spec_u16_be, spec_u16_from_be, spec_u32_be, spec_u32_from_be,
};
use crate::crypto::string_from_utf8;
use crate::p2p_handshake::{
    handshake_valid, spec_receive, user_agent_ok, Handshake, HandshakeModel, HandshakeSession, HandshakeSessionModel,
    HandshakeState, MAX_USER_AGENT_LENGTH,
};
use crate::p2p_message::utf8_len;

verus! {

/// Largest handshake body: version, node id, length and user agent.
pub const MAX_HANDSHAKE_FRAME_SIZE: usize = 170;

/// Smallest handshake body: version, node id and length.
pub const MIN_HANDSHAKE_FRAME_SIZE: usize = 38;

/// The four bytes that open a handshake frame.
pub open spec fn handshake_magic() -> Seq<u8> {
    seq![0x4eu8, 0x49u8, 0x4fu8, 0x48u8]
}

/// Handshake body: big-endian version, node id, big-endian u16 user agent
/// length, user agent bytes.
pub open spec fn spec_handshake_body(h: HandshakeModel) -> Seq<u8> {
    spec_u32_be(h.protocol_version) + h.node_id + spec_u16_be(utf8_len(h.user_agent) as u16) + encode_utf8(h.user_agent)
}

/// Handshake frame: magic, big-endian body length, body.
pub open spec fn spec_handshake_frame(h: HandshakeModel) -> Seq<u8> {
    handshake_magic() + spec_u32_be(spec_handshake_body(h).len() as u32) + spec_handshake_body(h)
}

/// The frame that announces a valid handshake.
pub fn encode_handshake(handshake: &Handshake) -> (r: Result<Vec<u8>, String>)
    ensures
        r is Ok <==> handshake_valid(handshake@),
        r matches Ok(b) ==> b@ == spec_handshake_frame(handshake@),
{
    match handshake.validate() {
        Ok(()) => {},
        Err(e) => return Err(e),
    }
    let user_agent = handshake.user_agent.as_str().as_bytes();
    let body_length = 4 + 32 + 2 + user_agent.len();
    let mut buffer: Vec<u8> = Vec::new();
    buffer.push(0x4eu8);
    buffer.push(0x49u8);
    buffer.push(0x4fu8);
    buffer.push(0x48u8);
    push_u32_be(&mut buffer, body_length as u32);
    push_u32_be(&mut buffer, handshake.protocol_version);
    push_bytes(&mut buffer, &handshake.node_id);
    push_u16_be(&mut buffer, user_agent.len() as u16);
    push_bytes(&mut buffer, user_agent);
    assert(buffer@ =~= spec_handshake_frame(handshake@));
    Ok(buffer)
}

/// Body length announced by the first eight bytes of a handshake frame;
/// fails for a wrong magic or a length outside the body limits.
pub fn handshake_body_length(header: [u8; 8]) -> (r: Result<usize, String>)
    ensures
        r is Ok <==> header@.subrange(0, 4) == handshake_magic() && MIN_HANDSHAKE_FRAME_SIZE <= spec_u32_from_be(
            header@[4],
            header@[5],
            header@[6],
            header@[7],
        ) <= MAX_HANDSHAKE_FRAME_SIZE,
        r matches Ok(n) ==> n == spec_u32_from_be(header@[4], header@[5], header@[6], header@[7]),
        forall|h: HandshakeModel| handshake_valid(h) && header@ == #[trigger] spec_handshake_frame(h).subrange(0, 8) ==> r
            == Ok::<usize, String>(spec_handshake_body(h).len() as usize),
{
    let ghost hd = header@;
    proof {
        lemma_u32_at(hd, 4);
        assert forall|h: HandshakeModel| handshake_valid(h) && hd == #[trigger] spec_handshake_frame(h).subrange(0, 8) implies hd.subrange(
            0,
            4,
        ) == handshake_magic() && hd.subrange(4, 8) == spec_u32_be(spec_handshake_body(h).len() as u32)
            && spec_handshake_body(h).len() == 38 + utf8_len(h.user_agent) by {
            assert(hd.subrange(0, 4) =~= handshake_magic());
            assert(hd.subrange(4, 8) =~= spec_u32_be(spec_handshake_body(h).len() as u32));
        }
    }
    if header[0] != 0x4eu8 || header[1] != 0x49u8 || header[2] != 0x4fu8 || header[3] != 0x48u8 {
        return Err(String::from_str("invalid handshake magic"));
    }
    assert(hd.subrange(0, 4) =~= handshake_magic());
    let frame_length = read_u32_be(&header, 4) as usize;
    if frame_length > MAX_HANDSHAKE_FRAME_SIZE {
        return Err(String::from_str("handshake frame is too large"));
    }
    if frame_length < MIN_HANDSHAKE_FRAME_SIZE {
        return Err(String::from_str("handshake frame is too small"));
    }
    Ok(frame_length)
}

/// Reads a handshake body. It succeeds exactly on the body of a valid
/// handshake, and then gives that handshake back.
pub fn decode_handshake_body(body: &[u8]) -> (r: Result<Handshake, String>)
    ensures
        r matches Ok(h) ==> handshake_valid(h@) && body@ == spec_handshake_body(h@),
        forall|h: HandshakeModel| handshake_valid(h) && body@ == #[trigger] spec_handshake_body(h) ==> (r matches Ok(w)
            && w@ == h),
{
    let ghost d = body@;
    proof {
        assert forall|h: HandshakeModel| handshake_valid(h) && d == #[trigger] spec_handshake_body(h) implies {
            &&& d.subrange(0, 4) == spec_u32_be(h.protocol_version)
            &&& d.subrange(4, 36) == h.node_id
            &&& d.subrange(36, 38) == spec_u16_be(utf8_len(h.user_agent) as u16)
            &&& d.subrange(38, d.len() as int) == encode_utf8(h.user_agent)
            &&& d.len() == 38 + utf8_len(h.user_agent)
        } by {
            assert(d.subrange(0, 4) =~= spec_u32_be(h.protocol_version));
            assert(d.subrange(4, 36) =~= h.node_id);
            assert(d.subrange(36, 38) =~= spec_u16_be(utf8_len(h.user_agent) as u16));
            assert(d.subrange(38, d.len() as int) =~= encode_utf8(h.user_agent));
        }
    }
    if body.len() < MIN_HANDSHAKE_FRAME_SIZE {
        return Err(String::from_str("truncated handshake"));
    }
    let protocol_version = read_u32_be(body, 0);
    let node_id = read_array_32(body, 4);
    let user_agent_length = read_u16_be(body, 36) as usize;
    proof {
        lemma_u32_at(d, 0);
        lemma_u16_be_roundtrip(0, d[36], d[37]);
        assert forall|h: HandshakeModel| handshake_valid(h) && d == #[trigger] spec_handshake_body(h) implies protocol_version
            == h.protocol_version && node_id@ == h.node_id && user_agent_length == utf8_len(h.user_agent) by {
            lemma_u16_be_roundtrip(utf8_len(h.user_agent) as u16, 0, 0);
            assert(d[36] == d.subrange(36, 38)[0]);
            assert(d[37] == d.subrange(36, 38)[1]);
        }
    }
    if user_agent_length > MAX_USER_AGENT_LENGTH {
        return Err(String::from_str("user agent is too long"));
    }
    if body.len() - 38 != user_agent_length {
        return Err(String::from_str("invalid user agent length"));
    }
    let bytes = copy_range(body, 38, body.len());
    let ghost b = bytes@;
    let user_agent = match string_from_utf8(bytes) {
        Some(s) => s,
        None => {
            proof {
                assert forall|h: HandshakeModel| handshake_valid(h) && d == #[trigger] spec_handshake_body(h) implies false by {
                    encode_utf8_valid_utf8(h.user_agent);
                }
            }
            return Err(String::from_str("user agent is not valid utf8"));
        },
    };
    proof {
        decode_utf8_encode_utf8(b);
    }
    let handshake = Handshake { protocol_version, node_id, user_agent };
    match handshake.validate() {
        Ok(()) => {},
        Err(e) => return Err(e),
    }
    proof {
        lemma_u16_be_roundtrip(user_agent_length as u16, 0, 0);
        assert(d.subrange(0, 4) =~= spec_u32_be(protocol_version));
        assert(d =~= spec_handshake_body(handshake@));
        assert forall|h: HandshakeModel| handshake_valid(h) && d == #[trigger] spec_handshake_body(h) implies handshake@
            == h by {
            encode_utf8_decode_utf8(h.user_agent);
        }
    }
    Ok(handshake)
}

/// A handshake session driven over a connection: the frame to send, then
/// the frame received.
#[derive(Debug)]
pub struct P2pHandshakeSession {
    session: HandshakeSession,
}

impl P2pHandshakeSession {
    pub closed spec fn spec_session(&self) -> HandshakeSessionModel {
        self.session@
    }

    /// The local handshake is valid.
    pub closed spec fn wf(&self) -> bool {
        handshake_valid(self.session@.local)
    }

    pub fn new(local: Handshake) -> (r: Result<Self, String>)
        ensures
            r is Ok <==> handshake_valid(local@),
            r matches Ok(s) ==> s.wf() && s.spec_session() == (HandshakeSessionModel {
                local: local@,
                remote: None,
                state: HandshakeState::NotStarted,
            }),
    {
        match HandshakeSession::new(local) {
            Ok(session) => Ok(P2pHandshakeSession { session }),
            Err(e) => Err(e),
        }
    }

    pub fn session(&self) -> (r: &HandshakeSession)
        ensures
            r@ == self.spec_session(),
    {
        &self.session
    }

    pub fn state(&self) -> (r: &HandshakeState)
        ensures
            *r == self.spec_session().state,
    {
        self.session.state()
    }

    pub fn is_established(&self) -> (r: bool)
        ensures
            r == (self.spec_session().state == HandshakeState::Established),
    {
        self.session.is_established()
    }

    pub fn remote(&self) -> (r: Option<&Handshake>)
        ensures
            r is Some <==> self.spec_session().remote is Some,
            r matches Some(h) ==> self.spec_session().remote == Some(h@),
    {
        self.session.remote()
    }

    /// Marks the handshake sent and returns the local frame to send.
    pub fn start(&mut self) -> (r: Result<Vec<u8>, String>)
        requires
            old(self).wf(),
        ensures
            final(self).wf(),
            r is Ok <==> old(self).spec_session().state == HandshakeState::NotStarted,
            r matches Ok(b) ==> b@ == spec_handshake_frame(old(self).spec_session().local) && final(self).spec_session()
                == (HandshakeSessionModel { state: HandshakeState::Sent, ..old(self).spec_session() }),
            r is Err ==> final(self).spec_session() == old(self).spec_session(),
    {
        match self.session.mark_sent() {
            Ok(()) => {},
            Err(e) => return Err(e),
        }
        encode_handshake(self.session.local())
    }

    /// Decodes the remote body and lets the session check it.
    pub fn finish(&mut self, body: &[u8]) -> (r: Result<(), String>)
        requires
            old(self).wf(),
        ensures
            final(self).wf(),
            (forall|h: HandshakeModel| handshake_valid(h) && body@ != #[trigger] spec_handshake_body(h)) ==> r is Err
                && final(self).spec_session() == old(self).spec_session(),
            forall|h: HandshakeModel| handshake_valid(h) && body@ == #[trigger] spec_handshake_body(h) ==> (r is Ok
                <==> spec_receive(old(self).spec_session(), h).1) && final(self).spec_session() == spec_receive(
                old(self).spec_session(),
                h,
            ).0,
    {
        let remote = match decode_handshake_body(body) {
            Ok(h) => h,
            Err(e) => return Err(e),
        };
        self.session.receive(remote)
    }
}

} // verus!
