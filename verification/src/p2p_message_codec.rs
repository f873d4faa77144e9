//! Checksummed framing of protocol messages: magic, version, type, payload
//! length, payload and a SHA-256 checksum.
use vstd::prelude::*;
use crate::bytes::{
    bytes_eq, bytes_to_vec, copy_range, lemma_u32_at, push_bytes, push_u32_be, read_u32_be, spec_u32_be,
    spec_u32_from_be,
};
use crate::crypto::{sha256, spec_sha256};
use crate::p2p_protocol::{
    spec_payload_valid, spec_type_code, validate_message_payload, MessageType, ProtocolMessage, MAX_MESSAGE_SIZE,
    P2P_PROTOCOL_VERSION,
};

verus! {

/// Magic, version, type byte and payload length.
pub const HEADER_SIZE: usize = 13;

pub const CHECKSUM_SIZE: usize = 32;

pub const MIN_FRAME_SIZE: usize = 45;

pub const MAX_FRAME_SIZE: usize = 2_097_197;

#[derive(Debug, Clone, PartialEq, Eq)]
pub struct MessageFrame {
    pub version: u32,
    pub message_type: MessageType,
    pub payload: Vec<u8>,
}

/// The four bytes that open a message frame.
pub open spec fn message_magic() -> Seq<u8> {
    seq![0x4eu8, 0x49u8, 0x4fu8, 0x4du8]
}

/// The bytes the checksum covers: version, type byte, payload length and
/// payload.
pub open spec fn checksum_input(version: u32, t: MessageType, p: Seq<u8>) -> Seq<u8> {
    spec_u32_be(version) + seq![spec_type_code(t)] + spec_u32_be(p.len() as u32) + p
}

/// The frame of a message.
pub open spec fn spec_message_frame(version: u32, t: MessageType, p: Seq<u8>) -> Seq<u8> {
    message_magic() + checksum_input(version, t, p) + spec_sha256(checksum_input(version, t, p))
}

/// The checksum of a message is a 32-byte digest.
pub open spec fn digest_ok(version: u32, t: MessageType, p: Seq<u8>) -> bool {
    spec_sha256(checksum_input(version, t, p)).len() == 32
}

/// SHA-256 of version, type byte, payload length and payload.
fn checksum(version: u32, message_type: MessageType, payload: &[u8]) -> (r: [u8; 32])
    requires
        payload@.len() <= MAX_MESSAGE_SIZE,
    ensures
        r@ == spec_sha256(checksum_input(version, message_type, payload@)),
{
    let mut data: Vec<u8> = Vec::new();
    push_u32_be(&mut data, version);
    data.push(message_type.code());
    push_u32_be(&mut data, payload.len() as u32);
    push_bytes(&mut data, payload);
    assert(data@ =~= checksum_input(version, message_type, payload@));
    sha256(data.as_slice())
}

impl MessageFrame {
    /// A current-version frame for a payload that meets its type's rules.
    pub fn new(message_type: MessageType, payload: Vec<u8>) -> (r: Result<Self, String>)
        ensures
            r is Ok <==> spec_payload_valid(message_type, payload@),
            r matches Ok(f) ==> f.version == P2P_PROTOCOL_VERSION && f.message_type == message_type && f.payload@
                == payload@,
    {
        match validate_message_payload(message_type, payload.as_slice()) {
            Ok(()) => {},
            Err(e) => return Err(e),
        }
        Ok(MessageFrame { version: P2P_PROTOCOL_VERSION, message_type, payload })
    }

    /// The protocol message the frame carries.
    pub fn to_protocol_message(&self) -> (r: Result<ProtocolMessage, String>)
        ensures
            r is Ok <==> self.version == P2P_PROTOCOL_VERSION && spec_payload_valid(self.message_type, self.payload@),
            r matches Ok(m) ==> m.version == P2P_PROTOCOL_VERSION && m.message_type == self.message_type && m.payload@
                == self.payload@,
    {
        if self.version != P2P_PROTOCOL_VERSION {
            return Err(String::from_str("unsupported p2p protocol version"));
        }
        let message = match ProtocolMessage::new(self.message_type, bytes_to_vec(self.payload.as_slice())) {
            Ok(m) => m,
            Err(e) => return Err(e),
        };
        match message.validate() {
            Ok(()) => {},
            Err(e) => return Err(e),
        }
        Ok(message)
    }
}

/// The frame bytes of a current-version frame with a valid payload.
pub fn encode_frame(frame: &MessageFrame) -> (r: Result<Vec<u8>, String>)
    ensures
        r is Ok <==> frame.version == P2P_PROTOCOL_VERSION && spec_payload_valid(frame.message_type, frame.payload@),
        r matches Ok(b) ==> b@ == spec_message_frame(frame.version, frame.message_type, frame.payload@) && digest_ok(
            frame.version,
            frame.message_type,
            frame.payload@,
        ),
{
    if frame.version != P2P_PROTOCOL_VERSION {
        return Err(String::from_str("unsupported p2p protocol version"));
    }
    if frame.payload.len() > MAX_MESSAGE_SIZE {
        return Err(String::from_str("message payload exceeds maximum size"));
    }
    match validate_message_payload(frame.message_type, frame.payload.as_slice()) {
        Ok(()) => {},
        Err(e) => return Err(e),
    }
    let sum = checksum(frame.version, frame.message_type, frame.payload.as_slice());
    let mut buffer: Vec<u8> = Vec::new();
    buffer.push(0x4eu8);
    buffer.push(0x49u8);
    buffer.push(0x4fu8);
    buffer.push(0x4du8);
    push_u32_be(&mut buffer, frame.version);
    buffer.push(frame.message_type.code());
    push_u32_be(&mut buffer, frame.payload.len() as u32);
    push_bytes(&mut buffer, frame.payload.as_slice());
    push_bytes(&mut buffer, &sum);
    assert(buffer@ =~= spec_message_frame(frame.version, frame.message_type, frame.payload@));
    Ok(buffer)
}

/// Number of bytes that follow a frame header: the announced payload and the
/// checksum. Fails for a wrong magic or version, an unknown type byte, or a
/// payload over the size limit.
pub fn frame_body_length(header: [u8; 13]) -> (r: Result<usize, String>)
    ensures
        r is Ok <==> header@.subrange(0, 4) == message_magic() && spec_u32_from_be(
            header@[4],
            header@[5],
            header@[6],
            header@[7],
        ) == P2P_PROTOCOL_VERSION && 1 <= header@[8] <= 11 && spec_u32_from_be(
            header@[9],
            header@[10],
            header@[11],
            header@[12],
        ) <= MAX_MESSAGE_SIZE,
        r matches Ok(n) ==> n == spec_u32_from_be(header@[9], header@[10], header@[11], header@[12])
            + CHECKSUM_SIZE,
        forall|t: MessageType, p: Seq<u8>| spec_payload_valid(t, p) && header@ == #[trigger] spec_message_frame(
            P2P_PROTOCOL_VERSION,
            t,
            p,
        ).subrange(0, 13) ==> r == Ok::<usize, String>((p.len() + CHECKSUM_SIZE) as usize),
{
    let ghost h = header@;
    proof {
        lemma_u32_at(h, 4);
        lemma_u32_at(h, 9);
        assert forall|t: MessageType, p: Seq<u8>| spec_payload_valid(t, p) && h == #[trigger] spec_message_frame(
            P2P_PROTOCOL_VERSION,
            t,
            p,
        ).subrange(0, 13) implies h.subrange(0, 4) == message_magic() && h.subrange(4, 8) == spec_u32_be(
            P2P_PROTOCOL_VERSION,
        ) && h[8] == spec_type_code(t) && h.subrange(9, 13) == spec_u32_be(p.len() as u32) by {
            assert(h.subrange(0, 4) =~= message_magic());
            assert(h.subrange(4, 8) =~= spec_u32_be(P2P_PROTOCOL_VERSION));
            assert(h.subrange(9, 13) =~= spec_u32_be(p.len() as u32));
        }
    }
    if header[0] != 0x4eu8 || header[1] != 0x49u8 || header[2] != 0x4fu8 || header[3] != 0x4du8 {
        proof {
            assert forall|t: MessageType, p: Seq<u8>| spec_payload_valid(t, p) && h == #[trigger] spec_message_frame(
                P2P_PROTOCOL_VERSION,
                t,
                p,
            ).subrange(0, 13) implies false by {
                assert(h[0] == h.subrange(0, 4)[0]);
                assert(h[1] == h.subrange(0, 4)[1]);
                assert(h[2] == h.subrange(0, 4)[2]);
                assert(h[3] == h.subrange(0, 4)[3]);
            }
        }
        return Err(String::from_str("invalid message magic"));
    }
    assert(h.subrange(0, 4) =~= message_magic());
    let version = read_u32_be(&header, 4);
    if version != P2P_PROTOCOL_VERSION {
        return Err(String::from_str("unsupported p2p protocol version"));
    }
    if MessageType::from_u8(header[8]).is_none() {
        return Err(String::from_str("unknown message type"));
    }
    let payload_length = read_u32_be(&header, 9) as usize;
    if payload_length > MAX_MESSAGE_SIZE {
        return Err(String::from_str("payload exceeds maximum size"));
    }
    Ok(payload_length + CHECKSUM_SIZE)
}

/// Decodes a frame. It succeeds exactly on the frame of a current-version
/// message with a valid payload and a matching checksum, and then gives
/// that message back.
pub fn decode_frame(buffer: &[u8]) -> (r: Result<MessageFrame, String>)
    ensures
        r matches Ok(f) ==> f.version == P2P_PROTOCOL_VERSION && spec_payload_valid(f.message_type, f.payload@)
            && buffer@ == spec_message_frame(f.version, f.message_type, f.payload@),
        forall|t: MessageType, p: Seq<u8>| spec_payload_valid(t, p) && digest_ok(P2P_PROTOCOL_VERSION, t, p) && buffer@
            == #[trigger] spec_message_frame(P2P_PROTOCOL_VERSION, t, p) ==> (r matches Ok(f) && f.version == P2P_PROTOCOL_VERSION && f.message_type == t && f.payload@ == p),
{
    let ghost b = buffer@;
    proof {
        assert forall|t: MessageType, p: Seq<u8>| spec_payload_valid(t, p) && digest_ok(P2P_PROTOCOL_VERSION, t, p) && b == #[trigger] spec_message_frame(
            P2P_PROTOCOL_VERSION,
            t,
            p,
        ) implies {
            &&& b.len() == 45 + p.len()
            &&& b.subrange(0, 4) == message_magic()
            &&& b.subrange(4, 8) == spec_u32_be(P2P_PROTOCOL_VERSION)
            &&& b[8] == spec_type_code(t)
            &&& b.subrange(9, 13) == spec_u32_be(p.len() as u32)
            &&& b.subrange(13, 13 + p.len() as int) == p
            &&& b.subrange(13 + p.len() as int, b.len() as int) == spec_sha256(checksum_input(P2P_PROTOCOL_VERSION, t, p))
        } by {
            assert(b.subrange(0, 4) =~= message_magic());
            assert(b.subrange(4, 8) =~= spec_u32_be(P2P_PROTOCOL_VERSION));
            assert(b.subrange(9, 13) =~= spec_u32_be(p.len() as u32));
            assert(b.subrange(13, 13 + p.len() as int) =~= p);
            assert(b.subrange(13 + p.len() as int, b.len() as int) =~= spec_sha256(checksum_input(P2P_PROTOCOL_VERSION, t, p)));
        }
    }
    if buffer.len() < MIN_FRAME_SIZE {
        return Err(String::from_str("frame is too small"));
    }
    if buffer.len() > MAX_FRAME_SIZE {
        return Err(String::from_str("frame exceeds maximum size"));
    }
    if buffer[0] != 0x4eu8 || buffer[1] != 0x49u8 || buffer[2] != 0x4fu8 || buffer[3] != 0x4du8 {
        proof {
            assert forall|t: MessageType, p: Seq<u8>| spec_payload_valid(t, p) && digest_ok(P2P_PROTOCOL_VERSION, t, p) && b == #[trigger] spec_message_frame(
                P2P_PROTOCOL_VERSION,
                t,
                p,
            ) implies false by {
                assert(b[0] == b.subrange(0, 4)[0]);
                assert(b[1] == b.subrange(0, 4)[1]);
                assert(b[2] == b.subrange(0, 4)[2]);
                assert(b[3] == b.subrange(0, 4)[3]);
            }
        }
        return Err(String::from_str("invalid message magic"));
    }
    let version = read_u32_be(buffer, 4);
    proof {
        lemma_u32_at(b, 4);
        lemma_u32_at(b, 9);
    }
    if version != P2P_PROTOCOL_VERSION {
        return Err(String::from_str("unsupported p2p protocol version"));
    }
    let message_type = match MessageType::from_u8(buffer[8]) {
        Some(t) => t,
        None => return Err(String::from_str("unknown message type")),
    };
    let payload_length = read_u32_be(buffer, 9) as usize;
    if payload_length > MAX_MESSAGE_SIZE {
        return Err(String::from_str("payload exceeds maximum size"));
    }
    if buffer.len() != HEADER_SIZE + payload_length + CHECKSUM_SIZE {
        return Err(String::from_str("frame length does not match payload length"));
    }
    let payload_end = HEADER_SIZE + payload_length;
    let payload = copy_range(buffer, HEADER_SIZE, payload_end);
    let received = copy_range(buffer, payload_end, buffer.len());
    let expected = checksum(version, message_type, payload.as_slice());
    if !bytes_eq(received.as_slice(), &expected) {
        return Err(String::from_str("message checksum mismatch"));
    }
    match validate_message_payload(message_type, payload.as_slice()) {
        Ok(()) => {},
        Err(e) => return Err(e),
    }
    proof {
        assert(b.subrange(0, 4) =~= message_magic());
        assert(b =~= spec_message_frame(version, message_type, payload@));
        assert forall|t: MessageType, p: Seq<u8>| spec_payload_valid(t, p) && digest_ok(P2P_PROTOCOL_VERSION, t, p) && b == #[trigger] spec_message_frame(
            P2P_PROTOCOL_VERSION,
            t,
            p,
        ) implies message_type == t && payload@ == p by {
            crate::p2p_protocol::lemma_message_type_kinds(message_type, t);
        }
    }
    Ok(MessageFrame { version, message_type, payload })
}

/// A frame with a valid payload survives encoding and decoding.
pub proof fn lemma_frame_roundtrip(t: MessageType, p: Seq<u8>)
    requires
        spec_payload_valid(t, p),
        digest_ok(P2P_PROTOCOL_VERSION, t, p),
    ensures
        spec_message_frame(P2P_PROTOCOL_VERSION, t, p).len() == 45 + p.len(),
        45 + p.len() <= MAX_FRAME_SIZE,
{
}

} // verus!
