//! Binary framing of peer-to-peer messages: a big-endian length covering a
//! type byte and the payload, then the type byte and the payload.
use vstd::prelude::*;
use vstd::utf8::{
    decode_utf8, decode_utf8_encode_utf8, encode_utf8, encode_utf8_decode_utf8, encode_utf8_valid_utf8, is_ascii_chars,
    is_ascii_chars_encode_utf8,
};
use crate::bytes::{
    is_zero_hash, lemma_u32_at, lemma_u64_be_bytes, lemma_u64_from_encoding, push_bytes, push_u32_be,
    push_u64_be, read_array_32, read_u32_be, read_u64_be, spec_u32_be, spec_u32_from_be, spec_u64_be,
    spec_u64_from_be, zero_hash, copy_range, lemma_encode_utf8_concat, string_of_chars,
};
use crate::crypto::string_from_utf8;
use crate::p2p_message::{
    hashes_nonzero, headers_nonzero, message_type_from_code, spec_message_code, utf8_len, HeaderRef,
    P2pMessage, P2pMessageType, MAX_BLOCKS_PER_MESSAGE, MAX_HEADERS_PER_MESSAGE, MAX_P2P_MESSAGE_SIZE,
    MAX_REJECT_REASON_LENGTH, MAX_VERSION_USER_AGENT_LENGTH,
};

verus! {

pub const FRAME_LENGTH_SIZE: usize = 4;

pub const FRAME_TYPE_SIZE: usize = 1;

pub const MAX_FRAME_PAYLOAD_SIZE: usize = 2_000_000;

pub const MAX_FRAME_SIZE: usize = 2_000_005;

#[derive(Debug, Clone, PartialEq, Eq)]
pub enum P2pCodecError {
    Io(String),
    EmptyPayload,
    FrameTooLarge,
    InvalidMessageType(u8),
    TruncatedFrame,
    InvalidProtocolVersion,
    InvalidPeerId,
    InvalidString,
    InvalidCount,
    InvalidHash,
    InvalidHeight,
    InvalidMessage,
}

/// The ASCII digit of a value below ten.
pub open spec fn decimal_digit(d: nat) -> char {
    ((48 + d) as u8) as char
}

/// Decimal digits of a number, without leading zeros.
pub open spec fn decimal_chars(n: nat) -> Seq<char>
    decreases n,
{
    if n < 10 {
        seq![decimal_digit(n)]
    } else {
        decimal_chars(n / 10) + seq![decimal_digit(n % 10)]
    }
}

/// The text that describes an error.
pub open spec fn spec_error_text(e: P2pCodecError) -> Seq<char> {
    match e {
        P2pCodecError::Io(message) => "io error: "@ + message@,
        P2pCodecError::EmptyPayload => "empty payload"@,
        P2pCodecError::FrameTooLarge => "frame too large"@,
        P2pCodecError::InvalidMessageType(value) => "invalid message type: "@ + decimal_chars(value as nat),
        P2pCodecError::TruncatedFrame => "truncated frame"@,
        P2pCodecError::InvalidProtocolVersion => "invalid protocol version"@,
        P2pCodecError::InvalidPeerId => "invalid peer id"@,
        P2pCodecError::InvalidString => "invalid string"@,
        P2pCodecError::InvalidCount => "invalid count"@,
        P2pCodecError::InvalidHash => "invalid hash"@,
        P2pCodecError::InvalidHeight => "invalid height"@,
        P2pCodecError::InvalidMessage => "invalid message"@,
    }
}

/// ASCII codes of the decimal digits of a byte value.
fn decimal_bytes(value: u8) -> (r: Vec<u8>)
    ensures
        r@ == encode_utf8(decimal_chars(value as nat)),
{
    let mut digits: Vec<u8> = Vec::new();
    if value >= 100 {
        digits.push(48 + value / 100);
    }
    if value >= 10 {
        digits.push(48 + (value / 10) % 10);
    }
    digits.push(48 + value % 10);
    proof {
        let n = value as nat;
        reveal_with_fuel(decimal_chars, 3);
        assert((n / 10) / 10 == n / 100);
        let chars = decimal_chars(n);
        assert(is_ascii_chars(chars));
        is_ascii_chars_encode_utf8(chars);
        assert(digits@ =~= encode_utf8(chars));
    }
    digits
}

impl P2pCodecError {
    /// What the error means, in words.
    pub fn description(&self) -> (r: String)
        ensures
            r@ == spec_error_text(*self),
    {
        match self {
            P2pCodecError::Io(message) => {
                let mut bytes: Vec<u8> = Vec::new();
                push_bytes(&mut bytes, "io error: ".as_bytes());
                push_bytes(&mut bytes, message.as_str().as_bytes());
                proof {
                    lemma_encode_utf8_concat("io error: "@, message@);
                }
                string_of_chars(bytes, Ghost("io error: "@ + message@))
            },
            P2pCodecError::EmptyPayload => String::from_str("empty payload"),
            P2pCodecError::FrameTooLarge => String::from_str("frame too large"),
            P2pCodecError::InvalidMessageType(value) => {
                let mut bytes: Vec<u8> = Vec::new();
                push_bytes(&mut bytes, "invalid message type: ".as_bytes());
                let digits = decimal_bytes(*value);
                push_bytes(&mut bytes, digits.as_slice());
                proof {
                    lemma_encode_utf8_concat("invalid message type: "@, decimal_chars(*value as nat));
                }
                string_of_chars(bytes, Ghost("invalid message type: "@ + decimal_chars(*value as nat)))
            },
            P2pCodecError::TruncatedFrame => String::from_str("truncated frame"),
            P2pCodecError::InvalidProtocolVersion => String::from_str("invalid protocol version"),
            P2pCodecError::InvalidPeerId => String::from_str("invalid peer id"),
            P2pCodecError::InvalidString => String::from_str("invalid string"),
            P2pCodecError::InvalidCount => String::from_str("invalid count"),
            P2pCodecError::InvalidHash => String::from_str("invalid hash"),
            P2pCodecError::InvalidHeight => String::from_str("invalid height"),
            P2pCodecError::InvalidMessage => String::from_str("invalid message"),
        }
    }
}

// ----------------------------------------------------------------
// Wire format
// ----------------------------------------------------------------

/// A string: big-endian u32 byte length, then its UTF-8 bytes.
pub open spec fn string_enc(c: Seq<char>) -> Seq<u8> {
    spec_u32_be(utf8_len(c) as u32) + encode_utf8(c)
}

/// Hashes one after the other.
pub open spec fn flat_hashes(h: Seq<[u8; 32]>) -> Seq<u8>
    decreases h.len(),
{
    if h.len() == 0 {
        Seq::empty()
    } else {
        flat_hashes(h.drop_last()) + h.last()@
    }
}

/// A hash list: big-endian u32 count, then the hashes.
pub open spec fn hashes_enc(h: Seq<[u8; 32]>) -> Seq<u8> {
    spec_u32_be(h.len() as u32) + flat_hashes(h)
}

/// An optional hash: 0, or 1 followed by the hash.
pub open spec fn opt_enc(o: Option<[u8; 32]>) -> Seq<u8> {
    match o {
        None => seq![0u8],
        Some(x) => seq![1u8] + x@,
    }
}

/// Header references one after the other: hash, then big-endian height.
pub open spec fn flat_headers(h: Seq<HeaderRef>) -> Seq<u8>
    decreases h.len(),
{
    if h.len() == 0 {
        Seq::empty()
    } else {
        flat_headers(h.drop_last()) + h.last().hash@ + spec_u64_be(h.last().height)
    }
}

/// The payload of a message.
pub open spec fn spec_payload(m: P2pMessage) -> Seq<u8> {
    match m {
        P2pMessage::Version { protocol_version, node_id, user_agent, start_height } => spec_u32_be(protocol_version)
            + node_id@ + string_enc(user_agent@) + spec_u64_be(start_height),
        P2pMessage::VerAck => Seq::empty(),
        P2pMessage::Ping { nonce } => spec_u64_be(nonce),
        P2pMessage::Pong { nonce } => spec_u64_be(nonce),
        P2pMessage::GetHeaders { locator, stop_hash } => hashes_enc(locator@) + opt_enc(stop_hash),
        P2pMessage::Headers { headers } => spec_u32_be(headers@.len() as u32) + flat_headers(headers@),
        P2pMessage::GetBlocks { locator, stop_hash } => hashes_enc(locator@) + opt_enc(stop_hash),
        P2pMessage::Blocks { hashes } => hashes_enc(hashes@),
        P2pMessage::Transaction { transaction_id } => transaction_id@,
        P2pMessage::Reject { message_type, reason } => seq![spec_message_code(message_type)] + string_enc(reason@),
    }
}

/// The frame of a message: length of type byte plus payload, type byte,
/// payload.
pub open spec fn spec_frame(m: P2pMessage) -> Seq<u8> {
    spec_u32_be((spec_payload(m).len() + 1) as u32) + seq![spec_message_code(m.spec_type())] + spec_payload(m)
}

/// Whether a locator (of a GetHeaders or GetBlocks message) holds no zero
/// hash.
pub open spec fn locator_ok(m: P2pMessage) -> bool {
    match m {
        P2pMessage::GetHeaders { locator, .. } => hashes_nonzero(locator@),
        P2pMessage::GetBlocks { locator, .. } => hashes_nonzero(locator@),
        _ => true,
    }
}

/// Whether a stop hash, when present, is nonzero.
pub open spec fn stop_ok(m: P2pMessage) -> bool {
    match m {
        P2pMessage::GetHeaders { stop_hash, .. } => stop_hash matches Some(h) ==> h@ != zero_hash(),
        P2pMessage::GetBlocks { stop_hash, .. } => stop_hash matches Some(h) ==> h@ != zero_hash(),
        _ => true,
    }
}

/// Messages the encoder accepts.
pub open spec fn encodable(m: P2pMessage) -> bool {
    m.spec_valid_for_network() && locator_ok(m)
}

/// Messages the decoder produces.
pub open spec fn decodable(m: P2pMessage) -> bool {
    encodable(m) && stop_ok(m)
}

/// Two messages carry the same content.
pub open spec fn same_message(a: P2pMessage, b: P2pMessage) -> bool {
    match (a, b) {
        (
            P2pMessage::Version { protocol_version: p1, node_id: n1, user_agent: u1, start_height: s1 },
            P2pMessage::Version { protocol_version: p2, node_id: n2, user_agent: u2, start_height: s2 },
        ) => p1 == p2 && n1@ == n2@ && u1@ == u2@ && s1 == s2,
        (P2pMessage::VerAck, P2pMessage::VerAck) => true,
        (P2pMessage::Ping { nonce: a1 }, P2pMessage::Ping { nonce: a2 }) => a1 == a2,
        (P2pMessage::Pong { nonce: a1 }, P2pMessage::Pong { nonce: a2 }) => a1 == a2,
        (
            P2pMessage::GetHeaders { locator: l1, stop_hash: h1 },
            P2pMessage::GetHeaders { locator: l2, stop_hash: h2 },
        ) => l1@ == l2@ && h1 == h2,
        (P2pMessage::Headers { headers: h1 }, P2pMessage::Headers { headers: h2 }) => h1@ == h2@,
        (
            P2pMessage::GetBlocks { locator: l1, stop_hash: h1 },
            P2pMessage::GetBlocks { locator: l2, stop_hash: h2 },
        ) => l1@ == l2@ && h1 == h2,
        (P2pMessage::Blocks { hashes: h1 }, P2pMessage::Blocks { hashes: h2 }) => h1@ == h2@,
        (P2pMessage::Transaction { transaction_id: t1 }, P2pMessage::Transaction { transaction_id: t2 }) => t1@
            == t2@,
        (P2pMessage::Reject { message_type: t1, reason: r1 }, P2pMessage::Reject { message_type: t2, reason: r2 }) => t1
            == t2 && r1@ == r2@,
        _ => false,
    }
}

/// Whether `data` holds `bytes` from `pos` on.
pub open spec fn prefix_at(data: Seq<u8>, pos: int, bytes: Seq<u8>) -> bool {
    0 <= pos && pos + bytes.len() <= data.len() && data.subrange(pos, pos + bytes.len()) == bytes
}

// ----------------------------------------------------------------
// Lemmas on the format
// ----------------------------------------------------------------

pub proof fn lemma_flat_hashes(h: Seq<[u8; 32]>)
    ensures
        flat_hashes(h).len() == 32 * h.len(),
        forall|k: int| 0 <= k < h.len() ==> #[trigger] flat_hashes(h).subrange(32 * k, 32 * k + 32) == h[k]@,
    decreases h.len(),
{
    if h.len() > 0 {
        lemma_flat_hashes(h.drop_last());
        let f = flat_hashes(h);
        let g = flat_hashes(h.drop_last());
        assert forall|k: int| 0 <= k < h.len() implies #[trigger] flat_hashes(h).subrange(32 * k, 32 * k + 32)
            == h[k]@ by {
            if k < h.len() - 1 {
                assert(f.subrange(32 * k, 32 * k + 32) =~= g.subrange(32 * k, 32 * k + 32));
                assert(h.drop_last()[k] == h[k]);
            } else {
                assert(f.subrange(32 * k, 32 * k + 32) =~= h.last()@);
            }
        }
    }
}

proof fn lemma_flat_hashes_take(h: Seq<[u8; 32]>, k: int)
    requires
        0 <= k < h.len(),
    ensures
        flat_hashes(h.take(k + 1)) == flat_hashes(h.take(k)) + h[k]@,
{
    assert(h.take(k + 1).drop_last() =~= h.take(k));
}

pub proof fn lemma_flat_headers(h: Seq<HeaderRef>)
    ensures
        flat_headers(h).len() == 40 * h.len(),
        forall|k: int| 0 <= k < h.len() ==> #[trigger] flat_headers(h).subrange(40 * k, 40 * k + 40) == h[k].hash@
            + spec_u64_be(h[k].height),
    decreases h.len(),
{
    if h.len() > 0 {
        lemma_flat_headers(h.drop_last());
        let f = flat_headers(h);
        let g = flat_headers(h.drop_last());
        assert forall|k: int| 0 <= k < h.len() implies #[trigger] flat_headers(h).subrange(40 * k, 40 * k + 40)
            == h[k].hash@ + spec_u64_be(h[k].height) by {
            if k < h.len() - 1 {
                assert(f.subrange(40 * k, 40 * k + 40) =~= g.subrange(40 * k, 40 * k + 40));
                assert(h.drop_last()[k] == h[k]);
            } else {
                assert(f.subrange(40 * k, 40 * k + 40) =~= h.last().hash@ + spec_u64_be(h.last().height));
            }
        }
    }
}

proof fn lemma_flat_headers_take(h: Seq<HeaderRef>, k: int)
    requires
        0 <= k < h.len(),
    ensures
        flat_headers(h.take(k + 1)) == flat_headers(h.take(k)) + h[k].hash@ + spec_u64_be(h[k].height),
{
    assert(h.take(k + 1).drop_last() =~= h.take(k));
}

proof fn lemma_utf8_nonempty(c: Seq<char>)
    ensures
        c.len() > 0 <==> utf8_len(c) > 0,
{
    if c.len() > 0 {
        assert(encode_utf8(c) == vstd::utf8::encode_scalar(c[0] as u32) + encode_utf8(c.drop_first()));
    }
}

// ----------------------------------------------------------------
// Encoder
// ----------------------------------------------------------------

/// Appends a string's length and bytes; fails for an empty string or one
/// longer than `maximum` bytes.
fn write_string(output: &mut Vec<u8>, value: &String, maximum: usize) -> (r: Result<(), P2pCodecError>)
    requires
        maximum <= u32::MAX,
    ensures
        r is Ok <==> 0 < utf8_len(value@) <= maximum,
        r is Ok ==> final(output)@ == old(output)@ + string_enc(value@),
        r matches Err(e) ==> e is InvalidString && final(output)@ == old(output)@,
{
    let bytes = value.as_str().as_bytes();
    if bytes.len() == 0 {
        return Err(P2pCodecError::InvalidString);
    }
    if bytes.len() > maximum {
        return Err(P2pCodecError::InvalidString);
    }
    push_u32_be(output, bytes.len() as u32);
    push_bytes(output, bytes);
    Ok(())
}

/// Appends a hash list; fails for an empty list, one over `maximum`, or a
/// zero hash.
fn write_hashes(output: &mut Vec<u8>, hashes: &Vec<[u8; 32]>, maximum: usize) -> (r: Result<(), P2pCodecError>)
    requires
        maximum <= u32::MAX,
    ensures
        r is Ok <==> 0 < hashes@.len() <= maximum && hashes_nonzero(hashes@),
        r is Ok ==> final(output)@ == old(output)@ + hashes_enc(hashes@),
        r matches Err(e) ==> (e is InvalidCount <==> !(0 < hashes@.len() <= maximum)) && (e is InvalidCount
            || e is InvalidHash),
{
    let n = hashes.len();
    if n == 0 {
        return Err(P2pCodecError::InvalidCount);
    }
    if n > maximum {
        return Err(P2pCodecError::InvalidCount);
    }
    let ghost start = output@;
    push_u32_be(output, n as u32);
    assert(hashes@.take(0) =~= Seq::<[u8; 32]>::empty());
    for i in 0..n
        invariant
            n == hashes@.len(),
            n <= maximum <= u32::MAX,
            output@ == start + spec_u32_be(n as u32) + flat_hashes(hashes@.take(i as int)),
            forall|j: int| 0 <= j < i ==> (#[trigger] hashes@[j])@ != zero_hash(),
    {
        if is_zero_hash(&hashes[i]) {
            return Err(P2pCodecError::InvalidHash);
        }
        proof {
            lemma_flat_hashes_take(hashes@, i as int);
        }
        push_bytes(output, &hashes[i]);
        assert(output@ =~= start + spec_u32_be(n as u32) + flat_hashes(hashes@.take(i + 1)));
    }
    assert(hashes@.take(n as int) =~= hashes@);
    assert(output@ =~= start + hashes_enc(hashes@));
    Ok(())
}

fn write_optional_hash(output: &mut Vec<u8>, hash: &Option<[u8; 32]>)
    ensures
        final(output)@ == old(output)@ + opt_enc(*hash),
{
    match hash {
        Some(value) => {
            output.push(1u8);
            push_bytes(output, value);
        },
        None => {
            output.push(0u8);
        },
    }
    assert(output@ =~= old(output)@ + opt_enc(*hash));
}

fn write_headers(output: &mut Vec<u8>, headers: &Vec<HeaderRef>) -> (r: Result<(), P2pCodecError>)
    ensures
        r is Ok <==> headers@.len() <= MAX_HEADERS_PER_MESSAGE && headers_nonzero(headers@),
        r is Ok ==> final(output)@ == old(output)@ + spec_u32_be(headers@.len() as u32) + flat_headers(headers@),
        r matches Err(e) ==> e is InvalidCount || e is InvalidHash,
{
    let n = headers.len();
    if n > MAX_HEADERS_PER_MESSAGE {
        return Err(P2pCodecError::InvalidCount);
    }
    let ghost start = output@;
    push_u32_be(output, n as u32);
    assert(headers@.take(0) =~= Seq::<HeaderRef>::empty());
    for i in 0..n
        invariant
            n == headers@.len(),
            n <= MAX_HEADERS_PER_MESSAGE,
            output@ == start + spec_u32_be(n as u32) + flat_headers(headers@.take(i as int)),
            forall|j: int| 0 <= j < i ==> (#[trigger] headers@[j]).hash@ != zero_hash(),
    {
        let header = headers[i];
        if is_zero_hash(&header.hash) {
            return Err(P2pCodecError::InvalidHash);
        }
        proof {
            lemma_flat_headers_take(headers@, i as int);
        }
        push_bytes(output, &header.hash);
        push_u64_be(output, header.height);
        assert(output@ =~= start + spec_u32_be(n as u32) + flat_headers(headers@.take(i + 1)));
    }
    assert(headers@.take(n as int) =~= headers@);
    Ok(())
}

pub struct P2pCodec;

impl P2pCodec {
    /// The payload of a valid message; fails only for a zero locator hash.
    fn encode_payload(message: &P2pMessage) -> (r: Result<Vec<u8>, P2pCodecError>)
        requires
            message.spec_valid(),
        ensures
            r is Ok <==> locator_ok(*message),
            r matches Ok(b) ==> b@ == spec_payload(*message),
            r matches Err(e) ==> e is InvalidHash,
    {
        let mut output: Vec<u8> = Vec::new();
        match message {
            P2pMessage::Version { protocol_version, node_id, user_agent, start_height } => {
                push_u32_be(&mut output, *protocol_version);
                push_bytes(&mut output, node_id);
                proof {
                    lemma_utf8_nonempty(user_agent@);
                }
                match write_string(&mut output, user_agent, MAX_VERSION_USER_AGENT_LENGTH) {
                    Ok(()) => {},
                    Err(e) => return Err(e),
                }
                push_u64_be(&mut output, *start_height);
            },
            P2pMessage::VerAck => {},
            P2pMessage::Ping { nonce } => {
                push_u64_be(&mut output, *nonce);
            },
            P2pMessage::Pong { nonce } => {
                push_u64_be(&mut output, *nonce);
            },
            P2pMessage::GetHeaders { locator, stop_hash } => {
                match write_hashes(&mut output, locator, MAX_HEADERS_PER_MESSAGE) {
                    Ok(()) => {},
                    Err(e) => return Err(e),
                }
                write_optional_hash(&mut output, stop_hash);
            },
            P2pMessage::Headers { headers } => {
                match write_headers(&mut output, headers) {
                    Ok(()) => {},
                    Err(e) => return Err(e),
                }
            },
            P2pMessage::GetBlocks { locator, stop_hash } => {
                match write_hashes(&mut output, locator, MAX_HEADERS_PER_MESSAGE) {
                    Ok(()) => {},
                    Err(e) => return Err(e),
                }
                write_optional_hash(&mut output, stop_hash);
            },
            P2pMessage::Blocks { hashes } => {
                match write_hashes(&mut output, hashes, MAX_BLOCKS_PER_MESSAGE) {
                    Ok(()) => {},
                    Err(e) => return Err(e),
                }
            },
            P2pMessage::Transaction { transaction_id } => {
                if is_zero_hash(transaction_id) {
                    return Err(P2pCodecError::InvalidHash);
                }
                push_bytes(&mut output, transaction_id);
            },
            P2pMessage::Reject { message_type, reason } => {
                output.push(message_type.code());
                proof {
                    lemma_utf8_nonempty(reason@);
                }
                match write_string(&mut output, reason, MAX_REJECT_REASON_LENGTH) {
                    Ok(()) => {},
                    Err(e) => return Err(e),
                }
            },
        }
        assert(output@ =~= spec_payload(*message));
        Ok(output)
    }

    /// Frames a message. Fails with `InvalidMessage` when it breaks the
    /// network validation rules, and with `InvalidHash` when a locator holds
    /// a zero hash.
    pub fn encode(message: &P2pMessage) -> (r: Result<Vec<u8>, P2pCodecError>)
        requires
            message.size_computable(),
        ensures
            r is Ok <==> encodable(*message),
            r matches Ok(b) ==> b@ == spec_frame(*message),
            r matches Err(e) ==> (e is InvalidMessage <==> !message.spec_valid_for_network()) && (e is InvalidMessage
                || e is InvalidHash),
    {
        match message.validate_for_network() {
            Ok(()) => {},
            Err(_) => return Err(P2pCodecError::InvalidMessage),
        }
        let payload = match Self::encode_payload(message) {
            Ok(b) => b,
            Err(e) => return Err(e),
        };
        proof {
            lemma_payload_len(*message);
        }
        if payload.len() > MAX_FRAME_PAYLOAD_SIZE {
            return Err(P2pCodecError::FrameTooLarge);
        }
        let payload_len_with_type = payload.len() + FRAME_TYPE_SIZE;
        let mut result: Vec<u8> = Vec::new();
        push_u32_be(&mut result, payload_len_with_type as u32);
        result.push(message.message_type().code());
        push_bytes(&mut result, payload.as_slice());
        assert(result@ =~= spec_frame(*message));
        Ok(result)
    }
}

/// Payloads of valid messages fit the frame limit.
proof fn lemma_payload_len(m: P2pMessage)
    requires
        m.spec_valid(),
    ensures
        spec_payload(m).len() <= 80_004,
{
    match m {
        P2pMessage::GetHeaders { locator, stop_hash } => {
            lemma_flat_hashes(locator@);
        },
        P2pMessage::GetBlocks { locator, stop_hash } => {
            lemma_flat_hashes(locator@);
        },
        P2pMessage::Blocks { hashes } => {
            lemma_flat_hashes(hashes@);
        },
        P2pMessage::Headers { headers } => {
            lemma_flat_headers(headers@);
        },
        _ => {},
    }
}

// ----------------------------------------------------------------
// Readers: each reads one field at `pos` and returns it with the position
// after it.
// ----------------------------------------------------------------

fn rd_u8(data: &[u8], pos: usize) -> (r: Result<(u8, usize), P2pCodecError>)
    requires
        pos <= data@.len(),
    ensures
        r is Ok <==> pos + 1 <= data@.len(),
        r matches Ok((x, e)) ==> e == pos + 1 && x == data@[pos as int],
        r matches Err(er) ==> er is TruncatedFrame,
{
    if data.len() - pos < 1 {
        return Err(P2pCodecError::TruncatedFrame);
    }
    Ok((data[pos], pos + 1))
}

fn rd_u32(data: &[u8], pos: usize) -> (r: Result<(u32, usize), P2pCodecError>)
    requires
        pos <= data@.len(),
    ensures
        r is Ok <==> pos + 4 <= data@.len(),
        r matches Ok((x, e)) ==> e == pos + 4 && prefix_at(data@, pos as int, spec_u32_be(x)),
        r matches Ok((x, e)) ==> forall|y: u32| #[trigger] prefix_at(data@, pos as int, spec_u32_be(y)) ==> x == y,
        r matches Err(er) ==> er is TruncatedFrame,
{
    if data.len() - pos < 4 {
        return Err(P2pCodecError::TruncatedFrame);
    }
    let x = read_u32_be(data, pos);
    proof {
        lemma_u32_at(data@, pos as int);
    }
    Ok((x, pos + 4))
}

fn rd_u64(data: &[u8], pos: usize) -> (r: Result<(u64, usize), P2pCodecError>)
    requires
        pos <= data@.len(),
    ensures
        r is Ok <==> pos + 8 <= data@.len(),
        r matches Ok((x, e)) ==> e == pos + 8 && prefix_at(data@, pos as int, spec_u64_be(x)),
        r matches Ok((x, e)) ==> forall|y: u64| #[trigger] prefix_at(data@, pos as int, spec_u64_be(y)) ==> x == y,
        r matches Err(er) ==> er is TruncatedFrame,
{
    if data.len() - pos < 8 {
        return Err(P2pCodecError::TruncatedFrame);
    }
    let x = read_u64_be(data, pos);
    proof {
        lemma_u64_be_bytes(data@, pos as int);
        assert forall|y: u64| #[trigger] prefix_at(data@, pos as int, spec_u64_be(y)) implies x == y by {
            lemma_u64_from_encoding(data@, pos as int, y);
        }
    }
    Ok((x, pos + 8))
}

fn rd_hash(data: &[u8], pos: usize) -> (r: Result<([u8; 32], usize), P2pCodecError>)
    requires
        pos <= data@.len(),
    ensures
        r is Ok <==> pos + 32 <= data@.len(),
        r matches Ok((x, e)) ==> e == pos + 32 && prefix_at(data@, pos as int, x@),
        r matches Err(er) ==> er is TruncatedFrame,
{
    if data.len() - pos < 32 {
        return Err(P2pCodecError::TruncatedFrame);
    }
    let x = read_array_32(data, pos);
    Ok((x, pos + 32))
}

/// Reads a length-prefixed UTF-8 string of 1 to `maximum` bytes.
fn rd_string(data: &[u8], pos: usize, maximum: usize) -> (r: Result<(String, usize), P2pCodecError>)
    requires
        pos <= data@.len(),
        maximum <= u32::MAX,
    ensures
        r matches Ok((s, e)) ==> 0 < utf8_len(s@) <= maximum && prefix_at(data@, pos as int, string_enc(s@)) && e == pos
            + string_enc(s@).len(),
        forall|c: Seq<char>| 0 < utf8_len(c) <= maximum && #[trigger] prefix_at(data@, pos as int, string_enc(c)) ==> (
        r matches Ok((s, e)) && s@ == c && e == pos + string_enc(c).len()),
        r matches Err(er) ==> er is TruncatedFrame || er is InvalidString,
{
    let (length, p1) = match rd_u32(data, pos) {
        Ok(v) => v,
        Err(e) => {
            proof {
                assert forall|c: Seq<char>| 0 < utf8_len(c) <= maximum && #[trigger] prefix_at(data@, pos as int, string_enc(c))
                    implies false by {}
            }
            return Err(e);
        },
    };
    proof {
        assert forall|c: Seq<char>| 0 < utf8_len(c) <= maximum && #[trigger] prefix_at(data@, pos as int, string_enc(c))
            implies length == utf8_len(c) && prefix_at(data@, p1 as int, encode_utf8(c)) by {
            let sc = string_enc(c);
            assert(data@.subrange(pos as int, pos + sc.len()) == sc);
            assert(sc.subrange(0, 4) =~= spec_u32_be(utf8_len(c) as u32));
            assert(data@.subrange(pos as int, pos + 4) =~= sc.subrange(0, 4));
            assert(prefix_at(data@, pos as int, spec_u32_be(utf8_len(c) as u32)));
            assert(length == (utf8_len(c) as u32));
            assert(sc.subrange(4, sc.len() as int) =~= encode_utf8(c));
            assert(data@.subrange(p1 as int, p1 + encode_utf8(c).len()) =~= string_enc(c).subrange(
                4,
                string_enc(c).len() as int,
            ));
        }
    }
    let len = length as usize;
    if len == 0 || len > maximum {
        return Err(P2pCodecError::InvalidString);
    }
    if data.len() - p1 < len {
        return Err(P2pCodecError::TruncatedFrame);
    }
    let bytes = copy_range(data, p1, p1 + len);
    let ghost b = bytes@;
    match string_from_utf8(bytes) {
        Some(s) => {
            proof {
                decode_utf8_encode_utf8(b);
                assert(encode_utf8(s@) == b);
                assert(data@.subrange(pos as int, p1 + len) =~= string_enc(s@));
                assert forall|c: Seq<char>| 0 < utf8_len(c) <= maximum && #[trigger] prefix_at(data@, pos as int, string_enc(c))
                    implies s@ == c by {
                    assert(b =~= encode_utf8(c));
                    encode_utf8_decode_utf8(c);
                }
            }
            Ok((s, p1 + len))
        },
        None => {
            proof {
                assert forall|c: Seq<char>| 0 < utf8_len(c) <= maximum && #[trigger] prefix_at(data@, pos as int, string_enc(c))
                    implies false by {
                    assert(b =~= encode_utf8(c));
                    encode_utf8_valid_utf8(c);
                }
            }
            Err(P2pCodecError::InvalidString)
        },
    }
}

/// Reads a hash list of 1 to `maximum` nonzero hashes.
fn rd_hashes(data: &[u8], pos: usize, maximum: usize) -> (r: Result<(Vec<[u8; 32]>, usize), P2pCodecError>)
    requires
        pos <= data@.len(),
        maximum <= MAX_HEADERS_PER_MESSAGE,
    ensures
        r matches Ok((v, e)) ==> 0 < v@.len() <= maximum && hashes_nonzero(v@) && prefix_at(data@, pos as int, hashes_enc(v@))
            && e == pos + hashes_enc(v@).len(),
        forall|h: Seq<[u8; 32]>| 0 < h.len() <= maximum && hashes_nonzero(h) && #[trigger] prefix_at(data@, pos as int, hashes_enc(h))
            ==> (r matches Ok((v, e)) && v@ == h && e == pos + hashes_enc(h).len()),
        r matches Err(er) ==> er is TruncatedFrame || er is InvalidCount || er is InvalidHash,
{
    let ghost d = data@;
    let (count32, p1) = match rd_u32(data, pos) {
        Ok(v) => v,
        Err(e) => {
            return Err(e);
        },
    };
    proof {
        assert forall|h: Seq<[u8; 32]>| 0 < h.len() <= maximum && hashes_nonzero(h) && #[trigger] prefix_at(d, pos as int, hashes_enc(h))
            implies count32 == h.len() && prefix_at(d, p1 as int, flat_hashes(h)) by {
            let sc = hashes_enc(h);
            assert(d.subrange(pos as int, pos + sc.len()) == sc);
            assert(sc.subrange(0, 4) =~= spec_u32_be(h.len() as u32));
            assert(d.subrange(pos as int, pos + 4) =~= sc.subrange(0, 4));
            assert(prefix_at(d, pos as int, spec_u32_be(h.len() as u32)));
            assert(count32 == (h.len() as u32));
            assert(sc.subrange(4, sc.len() as int) =~= flat_hashes(h));
            assert(d.subrange(p1 as int, p1 + flat_hashes(h).len()) =~= hashes_enc(h).subrange(
                4,
                hashes_enc(h).len() as int,
            ));
        }
    }
    let count = count32 as usize;
    if count == 0 || count > maximum {
        return Err(P2pCodecError::InvalidCount);
    }
    let mut result: Vec<[u8; 32]> = Vec::new();
    let mut cursor = p1;
    assert(d.subrange(p1 as int, p1 as int) =~= flat_hashes(result@));
    for k in 0..count
        invariant
            d == data@,
            p1 == pos + 4,
            p1 <= d.len(),
            0 < count <= maximum <= MAX_HEADERS_PER_MESSAGE,
            prefix_at(d, pos as int, spec_u32_be(count as u32)),
            cursor == p1 + 32 * k,
            cursor <= d.len(),
            result@.len() == k,
            hashes_nonzero(result@),
            d.subrange(p1 as int, cursor as int) == flat_hashes(result@),
            forall|h: Seq<[u8; 32]>| 0 < h.len() <= maximum && hashes_nonzero(h) && #[trigger] prefix_at(d, pos as int, hashes_enc(h))
                ==> count == h.len() && prefix_at(d, p1 as int, flat_hashes(h)) && result@ == h.take(k as int),
    {
        let (hash, next) = match rd_hash(data, cursor) {
            Ok(v) => v,
            Err(e) => {
                proof {
                    assert forall|h: Seq<[u8; 32]>| 0 < h.len() <= maximum && hashes_nonzero(h) && #[trigger] prefix_at(d, pos as int, hashes_enc(h))
                        implies false by {
                        lemma_flat_hashes(h);
                    }
                }
                return Err(e);
            },
        };
        if is_zero_hash(&hash) {
            proof {
                assert forall|h: Seq<[u8; 32]>| 0 < h.len() <= maximum && hashes_nonzero(h) && #[trigger] prefix_at(d, pos as int, hashes_enc(h))
                    implies false by {
                    lemma_flat_hashes(h);
                    assert(flat_hashes(h).subrange(32 * k, 32 * k + 32) == h[k as int]@);
                    assert(d.subrange(cursor as int, cursor + 32) =~= flat_hashes(h).subrange(32 * k, 32 * k + 32));
                }
            }
            return Err(P2pCodecError::InvalidHash);
        }
        let ghost before = result@;
        result.push(hash);
        proof {
            lemma_flat_hashes_take(result@, k as int);
            assert(result@.take(k as int) =~= before);
            assert(result@.take(k + 1) =~= result@);
            assert(d.subrange(p1 as int, next as int) =~= d.subrange(p1 as int, cursor as int) + d.subrange(
                cursor as int,
                next as int,
            ));
            assert forall|h: Seq<[u8; 32]>| 0 < h.len() <= maximum && hashes_nonzero(h) && #[trigger] prefix_at(d, pos as int, hashes_enc(h))
                implies result@ == h.take(k + 1) by {
                lemma_flat_hashes(h);
                assert(flat_hashes(h).subrange(32 * k, 32 * k + 32) == h[k as int]@);
                assert(d.subrange(cursor as int, cursor + 32) =~= flat_hashes(h).subrange(32 * k, 32 * k + 32));
                assert(hash@ =~= h[k as int]@);
                assert(hash =~= h[k as int]);
                assert(h.take(k + 1) =~= h.take(k as int).push(h[k as int]));
            }
            assert forall|j: int| 0 <= j < result@.len() implies (#[trigger] result@[j])@ != zero_hash() by {
                if j < k {
                    assert(result@[j] == before[j]);
                }
            }
        }
        cursor = next;
    }
    proof {
        lemma_flat_hashes(result@);
        assert(d.subrange(pos as int, cursor as int) =~= d.subrange(pos as int, p1 as int) + d.subrange(
            p1 as int,
            cursor as int,
        ));
        assert forall|h: Seq<[u8; 32]>| 0 < h.len() <= maximum && hashes_nonzero(h) && #[trigger] prefix_at(d, pos as int, hashes_enc(h))
            implies result@ == h by {
            assert(h.take(count as int) =~= h);
        }
    }
    Ok((result, cursor))
}

fn rd_optional_hash(data: &[u8], pos: usize) -> (r: Result<(Option<[u8; 32]>, usize), P2pCodecError>)
    requires
        pos <= data@.len(),
    ensures
        r matches Ok((o, e)) ==> (o matches Some(h) ==> h@ != zero_hash()) && prefix_at(data@, pos as int, opt_enc(o))
            && e == pos + opt_enc(o).len(),
        forall|o: Option<[u8; 32]>| (o matches Some(h) ==> h@ != zero_hash()) && #[trigger] prefix_at(data@, pos as int, opt_enc(o))
            ==> (r matches Ok((o2, e)) && o2 == o && e == pos + opt_enc(o).len()),
        r matches Err(er) ==> er is TruncatedFrame || er is InvalidHash || er is InvalidMessage,
{
    let ghost d = data@;
    let (tag, p1) = match rd_u8(data, pos) {
        Ok(v) => v,
        Err(e) => return Err(e),
    };
    proof {
        assert forall|o: Option<[u8; 32]>| (o matches Some(h) ==> h@ != zero_hash()) && #[trigger] prefix_at(d, pos as int, opt_enc(o))
            implies tag == opt_enc(o)[0] by {
            assert(d[pos as int] == d.subrange(pos as int, pos + opt_enc(o).len())[0]);
        }
    }
    if tag == 0 {
        proof {
            assert(d.subrange(pos as int, pos + 1) =~= opt_enc(None));
        }
        return Ok((None, p1));
    }
    if tag == 1 {
        let (hash, p2) = match rd_hash(data, p1) {
            Ok(v) => v,
            Err(e) => {
                return Err(e);
            },
        };
        proof {
            assert(d.subrange(pos as int, p2 as int) =~= opt_enc(Some(hash)));
            assert forall|o: Option<[u8; 32]>| (o matches Some(h) ==> h@ != zero_hash()) && #[trigger] prefix_at(d, pos as int, opt_enc(o))
                implies o == Some(hash) by {
                match o {
                    Some(h) => {
                        assert(h@ =~= opt_enc(o).subrange(1, 33));
                        assert(hash@ =~= d.subrange(p1 as int, p1 + 32));
                        assert(d.subrange(p1 as int, p1 + 32) =~= d.subrange(pos as int, pos + 33).subrange(1, 33));
                        assert(h =~= hash);
                    },
                    None => {},
                }
            }
        }
        if is_zero_hash(&hash) {
            return Err(P2pCodecError::InvalidHash);
        }
        return Ok((Some(hash), p2));
    }
    Err(P2pCodecError::InvalidMessage)
}

fn rd_finish(data: &[u8], pos: usize) -> (r: Result<(), P2pCodecError>)
    ensures
        r is Ok <==> pos == data@.len(),
        r matches Err(er) ==> er is InvalidMessage,
{
    if pos != data.len() {
        return Err(P2pCodecError::InvalidMessage);
    }
    Ok(())
}

// ----------------------------------------------------------------
// Decoder
// ----------------------------------------------------------------

proof fn lemma_split(data: Seq<u8>, pos: int, a: Seq<u8>, b: Seq<u8>)
    requires
        prefix_at(data, pos, a + b),
    ensures
        prefix_at(data, pos, a),
        prefix_at(data, pos + a.len(), b),
{
    let ab = a + b;
    let w = data.subrange(pos, pos + ab.len());
    assert(w == ab);
    assert(data.subrange(pos, pos + a.len()) =~= w.subrange(0, a.len() as int));
    assert(ab.subrange(0, a.len() as int) =~= a);
    assert(data.subrange(pos + a.len(), pos + a.len() + b.len()) =~= w.subrange(a.len() as int, ab.len() as int));
    assert(ab.subrange(a.len() as int, ab.len() as int) =~= b);
}

proof fn lemma_join(data: Seq<u8>, pos: int, a: Seq<u8>, b: Seq<u8>)
    requires
        prefix_at(data, pos, a),
        prefix_at(data, pos + a.len(), b),
    ensures
        prefix_at(data, pos, a + b),
{
    assert(data.subrange(pos, pos + a.len() + b.len()) =~= data.subrange(pos, pos + a.len()) + data.subrange(
        pos + a.len(),
        pos + a.len() + b.len(),
    ));
}

proof fn lemma_whole(data: Seq<u8>, x: Seq<u8>)
    requires
        prefix_at(data, 0, x),
        x.len() == data.len(),
    ensures
        data == x,
{
    assert(data =~= data.subrange(0, data.len() as int));
}

/// `payload` is the payload of the decodable message `m` of type `t`.
pub open spec fn payload_of(payload: Seq<u8>, t: P2pMessageType, m: P2pMessage) -> bool {
    m.spec_type() == t && decodable(m) && payload == spec_payload(m)
}

impl P2pCodec {
    fn decode_version(payload: &[u8]) -> (r: Result<P2pMessage, P2pCodecError>)
        ensures
            r matches Ok(w) ==> payload_of(payload@, P2pMessageType::Version, w),
            forall|m: P2pMessage| #[trigger] payload_of(payload@, P2pMessageType::Version, m) ==> (r matches Ok(w)
                && same_message(w, m)),
    {
        let ghost d = payload@;
        proof {
            assert forall|m: P2pMessage| #[trigger] payload_of(d, P2pMessageType::Version, m) implies {
                &&& m matches P2pMessage::Version { protocol_version, node_id, user_agent, start_height }
                &&& prefix_at(d, 0, spec_u32_be(protocol_version))
                &&& prefix_at(d, 4, node_id@)
                &&& prefix_at(d, 36, string_enc(user_agent@))
                &&& prefix_at(d, 36 + string_enc(user_agent@).len() as int, spec_u64_be(start_height))
                &&& d.len() == 44 + string_enc(user_agent@).len()
            } by {
                match m {
                    P2pMessage::Version { protocol_version, node_id, user_agent, start_height } => {
                        let a = spec_u32_be(protocol_version);
                        let b = node_id@;
                        let c = string_enc(user_agent@);
                        let e = spec_u64_be(start_height);
                        assert(prefix_at(d, 0, a + b + c + e)) by {
                            assert(d.subrange(0, d.len() as int) =~= d);
                        }
                        lemma_split(d, 0, a + b + c, e);
                        lemma_split(d, 0, a + b, c);
                        lemma_split(d, 0, a, b);
                    },
                    _ => {},
                }
            }
        }
        let (protocol_version, p1) = match rd_u32(payload, 0) {
            Ok(v) => v,
            Err(e) => return Err(e),
        };
        if protocol_version != 1 {
            return Err(P2pCodecError::InvalidProtocolVersion);
        }
        let (node_id, p2) = match rd_hash(payload, p1) {
            Ok(v) => v,
            Err(e) => return Err(e),
        };
        if is_zero_hash(&node_id) {
            return Err(P2pCodecError::InvalidPeerId);
        }
        let (user_agent, p3) = match rd_string(payload, p2, MAX_VERSION_USER_AGENT_LENGTH) {
            Ok(v) => v,
            Err(e) => {
                proof {
                    assert forall|m: P2pMessage| #[trigger] payload_of(d, P2pMessageType::Version, m) implies false by {
                        if let P2pMessage::Version { user_agent, .. } = m {
                            lemma_utf8_nonempty(user_agent@);
                        }
                    }
                }
                return Err(e);
            },
        };
        let (start_height, p4) = match rd_u64(payload, p3) {
            Ok(v) => v,
            Err(e) => {
                proof {
                    assert forall|m: P2pMessage| #[trigger] payload_of(d, P2pMessageType::Version, m) implies false by {
                        if let P2pMessage::Version { user_agent, .. } = m {
                            lemma_utf8_nonempty(user_agent@);
                        }
                    }
                }
                return Err(e);
            },
        };
        proof {
            assert forall|m: P2pMessage| #[trigger] payload_of(d, P2pMessageType::Version, m) implies p4 == d.len() by {
                if let P2pMessage::Version { user_agent, .. } = m {
                    lemma_utf8_nonempty(user_agent@);
                }
            }
        }
        match rd_finish(payload, p4) {
            Ok(()) => {},
            Err(e) => return Err(e),
        }
        let ghost ua = user_agent@;
        let message = P2pMessage::Version { protocol_version, node_id, user_agent, start_height };
        proof {
            lemma_utf8_nonempty(ua);
        }
        match message.validate_for_network() {
            Ok(()) => {},
            Err(_) => {
                return Err(P2pCodecError::InvalidMessage);
            },
        }
        proof {
            let a = spec_u32_be(protocol_version);
            let b = node_id@;
            let c = string_enc(ua);
            let e = spec_u64_be(start_height);
            lemma_join(d, 0, a, b);
            lemma_join(d, 0, a + b, c);
            lemma_join(d, 0, a + b + c, e);
            lemma_whole(d, a + b + c + e);
            assert forall|m: P2pMessage| #[trigger] payload_of(d, P2pMessageType::Version, m) implies same_message(
                message,
                m,
            ) by {
                if let P2pMessage::Version { node_id: n2, .. } = m {
                    lemma_utf8_nonempty(ua);
                    assert(node_id@ =~= n2@);
                }
            }
        }
        Ok(message)
    }
}

/// Whether `l` and `o` make a locator request that decodes.
pub open spec fn locator_request_ok(l: Seq<[u8; 32]>, o: Option<[u8; 32]>) -> bool {
    0 < l.len() <= MAX_HEADERS_PER_MESSAGE && hashes_nonzero(l) && (o matches Some(h) ==> h@ != zero_hash())
}

impl P2pCodec {
    /// Reads a locator and an optional stop hash filling the payload.
    fn decode_locator_request(payload: &[u8]) -> (r: Result<(Vec<[u8; 32]>, Option<[u8; 32]>), P2pCodecError>)
        ensures
            r matches Ok((l, o)) ==> locator_request_ok(l@, o) && payload@ == hashes_enc(l@) + opt_enc(o),
            forall|l: Seq<[u8; 32]>, o: Option<[u8; 32]>| locator_request_ok(l, o) && payload@ == #[trigger] (hashes_enc(l)
                + opt_enc(o)) ==> (r matches Ok((l2, o2)) && l2@ == l && o2 == o),
    {
        let ghost d = payload@;
        proof {
            assert forall|l: Seq<[u8; 32]>, o: Option<[u8; 32]>| locator_request_ok(l, o) && d == #[trigger] (hashes_enc(l)
                + opt_enc(o)) implies prefix_at(d, 0, hashes_enc(l)) && prefix_at(d, hashes_enc(l).len() as int, opt_enc(o)) by {
                assert(d.subrange(0, d.len() as int) =~= d);
                lemma_split(d, 0, hashes_enc(l), opt_enc(o));
            }
        }
        let (locator, p1) = match rd_hashes(payload, 0, MAX_HEADERS_PER_MESSAGE) {
            Ok(v) => v,
            Err(e) => return Err(e),
        };
        let (stop_hash, p2) = match rd_optional_hash(payload, p1) {
            Ok(v) => v,
            Err(e) => return Err(e),
        };
        match rd_finish(payload, p2) {
            Ok(()) => {},
            Err(e) => return Err(e),
        }
        proof {
            lemma_join(d, 0, hashes_enc(locator@), opt_enc(stop_hash));
            lemma_whole(d, hashes_enc(locator@) + opt_enc(stop_hash));
        }
        Ok((locator, stop_hash))
    }

    fn decode_get_headers(payload: &[u8]) -> (r: Result<P2pMessage, P2pCodecError>)
        ensures
            r matches Ok(w) ==> payload_of(payload@, P2pMessageType::GetHeaders, w),
            forall|m: P2pMessage| #[trigger] payload_of(payload@, P2pMessageType::GetHeaders, m) ==> (r matches Ok(w)
                && same_message(w, m)),
    {
        let (locator, stop_hash) = match Self::decode_locator_request(payload) {
            Ok(v) => v,
            Err(e) => {
                proof {
                    assert forall|m: P2pMessage| #[trigger] payload_of(payload@, P2pMessageType::GetHeaders, m) implies false by {
                        if let P2pMessage::GetHeaders { locator, stop_hash } = m {
                            assert(locator_request_ok(locator@, stop_hash));
                        }
                    }
                }
                return Err(e);
            },
        };
        let message = P2pMessage::GetHeaders { locator, stop_hash };
        match message.validate_for_network() {
            Ok(()) => {},
            Err(_) => return Err(P2pCodecError::InvalidMessage),
        }
        proof {
            assert forall|m: P2pMessage| #[trigger] payload_of(payload@, P2pMessageType::GetHeaders, m) implies same_message(
                message,
                m,
            ) by {
                if let P2pMessage::GetHeaders { locator, stop_hash } = m {
                    assert(locator_request_ok(locator@, stop_hash));
                }
            }
        }
        Ok(message)
    }

    fn decode_get_blocks(payload: &[u8]) -> (r: Result<P2pMessage, P2pCodecError>)
        ensures
            r matches Ok(w) ==> payload_of(payload@, P2pMessageType::GetBlocks, w),
            forall|m: P2pMessage| #[trigger] payload_of(payload@, P2pMessageType::GetBlocks, m) ==> (r matches Ok(w)
                && same_message(w, m)),
    {
        let (locator, stop_hash) = match Self::decode_locator_request(payload) {
            Ok(v) => v,
            Err(e) => {
                proof {
                    assert forall|m: P2pMessage| #[trigger] payload_of(payload@, P2pMessageType::GetBlocks, m) implies false by {
                        if let P2pMessage::GetBlocks { locator, stop_hash } = m {
                            assert(locator_request_ok(locator@, stop_hash));
                        }
                    }
                }
                return Err(e);
            },
        };
        let message = P2pMessage::GetBlocks { locator, stop_hash };
        match message.validate_for_network() {
            Ok(()) => {},
            Err(_) => return Err(P2pCodecError::InvalidMessage),
        }
        proof {
            assert forall|m: P2pMessage| #[trigger] payload_of(payload@, P2pMessageType::GetBlocks, m) implies same_message(
                message,
                m,
            ) by {
                if let P2pMessage::GetBlocks { locator, stop_hash } = m {
                    assert(locator_request_ok(locator@, stop_hash));
                }
            }
        }
        Ok(message)
    }

    fn decode_blocks(payload: &[u8]) -> (r: Result<P2pMessage, P2pCodecError>)
        ensures
            r matches Ok(w) ==> payload_of(payload@, P2pMessageType::Blocks, w),
            forall|m: P2pMessage| #[trigger] payload_of(payload@, P2pMessageType::Blocks, m) ==> (r matches Ok(w)
                && same_message(w, m)),
    {
        let ghost d = payload@;
        proof {
            assert forall|m: P2pMessage| #[trigger] payload_of(d, P2pMessageType::Blocks, m) implies (m matches P2pMessage::Blocks {
                hashes,
            } && prefix_at(d, 0, hashes_enc(hashes@))) by {
                assert(d.subrange(0, d.len() as int) =~= d);
            }
        }
        let (hashes, p1) = match rd_hashes(payload, 0, MAX_BLOCKS_PER_MESSAGE) {
            Ok(v) => v,
            Err(e) => return Err(e),
        };
        match rd_finish(payload, p1) {
            Ok(()) => {},
            Err(e) => return Err(e),
        }
        proof {
            lemma_whole(d, hashes_enc(hashes@));
        }
        let message = P2pMessage::Blocks { hashes };
        match message.validate_for_network() {
            Ok(()) => {},
            Err(_) => return Err(P2pCodecError::InvalidMessage),
        }
        Ok(message)
    }

    fn decode_nonce(payload: &[u8]) -> (r: Result<u64, P2pCodecError>)
        ensures
            r matches Ok(n) ==> payload@ == spec_u64_be(n),
            forall|n: u64| payload@ == #[trigger] spec_u64_be(n) ==> r == Ok::<u64, P2pCodecError>(n),
    {
        let ghost d = payload@;
        proof {
            assert forall|n: u64| d == #[trigger] spec_u64_be(n) implies prefix_at(d, 0, spec_u64_be(n)) by {
                assert(d.subrange(0, 8) =~= d);
            }
        }
        let (nonce, p1) = match rd_u64(payload, 0) {
            Ok(v) => v,
            Err(e) => return Err(e),
        };
        match rd_finish(payload, p1) {
            Ok(()) => {},
            Err(e) => return Err(e),
        }
        proof {
            lemma_whole(d, spec_u64_be(nonce));
        }
        Ok(nonce)
    }

    fn decode_transaction(payload: &[u8]) -> (r: Result<P2pMessage, P2pCodecError>)
        ensures
            r matches Ok(w) ==> payload_of(payload@, P2pMessageType::Transaction, w),
            forall|m: P2pMessage| #[trigger] payload_of(payload@, P2pMessageType::Transaction, m) ==> (r matches Ok(w)
                && same_message(w, m)),
    {
        if payload.len() != 32 {
            return Err(P2pCodecError::InvalidMessage);
        }
        let transaction_id = read_array_32(payload, 0);
        assert(transaction_id@ =~= payload@);
        if is_zero_hash(&transaction_id) {
            return Err(P2pCodecError::InvalidHash);
        }
        let message = P2pMessage::Transaction { transaction_id };
        match message.validate_for_network() {
            Ok(()) => {},
            Err(_) => return Err(P2pCodecError::InvalidMessage),
        }
        Ok(message)
    }

    fn decode_reject(payload: &[u8]) -> (r: Result<P2pMessage, P2pCodecError>)
        ensures
            r matches Ok(w) ==> payload_of(payload@, P2pMessageType::Reject, w),
            forall|m: P2pMessage| #[trigger] payload_of(payload@, P2pMessageType::Reject, m) ==> (r matches Ok(w)
                && same_message(w, m)),
    {
        let ghost d = payload@;
        proof {
            assert forall|m: P2pMessage| #[trigger] payload_of(d, P2pMessageType::Reject, m) implies {
                &&& m matches P2pMessage::Reject { message_type, reason }
                &&& d.len() >= 1
                &&& d[0] == spec_message_code(message_type)
                &&& prefix_at(d, 1, string_enc(reason@))
                &&& d.len() == 1 + string_enc(reason@).len()
            } by {
                if let P2pMessage::Reject { message_type, reason } = m {
                    assert(d.subrange(0, d.len() as int) =~= d);
                    lemma_split(d, 0, seq![spec_message_code(message_type)], string_enc(reason@));
                }
            }
        }
        let (code, p1) = match rd_u8(payload, 0) {
            Ok(v) => v,
            Err(e) => return Err(e),
        };
        let message_type = match message_type_from_code(code) {
            Some(t) => t,
            None => return Err(P2pCodecError::InvalidMessageType(code)),
        };
        let (reason, p2) = match rd_string(payload, p1, MAX_REJECT_REASON_LENGTH) {
            Ok(v) => v,
            Err(e) => {
                proof {
                    assert forall|m: P2pMessage| #[trigger] payload_of(d, P2pMessageType::Reject, m) implies false by {
                        if let P2pMessage::Reject { reason, .. } = m {
                            lemma_utf8_nonempty(reason@);
                        }
                    }
                }
                return Err(e);
            },
        };
        match rd_finish(payload, p2) {
            Ok(()) => {},
            Err(e) => return Err(e),
        }
        let ghost rs = reason@;
        let message = P2pMessage::Reject { message_type, reason };
        proof {
            lemma_utf8_nonempty(rs);
        }
        match message.validate_for_network() {
            Ok(()) => {},
            Err(_) => return Err(P2pCodecError::InvalidMessage),
        }
        proof {
            let a = seq![code];
            assert(prefix_at(d, 0, a)) by {
                assert(d.subrange(0, 1) =~= a);
            }
            lemma_join(d, 0, a, string_enc(rs));
            lemma_whole(d, a + string_enc(rs));
            assert forall|m: P2pMessage| #[trigger] payload_of(d, P2pMessageType::Reject, m) implies same_message(message, m) by {
                if let P2pMessage::Reject { message_type: t2, reason } = m {
                    lemma_utf8_nonempty(reason@);
                    assert(spec_message_code(t2) == code);
                }
            }
        }
        Ok(message)
    }

    fn decode_headers(payload: &[u8]) -> (r: Result<P2pMessage, P2pCodecError>)
        ensures
            r matches Ok(w) ==> payload_of(payload@, P2pMessageType::Headers, w),
            forall|m: P2pMessage| #[trigger] payload_of(payload@, P2pMessageType::Headers, m) ==> (r matches Ok(w)
                && same_message(w, m)),
    {
        let ghost d = payload@;
        let (count32, p1) = match rd_u32(payload, 0) {
            Ok(v) => v,
            Err(e) => {
                proof {
                    assert forall|m: P2pMessage| #[trigger] payload_of(d, P2pMessageType::Headers, m) implies false by {
                        if let P2pMessage::Headers { headers } = m {
                            assert(spec_payload(m).len() == 4 + flat_headers(headers@).len());
                        }
                    }
                }
                return Err(e);
            },
        };
        proof {
            assert forall|m: P2pMessage| #[trigger] payload_of(d, P2pMessageType::Headers, m) implies (m matches P2pMessage::Headers {
                headers,
            } && count32 == headers@.len() && prefix_at(d, 4, flat_headers(headers@)) && d.len() == 4 + flat_headers(
                headers@,
            ).len()) by {
                if let P2pMessage::Headers { headers } = m {
                    let a = spec_u32_be(headers@.len() as u32);
                    assert(d.subrange(0, d.len() as int) =~= d);
                    lemma_split(d, 0, a, flat_headers(headers@));
                }
            }
        }
        let count = count32 as usize;
        if count == 0 || count > MAX_HEADERS_PER_MESSAGE {
            return Err(P2pCodecError::InvalidCount);
        }
        let mut headers: Vec<HeaderRef> = Vec::new();
        let mut cursor = p1;
        assert(d.subrange(4, 4) =~= flat_headers(headers@));
        for k in 0..count
            invariant
                d == payload@,
                p1 == 4,
                4 <= d.len(),
                0 < count <= MAX_HEADERS_PER_MESSAGE,
                prefix_at(d, 0, spec_u32_be(count as u32)),
                cursor == 4 + 40 * k,
                cursor <= d.len(),
                headers@.len() == k,
                headers_nonzero(headers@),
                d.subrange(4, cursor as int) == flat_headers(headers@),
                forall|m: P2pMessage| #[trigger] payload_of(d, P2pMessageType::Headers, m) ==> (m matches P2pMessage::Headers {
                    headers: h,
                } && count == h@.len() && prefix_at(d, 4, flat_headers(h@)) && d.len() == 4 + flat_headers(h@).len()
                    && headers@ == h@.take(k as int)),
        {
            let (hash, p2) = match rd_hash(payload, cursor) {
                Ok(v) => v,
                Err(e) => {
                    proof {
                        assert forall|m: P2pMessage| #[trigger] payload_of(d, P2pMessageType::Headers, m) implies false by {
                            if let P2pMessage::Headers { headers: h } = m {
                                lemma_flat_headers(h@);
                            }
                        }
                    }
                    return Err(e);
                },
            };
            if is_zero_hash(&hash) {
                proof {
                    assert forall|m: P2pMessage| #[trigger] payload_of(d, P2pMessageType::Headers, m) implies false by {
                        if let P2pMessage::Headers { headers: h } = m {
                            lemma_flat_headers(h@);
                            let e = flat_headers(h@).subrange(40 * k, 40 * k + 40);
                            assert(e == h@[k as int].hash@ + spec_u64_be(h@[k as int].height));
                            assert(d.subrange(cursor as int, cursor + 40) =~= e);
                            assert(hash@ =~= e.subrange(0, 32));
                            assert(e.subrange(0, 32) =~= h@[k as int].hash@);
                            assert(headers_nonzero(h@));
                            assert(h@[k as int].hash@ != zero_hash());
                        }
                    }
                }
                return Err(P2pCodecError::InvalidHash);
            }
            let (height, p3) = match rd_u64(payload, p2) {
                Ok(v) => v,
                Err(e) => {
                    proof {
                        assert forall|m: P2pMessage| #[trigger] payload_of(d, P2pMessageType::Headers, m) implies false by {
                            if let P2pMessage::Headers { headers: h } = m {
                                lemma_flat_headers(h@);
                            }
                        }
                    }
                    return Err(e);
                },
            };
            let header = HeaderRef { hash, height };
            let ghost before = headers@;
            headers.push(header);
            proof {
                lemma_flat_headers_take(headers@, k as int);
                assert(headers@.take(k as int) =~= before);
                assert(headers@.take(k + 1) =~= headers@);
                assert(d.subrange(4, p3 as int) =~= d.subrange(4, cursor as int) + d.subrange(cursor as int, p2 as int)
                    + d.subrange(p2 as int, p3 as int));
                assert forall|j: int| 0 <= j < headers@.len() implies (#[trigger] headers@[j]).hash@ != zero_hash() by {
                    if j < k {
                        assert(headers@[j] == before[j]);
                    }
                }
                assert forall|m: P2pMessage| #[trigger] payload_of(d, P2pMessageType::Headers, m) implies (m matches P2pMessage::Headers {
                    headers: h,
                } && headers@ == h@.take(k + 1)) by {
                    if let P2pMessage::Headers { headers: h } = m {
                        lemma_flat_headers(h@);
                        let e = flat_headers(h@).subrange(40 * k, 40 * k + 40);
                        assert(e == h@[k as int].hash@ + spec_u64_be(h@[k as int].height));
                        assert(d.subrange(cursor as int, cursor + 40) =~= e);
                        assert(hash@ =~= e.subrange(0, 32));
                        assert(hash@ =~= h@[k as int].hash@);
                        assert(hash =~= h@[k as int].hash);
                        assert(prefix_at(d, p2 as int, spec_u64_be(h@[k as int].height))) by {
                            assert(d.subrange(p2 as int, p2 + 8) =~= e.subrange(32, 40));
                            assert(e.subrange(32, 40) =~= spec_u64_be(h@[k as int].height));
                        }
                        assert(h@.take(k + 1) =~= h@.take(k as int).push(h@[k as int]));
                    }
                }
            }
            cursor = p3;
        }
        match rd_finish(payload, cursor) {
            Ok(()) => {},
            Err(e) => {
                proof {
                    assert forall|m: P2pMessage| #[trigger] payload_of(d, P2pMessageType::Headers, m) implies false by {
                        if let P2pMessage::Headers { headers: h } = m {
                            lemma_flat_headers(h@);
                        }
                    }
                }
                return Err(e);
            },
        }
        let ghost hs = headers@;
        let message = P2pMessage::Headers { headers };
        proof {
            lemma_flat_headers(hs);
        }
        match message.validate_for_network() {
            Ok(()) => {},
            Err(_) => return Err(P2pCodecError::InvalidMessage),
        }
        proof {
            lemma_join(d, 0, spec_u32_be(count as u32), flat_headers(hs));
            lemma_whole(d, spec_u32_be(count as u32) + flat_headers(hs));
            assert forall|m: P2pMessage| #[trigger] payload_of(d, P2pMessageType::Headers, m) implies same_message(message, m) by {
                if let P2pMessage::Headers { headers: h } = m {
                    assert(h@.take(count as int) =~= h@);
                }
            }
        }
        Ok(message)
    }
}

impl P2pCodec {
    fn decode_payload(message_type: u8, payload: &[u8]) -> (r: Result<P2pMessage, P2pCodecError>)
        ensures
            r matches Ok(w) ==> spec_message_code(w.spec_type()) == message_type && decodable(w) && payload@ == spec_payload(w),
            forall|m: P2pMessage| spec_message_code(m.spec_type()) == message_type && decodable(m) && payload@
                == #[trigger] spec_payload(m) ==> (r matches Ok(w) && same_message(w, m)),
            !(1 <= message_type <= 10) ==> r == Err::<P2pMessage, P2pCodecError>(P2pCodecError::InvalidMessageType(message_type)),
    {
        let ghost d = payload@;
        proof {
            assert forall|m: P2pMessage| spec_message_code(m.spec_type()) == message_type && decodable(m) && d
                == #[trigger] spec_payload(m) implies payload_of(d, m.spec_type(), m) by {}
        }
        match message_type {
            1 => Self::decode_version(payload),
            2 => {
                if payload.len() != 0 {
                    return Err(P2pCodecError::InvalidMessage);
                }
                let message = P2pMessage::VerAck;
                assert(d =~= spec_payload(message));
                Ok(message)
            },
            3 => {
                let nonce = match Self::decode_nonce(payload) {
                    Ok(n) => n,
                    Err(e) => return Err(e),
                };
                Ok(P2pMessage::Ping { nonce })
            },
            4 => {
                let nonce = match Self::decode_nonce(payload) {
                    Ok(n) => n,
                    Err(e) => return Err(e),
                };
                Ok(P2pMessage::Pong { nonce })
            },
            5 => Self::decode_get_headers(payload),
            6 => Self::decode_headers(payload),
            7 => Self::decode_get_blocks(payload),
            8 => Self::decode_blocks(payload),
            9 => Self::decode_transaction(payload),
            10 => Self::decode_reject(payload),
            value => Err(P2pCodecError::InvalidMessageType(value)),
        }
    }

    /// Decodes a frame. It succeeds exactly on the frame of a decodable
    /// message, and then gives that message back.
    pub fn decode(frame: &[u8]) -> (r: Result<P2pMessage, P2pCodecError>)
        ensures
            frame@.len() < 5 ==> (r matches Err(P2pCodecError::TruncatedFrame)),
            frame@.len() >= 5 ==> {
                let declared = spec_u32_from_be(frame@[0], frame@[1], frame@[2], frame@[3]);
                &&& declared < 1 ==> (r matches Err(P2pCodecError::TruncatedFrame))
                &&& declared > MAX_P2P_MESSAGE_SIZE ==> (r matches Err(P2pCodecError::FrameTooLarge))
                &&& 1 <= declared <= MAX_P2P_MESSAGE_SIZE && frame@.len() != 4 + declared ==> (r matches Err(
                    P2pCodecError::TruncatedFrame,
                ))
                &&& 1 <= declared <= MAX_P2P_MESSAGE_SIZE && frame@.len() == 4 + declared && !(1 <= frame@[4] <= 10)
                    ==> r == Err::<P2pMessage, P2pCodecError>(P2pCodecError::InvalidMessageType(frame@[4]))
            },
            r matches Ok(w) ==> decodable(w) && frame@ == spec_frame(w),
            forall|m: P2pMessage| decodable(m) && frame@ == #[trigger] spec_frame(m) ==> (r matches Ok(w) && same_message(w, m)),
    {
        let ghost f = frame@;
        if frame.len() < FRAME_LENGTH_SIZE + FRAME_TYPE_SIZE {
            return Err(P2pCodecError::TruncatedFrame);
        }
        let declared32 = read_u32_be(frame, 0);
        let declared = declared32 as usize;
        proof {
            lemma_u32_at(f, 0);
            assert forall|m: P2pMessage| decodable(m) && f == #[trigger] spec_frame(m) implies declared == spec_payload(m).len() + 1
                && spec_payload(m).len() <= 80_004 && f.subrange(5, f.len() as int) == spec_payload(m) && f[4] == spec_message_code(m.spec_type()) by {
                lemma_payload_len(m);
                let a = spec_u32_be((spec_payload(m).len() + 1) as u32);
                let b = seq![spec_message_code(m.spec_type())];
                assert(f.subrange(0, f.len() as int) =~= f);
                lemma_split(f, 0, a + b, spec_payload(m));
                lemma_split(f, 0, a, b);
                assert(f[4] == f.subrange(4, 5)[0]);
            }
        }
        if declared < FRAME_TYPE_SIZE {
            return Err(P2pCodecError::TruncatedFrame);
        }
        if declared > MAX_P2P_MESSAGE_SIZE {
            return Err(P2pCodecError::FrameTooLarge);
        }
        let expected_total = FRAME_LENGTH_SIZE + declared;
        if frame.len() != expected_total {
            return Err(P2pCodecError::TruncatedFrame);
        }
        let message_type = frame[FRAME_LENGTH_SIZE];
        let payload = &frame[5..frame.len()];
        assert(payload@ == f.subrange(5, f.len() as int));
        let r = Self::decode_payload(message_type, payload);
        proof {
            if r is Ok {
                let w = r->Ok_0;
                let a = spec_u32_be((spec_payload(w).len() + 1) as u32);
                let b = seq![spec_message_code(w.spec_type())];
                assert(f =~= a + b + spec_payload(w)) by {
                    assert(f.subrange(0, 4) =~= a);
                }
            }
        }
        r
    }
}

impl P2pCodec {
    /// Length of the frame body announced by the first four bytes of a
    /// frame read from a stream: type byte plus payload, at least 1 and at
    /// most the message size limit.
    pub fn declared_length(length_bytes: [u8; 4]) -> (r: Result<usize, P2pCodecError>)
        ensures
            ({
                let declared = spec_u32_from_be(length_bytes@[0], length_bytes@[1], length_bytes@[2], length_bytes@[3]);
                &&& declared < 1 ==> (r matches Err(P2pCodecError::TruncatedFrame))
                &&& declared > MAX_P2P_MESSAGE_SIZE ==> (r matches Err(P2pCodecError::FrameTooLarge))
                &&& 1 <= declared <= MAX_P2P_MESSAGE_SIZE ==> r == Ok::<usize, P2pCodecError>(declared as usize)
            }),
    {
        let declared = read_u32_be(&length_bytes, 0) as usize;
        if declared < 1 {
            return Err(P2pCodecError::TruncatedFrame);
        }
        if declared > MAX_P2P_MESSAGE_SIZE {
            return Err(P2pCodecError::FrameTooLarge);
        }
        Ok(declared)
    }
}

/// Calls `std::io::Write::write_all` on the bytes. Nothing is claimed of
/// what the writer does with them; its error becomes `Io` with the error's
/// text.
#[verifier::external_body]
fn write_all_bytes<W: std::io::Write>(writer: &mut W, bytes: &[u8]) -> (r: Result<(), P2pCodecError>)
    ensures
        r matches Err(e) ==> e is Io,
{
    match writer.write_all(bytes) {
        Ok(()) => Ok(()),
        Err(e) => Err(P2pCodecError::Io(e.to_string())),
    }
}

/// Calls `std::io::Read::read_exact` for `n` bytes. On success, as its
/// documentation says, exactly `n` bytes were read; what they are depends on
/// the reader. Its error becomes `Io` with the error's text.
#[verifier::external_body]
fn read_exact_bytes<R: std::io::Read>(reader: &mut R, n: usize) -> (r: Result<Vec<u8>, P2pCodecError>)
    ensures
        r matches Ok(v) ==> v@.len() == n,
        r matches Err(e) ==> e is Io,
{
    let mut buffer = vec![0u8; n];
    match reader.read_exact(&mut buffer) {
        Ok(()) => Ok(buffer),
        Err(e) => Err(P2pCodecError::Io(e.to_string())),
    }
}

impl P2pCodec {
    /// Encodes a message and writes its frame to `writer`. A message the
    /// encoder refuses gives the encoder's error and nothing is written; a
    /// failed write gives `Io`.
    pub fn write_message<W: std::io::Write>(writer: &mut W, message: &P2pMessage) -> (r: Result<(), P2pCodecError>)
        requires
            message.size_computable(),
        ensures
            !message.spec_valid_for_network() ==> (r matches Err(P2pCodecError::InvalidMessage)),
            message.spec_valid_for_network() && !encodable(*message) ==> (r matches Err(P2pCodecError::InvalidHash)),
            encodable(*message) && r is Err ==> (r matches Err(P2pCodecError::Io(_))),
            r is Ok ==> encodable(*message),
    {
        let encoded = match Self::encode(message) {
            Ok(b) => b,
            Err(e) => return Err(e),
        };
        write_all_bytes(writer, encoded.as_slice())
    }

    /// Decodes the frame made of the four length bytes and the bytes that
    /// follow them, as `decode` does on the two joined.
    pub fn decode_stream_frame(head: [u8; 4], rest: &[u8]) -> (r: Result<P2pMessage, P2pCodecError>)
        ensures
            ({
                let frame = head@ + rest@;
                &&& frame.len() >= 5 ==> {
                    let declared = spec_u32_from_be(frame[0], frame[1], frame[2], frame[3]);
                    &&& declared < 1 ==> (r matches Err(P2pCodecError::TruncatedFrame))
                    &&& declared > MAX_P2P_MESSAGE_SIZE ==> (r matches Err(P2pCodecError::FrameTooLarge))
                    &&& 1 <= declared <= MAX_P2P_MESSAGE_SIZE && frame.len() != 4 + declared ==> (r matches Err(
                        P2pCodecError::TruncatedFrame,
                    ))
                    &&& 1 <= declared <= MAX_P2P_MESSAGE_SIZE && frame.len() == 4 + declared && !(1 <= frame[4] <= 10)
                        ==> r == Err::<P2pMessage, P2pCodecError>(P2pCodecError::InvalidMessageType(frame[4]))
                }
                &&& frame.len() < 5 ==> (r matches Err(P2pCodecError::TruncatedFrame))
                &&& r matches Ok(w) ==> decodable(w) && frame == spec_frame(w)
            }),
            forall|m: P2pMessage| decodable(m) && head@ + rest@ == #[trigger] spec_frame(m) ==> (r matches Ok(w)
                && same_message(w, m)),
    {
        let mut frame: Vec<u8> = Vec::new();
        push_bytes(&mut frame, head.as_slice());
        push_bytes(&mut frame, rest);
        assert(frame@ =~= head@ + rest@);
        Self::decode(frame.as_slice())
    }

    /// Reads one frame from `reader`: the four length bytes, then as many
    /// bytes as they announce, and decodes it with `decode_stream_frame`.
    pub fn read_message<R: std::io::Read>(reader: &mut R) -> (r: Result<P2pMessage, P2pCodecError>)
        ensures
            r matches Ok(w) ==> decodable(w),
    {
        let head = match read_exact_bytes(reader, FRAME_LENGTH_SIZE) {
            Ok(v) => v,
            Err(e) => return Err(e),
        };
        let length_bytes = [head[0], head[1], head[2], head[3]];
        let declared = match Self::declared_length(length_bytes) {
            Ok(n) => n,
            Err(e) => return Err(e),
        };
        let rest = match read_exact_bytes(reader, declared) {
            Ok(v) => v,
            Err(e) => return Err(e),
        };
        Self::decode_stream_frame(length_bytes, rest.as_slice())
    }
}

/// A decodable message survives encoding and decoding: its frame is what
/// `encode` produces, and `decode` gives back a message with the same
/// content on exactly that frame.
pub proof fn lemma_codec_roundtrip(m: P2pMessage)
    requires
        decodable(m),
    ensures
        encodable(m),
        spec_frame(m).len() == 5 + spec_payload(m).len(),
        spec_payload(m).len() < MAX_P2P_MESSAGE_SIZE,
{
    lemma_payload_len(m);
}

} // verus!
