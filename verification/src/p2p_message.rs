//! Logical peer-to-peer messages: their types, validation rules and size
//! estimates.
use vstd::prelude::*;
use vstd::utf8::encode_utf8;
use crate::bytes::{is_zero_hash, zero_hash};
use crate::p2p::PeerId;

verus! {

pub const P2P_MESSAGE_PROTOCOL_VERSION: u32 = 1;

pub const MAX_P2P_MESSAGE_SIZE: usize = 2_000_000;

pub const MAX_HEADERS_PER_MESSAGE: usize = 2_000;

pub const MAX_BLOCKS_PER_MESSAGE: usize = 128;

pub const MAX_TRANSACTION_BATCH_SIZE: usize = 1_000;

pub const MAX_REJECT_REASON_LENGTH: usize = 256;

/// Longest user agent, in bytes, a Version message may carry.
pub const MAX_VERSION_USER_AGENT_LENGTH: usize = 128;

#[derive(Debug, Clone, Copy, PartialEq, Eq, Structural)]
pub enum P2pMessageType {
    Version,
    VerAck,
    Ping,
    Pong,
    GetHeaders,
    Headers,
    GetBlocks,
    Blocks,
    Transaction,
    Reject,
}

/// Wire code of each message type, 1 to 10 in declaration order.
pub open spec fn spec_message_code(t: P2pMessageType) -> u8 {
    match t {
        P2pMessageType::Version => 1,
        P2pMessageType::VerAck => 2,
        P2pMessageType::Ping => 3,
        P2pMessageType::Pong => 4,
        P2pMessageType::GetHeaders => 5,
        P2pMessageType::Headers => 6,
        P2pMessageType::GetBlocks => 7,
        P2pMessageType::Blocks => 8,
        P2pMessageType::Transaction => 9,
        P2pMessageType::Reject => 10,
    }
}

impl P2pMessageType {
    pub fn as_str(&self) -> (r: &'static str)
        ensures
            r@ == (match *self {
                P2pMessageType::Version => "version"@,
                P2pMessageType::VerAck => "verack"@,
                P2pMessageType::Ping => "ping"@,
                P2pMessageType::Pong => "pong"@,
                P2pMessageType::GetHeaders => "getheaders"@,
                P2pMessageType::Headers => "headers"@,
                P2pMessageType::GetBlocks => "getblocks"@,
                P2pMessageType::Blocks => "blocks"@,
                P2pMessageType::Transaction => "tx"@,
                P2pMessageType::Reject => "reject"@,
            }),
    {
        match self {
            P2pMessageType::Version => "version",
            P2pMessageType::VerAck => "verack",
            P2pMessageType::Ping => "ping",
            P2pMessageType::Pong => "pong",
            P2pMessageType::GetHeaders => "getheaders",
            P2pMessageType::Headers => "headers",
            P2pMessageType::GetBlocks => "getblocks",
            P2pMessageType::Blocks => "blocks",
            P2pMessageType::Transaction => "tx",
            P2pMessageType::Reject => "reject",
        }
    }

    pub fn code(&self) -> (r: u8)
        ensures
            r == spec_message_code(*self),
    {
        match self {
            P2pMessageType::Version => 1,
            P2pMessageType::VerAck => 2,
            P2pMessageType::Ping => 3,
            P2pMessageType::Pong => 4,
            P2pMessageType::GetHeaders => 5,
            P2pMessageType::Headers => 6,
            P2pMessageType::GetBlocks => 7,
            P2pMessageType::Blocks => 8,
            P2pMessageType::Transaction => 9,
            P2pMessageType::Reject => 10,
        }
    }
}

/// The message type with a given wire code.
pub fn message_type_from_code(code: u8) -> (r: Option<P2pMessageType>)
    ensures
        r is Some <==> 1 <= code <= 10,
        r matches Some(t) ==> spec_message_code(t) == code,
{
    match code {
        1 => Some(P2pMessageType::Version),
        2 => Some(P2pMessageType::VerAck),
        3 => Some(P2pMessageType::Ping),
        4 => Some(P2pMessageType::Pong),
        5 => Some(P2pMessageType::GetHeaders),
        6 => Some(P2pMessageType::Headers),
        7 => Some(P2pMessageType::GetBlocks),
        8 => Some(P2pMessageType::Blocks),
        9 => Some(P2pMessageType::Transaction),
        10 => Some(P2pMessageType::Reject),
        _ => None,
    }
}

#[derive(Debug, Clone, Copy, PartialEq, Eq)]
pub struct HeaderRef {
    pub hash: [u8; 32],
    pub height: u64,
}

#[derive(Debug, Clone, PartialEq, Eq)]
pub enum P2pMessage {
    Version { protocol_version: u32, node_id: PeerId, user_agent: String, start_height: u64 },
    VerAck,
    Ping { nonce: u64 },
    Pong { nonce: u64 },
    GetHeaders { locator: Vec<[u8; 32]>, stop_hash: Option<[u8; 32]> },
    Headers { headers: Vec<HeaderRef> },
    GetBlocks { locator: Vec<[u8; 32]>, stop_hash: Option<[u8; 32]> },
    Blocks { hashes: Vec<[u8; 32]> },
    Transaction { transaction_id: [u8; 32] },
    Reject { message_type: P2pMessageType, reason: String },
}

/// Number of UTF-8 bytes of a string.
pub open spec fn utf8_len(s: Seq<char>) -> int {
    encode_utf8(s).len() as int
}

/// Whether none of the hashes is all zeros.
pub open spec fn hashes_nonzero(h: Seq<[u8; 32]>) -> bool {
    forall|i: int| 0 <= i < h.len() ==> (#[trigger] h[i])@ != zero_hash()
}

/// Whether none of the header references has an all-zero hash.
pub open spec fn headers_nonzero(h: Seq<HeaderRef>) -> bool {
    forall|i: int| 0 <= i < h.len() ==> (#[trigger] h[i]).hash@ != zero_hash()
}

impl P2pMessage {
    pub open spec fn spec_type(&self) -> P2pMessageType {
        match self {
            P2pMessage::Version { .. } => P2pMessageType::Version,
            P2pMessage::VerAck => P2pMessageType::VerAck,
            P2pMessage::Ping { .. } => P2pMessageType::Ping,
            P2pMessage::Pong { .. } => P2pMessageType::Pong,
            P2pMessage::GetHeaders { .. } => P2pMessageType::GetHeaders,
            P2pMessage::Headers { .. } => P2pMessageType::Headers,
            P2pMessage::GetBlocks { .. } => P2pMessageType::GetBlocks,
            P2pMessage::Blocks { .. } => P2pMessageType::Blocks,
            P2pMessage::Transaction { .. } => P2pMessageType::Transaction,
            P2pMessage::Reject { .. } => P2pMessageType::Reject,
        }
    }

    /// The validation rules of each message type.
    pub open spec fn spec_valid(&self) -> bool {
        match self {
            P2pMessage::Version { protocol_version, node_id, user_agent, .. } => {
                &&& *protocol_version == P2P_MESSAGE_PROTOCOL_VERSION
                &&& node_id@ != zero_hash()
                &&& user_agent@.len() > 0
                &&& utf8_len(user_agent@) <= MAX_VERSION_USER_AGENT_LENGTH
            },
            P2pMessage::GetHeaders { locator, .. } => 0 < locator@.len() <= MAX_HEADERS_PER_MESSAGE,
            P2pMessage::Headers { headers } => 0 < headers@.len() <= MAX_HEADERS_PER_MESSAGE && headers_nonzero(
                headers@,
            ),
            P2pMessage::GetBlocks { locator, .. } => 0 < locator@.len() <= MAX_HEADERS_PER_MESSAGE,
            P2pMessage::Blocks { hashes } => 0 < hashes@.len() <= MAX_BLOCKS_PER_MESSAGE && hashes_nonzero(hashes@),
            P2pMessage::Transaction { transaction_id } => transaction_id@ != zero_hash(),
            P2pMessage::Reject { reason, .. } => reason@.len() > 0 && utf8_len(reason@) <= MAX_REJECT_REASON_LENGTH,
            _ => true,
        }
    }

    pub open spec fn spec_estimated_size(&self) -> int {
        match self {
            P2pMessage::Version { user_agent, .. } => 4 + 32 + 8 + utf8_len(user_agent@),
            P2pMessage::VerAck => 1,
            P2pMessage::Ping { .. } => 8,
            P2pMessage::Pong { .. } => 8,
            P2pMessage::GetHeaders { locator, stop_hash } => 4 + locator@.len() * 32 + if stop_hash is Some {
                32int
            } else {
                0int
            },
            P2pMessage::Headers { headers } => (4 + headers@.len() * 40) as int,
            P2pMessage::GetBlocks { locator, stop_hash } => 4 + locator@.len() * 32 + if stop_hash is Some {
                32int
            } else {
                0int
            },
            P2pMessage::Blocks { hashes } => (4 + hashes@.len() * 32) as int,
            P2pMessage::Transaction { .. } => 32,
            P2pMessage::Reject { reason, .. } => 1 + 4 + utf8_len(reason@),
        }
    }

    /// Whether the size estimate can be computed in a `usize`.
    pub open spec fn size_computable(&self) -> bool {
        self.spec_estimated_size() <= usize::MAX
    }

    pub fn message_type(&self) -> (r: P2pMessageType)
        ensures
            r == self.spec_type(),
    {
        match self {
            P2pMessage::Version { .. } => P2pMessageType::Version,
            P2pMessage::VerAck => P2pMessageType::VerAck,
            P2pMessage::Ping { .. } => P2pMessageType::Ping,
            P2pMessage::Pong { .. } => P2pMessageType::Pong,
            P2pMessage::GetHeaders { .. } => P2pMessageType::GetHeaders,
            P2pMessage::Headers { .. } => P2pMessageType::Headers,
            P2pMessage::GetBlocks { .. } => P2pMessageType::GetBlocks,
            P2pMessage::Blocks { .. } => P2pMessageType::Blocks,
            P2pMessage::Transaction { .. } => P2pMessageType::Transaction,
            P2pMessage::Reject { .. } => P2pMessageType::Reject,
        }
    }

    pub fn message_name(&self) -> (r: &'static str)
        ensures
            r@ == (match self.spec_type() {
                P2pMessageType::Version => "version"@,
                P2pMessageType::VerAck => "verack"@,
                P2pMessageType::Ping => "ping"@,
                P2pMessageType::Pong => "pong"@,
                P2pMessageType::GetHeaders => "getheaders"@,
                P2pMessageType::Headers => "headers"@,
                P2pMessageType::GetBlocks => "getblocks"@,
                P2pMessageType::Blocks => "blocks"@,
                P2pMessageType::Transaction => "tx"@,
                P2pMessageType::Reject => "reject"@,
            }),
    {
        self.message_type().as_str()
    }

    pub fn estimated_size(&self) -> (r: usize)
        requires
            self.size_computable(),
        ensures
            r == self.spec_estimated_size(),
    {
        match self {
            P2pMessage::Version { user_agent, .. } => 4 + 32 + 8 + user_agent.as_str().as_bytes().len(),
            P2pMessage::VerAck => 1,
            P2pMessage::Ping { .. } => 8,
            P2pMessage::Pong { .. } => 8,
            P2pMessage::GetHeaders { locator, stop_hash } => 4 + locator.len() * 32 + if stop_hash.is_some() {
                32
            } else {
                0
            },
            P2pMessage::Headers { headers } => 4 + headers.len() * 40,
            P2pMessage::GetBlocks { locator, stop_hash } => 4 + locator.len() * 32 + if stop_hash.is_some() {
                32
            } else {
                0
            },
            P2pMessage::Blocks { hashes } => 4 + hashes.len() * 32,
            P2pMessage::Transaction { .. } => 32,
            P2pMessage::Reject { reason, .. } => 1 + 4 + reason.as_str().as_bytes().len(),
        }
    }

    pub fn validate(&self) -> (r: Result<(), String>)
        ensures
            r is Ok <==> self.spec_valid(),
    {
        match self {
            P2pMessage::Version { protocol_version, node_id, user_agent, .. } => {
                if *protocol_version != P2P_MESSAGE_PROTOCOL_VERSION {
                    return Err(String::from_str("unsupported p2p message protocol version"));
                }
                if is_zero_hash(node_id) {
                    return Err(String::from_str("version message contains zero node id"));
                }
                if user_agent.as_str().is_empty() {
                    return Err(String::from_str("version message user agent cannot be empty"));
                }
                if user_agent.as_str().as_bytes().len() > MAX_VERSION_USER_AGENT_LENGTH {
                    return Err(String::from_str("version message user agent is too long"));
                }
                Ok(())
            },
            P2pMessage::VerAck => Ok(()),
            P2pMessage::Ping { .. } => Ok(()),
            P2pMessage::Pong { .. } => Ok(()),
            P2pMessage::GetHeaders { locator, .. } => {
                if locator.len() == 0 {
                    return Err(String::from_str("getheaders locator cannot be empty"));
                }
                if locator.len() > MAX_HEADERS_PER_MESSAGE {
                    return Err(String::from_str("getheaders locator exceeds maximum size"));
                }
                Ok(())
            },
            P2pMessage::Headers { headers } => {
                if headers.len() == 0 {
                    return Err(String::from_str("headers message cannot be empty"));
                }
                if headers.len() > MAX_HEADERS_PER_MESSAGE {
                    return Err(String::from_str("headers message exceeds maximum size"));
                }
                if !all_headers_nonzero(headers) {
                    return Err(String::from_str("headers message contains zero hash"));
                }
                Ok(())
            },
            P2pMessage::GetBlocks { locator, .. } => {
                if locator.len() == 0 {
                    return Err(String::from_str("getblocks locator cannot be empty"));
                }
                if locator.len() > MAX_HEADERS_PER_MESSAGE {
                    return Err(String::from_str("getblocks locator exceeds maximum size"));
                }
                Ok(())
            },
            P2pMessage::Blocks { hashes } => {
                if hashes.len() == 0 {
                    return Err(String::from_str("blocks message cannot be empty"));
                }
                if hashes.len() > MAX_BLOCKS_PER_MESSAGE {
                    return Err(String::from_str("blocks message exceeds maximum size"));
                }
                if !all_nonzero(hashes) {
                    return Err(String::from_str("blocks message contains zero hash"));
                }
                Ok(())
            },
            P2pMessage::Transaction { transaction_id } => {
                if is_zero_hash(transaction_id) {
                    return Err(String::from_str("transaction id cannot be zero"));
                }
                Ok(())
            },
            P2pMessage::Reject { reason, .. } => {
                if reason.as_str().is_empty() {
                    return Err(String::from_str("reject reason cannot be empty"));
                }
                if reason.as_str().as_bytes().len() > MAX_REJECT_REASON_LENGTH {
                    return Err(String::from_str("reject reason is too long"));
                }
                Ok(())
            },
        }
    }

    pub fn is_within_size_limit(&self) -> (r: bool)
        requires
            self.size_computable(),
        ensures
            r == (self.spec_estimated_size() <= MAX_P2P_MESSAGE_SIZE),
    {
        self.estimated_size() <= MAX_P2P_MESSAGE_SIZE
    }

    pub open spec fn spec_valid_for_network(&self) -> bool {
        self.spec_valid() && self.spec_estimated_size() <= MAX_P2P_MESSAGE_SIZE
    }

    pub fn validate_for_network(&self) -> (r: Result<(), String>)
        requires
            self.size_computable(),
        ensures
            r is Ok <==> self.spec_valid_for_network(),
    {
        match self.validate() {
            Ok(()) => {},
            Err(e) => return Err(e),
        }
        if !self.is_within_size_limit() {
            return Err(String::from_str("p2p message exceeds maximum network size"));
        }
        Ok(())
    }
}

/// Whether none of the header references has an all-zero hash.
pub fn all_headers_nonzero(headers: &Vec<HeaderRef>) -> (r: bool)
    ensures
        r == headers_nonzero(headers@),
{
    let n = headers.len();
    for i in 0..n
        invariant
            n == headers@.len(),
            forall|j: int| 0 <= j < i ==> (#[trigger] headers@[j]).hash@ != zero_hash(),
    {
        if is_zero_hash(&headers[i].hash) {
            return false;
        }
    }
    true
}

/// Whether none of the hashes is all zeros.
pub fn all_nonzero(hashes: &Vec<[u8; 32]>) -> (r: bool)
    ensures
        r == hashes_nonzero(hashes@),
{
    let n = hashes.len();
    for i in 0..n
        invariant
            n == hashes@.len(),
            forall|j: int| 0 <= j < i ==> (#[trigger] hashes@[j])@ != zero_hash(),
    {
        if is_zero_hash(&hashes[i]) {
            return false;
        }
    }
    true
}

} // verus!
