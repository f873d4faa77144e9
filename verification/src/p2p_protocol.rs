//! Framed protocol messages: message types, payload limits, headers and the
//! per-connection session state machine.
use vstd::prelude::*;
use crate::bytes::{hash_eq, is_zero_hash, zero_hash};
use crate::p2p::PeerId;

verus! {

pub const P2P_PROTOCOL_VERSION: u32 = 1;

pub const MAX_MESSAGE_SIZE: usize = 2_097_152;

pub const MAX_USER_AGENT_LENGTH: usize = 128;

pub const MAX_GET_HEADERS: usize = 2000;

pub const MAX_GET_BLOCKS: usize = 2000;

pub const MAX_PEER_ADDRESSES: usize = 256;

#[derive(Debug, Clone, Copy, PartialEq, Eq, Structural)]
pub enum MessageType {
    Ping,
    Pong,
    Handshake,
    GetPeers,
    Peers,
    GetHeaders,
    Headers,
    GetBlocks,
    Blocks,
    Transaction,
    Block,
}

/// Wire code of each message type, 1 to 11 in declaration order.
pub open spec fn spec_type_code(t: MessageType) -> u8 {
    match t {
        MessageType::Ping => 1,
        MessageType::Pong => 2,
        MessageType::Handshake => 3,
        MessageType::GetPeers => 4,
        MessageType::Peers => 5,
        MessageType::GetHeaders => 6,
        MessageType::Headers => 7,
        MessageType::GetBlocks => 8,
        MessageType::Blocks => 9,
        MessageType::Transaction => 10,
        MessageType::Block => 11,
    }
}

impl MessageType {
    /// The wire code of this type.
    pub fn code(self) -> (r: u8)
        ensures
            r == spec_type_code(self),
    {
        match self {
            MessageType::Ping => 1,
            MessageType::Pong => 2,
            MessageType::Handshake => 3,
            MessageType::GetPeers => 4,
            MessageType::Peers => 5,
            MessageType::GetHeaders => 6,
            MessageType::Headers => 7,
            MessageType::GetBlocks => 8,
            MessageType::Blocks => 9,
            MessageType::Transaction => 10,
            MessageType::Block => 11,
        }
    }

    pub fn from_u8(value: u8) -> (r: Option<Self>)
        ensures
            r is Some <==> 1 <= value <= 11,
            r matches Some(t) ==> spec_type_code(t) == value,
    {
        match value {
            1 => Some(MessageType::Ping),
            2 => Some(MessageType::Pong),
            3 => Some(MessageType::Handshake),
            4 => Some(MessageType::GetPeers),
            5 => Some(MessageType::Peers),
            6 => Some(MessageType::GetHeaders),
            7 => Some(MessageType::Headers),
            8 => Some(MessageType::GetBlocks),
            9 => Some(MessageType::Blocks),
            10 => Some(MessageType::Transaction),
            11 => Some(MessageType::Block),
            _ => None,
        }
    }

    pub fn is_request(self) -> (r: bool)
        ensures
            r == (self is Ping || self is Handshake || self is GetPeers || self is GetHeaders
                || self is GetBlocks || self is Transaction || self is Block),
    {
        match self {
            MessageType::Ping | MessageType::Handshake | MessageType::GetPeers | MessageType::GetHeaders
            | MessageType::GetBlocks | MessageType::Transaction | MessageType::Block => true,
            _ => false,
        }
    }

    pub fn is_response(self) -> (r: bool)
        ensures
            r == (self is Pong || self is Peers || self is Headers || self is Blocks),
    {
        match self {
            MessageType::Pong | MessageType::Peers | MessageType::Headers | MessageType::Blocks => true,
            _ => false,
        }
    }
}

/// Every type is exactly one of request and response, and the wire code
/// identifies the type.
pub proof fn lemma_message_type_kinds(a: MessageType, b: MessageType)
    ensures
        (a is Ping || a is Handshake || a is GetPeers || a is GetHeaders || a is GetBlocks || a is Transaction
            || a is Block) != (a is Pong || a is Peers || a is Headers || a is Blocks),
        spec_type_code(a) == spec_type_code(b) ==> a == b,
{
}

/// Payload rules per message type, within the overall size limit.
pub open spec fn spec_payload_valid(t: MessageType, p: Seq<u8>) -> bool {
    &&& p.len() <= MAX_MESSAGE_SIZE
    &&& match t {
        MessageType::Ping | MessageType::Pong | MessageType::GetPeers => p.len() == 0,
        MessageType::Handshake => 0 < p.len() <= MAX_USER_AGENT_LENGTH + 64,
        MessageType::Peers => p.len() <= MAX_PEER_ADDRESSES * 32,
        MessageType::GetHeaders => 0 < p.len() <= MAX_GET_HEADERS * 32,
        MessageType::Headers => 0 < p.len() <= MAX_GET_HEADERS * 128,
        MessageType::GetBlocks => 0 < p.len() <= MAX_GET_BLOCKS * 32,
        MessageType::Blocks => 0 < p.len() <= MAX_GET_BLOCKS * 2048,
        MessageType::Transaction | MessageType::Block => p.len() > 0,
    }
}

pub fn validate_message_payload(message_type: MessageType, payload: &[u8]) -> (r: Result<(), String>)
    ensures
        r is Ok <==> spec_payload_valid(message_type, payload@),
{
    let n = payload.len();
    if n > MAX_MESSAGE_SIZE {
        return Err(String::from_str("message payload exceeds maximum size"));
    }
    match message_type {
        MessageType::Ping => {
            if n != 0 {
                return Err(String::from_str("ping payload must be empty"));
            }
        },
        MessageType::Pong => {
            if n != 0 {
                return Err(String::from_str("pong payload must be empty"));
            }
        },
        MessageType::Handshake => {
            if n == 0 {
                return Err(String::from_str("handshake payload cannot be empty"));
            }
            if n > MAX_USER_AGENT_LENGTH + 64 {
                return Err(String::from_str("handshake payload is too large"));
            }
        },
        MessageType::GetPeers => {
            if n != 0 {
                return Err(String::from_str("get peers payload must be empty"));
            }
        },
        MessageType::Peers => {
            if n > MAX_PEER_ADDRESSES * 32 {
                return Err(String::from_str("peers payload exceeds maximum size"));
            }
        },
        MessageType::GetHeaders => {
            if n == 0 {
                return Err(String::from_str("get headers payload cannot be empty"));
            }
            if n > MAX_GET_HEADERS * 32 {
                return Err(String::from_str("get headers payload exceeds maximum size"));
            }
        },
        MessageType::Headers => {
            if n == 0 {
                return Err(String::from_str("headers payload cannot be empty"));
            }
            if n > MAX_GET_HEADERS * 128 {
                return Err(String::from_str("headers payload exceeds maximum size"));
            }
        },
        MessageType::GetBlocks => {
            if n == 0 {
                return Err(String::from_str("get blocks payload cannot be empty"));
            }
            if n > MAX_GET_BLOCKS * 32 {
                return Err(String::from_str("get blocks payload exceeds maximum size"));
            }
        },
        MessageType::Blocks => {
            if n == 0 {
                return Err(String::from_str("blocks payload cannot be empty"));
            }
            if n > MAX_GET_BLOCKS * 2048 {
                return Err(String::from_str("blocks payload exceeds maximum size"));
            }
        },
        MessageType::Transaction => {
            if n == 0 {
                return Err(String::from_str("transaction payload cannot be empty"));
            }
        },
        MessageType::Block => {
            if n == 0 {
                return Err(String::from_str("block payload cannot be empty"));
            }
        },
    }
    Ok(())
}

pub fn validate_peer_id(peer_id: &PeerId) -> (r: Result<(), String>)
    ensures
        r is Ok <==> peer_id@ != zero_hash(),
{
    if is_zero_hash(peer_id) {
        return Err(String::from_str("peer id cannot be zero"));
    }
    Ok(())
}

pub fn validate_peer_pair(local: &PeerId, remote: &PeerId) -> (r: Result<(), String>)
    ensures
        r is Ok <==> local@ != zero_hash() && remote@ != zero_hash() && local@ != remote@,
{
    match validate_peer_id(local) {
        Ok(()) => {},
        Err(e) => return Err(e),
    }
    match validate_peer_id(remote) {
        Ok(()) => {},
        Err(e) => return Err(e),
    }
    if hash_eq(local, remote) {
        return Err(String::from_str("local and remote peer ids cannot be identical"));
    }
    Ok(())
}

#[derive(Debug, Clone, PartialEq, Eq)]
pub struct ProtocolMessage {
    pub version: u32,
    pub message_type: MessageType,
    pub payload: Vec<u8>,
}

impl ProtocolMessage {
    /// A current-version message; fails for a payload over the size limit.
    pub fn new(message_type: MessageType, payload: Vec<u8>) -> (r: Result<Self, String>)
        ensures
            r is Ok <==> payload@.len() <= MAX_MESSAGE_SIZE,
            r matches Ok(m) ==> m.version == P2P_PROTOCOL_VERSION && m.message_type == message_type
                && m.payload@ == payload@,
    {
        if payload.len() > MAX_MESSAGE_SIZE {
            return Err(String::from_str("message payload exceeds maximum size"));
        }
        Ok(ProtocolMessage { version: P2P_PROTOCOL_VERSION, message_type, payload })
    }

    pub fn empty(message_type: MessageType) -> (r: Result<Self, String>)
        ensures
            r matches Ok(m) && m.version == P2P_PROTOCOL_VERSION && m.message_type == message_type
                && m.payload@.len() == 0,
    {
        Self::new(message_type, Vec::new())
    }

    pub fn payload_len(&self) -> (r: usize)
        ensures
            r == self.payload@.len(),
    {
        self.payload.len()
    }

    pub fn is_empty(&self) -> (r: bool)
        ensures
            r == (self.payload@.len() == 0),
    {
        self.payload.len() == 0
    }

    pub open spec fn spec_valid(&self) -> bool {
        self.version == P2P_PROTOCOL_VERSION && spec_payload_valid(self.message_type, self.payload@)
    }

    pub fn validate(&self) -> (r: Result<(), String>)
        ensures
            r is Ok <==> self.spec_valid(),
    {
        if self.version != P2P_PROTOCOL_VERSION {
            return Err(String::from_str("unsupported p2p protocol version"));
        }
        if self.payload.len() > MAX_MESSAGE_SIZE {
            return Err(String::from_str("message payload exceeds maximum size"));
        }
        validate_message_payload(self.message_type, self.payload.as_slice())
    }
}

#[derive(Debug, Clone, PartialEq, Eq)]
pub struct ProtocolHeader {
    pub version: u32,
    pub message_type: MessageType,
    pub payload_length: u32,
}

impl ProtocolHeader {
    pub fn new(version: u32, message_type: MessageType, payload_length: usize) -> (r: Result<Self, String>)
        ensures
            r is Ok <==> version == P2P_PROTOCOL_VERSION && payload_length <= MAX_MESSAGE_SIZE,
            r matches Ok(h) ==> h.version == version && h.message_type == message_type && h.payload_length
                == payload_length,
    {
        if version != P2P_PROTOCOL_VERSION {
            return Err(String::from_str("unsupported p2p protocol version"));
        }
        if payload_length > MAX_MESSAGE_SIZE {
            return Err(String::from_str("payload exceeds maximum protocol size"));
        }
        Ok(ProtocolHeader { version, message_type, payload_length: payload_length as u32 })
    }

    pub fn validate(&self) -> (r: Result<(), String>)
        ensures
            r is Ok <==> self.version == P2P_PROTOCOL_VERSION && self.payload_length <= MAX_MESSAGE_SIZE,
    {
        if self.version != P2P_PROTOCOL_VERSION {
            return Err(String::from_str("unsupported p2p protocol version"));
        }
        if self.payload_length as usize > MAX_MESSAGE_SIZE {
            return Err(String::from_str("payload exceeds maximum protocol size"));
        }
        Ok(())
    }
}

#[derive(Debug, Clone, Copy, PartialEq, Eq, Structural)]
pub enum ProtocolState {
    Connected,
    HandshakePending,
    Established,
    Closing,
    Closed,
    Failed,
}

/// Mathematical value of a session.
pub struct SessionModel {
    pub local: Seq<u8>,
    pub remote: Option<Seq<u8>>,
    pub state: ProtocolState,
    pub received: u64,
    pub sent: u64,
}

#[derive(Debug, Clone, PartialEq, Eq)]
pub struct ProtocolSession {
    local_node_id: PeerId,
    remote_node_id: Option<PeerId>,
    state: ProtocolState,
    received_messages: u64,
    sent_messages: u64,
}

impl View for ProtocolSession {
    type V = SessionModel;

    closed spec fn view(&self) -> SessionModel {
        SessionModel {
            local: self.local_node_id@,
            remote: match self.remote_node_id {
                Some(r) => Some(r@),
                None => None,
            },
            state: self.state,
            received: self.received_messages,
            sent: self.sent_messages,
        }
    }
}

/// Session after a successful send or receive count.
pub open spec fn with_counts(s: SessionModel, received: u64, sent: u64) -> SessionModel {
    SessionModel { received, sent, ..s }
}

/// Session with a new state.
pub open spec fn with_state(s: SessionModel, state: ProtocolState) -> SessionModel {
    SessionModel { state, ..s }
}

impl ProtocolSession {
    /// A fresh session in state `Connected`; fails for a zero node id.
    pub fn new(local_node_id: PeerId) -> (r: Result<Self, String>)
        ensures
            r is Ok <==> local_node_id@ != zero_hash(),
            r matches Ok(s) ==> s@ == (SessionModel {
                local: local_node_id@,
                remote: None,
                state: ProtocolState::Connected,
                received: 0,
                sent: 0,
            }),
    {
        if is_zero_hash(&local_node_id) {
            return Err(String::from_str("local node id cannot be zero"));
        }
        Ok(ProtocolSession {
            local_node_id,
            remote_node_id: None,
            state: ProtocolState::Connected,
            received_messages: 0,
            sent_messages: 0,
        })
    }

    pub fn local_node_id(&self) -> (r: PeerId)
        ensures
            r@ == self@.local,
    {
        self.local_node_id
    }

    pub fn remote_node_id(&self) -> (r: Option<PeerId>)
        ensures
            r is Some <==> self@.remote is Some,
            r matches Some(id) ==> self@.remote == Some(id@),
    {
        self.remote_node_id
    }

    pub fn state(&self) -> (r: ProtocolState)
        ensures
            r == self@.state,
    {
        self.state
    }

    pub fn received_messages(&self) -> (r: u64)
        ensures
            r == self@.received,
    {
        self.received_messages
    }

    pub fn sent_messages(&self) -> (r: u64)
        ensures
            r == self@.sent,
    {
        self.sent_messages
    }

    /// Records the remote node and establishes the session. A zero id, or a
    /// closed or failed session, is refused unchanged; the local id itself
    /// fails the session.
    pub fn set_remote_node_id(&mut self, remote_node_id: PeerId) -> (r: Result<(), String>)
        ensures
            r is Ok <==> remote_node_id@ != zero_hash() && remote_node_id@ != old(self)@.local
                && old(self)@.state != ProtocolState::Closed && old(self)@.state != ProtocolState::Failed,
            r is Ok ==> final(self)@ == (SessionModel {
                remote: Some(remote_node_id@),
                state: ProtocolState::Established,
                ..old(self)@
            }),
            r is Err && remote_node_id@ != zero_hash() && remote_node_id@ == old(self)@.local ==> final(self)@
                == with_state(old(self)@, ProtocolState::Failed),
            r is Err && !(remote_node_id@ != zero_hash() && remote_node_id@ == old(self)@.local) ==> final(self)@
                == old(self)@,
    {
        if is_zero_hash(&remote_node_id) {
            return Err(String::from_str("remote node id cannot be zero"));
        }
        if hash_eq(&remote_node_id, &self.local_node_id) {
            self.state = ProtocolState::Failed;
            return Err(String::from_str("self connection is not allowed"));
        }
        if self.state == ProtocolState::Closed {
            return Err(String::from_str("protocol session is closed"));
        }
        if self.state == ProtocolState::Failed {
            return Err(String::from_str("protocol session has failed"));
        }
        self.remote_node_id = Some(remote_node_id);
        self.state = ProtocolState::Established;
        Ok(())
    }

    /// `Connected` moves to `HandshakePending`; any other state is refused.
    pub fn mark_handshake_pending(&mut self) -> (r: Result<(), String>)
        ensures
            r is Ok <==> old(self)@.state == ProtocolState::Connected,
            r is Ok ==> final(self)@ == with_state(old(self)@, ProtocolState::HandshakePending),
            r is Err ==> final(self)@ == old(self)@,
    {
        match self.state {
            ProtocolState::Connected => {
                self.state = ProtocolState::HandshakePending;
                Ok(())
            },
            ProtocolState::HandshakePending => Err(String::from_str("handshake is already pending")),
            ProtocolState::Established => Err(String::from_str("session is already established")),
            ProtocolState::Closing => Err(String::from_str("session is closing")),
            ProtocolState::Closed => Err(String::from_str("session is closed")),
            ProtocolState::Failed => Err(String::from_str("session has failed")),
        }
    }

    /// Counts a valid message sent on an open session.
    pub fn record_sent(&mut self, message: &ProtocolMessage) -> (r: Result<(), String>)
        ensures
            r is Ok <==> old(self)@.state != ProtocolState::Closed && old(self)@.state != ProtocolState::Closing
                && old(self)@.state != ProtocolState::Failed && message.spec_valid() && old(self)@.sent < u64::MAX,
            r is Ok ==> final(self)@ == with_counts(old(self)@, old(self)@.received, (old(self)@.sent + 1) as u64),
            r is Err ==> final(self)@ == old(self)@,
    {
        if self.state == ProtocolState::Closed {
            return Err(String::from_str("cannot send on closed session"));
        }
        if self.state == ProtocolState::Closing {
            return Err(String::from_str("cannot send while session is closing"));
        }
        if self.state == ProtocolState::Failed {
            return Err(String::from_str("cannot send on failed session"));
        }
        match message.validate() {
            Ok(()) => {},
            Err(e) => return Err(e),
        }
        self.sent_messages = match self.sent_messages.checked_add(1) {
            Some(v) => v,
            None => return Err(String::from_str("sent message counter overflow")),
        };
        Ok(())
    }

    /// Counts a valid message received on a session that is neither closed
    /// nor failed.
    pub fn record_received(&mut self, message: &ProtocolMessage) -> (r: Result<(), String>)
        ensures
            r is Ok <==> old(self)@.state != ProtocolState::Closed && old(self)@.state != ProtocolState::Failed
                && message.spec_valid() && old(self)@.received < u64::MAX,
            r is Ok ==> final(self)@ == with_counts(old(self)@, (old(self)@.received + 1) as u64, old(self)@.sent),
            r is Err ==> final(self)@ == old(self)@,
    {
        if self.state == ProtocolState::Closed {
            return Err(String::from_str("cannot receive on closed session"));
        }
        if self.state == ProtocolState::Failed {
            return Err(String::from_str("cannot receive on failed session"));
        }
        match message.validate() {
            Ok(()) => {},
            Err(e) => return Err(e),
        }
        self.received_messages = match self.received_messages.checked_add(1) {
            Some(v) => v,
            None => return Err(String::from_str("received message counter overflow")),
        };
        Ok(())
    }

    /// An open session (connected, pending or established) starts closing.
    pub fn begin_close(&mut self) -> (r: Result<(), String>)
        ensures
            r is Ok <==> (old(self)@.state == ProtocolState::Connected || old(self)@.state
                == ProtocolState::HandshakePending || old(self)@.state == ProtocolState::Established),
            r is Ok ==> final(self)@ == with_state(old(self)@, ProtocolState::Closing),
            r is Err ==> final(self)@ == old(self)@,
    {
        match self.state {
            ProtocolState::Connected | ProtocolState::HandshakePending | ProtocolState::Established => {
                self.state = ProtocolState::Closing;
                Ok(())
            },
            ProtocolState::Closing => Err(String::from_str("session is already closing")),
            ProtocolState::Closed => Err(String::from_str("session is already closed")),
            ProtocolState::Failed => Err(String::from_str("failed session cannot begin normal close")),
        }
    }

    pub fn close(&mut self)
        ensures
            final(self)@ == with_state(old(self)@, ProtocolState::Closed),
    {
        self.state = ProtocolState::Closed;
    }

    pub fn fail(&mut self)
        ensures
            final(self)@ == with_state(old(self)@, ProtocolState::Failed),
    {
        self.state = ProtocolState::Failed;
    }

    pub fn is_established(&self) -> (r: bool)
        ensures
            r == (self@.state == ProtocolState::Established),
    {
        self.state == ProtocolState::Established
    }

    pub fn is_closed(&self) -> (r: bool)
        ensures
            r == (self@.state == ProtocolState::Closed),
    {
        self.state == ProtocolState::Closed
    }

    pub fn is_failed(&self) -> (r: bool)
        ensures
            r == (self@.state == ProtocolState::Failed),
    {
        self.state == ProtocolState::Failed
    }
}

} // verus!
