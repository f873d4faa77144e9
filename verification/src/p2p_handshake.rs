//! The version handshake: what each side announces and the session state
//! machine that checks the remote announcement.
use vstd::prelude::*;
use crate::bytes::{hash_eq, is_zero_hash, zero_hash};
use crate::p2p::PeerId;
use crate::p2p_message::utf8_len;

verus! {

pub const HANDSHAKE_VERSION: u32 = 1;

pub const MAX_USER_AGENT_LENGTH: usize = 128;

#[derive(Debug, PartialEq, Eq)]
pub struct Handshake {
    pub protocol_version: u32,
    pub node_id: PeerId,
    pub user_agent: String,
}

/// Mathematical value of a handshake.
pub struct HandshakeModel {
    pub protocol_version: u32,
    pub node_id: Seq<u8>,
    pub user_agent: Seq<char>,
}

impl View for Handshake {
    type V = HandshakeModel;

    open spec fn view(&self) -> HandshakeModel {
        HandshakeModel {
            protocol_version: self.protocol_version,
            node_id: self.node_id@,
            user_agent: self.user_agent@,
        }
    }
}

impl Clone for Handshake {
    fn clone(&self) -> (r: Self)
        ensures
            r@ == self@,
    {
        Handshake { protocol_version: self.protocol_version, node_id: self.node_id, user_agent: self.user_agent.clone() }
    }
}

/// A user agent of 1 to 128 UTF-8 bytes.
pub open spec fn user_agent_ok(ua: Seq<char>) -> bool {
    0 < utf8_len(ua) <= MAX_USER_AGENT_LENGTH
}

/// The handshake validation rules.
pub open spec fn handshake_valid(h: HandshakeModel) -> bool {
    h.protocol_version == HANDSHAKE_VERSION && h.node_id.len() == 32 && h.node_id != zero_hash() && user_agent_ok(
        h.user_agent,
    )
}

/// Byte length of a user agent.
fn user_agent_len(user_agent: &str) -> (r: usize)
    ensures
        r == utf8_len(user_agent@),
{
    user_agent.as_bytes().len()
}

impl Handshake {
    /// A current-version handshake; fails for an empty user agent or one
    /// over 128 bytes.
    pub fn new(node_id: PeerId, user_agent: &str) -> (r: Result<Self, String>)
        ensures
            r is Ok <==> user_agent_ok(user_agent@),
            r matches Ok(h) ==> h@ == (HandshakeModel {
                protocol_version: HANDSHAKE_VERSION,
                node_id: node_id@,
                user_agent: user_agent@,
            }),
    {
        let len = user_agent_len(user_agent);
        if len == 0 {
            return Err(String::from_str("user agent cannot be empty"));
        }
        if len > MAX_USER_AGENT_LENGTH {
            return Err(String::from_str("user agent is too long"));
        }
        Ok(Handshake { protocol_version: HANDSHAKE_VERSION, node_id, user_agent: user_agent.to_owned() })
    }

    pub fn validate(&self) -> (r: Result<(), String>)
        ensures
            r is Ok <==> handshake_valid(self@),
    {
        if self.protocol_version != HANDSHAKE_VERSION {
            return Err(String::from_str("unsupported handshake protocol version"));
        }
        if is_zero_hash(&self.node_id) {
            return Err(String::from_str("node id cannot be zero"));
        }
        let len = user_agent_len(self.user_agent.as_str());
        if len == 0 {
            return Err(String::from_str("user agent cannot be empty"));
        }
        if len > MAX_USER_AGENT_LENGTH {
            return Err(String::from_str("user agent is too long"));
        }
        Ok(())
    }

    pub fn is_compatible(&self, local_version: u32) -> (r: bool)
        ensures
            r == (self.protocol_version == local_version),
    {
        self.protocol_version == local_version
    }
}

#[derive(Debug, Clone, Copy, PartialEq, Eq, Structural)]
pub enum HandshakeState {
    NotStarted,
    Sent,
    Received,
    Established,
    Failed,
}

/// Mathematical value of a handshake session.
pub struct HandshakeSessionModel {
    pub local: HandshakeModel,
    pub remote: Option<HandshakeModel>,
    pub state: HandshakeState,
}

#[derive(Debug, Clone, PartialEq, Eq)]
pub struct HandshakeSession {
    local: Handshake,
    remote: Option<Handshake>,
    state: HandshakeState,
}

impl View for HandshakeSession {
    type V = HandshakeSessionModel;

    closed spec fn view(&self) -> HandshakeSessionModel {
        HandshakeSessionModel {
            local: self.local@,
            remote: match self.remote {
                Some(h) => Some(h@),
                None => None,
            },
            state: self.state,
        }
    }
}

/// The session after receiving `remote`: `None` when it is refused and the
/// session is left as it was; otherwise the new session, failed when the
/// remote is incompatible, invalid or the local node itself.
pub open spec fn spec_receive(s: HandshakeSessionModel, remote: HandshakeModel) -> (HandshakeSessionModel, bool) {
    if s.state == HandshakeState::Failed || s.state == HandshakeState::Established {
        (s, false)
    } else if remote.protocol_version != s.local.protocol_version || !handshake_valid(remote) || remote.node_id
        == s.local.node_id {
        (HandshakeSessionModel { remote: None, state: HandshakeState::Failed, ..s }, false)
    } else if s.state == HandshakeState::Received {
        (s, false)
    } else if s.state == HandshakeState::Sent {
        (HandshakeSessionModel { remote: Some(remote), state: HandshakeState::Established, ..s }, true)
    } else {
        (HandshakeSessionModel { remote: Some(remote), state: HandshakeState::Received, ..s }, true)
    }
}

impl HandshakeSession {
    /// A session for a valid local handshake, not yet started.
    pub fn new(local: Handshake) -> (r: Result<Self, String>)
        ensures
            r is Ok <==> handshake_valid(local@),
            r matches Ok(s) ==> s@ == (HandshakeSessionModel {
                local: local@,
                remote: None,
                state: HandshakeState::NotStarted,
            }),
    {
        match local.validate() {
            Ok(()) => {},
            Err(e) => return Err(e),
        }
        Ok(HandshakeSession { local, remote: None, state: HandshakeState::NotStarted })
    }

    pub fn local(&self) -> (r: &Handshake)
        ensures
            r@ == self@.local,
    {
        &self.local
    }

    pub fn remote(&self) -> (r: Option<&Handshake>)
        ensures
            r is Some <==> self@.remote is Some,
            r matches Some(h) ==> self@.remote == Some(h@),
    {
        match &self.remote {
            Some(h) => Some(h),
            None => None,
        }
    }

    pub fn state(&self) -> (r: &HandshakeState)
        ensures
            *r == self@.state,
    {
        &self.state
    }

    /// `NotStarted` moves to `Sent`; any other state is refused.
    pub fn mark_sent(&mut self) -> (r: Result<(), String>)
        ensures
            r is Ok <==> old(self)@.state == HandshakeState::NotStarted,
            r is Ok ==> final(self)@ == (HandshakeSessionModel { state: HandshakeState::Sent, ..old(self)@ }),
            r is Err ==> final(self)@ == old(self)@,
    {
        match self.state {
            HandshakeState::NotStarted => {
                self.state = HandshakeState::Sent;
                Ok(())
            },
            HandshakeState::Sent => Err(String::from_str("handshake has already been sent")),
            HandshakeState::Received => Err(String::from_str("cannot mark sent after receiving handshake")),
            HandshakeState::Established => Err(String::from_str("handshake is already established")),
            HandshakeState::Failed => Err(String::from_str("handshake session has failed")),
        }
    }

    /// Checks and records the remote handshake.
    pub fn receive(&mut self, remote: Handshake) -> (r: Result<(), String>)
        ensures
            r is Ok <==> spec_receive(old(self)@, remote@).1,
            final(self)@ == spec_receive(old(self)@, remote@).0,
    {
        if self.state == HandshakeState::Failed {
            return Err(String::from_str("handshake session has failed"));
        }
        if self.state == HandshakeState::Established {
            return Err(String::from_str("handshake is already established"));
        }
        if remote.protocol_version != self.local.protocol_version {
            self.state = HandshakeState::Failed;
            self.remote = None;
            return Err(String::from_str("incompatible handshake protocol version"));
        }
        match remote.validate() {
            Ok(()) => {},
            Err(error) => {
                self.state = HandshakeState::Failed;
                self.remote = None;
                return Err(error);
            },
        }
        if hash_eq(&remote.node_id, &self.local.node_id) {
            self.state = HandshakeState::Failed;
            self.remote = None;
            return Err(String::from_str("self connection is not allowed"));
        }
        if self.state == HandshakeState::Received {
            return Err(String::from_str("duplicate handshake received"));
        }
        let next = if self.state == HandshakeState::Sent {
            HandshakeState::Established
        } else {
            HandshakeState::Received
        };
        self.remote = Some(remote);
        self.state = next;
        Ok(())
    }

    pub fn is_established(&self) -> (r: bool)
        ensures
            r == (self@.state == HandshakeState::Established),
    {
        self.state == HandshakeState::Established
    }
}

/// A failed session stays failed: every further step is refused and leaves
/// it unchanged.
pub proof fn lemma_failed_is_final(s: HandshakeSessionModel, remote: HandshakeModel)
    requires
        s.state == HandshakeState::Failed,
    ensures
        spec_receive(s, remote) == (s, false),
{
}

/// A session only becomes established with a compatible, valid remote
/// handshake from another node, recorded as the remote.
pub proof fn lemma_established_remote(s: HandshakeSessionModel, remote: HandshakeModel)
    requires
        spec_receive(s, remote).0.state == HandshakeState::Established,
        s.state != HandshakeState::Established,
    ensures
        spec_receive(s, remote).1,
        spec_receive(s, remote).0.remote == Some(remote),
        handshake_valid(remote),
        remote.protocol_version == s.local.protocol_version,
        remote.node_id != s.local.node_id,
        s.state == HandshakeState::Sent,
{
}

} // verus!
