//! The identity a node runs its peer sessions under, and the protocol session
//! it opens once a handshake has named the remote node.
use vstd::prelude::*;
use crate::bytes::{is_zero_hash, zero_hash};
use crate::p2p::PeerId;
use crate::p2p_handshake::{
    handshake_valid, user_agent_ok, Handshake, HandshakeModel, HANDSHAKE_VERSION, MAX_USER_AGENT_LENGTH,
};
use crate::p2p_protocol::{ProtocolSession, ProtocolState, SessionModel};

verus! {

/// Local node id and user agent of a running node.
#[derive(Debug)]
pub struct RuntimeConfig {
    local_node_id: PeerId,
    user_agent: String,
}

impl RuntimeConfig {
    #[verifier::type_invariant]
    spec fn inv(self) -> bool {
        self.local_node_id@ != zero_hash() && user_agent_ok(self.user_agent@)
    }

    pub closed spec fn spec_local(&self) -> Seq<u8> {
        self.local_node_id@
    }

    pub closed spec fn spec_user_agent(&self) -> Seq<char> {
        self.user_agent@
    }

    /// Fails for a zero node id, an empty user agent, or one over 128 bytes.
    pub fn new(local_node_id: PeerId, user_agent: &str) -> (r: Result<Self, String>)
        ensures
            r is Ok <==> local_node_id@ != zero_hash() && user_agent_ok(user_agent@),
            r matches Ok(c) ==> c.spec_local() == local_node_id@ && c.spec_user_agent() == user_agent@,
    {
        if is_zero_hash(&local_node_id) {
            return Err(String::from_str("local node id cannot be zero"));
        }
        let len = user_agent.as_bytes().len();
        if len == 0 {
            return Err(String::from_str("user agent cannot be empty"));
        }
        if len > MAX_USER_AGENT_LENGTH {
            return Err(String::from_str("user agent is too long"));
        }
        Ok(RuntimeConfig { local_node_id, user_agent: user_agent.to_owned() })
    }

    pub fn local_node_id(&self) -> (r: PeerId)
        ensures
            r@ == self.spec_local(),
    {
        self.local_node_id
    }

    pub fn user_agent(&self) -> (r: &str)
        ensures
            r@ == self.spec_user_agent(),
    {
        self.user_agent.as_str()
    }

    /// The handshake this node announces; it always passes validation.
    pub fn local_handshake(&self) -> (r: Handshake)
        ensures
            r@ == (HandshakeModel {
                protocol_version: HANDSHAKE_VERSION,
                node_id: self.spec_local(),
                user_agent: self.spec_user_agent(),
            }),
            handshake_valid(r@),
    {
        proof {
            use_type_invariant(self);
        }
        Handshake {
            protocol_version: HANDSHAKE_VERSION,
            node_id: self.local_node_id,
            user_agent: self.user_agent.clone(),
        }
    }

    /// The established session with the node a handshake announced; a zero
    /// remote id or this node's own id is refused.
    pub fn open_session(&self, remote: &Handshake) -> (r: Result<ProtocolSession, String>)
        ensures
            r is Ok <==> remote.node_id@ != zero_hash() && remote.node_id@ != self.spec_local(),
            r matches Ok(s) ==> s@ == (SessionModel {
                local: self.spec_local(),
                remote: Some(remote.node_id@),
                state: ProtocolState::Established,
                received: 0,
                sent: 0,
            }),
    {
        proof {
            use_type_invariant(self);
        }
        let mut session = match ProtocolSession::new(self.local_node_id) {
            Ok(s) => s,
            Err(e) => return Err(e),
        };
        match session.set_remote_node_id(remote.node_id) {
            Ok(()) => Ok(session),
            Err(e) => Err(e),
        }
    }
}

/// Messages go out and come in only on an established session.
pub fn require_established(session: &ProtocolSession) -> (r: Result<(), String>)
    ensures
        r is Ok <==> session@.state == ProtocolState::Established,
{
    if session.is_established() {
        Ok(())
    } else {
        Err(String::from_str("protocol session is not established"))
    }
}

} // verus!
