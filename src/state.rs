use vstd::prelude::*;
use crate::text::TextBuf;

verus! {

/// Where one logical connection stands in its lifecycle.
#[derive(Debug, Clone, PartialEq)]
pub enum ConnectionState {
    Disconnected,
    Connected,
    Handshaking,
    Authenticated,
    Error(String),
}

impl ConnectionState {
    pub open spec fn spec_can_send_secure(&self) -> bool {
        self is Authenticated
    }

    pub open spec fn spec_can_handshake(&self) -> bool {
        self is Connected || self is Handshaking
    }

    pub open spec fn spec_is_error(&self) -> bool {
        self is Error
    }

    /// Secure message exchange is legal only once authenticated.
    pub fn can_send_secure(&self) -> (r: bool)
        ensures
            r == self.spec_can_send_secure(),
    {
        matches!(self, ConnectionState::Authenticated)
    }

    /// A handshake may start (or be retried) only from Connected or Handshaking.
    pub fn can_handshake(&self) -> (r: bool)
        ensures
            r == self.spec_can_handshake(),
    {
        match self {
            ConnectionState::Connected => true,
            ConnectionState::Handshaking => true,
            _ => false,
        }
    }

    /// The state's name; an Error state adds its reason.
    pub open spec fn spec_text(&self) -> Seq<char> {
        match self {
            ConnectionState::Disconnected => "Disconnected"@,
            ConnectionState::Connected => "Connected"@,
            ConnectionState::Handshaking => "Handshaking"@,
            ConnectionState::Authenticated => "Authenticated"@,
            ConnectionState::Error(reason) => "Error: "@ + reason@,
        }
    }

    pub fn to_string(&self) -> (r: String)
        ensures
            r@ == self.spec_text(),
    {
        let mut t = TextBuf::new();
        match self {
            ConnectionState::Disconnected => t.push_str("Disconnected"),
            ConnectionState::Connected => t.push_str("Connected"),
            ConnectionState::Handshaking => t.push_str("Handshaking"),
            ConnectionState::Authenticated => t.push_str("Authenticated"),
            ConnectionState::Error(reason) => {
                t.push_str("Error: ");
                t.push_str(reason.as_str());
            },
        }
        proof {
            assert(t.text() =~= self.spec_text());
        }
        t.finish()
    }

    /// Whether the connection attempt has failed.
    pub fn is_error(&self) -> (r: bool)
        ensures
            r == self.spec_is_error(),
    {
        matches!(self, ConnectionState::Error(_))
    }
}

/// A connection in Error allows neither a handshake nor secure exchange;
/// only an explicit reset leaves that state.
pub proof fn lemma_error_blocks_operations(s: ConnectionState)
    requires
        s.spec_is_error(),
    ensures
        !s.spec_can_handshake(),
        !s.spec_can_send_secure(),
{
}

} // verus!
