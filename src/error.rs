use vstd::prelude::*;
use crate::text::TextBuf;

verus! {

/// Failures of the byte-stream transport underneath the protocol.
#[derive(Debug, Clone, PartialEq)]
pub enum TransportError {
    NetworkProtocol(String),
    Timeout,
    InvalidConfig(String),
    ConnectionClosed,
}

/// Every way a protocol operation can fail.
#[derive(Debug, Clone, PartialEq)]
pub enum ProtocolError {
    /// I/O or connection failure of the transport.
    Transport(TransportError),
    /// Handshake or cryptographic failure.
    Security(String),
    /// Bytes that are not the encoding of any message.
    Serialization(String),
    /// Failure of the command reported in-band by the peer.
    CommandExecution(String),
    /// A well-formed message that is not legal at this point of the exchange.
    ProtocolViolation(String),
    /// An operation that exceeded its time budget.
    Timeout(String),
    /// Secure I/O attempted without an established session.
    Authentication(String),
    /// A message that fails validation.
    InvalidMessage(String),
    /// An operation that the connection state forbids.
    InvalidState(String),
}

impl TransportError {
    pub open spec fn spec_text(&self) -> Seq<char> {
        match self {
            TransportError::NetworkProtocol(m) => "Network protocol error: "@ + m@,
            TransportError::Timeout => "Connection timeout"@,
            TransportError::InvalidConfig(m) => "Invalid configuration: "@ + m@,
            TransportError::ConnectionClosed => "Connection closed"@,
        }
    }

    /// A message for a person.
    pub fn to_string(&self) -> (r: String)
        ensures
            r@ == self.spec_text(),
    {
        let mut t = TextBuf::new();
        self.write_to(&mut t);
        t.finish()
    }

    fn write_to(&self, t: &mut TextBuf)
        requires
            old(t).wf(),
        ensures
            final(t).wf(),
            final(t).text() == old(t).text() + self.spec_text(),
    {
        let ghost start = t.text();
        match self {
            TransportError::NetworkProtocol(m) => {
                t.push_str("Network protocol error: ");
                t.push_str(m.as_str());
            },
            TransportError::Timeout => t.push_str("Connection timeout"),
            TransportError::InvalidConfig(m) => {
                t.push_str("Invalid configuration: ");
                t.push_str(m.as_str());
            },
            TransportError::ConnectionClosed => t.push_str("Connection closed"),
        }
        proof {
            assert(t.text() =~= start + self.spec_text());
        }
    }
}

impl ProtocolError {
    pub open spec fn spec_text(&self) -> Seq<char> {
        match self {
            ProtocolError::Transport(e) => "Transport error: "@ + e.spec_text(),
            ProtocolError::Security(m) => "Security error: "@ + m@,
            ProtocolError::Serialization(m) => "Serialization error: "@ + m@,
            ProtocolError::CommandExecution(m) => "Command execution error: "@ + m@,
            ProtocolError::ProtocolViolation(m) => "Protocol violation: "@ + m@,
            ProtocolError::Timeout(m) => "Operation timed out: "@ + m@,
            ProtocolError::Authentication(m) => "Authentication failed: "@ + m@,
            ProtocolError::InvalidMessage(m) => "Invalid message: "@ + m@,
            ProtocolError::InvalidState(m) => "Invalid connection state: "@ + m@,
        }
    }

    /// A message for a person: the kind of failure, then its detail.
    pub fn to_string(&self) -> (r: String)
        ensures
            r@ == self.spec_text(),
    {
        let mut t = TextBuf::new();
        let ghost start = t.text();
        match self {
            ProtocolError::Transport(e) => {
                t.push_str("Transport error: ");
                e.write_to(&mut t);
            },
            ProtocolError::Security(m) => {
                t.push_str("Security error: ");
                t.push_str(m.as_str());
            },
            ProtocolError::Serialization(m) => {
                t.push_str("Serialization error: ");
                t.push_str(m.as_str());
            },
            ProtocolError::CommandExecution(m) => {
                t.push_str("Command execution error: ");
                t.push_str(m.as_str());
            },
            ProtocolError::ProtocolViolation(m) => {
                t.push_str("Protocol violation: ");
                t.push_str(m.as_str());
            },
            ProtocolError::Timeout(m) => {
                t.push_str("Operation timed out: ");
                t.push_str(m.as_str());
            },
            ProtocolError::Authentication(m) => {
                t.push_str("Authentication failed: ");
                t.push_str(m.as_str());
            },
            ProtocolError::InvalidMessage(m) => {
                t.push_str("Invalid message: ");
                t.push_str(m.as_str());
            },
            ProtocolError::InvalidState(m) => {
                t.push_str("Invalid connection state: ");
                t.push_str(m.as_str());
            },
        }
        proof {
            assert(t.text() =~= start + self.spec_text());
        }
        t.finish()
    }

    /// A transport failure seen at the protocol level.
    pub fn from_transport(e: TransportError) -> (r: ProtocolError)
        ensures
            r == ProtocolError::Transport(e),
    {
        ProtocolError::Transport(e)
    }
}

} // verus!
