use vstd::prelude::*;
use crate::codec::{lemma_wire_injective, wire};
use crate::error::{ProtocolError, TransportError};
use crate::message::{AppMessage, CommandResponse, MessageView, valid_message};
use crate::security::{SecureFrame, SecurityManager, SessionView, fresh};
use crate::state::ConnectionState;

verus! {

/// The frame carries the nonce that the session expects next, and the
/// counter can still advance past it.
pub open spec fn nonce_in_order(s: SessionView, nonce: u64) -> bool {
    nonce == s.recv_nonce && nonce < u64::MAX
}

/// The session after one more frame has been accepted.
pub open spec fn after_recv(s: SessionView) -> SessionView {
    SessionView { recv_nonce: (s.recv_nonce + 1) as u64, ..s }
}

/// Drives one connection: gates every operation on the connection state,
/// and keeps that state and the security session in step.
///
/// The transport stays with the caller: operations that send return the
/// frame to write, operations that receive take the frame that was read.
/// An operation that is refused returns no frame, so it causes no I/O.
pub struct ProtocolHandler {
    security: SecurityManager,
    state: ConnectionState,
}

impl ProtocolHandler {
    pub closed spec fn state_spec(&self) -> ConnectionState {
        self.state
    }

    pub closed spec fn session(&self) -> SessionView {
        self.security@
    }

    /// A handler for a new connection attempt: Disconnected, empty session.
    pub fn new() -> (r: Self)
        ensures
            r.state_spec() is Disconnected,
            fresh(r.session()),
    {
        ProtocolHandler { security: SecurityManager::new(), state: ConnectionState::Disconnected }
    }

    pub fn state(&self) -> (r: &ConnectionState)
        ensures
            *r == self.state_spec(),
    {
        &self.state
    }

    /// Records a transition that the transport observed (connected, closed).
    pub fn set_state(&mut self, state: ConnectionState)
        ensures
            final(self).state_spec() == state,
            final(self).session() == old(self).session(),
    {
        self.state = state;
    }

    /// Ready for secure exchange: the state is Authenticated and the session
    /// is secure.
    pub fn is_authenticated(&self) -> (r: bool)
        ensures
            r == ((self.state_spec() is Authenticated) && self.session().secure),
    {
        self.state.can_send_secure() && self.security.is_secure()
    }

    /// Back to Disconnected with an empty session, ready for a new connection.
    pub fn reset(&mut self)
        ensures
            final(self).state_spec() is Disconnected,
            fresh(final(self).session()),
    {
        self.security.reset();
        self.state = ConnectionState::Disconnected;
    }

    /// Starts a handshake: allowed only from Connected, or from Handshaking to
    /// retry. The session is emptied and the state becomes Handshaking.
    pub fn begin_handshake(&mut self) -> (r: Result<(), ProtocolError>)
        ensures
            r is Ok <==> old(self).state_spec().spec_can_handshake(),
            r is Ok ==> (final(self).state_spec() is Handshaking) && fresh(final(self).session()),
            r is Err ==> (r->Err_0 is InvalidState) && final(self).state_spec() == old(self).state_spec() && final(self).session() == old(self).session(),
    {
        if !self.state.can_handshake() {
            return Err(ProtocolError::InvalidState("Cannot perform handshake in this state".to_string()));
        }
        self.security.reset();
        self.state = ConnectionState::Handshaking;
        Ok(())
    }

    /// Concludes a handshake that `begin_handshake` started, with the nonce
    /// verification that was expected and the one the peer sent. On a match
    /// the state becomes Authenticated and the session secure, together; on
    /// a mismatch the state becomes Error and the session stays empty.
    pub fn complete_handshake(&mut self, expected: &[u8], received: &[u8]) -> (r: Result<
        (),
        ProtocolError,
    >)
        ensures
            !(old(self).state_spec() is Handshaking) ==> (r is Err) && (r->Err_0 is InvalidState)
                && final(self).state_spec() == old(self).state_spec() && final(self).session()
                == old(self).session(),
            old(self).state_spec() is Handshaking ==> {
                &&& r is Ok <==> expected@ == received@
                &&& r is Ok ==> (final(self).state_spec() is Authenticated) && final(self).session() == (SessionView { secure: true, send_nonce: 0, recv_nonce: 0 })
                &&& r is Err ==> (r->Err_0 is Security) && final(self).state_spec()
                    == ConnectionState::Error(final(self).state_spec()->Error_0) && final(
                    self).state_spec()->Error_0@ == "Handshake failed"@ && fresh(
                    final(self).session(),
                )
            },
    {
        if !matches!(self.state, ConnectionState::Handshaking) {
            return Err(ProtocolError::InvalidState("No handshake in progress".to_string()));
        }
        match self.security.verify_handshake(expected, received) {
            Ok(()) => {
                self.state = ConnectionState::Authenticated;
                Ok(())
            },
            Err(e) => {
                self.state = ConnectionState::Error("Handshake failed".to_string());
                Err(e)
            },
        }
    }

    /// Abandons a handshake in progress because the exchange itself failed
    /// (transport error, timeout, malformed handshake message): the state
    /// becomes Error, the session is emptied, and the error is handed back.
    pub fn abort_handshake(&mut self, error: ProtocolError) -> (r: Result<(), ProtocolError>)
        ensures
            r == Err::<(), ProtocolError>(error),
            old(self).state_spec() is Handshaking ==> final(self).state_spec()
                == ConnectionState::Error(final(self).state_spec()->Error_0) && final(
                self).state_spec()->Error_0@ == "Handshake failed"@ && fresh(
                final(self).session(),
            ),
            !(old(self).state_spec() is Handshaking) ==> final(self).state_spec() == old(self).state_spec() && final(self).session() == old(self).session(),
    {
        if matches!(self.state, ConnectionState::Handshaking) {
            self.security.reset();
            self.state = ConnectionState::Error("Handshake failed".to_string());
        }
        Err(error)
    }

    /// Records a failure of the transport under this connection: a partial
    /// read or write cannot be resumed, so the state becomes Error, the
    /// session is emptied, and the failure comes back as a protocol error.
    pub fn transport_failed(&mut self, e: TransportError) -> (r: ProtocolError)
        ensures
            r == ProtocolError::Transport(e),
            final(self).state_spec() == ConnectionState::Error(final(self).state_spec()->Error_0),
            final(self).state_spec()->Error_0@ == "Transport failure"@,
            fresh(final(self).session()),
    {
        self.security.reset();
        self.state = ConnectionState::Error("Transport failure".to_string());
        ProtocolError::Transport(e)
    }

    /// Validates a message and frames it for sending. Refused with
    /// InvalidState unless Authenticated, and with InvalidMessage when
    /// validation fails; neither advances the session. A session failure
    /// moves the state to Error.
    pub fn send_message(&mut self, message: &AppMessage) -> (r: Result<SecureFrame, ProtocolError>)
        ensures
            !old(self).state_spec().spec_can_send_secure() ==> (r is Err) && (r->Err_0 is InvalidState)
                && final(self).state_spec() == old(self).state_spec() && final(self).session()
                == old(self).session(),
            old(self).state_spec().spec_can_send_secure() && !valid_message(message@) ==> (r is Err)
                && (r->Err_0 is InvalidMessage) && final(self).state_spec() == old(self).state_spec()
                && final(self).session() == old(self).session(),
            old(self).state_spec().spec_can_send_secure() && valid_message(message@) ==> {
                &&& r is Ok <==> old(self).session().secure && old(self).session().send_nonce
                    < u64::MAX
                &&& r matches Ok(f) ==> f.nonce == old(self).session().send_nonce && f.payload@
                    == wire(message@) && final(self).state_spec() == old(self).state_spec()
                    && final(self).session() == (SessionView {
                    send_nonce: (old(self).session().send_nonce + 1) as u64,
                    ..old(self).session()
                })
                &&& r is Err ==> final(self).state_spec() is Error
            },
    {
        if !self.state.can_send_secure() {
            return Err(ProtocolError::InvalidState("Cannot send secure message in this state".to_string()));
        }
        match message.validate() {
            Ok(()) => {},
            Err(reason) => {
                return Err(ProtocolError::InvalidMessage(reason));
            },
        }
        match self.security.send_secure_message(message) {
            Ok(frame) => Ok(frame),
            Err(e) => {
                self.state = ConnectionState::Error("Secure send failed".to_string());
                Err(e)
            },
        }
    }

    /// Frames a `Command` carrying `command` for sending; see `send_message`.
    pub fn send_command(&mut self, command: &str) -> (r: Result<SecureFrame, ProtocolError>)
        ensures
            !old(self).state_spec().spec_can_send_secure() ==> (r is Err) && (r->Err_0 is InvalidState)
                && final(self).state_spec() == old(self).state_spec() && final(self).session()
                == old(self).session(),
            old(self).state_spec().spec_can_send_secure() && !valid_message(
                MessageView::Command { command: command@ },
            ) ==> (r is Err) && (r->Err_0 is InvalidMessage) && final(self).state_spec() == old(self).state_spec() && final(self).session() == old(self).session(),
            old(self).state_spec().spec_can_send_secure() && valid_message(
                MessageView::Command { command: command@ },
            ) ==> {
                &&& r is Ok <==> old(self).session().secure && old(self).session().send_nonce
                    < u64::MAX
                &&& r matches Ok(f) ==> f.nonce == old(self).session().send_nonce && f.payload@
                    == wire(MessageView::Command { command: command@ }) && final(self).state_spec()
                    == old(self).state_spec() && final(self).session() == (SessionView {
                    send_nonce: (old(self).session().send_nonce + 1) as u64,
                    ..old(self).session()
                })
                &&& r is Err ==> final(self).state_spec() is Error
            },
    {
        let message = AppMessage::Command { command: command.to_string() };
        self.send_message(&message)
    }

    /// Accepts the next incoming frame and decodes its message. Refused with
    /// InvalidState unless Authenticated. Any session failure (wrong nonce,
    /// undecodable payload) moves the state to Error.
    pub fn recv_message(&mut self, frame: &SecureFrame) -> (r: Result<AppMessage, ProtocolError>)
        ensures
            !old(self).state_spec().spec_can_send_secure() ==> (r is Err) && (r->Err_0 is InvalidState)
                && final(self).state_spec() == old(self).state_spec() && final(self).session()
                == old(self).session(),
            old(self).state_spec().spec_can_send_secure() && !old(self).session().secure ==> (r is Err)
                && (r->Err_0 is Authentication) && (final(self).state_spec() is Error)
                && final(self).session() == old(self).session(),
            old(self).state_spec().spec_can_send_secure() && old(self).session().secure
                && !nonce_in_order(old(self).session(), frame.nonce) ==> (r is Err)
                && (r->Err_0 is Security) && (final(self).state_spec() is Error) && fresh(
                final(self).session(),
            ),
            old(self).state_spec().spec_can_send_secure() && old(self).session().secure
                && nonce_in_order(old(self).session(), frame.nonce) ==> match r {
                Ok(m) => wire(m@) == frame.payload@ && final(self).state_spec() == old(self).state_spec()
                    && final(self).session() == after_recv(old(self).session()),
                Err(e) => (forall|v: MessageView| wire(v) != frame.payload@) && (e is Serialization)
                    && (final(self).state_spec() is Error) && final(self).session() == old(self).session(),
            },
    {
        if !self.state.can_send_secure() {
            return Err(ProtocolError::InvalidState("Cannot receive secure message in this state".to_string()));
        }
        match self.security.recv_secure_message(frame) {
            Ok(m) => Ok(m),
            Err(e) => {
                self.state = ConnectionState::Error("Secure receive failed".to_string());
                Err(e)
            },
        }
    }

    /// Receives the peer's answer to a command: a `Response` becomes the
    /// matching `CommandResponse`, an `Error` becomes a failed one carrying
    /// its text, and a `Command` is a protocol violation.
    pub fn recv_response(&mut self, frame: &SecureFrame) -> (r: Result<CommandResponse, ProtocolError>)
        ensures
            !old(self).state_spec().spec_can_send_secure() ==> (r is Err) && (r->Err_0 is InvalidState)
                && final(self).state_spec() == old(self).state_spec() && final(self).session()
                == old(self).session(),
            old(self).state_spec().spec_can_send_secure() && !old(self).session().secure ==> (r is Err)
                && (r->Err_0 is Authentication) && (final(self).state_spec() is Error)
                && final(self).session() == old(self).session(),
            old(self).state_spec().spec_can_send_secure() && old(self).session().secure
                && !nonce_in_order(old(self).session(), frame.nonce) ==> (r is Err)
                && (r->Err_0 is Security) && (final(self).state_spec() is Error) && fresh(
                final(self).session(),
            ),
            old(self).state_spec().spec_can_send_secure() && old(self).session().secure
                && nonce_in_order(old(self).session(), frame.nonce) ==> {
                &&& (forall|v: MessageView| wire(v) != frame.payload@) ==> (r is Err)
                    && (r->Err_0 is Serialization) && (final(self).state_spec() is Error)
                    && final(self).session() == old(self).session()
                &&& forall|success: bool, o: Seq<char>, e: Seq<char>, c: Option<i32>|
                    wire(MessageView::Response { success, stdout: o, stderr: e, exit_code: c })
                        == frame.payload@ ==> (r matches Ok(resp) && resp.success == success
                        && resp.stdout@ == o && resp.stderr@ == e && resp.exit_code == c)
                &&& forall|t: Seq<char>|
                    wire(MessageView::Error { message: t }) == frame.payload@ ==> (r matches Ok(
                        resp,
                    ) && !resp.success && resp.stdout@ == Seq::<char>::empty() && resp.stderr@ == t
                        && resp.exit_code is None)
                &&& forall|t: Seq<char>|
                    wire(MessageView::Command { command: t }) == frame.payload@ ==> ((r is Err)
                        && r->Err_0 is ProtocolViolation)
                &&& (exists|v: MessageView| wire(v) == frame.payload@) ==> final(self).state_spec()
                    == old(self).state_spec() && final(self).session() == after_recv(
                    old(self).session(),
                )
            },
    {
        let message = match self.recv_message(frame) {
            Ok(m) => m,
            Err(e) => return Err(e),
        };
        proof {
            assert forall|v: MessageView| wire(v) == frame.payload@ implies message@ == v by {
                lemma_wire_injective(message@, v);
            }
        }
        match message {
            AppMessage::Response { success, stdout, stderr, exit_code } => Ok(
                CommandResponse { success, stdout, stderr, exit_code },
            ),
            AppMessage::Error { message } => Ok(CommandResponse::error(message)),
            AppMessage::Command { .. } => Err(
                ProtocolError::ProtocolViolation("Expected response or error message".to_string()),
            ),
        }
    }

    /// Liveness check, after a ping went out: `pong_received` says whether
    /// the pong came back within the I/O timeout. Without it the state
    /// becomes Error("heartbeat timeout") and the call fails with Timeout.
    /// Refused with InvalidState unless Authenticated.
    pub fn handle_heartbeat(&mut self, pong_received: bool) -> (r: Result<(), ProtocolError>)
        ensures
            final(self).session() == old(self).session(),
            !old(self).state_spec().spec_can_send_secure() ==> (r is Err) && (r->Err_0 is InvalidState)
                && final(self).state_spec() == old(self).state_spec(),
            old(self).state_spec().spec_can_send_secure() && pong_received ==> (r is Ok) && final(self).state_spec() == old(self).state_spec(),
            old(self).state_spec().spec_can_send_secure() && !pong_received ==> (r is Err)
                && (r->Err_0 is Timeout) && final(self).state_spec() == ConnectionState::Error(
                final(self).state_spec()->Error_0,
            ) && final(self).state_spec()->Error_0@ == "heartbeat timeout"@,
    {
        if !self.state.can_send_secure() {
            return Err(ProtocolError::InvalidState("No secure session for heartbeat".to_string()));
        }
        if pong_received {
            return Ok(());
        }
        self.state = ConnectionState::Error("heartbeat timeout".to_string());
        Err(ProtocolError::Timeout("heartbeat timeout".to_string()))
    }
}

impl Default for ProtocolHandler {
    fn default() -> (r: Self)
        ensures
            r.state_spec() is Disconnected,
            fresh(r.session()),
    {
        ProtocolHandler::new()
    }
}

} // verus!
