use vstd::prelude::*;
use crate::codec::wire;
use crate::error::ProtocolError;
use crate::message::{AppMessage, MessageView};

verus! {

/// One application message as it goes to, or comes from, the transport:
/// the payload bytes and its per-direction sequence number. The session
/// issues each number once and accepts them only in order; encrypting the
/// payload under that number is left to whatever carries the frame.
#[derive(Debug, Clone, PartialEq)]
pub struct SecureFrame {
    pub nonce: u64,
    pub payload: Vec<u8>,
}

/// A nonce as eight big-endian bytes.
pub open spec fn be64(n: u64) -> Seq<u8> {
    seq![
        (n >> 56u64) as u8,
        (n >> 48u64) as u8,
        (n >> 40u64) as u8,
        (n >> 32u64) as u8,
        (n >> 24u64) as u8,
        (n >> 16u64) as u8,
        (n >> 8u64) as u8,
        n as u8,
    ]
}

/// A frame as one transport packet: the nonce, then the payload.
pub open spec fn packet_of(nonce: u64, payload: Seq<u8>) -> Seq<u8> {
    be64(nonce) + payload
}

proof fn lemma_be64(b0: u8, b1: u8, b2: u8, b3: u8, b4: u8, b5: u8, b6: u8, b7: u8, n: u64)
    requires
        n == (b0 as u64) << 56u64 | (b1 as u64) << 48u64 | (b2 as u64) << 40u64 | (b3 as u64)
            << 32u64 | (b4 as u64) << 24u64 | (b5 as u64) << 16u64 | (b6 as u64) << 8u64
            | (b7 as u64),
    ensures
        (n >> 56u64) as u8 == b0,
        (n >> 48u64) as u8 == b1,
        (n >> 40u64) as u8 == b2,
        (n >> 32u64) as u8 == b3,
        (n >> 24u64) as u8 == b4,
        (n >> 16u64) as u8 == b5,
        (n >> 8u64) as u8 == b6,
        n as u8 == b7,
{
    assert((n >> 56u64) as u8 == b0 && (n >> 48u64) as u8 == b1 && (n >> 40u64) as u8 == b2 && (n
        >> 32u64) as u8 == b3 && (n >> 24u64) as u8 == b4 && (n >> 16u64) as u8 == b5 && (n
        >> 8u64) as u8 == b6 && n as u8 == b7) by (bit_vector)
        requires
            n == (b0 as u64) << 56u64 | (b1 as u64) << 48u64 | (b2 as u64) << 40u64 | (b3 as u64)
                << 32u64 | (b4 as u64) << 24u64 | (b5 as u64) << 16u64 | (b6 as u64) << 8u64
                | (b7 as u64),
    ;
}

pub(crate) proof fn lemma_be64_injective(n: u64, v: u64)
    requires
        be64(n) == be64(v),
    ensures
        n == v,
{
    assert(be64(n)[0] == be64(v)[0] && be64(n)[1] == be64(v)[1] && be64(n)[2] == be64(v)[2]
        && be64(n)[3] == be64(v)[3] && be64(n)[4] == be64(v)[4] && be64(n)[5] == be64(v)[5]
        && be64(n)[6] == be64(v)[6] && be64(n)[7] == be64(v)[7]);
    assert(n == v) by (bit_vector)
        requires
            (n >> 56u64) as u8 == (v >> 56u64) as u8,
            (n >> 48u64) as u8 == (v >> 48u64) as u8,
            (n >> 40u64) as u8 == (v >> 40u64) as u8,
            (n >> 32u64) as u8 == (v >> 32u64) as u8,
            (n >> 24u64) as u8 == (v >> 24u64) as u8,
            (n >> 16u64) as u8 == (v >> 16u64) as u8,
            (n >> 8u64) as u8 == (v >> 8u64) as u8,
            n as u8 == v as u8,
    ;
}

pub(crate) fn be64_bytes(n: u64) -> (r: Vec<u8>)
    ensures
        r@ == be64(n),
{
    let r: Vec<u8> = vec![
        (n >> 56u64) as u8,
        (n >> 48u64) as u8,
        (n >> 40u64) as u8,
        (n >> 32u64) as u8,
        (n >> 24u64) as u8,
        (n >> 16u64) as u8,
        (n >> 8u64) as u8,
        n as u8,
    ];
    proof {
        assert(r@ =~= be64(n));
    }
    r
}

/// Reads eight big-endian bytes at `p`, if there are eight.
pub(crate) fn read_be64(b: &[u8], p: usize) -> (r: Option<u64>)
    ensures
        r is Some <==> p + 8 <= b@.len(),
        r matches Some(n) ==> be64(n) == b@.subrange(p as int, p + 8),
{
    if p > b.len() || b.len() - p < 8 {
        return None;
    }
    let n: u64 = (b[p] as u64) << 56u64 | (b[p + 1] as u64) << 48u64 | (b[p + 2] as u64) << 40u64
        | (b[p + 3] as u64) << 32u64 | (b[p + 4] as u64) << 24u64 | (b[p + 5] as u64) << 16u64
        | (b[p + 6] as u64) << 8u64 | (b[p + 7] as u64);
    proof {
        lemma_be64(
            b@[p as int],
            b@[p + 1],
            b@[p + 2],
            b@[p + 3],
            b@[p + 4],
            b@[p + 5],
            b@[p + 6],
            b@[p + 7],
            n,
        );
        assert(be64(n) =~= b@.subrange(p as int, p + 8));
    }
    Some(n)
}

impl SecureFrame {
    /// The frame as one packet for the transport.
    pub fn to_packet(&self) -> (r: Vec<u8>)
        ensures
            r@ == packet_of(self.nonce, self.payload@),
    {
        let mut r = be64_bytes(self.nonce);
        let mut i: usize = 0;
        while i < self.payload.len()
            invariant
                i <= self.payload@.len(),
                r@ == be64(self.nonce) + self.payload@.take(i as int),
            decreases self.payload@.len() - i,
        {
            proof {
                assert(self.payload@.take(i + 1) =~= self.payload@.take(i as int).push(
                    self.payload@[i as int],
                ));
            }
            r.push(self.payload[i]);
            i = i + 1;
        }
        proof {
            assert(self.payload@.take(i as int) =~= self.payload@);
        }
        r
    }

    /// Reads a frame back from a packet: a packet shorter than a nonce is a
    /// protocol violation; any longer one is a frame.
    pub fn from_packet(packet: &[u8]) -> (r: Result<SecureFrame, ProtocolError>)
        ensures
            r is Ok <==> packet@.len() >= 8,
            r matches Ok(f) ==> packet_of(f.nonce, f.payload@) == packet@,
            r matches Err(e) ==> e is ProtocolViolation,
    {
        let nonce = match read_be64(packet, 0) {
            Some(n) => n,
            None => return Err(ProtocolError::ProtocolViolation("packet shorter than a frame header".to_string())),
        };
        let mut payload: Vec<u8> = Vec::new();
        let mut i: usize = 8;
        while i < packet.len()
            invariant
                8 <= i <= packet@.len(),
                payload@ == packet@.subrange(8, i as int),
            decreases packet@.len() - i,
        {
            proof {
                assert(packet@.subrange(8, i + 1) =~= packet@.subrange(8, i as int).push(
                    packet@[i as int],
                ));
            }
            payload.push(packet[i]);
            i = i + 1;
        }
        proof {
            assert(packet_of(nonce, payload@) =~= packet@);
        }
        Ok(SecureFrame { nonce, payload })
    }
}

/// The abstract state of a session.
pub struct SessionView {
    /// Both the handshake-complete and the session-established flags are set.
    pub secure: bool,
    /// The nonce that the next outgoing frame takes.
    pub send_nonce: u64,
    /// The nonce that the next incoming frame must carry.
    pub recv_nonce: u64,
}

/// The per-connection security session: whether the handshake has completed
/// and the nonce counters of the two directions. The counters are reachable
/// only through sending and receiving, so a nonce is never issued twice.
pub struct SecurityManager {
    handshake_complete: bool,
    session_established: bool,
    send_counter: u64,
    recv_counter: u64,
}

impl View for SecurityManager {
    type V = SessionView;

    closed spec fn view(&self) -> SessionView {
        SessionView {
            secure: self.handshake_complete && self.session_established,
            send_nonce: self.send_counter,
            recv_nonce: self.recv_counter,
        }
    }
}

/// A session that holds no key material.
pub open spec fn fresh(s: SessionView) -> bool {
    !s.secure && s.send_nonce == 0 && s.recv_nonce == 0
}

impl SecurityManager {
    /// An empty session.
    pub fn new() -> (r: Self)
        ensures
            fresh(r@),
    {
        SecurityManager {
            handshake_complete: false,
            session_established: false,
            send_counter: 0,
            recv_counter: 0,
        }
    }

    /// Whether secure I/O is allowed.
    pub fn is_secure(&self) -> (r: bool)
        ensures
            r == self@.secure,
    {
        self.handshake_complete && self.session_established
    }

    /// Concludes a handshake, in either role: the nonce verification that
    /// the peer sent must be the one expected. On a match the session is
    /// established with both counters at zero; otherwise it is left empty and
    /// the handshake fails with a security error.
    pub fn verify_handshake(&mut self, expected: &[u8], received: &[u8]) -> (r: Result<
        (),
        ProtocolError,
    >)
        ensures
            r is Ok <==> expected@ == received@,
            r is Ok ==> final(self)@ == (SessionView { secure: true, send_nonce: 0, recv_nonce: 0 }),
            r is Err ==> fresh(final(self)@) && r->Err_0 is Security,
    {
        self.reset();
        if expected.len() != received.len() {
            return Err(ProtocolError::Security("nonce verification mismatch".to_string()));
        }
        let mut i: usize = 0;
        while i < expected.len()
            invariant
                i <= expected@.len(),
                expected@.len() == received@.len(),
                forall|x: int| 0 <= x < i ==> expected@[x] == received@[x],
                fresh(self@),
            decreases expected@.len() - i,
        {
            if expected[i] != received[i] {
                return Err(ProtocolError::Security("nonce verification mismatch".to_string()));
            }
            i = i + 1;
        }
        proof {
            assert(expected@ =~= received@);
        }
        self.handshake_complete = true;
        self.session_established = true;
        Ok(())
    }

    /// Frames a message for sending under the next outgoing nonce.
    pub fn send_secure_message(&mut self, message: &AppMessage) -> (r: Result<
        SecureFrame,
        ProtocolError,
    >)
        ensures
            !old(self)@.secure ==> (r is Err) && (r->Err_0 is Authentication) && final(self)@ == old(self)@,
            old(self)@.secure && old(self)@.send_nonce == u64::MAX ==> (r is Err) && (r->Err_0 is Security)
                && final(self)@ == old(self)@,
            old(self)@.secure && old(self)@.send_nonce < u64::MAX ==> (r matches Ok(f) && f.nonce
                == old(self)@.send_nonce && f.payload@ == wire(message@)) && final(self)@ == (
            SessionView { send_nonce: (old(self)@.send_nonce + 1) as u64, ..old(self)@ }),
    {
        if !self.is_secure() {
            return Err(ProtocolError::Authentication("Session not established".to_string()));
        }
        if self.send_counter == u64::MAX {
            return Err(ProtocolError::Security("nonce space exhausted".to_string()));
        }
        let nonce = self.send_counter;
        self.send_counter = self.send_counter + 1;
        Ok(SecureFrame { nonce, payload: message.to_bytes() })
    }

    /// Accepts the next incoming frame. Its nonce must be the one expected
    /// next; any other (a replay, a reordering, a gap) is taken as tampering
    /// and ends the session. A payload that is no message's encoding fails
    /// with a serialization error and leaves the session as it was.
    pub fn recv_secure_message(&mut self, frame: &SecureFrame) -> (r: Result<
        AppMessage,
        ProtocolError,
    >)
        ensures
            !old(self)@.secure ==> (r is Err) && (r->Err_0 is Authentication) && final(self)@ == old(self)@,
            old(self)@.secure && (frame.nonce != old(self)@.recv_nonce || frame.nonce == u64::MAX)
                ==> (r is Err) && (r->Err_0 is Security) && fresh(final(self)@),
            old(self)@.secure && frame.nonce == old(self)@.recv_nonce && frame.nonce < u64::MAX
                ==> match r {
                Ok(m) => wire(m@) == frame.payload@ && final(self)@ == (SessionView {
                    recv_nonce: (old(self)@.recv_nonce + 1) as u64,
                    ..old(self)@
                }),
                Err(e) => (forall|v: MessageView| wire(v) != frame.payload@) && (e is Serialization)
                    && final(self)@ == old(self)@,
            },
    {
        if !self.is_secure() {
            return Err(ProtocolError::Authentication("Session not established".to_string()));
        }
        if frame.nonce != self.recv_counter || frame.nonce == u64::MAX {
            self.reset();
            return Err(ProtocolError::Security("unexpected frame nonce".to_string()));
        }
        let message = AppMessage::from_bytes(frame.payload.as_slice())?;
        self.recv_counter = self.recv_counter + 1;
        Ok(message)
    }

    /// Discards the session: both flags cleared, counters back to zero.
    pub fn reset(&mut self)
        ensures
            fresh(final(self)@),
    {
        self.handshake_complete = false;
        self.session_established = false;
        self.send_counter = 0;
        self.recv_counter = 0;
    }
}

impl Default for SecurityManager {
    fn default() -> (r: Self)
        ensures
            fresh(r@),
    {
        SecurityManager::new()
    }
}

} // verus!
