use vstd::prelude::*;
use crate::codec::{append_bytes, has_at, lemma_cancel_front, lemma_piece, same_bytes};
use crate::error::ProtocolError;
use crate::security::{be64, be64_bytes, lemma_be64_injective, read_be64};

verus! {

/// The three handshake messages, in the order in which they are exchanged:
/// the initiator's init, the responder's response, the initiator's confirm.
#[derive(Debug, Clone, Copy, PartialEq, Eq, Structural)]
pub enum HandshakeKind {
    Init,
    Response,
    Confirm,
}

/// The message that comes at position `step` of a handshake.
pub open spec fn kind_at(step: nat) -> HandshakeKind {
    if step == 0 {
        HandshakeKind::Init
    } else if step == 1 {
        HandshakeKind::Response
    } else {
        HandshakeKind::Confirm
    }
}

/// Whether the side in role `is_initiator` is the sender at position `step`:
/// the initiator sends the first and last messages, the responder the middle one.
pub open spec fn sends_at(is_initiator: bool, step: nat) -> bool {
    is_initiator == (step != 1)
}

/// How far one side has come through the handshake's message sequence.
pub struct HandshakeProgress {
    is_initiator: bool,
    step: u8,
}

pub struct ProgressView {
    pub is_initiator: bool,
    pub step: nat,
}

impl View for HandshakeProgress {
    type V = ProgressView;

    closed spec fn view(&self) -> ProgressView {
        ProgressView { is_initiator: self.is_initiator, step: self.step as nat }
    }
}

impl HandshakeProgress {
    pub closed spec fn wf(&self) -> bool {
        self.step <= 3
    }

    /// The start of a handshake in the given role.
    pub fn new(is_initiator: bool) -> (r: Self)
        ensures
            r.wf(),
            r@ == (ProgressView { is_initiator, step: 0 }),
    {
        HandshakeProgress { is_initiator, step: 0 }
    }

    /// All three messages have passed.
    pub fn is_done(&self) -> (r: bool)
        requires
            self.wf(),
        ensures
            r == (self@.step == 3),
    {
        self.step == 3
    }

    /// Records one message, sent (`outgoing`) or received. It must be the
    /// next message of the sequence, going in this side's direction for it;
    /// anything else is a protocol violation and changes nothing.
    pub fn advance(&mut self, kind: HandshakeKind, outgoing: bool) -> (r: Result<(), ProtocolError>)
        requires
            old(self).wf(),
        ensures
            final(self).wf(),
            r is Ok <==> old(self)@.step < 3 && kind == kind_at(old(self)@.step) && outgoing
                == sends_at(old(self)@.is_initiator, old(self)@.step),
            r is Ok ==> final(self)@ == (ProgressView {
                is_initiator: old(self)@.is_initiator,
                step: old(self)@.step + 1,
            }),
            r matches Err(e) ==> (e is ProtocolViolation) && final(self)@ == old(self)@,
    {
        if self.step >= 3 {
            return Err(ProtocolError::ProtocolViolation("handshake already complete".to_string()));
        }
        let expected = if self.step == 0 {
            HandshakeKind::Init
        } else if self.step == 1 {
            HandshakeKind::Response
        } else {
            HandshakeKind::Confirm
        };
        if kind != expected {
            return Err(ProtocolError::ProtocolViolation("handshake message out of order".to_string()));
        }
        if outgoing != (self.is_initiator == (self.step != 1)) {
            return Err(ProtocolError::ProtocolViolation("handshake message from the wrong side".to_string()));
        }
        self.step = self.step + 1;
        Ok(())
    }
}

/// A handshake message: key-agreement material and the nonces that bind
/// the two sides' contributions together.
#[derive(Debug, Clone, PartialEq)]
pub enum HandshakeMessage {
    Init { public_key: Vec<u8>, timestamp: u64, nonce: Vec<u8> },
    Response { public_key: Vec<u8>, nonce: Vec<u8>, nonce_verification: Vec<u8> },
    Confirm { verification: Vec<u8> },
}

pub enum HandshakeView {
    Init { public_key: Seq<u8>, timestamp: u64, nonce: Seq<u8> },
    Response { public_key: Seq<u8>, nonce: Seq<u8>, nonce_verification: Seq<u8> },
    Confirm { verification: Seq<u8> },
}

impl View for HandshakeMessage {
    type V = HandshakeView;

    open spec fn view(&self) -> HandshakeView {
        match self {
            HandshakeMessage::Init { public_key, timestamp, nonce } => HandshakeView::Init {
                public_key: public_key@,
                timestamp: *timestamp,
                nonce: nonce@,
            },
            HandshakeMessage::Response { public_key, nonce, nonce_verification } =>
                HandshakeView::Response {
                public_key: public_key@,
                nonce: nonce@,
                nonce_verification: nonce_verification@,
            },
            HandshakeMessage::Confirm { verification } => HandshakeView::Confirm {
                verification: verification@,
            },
        }
    }
}

/// A byte field on the wire: its length in eight big-endian bytes, then the bytes.
pub open spec fn field(x: Seq<u8>) -> Seq<u8> {
    be64(x.len() as u64) + x
}

/// The bytes of a handshake message: a tag (1, 2, 3 for init, response,
/// confirm), then the fields in declaration order.
pub open spec fn handshake_wire(m: HandshakeView) -> Seq<u8> {
    match m {
        HandshakeView::Init { public_key, timestamp, nonce } => seq![1u8] + (be64(timestamp) + (
        field(public_key) + field(nonce))),
        HandshakeView::Response { public_key, nonce, nonce_verification } => seq![2u8] + (field(
            public_key,
        ) + (field(nonce) + field(nonce_verification))),
        HandshakeView::Confirm { verification } => seq![3u8] + field(verification),
    }
}

fn push_field(out: &mut Vec<u8>, x: &Vec<u8>)
    ensures
        final(out)@ == old(out)@ + field(x@),
{
    let ghost start = out@;
    append_bytes(out, be64_bytes(x.len() as u64).as_slice());
    append_bytes(out, x.as_slice());
    proof {
        assert(out@ =~= start + field(x@));
    }
}

/// Reads a field at `p`; where the field of `x` stands there, that is `x`.
fn read_field(b: &[u8], p: usize, Ghost(x): Ghost<Seq<u8>>) -> (r: Option<(Vec<u8>, usize)>)
    ensures
        has_at(b@, p as int, field(x)) ==> (r matches Some((o, e)) && o@ == x && e == p + field(
            x,
        ).len()),
{
    let ghost shaped = has_at(b@, p as int, field(x));
    let blen = b.len();
    let n = match read_be64(b, p) {
        Some(n) => n,
        None => return None,
    };
    let q = p + 8;
    proof {
        if shaped {
            assert(b@.subrange(p as int, p + 8) =~= be64(x.len() as u64));
            lemma_be64_injective(n, x.len() as u64);
        }
    }
    if n > (blen - q) as u64 {
        return None;
    }
    let end = q + n as usize;
    let mut out: Vec<u8> = Vec::new();
    let mut i: usize = q;
    while i < end
        invariant
            q <= i <= end <= b@.len(),
            out@ == b@.subrange(q as int, i as int),
        decreases end - i,
    {
        proof {
            assert(b@.subrange(q as int, i + 1) =~= b@.subrange(q as int, i as int).push(
                b@[i as int],
            ));
        }
        out.push(b[i]);
        i = i + 1;
    }
    proof {
        if shaped {
            assert(b@.subrange(q as int, end as int) =~= b@.subrange(
                p as int,
                p + field(x).len(),
            ).subrange(8, 8 + x.len() as int));
            assert(field(x).subrange(8, 8 + x.len() as int) =~= x);
        }
    }
    Some((out, end))
}

/// Decodes the message whose bytes `b` are; where `b` is the encoding of
/// `v`, the result is `v`.
fn parse_handshake(b: &[u8], Ghost(v): Ghost<HandshakeView>) -> (r: Option<HandshakeMessage>)
    ensures
        handshake_wire(v) == b@ ==> (r matches Some(m) && m@ == v),
{
    let ghost shaped = handshake_wire(v) == b@;
    let len = b.len();
    if len < 1 {
        return None;
    }
    let tag = b[0];
    proof {
        if shaped {
            assert(b@[0] == handshake_wire(v)[0]);
        }
    }
    if tag == 1 {
        let ghost (pk, ts, nc) = match v {
            HandshakeView::Init { public_key, timestamp, nonce } => (public_key, timestamp, nonce),
            _ => (Seq::empty(), 0u64, Seq::empty()),
        };
        proof {
            if shaped {
                lemma_piece(seq![1u8], be64(ts), field(pk) + field(nc));
                lemma_piece(seq![1u8] + be64(ts), field(pk), field(nc));
                assert(b@ =~= (seq![1u8] + be64(ts)) + (field(pk) + field(nc)));
                lemma_piece(seq![1u8] + be64(ts) + field(pk), field(nc), Seq::empty());
                assert(b@ =~= (seq![1u8] + be64(ts) + field(pk)) + (field(nc) + Seq::empty()));
            }
        }
        let timestamp = match read_be64(b, 1) {
            Some(t) => t,
            None => return None,
        };
        proof {
            if shaped {
                lemma_be64_injective(timestamp, ts);
            }
        }
        let (public_key, pos1) = match read_field(b, 9, Ghost(pk)) {
            Some(x) => x,
            None => return None,
        };
        let (nonce, pos2) = match read_field(b, pos1, Ghost(nc)) {
            Some(x) => x,
            None => return None,
        };
        if pos2 != len {
            return None;
        }
        Some(HandshakeMessage::Init { public_key, timestamp, nonce })
    } else if tag == 2 {
        let ghost (pk, nc, ver) = match v {
            HandshakeView::Response { public_key, nonce, nonce_verification } => (
                public_key,
                nonce,
                nonce_verification,
            ),
            _ => (Seq::empty(), Seq::empty(), Seq::empty()),
        };
        proof {
            if shaped {
                lemma_piece(seq![2u8], field(pk), field(nc) + field(ver));
                lemma_piece(seq![2u8] + field(pk), field(nc), field(ver));
                assert(b@ =~= (seq![2u8] + field(pk)) + (field(nc) + field(ver)));
                lemma_piece(seq![2u8] + field(pk) + field(nc), field(ver), Seq::empty());
                assert(b@ =~= (seq![2u8] + field(pk) + field(nc)) + (field(ver) + Seq::empty()));
            }
        }
        let (public_key, pos1) = match read_field(b, 1, Ghost(pk)) {
            Some(x) => x,
            None => return None,
        };
        let (nonce, pos2) = match read_field(b, pos1, Ghost(nc)) {
            Some(x) => x,
            None => return None,
        };
        let (nonce_verification, pos3) = match read_field(b, pos2, Ghost(ver)) {
            Some(x) => x,
            None => return None,
        };
        if pos3 != len {
            return None;
        }
        Some(HandshakeMessage::Response { public_key, nonce, nonce_verification })
    } else if tag == 3 {
        let ghost ver = match v {
            HandshakeView::Confirm { verification } => verification,
            _ => Seq::empty(),
        };
        proof {
            if shaped {
                lemma_piece(seq![3u8], field(ver), Seq::empty());
                assert(b@ =~= seq![3u8] + (field(ver) + Seq::empty()));
            }
        }
        let (verification, pos1) = match read_field(b, 1, Ghost(ver)) {
            Some(x) => x,
            None => return None,
        };
        if pos1 != len {
            return None;
        }
        Some(HandshakeMessage::Confirm { verification })
    } else {
        None
    }
}

proof fn lemma_be64_prefix(n: u64, x: Seq<u8>, m: u64, y: Seq<u8>)
    requires
        be64(n) + x == be64(m) + y,
    ensures
        n == m,
        x == y,
{
    assert(be64(n) =~= (be64(n) + x).subrange(0, 8));
    assert(be64(m) =~= (be64(m) + y).subrange(0, 8));
    lemma_be64_injective(n, m);
    lemma_cancel_front(be64(n), x, y);
}

proof fn lemma_field_unique(a: Seq<u8>, x: Seq<u8>, b: Seq<u8>, y: Seq<u8>)
    requires
        field(a) + x == field(b) + y,
        a.len() <= u64::MAX,
        b.len() <= u64::MAX,
    ensures
        a == b,
        x == y,
{
    assert(field(a) + x =~= be64(a.len() as u64) + (a + x));
    assert(field(b) + y =~= be64(b.len() as u64) + (b + y));
    lemma_be64_prefix(a.len() as u64, a + x, b.len() as u64, b + y);
    assert(a =~= (a + x).subrange(0, a.len() as int));
    assert(b =~= (b + y).subrange(0, b.len() as int));
    assert(x =~= (a + x).subrange(a.len() as int, (a + x).len() as int));
    assert(y =~= (b + y).subrange(b.len() as int, (b + y).len() as int));
}

proof fn lemma_handshake_tag(v: HandshakeView)
    ensures
        handshake_wire(v)[0] == match v {
            HandshakeView::Init { .. } => 1u8,
            HandshakeView::Response { .. } => 2u8,
            HandshakeView::Confirm { .. } => 3u8,
        },
{
    match v {
        HandshakeView::Init { public_key, timestamp, nonce } => {
            assert(handshake_wire(v)[0] == seq![1u8][0]);
        },
        HandshakeView::Response { public_key, nonce, nonce_verification } => {
            assert(handshake_wire(v)[0] == seq![2u8][0]);
        },
        HandshakeView::Confirm { verification } => {
            assert(handshake_wire(v)[0] == seq![3u8][0]);
        },
    }
}

/// No two handshake messages share an encoding.
pub proof fn lemma_handshake_wire_injective(v: HandshakeView, w: HandshakeView)
    requires
        handshake_wire(v) == handshake_wire(w),
        handshake_wire(v).len() <= u64::MAX,
    ensures
        v == w,
{
    lemma_handshake_tag(v);
    lemma_handshake_tag(w);
    match (v, w) {
        (
            HandshakeView::Init { public_key: k1, timestamp: t1, nonce: n1 },
            HandshakeView::Init { public_key: k2, timestamp: t2, nonce: n2 },
        ) => {
            lemma_cancel_front(
                seq![1u8],
                be64(t1) + (field(k1) + field(n1)),
                be64(t2) + (field(k2) + field(n2)),
            );
            lemma_be64_prefix(t1, field(k1) + field(n1), t2, field(k2) + field(n2));
            lemma_field_unique(k1, field(n1), k2, field(n2));
            assert(field(n1) + Seq::<u8>::empty() =~= field(n2) + Seq::<u8>::empty());
            lemma_field_unique(n1, Seq::empty(), n2, Seq::empty());
        },
        (
            HandshakeView::Response { public_key: k1, nonce: n1, nonce_verification: c1 },
            HandshakeView::Response { public_key: k2, nonce: n2, nonce_verification: c2 },
        ) => {
            lemma_cancel_front(
                seq![2u8],
                field(k1) + (field(n1) + field(c1)),
                field(k2) + (field(n2) + field(c2)),
            );
            lemma_field_unique(k1, field(n1) + field(c1), k2, field(n2) + field(c2));
            lemma_field_unique(n1, field(c1), n2, field(c2));
            assert(field(c1) + Seq::<u8>::empty() =~= field(c2) + Seq::<u8>::empty());
            lemma_field_unique(c1, Seq::empty(), c2, Seq::empty());
        },
        (
            HandshakeView::Confirm { verification: c1 },
            HandshakeView::Confirm { verification: c2 },
        ) => {
            lemma_cancel_front(seq![3u8], field(c1), field(c2));
            assert(field(c1) + Seq::<u8>::empty() =~= field(c2) + Seq::<u8>::empty());
            lemma_field_unique(c1, Seq::empty(), c2, Seq::empty());
        },
        _ => {},
    }
}

impl HandshakeProgress {
    /// The initiator, holding the peer's response to its init: the response
    /// must come now, and its nonce verification must be the expected one.
    /// Only then is the confirm, carrying `confirm_verification`, produced
    /// to be sent. A mismatch is a security failure; a message out of turn
    /// is a protocol violation and changes nothing.
    pub fn on_response(
        &mut self,
        response: &HandshakeMessage,
        expected: &[u8],
        confirm_verification: Vec<u8>,
    ) -> (r: Result<HandshakeMessage, ProtocolError>)
        requires
            old(self).wf(),
        ensures
            final(self).wf(),
            !(old(self)@ == (ProgressView { is_initiator: true, step: 1 })
                && response@ is Response) ==> (r is Err) && (r->Err_0 is ProtocolViolation)
                && final(self)@ == old(self)@,
            old(self)@ == (ProgressView { is_initiator: true, step: 1 }) && response@ is Response
                ==> {
                &&& r is Ok <==> response@->Response_nonce_verification == expected@
                &&& r matches Ok(c) ==> c@ == (HandshakeView::Confirm {
                    verification: confirm_verification@,
                }) && final(self)@ == (ProgressView { is_initiator: true, step: 3 })
                &&& r matches Err(e) ==> (e is Security) && final(self)@ == (ProgressView {
                    is_initiator: true,
                    step: 2,
                })
            },
    {
        if !self.is_initiator || self.step != 1 {
            return Err(ProtocolError::ProtocolViolation("handshake response out of turn".to_string()));
        }
        let verification = match response {
            HandshakeMessage::Response { nonce_verification, .. } => nonce_verification,
            _ => {
                return Err(ProtocolError::ProtocolViolation("expected a handshake response".to_string()));
            },
        };
        self.step = 2;
        if !same_bytes(verification.as_slice(), expected) {
            return Err(ProtocolError::Security("nonce verification mismatch".to_string()));
        }
        self.step = 3;
        Ok(HandshakeMessage::Confirm { verification: confirm_verification })
    }

    /// The responder, holding the initiator's confirm: it must come now, and
    /// its verification must be the expected one.
    pub fn on_confirm(&mut self, confirm: &HandshakeMessage, expected: &[u8]) -> (r: Result<
        (),
        ProtocolError,
    >)
        requires
            old(self).wf(),
        ensures
            final(self).wf(),
            !(old(self)@ == (ProgressView { is_initiator: false, step: 2 })
                && confirm@ is Confirm) ==> (r is Err) && (r->Err_0 is ProtocolViolation)
                && final(self)@ == old(self)@,
            old(self)@ == (ProgressView { is_initiator: false, step: 2 }) && confirm@ is Confirm
                ==> {
                &&& r is Ok <==> confirm@->Confirm_verification == expected@
                &&& final(self)@ == (ProgressView { is_initiator: false, step: 3 })
                &&& r matches Err(e) ==> e is Security
            },
    {
        if self.is_initiator || self.step != 2 {
            return Err(ProtocolError::ProtocolViolation("handshake confirm out of turn".to_string()));
        }
        let verification = match confirm {
            HandshakeMessage::Confirm { verification } => verification,
            _ => {
                return Err(ProtocolError::ProtocolViolation("expected a handshake confirm".to_string()));
            },
        };
        self.step = 3;
        if !same_bytes(verification.as_slice(), expected) {
            return Err(ProtocolError::Security("nonce verification mismatch".to_string()));
        }
        Ok(())
    }
}

impl HandshakeMessage {
    /// Which of the three messages this is.
    pub fn kind(&self) -> (r: HandshakeKind)
        ensures
            r == match self@ {
                HandshakeView::Init { .. } => HandshakeKind::Init,
                HandshakeView::Response { .. } => HandshakeKind::Response,
                HandshakeView::Confirm { .. } => HandshakeKind::Confirm,
            },
    {
        match self {
            HandshakeMessage::Init { .. } => HandshakeKind::Init,
            HandshakeMessage::Response { .. } => HandshakeKind::Response,
            HandshakeMessage::Confirm { .. } => HandshakeKind::Confirm,
        }
    }

    /// The message's bytes on the wire.
    pub fn to_bytes(&self) -> (r: Vec<u8>)
        ensures
            r@ == handshake_wire(self@),
    {
        let mut out: Vec<u8> = Vec::new();
        match self {
            HandshakeMessage::Init { public_key, timestamp, nonce } => {
                out.push(1);
                append_bytes(&mut out, be64_bytes(*timestamp).as_slice());
                push_field(&mut out, public_key);
                push_field(&mut out, nonce);
            },
            HandshakeMessage::Response { public_key, nonce, nonce_verification } => {
                out.push(2);
                push_field(&mut out, public_key);
                push_field(&mut out, nonce);
                push_field(&mut out, nonce_verification);
            },
            HandshakeMessage::Confirm { verification } => {
                out.push(3);
                push_field(&mut out, verification);
            },
        }
        proof {
            assert(out@ =~= handshake_wire(self@));
        }
        out
    }

    /// Decodes a handshake message. It succeeds exactly on the encodings of
    /// handshake messages, and returns the message whose encoding the bytes
    /// are; anything else is a malformed handshake.
    pub fn from_bytes(bytes: &[u8]) -> (r: Result<HandshakeMessage, ProtocolError>)
        ensures
            match r {
                Ok(m) => handshake_wire(m@) == bytes@,
                Err(e) => (forall|v: HandshakeView| handshake_wire(v) != bytes@) && e is Security,
            },
            forall|v: HandshakeView| handshake_wire(v) == bytes@ ==> (r matches Ok(m) && m@ == v),
    {
        // Calling `len` puts the bound of the slice's length in the proof context.
        let _len = bytes.len();
        let ghost target = if exists|v: HandshakeView| handshake_wire(v) == bytes@ {
            choose|v: HandshakeView| handshake_wire(v) == bytes@
        } else {
            HandshakeView::Confirm { verification: Seq::empty() }
        };
        match parse_handshake(bytes, Ghost(target)) {
            Some(m) => {
                let encoded = m.to_bytes();
                if same_bytes(encoded.as_slice(), bytes) {
                    proof {
                        assert forall|v: HandshakeView| handshake_wire(v) == bytes@ implies m@
                            == v by {
                            lemma_handshake_wire_injective(m@, v);
                        }
                    }
                    Ok(m)
                } else {
                    Err(ProtocolError::Security("malformed handshake message".to_string()))
                }
            },
            None => Err(ProtocolError::Security("malformed handshake message".to_string())),
        }
    }
}

} // verus!
