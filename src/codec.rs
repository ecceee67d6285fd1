use vstd::prelude::*;
use vstd::utf8::{encode_utf8, decode_utf8, valid_utf8};
use crate::error::ProtocolError;
use crate::message::{AppMessage, MessageView};
use crate::tokens::{
    command_head, response_head, stdout_key, stderr_key, exit_code_key, error_head, closing,
    true_text, false_text, null_text, command_head_bytes, response_head_bytes, stdout_key_bytes,
    stderr_key_bytes, exit_code_key_bytes, error_head_bytes, closing_bytes, true_text_bytes,
    false_text_bytes, null_text_bytes,
};

verus! {

/// The lower-case hexadecimal digit for `d < 16`.
pub open spec fn hex_digit(d: u8) -> u8 {
    if d < 10 {
        (48 + d) as u8
    } else {
        (87 + d) as u8
    }
}

/// How one byte of text stands inside a JSON string literal: quote,
/// backslash and control bytes are escaped, the short forms where JSON has
/// them; every other byte stands for itself.
pub open spec fn escape_byte(c: u8) -> Seq<u8> {
    if c == 34 {
        seq![92u8, 34]
    } else if c == 92 {
        seq![92u8, 92]
    } else if c == 8 {
        seq![92u8, 98]
    } else if c == 12 {
        seq![92u8, 102]
    } else if c == 10 {
        seq![92u8, 110]
    } else if c == 13 {
        seq![92u8, 114]
    } else if c == 9 {
        seq![92u8, 116]
    } else if c < 32 {
        seq![92u8, 117, 48, 48, hex_digit(c / 16), hex_digit(c % 16)]
    } else {
        seq![c]
    }
}

/// The escaped form of a byte string, byte by byte.
pub open spec fn escape(s: Seq<u8>) -> Seq<u8>
    decreases s.len(),
{
    if s.len() == 0 {
        Seq::empty()
    } else {
        escape(s.drop_last()) + escape_byte(s.last())
    }
}

/// A byte string as a JSON string literal.
pub open spec fn quoted_bytes(s: Seq<u8>) -> Seq<u8> {
    seq![34u8] + escape(s) + seq![34u8]
}

/// A text as a JSON string literal over its UTF-8 encoding.
pub open spec fn quoted(s: Seq<char>) -> Seq<u8> {
    quoted_bytes(encode_utf8(s))
}

/// The decimal digits of a natural number, without leading zeros.
pub open spec fn digit_text(n: nat) -> Seq<u8>
    decreases n,
{
    if n < 10 {
        seq![(48 + n) as u8]
    } else {
        digit_text(n / 10) + seq![(48 + n % 10) as u8]
    }
}

/// An integer in JSON: a minus sign for negatives, then its digits.
pub open spec fn int_text(n: int) -> Seq<u8> {
    if n < 0 {
        seq![45u8] + digit_text((-n) as nat)
    } else {
        digit_text(n as nat)
    }
}

pub open spec fn bool_text(b: bool) -> Seq<u8> {
    if b {
        true_text()
    } else {
        false_text()
    }
}

pub open spec fn exit_code_text(e: Option<i32>) -> Seq<u8> {
    match e {
        Some(n) => int_text(n as int),
        None => null_text(),
    }
}

/// The bytes of a message on the wire: one JSON object whose single key
/// names the variant and whose value holds the fields in declaration order,
/// with no white space.
pub open spec fn wire(m: MessageView) -> Seq<u8> {
    match m {
        MessageView::Command { command } => command_head() + (quoted(command) + closing()),
        MessageView::Response { success, stdout, stderr, exit_code } => response_head() + (
        bool_text(success) + (stdout_key() + (quoted(stdout) + (stderr_key() + (quoted(stderr) + (
        exit_code_key() + (exit_code_text(exit_code) + closing()))))))),
        MessageView::Error { message } => error_head() + (quoted(message) + closing()),
    }
}

pub(crate) fn append_bytes(out: &mut Vec<u8>, b: &[u8])
    ensures
        final(out)@ == old(out)@ + b@,
{
    let mut i: usize = 0;
    while i < b.len()
        invariant
            i <= b@.len(),
            out@ == old(out)@ + b@.take(i as int),
        decreases b@.len() - i,
    {
        proof {
            assert(b@.take(i + 1) =~= b@.take(i as int).push(b@[i as int]));
        }
        out.push(b[i]);
        i = i + 1;
    }
    proof {
        assert(b@.take(i as int) =~= b@);
    }
}

fn hex_digit_exec(d: u8) -> (r: u8)
    requires
        d < 16,
    ensures
        r == hex_digit(d),
{
    if d < 10 {
        48 + d
    } else {
        87 + d
    }
}

fn push_escaped(out: &mut Vec<u8>, c: u8)
    ensures
        final(out)@ == old(out)@ + escape_byte(c),
{
    let ghost start = out@;
    if c == 34 || c == 92 || c == 8 || c == 12 || c == 10 || c == 13 || c == 9 {
        let e: u8 = if c == 34 {
            34
        } else if c == 92 {
            92
        } else if c == 8 {
            98
        } else if c == 12 {
            102
        } else if c == 10 {
            110
        } else if c == 13 {
            114
        } else {
            116
        };
        out.push(92);
        out.push(e);
    } else if c < 32 {
        out.push(92);
        out.push(117);
        out.push(48);
        out.push(48);
        out.push(hex_digit_exec(c / 16));
        out.push(hex_digit_exec(c % 16));
    } else {
        out.push(c);
    }
    proof {
        assert(out@ =~= start + escape_byte(c));
    }
}

fn push_quoted(out: &mut Vec<u8>, s: &String)
    ensures
        final(out)@ == old(out)@ + quoted(s@),
{
    let b = s.as_str().as_bytes();
    let ghost start = out@;
    out.push(34);
    let mut i: usize = 0;
    while i < b.len()
        invariant
            i <= b@.len(),
            b@ == encode_utf8(s@),
            out@ == start + seq![34u8] + escape(b@.take(i as int)),
        decreases b@.len() - i,
    {
        proof {
            assert(b@.take(i + 1).drop_last() =~= b@.take(i as int));
        }
        push_escaped(out, b[i]);
        proof {
            assert(out@ =~= start + seq![34u8] + escape(b@.take(i + 1)));
        }
        i = i + 1;
    }
    out.push(34);
    proof {
        assert(b@.take(i as int) =~= b@);
        assert(out@ =~= start + quoted(s@));
    }
}

fn push_digits(out: &mut Vec<u8>, n: u32)
    ensures
        final(out)@ == old(out)@ + digit_text(n as nat),
    decreases n,
{
    if n >= 10 {
        push_digits(out, n / 10);
    }
    let ghost mid = out@;
    out.push(48 + (n % 10) as u8);
    proof {
        if n >= 10 {
            assert(out@ =~= old(out)@ + digit_text(n as nat));
        } else {
            assert(out@ =~= old(out)@ + digit_text(n as nat));
        }
    }
}

pub(crate) fn push_int(out: &mut Vec<u8>, n: i32)
    ensures
        final(out)@ == old(out)@ + int_text(n as int),
{
    if n < 0 {
        let ghost start = out@;
        out.push(45);
        let m: u32 = (-(n as i64)) as u32;
        push_digits(out, m);
        proof {
            assert(out@ =~= start + int_text(n as int));
        }
    } else {
        push_digits(out, n as u32);
    }
}


/// `piece` stands in `b` from position `p` on.
pub open spec fn has_at(b: Seq<u8>, p: int, piece: Seq<u8>) -> bool {
    0 <= p && p + piece.len() <= b.len() && b.subrange(p, p + piece.len()) == piece
}

proof fn lemma_escape_take(t: Seq<u8>, k: int)
    requires
        0 <= k < t.len(),
    ensures
        escape(t.take(k + 1)) == escape(t.take(k)) + escape_byte(t[k]),
        t.take(k + 1) == t.take(k).push(t[k]),
{
    assert(t.take(k + 1).drop_last() =~= t.take(k));
    assert(t.take(k + 1) =~= t.take(k).push(t[k]));
}

proof fn lemma_escape_prefix(t: Seq<u8>, k: int)
    requires
        0 <= k <= t.len(),
    ensures
        escape(t.take(k)).len() <= escape(t).len(),
        escape(t).subrange(0, escape(t.take(k)).len() as int) == escape(t.take(k)),
    decreases t.len(),
{
    if k == t.len() {
        assert(t.take(k) =~= t);
        assert(escape(t).subrange(0, escape(t).len() as int) =~= escape(t));
    } else {
        let u = t.drop_last();
        assert(u.take(k) =~= t.take(k));
        lemma_escape_prefix(u, k);
        assert(escape(t) == escape(u) + escape_byte(t.last()));
        assert(escape(t).subrange(0, escape(t.take(k)).len() as int) =~= escape(u).subrange(
            0,
            escape(u.take(k)).len() as int,
        ));
    }
}

/// Where the decoder stands after `k` bytes of the text `t` that is quoted
/// at position `p` of `b`.
proof fn lemma_string_step(b: Seq<u8>, p: int, t: Seq<u8>, k: int)
    requires
        has_at(b, p, quoted_bytes(t)),
        0 <= k <= t.len(),
    ensures
        ({
            let i = p + 1 + escape(t.take(k)).len();
            &&& k == t.len() ==> i < b.len() && b[i] == 34 && i + 1 == p + quoted_bytes(t).len()
            &&& k < t.len() ==> {
                &&& i + escape_byte(t[k]).len() < b.len()
                &&& forall|m: int|
                    0 <= m < escape_byte(t[k]).len() ==> b[i + m] == #[trigger] escape_byte(
                        t[k],
                    )[m]
                &&& escape(t.take(k + 1)) == escape(t.take(k)) + escape_byte(t[k])
                &&& t.take(k + 1) == t.take(k).push(t[k])
            }
        }),
{
    let q = quoted_bytes(t);
    let i = p + 1 + escape(t.take(k)).len();
    assert forall|x: int| 0 <= x < q.len() implies b[p + x] == q[x] by {
        assert(b.subrange(p, p + q.len())[x] == b[p + x]);
    }
    if k == t.len() {
        assert(t.take(k) =~= t);
        assert(q[q.len() - 1] == 34);
    } else {
        lemma_escape_take(t, k);
        lemma_escape_prefix(t, k + 1);
        let e = escape_byte(t[k]);
        assert forall|m: int| 0 <= m < e.len() implies b[i + m] == #[trigger] e[m] by {
            let y = escape(t.take(k)).len() + m;
            assert(escape(t.take(k + 1))[y] == e[m]);
            assert(escape(t).subrange(0, escape(t.take(k + 1)).len() as int)[y] == escape(t)[y]);
            assert(q[1 + y] == escape(t)[y]);
            assert(b[p + 1 + y] == q[1 + y]);
        }
    }
}

/// Whether `lit` stands in `b` at `p`; the position after it if so.
pub(crate) fn expect(b: &[u8], p: usize, lit: &[u8]) -> (r: Option<usize>)
    ensures
        r == (if has_at(b@, p as int, lit@) {
            Some((p + lit@.len()) as usize)
        } else {
            None::<usize>
        }),
        r matches Some(e) ==> e == p + lit@.len() && e <= b@.len(),
{
    if p > b.len() || lit.len() > b.len() - p {
        return None;
    }
    let mut j: usize = 0;
    while j < lit.len()
        invariant
            j <= lit@.len(),
            p + lit@.len() <= b@.len(),
            b@.len() == b.len(),
            lit@.len() == lit.len(),
            forall|m: int| 0 <= m < j ==> b@[p + m] == lit@[m],
        decreases lit@.len() - j,
    {
        if b[p + j] != lit[j] {
            proof {
                if has_at(b@, p as int, lit@) {
                    assert(b@.subrange(p as int, p + lit@.len())[j as int] == b@[p + j]);
                }
            }
            return None;
        }
        j = j + 1;
    }
    proof {
        assert(b@.subrange(p as int, p + lit@.len()) =~= lit@);
    }
    Some(p + lit.len())
}

fn hex_value(c: u8) -> (r: Option<u8>)
    ensures
        48 <= c <= 57 ==> r == Some((c - 48) as u8),
        97 <= c <= 102 ==> r == Some((c - 87) as u8),
        r matches Some(d) ==> d < 16,
{
    if 48 <= c && c <= 57 {
        Some(c - 48)
    } else if 97 <= c && c <= 102 {
        Some(c - 87)
    } else {
        None
    }
}

/// Reads a JSON string literal at `p`: the unescaped bytes and the position
/// after the closing quote. Where the literal of `t` stands at `p`, that is `t`.
fn parse_string(b: &[u8], p: usize, Ghost(t): Ghost<Seq<u8>>) -> (r: Option<(Vec<u8>, usize)>)
    ensures
        has_at(b@, p as int, quoted_bytes(t)) ==> (r matches Some((o, e)) && o@ == t && e == p
            + quoted_bytes(t).len()),
{
    let ghost shaped = has_at(b@, p as int, quoted_bytes(t));
    if p >= b.len() || b[p] != 34 {
        proof {
            if shaped {
                assert(b@.subrange(p as int, p + quoted_bytes(t).len())[0] == b@[p as int]);
            }
        }
        return None;
    }
    let mut out: Vec<u8> = Vec::new();
    let mut i: usize = p + 1;
    proof {
        assert(t.take(0) =~= Seq::<u8>::empty());
    }
    while i < b.len()
        invariant
            p < i <= b@.len(),
            shaped == has_at(b@, p as int, quoted_bytes(t)),
            shaped ==> out@.len() <= t.len() && out@ == t.take(out@.len() as int) && i == p + 1
                + escape(t.take(out@.len() as int)).len(),
        decreases b@.len() - i,
    {
        let ghost k = out@.len() as int;
        proof {
            if shaped {
                lemma_string_step(b@, p as int, t, k);
                if k < t.len() {
                    assert(escape_byte(t[k])[0] == b@[i as int]);
                }
            }
        }
        let c = b[i];
        if c == 34 {
            proof {
                if shaped {
                    assert(t.take(k) =~= t);
                }
            }
            return Some((out, i + 1));
        }
        if c == 92 {
            if i + 1 >= b.len() {
                return None;
            }
            let d = b[i + 1];
            let v: u8;
            let step: usize;
            proof {
                if shaped {
                    assert(escape_byte(t[k])[1] == b@[i + 1]);
                }
            }
            if d == 34 || d == 92 || d == 47 {
                v = d;
                step = 2;
            } else if d == 98 {
                v = 8;
                step = 2;
            } else if d == 102 {
                v = 12;
                step = 2;
            } else if d == 110 {
                v = 10;
                step = 2;
            } else if d == 114 {
                v = 13;
                step = 2;
            } else if d == 116 {
                v = 9;
                step = 2;
            } else if d == 117 {
                if b.len() - i <= 5 || b[i + 2] != 48 || b[i + 3] != 48 {
                    return None;
                }
                proof {
                    if shaped {
                        assert(escape_byte(t[k])[4] == b@[i + 4]);
                        assert(escape_byte(t[k])[5] == b@[i + 5]);
                    }
                }
                let hi = hex_value(b[i + 4]);
                let lo = hex_value(b[i + 5]);
                match (hi, lo) {
                    (Some(h), Some(l)) => {
                        v = h * 16 + l;
                        step = 6;
                    },
                    _ => {
                        return None;
                    },
                }
            } else {
                return None;
            }
            out.push(v);
            i = i + step;
        } else {
            out.push(c);
            i = i + 1;
        }
        proof {
            if shaped {
                assert(out@ == t.take(k + 1));
            }
        }
    }
    proof {
        if shaped {
            lemma_string_step(b@, p as int, t, out@.len() as int);
            if out@.len() < t.len() {
                assert(escape_byte(t[out@.len() as int])[0] == b@[i as int]);
            }
        }
    }
    None
}


pub open spec fn is_digit(c: u8) -> bool {
    48 <= c <= 57
}

/// The number that the decimal digits `b[s..e]` spell.
pub open spec fn digits_value(b: Seq<u8>, s: int, e: int) -> int
    decreases e - s,
{
    if e <= s {
        0
    } else {
        digits_value(b, s, e - 1) * 10 + (b[e - 1] - 48)
    }
}

pub(crate) proof fn lemma_digit_text(m: nat)
    ensures
        digit_text(m).len() >= 1,
        forall|x: int| 0 <= x < digit_text(m).len() ==> is_digit(#[trigger] digit_text(m)[x]),
    decreases m,
{
    if m >= 10 {
        lemma_digit_text(m / 10);
    }
}

proof fn lemma_digits_value(b: Seq<u8>, s: int, m: nat)
    requires
        has_at(b, s, digit_text(m)),
    ensures
        digits_value(b, s, s + digit_text(m).len()) == m,
    decreases m,
{
    let d = digit_text(m);
    let e = s + d.len();
    assert(b[e - 1] == b.subrange(s, e)[d.len() - 1]);
    assert(d[d.len() - 1] == 48 + m % 10);
    if m >= 10 {
        let h = digit_text(m / 10);
        assert(b.subrange(s, s + h.len()) =~= b.subrange(s, e).subrange(0, h.len() as int));
        assert(d.subrange(0, h.len() as int) =~= h);
        lemma_digits_value(b, s, m / 10);
        assert(digits_value(b, s, e) == digits_value(b, s, e - 1) * 10 + (b[e - 1] - 48));
        assert((m / 10) * 10 + m % 10 == m);
    } else {
        assert(digits_value(b, s, s) == 0);
        assert(digits_value(b, s, e) == digits_value(b, s, e - 1) * 10 + (b[e - 1] - 48));
    }
}

proof fn lemma_digits_mono(b: Seq<u8>, s: int, i: int, e: int)
    requires
        s <= i <= e,
        forall|x: int| s <= x < e ==> is_digit(#[trigger] b[x]),
    ensures
        0 <= digits_value(b, s, i) <= digits_value(b, s, e),
    decreases e - s,
{
    if e > s {
        if i < e {
            lemma_digits_mono(b, s, i, e - 1);
        } else {
            lemma_digits_mono(b, s, i - 1, e - 1);
        }
    }
}

/// The integer `n` in JSON stands at `p` and no digit follows it.
pub open spec fn int_at(b: Seq<u8>, p: int, n: int) -> bool {
    &&& has_at(b, p, int_text(n))
    &&& p + int_text(n).len() < b.len()
    &&& !is_digit(b[p + int_text(n).len()])
}

/// Reads a JSON integer that fits `i32` at `p`, and the position after it.
/// Where the text of `n` stands there, followed by no digit, that is `n`.
fn parse_int(b: &[u8], p: usize, Ghost(n): Ghost<i32>) -> (r: Option<(i32, usize)>)
    ensures
        int_at(b@, p as int, n as int) ==> r == Some((n, (p + int_text(n as int).len()) as usize)),
{
    let ghost shaped = int_at(b@, p as int, n as int);
    let ghost mag: nat = if n < 0 {
        (-(n as int)) as nat
    } else {
        n as nat
    };
    let ghost start_g: int = if n < 0 {
        p + 1
    } else {
        p as int
    };
    let ghost end_g: int = p + int_text(n as int).len();
    proof {
        if shaped {
            lemma_digit_text(mag);
            let it = int_text(n as int);
            assert forall|x: int| 0 <= x < it.len() implies b@[p + x] == it[x] by {
                assert(b@.subrange(p as int, p + it.len())[x] == b@[p + x]);
            }
            if n < 0 {
                assert(it =~= seq![45u8] + digit_text(mag));
                assert(b@[p as int] == it[0]);
                assert forall|x: int| 0 <= x < digit_text(mag).len() implies b@[start_g + x]
                    == digit_text(mag)[x] by {
                    assert(b@[p + (x + 1)] == it[x + 1]);
                }
            } else {
                assert(it =~= digit_text(mag));
            }
            assert(b@.subrange(start_g, end_g) =~= digit_text(mag));
            lemma_digits_value(b@, start_g, mag);
            assert forall|x: int| start_g <= x < end_g implies is_digit(#[trigger] b@[x]) by {
                assert(b@[x] == digit_text(mag)[x - start_g]);
            }
            if n >= 0 {
                assert(b@[p as int] == digit_text(mag)[0]);
            }
        }
    }
    if p >= b.len() {
        return None;
    }
    let neg = b[p] == 45;
    let start: usize = if neg {
        p + 1
    } else {
        p
    };
    let mut i: usize = start;
    let mut acc: u64 = 0;
    while i < b.len() && 48 <= b[i] && b[i] <= 57 && acc <= 2147483648
        invariant
            start <= i <= b@.len(),
            acc == digits_value(b@, start as int, i as int),
            acc <= 21474836489,
            forall|x: int| start <= x < i ==> is_digit(#[trigger] b@[x]),
            shaped ==> {
                &&& start == start_g
                &&& i <= end_g < b@.len()
                &&& forall|x: int| start_g <= x < end_g ==> is_digit(#[trigger] b@[x])
                &&& !is_digit(b@[end_g])
                &&& digits_value(b@, start_g, end_g) == mag
                &&& mag <= 2147483648
            },
        decreases b@.len() - i,
    {
        proof {
            lemma_digits_mono(b@, start as int, i as int, i as int);
        }
        acc = acc * 10 + (b[i] - 48) as u64;
        i = i + 1;
        proof {
            if shaped {
                lemma_digits_mono(b@, start as int, i as int, end_g);
            }
        }
    }
    proof {
        if shaped {
            lemma_digits_mono(b@, start as int, i as int, end_g);
        }
    }
    if i == start {
        return None;
    }
    if neg {
        if acc > 2147483648 {
            return None;
        }
        Some(((-(acc as i64)) as i32, i))
    } else {
        if acc > 2147483647 {
            return None;
        }
        Some((acc as i32, i))
    }
}


/// Relies on `String::from_utf8`: it succeeds exactly on valid UTF-8, and the
/// text is then what the bytes encode.
#[verifier::external_body]
pub(crate) fn utf8_text(b: Vec<u8>) -> (r: Option<String>)
    ensures
        r is Some <==> valid_utf8(b@),
        r matches Some(s) ==> s@ == decode_utf8(b@),
{
    String::from_utf8(b).ok()
}

/// Reads a quoted text at `p`; where the literal of `s` stands there, that is `s`.
fn parse_text(b: &[u8], p: usize, Ghost(s): Ghost<Seq<char>>) -> (r: Option<(String, usize)>)
    ensures
        has_at(b@, p as int, quoted(s)) ==> (r matches Some((o, e)) && o@ == s && e == p
            + quoted(s).len()),
{
    proof {
        broadcast use vstd::utf8::encode_utf8_valid_utf8, vstd::utf8::encode_utf8_decode_utf8;
    }
    match parse_string(b, p, Ghost(encode_utf8(s))) {
        Some((bytes, e)) => match utf8_text(bytes) {
            Some(text) => Some((text, e)),
            None => None,
        },
        None => None,
    }
}

pub(crate) proof fn lemma_piece(head: Seq<u8>, piece: Seq<u8>, tail: Seq<u8>)
    ensures
        has_at(head + (piece + tail), head.len() as int, piece),
{
    let b = head + (piece + tail);
    assert(b.subrange(head.len() as int, (head.len() + piece.len()) as int) =~= piece);
}

/// Where each of three pieces stands in their concatenation.
proof fn lemma_layout3(x0: Seq<u8>, x1: Seq<u8>, x2: Seq<u8>)
    ensures
        has_at((x0 + (x1 + x2)), (0) as int, x0),
        has_at((x0 + (x1 + x2)), (x0.len()) as int, x1),
        has_at((x0 + (x1 + x2)), (x0.len() + x1.len()) as int, x2),
        ((x0 + (x1 + x2))).len() == x0.len() + x1.len() + x2.len(),
{
    assert((x0 + (x1 + x2)) =~= Seq::<u8>::empty() + (x0 + (x1 + x2)));
    lemma_piece(Seq::<u8>::empty(), x0, (x1 + x2));
    assert((x0 + (x1 + x2)) =~= (x0) + (x1 + x2));
    lemma_piece((x0), x1, x2);
    assert((x0 + (x1 + x2)) =~= (x0 + x1) + (x2 + Seq::<u8>::empty()));
    lemma_piece((x0 + x1), x2, Seq::<u8>::empty());
}

/// Where each of nine pieces stands in their concatenation.
proof fn lemma_layout9(x0: Seq<u8>, x1: Seq<u8>, x2: Seq<u8>, x3: Seq<u8>, x4: Seq<u8>, x5: Seq<u8>, x6: Seq<u8>, x7: Seq<u8>, x8: Seq<u8>)
    ensures
        has_at((x0 + (x1 + (x2 + (x3 + (x4 + (x5 + (x6 + (x7 + x8)))))))), (0) as int, x0),
        has_at((x0 + (x1 + (x2 + (x3 + (x4 + (x5 + (x6 + (x7 + x8)))))))), (x0.len()) as int, x1),
        has_at((x0 + (x1 + (x2 + (x3 + (x4 + (x5 + (x6 + (x7 + x8)))))))), (x0.len() + x1.len()) as int, x2),
        has_at((x0 + (x1 + (x2 + (x3 + (x4 + (x5 + (x6 + (x7 + x8)))))))), (x0.len() + x1.len() + x2.len()) as int, x3),
        has_at((x0 + (x1 + (x2 + (x3 + (x4 + (x5 + (x6 + (x7 + x8)))))))), (x0.len() + x1.len() + x2.len() + x3.len()) as int, x4),
        has_at((x0 + (x1 + (x2 + (x3 + (x4 + (x5 + (x6 + (x7 + x8)))))))), (x0.len() + x1.len() + x2.len() + x3.len() + x4.len()) as int, x5),
        has_at((x0 + (x1 + (x2 + (x3 + (x4 + (x5 + (x6 + (x7 + x8)))))))), (x0.len() + x1.len() + x2.len() + x3.len() + x4.len() + x5.len()) as int, x6),
        has_at((x0 + (x1 + (x2 + (x3 + (x4 + (x5 + (x6 + (x7 + x8)))))))), (x0.len() + x1.len() + x2.len() + x3.len() + x4.len() + x5.len() + x6.len()) as int, x7),
        has_at((x0 + (x1 + (x2 + (x3 + (x4 + (x5 + (x6 + (x7 + x8)))))))), (x0.len() + x1.len() + x2.len() + x3.len() + x4.len() + x5.len() + x6.len() + x7.len()) as int, x8),
        ((x0 + (x1 + (x2 + (x3 + (x4 + (x5 + (x6 + (x7 + x8))))))))).len() == x0.len() + x1.len() + x2.len() + x3.len() + x4.len() + x5.len() + x6.len() + x7.len() + x8.len(),
{
    assert((x0 + (x1 + (x2 + (x3 + (x4 + (x5 + (x6 + (x7 + x8)))))))) =~= Seq::<u8>::empty() + (x0 + (x1 + (x2 + (x3 + (x4 + (x5 + (x6 + (x7 + x8)))))))));
    lemma_piece(Seq::<u8>::empty(), x0, (x1 + (x2 + (x3 + (x4 + (x5 + (x6 + (x7 + x8))))))));
    assert((x0 + (x1 + (x2 + (x3 + (x4 + (x5 + (x6 + (x7 + x8)))))))) =~= (x0) + (x1 + (x2 + (x3 + (x4 + (x5 + (x6 + (x7 + x8))))))));
    lemma_piece((x0), x1, (x2 + (x3 + (x4 + (x5 + (x6 + (x7 + x8)))))));
    assert((x0 + (x1 + (x2 + (x3 + (x4 + (x5 + (x6 + (x7 + x8)))))))) =~= (x0 + x1) + (x2 + (x3 + (x4 + (x5 + (x6 + (x7 + x8)))))));
    lemma_piece((x0 + x1), x2, (x3 + (x4 + (x5 + (x6 + (x7 + x8))))));
    assert((x0 + (x1 + (x2 + (x3 + (x4 + (x5 + (x6 + (x7 + x8)))))))) =~= (x0 + x1 + x2) + (x3 + (x4 + (x5 + (x6 + (x7 + x8))))));
    lemma_piece((x0 + x1 + x2), x3, (x4 + (x5 + (x6 + (x7 + x8)))));
    assert((x0 + (x1 + (x2 + (x3 + (x4 + (x5 + (x6 + (x7 + x8)))))))) =~= (x0 + x1 + x2 + x3) + (x4 + (x5 + (x6 + (x7 + x8)))));
    lemma_piece((x0 + x1 + x2 + x3), x4, (x5 + (x6 + (x7 + x8))));
    assert((x0 + (x1 + (x2 + (x3 + (x4 + (x5 + (x6 + (x7 + x8)))))))) =~= (x0 + x1 + x2 + x3 + x4) + (x5 + (x6 + (x7 + x8))));
    lemma_piece((x0 + x1 + x2 + x3 + x4), x5, (x6 + (x7 + x8)));
    assert((x0 + (x1 + (x2 + (x3 + (x4 + (x5 + (x6 + (x7 + x8)))))))) =~= (x0 + x1 + x2 + x3 + x4 + x5) + (x6 + (x7 + x8)));
    lemma_piece((x0 + x1 + x2 + x3 + x4 + x5), x6, (x7 + x8));
    assert((x0 + (x1 + (x2 + (x3 + (x4 + (x5 + (x6 + (x7 + x8)))))))) =~= (x0 + x1 + x2 + x3 + x4 + x5 + x6) + (x7 + x8));
    lemma_piece((x0 + x1 + x2 + x3 + x4 + x5 + x6), x7, x8);
    assert((x0 + (x1 + (x2 + (x3 + (x4 + (x5 + (x6 + (x7 + x8)))))))) =~= (x0 + x1 + x2 + x3 + x4 + x5 + x6 + x7) + (x8 + Seq::<u8>::empty()));
    lemma_piece((x0 + x1 + x2 + x3 + x4 + x5 + x6 + x7), x8, Seq::<u8>::empty());
}


fn at_end(b: &[u8], p: usize) -> (r: bool)
    ensures
        r == (p == b@.len()),
{
    p == b.len()
}

/// Decodes the message whose bytes `b` are; where `b` is the encoding of
/// `v`, the result is `v`.
fn parse_message(b: &[u8], Ghost(v): Ghost<MessageView>) -> (r: Option<AppMessage>)
    ensures
        wire(v) == b@ ==> (r matches Some(m) && m@ == v),
{
    let ghost shaped = wire(v) == b@;
    if b.len() < 3 {
        proof {
            if shaped {
                assert(wire(v).len() >= 3);
            }
        }
        return None;
    }
    let tag = b[2];
    proof {
        if shaped {
            assert(b@[2] == wire(v)[2]);
        }
    }
    if tag == 67 {
        let ghost command = if let MessageView::Command { command } = v {
            command
        } else {
            Seq::empty()
        };
        proof {
            if shaped {
                lemma_layout3(command_head(), quoted(command), closing());
            }
        }
        let pos1 = match expect(b, 0, command_head_bytes().as_slice()) {
            Some(p) => p,
            None => return None,
        };
        let (text, pos2) = match parse_text(b, pos1, Ghost(command)) {
            Some(x) => x,
            None => return None,
        };
        let pos3 = match expect(b, pos2, closing_bytes().as_slice()) {
            Some(p) => p,
            None => return None,
        };
        if !at_end(b, pos3) {
            return None;
        }
        Some(AppMessage::Command { command: text })
    } else if tag == 69 {
        let ghost message = if let MessageView::Error { message } = v {
            message
        } else {
            Seq::empty()
        };
        proof {
            if shaped {
                lemma_layout3(error_head(), quoted(message), closing());
            }
        }
        let pos1 = match expect(b, 0, error_head_bytes().as_slice()) {
            Some(p) => p,
            None => return None,
        };
        let (text, pos2) = match parse_text(b, pos1, Ghost(message)) {
            Some(x) => x,
            None => return None,
        };
        let pos3 = match expect(b, pos2, closing_bytes().as_slice()) {
            Some(p) => p,
            None => return None,
        };
        if !at_end(b, pos3) {
            return None;
        }
        Some(AppMessage::Error { message: text })
    } else if tag == 82 {
        parse_response(b, Ghost(v))
    } else {
        None
    }
}

fn parse_response(b: &[u8], Ghost(v): Ghost<MessageView>) -> (r: Option<AppMessage>)
    ensures
        wire(v) == b@ && v is Response ==> (r matches Some(m) && m@ == v),
{
    let ghost shaped = wire(v) == b@ && v is Response;
    // Calling `len` puts the bound of the slice's length in the proof context.
    let _len = b.len();
    let ghost (success, out, err, code) = if let MessageView::Response {
        success,
        stdout,
        stderr,
        exit_code,
    } = v {
        (success, stdout, stderr, exit_code)
    } else {
        (false, Seq::empty(), Seq::empty(), None)
    };
    proof {
        if shaped {
            lemma_layout9(
                response_head(),
                bool_text(success),
                stdout_key(),
                quoted(out),
                stderr_key(),
                quoted(err),
                exit_code_key(),
                exit_code_text(code),
                closing(),
            );
        }
    }
    let pos1 = match expect(b, 0, response_head_bytes().as_slice()) {
        Some(p) => p,
        None => return None,
    };
    let (flag, pos2) = match parse_bool(b, pos1, Ghost(success)) {
        Some(x) => x,
        None => return None,
    };
    let (stdout, pos4) = match parse_keyed_text(b, pos2, stdout_key_bytes().as_slice(), Ghost(out)) {
        Some(x) => x,
        None => return None,
    };
    let (stderr, pos6) = match parse_keyed_text(b, pos4, stderr_key_bytes().as_slice(), Ghost(err)) {
        Some(x) => x,
        None => return None,
    };
    let pos7 = match expect(b, pos6, exit_code_key_bytes().as_slice()) {
        Some(p) => p,
        None => return None,
    };
    proof {
        if shaped {
            let e = pos7 + exit_code_text(code).len();
            assert(b@[e] == b@.subrange(e, e + closing().len())[0]);
        }
    }
    let (exit_code, pos8) = match parse_exit_code(b, pos7, Ghost(code)) {
        Some(x) => x,
        None => return None,
    };
    let pos9 = match expect(b, pos8, closing_bytes().as_slice()) {
        Some(p) => p,
        None => return None,
    };
    if !at_end(b, pos9) {
        return None;
    }
    Some(AppMessage::Response { success: flag, stdout, stderr, exit_code })
}

fn parse_bool(b: &[u8], p: usize, Ghost(v): Ghost<bool>) -> (r: Option<(bool, usize)>)
    ensures
        has_at(b@, p as int, bool_text(v)) ==> r == Some((v, (p + bool_text(v).len()) as usize)),
{
    match expect(b, p, true_text_bytes().as_slice()) {
        Some(e) => Some((true, e)),
        None => {
            proof {
                if has_at(b@, p as int, bool_text(v)) && !v {
                    assert(b@[p as int] == b@.subrange(p as int, p + 5)[0]);
                }
            }
            match expect(b, p, false_text_bytes().as_slice()) {
                Some(e) => Some((false, e)),
                None => None,
            }
        },
    }
}

/// Reads `key` and then a quoted text.
fn parse_keyed_text(b: &[u8], p: usize, key: &[u8], Ghost(s): Ghost<Seq<char>>) -> (r: Option<
    (String, usize),
>)
    ensures
        has_at(b@, p as int, key@) && has_at(b@, p + key@.len(), quoted(s)) ==> (r matches Some(
            (o, e),
        ) && o@ == s && e == p + key@.len() + quoted(s).len()),
{
    match expect(b, p, key) {
        Some(q) => parse_text(b, q, Ghost(s)),
        None => None,
    }
}

/// Reads an exit code: `null` or an integer. Where the text of `code` stands
/// at `p`, followed by a closing brace, that is `code`.
fn parse_exit_code(b: &[u8], p: usize, Ghost(code): Ghost<Option<i32>>) -> (r: Option<
    (Option<i32>, usize),
>)
    ensures
        has_at(b@, p as int, exit_code_text(code)) && p + exit_code_text(code).len() < b@.len()
            && b@[p + exit_code_text(code).len()] == 125 ==> r == Some(
            (code, (p + exit_code_text(code).len()) as usize),
        ),
{
    let ghost n: i32 = match code {
        Some(n) => n,
        None => 0,
    };
    proof {
        if has_at(b@, p as int, exit_code_text(code)) && code is Some {
            lemma_digit_text(if n < 0 { (-(n as int)) as nat } else { n as nat });
            assert(b@[p as int] == b@.subrange(p as int, p + int_text(n as int).len())[0]);
        }
    }
    match expect(b, p, null_text_bytes().as_slice()) {
        Some(e) => Some((None, e)),
        None => match parse_int(b, p, Ghost(n)) {
            Some((value, e)) => Some((Some(value), e)),
            None => None,
        },
    }
}

pub(crate) fn same_bytes(a: &[u8], b: &[u8]) -> (r: bool)
    ensures
        r == (a@ == b@),
{
    if a.len() != b.len() {
        return false;
    }
    let mut i: usize = 0;
    while i < a.len()
        invariant
            i <= a@.len(),
            a@.len() == b@.len(),
            forall|x: int| 0 <= x < i ==> a@[x] == b@[x],
        decreases a@.len() - i,
    {
        if a[i] != b[i] {
            return false;
        }
        i = i + 1;
    }
    proof {
        assert(a@ =~= b@);
    }
    true
}


spec fn short_escape_value(d: u8) -> u8 {
    if d == 98 {
        8
    } else if d == 102 {
        12
    } else if d == 110 {
        10
    } else if d == 114 {
        13
    } else if d == 116 {
        9
    } else {
        d
    }
}

spec fn hex_digit_value(h: u8) -> u8 {
    if h < 58 {
        (h - 48) as u8
    } else {
        (h - 87) as u8
    }
}

/// Reads the body of a string literal from the front of `z`, up to and past
/// its closing quote: the text and what follows.
spec fn read_literal(z: Seq<u8>) -> Option<(Seq<u8>, Seq<u8>)>
    decreases z.len(),
{
    if z.len() == 0 {
        None
    } else if z[0] == 34 {
        Some((Seq::empty(), z.drop_first()))
    } else {
        let (c, n) = if z[0] == 92 && z.len() >= 6 && z[1] == 117 {
            ((hex_digit_value(z[4]) * 16 + hex_digit_value(z[5])) as u8, 6int)
        } else if z[0] == 92 && z.len() >= 2 {
            (short_escape_value(z[1]), 2int)
        } else {
            (z[0], 1int)
        };
        match read_literal(z.subrange(n, z.len() as int)) {
            Some((t, rest)) => Some((seq![c] + t, rest)),
            None => None,
        }
    }
}

proof fn lemma_escape_front(a: Seq<u8>)
    requires
        a.len() >= 1,
    ensures
        escape(a) == escape_byte(a[0]) + escape(a.drop_first()),
    decreases a.len(),
{
    if a.len() == 1 {
        assert(a.drop_last() =~= Seq::<u8>::empty());
        assert(a.drop_first() =~= Seq::<u8>::empty());
        assert(escape(a) =~= escape_byte(a[0]) + escape(a.drop_first()));
    } else {
        let u = a.drop_last();
        lemma_escape_front(u);
        assert(u.drop_first() =~= a.drop_first().drop_last());
        assert(a.drop_first().last() == a.last());
        assert(escape(a) =~= escape_byte(a[0]) + escape(a.drop_first()));
    }
}

proof fn lemma_read_literal(a: Seq<u8>, x: Seq<u8>)
    ensures
        read_literal(escape(a) + seq![34u8] + x) == Some((a, x)),
    decreases a.len(),
{
    let z = escape(a) + seq![34u8] + x;
    if a.len() == 0 {
        assert(z =~= seq![34u8] + x);
        assert(z.drop_first() =~= x);
        assert(a =~= Seq::<u8>::empty());
    } else {
        lemma_escape_front(a);
        let c = a[0];
        let e = escape_byte(c);
        let rest = a.drop_first();
        let z2 = escape(rest) + seq![34u8] + x;
        assert(z =~= e + z2);
        assert(z.subrange(e.len() as int, z.len() as int) =~= z2);
        lemma_read_literal(rest, x);
        if c < 32 && c != 8 && c != 12 && c != 10 && c != 13 && c != 9 {
            assert(hex_digit_value(hex_digit(c / 16)) == c / 16);
            assert(hex_digit_value(hex_digit(c % 16)) == c % 16);
            assert((c / 16) * 16 + c % 16 == c);
        }
        assert(seq![c] + rest =~= a);
    }
}

proof fn lemma_quoted_unique(a: Seq<u8>, x: Seq<u8>, b: Seq<u8>, y: Seq<u8>)
    requires
        quoted_bytes(a) + x == quoted_bytes(b) + y,
    ensures
        a == b,
        x == y,
{
    let z = quoted_bytes(a) + x;
    assert(z.drop_first() =~= escape(a) + seq![34u8] + x);
    assert((quoted_bytes(b) + y).drop_first() =~= escape(b) + seq![34u8] + y);
    lemma_read_literal(a, x);
    lemma_read_literal(b, y);
}

proof fn lemma_text_unique(s: Seq<char>, x: Seq<u8>, t: Seq<char>, y: Seq<u8>)
    requires
        quoted(s) + x == quoted(t) + y,
    ensures
        s == t,
        x == y,
{
    broadcast use vstd::utf8::encode_utf8_decode_utf8;

    lemma_quoted_unique(encode_utf8(s), x, encode_utf8(t), y);
    assert(decode_utf8(encode_utf8(s)) == s);
}

pub(crate) proof fn lemma_cancel_front(p: Seq<u8>, x: Seq<u8>, y: Seq<u8>)
    requires
        p + x == p + y,
    ensures
        x == y,
{
    assert(x =~= (p + x).subrange(p.len() as int, (p + x).len() as int));
    assert(y =~= (p + y).subrange(p.len() as int, (p + y).len() as int));
}

proof fn lemma_exit_code_unique(c: Option<i32>, d: Option<i32>)
    requires
        exit_code_text(c) + closing() == exit_code_text(d) + closing(),
    ensures
        c == d,
{
    let x = exit_code_text(c);
    let y = exit_code_text(d);
    assert((x + closing()).len() == x.len() + 2);
    assert((y + closing()).len() == y.len() + 2);
    assert(x =~= (x + closing()).subrange(0, x.len() as int));
    assert(y =~= (y + closing()).subrange(0, y.len() as int));
    assert(x == y);
    match (c, d) {
        (Some(n), Some(m)) => {
            let a: nat = if n < 0 { (-(n as int)) as nat } else { n as nat };
            let b: nat = if m < 0 { (-(m as int)) as nat } else { m as nat };
            lemma_digit_text(a);
            lemma_digit_text(b);
            let da = digit_text(a);
            let db = digit_text(b);
            if n < 0 {
                assert(x[0] == 45);
            } else {
                assert(x[0] == da[0]);
            }
            if m < 0 {
                assert(y[0] == 45);
            } else {
                assert(y[0] == db[0]);
            }
            if n < 0 {
                assert(da =~= x.drop_first());
                assert(db =~= y.drop_first());
            }
            assert(da == db);
            assert(da.subrange(0, da.len() as int) =~= da);
            lemma_digits_value(da, 0, a);
            lemma_digits_value(da, 0, b);
        },
        (Some(n), None) => {
            let a: nat = if n < 0 { (-(n as int)) as nat } else { n as nat };
            lemma_digit_text(a);
            if n >= 0 {
                assert(x[0] == digit_text(a)[0]);
            }
            assert(y[0] == 110);
        },
        (None, Some(m)) => {
            let b: nat = if m < 0 { (-(m as int)) as nat } else { m as nat };
            lemma_digit_text(b);
            if m >= 0 {
                assert(y[0] == digit_text(b)[0]);
            }
            assert(x[0] == 110);
        },
        (None, None) => {},
    }
}

proof fn lemma_tag(v: MessageView)
    ensures
        wire(v)[2] == match v {
            MessageView::Command { .. } => 67u8,
            MessageView::Response { .. } => 82u8,
            MessageView::Error { .. } => 69u8,
        },
{
    match v {
        MessageView::Command { command } => {
            assert(wire(v)[2] == command_head()[2]);
        },
        MessageView::Response { success, stdout, stderr, exit_code } => {
            assert(wire(v)[2] == response_head()[2]);
        },
        MessageView::Error { message } => {
            assert(wire(v)[2] == error_head()[2]);
        },
    }
}

/// No two messages share an encoding. With the contracts of `to_bytes` and
/// `from_bytes` this is the round trip: decoding the bytes of any message
/// gives that message back.
pub proof fn lemma_wire_injective(v: MessageView, w: MessageView)
    requires
        wire(v) == wire(w),
    ensures
        v == w,
{
    lemma_tag(v);
    lemma_tag(w);
    match (v, w) {
        (MessageView::Command { command: a }, MessageView::Command { command: b }) => {
            lemma_cancel_front(command_head(), quoted(a) + closing(), quoted(b) + closing());
            lemma_text_unique(a, closing(), b, closing());
            assert(v == w);
        },
        (MessageView::Error { message: a }, MessageView::Error { message: b }) => {
            lemma_cancel_front(error_head(), quoted(a) + closing(), quoted(b) + closing());
            lemma_text_unique(a, closing(), b, closing());
        },
        (
            MessageView::Response { success: s1, stdout: o1, stderr: e1, exit_code: c1 },
            MessageView::Response { success: s2, stdout: o2, stderr: e2, exit_code: c2 },
        ) => {
            let t3 = |o: Seq<char>, e: Seq<char>, c: Option<i32>|
                quoted(o) + (stderr_key() + (quoted(e) + (exit_code_key() + (exit_code_text(c)
                    + closing()))));
            let t5 = |e: Seq<char>, c: Option<i32>|
                quoted(e) + (exit_code_key() + (exit_code_text(c) + closing()));
            lemma_cancel_front(
                response_head(),
                bool_text(s1) + (stdout_key() + t3(o1, e1, c1)),
                bool_text(s2) + (stdout_key() + t3(o2, e2, c2)),
            );
            assert((bool_text(s1) + (stdout_key() + t3(o1, e1, c1)))[0] == bool_text(s1)[0]);
            assert((bool_text(s2) + (stdout_key() + t3(o2, e2, c2)))[0] == bool_text(s2)[0]);
            assert(s1 == s2);
            lemma_cancel_front(
                bool_text(s1),
                stdout_key() + t3(o1, e1, c1),
                stdout_key() + t3(o2, e2, c2),
            );
            lemma_cancel_front(stdout_key(), t3(o1, e1, c1), t3(o2, e2, c2));
            lemma_text_unique(
                o1,
                stderr_key() + t5(e1, c1),
                o2,
                stderr_key() + t5(e2, c2),
            );
            lemma_cancel_front(stderr_key(), t5(e1, c1), t5(e2, c2));
            lemma_text_unique(
                e1,
                exit_code_key() + (exit_code_text(c1) + closing()),
                e2,
                exit_code_key() + (exit_code_text(c2) + closing()),
            );
            lemma_cancel_front(
                exit_code_key(),
                exit_code_text(c1) + closing(),
                exit_code_text(c2) + closing(),
            );
            lemma_exit_code_unique(c1, c2);
            assert(v == w);
        },
        _ => {},
    }
}

impl AppMessage {
    /// The message's bytes on the wire.
    #[verifier::rlimit(80)]
    #[verifier::spinoff_prover]
    pub fn to_bytes(&self) -> (r: Vec<u8>)
        ensures
            r@ == wire(self@),
    {
        let mut out: Vec<u8> = Vec::new();
        match self {
            AppMessage::Command { command } => {
                append_bytes(&mut out, command_head_bytes().as_slice());
                push_quoted(&mut out, command);
                append_bytes(&mut out, closing_bytes().as_slice());
            },
            AppMessage::Response { success, stdout, stderr, exit_code } => {
                append_bytes(&mut out, response_head_bytes().as_slice());
                if *success {
                    append_bytes(&mut out, true_text_bytes().as_slice());
                } else {
                    append_bytes(&mut out, false_text_bytes().as_slice());
                }
                append_bytes(&mut out, stdout_key_bytes().as_slice());
                push_quoted(&mut out, stdout);
                append_bytes(&mut out, stderr_key_bytes().as_slice());
                push_quoted(&mut out, stderr);
                append_bytes(&mut out, exit_code_key_bytes().as_slice());
                match exit_code {
                    Some(n) => push_int(&mut out, *n),
                    None => append_bytes(&mut out, null_text_bytes().as_slice()),
                }
                append_bytes(&mut out, closing_bytes().as_slice());
            },
            AppMessage::Error { message } => {
                append_bytes(&mut out, error_head_bytes().as_slice());
                push_quoted(&mut out, message);
                append_bytes(&mut out, closing_bytes().as_slice());
            },
        }
        proof {
            assert(out@ =~= wire(self@));
        }
        out
    }

    /// Decodes a message from its bytes on the wire. It succeeds exactly on
    /// the encodings of messages, and returns the message whose encoding the
    /// bytes are.
    pub fn from_bytes(bytes: &[u8]) -> (r: Result<AppMessage, ProtocolError>)
        ensures
            match r {
                Ok(m) => wire(m@) == bytes@,
                Err(e) => (forall|v: MessageView| wire(v) != bytes@) && e is Serialization,
            },
            forall|v: MessageView| wire(v) == bytes@ ==> (r matches Ok(m) && m@ == v),
    {
        let ghost target = if exists|v: MessageView| wire(v) == bytes@ {
            choose|v: MessageView| wire(v) == bytes@
        } else {
            MessageView::Error { message: Seq::empty() }
        };
        match parse_message(bytes, Ghost(target)) {
            Some(m) => {
                let encoded = m.to_bytes();
                if same_bytes(encoded.as_slice(), bytes) {
                    proof {
                        assert forall|v: MessageView| wire(v) == bytes@ implies m@ == v by {
                            lemma_wire_injective(m@, v);
                        }
                    }
                    Ok(m)
                } else {
                    Err(ProtocolError::Serialization("not the encoding of a message".to_string()))
                }
            },
            None => Err(ProtocolError::Serialization("not the encoding of a message".to_string())),
        }
    }
}

} // verus!
