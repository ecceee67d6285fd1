use vstd::prelude::*;
use vstd::utf8::{encode_utf8, decode_utf8, valid_utf8, encode_scalar, leading_byte_width_1};
use crate::codec::int_text;

verus! {

/// Characters that stand for ASCII bytes, one for one.
pub open spec fn ascii_chars(b: Seq<u8>) -> Seq<char> {
    b.map_values(|x: u8| x as char)
}

/// The decimal text of an integer, as characters.
pub open spec fn int_chars(n: int) -> Seq<char> {
    ascii_chars(int_text(n))
}

pub proof fn lemma_encode_concat(a: Seq<char>, b: Seq<char>)
    ensures
        encode_utf8(a + b) == encode_utf8(a) + encode_utf8(b),
    decreases a.len(),
{
    if a.len() == 0 {
        assert(a + b =~= b);
        assert(encode_utf8(a) + encode_utf8(b) =~= encode_utf8(b));
    } else {
        assert((a + b).drop_first() =~= a.drop_first() + b);
        lemma_encode_concat(a.drop_first(), b);
        assert(encode_utf8(a + b) =~= encode_utf8(a) + encode_utf8(b));
    }
}

proof fn lemma_leading_byte(x: u8)
    requires
        x < 128,
    ensures
        leading_byte_width_1(x as u32) == x,
{
    assert(((x as u32) & 0x7f) as u8 == x) by (bit_vector)
        requires
            x < 128,
    ;
}

proof fn lemma_encode_ascii(b: Seq<u8>)
    requires
        forall|i: int| 0 <= i < b.len() ==> #[trigger] b[i] < 128,
    ensures
        encode_utf8(ascii_chars(b)) == b,
    decreases b.len(),
{
    if b.len() > 0 {
        let c = ascii_chars(b);
        assert(c.drop_first() =~= ascii_chars(b.drop_first()));
        lemma_encode_ascii(b.drop_first());
        assert((b[0] as char) as u32 == b[0] as u32);
        lemma_leading_byte(b[0]);
        assert(encode_scalar(c[0] as u32) =~= seq![b[0]]);
        assert(encode_utf8(c) =~= b);
    } else {
        assert(ascii_chars(b) =~= Seq::<char>::empty());
    }
}

proof fn lemma_int_text_ascii(n: int)
    ensures
        forall|i: int| 0 <= i < int_text(n).len() ==> #[trigger] int_text(n)[i] < 128,
{
    let m: nat = if n < 0 {
        (-n) as nat
    } else {
        n as nat
    };
    crate::codec::lemma_digit_text(m);
    if n < 0 {
        assert forall|i: int| 0 <= i < int_text(n).len() implies #[trigger] int_text(n)[i] < 128 by {
            if i > 0 {
                assert(int_text(n)[i] == crate::codec::digit_text(m)[i - 1]);
            }
        }
    }
}

/// Builds UTF-8 text piece by piece; `chars` is the text so far.
pub(crate) struct TextBuf {
    pub(crate) bytes: Vec<u8>,
    pub(crate) chars: Ghost<Seq<char>>,
}

impl TextBuf {
    pub(crate) open spec fn text(&self) -> Seq<char> {
        self.chars@
    }

    pub(crate) open spec fn wf(&self) -> bool {
        self.bytes@ == encode_utf8(self.chars@)
    }

    pub(crate) fn new() -> (r: Self)
        ensures
            r.wf(),
            r.text() == Seq::<char>::empty(),
    {
        TextBuf { bytes: Vec::new(), chars: Ghost(Seq::empty()) }
    }

    pub(crate) fn push_str(&mut self, s: &str)
        requires
            old(self).wf(),
        ensures
            final(self).wf(),
            final(self).text() == old(self).text() + s@,
    {
        let b = s.as_bytes();
        let mut i: usize = 0;
        let ghost start = self.bytes@;
        while i < b.len()
            invariant
                i <= b@.len(),
                b@ == encode_utf8(s@),
                self.bytes@ == start + b@.take(i as int),
                self.chars == old(self).chars,
                start == old(self).bytes@,
            decreases b@.len() - i,
        {
            proof {
                assert(b@.take(i + 1) =~= b@.take(i as int).push(b@[i as int]));
            }
            self.bytes.push(b[i]);
            i = i + 1;
        }
        proof {
            assert(b@.take(i as int) =~= b@);
            lemma_encode_concat(self.chars@, s@);
        }
        self.chars = Ghost(self.chars@ + s@);
    }

    pub(crate) fn push_int(&mut self, n: i32)
        requires
            old(self).wf(),
        ensures
            final(self).wf(),
            final(self).text() == old(self).text() + int_chars(n as int),
    {
        crate::codec::push_int(&mut self.bytes, n);
        proof {
            lemma_int_text_ascii(n as int);
            lemma_encode_ascii(int_text(n as int));
            lemma_encode_concat(self.chars@, int_chars(n as int));
        }
        self.chars = Ghost(self.chars@ + int_chars(n as int));
    }

    pub(crate) fn finish(self) -> (r: String)
        requires
            self.wf(),
        ensures
            r@ == self.text(),
    {
        proof {
            broadcast use vstd::utf8::encode_utf8_valid_utf8, vstd::utf8::encode_utf8_decode_utf8;
        }
        match crate::codec::utf8_text(self.bytes) {
            Some(s) => s,
            None => String::new(),
        }
    }
}

} // verus!
