//! The xtext encoding of RFC 3461: printable ASCII with `+HH` hex escapes.

use vstd::prelude::*;

use crate::bytebuf::{
    bytes_as_slice, bytes_mut_freeze, bytes_mut_new, bytes_mut_push, bytes_mut_view, bytes_view,
};
use crate::error::Error;
use crate::{is_xchar, spec_is_xchar};

verus! {

/// `+`, the escape byte of xtext.
pub const PLUS: u8 = 0x2b;

/// An ASCII hex digit, either case.
pub open spec fn spec_is_hex_digit(c: u8) -> bool {
    (0x30 <= c <= 0x39) || (0x41 <= c <= 0x46) || (0x61 <= c <= 0x66)
}

/// The value of an ASCII hex digit.
pub open spec fn spec_hex_val(c: u8) -> u8 {
    if 0x30 <= c <= 0x39 {
        (c - 0x30) as u8
    } else if 0x41 <= c <= 0x46 {
        (c - 0x41 + 10) as u8
    } else if 0x61 <= c <= 0x66 {
        (c - 0x61 + 10) as u8
    } else {
        0
    }
}

/// The upper-case ASCII hex digit of a value below 16.
pub open spec fn spec_encode_hex(v: u8) -> u8 {
    if v < 10 {
        (0x30 + v) as u8
    } else {
        (0x41 + v - 10) as u8
    }
}

/// A valid xtext string: a `+` always opens a three-byte `+HH` escape, any
/// other byte must be an xchar.  The empty string is valid.
pub open spec fn spec_is_xtext(s: Seq<u8>) -> bool
    decreases s.len(),
{
    if s.len() == 0 {
        true
    } else if s[0] == PLUS {
        s.len() >= 3 && spec_is_hex_digit(s[1]) && spec_is_hex_digit(s[2]) && spec_is_xtext(
            s.skip(3),
        )
    } else {
        spec_is_xchar(s[0]) && spec_is_xtext(s.skip(1))
    }
}

/// The bytes denoted by an xtext string: each `+HH` escape stands for one
/// byte, every other byte stands for itself.
pub open spec fn spec_xtext_decode(s: Seq<u8>) -> Seq<u8>
    decreases s.len(),
{
    if s.len() == 0 {
        Seq::<u8>::empty()
    } else if s[0] == PLUS && s.len() >= 3 {
        seq![(spec_hex_val(s[1]) * 16 + spec_hex_val(s[2])) as u8] + spec_xtext_decode(s.skip(3))
    } else {
        seq![s[0]] + spec_xtext_decode(s.skip(1))
    }
}

/// The xtext encoding of one raw byte.
pub open spec fn spec_xtext_encode1(b: u8) -> Seq<u8> {
    if spec_is_xchar(b) {
        seq![b]
    } else {
        seq![PLUS, spec_encode_hex(b / 16), spec_encode_hex(b % 16)]
    }
}

/// The xtext encoding of a raw byte string: xchars stand for themselves,
/// every other byte becomes a `+HH` escape.
pub open spec fn spec_xtext_encode(s: Seq<u8>) -> Seq<u8>
    decreases s.len(),
{
    if s.len() == 0 {
        Seq::<u8>::empty()
    } else {
        spec_xtext_encode1(s[0]) + spec_xtext_encode(s.skip(1))
    }
}

/// Encoding distributes over concatenation.
pub proof fn lemma_xtext_encode_append(a: Seq<u8>, b: Seq<u8>)
    ensures
        spec_xtext_encode(a + b) == spec_xtext_encode(a) + spec_xtext_encode(b),
    decreases a.len(),
{
    if a.len() == 0 {
        assert(a + b =~= b);
        assert(spec_xtext_encode(a) + spec_xtext_encode(b) =~= spec_xtext_encode(b));
    } else {
        lemma_xtext_encode_append(a.skip(1), b);
        assert((a + b).skip(1) =~= a.skip(1) + b);
        assert(spec_xtext_encode(a + b) =~= spec_xtext_encode1(a[0]) + spec_xtext_encode(
            a.skip(1) + b,
        ));
        assert(spec_xtext_encode1(a[0]) + (spec_xtext_encode(a.skip(1)) + spec_xtext_encode(b))
            =~= spec_xtext_encode(a) + spec_xtext_encode(b));
    }
}

/// Encoding always yields a valid xtext string.
pub proof fn lemma_xtext_encode_wf(s: Seq<u8>)
    ensures
        spec_is_xtext(spec_xtext_encode(s)),
    decreases s.len(),
{
    if s.len() > 0 {
        lemma_xtext_encode_wf(s.skip(1));
        let e = spec_xtext_encode(s);
        let rest = spec_xtext_encode(s.skip(1));
        if spec_is_xchar(s[0]) {
            assert(e =~= seq![s[0]] + rest);
            assert(e.skip(1) =~= rest);
        } else {
            assert(e.skip(3) =~= rest);
        }
    }
}

/// Decoding an encoded string recovers the raw bytes: the round-trip law of
/// the xtext codec.
pub proof fn lemma_xtext_round_trip(raw: Seq<u8>)
    ensures
        spec_xtext_decode(spec_xtext_encode(raw)) == raw,
    decreases raw.len(),
{
    if raw.len() == 0 {
        assert(spec_xtext_decode(spec_xtext_encode(raw)) =~= raw);
    } else {
        lemma_xtext_round_trip(raw.skip(1));
        let b = raw[0];
        let e = spec_xtext_encode(raw);
        let rest = spec_xtext_encode(raw.skip(1));
        if spec_is_xchar(b) {
            assert(e =~= seq![b] + rest);
            assert(e.skip(1) =~= rest);
            assert(spec_xtext_decode(e) =~= seq![b] + raw.skip(1));
        } else {
            assert(e.skip(3) =~= rest);
            assert(spec_hex_val(spec_encode_hex(b / 16)) == b / 16);
            assert(spec_hex_val(spec_encode_hex(b % 16)) == b % 16);
            assert((b / 16) * 16 + b % 16 == b) by (nonlinear_arith);
            assert(spec_xtext_decode(e) =~= seq![b] + raw.skip(1));
        }
        assert(seq![b] + raw.skip(1) =~= raw);
    }
}

/// Encode a value below 16 as an upper-case hex digit.
pub fn encode_hex(byte: u8) -> (r: u8)
    requires
        byte < 16,
    ensures
        r == spec_encode_hex(byte),
{
    if byte < 10 {
        0x30 + byte
    } else {
        0x41 + (byte - 10)
    }
}

/// Decode an ASCII hex digit into its value.
pub fn decode_hex(c: u8) -> (r: u8)
    requires
        spec_is_hex_digit(c),
    ensures
        r == spec_hex_val(c),
{
    if 0x30 <= c && c <= 0x39 {
        c - 0x30
    } else if 0x41 <= c && c <= 0x46 {
        c - 0x41 + 10
    } else {
        c - 0x61 + 10
    }
}

/// Classify an ASCII hex digit, either case.
pub fn is_hex_digit(c: u8) -> (r: bool)
    ensures
        r == spec_is_hex_digit(c),
{
    (0x30 <= c && c <= 0x39) || (0x41 <= c && c <= 0x46) || (0x61 <= c && c <= 0x66)
}

/// An xtext string as defined in RFC 3461, validated at construction.
#[derive(Debug)]
pub struct XText(bytes::Bytes);

impl View for XText {
    type V = Seq<u8>;

    closed spec fn view(&self) -> Seq<u8> {
        bytes_view(self.0)
    }
}

impl XText {
    /// The bytes are a valid xtext string.
    pub open spec fn wf(&self) -> bool {
        spec_is_xtext(self@)
    }

    /// Validate `input` as an xtext string.
    pub fn parse(input: bytes::Bytes) -> (r: Result<XText, Error>)
        ensures
            match r {
                Ok(x) => spec_is_xtext(bytes_view(input)) && x@ == bytes_view(input) && x.wf(),
                Err(e) => !spec_is_xtext(bytes_view(input)) && e == Error::InvalidSyntax,
            },
    {
        let s = bytes_as_slice(&input);
        let ghost whole = bytes_view(input);
        proof {
            assert(whole.skip(0) =~= whole);
        }
        let mut i: usize = 0;
        while i < s.len()
            invariant
                0 <= i <= whole.len(),
                s@ == whole,
                whole == bytes_view(input),
                spec_is_xtext(whole) <==> spec_is_xtext(whole.skip(i as int)),
            decreases whole.len() - i,
        {
            let ghost before = whole.skip(i as int);
            if s[i] == PLUS {
                if s.len() - i > 3 - 1 && is_hex_digit(s[i + 1]) && is_hex_digit(s[i + 2]) {
                    proof {
                        assert(before[0] == PLUS && before[1] == whole[i + 1] && before[2]
                            == whole[i + 2]);
                        assert(before.skip(3) =~= whole.skip(i + 3));
                    }
                    i = i + 3;
                } else {
                    proof {
                        assert(before[0] == PLUS);
                        if i + 2 < whole.len() {
                            assert(before.len() >= 3 && before[1] == whole[i + 1] && before[2]
                                == whole[i + 2]);
                        }
                        assert(!spec_is_xtext(before));
                    }
                    return Err(Error::InvalidSyntax);
                }
            } else if is_xchar(s[i]) {
                proof {
                    assert(before[0] == whole[i as int]);
                    assert(before.skip(1) =~= whole.skip(i + 1));
                }
                i = i + 1;
            } else {
                proof {
                    assert(before[0] == whole[i as int]);
                    assert(!spec_is_xtext(before));
                }
                return Err(Error::InvalidSyntax);
            }
        }
        proof {
            assert(whole.skip(i as int) =~= Seq::<u8>::empty());
        }
        Ok(XText(input))
    }

    /// A reference to the validated bytes.
    pub fn bytes(&self) -> (r: &bytes::Bytes)
        ensures
            bytes_view(*r) == self@,
    {
        &self.0
    }

    /// Consume the `XText`, returning the validated bytes.
    pub fn into_bytes(self) -> (r: bytes::Bytes)
        ensures
            bytes_view(r) == self@,
    {
        self.0
    }

    /// Wrap bytes without validating.  The caller owes the xtext grammar.
    pub fn new_unchecked(bytes: bytes::Bytes) -> (r: XText)
        requires
            spec_is_xtext(bytes_view(bytes)),
        ensures
            r@ == bytes_view(bytes),
            r.wf(),
    {
        XText(bytes)
    }

    /// Append the decoded raw bytes to `buf`.
    pub fn decode_into(&self, buf: &mut bytes::BytesMut)
        requires
            self.wf(),
        ensures
            bytes_mut_view(*final(buf)) == bytes_mut_view(*old(buf)) + spec_xtext_decode(self@),
    {
        let s = bytes_as_slice(&self.0);
        let ghost whole = self@;
        let ghost base = bytes_mut_view(*old(buf));
        proof {
            assert(whole.skip(0) =~= whole);
        }
        let mut i: usize = 0;
        while i < s.len()
            invariant
                0 <= i <= whole.len(),
                s@ == whole,
                spec_is_xtext(whole.skip(i as int)),
                base + spec_xtext_decode(whole) =~= bytes_mut_view(*buf) + spec_xtext_decode(
                    whole.skip(i as int),
                ),
            decreases whole.len() - i,
        {
            let ghost before = whole.skip(i as int);
            if s.len() - i > 3 - 1 && s[i] == PLUS {
                proof {
                    assert(before[0] == PLUS && before[1] == whole[i + 1] && before[2] == whole[i
                        + 2]);
                    assert(before.skip(3) =~= whole.skip(i + 3));
                }
                let high = decode_hex(s[i + 1]);
                let low = decode_hex(s[i + 2]);
                bytes_mut_push(buf, high * 16 + low);
                i = i + 3;
            } else {
                proof {
                    assert(before[0] == whole[i as int]);
                    if before[0] == PLUS {
                        // A trailing escape shorter than three bytes would
                        // contradict well-formedness.
                        assert(before.len() >= 3);
                        assert(i + 2 < whole.len());
                        assert(false);
                    }
                    assert(before.skip(1) =~= whole.skip(i + 1));
                }
                bytes_mut_push(buf, s[i]);
                i = i + 1;
            }
        }
        proof {
            assert(whole.skip(i as int) =~= Seq::<u8>::empty());
            assert(bytes_mut_view(*buf) =~= base + spec_xtext_decode(whole));
        }
    }

    /// The decoded raw bytes, in a fresh buffer.
    pub fn decode(&self) -> (r: bytes::BytesMut)
        requires
            self.wf(),
        ensures
            bytes_mut_view(r) == spec_xtext_decode(self@),
    {
        let mut buf = bytes_mut_new();
        self.decode_into(&mut buf);
        proof {
            assert(Seq::<u8>::empty() + spec_xtext_decode(self@) =~= spec_xtext_decode(self@));
        }
        buf
    }

    /// Encode raw bytes as an xtext string.
    pub fn encode(input: &bytes::Bytes) -> (r: XText)
        ensures
            r@ == spec_xtext_encode(bytes_view(*input)),
            r.wf(),
    {
        let s = bytes_as_slice(input);
        let ghost whole = bytes_view(*input);
        let mut out = bytes_mut_new();
        proof {
            assert(whole.take(0) =~= Seq::<u8>::empty());
            assert(bytes_mut_view(out) =~= spec_xtext_encode(whole.take(0)));
        }
        let mut i: usize = 0;
        while i < s.len()
            invariant
                0 <= i <= whole.len(),
                s@ == whole,
                bytes_mut_view(out) == spec_xtext_encode(whole.take(i as int)),
            decreases whole.len() - i,
        {
            let b = s[i];
            proof {
                lemma_xtext_encode_append(whole.take(i as int), seq![whole[i as int]]);
                assert(seq![whole[i as int]].skip(1) =~= Seq::<u8>::empty());
                assert(whole.take(i as int) + seq![whole[i as int]] =~= whole.take(i + 1));
                assert(spec_xtext_encode(seq![b]) =~= spec_xtext_encode1(b) + spec_xtext_encode(
                    Seq::<u8>::empty(),
                ));
                assert(spec_xtext_encode1(b) + Seq::<u8>::empty() =~= spec_xtext_encode1(b));
            }
            if is_xchar(b) {
                bytes_mut_push(&mut out, b);
                proof {
                    assert(bytes_mut_view(out) =~= spec_xtext_encode(whole.take(i + 1)));
                }
            } else {
                bytes_mut_push(&mut out, PLUS);
                bytes_mut_push(&mut out, encode_hex(b / 16));
                bytes_mut_push(&mut out, encode_hex(b % 16));
                proof {
                    assert(bytes_mut_view(out) =~= spec_xtext_encode(whole.take(i + 1)));
                }
            }
            i = i + 1;
        }
        proof {
            assert(whole.take(i as int) =~= whole);
            lemma_xtext_encode_wf(whole);
        }
        XText(bytes_mut_freeze(out))
    }
}

} // verus!
