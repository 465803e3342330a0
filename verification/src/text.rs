//! The text codec: a four-byte big-endian byte length followed by that many
//! UTF-8 bytes.  [`Text`] owns a run of bytes that is meant to be valid
//! UTF-8; validity is defined here from first principles and checked by a
//! verified validator, so decoding rejects ill-formed text exactly.

use vstd::prelude::*;
use vstd::slice::slice_subrange;
use vstd::slice::slice_to_vec;
use crate::bytes::be32;
use crate::bytes::lemma_be32_of32;
use crate::bytes::lemma_of32_be32;
use crate::bytes::of32;
use crate::bytes::push_be32;
use crate::bytes::push_bytes;
use crate::bytes::read_be32;
use crate::serializable::DecodeError;
use crate::serializable::Serializable;

verus! {

/// A continuation byte of a multi-byte scalar: `10xxxxxx`.
pub open spec fn is_cont(b: u8) -> bool {
    0x80 <= b && b <= 0xBF
}

/// Well-formed UTF-8, byte by byte: each scalar is one to four bytes long,
/// overlong forms, surrogates and values past the last code point are
/// excluded by the ranges each leading byte allows its first continuation.
pub open spec fn is_utf8(s: Seq<u8>) -> bool
    decreases s.len(),
{
    if s.len() == 0 {
        true
    } else {
        let b0 = s[0];
        if b0 < 0x80 {
            is_utf8(s.skip(1))
        } else if 0xC2 <= b0 && b0 <= 0xDF {
            s.len() >= 2 && is_cont(s[1]) && is_utf8(s.skip(2))
        } else if b0 == 0xE0 {
            s.len() >= 3 && 0xA0 <= s[1] && s[1] <= 0xBF && is_cont(s[2]) && is_utf8(s.skip(3))
        } else if b0 == 0xED {
            s.len() >= 3 && 0x80 <= s[1] && s[1] <= 0x9F && is_cont(s[2]) && is_utf8(s.skip(3))
        } else if 0xE1 <= b0 && b0 <= 0xEF {
            s.len() >= 3 && is_cont(s[1]) && is_cont(s[2]) && is_utf8(s.skip(3))
        } else if b0 == 0xF0 {
            s.len() >= 4 && 0x90 <= s[1] && s[1] <= 0xBF && is_cont(s[2]) && is_cont(s[3])
                && is_utf8(s.skip(4))
        } else if 0xF1 <= b0 && b0 <= 0xF3 {
            s.len() >= 4 && is_cont(s[1]) && is_cont(s[2]) && is_cont(s[3]) && is_utf8(s.skip(4))
        } else if b0 == 0xF4 {
            s.len() >= 4 && 0x80 <= s[1] && s[1] <= 0x8F && is_cont(s[2]) && is_cont(s[3])
                && is_utf8(s.skip(4))
        } else {
            false
        }
    }
}

/// Decides [`is_utf8`] over a byte window.
pub fn check_utf8(data: &[u8]) -> (r: bool)
    ensures
        r == is_utf8(data@),
{
    let n = data.len();
    let mut i: usize = 0;
    proof {
        assert(data@.skip(0) =~= data@);
    }
    while i < n
        invariant
            n == data@.len(),
            i <= n,
            is_utf8(data@) == is_utf8(data@.skip(i as int)),
        decreases n - i,
    {
        let ghost tail = data@.skip(i as int);
        proof {
            assert(tail[0] == data@[i as int]);
        }
        let b0 = data[i];
        if b0 < 0x80 {
            proof {
                assert(tail.skip(1) =~= data@.skip(i + 1));
            }
            i = i + 1;
        } else if 0xC2 <= b0 && b0 <= 0xDF {
            if n - i < 2 {
                return false;
            }
            proof {
                assert(tail[1] == data@[i + 1]);
            }
            let b1 = data[i + 1];
            if !(0x80 <= b1 && b1 <= 0xBF) {
                return false;
            }
            proof {
                assert(tail.skip(2) =~= data@.skip(i + 2));
            }
            i = i + 2;
        } else if 0xE0 <= b0 && b0 <= 0xEF {
            if n - i < 3 {
                return false;
            }
            proof {
                assert(tail[1] == data@[i + 1] && tail[2] == data@[i + 2]);
            }
            let b1 = data[i + 1];
            let b2 = data[i + 2];
            let lo: u8 = if b0 == 0xE0 {
                0xA0
            } else {
                0x80
            };
            let hi: u8 = if b0 == 0xED {
                0x9F
            } else {
                0xBF
            };
            if !(lo <= b1 && b1 <= hi) {
                return false;
            }
            if !(0x80 <= b2 && b2 <= 0xBF) {
                return false;
            }
            proof {
                assert(tail.skip(3) =~= data@.skip(i + 3));
            }
            i = i + 3;
        } else if 0xF0 <= b0 && b0 <= 0xF4 {
            if n - i < 4 {
                return false;
            }
            proof {
                assert(tail[1] == data@[i + 1] && tail[2] == data@[i + 2] && tail[3] == data@[i
                    + 3]);
            }
            let b1 = data[i + 1];
            let b2 = data[i + 2];
            let b3 = data[i + 3];
            let lo: u8 = if b0 == 0xF0 {
                0x90
            } else {
                0x80
            };
            let hi: u8 = if b0 == 0xF4 {
                0x8F
            } else {
                0xBF
            };
            if !(lo <= b1 && b1 <= hi) {
                return false;
            }
            if !(0x80 <= b2 && b2 <= 0xBF) {
                return false;
            }
            if !(0x80 <= b3 && b3 <= 0xBF) {
                return false;
            }
            proof {
                assert(tail.skip(4) =~= data@.skip(i + 4));
            }
            i = i + 4;
        } else {
            return false;
        }
    }
    proof {
        assert(data@.skip(n as int) =~= Seq::<u8>::empty());
    }
    true
}

/// An owned run of UTF-8 text bytes.
#[derive(Debug)]
pub struct Text {
    /// The text as its UTF-8 bytes.
    pub bytes: Vec<u8>,
}

impl DeepView for Text {
    type V = Seq<u8>;

    open spec fn deep_view(&self) -> Seq<u8> {
        self.bytes@
    }
}

impl Text {
    /// The bytes a text value must hold: valid UTF-8, short enough for the
    /// four-byte length field.
    pub open spec fn spec_wf(s: Seq<u8>) -> bool {
        is_utf8(s) && s.len() <= 0xFFFF_FFFF
    }

    /// Accepts the bytes as text when they are valid UTF-8 and fit the
    /// four-byte length field.
    pub fn new(bytes: Vec<u8>) -> (r: Option<Text>)
        ensures
            match r {
                Some(t) => t.bytes@ == bytes@ && Text::spec_wf(bytes@),
                None => !Text::spec_wf(bytes@),
            },
    {
        if bytes.len() > u32::MAX as usize {
            return None;
        }
        if !check_utf8(bytes.as_slice()) {
            return None;
        }
        Some(Text { bytes })
    }
}

impl PartialEq for Text {
    fn eq(&self, other: &Self) -> (r: bool) {
        if self.bytes.len() != other.bytes.len() {
            proof {
                assert(self.bytes@ != other.bytes@);
            }
            return false;
        }
        let n = self.bytes.len();
        let mut k: usize = 0;
        while k < n
            invariant
                n == self.bytes@.len(),
                n == other.bytes@.len(),
                k <= n,
                forall|j: int| 0 <= j < k ==> self.bytes@[j] == other.bytes@[j],
            decreases n - k,
        {
            if self.bytes[k] != other.bytes[k] {
                proof {
                    assert(self.bytes@ != other.bytes@);
                }
                return false;
            }
            k = k + 1;
        }
        proof {
            assert(self.bytes@ =~= other.bytes@);
        }
        true
    }
}

impl vstd::std_specs::cmp::PartialEqSpecImpl for Text {
    open spec fn obeys_eq_spec() -> bool {
        true
    }

    open spec fn eq_spec(&self, other: &Text) -> bool {
        self.bytes@ == other.bytes@
    }
}

impl Serializable for Text {
    open spec fn wf(v: Seq<u8>) -> bool {
        Text::spec_wf(v)
    }

    open spec fn spec_serialize(v: Seq<u8>) -> Seq<u8> {
        be32(v.len() as u32) + v
    }

    open spec fn spec_deserialize(data: Seq<u8>) -> Result<(Seq<u8>, int), DecodeError> {
        if data.len() < 4 {
            Err(DecodeError::TruncatedInput)
        } else {
            let n = of32(data[0], data[1], data[2], data[3]) as int;
            if data.len() < 4 + n {
                Err(DecodeError::TruncatedInput)
            } else {
                let payload = data.subrange(4, 4 + n);
                if is_utf8(payload) {
                    Ok((payload, 4 + n))
                } else {
                    Err(DecodeError::InvalidText)
                }
            }
        }
    }

    proof fn lemma_serialize_deserialize(v: Seq<u8>, rest: Seq<u8>) {
        let lenv = v.len() as u32;
        let data = Self::spec_serialize(v) + rest;
        assert(data[0] == be32(lenv)[0] && data[1] == be32(lenv)[1] && data[2] == be32(lenv)[2]
            && data[3] == be32(lenv)[3]);
        lemma_be32_of32(lenv);
        assert(data.subrange(4, 4 + v.len() as int) =~= v);
    }

    proof fn lemma_deserialize_prefix(data: Seq<u8>) {
        if data.len() >= 4 {
            let n = of32(data[0], data[1], data[2], data[3]) as int;
            if data.len() >= 4 + n {
                let payload = data.subrange(4, 4 + n);
                if is_utf8(payload) {
                    lemma_of32_be32(data[0], data[1], data[2], data[3]);
                    assert(be32(payload.len() as u32) + payload =~= data.subrange(0, 4 + n));
                }
            }
        }
    }

    proof fn lemma_truncated(v: Seq<u8>, n: int) {
        let lenv = v.len() as u32;
        let cut = Self::spec_serialize(v).subrange(0, n);
        if n >= 4 {
            assert(cut[0] == be32(lenv)[0] && cut[1] == be32(lenv)[1] && cut[2] == be32(lenv)[2]
                && cut[3] == be32(lenv)[3]);
            lemma_be32_of32(lenv);
        }
    }

    fn serialize(&self) -> (out: Vec<u8>) {
        let mut out = Vec::new();
        push_be32(&mut out, self.bytes.len() as u32);
        push_bytes(&mut out, self.bytes.as_slice());
        out
    }

    fn deserialize(data: &[u8]) -> (r: Result<(Self, usize), DecodeError>) {
        if data.len() < 4 {
            return Err(DecodeError::TruncatedInput);
        }
        let declared = read_be32(data, 0) as usize;
        if data.len() - 4 < declared {
            return Err(DecodeError::TruncatedInput);
        }
        let payload = slice_to_vec(slice_subrange(data, 4, 4 + declared));
        if !check_utf8(payload.as_slice()) {
            return Err(DecodeError::InvalidText);
        }
        Ok((Text { bytes: payload }, 4 + declared))
    }
}

} // verus!
