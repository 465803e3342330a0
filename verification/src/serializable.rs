//! The serialization capability: every codec in this crate implements the
//! [`Serializable`] trait, which ties the executable encode and decode
//! functions to a mathematical byte-layout specification and demands proofs
//! that the layout is invertible.

use vstd::prelude::*;

verus! {

/// Why a decode failed.  Every decoder reports the first failure it meets;
/// nothing is recovered silently.
#[derive(Clone, Copy, Debug, PartialEq, Eq, Structural)]
pub enum DecodeError {
    /// The input window is shorter than the bytes required at the current
    /// decode step.
    TruncatedInput,
    /// An optional tag, an address family byte or a union variant index lies
    /// outside its valid set.
    InvalidDiscriminant,
    /// A declared run of text bytes is not valid UTF-8.
    InvalidText,
    /// A reconstructed value fails a type-specific post-condition.
    InvalidValue,
}

/// The encode/decode capability.
///
/// A type's byte layout is fixed by two specification functions over its deep
/// view: `spec_serialize` gives the exact encoding of a value, and
/// `spec_deserialize` gives the exact outcome of reading a byte window.  The
/// executable `serialize` and `deserialize` are proved to follow them, and
/// three proof obligations pin the layout down for every implementation:
///
/// - `lemma_serialize_deserialize`: decoding an encoding (with any trailing
///   bytes) yields the original value and consumes exactly the encoding;
/// - `lemma_deserialize_prefix`: whatever decodes successfully re-encodes to
///   exactly the consumed prefix of the input;
/// - `lemma_truncated`: every proper prefix of an encoding fails to decode
///   with a truncated-input error.
pub trait Serializable: Sized + DeepView {
    /// Which view values the format can represent, e.g. a text or sequence
    /// length must fit its four-byte length field.
    spec fn wf(v: Self::V) -> bool;

    /// The encoding of a value, as the byte layout defines it.
    spec fn spec_serialize(v: Self::V) -> Seq<u8>;

    /// The outcome of decoding a byte window: the decoded value and the
    /// number of leading bytes interpreted, or the first error met.
    spec fn spec_deserialize(data: Seq<u8>) -> Result<(Self::V, int), DecodeError>;

    /// Decoding an encoding followed by anything yields the encoded value
    /// back and consumes exactly the encoding; trailing bytes are ignored.
    proof fn lemma_serialize_deserialize(v: Self::V, rest: Seq<u8>)
        requires
            Self::wf(v),
        ensures
            Self::spec_deserialize(Self::spec_serialize(v) + rest) == Ok::<
                (Self::V, int),
                DecodeError,
            >((v, Self::spec_serialize(v).len() as int)),
    ;

    /// Whatever decodes successfully is well formed and re-encodes to exactly
    /// the consumed prefix of the input window.
    proof fn lemma_deserialize_prefix(data: Seq<u8>)
        ensures
            match Self::spec_deserialize(data) {
                Ok((v, n)) => Self::wf(v) && 0 <= n <= data.len() && Self::spec_serialize(v)
                    == data.subrange(0, n),
                Err(_) => true,
            },
    ;

    /// Decoding a proper prefix of an encoding fails with a truncated-input
    /// error: no wrong value is ever produced from cut-off input.
    proof fn lemma_truncated(v: Self::V, n: int)
        requires
            Self::wf(v),
            0 <= n < Self::spec_serialize(v).len(),
        ensures
            Self::spec_deserialize(Self::spec_serialize(v).subrange(0, n)) == Err::<
                (Self::V, int),
                DecodeError,
            >(DecodeError::TruncatedInput),
    ;

    /// Returns the serialized value as a vector of bytes.
    fn serialize(&self) -> (out: Vec<u8>)
        requires
            Self::wf(self.deep_view()),
        ensures
            out@ == Self::spec_serialize(self.deep_view()),
    ;

    /// Returns the deserialized value and the number of bytes read.
    fn deserialize(data: &[u8]) -> (r: Result<(Self, usize), DecodeError>)
        ensures
            match r {
                Ok(p) => Self::spec_deserialize(data@) == Ok::<(Self::V, int), DecodeError>(
                    (p.0.deep_view(), p.1 as int),
                ) && p.1 <= data@.len(),
                Err(e) => Self::spec_deserialize(data@) == Err::<(Self::V, int), DecodeError>(e),
            },
    ;
}

/// Reads one encoded value off the front of a longer window: the decoder
/// returns the value and, after skipping what it consumed, exactly the
/// remaining bytes are left.
pub proof fn lemma_chunk_reads<T: Serializable>(v: T::V, rest: Seq<u8>)
    requires
        T::wf(v),
    ensures
        T::spec_deserialize(T::spec_serialize(v) + rest) == Ok::<(T::V, int), DecodeError>(
            (v, T::spec_serialize(v).len() as int),
        ),
        (T::spec_serialize(v) + rest).skip(T::spec_serialize(v).len() as int) == rest,
{
    T::lemma_serialize_deserialize(v, rest);
    assert((T::spec_serialize(v) + rest).skip(T::spec_serialize(v).len() as int) =~= rest);
}

/// Cutting a window that starts with an encoding: a cut inside the encoding
/// makes the decoder fail with a truncated-input error, while a cut at or
/// past its end leaves the decoder untouched and cuts only the remainder.
pub proof fn lemma_chunk_prefix<T: Serializable>(v: T::V, rest: Seq<u8>, n: int)
    requires
        T::wf(v),
        0 <= n <= T::spec_serialize(v).len() + rest.len(),
    ensures
        n < T::spec_serialize(v).len() ==> T::spec_deserialize(
            (T::spec_serialize(v) + rest).subrange(0, n),
        ) == Err::<(T::V, int), DecodeError>(DecodeError::TruncatedInput),
        n >= T::spec_serialize(v).len() ==> T::spec_deserialize(
            (T::spec_serialize(v) + rest).subrange(0, n),
        ) == Ok::<(T::V, int), DecodeError>((v, T::spec_serialize(v).len() as int)),
        n >= T::spec_serialize(v).len() ==> (T::spec_serialize(v) + rest).subrange(0, n).skip(
            T::spec_serialize(v).len() as int,
        ) == rest.subrange(0, n - T::spec_serialize(v).len()),
{
    let e = T::spec_serialize(v);
    if n < e.len() {
        assert((e + rest).subrange(0, n) =~= e.subrange(0, n));
        T::lemma_truncated(v, n);
    } else {
        let tail = rest.subrange(0, n - e.len());
        assert((e + rest).subrange(0, n) =~= e + tail);
        T::lemma_serialize_deserialize(v, tail);
        assert((e + tail).skip(e.len() as int) =~= tail);
    }
}

} // verus!
