//! The laws that hold of every type implementing the serialization
//! capability, stated once over the capability's specification functions.

use vstd::prelude::*;
use crate::serializable::DecodeError;
use crate::serializable::Serializable;

verus! {

/// Round-trip law: decoding the encoding of any well-formed value yields the
/// value back, consuming the whole encoding.
pub proof fn lemma_round_trip<T: Serializable>(v: T::V)
    requires
        T::wf(v),
    ensures
        T::spec_deserialize(T::spec_serialize(v)) == Ok::<(T::V, int), DecodeError>(
            (v, T::spec_serialize(v).len() as int),
        ),
{
    T::lemma_serialize_deserialize(v, Seq::<u8>::empty());
    assert(T::spec_serialize(v) + Seq::<u8>::empty() =~= T::spec_serialize(v));
}

/// Exact consumption: a successful decode never consumes more than the input
/// window holds, and consumes exactly the length of a re-encoding of the
/// decoded value.
pub proof fn lemma_exact_consumption<T: Serializable>(data: Seq<u8>)
    ensures
        match T::spec_deserialize(data) {
            Ok((v, n)) => 0 <= n <= data.len() && n == T::spec_serialize(v).len(),
            Err(_) => true,
        },
{
    T::lemma_deserialize_prefix(data);
}

/// Truncation safety: decoding any proper prefix of a valid encoding fails
/// with a truncated-input error, never with a wrong value.
pub proof fn lemma_truncation_safety<T: Serializable>(v: T::V, n: int)
    requires
        T::wf(v),
        0 <= n < T::spec_serialize(v).len(),
    ensures
        T::spec_deserialize(T::spec_serialize(v).subrange(0, n)) == Err::<(T::V, int), DecodeError>(
            DecodeError::TruncatedInput,
        ),
{
    T::lemma_truncated(v, n);
}

} // verus!
