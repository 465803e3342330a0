//! The absolute-time codec.  An instant is held as a whole-second count
//! since a fixed epoch and laid out as eight big-endian bytes; instants
//! before the epoch are not representable.

use vstd::prelude::*;
use crate::bytes::be64;
use crate::bytes::lemma_be64_of64;
use crate::bytes::lemma_of64_be64;
use crate::bytes::of64;
use crate::bytes::push_be64;
use crate::bytes::read_be64;
use crate::serializable::DecodeError;
use crate::serializable::Serializable;

verus! {

/// An absolute instant: whole seconds since the epoch.
#[derive(Clone, Copy, Debug, PartialEq, Eq, Structural)]
pub struct Timestamp {
    /// Whole seconds since the epoch.
    pub secs: u64,
}

impl DeepView for Timestamp {
    type V = Timestamp;

    open spec fn deep_view(&self) -> Timestamp {
        *self
    }
}

impl Serializable for Timestamp {
    open spec fn wf(v: Timestamp) -> bool {
        true
    }

    open spec fn spec_serialize(v: Timestamp) -> Seq<u8> {
        be64(v.secs)
    }

    open spec fn spec_deserialize(data: Seq<u8>) -> Result<(Timestamp, int), DecodeError> {
        if data.len() < 8 {
            Err(DecodeError::TruncatedInput)
        } else {
            Ok(
                (
                    Timestamp {
                        secs: of64(
                            data[0],
                            data[1],
                            data[2],
                            data[3],
                            data[4],
                            data[5],
                            data[6],
                            data[7],
                        ),
                    },
                    8,
                ),
            )
        }
    }

    proof fn lemma_serialize_deserialize(v: Timestamp, rest: Seq<u8>) {
        let data = be64(v.secs) + rest;
        assert(forall|i: int| 0 <= i < 8 ==> data[i] == be64(v.secs)[i]);
        lemma_be64_of64(v.secs);
    }

    proof fn lemma_deserialize_prefix(data: Seq<u8>) {
        if data.len() >= 8 {
            lemma_of64_be64(
                data[0],
                data[1],
                data[2],
                data[3],
                data[4],
                data[5],
                data[6],
                data[7],
            );
            assert(be64(
                of64(data[0], data[1], data[2], data[3], data[4], data[5], data[6], data[7]),
            ) =~= data.subrange(0, 8));
        }
    }

    proof fn lemma_truncated(v: Timestamp, n: int) {
    }

    fn serialize(&self) -> (out: Vec<u8>) {
        let mut out = Vec::new();
        push_be64(&mut out, self.secs);
        proof {
            assert(out@ =~= be64(self.secs));
        }
        out
    }

    fn deserialize(data: &[u8]) -> (r: Result<(Self, usize), DecodeError>) {
        if data.len() < 8 {
            Err(DecodeError::TruncatedInput)
        } else {
            Ok((Timestamp { secs: read_be64(data, 0) }, 8))
        }
    }
}

} // verus!
