//! Codecs for the atomic types: booleans and the signed and unsigned
//! integers of 8 to 128 bits.  Every multi-byte integer is laid out
//! big-endian with no padding; a signed value is laid out as its
//! two's-complement bit pattern.

use vstd::prelude::*;
use crate::bytes::be128;
use crate::bytes::be16;
use crate::bytes::be32;
use crate::bytes::be64;
use crate::bytes::lemma_be128_of128;
use crate::bytes::lemma_be16_of16;
use crate::bytes::lemma_be32_of32;
use crate::bytes::lemma_be64_of64;
use crate::bytes::lemma_of128_be128;
use crate::bytes::lemma_of16_be16;
use crate::bytes::lemma_of32_be32;
use crate::bytes::lemma_of64_be64;
use crate::bytes::of128;
use crate::bytes::of16;
use crate::bytes::of32;
use crate::bytes::of64;
use crate::bytes::push_be128;
use crate::bytes::push_be16;
use crate::bytes::push_be32;
use crate::bytes::push_be64;
use crate::bytes::read_be128;
use crate::bytes::read_be16;
use crate::bytes::read_be32;
use crate::bytes::read_be64;
use crate::serializable::DecodeError;
use crate::serializable::Serializable;

verus! {

impl Serializable for u8 {
    open spec fn wf(v: u8) -> bool {
        true
    }

    open spec fn spec_serialize(v: u8) -> Seq<u8> {
        seq![v]
    }

    open spec fn spec_deserialize(data: Seq<u8>) -> Result<(u8, int), DecodeError> {
        if data.len() < 1 {
            Err(DecodeError::TruncatedInput)
        } else {
            Ok((data[0], 1))
        }
    }

    proof fn lemma_serialize_deserialize(v: u8, rest: Seq<u8>) {
        assert((seq![v] + rest)[0] == v);
    }

    proof fn lemma_deserialize_prefix(data: Seq<u8>) {
        if data.len() >= 1 {
            assert(seq![data[0]] =~= data.subrange(0, 1));
        }
    }

    proof fn lemma_truncated(v: u8, n: int) {
    }

    fn serialize(&self) -> (out: Vec<u8>) {
        let mut out = Vec::new();
        out.push(*self);
        proof {
            assert(out@ =~= seq![*self]);
        }
        out
    }

    fn deserialize(data: &[u8]) -> (r: Result<(Self, usize), DecodeError>) {
        if data.len() < 1 {
            Err(DecodeError::TruncatedInput)
        } else {
            Ok((data[0], 1))
        }
    }
}

impl Serializable for u16 {
    open spec fn wf(v: u16) -> bool {
        true
    }

    open spec fn spec_serialize(v: u16) -> Seq<u8> {
        be16(v)
    }

    open spec fn spec_deserialize(data: Seq<u8>) -> Result<(u16, int), DecodeError> {
        if data.len() < 2 {
            Err(DecodeError::TruncatedInput)
        } else {
            Ok((of16(data[0], data[1]), 2))
        }
    }

    proof fn lemma_serialize_deserialize(v: u16, rest: Seq<u8>) {
        let data = be16(v) + rest;
        assert(data[0] == be16(v)[0] && data[1] == be16(v)[1]);
        lemma_be16_of16(v);
    }

    proof fn lemma_deserialize_prefix(data: Seq<u8>) {
        if data.len() >= 2 {
            lemma_of16_be16(data[0], data[1]);
            assert(be16(of16(data[0], data[1])) =~= data.subrange(0, 2));
        }
    }

    proof fn lemma_truncated(v: u16, n: int) {
    }

    fn serialize(&self) -> (out: Vec<u8>) {
        let mut out = Vec::new();
        push_be16(&mut out, *self);
        proof {
            assert(out@ =~= be16(*self));
        }
        out
    }

    fn deserialize(data: &[u8]) -> (r: Result<(Self, usize), DecodeError>) {
        if data.len() < 2 {
            Err(DecodeError::TruncatedInput)
        } else {
            Ok((read_be16(data, 0), 2))
        }
    }
}

impl Serializable for u32 {
    open spec fn wf(v: u32) -> bool {
        true
    }

    open spec fn spec_serialize(v: u32) -> Seq<u8> {
        be32(v)
    }

    open spec fn spec_deserialize(data: Seq<u8>) -> Result<(u32, int), DecodeError> {
        if data.len() < 4 {
            Err(DecodeError::TruncatedInput)
        } else {
            Ok((of32(data[0], data[1], data[2], data[3]), 4))
        }
    }

    proof fn lemma_serialize_deserialize(v: u32, rest: Seq<u8>) {
        let data = be32(v) + rest;
        assert(data[0] == be32(v)[0] && data[1] == be32(v)[1] && data[2] == be32(v)[2] && data[3]
            == be32(v)[3]);
        lemma_be32_of32(v);
    }

    proof fn lemma_deserialize_prefix(data: Seq<u8>) {
        if data.len() >= 4 {
            lemma_of32_be32(data[0], data[1], data[2], data[3]);
            assert(be32(of32(data[0], data[1], data[2], data[3])) =~= data.subrange(0, 4));
        }
    }

    proof fn lemma_truncated(v: u32, n: int) {
    }

    fn serialize(&self) -> (out: Vec<u8>) {
        let mut out = Vec::new();
        push_be32(&mut out, *self);
        proof {
            assert(out@ =~= be32(*self));
        }
        out
    }

    fn deserialize(data: &[u8]) -> (r: Result<(Self, usize), DecodeError>) {
        if data.len() < 4 {
            Err(DecodeError::TruncatedInput)
        } else {
            Ok((read_be32(data, 0), 4))
        }
    }
}

impl Serializable for u64 {
    open spec fn wf(v: u64) -> bool {
        true
    }

    open spec fn spec_serialize(v: u64) -> Seq<u8> {
        be64(v)
    }

    open spec fn spec_deserialize(data: Seq<u8>) -> Result<(u64, int), DecodeError> {
        if data.len() < 8 {
            Err(DecodeError::TruncatedInput)
        } else {
            Ok(
                (
                    of64(
                        data[0],
                        data[1],
                        data[2],
                        data[3],
                        data[4],
                        data[5],
                        data[6],
                        data[7],
                    ),
                    8,
                ),
            )
        }
    }

    proof fn lemma_serialize_deserialize(v: u64, rest: Seq<u8>) {
        let data = be64(v) + rest;
        assert(forall|i: int| 0 <= i < 8 ==> data[i] == be64(v)[i]);
        lemma_be64_of64(v);
    }

    proof fn lemma_deserialize_prefix(data: Seq<u8>) {
        if data.len() >= 8 {
            lemma_of64_be64(
                data[0],
                data[1],
                data[2],
                data[3],
                data[4],
                data[5],
                data[6],
                data[7],
            );
            assert(be64(
                of64(data[0], data[1], data[2], data[3], data[4], data[5], data[6], data[7]),
            ) =~= data.subrange(0, 8));
        }
    }

    proof fn lemma_truncated(v: u64, n: int) {
    }

    fn serialize(&self) -> (out: Vec<u8>) {
        let mut out = Vec::new();
        push_be64(&mut out, *self);
        proof {
            assert(out@ =~= be64(*self));
        }
        out
    }

    fn deserialize(data: &[u8]) -> (r: Result<(Self, usize), DecodeError>) {
        if data.len() < 8 {
            Err(DecodeError::TruncatedInput)
        } else {
            Ok((read_be64(data, 0), 8))
        }
    }
}

impl Serializable for u128 {
    open spec fn wf(v: u128) -> bool {
        true
    }

    open spec fn spec_serialize(v: u128) -> Seq<u8> {
        be128(v)
    }

    open spec fn spec_deserialize(data: Seq<u8>) -> Result<(u128, int), DecodeError> {
        if data.len() < 16 {
            Err(DecodeError::TruncatedInput)
        } else {
            Ok(
                (
                    of128(
                        data[0],
                        data[1],
                        data[2],
                        data[3],
                        data[4],
                        data[5],
                        data[6],
                        data[7],
                        data[8],
                        data[9],
                        data[10],
                        data[11],
                        data[12],
                        data[13],
                        data[14],
                        data[15],
                    ),
                    16,
                ),
            )
        }
    }

    proof fn lemma_serialize_deserialize(v: u128, rest: Seq<u8>) {
        let data = be128(v) + rest;
        assert(forall|i: int| 0 <= i < 16 ==> data[i] == be128(v)[i]);
        lemma_be128_of128(v);
    }

    proof fn lemma_deserialize_prefix(data: Seq<u8>) {
        if data.len() >= 16 {
            lemma_of128_be128(
                data[0],
                data[1],
                data[2],
                data[3],
                data[4],
                data[5],
                data[6],
                data[7],
                data[8],
                data[9],
                data[10],
                data[11],
                data[12],
                data[13],
                data[14],
                data[15],
            );
            assert(be128(
                of128(
                    data[0],
                    data[1],
                    data[2],
                    data[3],
                    data[4],
                    data[5],
                    data[6],
                    data[7],
                    data[8],
                    data[9],
                    data[10],
                    data[11],
                    data[12],
                    data[13],
                    data[14],
                    data[15],
                ),
            ) =~= data.subrange(0, 16));
        }
    }

    proof fn lemma_truncated(v: u128, n: int) {
    }

    fn serialize(&self) -> (out: Vec<u8>) {
        let mut out = Vec::new();
        push_be128(&mut out, *self);
        proof {
            assert(out@ =~= be128(*self));
        }
        out
    }

    fn deserialize(data: &[u8]) -> (r: Result<(Self, usize), DecodeError>) {
        if data.len() < 16 {
            Err(DecodeError::TruncatedInput)
        } else {
            Ok((read_be128(data, 0), 16))
        }
    }
}

impl Serializable for i8 {
    open spec fn wf(v: i8) -> bool {
        true
    }

    open spec fn spec_serialize(v: i8) -> Seq<u8> {
        seq![v as u8]
    }

    open spec fn spec_deserialize(data: Seq<u8>) -> Result<(i8, int), DecodeError> {
        if data.len() < 1 {
            Err(DecodeError::TruncatedInput)
        } else {
            Ok((data[0] as i8, 1))
        }
    }

    proof fn lemma_serialize_deserialize(v: i8, rest: Seq<u8>) {
        assert((seq![v as u8] + rest)[0] == v as u8);
        assert(v as u8 as i8 == v) by (bit_vector);
    }

    proof fn lemma_deserialize_prefix(data: Seq<u8>) {
        if data.len() >= 1 {
            let b = data[0];
            assert(b as i8 as u8 == b) by (bit_vector);
            assert(seq![data[0] as i8 as u8] =~= data.subrange(0, 1));
        }
    }

    proof fn lemma_truncated(v: i8, n: int) {
    }

    fn serialize(&self) -> (out: Vec<u8>) {
        let mut out = Vec::new();
        out.push(#[verifier::truncate] (*self as u8));
        proof {
            assert(out@ =~= seq![*self as u8]);
        }
        out
    }

    fn deserialize(data: &[u8]) -> (r: Result<(Self, usize), DecodeError>) {
        if data.len() < 1 {
            Err(DecodeError::TruncatedInput)
        } else {
            Ok((#[verifier::truncate] (data[0] as i8), 1))
        }
    }
}

impl Serializable for i16 {
    open spec fn wf(v: i16) -> bool {
        true
    }

    open spec fn spec_serialize(v: i16) -> Seq<u8> {
        be16(v as u16)
    }

    open spec fn spec_deserialize(data: Seq<u8>) -> Result<(i16, int), DecodeError> {
        if data.len() < 2 {
            Err(DecodeError::TruncatedInput)
        } else {
            Ok((of16(data[0], data[1]) as i16, 2))
        }
    }

    proof fn lemma_serialize_deserialize(v: i16, rest: Seq<u8>) {
        let u = v as u16;
        let data = be16(u) + rest;
        assert(data[0] == be16(u)[0] && data[1] == be16(u)[1]);
        lemma_be16_of16(u);
        assert(v as u16 as i16 == v) by (bit_vector);
    }

    proof fn lemma_deserialize_prefix(data: Seq<u8>) {
        if data.len() >= 2 {
            let u = of16(data[0], data[1]);
            assert(u as i16 as u16 == u) by (bit_vector);
            lemma_of16_be16(data[0], data[1]);
            assert(be16(of16(data[0], data[1]) as i16 as u16) =~= data.subrange(0, 2));
        }
    }

    proof fn lemma_truncated(v: i16, n: int) {
    }

    fn serialize(&self) -> (out: Vec<u8>) {
        let mut out = Vec::new();
        push_be16(&mut out, #[verifier::truncate] (*self as u16));
        proof {
            assert(out@ =~= be16(*self as u16));
        }
        out
    }

    fn deserialize(data: &[u8]) -> (r: Result<(Self, usize), DecodeError>) {
        if data.len() < 2 {
            Err(DecodeError::TruncatedInput)
        } else {
            Ok((#[verifier::truncate] (read_be16(data, 0) as i16), 2))
        }
    }
}

impl Serializable for i32 {
    open spec fn wf(v: i32) -> bool {
        true
    }

    open spec fn spec_serialize(v: i32) -> Seq<u8> {
        be32(v as u32)
    }

    open spec fn spec_deserialize(data: Seq<u8>) -> Result<(i32, int), DecodeError> {
        if data.len() < 4 {
            Err(DecodeError::TruncatedInput)
        } else {
            Ok((of32(data[0], data[1], data[2], data[3]) as i32, 4))
        }
    }

    proof fn lemma_serialize_deserialize(v: i32, rest: Seq<u8>) {
        let u = v as u32;
        let data = be32(u) + rest;
        assert(forall|i: int| 0 <= i < 4 ==> data[i] == be32(u)[i]);
        lemma_be32_of32(u);
        assert(v as u32 as i32 == v) by (bit_vector);
    }

    proof fn lemma_deserialize_prefix(data: Seq<u8>) {
        if data.len() >= 4 {
            let u = of32(data[0], data[1], data[2], data[3]);
            assert(u as i32 as u32 == u) by (bit_vector);
            lemma_of32_be32(data[0], data[1], data[2], data[3]);
            assert(be32(of32(data[0], data[1], data[2], data[3]) as i32 as u32) =~= data.subrange(
                0,
                4,
            ));
        }
    }

    proof fn lemma_truncated(v: i32, n: int) {
    }

    fn serialize(&self) -> (out: Vec<u8>) {
        let mut out = Vec::new();
        push_be32(&mut out, #[verifier::truncate] (*self as u32));
        proof {
            assert(out@ =~= be32(*self as u32));
        }
        out
    }

    fn deserialize(data: &[u8]) -> (r: Result<(Self, usize), DecodeError>) {
        if data.len() < 4 {
            Err(DecodeError::TruncatedInput)
        } else {
            Ok((#[verifier::truncate] (read_be32(data, 0) as i32), 4))
        }
    }
}

impl Serializable for i64 {
    open spec fn wf(v: i64) -> bool {
        true
    }

    open spec fn spec_serialize(v: i64) -> Seq<u8> {
        be64(v as u64)
    }

    open spec fn spec_deserialize(data: Seq<u8>) -> Result<(i64, int), DecodeError> {
        if data.len() < 8 {
            Err(DecodeError::TruncatedInput)
        } else {
            Ok(
                (
                    of64(
                        data[0],
                        data[1],
                        data[2],
                        data[3],
                        data[4],
                        data[5],
                        data[6],
                        data[7],
                    ) as i64,
                    8,
                ),
            )
        }
    }

    proof fn lemma_serialize_deserialize(v: i64, rest: Seq<u8>) {
        let u = v as u64;
        let data = be64(u) + rest;
        assert(forall|i: int| 0 <= i < 8 ==> data[i] == be64(u)[i]);
        lemma_be64_of64(u);
        assert(v as u64 as i64 == v) by (bit_vector);
    }

    proof fn lemma_deserialize_prefix(data: Seq<u8>) {
        if data.len() >= 8 {
            let u = of64(data[0], data[1], data[2], data[3], data[4], data[5], data[6], data[7]);
            assert(u as i64 as u64 == u) by (bit_vector);
            lemma_of64_be64(
                data[0],
                data[1],
                data[2],
                data[3],
                data[4],
                data[5],
                data[6],
                data[7],
            );
            assert(be64(
                of64(data[0], data[1], data[2], data[3], data[4], data[5], data[6], data[7]) as i64
                    as u64,
            ) =~= data.subrange(0, 8));
        }
    }

    proof fn lemma_truncated(v: i64, n: int) {
    }

    fn serialize(&self) -> (out: Vec<u8>) {
        let mut out = Vec::new();
        push_be64(&mut out, #[verifier::truncate] (*self as u64));
        proof {
            assert(out@ =~= be64(*self as u64));
        }
        out
    }

    fn deserialize(data: &[u8]) -> (r: Result<(Self, usize), DecodeError>) {
        if data.len() < 8 {
            Err(DecodeError::TruncatedInput)
        } else {
            Ok((#[verifier::truncate] (read_be64(data, 0) as i64), 8))
        }
    }
}

impl Serializable for i128 {
    open spec fn wf(v: i128) -> bool {
        true
    }

    open spec fn spec_serialize(v: i128) -> Seq<u8> {
        be128(v as u128)
    }

    open spec fn spec_deserialize(data: Seq<u8>) -> Result<(i128, int), DecodeError> {
        if data.len() < 16 {
            Err(DecodeError::TruncatedInput)
        } else {
            Ok(
                (
                    of128(
                        data[0],
                        data[1],
                        data[2],
                        data[3],
                        data[4],
                        data[5],
                        data[6],
                        data[7],
                        data[8],
                        data[9],
                        data[10],
                        data[11],
                        data[12],
                        data[13],
                        data[14],
                        data[15],
                    ) as i128,
                    16,
                ),
            )
        }
    }

    proof fn lemma_serialize_deserialize(v: i128, rest: Seq<u8>) {
        let u = v as u128;
        let data = be128(u) + rest;
        assert(forall|i: int| 0 <= i < 16 ==> data[i] == be128(u)[i]);
        lemma_be128_of128(u);
        assert(v as u128 as i128 == v) by (bit_vector);
    }

    proof fn lemma_deserialize_prefix(data: Seq<u8>) {
        if data.len() >= 16 {
            let u = of128(
                data[0],
                data[1],
                data[2],
                data[3],
                data[4],
                data[5],
                data[6],
                data[7],
                data[8],
                data[9],
                data[10],
                data[11],
                data[12],
                data[13],
                data[14],
                data[15],
            );
            assert(u as i128 as u128 == u) by (bit_vector);
            lemma_of128_be128(
                data[0],
                data[1],
                data[2],
                data[3],
                data[4],
                data[5],
                data[6],
                data[7],
                data[8],
                data[9],
                data[10],
                data[11],
                data[12],
                data[13],
                data[14],
                data[15],
            );
            assert(be128((u as i128) as u128) =~= data.subrange(0, 16));
        }
    }

    proof fn lemma_truncated(v: i128, n: int) {
    }

    fn serialize(&self) -> (out: Vec<u8>) {
        let mut out = Vec::new();
        push_be128(&mut out, #[verifier::truncate] (*self as u128));
        proof {
            assert(out@ =~= be128(*self as u128));
        }
        out
    }

    fn deserialize(data: &[u8]) -> (r: Result<(Self, usize), DecodeError>) {
        if data.len() < 16 {
            Err(DecodeError::TruncatedInput)
        } else {
            Ok((#[verifier::truncate] (read_be128(data, 0) as i128), 16))
        }
    }
}

impl Serializable for bool {
    open spec fn wf(v: bool) -> bool {
        true
    }

    open spec fn spec_serialize(v: bool) -> Seq<u8> {
        if v {
            seq![1u8]
        } else {
            seq![0u8]
        }
    }

    open spec fn spec_deserialize(data: Seq<u8>) -> Result<(bool, int), DecodeError> {
        if data.len() < 1 {
            Err(DecodeError::TruncatedInput)
        } else if data[0] == 0 {
            Ok((false, 1))
        } else if data[0] == 1 {
            Ok((true, 1))
        } else {
            Err(DecodeError::InvalidValue)
        }
    }

    proof fn lemma_serialize_deserialize(v: bool, rest: Seq<u8>) {
        assert((Self::spec_serialize(v) + rest)[0] == Self::spec_serialize(v)[0]);
    }

    proof fn lemma_deserialize_prefix(data: Seq<u8>) {
        if data.len() >= 1 && data[0] == 0 {
            assert(seq![0u8] =~= data.subrange(0, 1));
        }
        if data.len() >= 1 && data[0] == 1 {
            assert(seq![1u8] =~= data.subrange(0, 1));
        }
    }

    proof fn lemma_truncated(v: bool, n: int) {
    }

    fn serialize(&self) -> (out: Vec<u8>) {
        let mut out = Vec::new();
        if *self {
            out.push(1);
        } else {
            out.push(0);
        }
        proof {
            assert(out@ =~= Self::spec_serialize(*self));
        }
        out
    }

    fn deserialize(data: &[u8]) -> (r: Result<(Self, usize), DecodeError>) {
        if data.len() < 1 {
            Err(DecodeError::TruncatedInput)
        } else if data[0] == 0 {
            Ok((false, 1))
        } else if data[0] == 1 {
            Ok((true, 1))
        } else {
            Err(DecodeError::InvalidValue)
        }
    }
}

} // verus!
