//! Big-endian byte layouts for the fixed-width integers, with the lemmas
//! that make them invertible and the executable readers and writers that
//! follow them.

use vstd::prelude::*;

verus! {

/// The two big-endian bytes of a 16-bit value.
pub open spec fn be16(v: u16) -> Seq<u8> {
    seq![(v >> 8) as u8, v as u8]
}

/// The 16-bit value read from two big-endian bytes.
pub open spec fn of16(b0: u8, b1: u8) -> u16 {
    (b0 as u16) << 8 | (b1 as u16)
}

/// The four big-endian bytes of a 32-bit value.
pub open spec fn be32(v: u32) -> Seq<u8> {
    seq![(v >> 24) as u8, (v >> 16) as u8, (v >> 8) as u8, v as u8]
}

/// The 32-bit value read from four big-endian bytes.
pub open spec fn of32(b0: u8, b1: u8, b2: u8, b3: u8) -> u32 {
    (b0 as u32) << 24 | (b1 as u32) << 16 | (b2 as u32) << 8 | (b3 as u32)
}

/// The eight big-endian bytes of a 64-bit value.
pub open spec fn be64(v: u64) -> Seq<u8> {
    seq![
        (v >> 56) as u8,
        (v >> 48) as u8,
        (v >> 40) as u8,
        (v >> 32) as u8,
        (v >> 24) as u8,
        (v >> 16) as u8,
        (v >> 8) as u8,
        v as u8,
    ]
}

/// The 64-bit value read from eight big-endian bytes.
pub open spec fn of64(b0: u8, b1: u8, b2: u8, b3: u8, b4: u8, b5: u8, b6: u8, b7: u8) -> u64 {
    (b0 as u64) << 56 | (b1 as u64) << 48 | (b2 as u64) << 40 | (b3 as u64) << 32 | (b4 as u64)
        << 24 | (b5 as u64) << 16 | (b6 as u64) << 8 | (b7 as u64)
}

/// The sixteen big-endian bytes of a 128-bit value.
pub open spec fn be128(v: u128) -> Seq<u8> {
    seq![
        (v >> 120) as u8,
        (v >> 112) as u8,
        (v >> 104) as u8,
        (v >> 96) as u8,
        (v >> 88) as u8,
        (v >> 80) as u8,
        (v >> 72) as u8,
        (v >> 64) as u8,
        (v >> 56) as u8,
        (v >> 48) as u8,
        (v >> 40) as u8,
        (v >> 32) as u8,
        (v >> 24) as u8,
        (v >> 16) as u8,
        (v >> 8) as u8,
        v as u8,
    ]
}

/// The 128-bit value read from sixteen big-endian bytes.
pub open spec fn of128(
    b0: u8,
    b1: u8,
    b2: u8,
    b3: u8,
    b4: u8,
    b5: u8,
    b6: u8,
    b7: u8,
    b8: u8,
    b9: u8,
    b10: u8,
    b11: u8,
    b12: u8,
    b13: u8,
    b14: u8,
    b15: u8,
) -> u128 {
    (b0 as u128) << 120 | (b1 as u128) << 112 | (b2 as u128) << 104 | (b3 as u128) << 96 | (
    b4 as u128) << 88 | (b5 as u128) << 80 | (b6 as u128) << 72 | (b7 as u128) << 64 | (b8 as u128)
        << 56 | (b9 as u128) << 48 | (b10 as u128) << 40 | (b11 as u128) << 32 | (b12 as u128)
        << 24 | (b13 as u128) << 16 | (b14 as u128) << 8 | (b15 as u128)
}

/// Reading back the two bytes of a 16-bit value yields the value.
pub proof fn lemma_be16_of16(v: u16)
    ensures
        of16(be16(v)[0], be16(v)[1]) == v,
{
    assert(((v >> 8) as u8 as u16) << 8 | (v as u8 as u16) == v) by (bit_vector);
}

/// Writing out the 16-bit value read from two bytes yields the bytes.
pub proof fn lemma_of16_be16(b0: u8, b1: u8)
    ensures
        be16(of16(b0, b1)) =~= seq![b0, b1],
{
    assert((((b0 as u16) << 8 | (b1 as u16)) >> 8) as u8 == b0 && (((b0 as u16) << 8 | (
    b1 as u16)) as u8) == b1) by (bit_vector);
}

/// Reading back the four bytes of a 32-bit value yields the value.
pub proof fn lemma_be32_of32(v: u32)
    ensures
        of32(be32(v)[0], be32(v)[1], be32(v)[2], be32(v)[3]) == v,
{
    assert(((v >> 24) as u8 as u32) << 24 | ((v >> 16) as u8 as u32) << 16 | ((v >> 8) as u8
        as u32) << 8 | (v as u8 as u32) == v) by (bit_vector);
}

/// Writing out the 32-bit value read from four bytes yields the bytes.
pub proof fn lemma_of32_be32(b0: u8, b1: u8, b2: u8, b3: u8)
    ensures
        be32(of32(b0, b1, b2, b3)) =~= seq![b0, b1, b2, b3],
{
    let v = of32(b0, b1, b2, b3);
    assert((((b0 as u32) << 24 | (b1 as u32) << 16 | (b2 as u32) << 8 | (b3 as u32)) >> 24) as u8
        == b0 && (((b0 as u32) << 24 | (b1 as u32) << 16 | (b2 as u32) << 8 | (b3 as u32)) >> 16)
        as u8 == b1 && (((b0 as u32) << 24 | (b1 as u32) << 16 | (b2 as u32) << 8 | (b3 as u32))
        >> 8) as u8 == b2 && (((b0 as u32) << 24 | (b1 as u32) << 16 | (b2 as u32) << 8 | (
    b3 as u32)) as u8) == b3) by (bit_vector);
}

/// Reading back the eight bytes of a 64-bit value yields the value.
pub proof fn lemma_be64_of64(v: u64)
    ensures
        of64(
            be64(v)[0],
            be64(v)[1],
            be64(v)[2],
            be64(v)[3],
            be64(v)[4],
            be64(v)[5],
            be64(v)[6],
            be64(v)[7],
        ) == v,
{
    assert(((v >> 56) as u8 as u64) << 56 | ((v >> 48) as u8 as u64) << 48 | ((v >> 40) as u8
        as u64) << 40 | ((v >> 32) as u8 as u64) << 32 | ((v >> 24) as u8 as u64) << 24 | ((v >> 16)
        as u8 as u64) << 16 | ((v >> 8) as u8 as u64) << 8 | (v as u8 as u64) == v) by (bit_vector);
}

/// Writing out the 64-bit value read from eight bytes yields the bytes.
pub proof fn lemma_of64_be64(b0: u8, b1: u8, b2: u8, b3: u8, b4: u8, b5: u8, b6: u8, b7: u8)
    ensures
        be64(of64(b0, b1, b2, b3, b4, b5, b6, b7)) =~= seq![b0, b1, b2, b3, b4, b5, b6, b7],
{
    let v = of64(b0, b1, b2, b3, b4, b5, b6, b7);
    assert(v == (b0 as u64) << 56 | (b1 as u64) << 48 | (b2 as u64) << 40 | (b3 as u64) << 32 | (
    b4 as u64) << 24 | (b5 as u64) << 16 | (b6 as u64) << 8 | (b7 as u64));
    assert((v >> 56) as u8 == b0 && (v >> 48) as u8 == b1 && (v >> 40) as u8 == b2 && (v >> 32)
        as u8 == b3 && (v >> 24) as u8 == b4 && (v >> 16) as u8 == b5 && (v >> 8) as u8 == b6 && (v
        as u8) == b7) by (bit_vector)
        requires
            v == (b0 as u64) << 56 | (b1 as u64) << 48 | (b2 as u64) << 40 | (b3 as u64) << 32 | (
            b4 as u64) << 24 | (b5 as u64) << 16 | (b6 as u64) << 8 | (b7 as u64),
    ;
}

/// Reading back the sixteen bytes of a 128-bit value yields the value.
pub proof fn lemma_be128_of128(v: u128)
    ensures
        of128(
            be128(v)[0],
            be128(v)[1],
            be128(v)[2],
            be128(v)[3],
            be128(v)[4],
            be128(v)[5],
            be128(v)[6],
            be128(v)[7],
            be128(v)[8],
            be128(v)[9],
            be128(v)[10],
            be128(v)[11],
            be128(v)[12],
            be128(v)[13],
            be128(v)[14],
            be128(v)[15],
        ) == v,
{
    assert(((v >> 120) as u8 as u128) << 120 | ((v >> 112) as u8 as u128) << 112 | ((v >> 104)
        as u8 as u128) << 104 | ((v >> 96) as u8 as u128) << 96 | ((v >> 88) as u8 as u128) << 88
        | ((v >> 80) as u8 as u128) << 80 | ((v >> 72) as u8 as u128) << 72 | ((v >> 64) as u8
        as u128) << 64 | ((v >> 56) as u8 as u128) << 56 | ((v >> 48) as u8 as u128) << 48 | ((v
        >> 40) as u8 as u128) << 40 | ((v >> 32) as u8 as u128) << 32 | ((v >> 24) as u8 as u128)
        << 24 | ((v >> 16) as u8 as u128) << 16 | ((v >> 8) as u8 as u128) << 8 | (v as u8 as u128)
        == v) by (bit_vector);
}

/// Writing out the 128-bit value read from sixteen bytes yields the bytes.
pub proof fn lemma_of128_be128(
    b0: u8,
    b1: u8,
    b2: u8,
    b3: u8,
    b4: u8,
    b5: u8,
    b6: u8,
    b7: u8,
    b8: u8,
    b9: u8,
    b10: u8,
    b11: u8,
    b12: u8,
    b13: u8,
    b14: u8,
    b15: u8,
)
    ensures
        be128(of128(b0, b1, b2, b3, b4, b5, b6, b7, b8, b9, b10, b11, b12, b13, b14, b15)) =~= seq![
            b0,
            b1,
            b2,
            b3,
            b4,
            b5,
            b6,
            b7,
            b8,
            b9,
            b10,
            b11,
            b12,
            b13,
            b14,
            b15,
        ],
{
    let v = of128(b0, b1, b2, b3, b4, b5, b6, b7, b8, b9, b10, b11, b12, b13, b14, b15);
    assert(v == (b0 as u128) << 120 | (b1 as u128) << 112 | (b2 as u128) << 104 | (b3 as u128)
        << 96 | (b4 as u128) << 88 | (b5 as u128) << 80 | (b6 as u128) << 72 | (b7 as u128) << 64
        | (b8 as u128) << 56 | (b9 as u128) << 48 | (b10 as u128) << 40 | (b11 as u128) << 32 | (
    b12 as u128) << 24 | (b13 as u128) << 16 | (b14 as u128) << 8 | (b15 as u128));
    assert((v >> 120) as u8 == b0 && (v >> 112) as u8 == b1 && (v >> 104) as u8 == b2 && (v >> 96)
        as u8 == b3 && (v >> 88) as u8 == b4 && (v >> 80) as u8 == b5 && (v >> 72) as u8 == b6 && (v
        >> 64) as u8 == b7 && (v >> 56) as u8 == b8 && (v >> 48) as u8 == b9 && (v >> 40) as u8
        == b10 && (v >> 32) as u8 == b11 && (v >> 24) as u8 == b12 && (v >> 16) as u8 == b13 && (v
        >> 8) as u8 == b14 && (v as u8) == b15) by (bit_vector)
        requires
            v == (b0 as u128) << 120 | (b1 as u128) << 112 | (b2 as u128) << 104 | (b3 as u128)
                << 96 | (b4 as u128) << 88 | (b5 as u128) << 80 | (b6 as u128) << 72 | (b7 as u128)
                << 64 | (b8 as u128) << 56 | (b9 as u128) << 48 | (b10 as u128) << 40 | (
            b11 as u128) << 32 | (b12 as u128) << 24 | (b13 as u128) << 16 | (b14 as u128) << 8 | (
            b15 as u128),
    ;
}

/// Appends the big-endian bytes of a 16-bit value.
pub fn push_be16(out: &mut Vec<u8>, v: u16)
    ensures
        final(out)@ == old(out)@ + be16(v),
{
    out.push(#[verifier::truncate] ((v >> 8) as u8));
    out.push(#[verifier::truncate] (v as u8));
    proof {
        assert(out@ =~= old(out)@ + be16(v));
    }
}

/// Appends the big-endian bytes of a 32-bit value.
pub fn push_be32(out: &mut Vec<u8>, v: u32)
    ensures
        final(out)@ == old(out)@ + be32(v),
{
    out.push(#[verifier::truncate] ((v >> 24) as u8));
    out.push(#[verifier::truncate] ((v >> 16) as u8));
    out.push(#[verifier::truncate] ((v >> 8) as u8));
    out.push(#[verifier::truncate] (v as u8));
    proof {
        assert(out@ =~= old(out)@ + be32(v));
    }
}

/// Appends the big-endian bytes of a 64-bit value.
pub fn push_be64(out: &mut Vec<u8>, v: u64)
    ensures
        final(out)@ == old(out)@ + be64(v),
{
    out.push(#[verifier::truncate] ((v >> 56) as u8));
    out.push(#[verifier::truncate] ((v >> 48) as u8));
    out.push(#[verifier::truncate] ((v >> 40) as u8));
    out.push(#[verifier::truncate] ((v >> 32) as u8));
    out.push(#[verifier::truncate] ((v >> 24) as u8));
    out.push(#[verifier::truncate] ((v >> 16) as u8));
    out.push(#[verifier::truncate] ((v >> 8) as u8));
    out.push(#[verifier::truncate] (v as u8));
    proof {
        assert(out@ =~= old(out)@ + be64(v));
    }
}

/// Appends the big-endian bytes of a 128-bit value.
pub fn push_be128(out: &mut Vec<u8>, v: u128)
    ensures
        final(out)@ == old(out)@ + be128(v),
{
    out.push(#[verifier::truncate] ((v >> 120) as u8));
    out.push(#[verifier::truncate] ((v >> 112) as u8));
    out.push(#[verifier::truncate] ((v >> 104) as u8));
    out.push(#[verifier::truncate] ((v >> 96) as u8));
    out.push(#[verifier::truncate] ((v >> 88) as u8));
    out.push(#[verifier::truncate] ((v >> 80) as u8));
    out.push(#[verifier::truncate] ((v >> 72) as u8));
    out.push(#[verifier::truncate] ((v >> 64) as u8));
    out.push(#[verifier::truncate] ((v >> 56) as u8));
    out.push(#[verifier::truncate] ((v >> 48) as u8));
    out.push(#[verifier::truncate] ((v >> 40) as u8));
    out.push(#[verifier::truncate] ((v >> 32) as u8));
    out.push(#[verifier::truncate] ((v >> 24) as u8));
    out.push(#[verifier::truncate] ((v >> 16) as u8));
    out.push(#[verifier::truncate] ((v >> 8) as u8));
    out.push(#[verifier::truncate] (v as u8));
    proof {
        assert(out@ =~= old(out)@ + be128(v));
    }
}

/// Appends a run of bytes unchanged.
pub fn push_bytes(out: &mut Vec<u8>, data: &[u8])
    ensures
        final(out)@ == old(out)@ + data@,
{
    let n = data.len();
    let mut k: usize = 0;
    while k < n
        invariant
            n == data@.len(),
            k <= n,
            out@ == old(out)@ + data@.take(k as int),
        decreases n - k,
    {
        out.push(data[k]);
        proof {
            assert(old(out)@ + data@.take(k as int) + seq![data@[k as int]] =~= old(out)@
                + data@.take(k + 1));
        }
        k = k + 1;
    }
    proof {
        assert(data@.take(n as int) =~= data@);
    }
}

/// Reads a big-endian 16-bit value at an offset.
pub fn read_be16(data: &[u8], off: usize) -> (r: u16)
    requires
        off + 2 <= data@.len(),
    ensures
        r == of16(data@[off as int], data@[off + 1]),
{
    (data[off] as u16) << 8 | (data[off + 1] as u16)
}

/// Reads a big-endian 32-bit value at an offset.
pub fn read_be32(data: &[u8], off: usize) -> (r: u32)
    requires
        off + 4 <= data@.len(),
    ensures
        r == of32(data@[off as int], data@[off + 1], data@[off + 2], data@[off + 3]),
{
    (data[off] as u32) << 24 | (data[off + 1] as u32) << 16 | (data[off + 2] as u32) << 8 | (
    data[off + 3] as u32)
}

/// Reads a big-endian 64-bit value at an offset.
pub fn read_be64(data: &[u8], off: usize) -> (r: u64)
    requires
        off + 8 <= data@.len(),
    ensures
        r == of64(
            data@[off as int],
            data@[off + 1],
            data@[off + 2],
            data@[off + 3],
            data@[off + 4],
            data@[off + 5],
            data@[off + 6],
            data@[off + 7],
        ),
{
    (data[off] as u64) << 56 | (data[off + 1] as u64) << 48 | (data[off + 2] as u64) << 40 | (
    data[off + 3] as u64) << 32 | (data[off + 4] as u64) << 24 | (data[off + 5] as u64) << 16 | (
    data[off + 6] as u64) << 8 | (data[off + 7] as u64)
}

/// Reads a big-endian 128-bit value at an offset.
pub fn read_be128(data: &[u8], off: usize) -> (r: u128)
    requires
        off + 16 <= data@.len(),
    ensures
        r == of128(
            data@[off as int],
            data@[off + 1],
            data@[off + 2],
            data@[off + 3],
            data@[off + 4],
            data@[off + 5],
            data@[off + 6],
            data@[off + 7],
            data@[off + 8],
            data@[off + 9],
            data@[off + 10],
            data@[off + 11],
            data@[off + 12],
            data@[off + 13],
            data@[off + 14],
            data@[off + 15],
        ),
{
    (data[off] as u128) << 120 | (data[off + 1] as u128) << 112 | (data[off + 2] as u128) << 104 | (
    data[off + 3] as u128) << 96 | (data[off + 4] as u128) << 88 | (data[off + 5] as u128) << 80 | (
    data[off + 6] as u128) << 72 | (data[off + 7] as u128) << 64 | (data[off + 8] as u128) << 56 | (
    data[off + 9] as u128) << 48 | (data[off + 10] as u128) << 40 | (data[off + 11] as u128) << 32
        | (data[off + 12] as u128) << 24 | (data[off + 13] as u128) << 16 | (data[off + 14] as u128)
        << 8 | (data[off + 15] as u128)
}

} // verus!
