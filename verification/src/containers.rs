//! Compositional codecs for container shapes: an optional value (one tag
//! byte, then the payload when present) and a sequence (a four-byte
//! big-endian count, then each element's encoding in order).  Each delegates
//! to the element type's codec and inherits its proofs through the chunk
//! lemmas.

use vstd::prelude::*;
use vstd::slice::slice_subrange;
use crate::bytes::be32;
use crate::bytes::lemma_be32_of32;
use crate::bytes::lemma_of32_be32;
use crate::bytes::of32;
use crate::bytes::push_be32;
use crate::bytes::push_bytes;
use crate::bytes::read_be32;
use crate::serializable::lemma_chunk_prefix;
use crate::serializable::lemma_chunk_reads;
use crate::serializable::DecodeError;
use crate::serializable::Serializable;

verus! {

/// The concatenation of the encodings of a run of element values, in order.
pub open spec fn spec_serialize_seq<T: Serializable>(s: Seq<T::V>) -> Seq<u8>
    decreases s.len(),
{
    if s.len() == 0 {
        Seq::empty()
    } else {
        T::spec_serialize(s[0]) + spec_serialize_seq::<T>(s.skip(1))
    }
}

/// Decoding exactly `count` elements off the front of a window, each one
/// narrowing the window by what it consumed.
pub open spec fn spec_deserialize_elems<T: Serializable>(data: Seq<u8>, count: int) -> Result<
    (Seq<T::V>, int),
    DecodeError,
>
    decreases count,
{
    if count <= 0 {
        Ok((Seq::empty(), 0))
    } else {
        match T::spec_deserialize(data) {
            Err(e) => Err(e),
            Ok((v, n)) => match spec_deserialize_elems::<T>(data.skip(n), count - 1) {
                Err(e) => Err(e),
                Ok((vs, m)) => Ok((seq![v] + vs, n + m)),
            },
        }
    }
}

/// Appending one element appends its encoding.
pub proof fn lemma_serialize_seq_snoc<T: Serializable>(s: Seq<T::V>, x: T::V)
    ensures
        spec_serialize_seq::<T>(s.push(x)) == spec_serialize_seq::<T>(s) + T::spec_serialize(x),
    decreases s.len(),
{
    if s.len() == 0 {
        assert(s.push(x)[0] == x);
        assert(s.push(x).skip(1) =~= Seq::<T::V>::empty());
        assert(spec_serialize_seq::<T>(s.push(x)) == T::spec_serialize(x) + spec_serialize_seq::<
            T,
        >(Seq::<T::V>::empty()));
        assert(spec_serialize_seq::<T>(s.push(x)) =~= T::spec_serialize(x));
        assert(spec_serialize_seq::<T>(s) + T::spec_serialize(x) =~= T::spec_serialize(x));
    } else {
        assert(s.push(x)[0] == s[0]);
        assert(s.push(x).skip(1) =~= s.skip(1).push(x));
        lemma_serialize_seq_snoc::<T>(s.skip(1), x);
        assert(T::spec_serialize(s[0]) + (spec_serialize_seq::<T>(s.skip(1)) + T::spec_serialize(
            x,
        )) =~= (T::spec_serialize(s[0]) + spec_serialize_seq::<T>(s.skip(1))) + T::spec_serialize(
            x,
        ));
    }
}

/// Decoding as many elements as were encoded reads them all back, consuming
/// exactly their concatenated encodings and ignoring what follows.
pub proof fn lemma_elems_reads<T: Serializable>(s: Seq<T::V>, rest: Seq<u8>)
    requires
        forall|i: int| 0 <= i < s.len() ==> T::wf(#[trigger] s[i]),
    ensures
        spec_deserialize_elems::<T>(spec_serialize_seq::<T>(s) + rest, s.len() as int) == Ok::<
            (Seq<T::V>, int),
            DecodeError,
        >((s, spec_serialize_seq::<T>(s).len() as int)),
    decreases s.len(),
{
    if s.len() == 0 {
        assert(s =~= Seq::<T::V>::empty());
    } else {
        let e0 = T::spec_serialize(s[0]);
        let tail = s.skip(1);
        let tser = spec_serialize_seq::<T>(tail);
        assert(spec_serialize_seq::<T>(s) + rest =~= e0 + (tser + rest));
        lemma_chunk_reads::<T>(s[0], tser + rest);
        assert(forall|i: int| 0 <= i < tail.len() ==> T::wf(#[trigger] tail[i])) by {
            assert(forall|i: int| 0 <= i < tail.len() ==> tail[i] == s[i + 1]);
        }
        lemma_elems_reads::<T>(tail, rest);
        assert(seq![s[0]] + tail =~= s);
    }
}

/// Whatever run of elements decodes successfully is element-wise well
/// formed, has exactly the asked-for length, and re-encodes to exactly the
/// consumed prefix of the window.
pub proof fn lemma_elems_prefix<T: Serializable>(data: Seq<u8>, count: int)
    ensures
        match spec_deserialize_elems::<T>(data, count) {
            Ok((vs, m)) => vs.len() == (if count <= 0 {
                0
            } else {
                count
            }) && 0 <= m <= data.len() && (forall|i: int|
                0 <= i < vs.len() ==> T::wf(#[trigger] vs[i])) && spec_serialize_seq::<T>(vs)
                == data.subrange(0, m),
            Err(_) => true,
        },
    decreases count,
{
    if count <= 0 {
        assert(spec_serialize_seq::<T>(Seq::<T::V>::empty()) =~= data.subrange(0, 0));
    } else {
        if let Ok((v, n)) = T::spec_deserialize(data) {
            T::lemma_deserialize_prefix(data);
            lemma_elems_prefix::<T>(data.skip(n), count - 1);
            if let Ok((vs, m)) = spec_deserialize_elems::<T>(data.skip(n), count - 1) {
                let whole = seq![v] + vs;
                assert(whole[0] == v);
                assert(whole.skip(1) =~= vs);
                assert(data.skip(n).subrange(0, m) =~= data.subrange(n, n + m));
                assert(data.subrange(0, n) + data.subrange(n, n + m) =~= data.subrange(0, n + m));
                assert(spec_serialize_seq::<T>(whole) == data.subrange(0, n + m));
                assert(forall|i: int| 0 <= i < whole.len() ==> T::wf(#[trigger] whole[i])) by {
                    assert(forall|i: int| 1 <= i < whole.len() ==> whole[i] == vs[i - 1]);
                }
            }
        }
    }
}

/// Cutting anywhere inside a run of encoded elements makes the run decode
/// fail with a truncated-input error.
pub proof fn lemma_elems_truncated<T: Serializable>(s: Seq<T::V>, n: int)
    requires
        forall|i: int| 0 <= i < s.len() ==> T::wf(#[trigger] s[i]),
        0 <= n < spec_serialize_seq::<T>(s).len(),
    ensures
        spec_deserialize_elems::<T>(
            spec_serialize_seq::<T>(s).subrange(0, n),
            s.len() as int,
        ) == Err::<(Seq<T::V>, int), DecodeError>(DecodeError::TruncatedInput),
    decreases s.len(),
{
    let e0 = T::spec_serialize(s[0]);
    let tail = s.skip(1);
    let tser = spec_serialize_seq::<T>(tail);
    assert(forall|i: int| 0 <= i < tail.len() ==> T::wf(#[trigger] tail[i])) by {
        assert(forall|i: int| 0 <= i < tail.len() ==> tail[i] == s[i + 1]);
    }
    lemma_chunk_prefix::<T>(s[0], tser, n);
    if n >= e0.len() {
        lemma_elems_truncated::<T>(tail, n - e0.len());
    }
}

impl<T: Serializable> Serializable for Vec<T> {
    open spec fn wf(v: Seq<T::V>) -> bool {
        v.len() <= 0xFFFF_FFFF && (forall|i: int| 0 <= i < v.len() ==> T::wf(#[trigger] v[i]))
    }

    open spec fn spec_serialize(v: Seq<T::V>) -> Seq<u8> {
        be32(v.len() as u32) + spec_serialize_seq::<T>(v)
    }

    open spec fn spec_deserialize(data: Seq<u8>) -> Result<(Seq<T::V>, int), DecodeError> {
        if data.len() < 4 {
            Err(DecodeError::TruncatedInput)
        } else {
            let count = of32(data[0], data[1], data[2], data[3]) as int;
            match spec_deserialize_elems::<T>(data.skip(4), count) {
                Err(e) => Err(e),
                Ok((vs, m)) => Ok((vs, 4 + m)),
            }
        }
    }

    proof fn lemma_serialize_deserialize(v: Seq<T::V>, rest: Seq<u8>) {
        let count = v.len() as u32;
        let data = Self::spec_serialize(v) + rest;
        assert(data[0] == be32(count)[0] && data[1] == be32(count)[1] && data[2] == be32(count)[2]
            && data[3] == be32(count)[3]);
        lemma_be32_of32(count);
        assert(data.skip(4) =~= spec_serialize_seq::<T>(v) + rest);
        lemma_elems_reads::<T>(v, rest);
    }

    proof fn lemma_deserialize_prefix(data: Seq<u8>) {
        if data.len() >= 4 {
            let count = of32(data[0], data[1], data[2], data[3]) as int;
            lemma_elems_prefix::<T>(data.skip(4), count);
            if let Ok((vs, m)) = spec_deserialize_elems::<T>(data.skip(4), count) {
                lemma_of32_be32(data[0], data[1], data[2], data[3]);
                assert(data.skip(4).subrange(0, m) =~= data.subrange(4, 4 + m));
                assert(be32(vs.len() as u32) + spec_serialize_seq::<T>(vs) =~= data.subrange(
                    0,
                    4 + m,
                ));
            }
        }
    }

    proof fn lemma_truncated(v: Seq<T::V>, n: int) {
        let count = v.len() as u32;
        let ser = Self::spec_serialize(v);
        let cut = ser.subrange(0, n);
        if n >= 4 {
            assert(cut[0] == be32(count)[0] && cut[1] == be32(count)[1] && cut[2] == be32(
                count,
            )[2] && cut[3] == be32(count)[3]);
            lemma_be32_of32(count);
            assert(cut.skip(4) =~= spec_serialize_seq::<T>(v).subrange(0, n - 4));
            lemma_elems_truncated::<T>(v, n - 4);
        }
    }

    fn serialize(&self) -> (out: Vec<u8>) {
        let ghost dv = self.deep_view();
        let mut out = Vec::new();
        let n = self.len();
        push_be32(&mut out, n as u32);
        let mut k: usize = 0;
        while k < n
            invariant
                n == self@.len(),
                k <= n,
                dv == self.deep_view(),
                Self::wf(dv),
                out@ == be32(n as u32) + spec_serialize_seq::<T>(dv.take(k as int)),
            decreases n - k,
        {
            let item = &self[k];
            proof {
                assert(item.deep_view() == dv[k as int]);
            }
            let enc = item.serialize();
            push_bytes(&mut out, enc.as_slice());
            proof {
                lemma_serialize_seq_snoc::<T>(dv.take(k as int), dv[k as int]);
                assert(dv.take(k as int).push(dv[k as int]) =~= dv.take(k + 1));
            }
            k = k + 1;
        }
        proof {
            assert(dv.take(n as int) =~= dv);
        }
        out
    }

    fn deserialize(data: &[u8]) -> (r: Result<(Self, usize), DecodeError>) {
        if data.len() < 4 {
            return Err(DecodeError::TruncatedInput);
        }
        let count = read_be32(data, 0);
        let mut ret: Vec<T> = Vec::new();
        let mut read: usize = 4;
        let mut k: u32 = 0;
        proof {
            assert(ret.deep_view() =~= Seq::<T::V>::empty());
            if let Ok(p) = spec_deserialize_elems::<T>(data@.skip(4), count as int) {
                assert(Seq::<T::V>::empty() + p.0 =~= p.0);
            }
        }
        while k < count
            invariant
                data@.len() >= 4,
                count == of32(data@[0], data@[1], data@[2], data@[3]),
                k <= count,
                4 <= read <= data@.len(),
                spec_deserialize_elems::<T>(data@.skip(4), count as int) == (match
                    spec_deserialize_elems::<T>(data@.skip(read as int), count - k) {
                    Ok(p) => Ok::<(Seq<T::V>, int), DecodeError>(
                        (ret.deep_view() + p.0, (read - 4) + p.1),
                    ),
                    Err(e) => Err::<(Seq<T::V>, int), DecodeError>(e),
                }),
            decreases count - k,
        {
            let sub = slice_subrange(data, read, data.len());
            proof {
                assert(sub@ =~= data@.skip(read as int));
            }
            match T::deserialize(sub) {
                Err(e) => {
                    proof {
                        assert(spec_deserialize_elems::<T>(data@.skip(read as int), count - k)
                            == Err::<(Seq<T::V>, int), DecodeError>(e));
                        assert(spec_deserialize_elems::<T>(data@.skip(4), count as int) == Err::<
                            (Seq<T::V>, int),
                            DecodeError,
                        >(e));
                        assert(Self::spec_deserialize(data@) == Err::<
                            (Seq<T::V>, int),
                            DecodeError,
                        >(e));
                    }
                    return Err(e);
                },
                Ok((item, used)) => {
                    let ghost dv0 = ret.deep_view();
                    let ghost iv = item.deep_view();
                    let ghost used_i = used as int;
                    proof {
                        assert(data@.skip(read as int).skip(used_i) =~= data@.skip(
                            read + used_i,
                        ));
                        if let Ok(p) = spec_deserialize_elems::<T>(
                            data@.skip(read + used_i),
                            count - k - 1,
                        ) {
                            assert(dv0 + (seq![iv] + p.0) =~= dv0.push(iv) + p.0);
                        }
                    }
                    ret.push(item);
                    proof {
                        assert(ret.deep_view() =~= dv0.push(iv));
                    }
                    read = read + used;
                    k = k + 1;
                },
            }
        }
        proof {
            assert(ret.deep_view() + Seq::<T::V>::empty() =~= ret.deep_view());
        }
        Ok((ret, read))
    }
}

/// Relies on std's `TryInto` from `Vec<T>` to `[T; N]`: a vector of exactly
/// `N` items becomes the array of those items, in order.
#[verifier::external_body]
fn vec_into_array<T, const N: usize>(v: Vec<T>) -> (r: [T; N])
    requires
        v@.len() == N,
    ensures
        r@ == v@,
{
    v.try_into().ok().unwrap()
}

impl<T: Serializable, const N: usize> Serializable for [T; N] {
    open spec fn wf(v: Seq<T::V>) -> bool {
        v.len() == N && (forall|i: int| 0 <= i < v.len() ==> T::wf(#[trigger] v[i]))
    }

    open spec fn spec_serialize(v: Seq<T::V>) -> Seq<u8> {
        spec_serialize_seq::<T>(v)
    }

    open spec fn spec_deserialize(data: Seq<u8>) -> Result<(Seq<T::V>, int), DecodeError> {
        spec_deserialize_elems::<T>(data, N as int)
    }

    proof fn lemma_serialize_deserialize(v: Seq<T::V>, rest: Seq<u8>) {
        lemma_elems_reads::<T>(v, rest);
    }

    proof fn lemma_deserialize_prefix(data: Seq<u8>) {
        lemma_elems_prefix::<T>(data, N as int);
    }

    proof fn lemma_truncated(v: Seq<T::V>, n: int) {
        lemma_elems_truncated::<T>(v, n);
    }

    fn serialize(&self) -> (out: Vec<u8>) {
        let ghost dv = self.deep_view();
        let mut out = Vec::new();
        proof {
            assert(dv.take(0) =~= Seq::<T::V>::empty());
            assert(out@ =~= spec_serialize_seq::<T>(dv.take(0)));
        }
        let mut k: usize = 0;
        while k < N
            invariant
                k <= N,
                dv == self.deep_view(),
                dv.len() == N,
                Self::wf(dv),
                out@ == spec_serialize_seq::<T>(dv.take(k as int)),
            decreases N - k,
        {
            let item = vstd::array::array_index_get(self, k);
            proof {
                assert(item.deep_view() == dv[k as int]);
            }
            let enc = item.serialize();
            push_bytes(&mut out, enc.as_slice());
            proof {
                lemma_serialize_seq_snoc::<T>(dv.take(k as int), dv[k as int]);
                assert(dv.take(k as int).push(dv[k as int]) =~= dv.take(k + 1));
            }
            k = k + 1;
        }
        proof {
            assert(dv.take(N as int) =~= dv);
        }
        out
    }

    fn deserialize(data: &[u8]) -> (r: Result<(Self, usize), DecodeError>) {
        let mut items: Vec<T> = Vec::new();
        let mut read: usize = 0;
        let mut k: usize = 0;
        proof {
            assert(items.deep_view() =~= Seq::<T::V>::empty());
            assert(data@.skip(0) =~= data@);
            if let Ok(p) = spec_deserialize_elems::<T>(data@, N as int) {
                assert(Seq::<T::V>::empty() + p.0 =~= p.0);
            }
        }
        while k < N
            invariant
                k <= N,
                read <= data@.len(),
                items.deep_view().len() == k,
                items@.len() == k,
                spec_deserialize_elems::<T>(data@, N as int) == (match spec_deserialize_elems::<
                    T,
                >(data@.skip(read as int), N - k) {
                    Ok(p) => Ok::<(Seq<T::V>, int), DecodeError>(
                        (items.deep_view() + p.0, read + p.1),
                    ),
                    Err(e) => Err::<(Seq<T::V>, int), DecodeError>(e),
                }),
            decreases N - k,
        {
            let sub = slice_subrange(data, read, data.len());
            proof {
                assert(sub@ =~= data@.skip(read as int));
            }
            match T::deserialize(sub) {
                Err(e) => {
                    proof {
                        assert(spec_deserialize_elems::<T>(data@.skip(read as int), N - k)
                            == Err::<(Seq<T::V>, int), DecodeError>(e));
                    }
                    return Err(e);
                },
                Ok((item, used)) => {
                    let ghost dv0 = items.deep_view();
                    let ghost iv = item.deep_view();
                    let ghost used_i = used as int;
                    proof {
                        assert(data@.skip(read as int).skip(used_i) =~= data@.skip(
                            read + used_i,
                        ));
                        if let Ok(p) = spec_deserialize_elems::<T>(
                            data@.skip(read + used_i),
                            N - k - 1,
                        ) {
                            assert(dv0 + (seq![iv] + p.0) =~= dv0.push(iv) + p.0);
                        }
                    }
                    items.push(item);
                    proof {
                        assert(items.deep_view() =~= dv0.push(iv));
                    }
                    read = read + used;
                    k = k + 1;
                },
            }
        }
        proof {
            assert(items.deep_view() + Seq::<T::V>::empty() =~= items.deep_view());
        }
        let arr = vec_into_array::<T, N>(items);
        proof {
            assert(arr.deep_view() =~= arr@.map(|i: int, t: T| t.deep_view()));
        }
        Ok((arr, read))
    }
}

impl<T: Serializable> Serializable for Option<T> {
    open spec fn wf(v: Option<T::V>) -> bool {
        match v {
            Some(x) => T::wf(x),
            None => true,
        }
    }

    open spec fn spec_serialize(v: Option<T::V>) -> Seq<u8> {
        match v {
            None => seq![0u8],
            Some(x) => seq![1u8] + T::spec_serialize(x),
        }
    }

    open spec fn spec_deserialize(data: Seq<u8>) -> Result<(Option<T::V>, int), DecodeError> {
        if data.len() < 1 {
            Err(DecodeError::TruncatedInput)
        } else if data[0] == 0 {
            Ok((None, 1))
        } else if data[0] == 1 {
            match T::spec_deserialize(data.skip(1)) {
                Err(e) => Err(e),
                Ok((x, n)) => Ok((Some(x), 1 + n)),
            }
        } else {
            Err(DecodeError::InvalidDiscriminant)
        }
    }

    proof fn lemma_serialize_deserialize(v: Option<T::V>, rest: Seq<u8>) {
        let data = Self::spec_serialize(v) + rest;
        match v {
            None => {
                assert(data[0] == 0);
            },
            Some(x) => {
                assert(data[0] == 1);
                assert(data.skip(1) =~= T::spec_serialize(x) + rest);
                lemma_chunk_reads::<T>(x, rest);
            },
        }
    }

    proof fn lemma_deserialize_prefix(data: Seq<u8>) {
        if data.len() >= 1 {
            if data[0] == 0 {
                assert(seq![0u8] =~= data.subrange(0, 1));
            } else if data[0] == 1 {
                T::lemma_deserialize_prefix(data.skip(1));
                if let Ok((x, n)) = T::spec_deserialize(data.skip(1)) {
                    assert(data.skip(1).subrange(0, n) =~= data.subrange(1, 1 + n));
                    assert(seq![1u8] + T::spec_serialize(x) =~= data.subrange(0, 1 + n));
                }
            }
        }
    }

    proof fn lemma_truncated(v: Option<T::V>, n: int) {
        let ser = Self::spec_serialize(v);
        let cut = ser.subrange(0, n);
        match v {
            None => {
            },
            Some(x) => {
                if n >= 1 {
                    assert(cut[0] == 1);
                    assert(cut.skip(1) =~= T::spec_serialize(x).subrange(0, n - 1));
                    T::lemma_truncated(x, n - 1);
                }
            },
        }
    }

    fn serialize(&self) -> (out: Vec<u8>) {
        let mut out = Vec::new();
        match self {
            None => {
                out.push(0);
                proof {
                    assert(out@ =~= Self::spec_serialize(self.deep_view()));
                }
            },
            Some(x) => {
                out.push(1);
                let enc = x.serialize();
                push_bytes(&mut out, enc.as_slice());
                proof {
                    assert(out@ =~= Self::spec_serialize(self.deep_view()));
                }
            },
        }
        out
    }

    fn deserialize(data: &[u8]) -> (r: Result<(Self, usize), DecodeError>) {
        if data.len() < 1 {
            return Err(DecodeError::TruncatedInput);
        }
        if data[0] == 0 {
            return Ok((None, 1));
        }
        if data[0] != 1 {
            return Err(DecodeError::InvalidDiscriminant);
        }
        let sub = slice_subrange(data, 1, data.len());
        proof {
            assert(sub@ =~= data@.skip(1));
        }
        match T::deserialize(sub) {
            Err(e) => Err(e),
            Ok((x, n)) => Ok((Some(x), 1 + n)),
        }
    }
}

} // verus!
