//! Structurally derived codecs.  A record encodes as its field encodings
//! concatenated in declared order with no delimiter; a tagged union encodes
//! as one byte holding the variant's zero-based position, then the chosen
//! variant's record encoding; an empty record encodes to nothing.  Each
//! shape below follows that recipe field by field, delegating to the field
//! types' own codecs, and proves the same three layout lemmas as every
//! other codec.

use vstd::prelude::*;
use vstd::slice::slice_subrange;
use crate::bytes::push_bytes;
use crate::serializable::lemma_chunk_prefix;
use crate::serializable::lemma_chunk_reads;
use crate::serializable::DecodeError;
use crate::serializable::Serializable;
use crate::text::Text;

verus! {

/// A record with named fields, encoded as the fields in declared order.
#[derive(Debug)]
pub struct NamedTestStruct {
    pub a: u32,
    pub b: u16,
    pub c: Text,
}

/// The mathematical value of a [`NamedTestStruct`].
pub struct NamedTestStructView {
    pub a: u32,
    pub b: u16,
    pub c: Seq<u8>,
}

impl DeepView for NamedTestStruct {
    type V = NamedTestStructView;

    open spec fn deep_view(&self) -> NamedTestStructView {
        NamedTestStructView { a: self.a, b: self.b, c: self.c.deep_view() }
    }
}

impl PartialEq for NamedTestStruct {
    fn eq(&self, other: &Self) -> (r: bool) {
        self.a == other.a && self.b == other.b && self.c == other.c
    }
}

impl vstd::std_specs::cmp::PartialEqSpecImpl for NamedTestStruct {
    open spec fn obeys_eq_spec() -> bool {
        true
    }

    open spec fn eq_spec(&self, other: &NamedTestStruct) -> bool {
        self.a == other.a && self.b == other.b && self.c.bytes@ == other.c.bytes@
    }
}

impl Serializable for NamedTestStruct {
    open spec fn wf(v: NamedTestStructView) -> bool {
        <Text as Serializable>::wf(v.c)
    }

    open spec fn spec_serialize(v: NamedTestStructView) -> Seq<u8> {
        <u32 as Serializable>::spec_serialize(v.a) + <u16 as Serializable>::spec_serialize(v.b)
            + <Text as Serializable>::spec_serialize(v.c)
    }

    open spec fn spec_deserialize(data: Seq<u8>) -> Result<(NamedTestStructView, int), DecodeError> {
        match <u32 as Serializable>::spec_deserialize(data) {
            Err(e) => Err(e),
            Ok((a, n1)) => match <u16 as Serializable>::spec_deserialize(data.skip(n1)) {
                Err(e) => Err(e),
                Ok((b, n2)) => match <Text as Serializable>::spec_deserialize(
                    data.skip(n1).skip(n2),
                ) {
                    Err(e) => Err(e),
                    Ok((c, n3)) => Ok((NamedTestStructView { a, b, c }, n1 + n2 + n3)),
                },
            },
        }
    }

    proof fn lemma_serialize_deserialize(v: NamedTestStructView, rest: Seq<u8>) {
        let e1 = <u32 as Serializable>::spec_serialize(v.a);
        let e2 = <u16 as Serializable>::spec_serialize(v.b);
        let e3 = <Text as Serializable>::spec_serialize(v.c);
        assert(Self::spec_serialize(v) + rest =~= e1 + (e2 + (e3 + rest)));
        lemma_chunk_reads::<u32>(v.a, e2 + (e3 + rest));
        lemma_chunk_reads::<u16>(v.b, e3 + rest);
        lemma_chunk_reads::<Text>(v.c, rest);
    }

    proof fn lemma_deserialize_prefix(data: Seq<u8>) {
        if let Ok((a, n1)) = <u32 as Serializable>::spec_deserialize(data) {
            <u32 as Serializable>::lemma_deserialize_prefix(data);
            if let Ok((b, n2)) = <u16 as Serializable>::spec_deserialize(data.skip(n1)) {
                <u16 as Serializable>::lemma_deserialize_prefix(data.skip(n1));
                if let Ok((c, n3)) = <Text as Serializable>::spec_deserialize(
                    data.skip(n1).skip(n2),
                ) {
                    <Text as Serializable>::lemma_deserialize_prefix(data.skip(n1).skip(n2));
                    assert(Self::spec_serialize(NamedTestStructView { a, b, c }) =~= data.subrange(
                        0,
                        n1 + n2 + n3,
                    ));
                }
            }
        }
    }

    proof fn lemma_truncated(v: NamedTestStructView, n: int) {
        let e1 = <u32 as Serializable>::spec_serialize(v.a);
        let e2 = <u16 as Serializable>::spec_serialize(v.b);
        let e3 = <Text as Serializable>::spec_serialize(v.c);
        assert(Self::spec_serialize(v) =~= e1 + (e2 + e3));
        lemma_chunk_prefix::<u32>(v.a, e2 + e3, n);
        if n >= e1.len() {
            lemma_chunk_prefix::<u16>(v.b, e3, n - e1.len());
            if n - e1.len() >= e2.len() {
                <Text as Serializable>::lemma_truncated(v.c, n - e1.len() - e2.len());
            }
        }
    }

    fn serialize(&self) -> (out: Vec<u8>) {
        let mut out = self.a.serialize();
        let eb = self.b.serialize();
        push_bytes(&mut out, eb.as_slice());
        let ec = self.c.serialize();
        push_bytes(&mut out, ec.as_slice());
        proof {
            assert(out@ =~= Self::spec_serialize(self.deep_view()));
        }
        out
    }

    fn deserialize(data: &[u8]) -> (r: Result<(Self, usize), DecodeError>) {
        let (a, n1) = match <u32 as Serializable>::deserialize(data) {
            Ok(p) => p,
            Err(e) => {
                return Err(e);
            },
        };
        let sub1 = slice_subrange(data, n1, data.len());
        proof {
            assert(sub1@ =~= data@.skip(n1 as int));
        }
        let (b, n2) = match <u16 as Serializable>::deserialize(sub1) {
            Ok(p) => p,
            Err(e) => {
                return Err(e);
            },
        };
        let sub2 = slice_subrange(sub1, n2, sub1.len());
        proof {
            assert(sub2@ =~= data@.skip(n1 as int).skip(n2 as int));
        }
        let (c, n3) = match <Text as Serializable>::deserialize(sub2) {
            Ok(p) => p,
            Err(e) => {
                return Err(e);
            },
        };
        Ok((NamedTestStruct { a, b, c }, n1 + n2 + n3))
    }
}

/// A record with positional fields: the layout is the same as the named
/// case, since field order alone determines it.
#[derive(Debug)]
pub struct UnnamedTestStruct(pub u32, pub u16, pub Text);

impl DeepView for UnnamedTestStruct {
    type V = (u32, u16, Seq<u8>);

    open spec fn deep_view(&self) -> (u32, u16, Seq<u8>) {
        (self.0, self.1, self.2.deep_view())
    }
}

impl PartialEq for UnnamedTestStruct {
    fn eq(&self, other: &Self) -> (r: bool) {
        self.0 == other.0 && self.1 == other.1 && self.2 == other.2
    }
}

impl vstd::std_specs::cmp::PartialEqSpecImpl for UnnamedTestStruct {
    open spec fn obeys_eq_spec() -> bool {
        true
    }

    open spec fn eq_spec(&self, other: &UnnamedTestStruct) -> bool {
        self.0 == other.0 && self.1 == other.1 && self.2.bytes@ == other.2.bytes@
    }
}

impl Serializable for UnnamedTestStruct {
    open spec fn wf(v: (u32, u16, Seq<u8>)) -> bool {
        <Text as Serializable>::wf(v.2)
    }

    open spec fn spec_serialize(v: (u32, u16, Seq<u8>)) -> Seq<u8> {
        <u32 as Serializable>::spec_serialize(v.0) + <u16 as Serializable>::spec_serialize(v.1)
            + <Text as Serializable>::spec_serialize(v.2)
    }

    open spec fn spec_deserialize(data: Seq<u8>) -> Result<((u32, u16, Seq<u8>), int), DecodeError> {
        match <u32 as Serializable>::spec_deserialize(data) {
            Err(e) => Err(e),
            Ok((f0, n1)) => match <u16 as Serializable>::spec_deserialize(data.skip(n1)) {
                Err(e) => Err(e),
                Ok((f1, n2)) => match <Text as Serializable>::spec_deserialize(
                    data.skip(n1).skip(n2),
                ) {
                    Err(e) => Err(e),
                    Ok((f2, n3)) => Ok(((f0, f1, f2), n1 + n2 + n3)),
                },
            },
        }
    }

    proof fn lemma_serialize_deserialize(v: (u32, u16, Seq<u8>), rest: Seq<u8>) {
        let e1 = <u32 as Serializable>::spec_serialize(v.0);
        let e2 = <u16 as Serializable>::spec_serialize(v.1);
        let e3 = <Text as Serializable>::spec_serialize(v.2);
        assert(Self::spec_serialize(v) + rest =~= e1 + (e2 + (e3 + rest)));
        lemma_chunk_reads::<u32>(v.0, e2 + (e3 + rest));
        lemma_chunk_reads::<u16>(v.1, e3 + rest);
        lemma_chunk_reads::<Text>(v.2, rest);
    }

    proof fn lemma_deserialize_prefix(data: Seq<u8>) {
        if let Ok((f0, n1)) = <u32 as Serializable>::spec_deserialize(data) {
            <u32 as Serializable>::lemma_deserialize_prefix(data);
            if let Ok((f1, n2)) = <u16 as Serializable>::spec_deserialize(data.skip(n1)) {
                <u16 as Serializable>::lemma_deserialize_prefix(data.skip(n1));
                if let Ok((f2, n3)) = <Text as Serializable>::spec_deserialize(
                    data.skip(n1).skip(n2),
                ) {
                    <Text as Serializable>::lemma_deserialize_prefix(data.skip(n1).skip(n2));
                    assert(Self::spec_serialize((f0, f1, f2)) =~= data.subrange(0, n1 + n2 + n3));
                }
            }
        }
    }

    proof fn lemma_truncated(v: (u32, u16, Seq<u8>), n: int) {
        let e1 = <u32 as Serializable>::spec_serialize(v.0);
        let e2 = <u16 as Serializable>::spec_serialize(v.1);
        let e3 = <Text as Serializable>::spec_serialize(v.2);
        assert(Self::spec_serialize(v) =~= e1 + (e2 + e3));
        lemma_chunk_prefix::<u32>(v.0, e2 + e3, n);
        if n >= e1.len() {
            lemma_chunk_prefix::<u16>(v.1, e3, n - e1.len());
            if n - e1.len() >= e2.len() {
                <Text as Serializable>::lemma_truncated(v.2, n - e1.len() - e2.len());
            }
        }
    }

    fn serialize(&self) -> (out: Vec<u8>) {
        let mut out = self.0.serialize();
        let eb = self.1.serialize();
        push_bytes(&mut out, eb.as_slice());
        let ec = self.2.serialize();
        push_bytes(&mut out, ec.as_slice());
        proof {
            assert(out@ =~= Self::spec_serialize(self.deep_view()));
        }
        out
    }

    fn deserialize(data: &[u8]) -> (r: Result<(Self, usize), DecodeError>) {
        let (f0, n1) = match <u32 as Serializable>::deserialize(data) {
            Ok(p) => p,
            Err(e) => {
                return Err(e);
            },
        };
        let sub1 = slice_subrange(data, n1, data.len());
        proof {
            assert(sub1@ =~= data@.skip(n1 as int));
        }
        let (f1, n2) = match <u16 as Serializable>::deserialize(sub1) {
            Ok(p) => p,
            Err(e) => {
                return Err(e);
            },
        };
        let sub2 = slice_subrange(sub1, n2, sub1.len());
        proof {
            assert(sub2@ =~= data@.skip(n1 as int).skip(n2 as int));
        }
        let (f2, n3) = match <Text as Serializable>::deserialize(sub2) {
            Ok(p) => p,
            Err(e) => {
                return Err(e);
            },
        };
        Ok((UnnamedTestStruct(f0, f1, f2), n1 + n2 + n3))
    }
}

/// An empty record: it encodes to zero bytes, and decoding consumes
/// nothing.
#[derive(Debug, PartialEq, Eq, Structural)]
pub struct UnitTestStruct;

impl DeepView for UnitTestStruct {
    type V = ();

    open spec fn deep_view(&self) -> () {
        ()
    }
}

impl Serializable for UnitTestStruct {
    open spec fn wf(v: ()) -> bool {
        true
    }

    open spec fn spec_serialize(v: ()) -> Seq<u8> {
        Seq::empty()
    }

    open spec fn spec_deserialize(data: Seq<u8>) -> Result<((), int), DecodeError> {
        Ok(((), 0))
    }

    proof fn lemma_serialize_deserialize(v: (), rest: Seq<u8>) {
    }

    proof fn lemma_deserialize_prefix(data: Seq<u8>) {
        assert(Seq::<u8>::empty() =~= data.subrange(0, 0));
    }

    proof fn lemma_truncated(v: (), n: int) {
    }

    fn serialize(&self) -> (out: Vec<u8>) {
        let out = Vec::new();
        proof {
            assert(out@ =~= Seq::<u8>::empty());
        }
        out
    }

    fn deserialize(data: &[u8]) -> (r: Result<(Self, usize), DecodeError>) {
        Ok((UnitTestStruct, 0))
    }
}

/// A tagged union: one byte holding the variant's zero-based position in
/// the declared list, then that variant's record encoding.
#[derive(Debug)]
pub enum TestEnum {
    A(u32),
    B(u16),
    C(Text),
    D,
    E { f: u32, g: u16, h: Text },
}

/// The mathematical value of a [`TestEnum`].
pub enum TestEnumView {
    A(u32),
    B(u16),
    C(Seq<u8>),
    D,
    E { f: u32, g: u16, h: Seq<u8> },
}

impl DeepView for TestEnum {
    type V = TestEnumView;

    open spec fn deep_view(&self) -> TestEnumView {
        match self {
            TestEnum::A(x) => TestEnumView::A(*x),
            TestEnum::B(x) => TestEnumView::B(*x),
            TestEnum::C(t) => TestEnumView::C(t.deep_view()),
            TestEnum::D => TestEnumView::D,
            TestEnum::E { f, g, h } => TestEnumView::E { f: *f, g: *g, h: h.deep_view() },
        }
    }
}

impl PartialEq for TestEnum {
    fn eq(&self, other: &Self) -> (r: bool) {
        match (self, other) {
            (TestEnum::A(x), TestEnum::A(y)) => x == y,
            (TestEnum::B(x), TestEnum::B(y)) => x == y,
            (TestEnum::C(x), TestEnum::C(y)) => x == y,
            (TestEnum::D, TestEnum::D) => true,
            (
                TestEnum::E { f: f1, g: g1, h: h1 },
                TestEnum::E { f: f2, g: g2, h: h2 },
            ) => *f1 == *f2 && *g1 == *g2 && h1 == h2,
            _ => false,
        }
    }
}

impl vstd::std_specs::cmp::PartialEqSpecImpl for TestEnum {
    open spec fn obeys_eq_spec() -> bool {
        true
    }

    open spec fn eq_spec(&self, other: &TestEnum) -> bool {
        match (self, other) {
            (TestEnum::A(x), TestEnum::A(y)) => x == y,
            (TestEnum::B(x), TestEnum::B(y)) => x == y,
            (TestEnum::C(x), TestEnum::C(y)) => x.bytes@ == y.bytes@,
            (TestEnum::D, TestEnum::D) => true,
            (
                TestEnum::E { f: f1, g: g1, h: h1 },
                TestEnum::E { f: f2, g: g2, h: h2 },
            ) => f1 == f2 && g1 == g2 && h1.bytes@ == h2.bytes@,
            _ => false,
        }
    }
}

impl Serializable for TestEnum {
    open spec fn wf(v: TestEnumView) -> bool {
        match v {
            TestEnumView::A(x) => true,
            TestEnumView::B(x) => true,
            TestEnumView::C(t) => <Text as Serializable>::wf(t),
            TestEnumView::D => true,
            TestEnumView::E { f, g, h } => <Text as Serializable>::wf(h),
        }
    }

    open spec fn spec_serialize(v: TestEnumView) -> Seq<u8> {
        match v {
            TestEnumView::A(x) => seq![0u8] + <u32 as Serializable>::spec_serialize(x),
            TestEnumView::B(x) => seq![1u8] + <u16 as Serializable>::spec_serialize(x),
            TestEnumView::C(t) => seq![2u8] + <Text as Serializable>::spec_serialize(t),
            TestEnumView::D => seq![3u8],
            TestEnumView::E { f, g, h } => seq![4u8] + <u32 as Serializable>::spec_serialize(f)
                + <u16 as Serializable>::spec_serialize(g) + <Text as Serializable>::spec_serialize(
                h,
            ),
        }
    }

    open spec fn spec_deserialize(data: Seq<u8>) -> Result<(TestEnumView, int), DecodeError> {
        if data.len() < 1 {
            Err(DecodeError::TruncatedInput)
        } else {
            let tag = data[0];
            if tag == 0 {
                match <u32 as Serializable>::spec_deserialize(data.skip(1)) {
                    Err(e) => Err(e),
                    Ok((x, n)) => Ok((TestEnumView::A(x), 1 + n)),
                }
            } else if tag == 1 {
                match <u16 as Serializable>::spec_deserialize(data.skip(1)) {
                    Err(e) => Err(e),
                    Ok((x, n)) => Ok((TestEnumView::B(x), 1 + n)),
                }
            } else if tag == 2 {
                match <Text as Serializable>::spec_deserialize(data.skip(1)) {
                    Err(e) => Err(e),
                    Ok((t, n)) => Ok((TestEnumView::C(t), 1 + n)),
                }
            } else if tag == 3 {
                Ok((TestEnumView::D, 1))
            } else if tag == 4 {
                match <u32 as Serializable>::spec_deserialize(data.skip(1)) {
                    Err(e) => Err(e),
                    Ok((f, n1)) => match <u16 as Serializable>::spec_deserialize(
                        data.skip(1).skip(n1),
                    ) {
                        Err(e) => Err(e),
                        Ok((g, n2)) => match <Text as Serializable>::spec_deserialize(
                            data.skip(1).skip(n1).skip(n2),
                        ) {
                            Err(e) => Err(e),
                            Ok((h, n3)) => Ok((TestEnumView::E { f, g, h }, 1 + n1 + n2 + n3)),
                        },
                    },
                }
            } else {
                Err(DecodeError::InvalidDiscriminant)
            }
        }
    }

    proof fn lemma_serialize_deserialize(v: TestEnumView, rest: Seq<u8>) {
        let data = Self::spec_serialize(v) + rest;
        match v {
            TestEnumView::A(x) => {
                assert(data[0] == 0);
                assert(data.skip(1) =~= <u32 as Serializable>::spec_serialize(x) + rest);
                lemma_chunk_reads::<u32>(x, rest);
            },
            TestEnumView::B(x) => {
                assert(data[0] == 1);
                assert(data.skip(1) =~= <u16 as Serializable>::spec_serialize(x) + rest);
                lemma_chunk_reads::<u16>(x, rest);
            },
            TestEnumView::C(t) => {
                assert(data[0] == 2);
                assert(data.skip(1) =~= <Text as Serializable>::spec_serialize(t) + rest);
                lemma_chunk_reads::<Text>(t, rest);
            },
            TestEnumView::D => {
                assert(data[0] == 3);
            },
            TestEnumView::E { f, g, h } => {
                let e1 = <u32 as Serializable>::spec_serialize(f);
                let e2 = <u16 as Serializable>::spec_serialize(g);
                let e3 = <Text as Serializable>::spec_serialize(h);
                assert(data[0] == 4);
                assert(data.skip(1) =~= e1 + (e2 + (e3 + rest)));
                lemma_chunk_reads::<u32>(f, e2 + (e3 + rest));
                lemma_chunk_reads::<u16>(g, e3 + rest);
                lemma_chunk_reads::<Text>(h, rest);
            },
        }
    }

    proof fn lemma_deserialize_prefix(data: Seq<u8>) {
        if data.len() >= 1 {
            let tag = data[0];
            if tag == 0 {
                <u32 as Serializable>::lemma_deserialize_prefix(data.skip(1));
                if let Ok((x, n)) = <u32 as Serializable>::spec_deserialize(data.skip(1)) {
                    assert(seq![0u8] + <u32 as Serializable>::spec_serialize(x) =~= data.subrange(
                        0,
                        1 + n,
                    ));
                }
            } else if tag == 1 {
                <u16 as Serializable>::lemma_deserialize_prefix(data.skip(1));
                if let Ok((x, n)) = <u16 as Serializable>::spec_deserialize(data.skip(1)) {
                    assert(seq![1u8] + <u16 as Serializable>::spec_serialize(x) =~= data.subrange(
                        0,
                        1 + n,
                    ));
                }
            } else if tag == 2 {
                <Text as Serializable>::lemma_deserialize_prefix(data.skip(1));
                if let Ok((t, n)) = <Text as Serializable>::spec_deserialize(data.skip(1)) {
                    assert(seq![2u8] + <Text as Serializable>::spec_serialize(t) =~= data.subrange(
                        0,
                        1 + n,
                    ));
                }
            } else if tag == 3 {
                assert(seq![3u8] =~= data.subrange(0, 1));
            } else if tag == 4 {
                if let Ok((f, n1)) = <u32 as Serializable>::spec_deserialize(data.skip(1)) {
                    <u32 as Serializable>::lemma_deserialize_prefix(data.skip(1));
                    if let Ok((g, n2)) = <u16 as Serializable>::spec_deserialize(
                        data.skip(1).skip(n1),
                    ) {
                        <u16 as Serializable>::lemma_deserialize_prefix(data.skip(1).skip(n1));
                        if let Ok((h, n3)) = <Text as Serializable>::spec_deserialize(
                            data.skip(1).skip(n1).skip(n2),
                        ) {
                            <Text as Serializable>::lemma_deserialize_prefix(
                                data.skip(1).skip(n1).skip(n2),
                            );
                            assert(Self::spec_serialize(TestEnumView::E { f, g, h })
                                =~= data.subrange(0, 1 + n1 + n2 + n3));
                        }
                    }
                }
            }
        }
    }

    proof fn lemma_truncated(v: TestEnumView, n: int) {
        let ser = Self::spec_serialize(v);
        let cut = ser.subrange(0, n);
        if n >= 1 {
            assert(cut[0] == ser[0]);
            match v {
                TestEnumView::A(x) => {
                    assert(cut.skip(1) =~= <u32 as Serializable>::spec_serialize(x).subrange(
                        0,
                        n - 1,
                    ));
                    <u32 as Serializable>::lemma_truncated(x, n - 1);
                },
                TestEnumView::B(x) => {
                    assert(cut.skip(1) =~= <u16 as Serializable>::spec_serialize(x).subrange(
                        0,
                        n - 1,
                    ));
                    <u16 as Serializable>::lemma_truncated(x, n - 1);
                },
                TestEnumView::C(t) => {
                    assert(cut.skip(1) =~= <Text as Serializable>::spec_serialize(t).subrange(
                        0,
                        n - 1,
                    ));
                    <Text as Serializable>::lemma_truncated(t, n - 1);
                },
                TestEnumView::D => {
                },
                TestEnumView::E { f, g, h } => {
                    let e1 = <u32 as Serializable>::spec_serialize(f);
                    let e2 = <u16 as Serializable>::spec_serialize(g);
                    let e3 = <Text as Serializable>::spec_serialize(h);
                    assert(cut.skip(1) =~= (e1 + (e2 + e3)).subrange(0, n - 1));
                    lemma_chunk_prefix::<u32>(f, e2 + e3, n - 1);
                    if n - 1 >= e1.len() {
                        lemma_chunk_prefix::<u16>(g, e3, n - 1 - e1.len());
                        if n - 1 - e1.len() >= e2.len() {
                            <Text as Serializable>::lemma_truncated(
                                h,
                                n - 1 - e1.len() - e2.len(),
                            );
                        }
                    }
                },
            }
        }
    }

    fn serialize(&self) -> (out: Vec<u8>) {
        let mut out = Vec::new();
        match self {
            TestEnum::A(x) => {
                out.push(0);
                let e = x.serialize();
                push_bytes(&mut out, e.as_slice());
            },
            TestEnum::B(x) => {
                out.push(1);
                let e = x.serialize();
                push_bytes(&mut out, e.as_slice());
            },
            TestEnum::C(t) => {
                out.push(2);
                let e = t.serialize();
                push_bytes(&mut out, e.as_slice());
            },
            TestEnum::D => {
                out.push(3);
            },
            TestEnum::E { f, g, h } => {
                out.push(4);
                let e1 = f.serialize();
                push_bytes(&mut out, e1.as_slice());
                let e2 = g.serialize();
                push_bytes(&mut out, e2.as_slice());
                let e3 = h.serialize();
                push_bytes(&mut out, e3.as_slice());
            },
        }
        proof {
            assert(out@ =~= Self::spec_serialize(self.deep_view()));
        }
        out
    }

    fn deserialize(data: &[u8]) -> (r: Result<(Self, usize), DecodeError>) {
        if data.len() < 1 {
            return Err(DecodeError::TruncatedInput);
        }
        let tag = data[0];
        let body = slice_subrange(data, 1, data.len());
        proof {
            assert(body@ =~= data@.skip(1));
        }
        if tag == 0 {
            match <u32 as Serializable>::deserialize(body) {
                Err(e) => Err(e),
                Ok((x, n)) => Ok((TestEnum::A(x), 1 + n)),
            }
        } else if tag == 1 {
            match <u16 as Serializable>::deserialize(body) {
                Err(e) => Err(e),
                Ok((x, n)) => Ok((TestEnum::B(x), 1 + n)),
            }
        } else if tag == 2 {
            match <Text as Serializable>::deserialize(body) {
                Err(e) => Err(e),
                Ok((t, n)) => Ok((TestEnum::C(t), 1 + n)),
            }
        } else if tag == 3 {
            Ok((TestEnum::D, 1))
        } else if tag == 4 {
            let (f, n1) = match <u32 as Serializable>::deserialize(body) {
                Ok(p) => p,
                Err(e) => {
                    return Err(e);
                },
            };
            let sub1 = slice_subrange(body, n1, body.len());
            proof {
                assert(sub1@ =~= data@.skip(1).skip(n1 as int));
            }
            let (g, n2) = match <u16 as Serializable>::deserialize(sub1) {
                Ok(p) => p,
                Err(e) => {
                    return Err(e);
                },
            };
            let sub2 = slice_subrange(sub1, n2, sub1.len());
            proof {
                assert(sub2@ =~= data@.skip(1).skip(n1 as int).skip(n2 as int));
            }
            let (h, n3) = match <Text as Serializable>::deserialize(sub2) {
                Ok(p) => p,
                Err(e) => {
                    return Err(e);
                },
            };
            Ok((TestEnum::E { f, g, h }, 1 + n1 + n2 + n3))
        } else {
            Err(DecodeError::InvalidDiscriminant)
        }
    }
}

/// Decoding a union encoding whose stored index is at or past the variant
/// count fails with an invalid-discriminant error.
pub proof fn lemma_discriminant_bound(data: Seq<u8>)
    requires
        data.len() >= 1,
        data[0] >= 5,
    ensures
        <TestEnum as Serializable>::spec_deserialize(data) == Err::<(TestEnumView, int), DecodeError>(
            DecodeError::InvalidDiscriminant,
        ),
{
}

/// A record holding a sequence: the sequence field encodes as a four-byte
/// count and then its elements, inside the record's field concatenation.
#[derive(Debug)]
pub struct TestStructWithVec {
    pub a: u32,
    pub b: u16,
    pub c: Vec<u8>,
}

/// The mathematical value of a [`TestStructWithVec`].
pub struct TestStructWithVecView {
    pub a: u32,
    pub b: u16,
    pub c: Seq<u8>,
}

impl DeepView for TestStructWithVec {
    type V = TestStructWithVecView;

    open spec fn deep_view(&self) -> TestStructWithVecView {
        TestStructWithVecView { a: self.a, b: self.b, c: self.c.deep_view() }
    }
}

impl PartialEq for TestStructWithVec {
    fn eq(&self, other: &Self) -> (r: bool) {
        if !(self.a == other.a && self.b == other.b && self.c.len() == other.c.len()) {
            proof {
                if self.c@.len() != other.c@.len() {
                    assert(self.c@ != other.c@);
                }
            }
            return false;
        }
        let n = self.c.len();
        let mut k: usize = 0;
        while k < n
            invariant
                n == self.c@.len(),
                n == other.c@.len(),
                k <= n,
                self.a == other.a,
                self.b == other.b,
                forall|j: int| 0 <= j < k ==> self.c@[j] == other.c@[j],
            decreases n - k,
        {
            if self.c[k] != other.c[k] {
                proof {
                    assert(self.c@ != other.c@);
                }
                return false;
            }
            k = k + 1;
        }
        proof {
            assert(self.c@ =~= other.c@);
        }
        true
    }
}

impl vstd::std_specs::cmp::PartialEqSpecImpl for TestStructWithVec {
    open spec fn obeys_eq_spec() -> bool {
        true
    }

    open spec fn eq_spec(&self, other: &TestStructWithVec) -> bool {
        self.a == other.a && self.b == other.b && self.c@ == other.c@
    }
}

impl Serializable for TestStructWithVec {
    open spec fn wf(v: TestStructWithVecView) -> bool {
        <Vec<u8> as Serializable>::wf(v.c)
    }

    open spec fn spec_serialize(v: TestStructWithVecView) -> Seq<u8> {
        <u32 as Serializable>::spec_serialize(v.a) + <u16 as Serializable>::spec_serialize(v.b)
            + <Vec<u8> as Serializable>::spec_serialize(v.c)
    }

    open spec fn spec_deserialize(data: Seq<u8>) -> Result<
        (TestStructWithVecView, int),
        DecodeError,
    > {
        match <u32 as Serializable>::spec_deserialize(data) {
            Err(e) => Err(e),
            Ok((a, n1)) => match <u16 as Serializable>::spec_deserialize(data.skip(n1)) {
                Err(e) => Err(e),
                Ok((b, n2)) => match <Vec<u8> as Serializable>::spec_deserialize(
                    data.skip(n1).skip(n2),
                ) {
                    Err(e) => Err(e),
                    Ok((c, n3)) => Ok((TestStructWithVecView { a, b, c }, n1 + n2 + n3)),
                },
            },
        }
    }

    proof fn lemma_serialize_deserialize(v: TestStructWithVecView, rest: Seq<u8>) {
        let e1 = <u32 as Serializable>::spec_serialize(v.a);
        let e2 = <u16 as Serializable>::spec_serialize(v.b);
        let e3 = <Vec<u8> as Serializable>::spec_serialize(v.c);
        assert(Self::spec_serialize(v) + rest =~= e1 + (e2 + (e3 + rest)));
        lemma_chunk_reads::<u32>(v.a, e2 + (e3 + rest));
        lemma_chunk_reads::<u16>(v.b, e3 + rest);
        lemma_chunk_reads::<Vec<u8>>(v.c, rest);
    }

    proof fn lemma_deserialize_prefix(data: Seq<u8>) {
        if let Ok((a, n1)) = <u32 as Serializable>::spec_deserialize(data) {
            <u32 as Serializable>::lemma_deserialize_prefix(data);
            if let Ok((b, n2)) = <u16 as Serializable>::spec_deserialize(data.skip(n1)) {
                <u16 as Serializable>::lemma_deserialize_prefix(data.skip(n1));
                if let Ok((c, n3)) = <Vec<u8> as Serializable>::spec_deserialize(
                    data.skip(n1).skip(n2),
                ) {
                    <Vec<u8> as Serializable>::lemma_deserialize_prefix(data.skip(n1).skip(n2));
                    assert(Self::spec_serialize(TestStructWithVecView { a, b, c })
                        =~= data.subrange(0, n1 + n2 + n3));
                }
            }
        }
    }

    proof fn lemma_truncated(v: TestStructWithVecView, n: int) {
        let e1 = <u32 as Serializable>::spec_serialize(v.a);
        let e2 = <u16 as Serializable>::spec_serialize(v.b);
        let e3 = <Vec<u8> as Serializable>::spec_serialize(v.c);
        assert(Self::spec_serialize(v) =~= e1 + (e2 + e3));
        lemma_chunk_prefix::<u32>(v.a, e2 + e3, n);
        if n >= e1.len() {
            lemma_chunk_prefix::<u16>(v.b, e3, n - e1.len());
            if n - e1.len() >= e2.len() {
                <Vec<u8> as Serializable>::lemma_truncated(v.c, n - e1.len() - e2.len());
            }
        }
    }

    fn serialize(&self) -> (out: Vec<u8>) {
        let mut out = self.a.serialize();
        let eb = self.b.serialize();
        push_bytes(&mut out, eb.as_slice());
        let ec = self.c.serialize();
        push_bytes(&mut out, ec.as_slice());
        proof {
            assert(out@ =~= Self::spec_serialize(self.deep_view()));
        }
        out
    }

    fn deserialize(data: &[u8]) -> (r: Result<(Self, usize), DecodeError>) {
        let (a, n1) = match <u32 as Serializable>::deserialize(data) {
            Ok(p) => p,
            Err(e) => {
                return Err(e);
            },
        };
        let sub1 = slice_subrange(data, n1, data.len());
        proof {
            assert(sub1@ =~= data@.skip(n1 as int));
        }
        let (b, n2) = match <u16 as Serializable>::deserialize(sub1) {
            Ok(p) => p,
            Err(e) => {
                return Err(e);
            },
        };
        let sub2 = slice_subrange(sub1, n2, sub1.len());
        proof {
            assert(sub2@ =~= data@.skip(n1 as int).skip(n2 as int));
        }
        let (c, n3) = match <Vec<u8> as Serializable>::deserialize(sub2) {
            Ok(p) => p,
            Err(e) => {
                return Err(e);
            },
        };
        Ok((TestStructWithVec { a, b, c }, n1 + n2 + n3))
    }
}

} // verus!
