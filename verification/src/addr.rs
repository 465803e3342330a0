//! The network-address codec.  An address is held as plain values — the
//! four octets or eight segments, and the port — so the layout can be
//! stated exactly: one family byte (0 for a four-octet address, 1 for a
//! sixteen-octet one), the address bytes big-endian, then a two-byte
//! big-endian port, 7 or 19 bytes in all.

use vstd::prelude::*;
use crate::bytes::lemma_be16_of16;
use crate::bytes::lemma_of16_be16;
use crate::bytes::of16;
use crate::bytes::push_be16;
use crate::bytes::read_be16;
use crate::serializable::DecodeError;
use crate::serializable::Serializable;

verus! {

/// A socket address as plain values: a version-4 address with its four
/// octets, or a version-6 address with its eight 16-bit segments, each with
/// a port.
#[derive(Clone, Copy, Debug, PartialEq, Eq, Structural)]
pub enum SockAddr {
    /// A four-octet address and a port.
    V4 { o0: u8, o1: u8, o2: u8, o3: u8, port: u16 },
    /// An eight-segment address and a port.
    V6 { s0: u16, s1: u16, s2: u16, s3: u16, s4: u16, s5: u16, s6: u16, s7: u16, port: u16 },
}

impl DeepView for SockAddr {
    type V = SockAddr;

    open spec fn deep_view(&self) -> SockAddr {
        *self
    }
}

impl Serializable for SockAddr {
    open spec fn wf(v: SockAddr) -> bool {
        true
    }

    open spec fn spec_serialize(v: SockAddr) -> Seq<u8> {
        match v {
            SockAddr::V4 { o0, o1, o2, o3, port } => seq![
                0u8,
                o0,
                o1,
                o2,
                o3,
                (port >> 8) as u8,
                port as u8,
            ],
            SockAddr::V6 { s0, s1, s2, s3, s4, s5, s6, s7, port } => seq![
                1u8,
                (s0 >> 8) as u8,
                s0 as u8,
                (s1 >> 8) as u8,
                s1 as u8,
                (s2 >> 8) as u8,
                s2 as u8,
                (s3 >> 8) as u8,
                s3 as u8,
                (s4 >> 8) as u8,
                s4 as u8,
                (s5 >> 8) as u8,
                s5 as u8,
                (s6 >> 8) as u8,
                s6 as u8,
                (s7 >> 8) as u8,
                s7 as u8,
                (port >> 8) as u8,
                port as u8,
            ],
        }
    }

    open spec fn spec_deserialize(data: Seq<u8>) -> Result<(SockAddr, int), DecodeError> {
        if data.len() < 1 {
            Err(DecodeError::TruncatedInput)
        } else if data[0] == 0 {
            if data.len() < 7 {
                Err(DecodeError::TruncatedInput)
            } else {
                Ok(
                    (
                        SockAddr::V4 {
                            o0: data[1],
                            o1: data[2],
                            o2: data[3],
                            o3: data[4],
                            port: of16(data[5], data[6]),
                        },
                        7,
                    ),
                )
            }
        } else if data[0] == 1 {
            if data.len() < 19 {
                Err(DecodeError::TruncatedInput)
            } else {
                Ok(
                    (
                        SockAddr::V6 {
                            s0: of16(data[1], data[2]),
                            s1: of16(data[3], data[4]),
                            s2: of16(data[5], data[6]),
                            s3: of16(data[7], data[8]),
                            s4: of16(data[9], data[10]),
                            s5: of16(data[11], data[12]),
                            s6: of16(data[13], data[14]),
                            s7: of16(data[15], data[16]),
                            port: of16(data[17], data[18]),
                        },
                        19,
                    ),
                )
            }
        } else {
            Err(DecodeError::InvalidDiscriminant)
        }
    }

    proof fn lemma_serialize_deserialize(v: SockAddr, rest: Seq<u8>) {
        let ser = Self::spec_serialize(v);
        let data = ser + rest;
        assert(forall|i: int| 0 <= i < ser.len() ==> data[i] == ser[i]);
        match v {
            SockAddr::V4 { o0, o1, o2, o3, port } => {
                lemma_be16_of16(port);
            },
            SockAddr::V6 { s0, s1, s2, s3, s4, s5, s6, s7, port } => {
                lemma_be16_of16(s0);
                lemma_be16_of16(s1);
                lemma_be16_of16(s2);
                lemma_be16_of16(s3);
                lemma_be16_of16(s4);
                lemma_be16_of16(s5);
                lemma_be16_of16(s6);
                lemma_be16_of16(s7);
                lemma_be16_of16(port);
            },
        }
    }

    proof fn lemma_deserialize_prefix(data: Seq<u8>) {
        if data.len() >= 1 && data[0] == 0 && data.len() >= 7 {
            lemma_of16_be16(data[5], data[6]);
            assert(Self::spec_serialize(
                SockAddr::V4 {
                    o0: data[1],
                    o1: data[2],
                    o2: data[3],
                    o3: data[4],
                    port: of16(data[5], data[6]),
                },
            ) =~= data.subrange(0, 7));
        }
        if data.len() >= 1 && data[0] == 1 && data.len() >= 19 {
            lemma_of16_be16(data[1], data[2]);
            lemma_of16_be16(data[3], data[4]);
            lemma_of16_be16(data[5], data[6]);
            lemma_of16_be16(data[7], data[8]);
            lemma_of16_be16(data[9], data[10]);
            lemma_of16_be16(data[11], data[12]);
            lemma_of16_be16(data[13], data[14]);
            lemma_of16_be16(data[15], data[16]);
            lemma_of16_be16(data[17], data[18]);
            assert(Self::spec_serialize(
                SockAddr::V6 {
                    s0: of16(data[1], data[2]),
                    s1: of16(data[3], data[4]),
                    s2: of16(data[5], data[6]),
                    s3: of16(data[7], data[8]),
                    s4: of16(data[9], data[10]),
                    s5: of16(data[11], data[12]),
                    s6: of16(data[13], data[14]),
                    s7: of16(data[15], data[16]),
                    port: of16(data[17], data[18]),
                },
            ) =~= data.subrange(0, 19));
        }
    }

    proof fn lemma_truncated(v: SockAddr, n: int) {
        let ser = Self::spec_serialize(v);
        let cut = ser.subrange(0, n);
        if n >= 1 {
            assert(cut[0] == ser[0]);
        }
    }

    fn serialize(&self) -> (out: Vec<u8>) {
        let mut out = Vec::new();
        match self {
            SockAddr::V4 { o0, o1, o2, o3, port } => {
                out.push(0);
                out.push(*o0);
                out.push(*o1);
                out.push(*o2);
                out.push(*o3);
                push_be16(&mut out, *port);
                proof {
                    assert(out@ =~= Self::spec_serialize(*self));
                }
            },
            SockAddr::V6 { s0, s1, s2, s3, s4, s5, s6, s7, port } => {
                out.push(1);
                push_be16(&mut out, *s0);
                push_be16(&mut out, *s1);
                push_be16(&mut out, *s2);
                push_be16(&mut out, *s3);
                push_be16(&mut out, *s4);
                push_be16(&mut out, *s5);
                push_be16(&mut out, *s6);
                push_be16(&mut out, *s7);
                push_be16(&mut out, *port);
                proof {
                    assert(out@ =~= Self::spec_serialize(*self));
                }
            },
        }
        out
    }

    fn deserialize(data: &[u8]) -> (r: Result<(Self, usize), DecodeError>) {
        if data.len() < 1 {
            return Err(DecodeError::TruncatedInput);
        }
        if data[0] == 0 {
            if data.len() < 7 {
                return Err(DecodeError::TruncatedInput);
            }
            let port = read_be16(data, 5);
            Ok(
                (
                    SockAddr::V4 {
                        o0: data[1],
                        o1: data[2],
                        o2: data[3],
                        o3: data[4],
                        port,
                    },
                    7,
                ),
            )
        } else if data[0] == 1 {
            if data.len() < 19 {
                return Err(DecodeError::TruncatedInput);
            }
            Ok(
                (
                    SockAddr::V6 {
                        s0: read_be16(data, 1),
                        s1: read_be16(data, 3),
                        s2: read_be16(data, 5),
                        s3: read_be16(data, 7),
                        s4: read_be16(data, 9),
                        s5: read_be16(data, 11),
                        s6: read_be16(data, 13),
                        s7: read_be16(data, 15),
                        port: read_be16(data, 17),
                    },
                    19,
                ),
            )
        } else {
            Err(DecodeError::InvalidDiscriminant)
        }
    }
}

} // verus!
