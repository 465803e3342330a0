use serializable::addr::SockAddr;
use serializable::timestamp::Timestamp;
use serializable::DecodeError;
use serializable::Serializable;

#[test]
fn sockaddr_v4_layout() {
    let a = SockAddr::V4 { o0: 127, o1: 0, o2: 0, o3: 1, port: 8080 };
    let serialized = a.serialize();
    assert_eq!(serialized, vec![0, 127, 0, 0, 1, 0x1F, 0x90]);
    let (decoded, n) = SockAddr::deserialize(&serialized).unwrap();
    assert_eq!(decoded, a);
    assert_eq!(n, 7);
}

#[test]
fn sockaddr_v6_layout() {
    let a = SockAddr::V6 {
        s0: 0x2001,
        s1: 0x0DB8,
        s2: 0,
        s3: 0,
        s4: 0,
        s5: 0,
        s6: 0,
        s7: 1,
        port: 443,
    };
    let serialized = a.serialize();
    assert_eq!(serialized.len(), 19);
    assert_eq!(serialized[0], 1);
    assert_eq!(&serialized[1..5], &[0x20, 0x01, 0x0D, 0xB8]);
    assert_eq!(&serialized[17..19], &[0x01, 0xBB]);
    let (decoded, n) = SockAddr::deserialize(&serialized).unwrap();
    assert_eq!(decoded, a);
    assert_eq!(n, 19);
}

#[test]
fn sockaddr_errors() {
    assert_eq!(SockAddr::deserialize(&[]).unwrap_err(), DecodeError::TruncatedInput);
    assert_eq!(SockAddr::deserialize(&[0, 1, 2]).unwrap_err(), DecodeError::TruncatedInput);
    assert_eq!(
        SockAddr::deserialize(&[1, 0, 0, 0, 0, 0, 0, 0]).unwrap_err(),
        DecodeError::TruncatedInput
    );
    assert_eq!(
        SockAddr::deserialize(&[2, 0, 0, 0, 0, 0, 0]).unwrap_err(),
        DecodeError::InvalidDiscriminant
    );
}

#[test]
fn timestamp_layout() {
    let t = Timestamp { secs: 0x0102030405060708 };
    let serialized = t.serialize();
    assert_eq!(serialized, vec![1, 2, 3, 4, 5, 6, 7, 8]);
    let (decoded, n) = Timestamp::deserialize(&serialized).unwrap();
    assert_eq!(decoded, t);
    assert_eq!(n, 8);
    assert_eq!(Timestamp::deserialize(&[1, 2, 3]).unwrap_err(), DecodeError::TruncatedInput);
}

#[test]
fn fixed_array_layout() {
    let a: [u16; 3] = [1, 2, 0xABCD];
    let serialized = a.serialize();
    assert_eq!(serialized, vec![0, 1, 0, 2, 0xAB, 0xCD]);
    let (decoded, n) = <[u16; 3]>::deserialize(&serialized).unwrap();
    assert_eq!(decoded, a);
    assert_eq!(n, 6);
    assert_eq!(
        <[u16; 3]>::deserialize(&[0, 1, 0, 2, 0xAB]).unwrap_err(),
        DecodeError::TruncatedInput
    );
}

#[test]
fn fixed_array_has_no_count_prefix() {
    let a: [u8; 4] = [9, 8, 7, 6];
    assert_eq!(a.serialize(), vec![9, 8, 7, 6]);
    let (decoded, n) = <[u8; 4]>::deserialize(&[9, 8, 7, 6, 0xAA]).unwrap();
    assert_eq!(decoded, a);
    assert_eq!(n, 4);
}

#[test]
fn float_bit_patterns_round_trip() {
    let x: f32 = 1.5;
    let serialized = x.to_bits().serialize();
    assert_eq!(serialized, vec![0x3F, 0xC0, 0x00, 0x00]);
    let (bits32, n32) = u32::deserialize(&serialized).unwrap();
    assert_eq!(f32::from_bits(bits32), 1.5f32);
    assert_eq!(n32, 4);

    let y: f64 = 1.0;
    let serialized64 = y.to_bits().serialize();
    assert_eq!(serialized64, vec![0x3F, 0xF0, 0, 0, 0, 0, 0, 0]);
    let (bits64, n64) = u64::deserialize(&serialized64).unwrap();
    assert_eq!(f64::from_bits(bits64), 1.0f64);
    assert_eq!(n64, 8);
}
