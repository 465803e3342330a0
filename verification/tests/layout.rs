use serializable::derived::NamedTestStruct;
use serializable::derived::TestEnum;
use serializable::derived::TestStructWithVec;
use serializable::derived::UnitTestStruct;
use serializable::derived::UnnamedTestStruct;
use serializable::text::Text;
use serializable::DecodeError;
use serializable::Serializable;

fn text(s: &str) -> Text {
    Text::new(s.to_string().into_bytes()).unwrap()
}

#[test]
fn named_record_layout() {
    let test_struct = NamedTestStruct { a: 0x12345678, b: 0x9ABC, c: text("Hello world") };
    let serialized = test_struct.serialize();
    let mut expected = vec![0x12, 0x34, 0x56, 0x78, 0x9A, 0xBC, 0x00, 0x00, 0x00, 0x0B];
    expected.extend_from_slice(b"Hello world");
    assert_eq!(serialized, expected);
    let (_, bytes_read) = NamedTestStruct::deserialize(&serialized).unwrap();
    assert_eq!(bytes_read, 21);
}

#[test]
fn positional_record_layout_matches_named() {
    let named = NamedTestStruct { a: 0x12345678, b: 0x9ABC, c: text("Hello world") };
    let positional = UnnamedTestStruct(0x12345678, 0x9ABC, text("Hello world"));
    assert_eq!(named.serialize(), positional.serialize());
}

#[test]
fn union_layout() {
    let value = TestEnum::C(text("Hello world"));
    let serialized = value.serialize();
    let mut expected = vec![0x02, 0x00, 0x00, 0x00, 0x0B];
    expected.extend_from_slice(b"Hello world");
    assert_eq!(serialized, expected);
    let (deserialized, bytes_read) = TestEnum::deserialize(&serialized).unwrap();
    assert_eq!(value, deserialized);
    assert_eq!(bytes_read, serialized.len());
}

#[test]
fn sequence_layout() {
    let test_struct = TestStructWithVec { a: 0x12345678, b: 0x9ABC, c: vec![1, 2, 3, 4, 5, 6, 7, 8, 9] };
    let serialized = test_struct.serialize();
    let expected = vec![
        0x12, 0x34, 0x56, 0x78, 0x9A, 0xBC, 0x00, 0x00, 0x00, 0x09, 1, 2, 3, 4, 5, 6, 7, 8, 9,
    ];
    assert_eq!(serialized, expected);
}

#[test]
fn unit_record_encodes_to_nothing() {
    assert_eq!(UnitTestStruct.serialize(), Vec::<u8>::new());
    let (_, bytes_read) = UnitTestStruct::deserialize(&[0xFF]).unwrap();
    assert_eq!(bytes_read, 0);
}

#[test]
fn every_proper_prefix_is_truncated() {
    let test_struct = NamedTestStruct { a: 0x12345678, b: 0x9ABC, c: text("Hello world") };
    let serialized = test_struct.serialize();
    for cut in 0..serialized.len() {
        let r = NamedTestStruct::deserialize(&serialized[..cut]);
        assert_eq!(r.unwrap_err(), DecodeError::TruncatedInput);
    }
}

#[test]
fn every_proper_prefix_of_union_is_truncated() {
    let value = TestEnum::E { f: 1, g: 2, h: text("abc") };
    let serialized = value.serialize();
    for cut in 0..serialized.len() {
        let r = TestEnum::deserialize(&serialized[..cut]);
        assert_eq!(r.unwrap_err(), DecodeError::TruncatedInput);
    }
}

#[test]
fn union_discriminant_out_of_range() {
    assert_eq!(TestEnum::deserialize(&[5]).unwrap_err(), DecodeError::InvalidDiscriminant);
    assert_eq!(
        TestEnum::deserialize(&[200, 1, 2, 3, 4]).unwrap_err(),
        DecodeError::InvalidDiscriminant
    );
    assert_eq!(TestEnum::deserialize(&[]).unwrap_err(), DecodeError::TruncatedInput);
}

#[test]
fn unsigned_layouts() {
    assert_eq!(0x12u8.serialize(), vec![0x12]);
    assert_eq!(0x1234u16.serialize(), vec![0x12, 0x34]);
    assert_eq!(0x12345678u32.serialize(), vec![0x12, 0x34, 0x56, 0x78]);
    assert_eq!(
        0x0102030405060708u64.serialize(),
        vec![0x01, 0x02, 0x03, 0x04, 0x05, 0x06, 0x07, 0x08]
    );
    assert_eq!(
        0x0102030405060708090A0B0C0D0E0F10u128.serialize(),
        vec![0x01, 0x02, 0x03, 0x04, 0x05, 0x06, 0x07, 0x08, 0x09, 0x0A, 0x0B, 0x0C, 0x0D, 0x0E, 0x0F, 0x10]
    );
    let (v, n) = u32::deserialize(&[0xAA, 0xBB, 0xCC, 0xDD, 0xEE]).unwrap();
    assert_eq!(v, 0xAABBCCDD);
    assert_eq!(n, 4);
    assert_eq!(u64::deserialize(&[1, 2, 3]).unwrap_err(), DecodeError::TruncatedInput);
}

#[test]
fn signed_layouts() {
    assert_eq!((-1i8).serialize(), vec![0xFF]);
    assert_eq!((-2i16).serialize(), vec![0xFF, 0xFE]);
    assert_eq!((-1i32).serialize(), vec![0xFF, 0xFF, 0xFF, 0xFF]);
    assert_eq!(i64::MIN.serialize(), vec![0x80, 0, 0, 0, 0, 0, 0, 0]);
    let (v, n) = i16::deserialize(&[0xFF, 0xFE]).unwrap();
    assert_eq!(v, -2);
    assert_eq!(n, 2);
    let (w, _) = i128::deserialize(&(-5i128).serialize()).unwrap();
    assert_eq!(w, -5);
}

#[test]
fn bool_layout_and_errors() {
    assert_eq!(true.serialize(), vec![1]);
    assert_eq!(false.serialize(), vec![0]);
    assert_eq!(bool::deserialize(&[1, 9]).unwrap(), (true, 1));
    assert_eq!(bool::deserialize(&[0]).unwrap(), (false, 1));
    assert_eq!(bool::deserialize(&[2]).unwrap_err(), DecodeError::InvalidValue);
    assert_eq!(bool::deserialize(&[]).unwrap_err(), DecodeError::TruncatedInput);
}

#[test]
fn option_layout_and_errors() {
    let some: Option<u16> = Some(0x1234);
    let none: Option<u16> = None;
    assert_eq!(some.serialize(), vec![1, 0x12, 0x34]);
    assert_eq!(none.serialize(), vec![0]);
    assert_eq!(Option::<u16>::deserialize(&[1, 0x12, 0x34]).unwrap(), (Some(0x1234u16), 3));
    assert_eq!(Option::<u16>::deserialize(&[0, 7, 7]).unwrap(), (None, 1));
    assert_eq!(Option::<u16>::deserialize(&[2]).unwrap_err(), DecodeError::InvalidDiscriminant);
    assert_eq!(Option::<u16>::deserialize(&[]).unwrap_err(), DecodeError::TruncatedInput);
    assert_eq!(Option::<u16>::deserialize(&[1, 0x12]).unwrap_err(), DecodeError::TruncatedInput);
}

#[test]
fn text_layout_and_errors() {
    let t = text("");
    assert_eq!(t.serialize(), vec![0, 0, 0, 0]);
    let (decoded, n) = Text::deserialize(&[0, 0, 0, 0]).unwrap();
    assert_eq!(decoded, t);
    assert_eq!(n, 4);
    assert_eq!(Text::deserialize(&[0, 0, 0]).unwrap_err(), DecodeError::TruncatedInput);
    assert_eq!(Text::deserialize(&[0, 0, 0, 2, b'a']).unwrap_err(), DecodeError::TruncatedInput);
    assert_eq!(Text::deserialize(&[0, 0, 0, 1, 0xFF]).unwrap_err(), DecodeError::InvalidText);
}

#[test]
fn utf8_validation() {
    assert!(Text::new(vec![0xFF]).is_none());
    assert!(Text::new(vec![0xC0, 0x80]).is_none());
    assert!(Text::new(vec![0xED, 0xA0, 0x80]).is_none());
    assert!(Text::new(vec![0xC3]).is_none());
    assert!(Text::new(vec![0xF5, 0x80, 0x80, 0x80]).is_none());
    for s in ["", "ascii", "caf\u{e9}", "\u{20ac}uro", "\u{1F600}", "\u{7ff}\u{800}\u{ffff}\u{10000}\u{10FFFF}"] {
        let t = Text::new(s.to_string().into_bytes()).unwrap();
        let serialized = t.serialize();
        let (decoded, n) = Text::deserialize(&serialized).unwrap();
        assert_eq!(decoded, t);
        assert_eq!(n, serialized.len());
        assert_eq!(String::from_utf8(decoded.bytes).unwrap(), s);
    }
}

#[test]
fn nested_containers_round_trip() {
    let v: Vec<Option<u16>> = vec![Some(1), None, Some(0xFFFF)];
    let serialized = v.serialize();
    assert_eq!(serialized, vec![0, 0, 0, 3, 1, 0, 1, 0, 1, 0xFF, 0xFF]);
    let (decoded, n) = Vec::<Option<u16>>::deserialize(&serialized).unwrap();
    assert_eq!(decoded, v);
    assert_eq!(n, serialized.len());
}

#[test]
fn vec_truncated_mid_element() {
    let v: Vec<u32> = vec![1, 2];
    let serialized = v.serialize();
    for cut in 0..serialized.len() {
        let r = Vec::<u32>::deserialize(&serialized[..cut]);
        assert_eq!(r.unwrap_err(), DecodeError::TruncatedInput);
    }
}

#[test]
fn empty_sequence_layout() {
    let v: Vec<u8> = vec![];
    let serialized = v.serialize();
    assert_eq!(serialized, vec![0, 0, 0, 0]);
    let (decoded, n) = Vec::<u8>::deserialize(&serialized).unwrap();
    assert_eq!(decoded, v);
    assert_eq!(n, 4);
}

#[test]
fn nested_sequences_round_trip() {
    let v: Vec<Vec<u8>> = vec![vec![1, 2], vec![], vec![3]];
    let serialized = v.serialize();
    assert_eq!(
        serialized,
        vec![0, 0, 0, 3, 0, 0, 0, 2, 1, 2, 0, 0, 0, 0, 0, 0, 0, 1, 3]
    );
    let (decoded, n) = Vec::<Vec<u8>>::deserialize(&serialized).unwrap();
    assert_eq!(decoded, v);
    assert_eq!(n, serialized.len());
}

#[test]
fn wide_integers_round_trip() {
    let u: u128 = 0xFFEEDDCCBBAA99887766554433221100;
    let (du, nu) = u128::deserialize(&u.serialize()).unwrap();
    assert_eq!(du, u);
    assert_eq!(nu, 16);
    let i: i128 = -0x0102030405060708090A0B0C0D0E0F;
    let (di, ni) = i128::deserialize(&i.serialize()).unwrap();
    assert_eq!(di, i);
    assert_eq!(ni, 16);
}
