use serializable::derived::NamedTestStruct;
use serializable::derived::TestEnum;
use serializable::derived::TestStructWithVec;
use serializable::derived::UnitTestStruct;
use serializable::derived::UnnamedTestStruct;
use serializable::text::Text;
use serializable::Serializable;

fn text(s: &str) -> Text {
    Text::new(s.to_string().into_bytes()).unwrap()
}

#[test]
fn serialize_and_deserialize_named() {
    let test_struct = NamedTestStruct { a: 0x12345678, b: 0x9ABC, c: text("Hello world") };
    let serialized = test_struct.serialize();
    let (deserialized, bytes_read) = NamedTestStruct::deserialize(&serialized).unwrap();
    assert_eq!(test_struct, deserialized);
    assert_eq!(serialized.len(), bytes_read);
}

#[test]
fn serialize_and_deserialize_unnamed() {
    let test_struct = UnnamedTestStruct(0x12345678, 0x9ABC, text("Hello world"));
    let serialized = test_struct.serialize();
    let (deserialized, bytes_read) = UnnamedTestStruct::deserialize(&serialized).unwrap();
    assert_eq!(test_struct, deserialized);
    assert_eq!(serialized.len(), bytes_read);
}

#[test]
fn serialize_and_deserialize_unit() {
    let test_struct = UnitTestStruct;
    let serialized = test_struct.serialize();
    let (deserialized, bytes_read) = UnitTestStruct::deserialize(&serialized).unwrap();
    assert_eq!(test_struct, deserialized);
    assert_eq!(serialized.len(), bytes_read);
}

#[test]
fn serialize_and_deserialize_enum() {
    let test_enum = TestEnum::C(text("Hello world"));
    let serialized = test_enum.serialize();
    let (deserialized, bytes_read) = TestEnum::deserialize(&serialized).unwrap();
    assert_eq!(test_enum, deserialized);
    assert_eq!(serialized.len(), bytes_read);
}

#[test]
fn serialize_and_deserialize_vec() {
    let test_struct = TestStructWithVec { a: 0x12345678, b: 0x9ABC, c: vec![1, 2, 3, 4, 5, 6, 7, 8, 9] };
    let serialized = test_struct.serialize();
    let (deserialized, bytes_read) = TestStructWithVec::deserialize(&serialized).unwrap();
    assert_eq!(test_struct, deserialized);
    assert_eq!(serialized.len(), bytes_read);
}

#[test]
fn serialize_and_deserialize_enum_all_variants() {
    let variants = vec![
        TestEnum::A(0xDEADBEEF),
        TestEnum::B(0x0102),
        TestEnum::C(text("")),
        TestEnum::D,
        TestEnum::E { f: 7, g: 8, h: text("nested") },
    ];
    for v in variants {
        let serialized = v.serialize();
        let (deserialized, bytes_read) = TestEnum::deserialize(&serialized).unwrap();
        assert_eq!(v, deserialized);
        assert_eq!(serialized.len(), bytes_read);
    }
}

#[test]
fn trailing_bytes_are_ignored() {
    let test_struct = NamedTestStruct { a: 1, b: 2, c: text("x") };
    let mut serialized = test_struct.serialize();
    let encoded_len = serialized.len();
    serialized.extend_from_slice(&[0xAA, 0xBB, 0xCC]);
    let (deserialized, bytes_read) = NamedTestStruct::deserialize(&serialized).unwrap();
    assert_eq!(test_struct, deserialized);
    assert_eq!(encoded_len, bytes_read);
}
