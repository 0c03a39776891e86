use strict_types::ast::key::KeyTy;
use strict_types::ast::ty::{Cls, EnumVariants, Variant};
use strict_types::encoding::DecodeError;
use strict_types::ident::{Ident, VariantName};
use strict_types::primitive::constants::U16;
use strict_types::primitive::Primitive;
use strict_types::util::Sizing;

fn encoded(key: &KeyTy) -> Vec<u8> {
    let mut out = Vec::new();
    key.encode_checked(&mut out);
    out
}

fn roundtrip(key: &KeyTy) {
    let mut data = encoded(key);
    let len = data.len();
    data.extend_from_slice(&[0xAA, 0xBB]);
    let (back, pos) = KeyTy::decode(&data, 0).unwrap();
    assert_eq!(pos, len);
    assert_eq!(encoded(&back), encoded(key));
}

fn two_variants() -> EnumVariants {
    let mut vars = EnumVariants::with(Variant { name: VariantName(Ident::try_from_str("on").unwrap()), tag: 1 });
    assert_eq!(
        vars.insert(Variant { name: VariantName(Ident::try_from_str("off").unwrap()), tag: 0 }),
        Ok(true)
    );
    vars
}

#[test]
fn key_classes() {
    assert_eq!(KeyTy::Primitive(Primitive(U16)).cls(), Cls::Primitive);
    assert_eq!(KeyTy::Enum(two_variants()).cls(), Cls::Enum);
    assert_eq!(KeyTy::Array(4).cls(), Cls::Array);
    assert_eq!(KeyTy::UnicodeStr(Sizing::u8()).cls(), Cls::Unicode);
    assert_eq!(KeyTy::AsciiStr(Sizing::u8()).cls(), Cls::AsciiStr);
    assert_eq!(KeyTy::Bytes(Sizing::u8()).cls(), Cls::List);
}

#[test]
fn key_layouts() {
    assert_eq!(encoded(&KeyTy::Primitive(Primitive(U16))), vec![0x00, U16]);
    assert_eq!(encoded(&KeyTy::Array(0x0102)), vec![0x07, 0x02, 0x01]);
    let mut bytes = vec![0x08];
    bytes.extend_from_slice(&[0, 0, 0, 0, 0, 0, 0, 0, 0xff, 0, 0, 0, 0, 0, 0, 0]);
    assert_eq!(encoded(&KeyTy::Bytes(Sizing::u8())), bytes);
    assert_eq!(encoded(&KeyTy::Enum(two_variants())), vec![0x03, 2, 3, b'o', b'f', b'f', 0, 2, b'o', b'n', 1]);
}

#[test]
fn key_roundtrips() {
    roundtrip(&KeyTy::Primitive(Primitive(U16)));
    roundtrip(&KeyTy::Enum(two_variants()));
    roundtrip(&KeyTy::Array(32));
    roundtrip(&KeyTy::UnicodeStr(Sizing::new(1, 40)));
    roundtrip(&KeyTy::AsciiStr(Sizing::u16()));
    roundtrip(&KeyTy::Bytes(Sizing::fixed(8)));
}

#[test]
fn key_decode_errors() {
    for cls in [4u8, 5, 6, 9, 10] {
        assert!(matches!(KeyTy::decode(&[cls, 0, 0], 0), Err(DecodeError::InvalidTyCls(c)) if c == cls));
    }
    assert!(matches!(KeyTy::decode(&[11], 0), Err(DecodeError::WrongTyCls(11))));
    assert!(matches!(KeyTy::decode(&[], 0), Err(DecodeError::UnexpectedEnd)));
    assert!(matches!(KeyTy::decode(&[0x07, 1], 0), Err(DecodeError::UnexpectedEnd)));
    assert!(matches!(KeyTy::decode(&[0x02, 1, 2, 3], 0), Err(DecodeError::UnexpectedEnd)));
    let (k, pos) = KeyTy::decode(&[9, 9, 0x07, 0x10, 0x00], 2).unwrap();
    assert!(matches!(k, KeyTy::Array(16)));
    assert_eq!(pos, 5);
}
