use strict_types::primitive::constants::{
    BYTE, F16, F16B, I256, I8, N16, U1024, U160, U24, U256, U8, UNIT,
};
use strict_types::primitive::{NumTy, Primitive};
use strict_types::util::Sizing;

#[test]
fn primitive_constructors_match_constants() {
    assert_eq!(Primitive::unsigned(1).into_code(), U8);
    assert_eq!(Primitive::unsigned(3).into_code(), U24);
    assert_eq!(Primitive::unsigned(20).into_code(), U160);
    assert_eq!(Primitive::unsigned(32).into_code(), U256);
    assert_eq!(Primitive::unsigned(128).into_code(), U1024);
    assert_eq!(Primitive::signed(1).into_code(), I8);
    assert_eq!(Primitive::signed(32).into_code(), I256);
    assert_eq!(Primitive::non_zero(2).into_code(), N16);
    assert_eq!(Primitive::float(2).into_code(), F16);
}

#[test]
fn primitive_byte_sizes() {
    for bytes in [1u16, 2, 3, 4, 8, 16, 31, 32, 48, 64, 128, 528] {
        assert_eq!(Primitive::unsigned(bytes).byte_size(), bytes);
        assert_eq!(Primitive::signed(bytes).byte_size(), bytes);
    }
    assert_eq!(Primitive::from_code(U1024).byte_size(), 128);
}

#[test]
fn primitive_code_roundtrip() {
    for code in 0u8..=255 {
        assert_eq!(Primitive::from_code(code).into_code(), code);
    }
}

#[test]
fn num_ty_codes() {
    assert_eq!(NumTy::from_code(U8).into_code(), 0x00);
    assert_eq!(NumTy::from_code(I8).into_code(), 0x40);
    assert_eq!(NumTy::from_code(N16).into_code(), 0x80);
    assert_eq!(NumTy::from_code(F16).into_code(), 0xC0);
    assert_eq!(NumTy::from_code(F16), NumTy::Float);
}

#[test]
fn primitive_names() {
    assert_eq!(Primitive(UNIT).to_string(), "()");
    assert_eq!(Primitive(BYTE).to_string(), "Byte");
    assert_eq!(Primitive(F16B).to_string(), "F16b");
    assert_eq!(Primitive(U8).to_string(), "U8");
    assert_eq!(Primitive(I256).to_string(), "I256");
    assert_eq!(Primitive(U1024).to_string(), "U1024");
    assert_eq!(Primitive(N16).to_string(), "N16");
    assert_eq!(Primitive(F16).to_string(), "F16");
}

#[test]
fn sizing_text() {
    assert_eq!(Sizing::u16().to_string(), "");
    assert_eq!(Sizing::u8().to_string(), " ^ ..0xff");
    assert_eq!(Sizing::fixed(5).to_string(), " ^ 5");
    assert_eq!(Sizing::u16_nonempty().to_string(), " ^ 1..");
    assert_eq!(Sizing::new(2, 10).to_string(), " ^ 2..0xa");
    assert_eq!(Sizing::u8_nonempty().to_string(), " ^ 1..0xff");
}

#[test]
fn sizing_checks() {
    assert!(Sizing::fixed(3).is_fixed());
    assert!(!Sizing::u8().is_fixed());
    assert!(Sizing::u8_nonempty().check(1));
    assert!(!Sizing::u8_nonempty().check(0));
    assert!(!Sizing::u8().check(256));
}
