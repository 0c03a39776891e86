use strict_types::collection::ConfinementError;
use strict_types::encoding::DecodeError;
use strict_types::ident::{Ident, InvalidIdent, TypeName};

fn encoding(name: &str, expected: &[u8]) {
    let id = Ident::try_from_str(name).unwrap();
    let mut out = Vec::new();
    id.encode(&mut out);
    assert_eq!(out, expected);
    let (back, read) = Ident::decode(&out, 0).unwrap();
    assert_eq!(back.as_bytes(), name.as_bytes());
    assert_eq!(read, expected.len());
}

#[test]
fn ident_encoding() {
    encoding("A", b"\x01A");
    encoding("x", b"\x01x");
    encoding("SomeIdent", b"\x09SomeIdent");
    // exactly 32 chars
    encoding("a1234567890123456789012345678901", b"\x20a1234567890123456789012345678901");
}

#[test]
fn ident_rejects_empty() {
    assert_eq!(Ident::try_from_str("").err(), Some(InvalidIdent::Empty));
}

#[test]
fn ident_rejects_leading_digit() {
    assert_eq!(Ident::try_from_str("1a").err(), Some(InvalidIdent::NonAlphabetic(b'1')));
}

#[test]
fn ident_rejects_long_name() {
    assert_eq!(
        Ident::try_from_str("a1234567890123456789012345678901_").err(),
        Some(InvalidIdent::Confinement(ConfinementError::Oversize { len: 33, max_len: 32 }))
    );
}

#[test]
fn ident_rejects_non_ascii() {
    assert_eq!(Ident::try_from_str("щось").err(), Some(InvalidIdent::NonAsciiChar));
}

#[test]
fn ident_rejects_inner_char() {
    assert_eq!(Ident::try_from_str("a-b").err(), Some(InvalidIdent::InvalidChar(b'-')));
}

#[test]
fn ident_accepts_underscore_start() {
    let id = Ident::try_from_str("_x1").unwrap();
    assert_eq!(id.len(), 3);
    assert_eq!(id.to_chars(), vec!['_', 'x', '1']);
}

#[test]
fn ident_decode_errors() {
    assert_eq!(Ident::decode(b"", 0).err(), Some(DecodeError::UnexpectedEnd));
    assert_eq!(Ident::decode(b"\x03ab", 0).err(), Some(DecodeError::UnexpectedEnd));
    assert_eq!(
        Ident::decode(b"\x021a", 0).err(),
        Some(DecodeError::InvalidIdent(InvalidIdent::NonAlphabetic(b'1')))
    );
    let (id, n) = Ident::decode(b"zz\x02ab", 2).unwrap();
    assert_eq!(id.as_bytes(), b"ab");
    assert_eq!(n, 3);
}

#[test]
fn type_name_from_str() {
    let name = TypeName::try_from_str("Bool").unwrap();
    assert_eq!(name.len(), 4);
    assert_eq!(name.as_bytes(), b"Bool");
}
