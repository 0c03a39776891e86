use strict_types::encoding::semver::{BuildFragment, PreFragment, SemVer};
use strict_types::encoding::DecodeError;
use strict_types::ident::Ident;

fn encoded(v: &SemVer) -> Vec<u8> {
    let mut out = Vec::new();
    v.encode(&mut out);
    out
}

#[test]
fn semver_encoding() {
    let v = SemVer { major: 1, minor: 2, patch: 0x0103, pre: vec![], build: vec![] };
    assert_eq!(encoded(&v), vec![1, 0, 2, 0, 3, 1, 0, 0]);
}

#[test]
fn semver_roundtrip_with_fragments() {
    let v = SemVer {
        major: 0,
        minor: 10,
        patch: 7,
        pre: vec![
            PreFragment::Ident(Ident::try_from_str("alpha").unwrap()),
            PreFragment::Digits(300),
        ],
        build: vec![BuildFragment::Digits(Ident::try_from_str("b42").unwrap())],
    };
    let bytes = encoded(&v);
    let mut expected = vec![0, 0, 10, 0, 7, 0, 2, 0, 5];
    expected.extend_from_slice(b"alpha");
    expected.push(1);
    let mut digits = [0u8; 16];
    digits[0] = 0x2c;
    digits[1] = 0x01;
    expected.extend_from_slice(&digits);
    expected.extend_from_slice(&[1, 1, 3]);
    expected.extend_from_slice(b"b42");
    assert_eq!(bytes, expected);
    let mut data = bytes.clone();
    data.push(0xff);
    let (back, end) = SemVer::decode(&data, 0).unwrap();
    assert_eq!(end, bytes.len());
    assert_eq!(encoded(&back), bytes);
    assert_eq!(back.minor, 10);
    assert!(matches!(back.pre[1], PreFragment::Digits(300)));
}

#[test]
fn semver_decode_errors() {
    assert_eq!(SemVer::decode(&[1, 0, 2], 0).err(), Some(DecodeError::UnexpectedEnd));
    assert_eq!(
        SemVer::decode(&[1, 0, 2, 0, 3, 0, 1, 7], 0).err(),
        Some(DecodeError::WrongEnumId("PreFragment", 7))
    );
    assert_eq!(
        SemVer::decode(&[1, 0, 2, 0, 3, 0, 0, 1, 2], 0).err(),
        Some(DecodeError::WrongEnumId("BuildFragment", 2))
    );
}
