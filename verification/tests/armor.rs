use strict_types::armor::{display_ascii_armored, is_base85_decodable, ArmorHeader};
use strict_types::bindle::{
    bindle_text, check_bindle_id, parse_bindle, parse_bindle_frame, BindleParseError, IdSuite, BINDLE_MAX_LEN,
};

#[test]
fn armor_header_text() {
    let h = ArmorHeader { title: "Type".into(), value: "Lib".into(), params: vec![] };
    assert_eq!(h.to_string(), "Type: Lib\n");
    let h = ArmorHeader {
        title: "Type".into(),
        value: "Lib".into(),
        params: vec![("a".into(), "1".into()), ("b".into(), "2".into())],
    };
    assert_eq!(h.to_string(), "Type: Lib;\na=1;\nb=2");
}

#[test]
fn armored_block_text() {
    let text = display_ascii_armored("DATA", "x", "d", &[], b"aaaa");
    assert_eq!(text, "-----BEGIN DATA-----\nId: x\nDigest: d\n\nVPRom\n\n-----END DATA-----\n");
}

#[test]
fn armored_lines_are_64_chars() {
    let data = vec![0u8; 100];
    let text = display_ascii_armored("T", "i", "d", &[], &data);
    let encoded = base85::encode(&data);
    assert_eq!(encoded.len(), 125);
    let expected = format!(
        "-----BEGIN T-----\nId: i\nDigest: d\n\n{}\n{}\n\n-----END T-----\n",
        &encoded[..64],
        &encoded[64..]
    );
    assert_eq!(text, expected);
}

#[test]
fn bindle_text_and_frame() {
    let headers = vec![("Version".to_string(), "1".to_string())];
    let signers = vec!["Alice".to_string()];
    let text = bindle_text("STRICT TYPE LIBRARY", "urn:x", Some("word"), &headers, &signers, b"aaaa");
    assert_eq!(
        text,
        "-----BEGIN STRICT TYPE LIBRARY-----\nId: urn:x\nMnemonic: word\nVersion: 1\nSigned-By: Alice\n\nVPRom\n\n-----END STRICT TYPE LIBRARY-----\n"
    );
    let frame = parse_bindle_frame("STRICT TYPE LIBRARY", &text).unwrap();
    assert_eq!(frame.ids, vec!["urn:x".to_string()]);
    assert_eq!(frame.armor, "VPRom");
    assert_eq!(base85::decode(&frame.armor).unwrap(), b"aaaa".to_vec());
}

#[test]
fn bindle_frame_errors() {
    assert_eq!(parse_bindle_frame("T", "").err(), Some(BindleParseError::WrongStructure));
    assert_eq!(
        parse_bindle_frame("T", "-----BEGIN T-----").err(),
        Some(BindleParseError::WrongStructure)
    );
    assert_eq!(
        parse_bindle_frame("T", "-----BEGIN X-----\n\n-----END T-----").err(),
        Some(BindleParseError::WrongStructure)
    );
    let frame = parse_bindle_frame("T", "-----BEGIN T-----\r\nId: a\r\nId: b\r\n\r\nAB\r\n\r\nCD\r\n-----END T-----\r\n").unwrap();
    assert_eq!(frame.ids, vec!["a".to_string(), "b".to_string()]);
    assert_eq!(frame.armor, "ABCD");
}

#[test]
fn id_suites() {
    assert_eq!(IdSuite::Pgp.to_string(), "OpenPGP");
    assert_eq!(IdSuite::Ssh.to_string(), "OpenSSH");
    assert_eq!(IdSuite::Ssi.to_string(), "SSI");
    for code in 0u8..=2 {
        assert_eq!(IdSuite::try_from_u8(code).unwrap().into_u8(), code);
    }
    assert_eq!(IdSuite::try_from_u8(3), Err(3));
}

#[test]
fn bindle_reads_back_what_was_written() {
    let headers = vec![("Version".to_string(), "1".to_string())];
    let signers = vec!["Alice".to_string(), "Bob".to_string()];
    for len in 0..70usize {
        let data: Vec<u8> = (0..len).map(|i| (i * 37 + 255) as u8).collect();
        let text = bindle_text("STRICT TYPE LIBRARY", "urn:x", Some("word"), &headers, &signers, &data);
        let parsed = parse_bindle("STRICT TYPE LIBRARY", &text).unwrap();
        assert_eq!(parsed.ids, vec!["urn:x".to_string()]);
        assert_eq!(parsed.data, data);
    }
    let all_ff = vec![0xFFu8; 7];
    let text = bindle_text("T", "i", None, &[], &[], &all_ff);
    assert_eq!(parse_bindle("T", &text).unwrap().data, all_ff);
}

#[test]
fn bindle_data_decodes() {
    let parsed = parse_bindle("T", "-----BEGIN T-----\nId: z\n\nVPRomVE\n\n-----END T-----\n").unwrap();
    assert_eq!(parsed.ids, vec!["z".to_string()]);
    assert_eq!(parsed.data, b"aaaaa".to_vec());
    let parsed = parse_bindle("T", "-----BEGIN T-----\n\n-----END T-----\n").unwrap();
    assert!(parsed.ids.is_empty());
    assert!(parsed.data.is_empty());
}

#[test]
fn bindle_bad_base85() {
    // A character outside the alphabet.
    assert_eq!(
        parse_bindle("T", "-----BEGIN T-----\n\nVP\"om\n\n-----END T-----").err(),
        Some(BindleParseError::Base85)
    );
    // A lone character after a full group.
    assert_eq!(
        parse_bindle("T", "-----BEGIN T-----\n\nVPRomV\n\n-----END T-----").err(),
        Some(BindleParseError::Base85)
    );
    // A group above 2^32 - 1.
    assert_eq!(
        parse_bindle("T", "-----BEGIN T-----\n\n~~~~~\n\n-----END T-----").err(),
        Some(BindleParseError::Base85)
    );
    assert_eq!(parse_bindle("T", "nothing").err(), Some(BindleParseError::WrongStructure));
}

#[test]
fn base85_decodable_texts() {
    assert!(is_base85_decodable(""));
    assert!(is_base85_decodable("VPRom"));
    assert!(is_base85_decodable("VE"));
    assert!(is_base85_decodable("|NsC0"));
    assert!(!is_base85_decodable("|NsC1"));
    assert!(!is_base85_decodable("V"));
    assert!(!is_base85_decodable("VPRo\""));
    assert!(!is_base85_decodable("~~~~~"));
    assert!(is_base85_decodable(&base85::encode(&[0xFF; 9])));
}

#[test]
fn bindle_id_check() {
    let a = [1u8; 32];
    let mut b = [1u8; 32];
    b[31] = 2;
    assert_eq!(check_bindle_id(None, a), Ok(()));
    assert_eq!(check_bindle_id(Some(a), a), Ok(()));
    assert_eq!(
        check_bindle_id(Some(b), a),
        Err(BindleParseError::MismatchedId { actual: a, expected: b })
    );
}

#[test]
fn bindle_max_len() {
    assert_eq!(BINDLE_MAX_LEN, 0xFF_FFFF);
}
