use strict_types::dtl::{lib_id, LibHasher, LibId};

fn id(b: u8) -> [u8; 32] {
    [b; 32]
}

#[test]
fn lib_hasher_hashes_inputs_keyed_by_zero_tag() {
    let mut hasher = LibHasher::new();
    hasher.input(id(1));
    hasher.input(id(2));
    let got = hasher.finish();

    let mut data = Vec::new();
    data.extend_from_slice(&id(1));
    data.extend_from_slice(&id(2));
    let expected = blake3::keyed_hash(&[0u8; 32], &data);
    assert_eq!(got.0, *expected.as_bytes());
}

#[test]
fn lib_hasher_order_matters() {
    let mut a = LibHasher::new();
    a.input(id(1));
    a.input(id(2));
    let mut b = LibHasher::new();
    b.input(id(2));
    b.input(id(1));
    assert_ne!(a.finish().0, b.finish().0);
}

#[test]
fn lib_id_of_roots_matches_hasher() {
    let roots = vec![id(3), id(7), id(9)];
    let mut hasher = LibHasher::new();
    for r in &roots {
        hasher.input(*r);
    }
    assert_eq!(lib_id(&roots).0, hasher.finish().0);
}

#[test]
fn lib_id_of_no_roots_is_keyed_hash_of_nothing() {
    let got = lib_id(&Vec::new());
    let expected = blake3::keyed_hash(&[0u8; 32], b"");
    assert_eq!(got.0, *expected.as_bytes());
}

#[test]
fn lib_id_urn_is_prefix_and_hex() {
    let mut bytes = [0u8; 32];
    for (i, b) in bytes.iter_mut().enumerate() {
        *b = (i as u8) * 8 + 1;
    }
    let s = LibId(bytes).to_string();
    assert_eq!(
        s,
        "urn:ubideco:setl:0109111921293139414951596169717981899199a1a9b1b9c1c9d1d9e1e9f1f9"
    );
}

#[test]
fn lib_id_urn_matches_blake3_display() {
    let hash = blake3::keyed_hash(&[0u8; 32], b"strict types");
    let s = LibId(*hash.as_bytes()).to_string();
    assert_eq!(s, format!("urn:ubideco:setl:{}", hash));
}

#[test]
fn lib_id_with_mnemonic_appends_words() {
    let hash = blake3::keyed_hash(&[0u8; 32], b"library");
    let lib = LibId(*hash.as_bytes());
    let words = mnemonic::to_string(&hash.as_bytes()[14..18]);
    assert!(!words.is_empty());
    assert_eq!(
        lib.to_string_with_mnemonic(),
        format!("urn:ubideco:setl:{}#{}", hash, words)
    );
}
