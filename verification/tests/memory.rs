use sha2::{Digest, Sha256};
use strict_types::ast::id::SemId;
use strict_types::ast::ty::Ty;
use strict_types::encoding::write::{CountingWriter, LimitExceeded};
use strict_types::layout::MemId;
use strict_types::util::Sizing;

#[test]
fn mem_id_commits_to_classes() {
    let tag = Sha256::digest(b"urn:ubideco:strict-types:mem:v02");
    let mut hasher = Sha256::new();
    hasher.update(tag);
    hasher.update(tag);
    hasher.update([0u8, 8u8]);
    let expected: [u8; 32] = hasher.finalize().into();
    let tys: Vec<Ty<SemId>> = vec![Ty::unit(), Ty::List(SemId([0; 32]), Sizing::u8())];
    assert_eq!(MemId::of_layout(&tys).0, expected);
}

#[test]
fn counting_writer_limits() {
    let mut w = CountingWriter::with(3, vec![9]);
    assert_eq!(w.write(&[1, 2]), Ok(2));
    assert_eq!(w.write(&[3, 4]), Err(LimitExceeded));
    assert_eq!(w.write(&[3]), Ok(1));
    assert_eq!(w.count(), 3);
    assert_eq!(w.unbox(), vec![9, 1, 2, 3]);
    let mut w = CountingWriter::from(Vec::new());
    assert_eq!(w.write(&[0; 10]), Ok(10));
    assert_eq!(w.count(), 10);
}

#[test]
fn mem_id_text() {
    let id = MemId::of_layout(&[]);
    let text = id.to_string();
    assert!(text.starts_with("urn:ubideco:mem:"));
    assert!(text.contains('#'));
    let mnemonic = id.mnemonic();
    assert!(mnemonic.contains('-'));
    assert!(text.ends_with(&mnemonic));
    assert_ne!(MemId::of_layout(&[Ty::UnicodeChar]).to_string(), text);
}
