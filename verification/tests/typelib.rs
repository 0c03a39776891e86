use strict_types::ast::id::SemId;
use strict_types::ast::ty::Ty;
use strict_types::collection::ConfinementError;
use strict_types::encoding::semver::SemVer;
use strict_types::encoding::DecodeError;
use strict_types::ident::{Ident, LibName, TypeName};
use strict_types::primitive::constants::U8;
use strict_types::primitive::Primitive;
use strict_types::typelib::{Dependency, TypeLib, TypeLibError, TypeLibId};

fn ident(s: &str) -> Ident {
    Ident::try_from_str(s).unwrap()
}

fn dep(alias: &str, name: &str, b: u8) -> (Ident, Dependency) {
    (
        ident(alias),
        Dependency {
            id: TypeLibId([b; 32]),
            name: LibName(ident(name)),
            ver: SemVer { major: 1, minor: 0, patch: b as u16, pre: vec![], build: vec![] },
        },
    )
}

fn named(name: &str, ty: Ty<SemId>) -> (TypeName, Ty<SemId>) {
    (TypeName(ident(name)), ty)
}

fn id_of(ty: &Ty<SemId>) -> [u8; 32] {
    ty.sem_id_unnamed().0
}

fn lib(deps: Vec<(Ident, Dependency)>, types: Vec<(TypeName, Ty<SemId>)>) -> TypeLib {
    TypeLib { name: LibName(ident("Test")), dependencies: deps, types }
}

fn encoded(l: &TypeLib) -> Vec<u8> {
    let mut out = Vec::new();
    l.encode(&mut out);
    out
}

/// Two types named in the order of their semantic ids.
fn ordered_types() -> Vec<(TypeName, Ty<SemId>)> {
    let a: Ty<SemId> = Ty::Primitive(Primitive(U8));
    let b: Ty<SemId> = Ty::UnicodeChar;
    if id_of(&a) <= id_of(&b) {
        vec![named("A", a), named("B", b)]
    } else {
        vec![named("A", b), named("B", a)]
    }
}

#[test]
fn type_lib_layout() {
    let l = lib(vec![], vec![named("Byte", Ty::Primitive(Primitive(U8)))]);
    let mut expected = vec![4, b'T', b'e', b's', b't', 0, 1, 0, 4, b'B', b'y', b't', b'e'];
    expected.extend_from_slice(&[0, U8]);
    assert_eq!(encoded(&l), expected);
}

#[test]
fn type_lib_roundtrip() {
    let l = lib(vec![dep("a", "Std", 1), dep("b", "Other", 2)], ordered_types());
    let mut bytes = encoded(&l);
    let len = bytes.len();
    bytes.extend_from_slice(b"tail");
    let (back, end) = TypeLib::decode(&bytes, 0).unwrap();
    assert_eq!(end, len);
    assert_eq!(encoded(&back), encoded(&l));
    assert_eq!(back.dependencies.len(), 2);
    assert_eq!(back.types.len(), 2);
    assert_eq!(back.types[0].0.as_bytes(), b"A");
}

#[test]
fn type_lib_keeps_types_by_name() {
    // Types written in a different order than their names are kept in name order.
    let a: Ty<SemId> = Ty::Primitive(Primitive(U8));
    let b: Ty<SemId> = Ty::UnicodeChar;
    let (lo, hi) = if id_of(&a) <= id_of(&b) { (a, b) } else { (b, a) };
    let l = lib(vec![], vec![named("Z", lo), named("Y", hi)]);
    let (back, _) = TypeLib::decode(&encoded(&l), 0).unwrap();
    assert_eq!(back.types[0].0.as_bytes(), b"Y");
    assert_eq!(back.types[1].0.as_bytes(), b"Z");
}

#[test]
fn type_lib_wrong_dependency_ordering() {
    let l = lib(vec![dep("b", "Std", 1), dep("a", "Other", 2)], ordered_types());
    match TypeLib::decode(&encoded(&l), 0) {
        Err(TypeLibError::WrongDependencyOrdering(a)) => assert_eq!(a.as_bytes(), b"a"),
        other => panic!("unexpected {:?}", other.err()),
    }
}

#[test]
fn type_lib_repeated_dependency() {
    let l = lib(vec![dep("a", "Std", 1), dep("a", "Other", 2)], ordered_types());
    match TypeLib::decode(&encoded(&l), 0) {
        Err(TypeLibError::RepeatedDependency(n)) => assert_eq!(n.as_bytes(), b"Other"),
        other => panic!("unexpected {:?}", other.err()),
    }
}

#[test]
fn type_lib_wrong_type_ordering() {
    let mut types = ordered_types();
    types.reverse();
    let second = id_of(&types[1].1);
    let l = lib(vec![], types);
    match TypeLib::decode(&encoded(&l), 0) {
        Err(TypeLibError::WrongTypeOrdering(id)) => assert_eq!(id.0, second),
        other => panic!("unexpected {:?}", other.err()),
    }
}

#[test]
fn type_lib_repeated_type() {
    let ty: Ty<SemId> = Ty::UnicodeChar;
    let l = lib(vec![], vec![named("A", Ty::UnicodeChar), named("A", ty)]);
    match TypeLib::decode(&encoded(&l), 0) {
        Err(TypeLibError::RepeatedType(id)) => assert_eq!(id.0, id_of(&Ty::UnicodeChar)),
        other => panic!("unexpected {:?}", other.err()),
    }
}

#[test]
fn type_lib_needs_a_type() {
    let l = lib(vec![], vec![]);
    match TypeLib::decode(&encoded(&l), 0) {
        Err(TypeLibError::Decode(DecodeError::Confinement(ConfinementError::Undersize { len: 0, min_len: 1 }))) => {}
        other => panic!("unexpected {:?}", other.err()),
    }
}

#[test]
fn type_lib_truncated() {
    let l = lib(vec![], ordered_types());
    let bytes = encoded(&l);
    match TypeLib::decode(&bytes[..bytes.len() - 1], 0) {
        Err(TypeLibError::Decode(DecodeError::UnexpectedEnd)) => {}
        other => panic!("unexpected {:?}", other.err()),
    }
}

#[test]
fn type_lib_id() {
    let types = ordered_types();
    let mut input = Vec::new();
    for (name, ty) in &types {
        input.extend_from_slice(name.as_bytes());
        input.extend_from_slice(&id_of(ty));
    }
    let expected = *blake3::keyed_hash(&[0u8; 32], &input).as_bytes();
    let id = lib(vec![], types).id();
    assert_eq!(id.0, expected);
    let hex: String = expected.iter().map(|b| format!("{b:02x}")).collect();
    assert_eq!(id.to_string(), hex);
    let alt = id.to_string_with_mnemonic();
    assert!(alt.starts_with(&format!("{hex}#")));
    assert_eq!(alt[65..], mnemonic::to_string(&expected[14..18]));
}

#[test]
fn type_lib_id_depends_on_names() {
    let a = lib(vec![], vec![named("A", Ty::UnicodeChar)]).id();
    let b = lib(vec![], vec![named("B", Ty::UnicodeChar)]).id();
    assert_ne!(a.0, b.0);
}
