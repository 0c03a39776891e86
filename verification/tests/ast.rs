use sha2::{Digest, Sha256};
use strict_types::ast::id::SemId;
use strict_types::ast::path::{Path, Step};
use strict_types::ast::ty::{EnumVariants, Field, NamedFields, Ty, UnionVariants, UnnamedFields, Variant};
use strict_types::collection::ConfinementError;
use strict_types::encoding::DecodeError;
use strict_types::ident::{FieldName, Ident, VariantName};
use strict_types::primitive::constants::{BYTE, U8};
use strict_types::primitive::Primitive;
use strict_types::util::Sizing;

fn variant(name: &str, tag: u8) -> Variant {
    Variant { name: VariantName(Ident::try_from_str(name).unwrap()), tag }
}

fn enum_of(items: &[(&str, u8)]) -> EnumVariants {
    let mut vars = EnumVariants::with(variant(items[0].0, items[0].1));
    for (name, tag) in &items[1..] {
        assert_eq!(vars.insert(variant(name, *tag)), Ok(true));
    }
    vars
}

fn id(b: u8) -> SemId {
    SemId([b; 32])
}

fn encoded(ty: &Ty<SemId>) -> Vec<u8> {
    let mut out = Vec::new();
    ty.encode_checked(&mut out);
    out
}

fn roundtrip(ty: &Ty<SemId>) {
    let bytes = encoded(ty);
    let mut data = bytes.clone();
    data.extend_from_slice(b"tail");
    let (back, end) = Ty::<SemId>::decode(&data, 0).unwrap();
    assert_eq!(end, bytes.len());
    assert_eq!(encoded(&back), bytes);
}

#[test]
fn byte() {
    assert!(Ty::<SemId>::Primitive(Primitive(BYTE)).is_byte());
}

#[test]
fn u8_is_byte_and_unit_is_not() {
    assert!(Ty::<SemId>::Primitive(Primitive(U8)).is_byte());
    assert!(!Ty::<SemId>::unit().is_byte());
}

#[test]
fn unit_sem_id_is_tagged_sha256() {
    let tag = Sha256::digest(b"urn:ubideco:strict-types:typ:v01");
    let mut hasher = Sha256::new();
    hasher.update(tag);
    hasher.update(tag);
    hasher.update([0u8, 0u8]);
    let expected: [u8; 32] = hasher.finalize().into();
    assert_eq!(SemId::unit().0, expected);
    assert_eq!(Ty::<SemId>::unit().sem_id_unnamed().0, expected);
}

#[test]
fn primitive_ty_encoding() {
    assert_eq!(encoded(&Ty::Primitive(Primitive(U8))), vec![0x00, 0x01]);
    assert_eq!(encoded(&Ty::UnicodeChar), vec![0x01]);
}

#[test]
fn enum_ty_encoding() {
    let ty: Ty<SemId> = Ty::Enum(enum_of(&[("a", 0), ("b", 1)]));
    assert_eq!(encoded(&ty), vec![3, 2, 1, b'a', 0, 1, b'b', 1]);
    roundtrip(&ty);
}

#[test]
fn array_ty_encoding() {
    let ty: Ty<SemId> = Ty::Array(id(7), 5);
    let mut expected = vec![7u8];
    expected.extend_from_slice(&[7u8; 32]);
    expected.extend_from_slice(&[5, 0]);
    assert_eq!(encoded(&ty), expected);
    roundtrip(&ty);
}

#[test]
fn collection_ty_roundtrips() {
    roundtrip(&Ty::List(id(1), Sizing::u8()));
    roundtrip(&Ty::SetOf(id(2), Sizing::new(1, 300)));
    roundtrip(&Ty::MapOf(id(3), id(4), Sizing::fixed(9)));
    let list = encoded(&Ty::List(id(1), Sizing::u8()));
    assert_eq!(list.len(), 1 + 32 + 16);
    assert_eq!(list[0], 8);
    assert_eq!(&list[33..41], &[0, 0, 0, 0, 0, 0, 0, 0]);
    assert_eq!(&list[41..49], &[0xff, 0, 0, 0, 0, 0, 0, 0]);
}

#[test]
fn union_struct_tuple_roundtrips() {
    let mut u = UnionVariants::with(variant("none", 0), id(0));
    assert!(matches!(u.insert(variant("some", 1), id(9)), Ok(None)));
    roundtrip(&Ty::Union(u));
    let fields = NamedFields::try_from(vec![
        Field { name: FieldName(Ident::try_from_str("x").unwrap()), ty: id(1) },
        Field { name: FieldName(Ident::try_from_str("y").unwrap()), ty: id(2) },
    ])
    .unwrap();
    let st: Ty<SemId> = Ty::Struct(fields);
    let bytes = encoded(&st);
    assert_eq!(&bytes[..4], &[5, 2, 1, b'x']);
    roundtrip(&st);
    let tuple: Ty<SemId> = Ty::Tuple(UnnamedFields::try_from(vec![id(5), id(6), id(7)]).unwrap());
    let bytes = encoded(&tuple);
    assert_eq!(bytes.len(), 2 + 3 * 32);
    assert_eq!(&bytes[..2], &[6, 3]);
    roundtrip(&tuple);
}

#[test]
fn ty_decode_errors() {
    assert_eq!(Ty::<SemId>::decode(&[], 0).err(), Some(DecodeError::UnexpectedEnd));
    assert_eq!(Ty::<SemId>::decode(&[2], 0).err(), Some(DecodeError::InvalidTyCls(2)));
    assert_eq!(Ty::<SemId>::decode(&[11], 0).err(), Some(DecodeError::WrongTyCls(11)));
    assert_eq!(
        Ty::<SemId>::decode(&[3, 0], 0).err(),
        Some(DecodeError::Confinement(ConfinementError::Undersize { len: 0, min_len: 1 }))
    );
    assert_eq!(
        Ty::<SemId>::decode(&[3, 2, 1, b'b', 1, 1, b'a', 0], 0).err(),
        Some(DecodeError::BrokenSetOrder)
    );
    assert_eq!(
        Ty::<SemId>::decode(&[3, 2, 1, b'a', 0, 1, b'a', 1], 0).err(),
        Some(DecodeError::RepeatedSetValue)
    );
    let mut union = vec![4u8, 2, 1, b'a', 0];
    union.extend_from_slice(&[1u8; 32]);
    union.extend_from_slice(&[1, b'b', 0]);
    union.extend_from_slice(&[2u8; 32]);
    assert_eq!(Ty::<SemId>::decode(&union, 0).err(), Some(DecodeError::RepeatedMapValue));
    assert_eq!(Ty::<SemId>::decode(&[7, 1, 2], 0).err(), Some(DecodeError::UnexpectedEnd));
}

#[test]
fn enum_variants_text() {
    assert_eq!(enum_of(&[("a", 0)]).to_string(), "a | (|)\n");
    assert_eq!(enum_of(&[("a", 1)]).to_string(), "a#1 | (|)\n");
    assert_eq!(enum_of(&[("a", 0), ("b", 1)]).to_string(), "a | b\n");
    assert_eq!(enum_of(&[("a", 0), ("b", 5), ("c", 6)]).to_string(), "a | b#5 | c\n");
    assert_eq!(enum_of(&[("a", 0), ("b", 1), ("c", 5)]).to_string(), "a | b | c#5\n");
    let many = enum_of(&[("a", 0), ("b", 1), ("c", 2), ("d", 3), ("e", 4), ("f", 10)]);
    assert_eq!(many.to_string(), format!("a | b | c | d\n{} | e | f#10\n", " ".repeat(22)));
    let five = enum_of(&[("a", 0), ("b", 1), ("c", 2), ("d", 3), ("e", 4)]);
    assert_eq!(five.to_string(), format!("a | b | c | d\n{} | e\n", " ".repeat(22)));
}

#[test]
fn union_and_option_text() {
    let mut u = UnionVariants::with(variant("none", 0), id(0));
    assert!(matches!(u.insert(variant("some", 1), id(9)), Ok(None)));
    let opt: Ty<SemId> = Ty::Union(u);
    assert!(opt.is_option());
    assert_eq!(opt.to_string(), format!("{}?", id(9).to_string()));
    let mut u = UnionVariants::with(variant("a", 0), id(1));
    assert!(matches!(u.insert(variant("b", 3), id(2)), Ok(None)));
    assert_eq!(
        u.to_string(),
        format!("a {}\n{}| b#3 {}", id(1).to_string(), " ".repeat(23), id(2).to_string())
    );
    let single = UnionVariants::with(variant("a", 2), id(1));
    assert_eq!(single.to_string(), format!("a#2 {} | (|)", id(1).to_string()));
}

#[test]
fn sem_id_text_is_baid64() {
    let text = id(0).to_string();
    assert!(text.starts_with("semid:"));
    assert!(text.contains('#'));
    assert_ne!(text, id(1).to_string());
}

#[test]
fn ty_text() {
    assert_eq!(Ty::<SemId>::Primitive(Primitive(U8)).to_string(), "U8");
    assert_eq!(Ty::<SemId>::UnicodeChar.to_string(), "Unicode");
    let s = id(3).to_string();
    assert_eq!(Ty::Array(id(3), 5).to_string(), format!("[{s} ^ 5]"));
    assert_eq!(Ty::List(id(3), Sizing::u8()).to_string(), format!("[{s} ^ ..0xff]"));
    assert_eq!(Ty::SetOf(id(3), Sizing::u16()).to_string(), format!("{{{s}}}"));
    assert_eq!(
        Ty::MapOf(id(3), id(3), Sizing::new(1, 0xFFFF)).to_string(),
        format!("{{{s} -> ^ 1.. {s}}}")
    );
    let tuple: Ty<SemId> = Ty::Tuple(UnnamedFields::try_from(vec![id(3), id(3)]).unwrap());
    assert_eq!(tuple.to_string(), format!("{s}, {s}"));
}

#[test]
fn struct_fields_text() {
    let two = NamedFields::try_from(vec![
        Field { name: FieldName(Ident::try_from_str("x").unwrap()), ty: id(1) },
        Field { name: FieldName(Ident::try_from_str("y").unwrap()), ty: id(1) },
    ])
    .unwrap();
    let s = id(1).to_string();
    assert_eq!(two.to_string(), format!("x {s}, y {s}"));
    let three = NamedFields::try_from(vec![
        Field { name: FieldName(Ident::try_from_str("x").unwrap()), ty: id(1) },
        Field { name: FieldName(Ident::try_from_str("y").unwrap()), ty: id(1) },
        Field { name: FieldName(Ident::try_from_str("z").unwrap()), ty: id(1) },
    ])
    .unwrap();
    let sep = format!("\n{}, ", " ".repeat(23));
    assert_eq!(three.to_string(), format!("x {s}{sep}y {s}{sep}z {s}"));
}

#[test]
fn at_path_over_sem_ids() {
    let ty: Ty<SemId> = Ty::List(id(1), Sizing::u8());
    assert!(ty.at_path(&Path::new()).is_ok());
    let err = ty.at_path(&Path::with(Step::List)).err().unwrap();
    assert_eq!(err.path.len(), 1);
    let err = ty.at_path(&Path::with(Step::Index)).err().unwrap();
    assert_eq!(err.path.len(), 1);
}

#[test]
fn default_sem_id_is_unit() {
    assert_eq!(SemId::default().0, SemId::unit().0);
    assert_eq!(SemId::default().0, Ty::<SemId>::unit().sem_id_unnamed().0);
}
