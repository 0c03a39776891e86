use strict_types::ast::id::SemId;
use strict_types::ast::translate::Translate;
use strict_types::ast::ty::{Field, ItemCase, NamedFields, Ty, UnnamedFields};
use strict_types::ident::{FieldName, Ident};
use strict_types::util::Sizing;

#[derive(Debug)]
struct Num(u8);

impl Translate<SemId> for Num {
    type Context = u8;
    type Builder = Vec<u8>;
    type Error = u8;

    fn translate(self, builder: &mut Vec<u8>, limit: &u8) -> Result<SemId, u8> {
        builder.push(self.0);
        if self.0 > *limit {
            Err(self.0)
        } else {
            Ok(SemId([self.0; 32]))
        }
    }
}

#[test]
fn translate_keeps_shape_and_order() {
    let ty: Ty<Num> = Ty::MapOf(Num(1), Num(2), Sizing::u8());
    let mut seen = Vec::new();
    let out = ty.translate(&mut seen, &10).unwrap();
    assert_eq!(seen, vec![1, 2]);
    match out {
        Ty::MapOf(k, v, s) => {
            assert_eq!(k.0, [1u8; 32]);
            assert_eq!(v.0, [2u8; 32]);
            assert_eq!(s, Sizing::u8());
        }
        _ => panic!("shape changed"),
    }
}

#[test]
fn translate_stops_at_first_error() {
    let fields = UnnamedFields::try_from(vec![Num(1), Num(20), Num(30)]).unwrap();
    let ty: Ty<Num> = Ty::Tuple(fields);
    let mut seen = Vec::new();
    let err = ty.translate(&mut seen, &10).err();
    assert_eq!(err, Some(20));
    assert_eq!(seen, vec![1, 20]);
}

#[test]
fn translate_struct_fields() {
    let fields = NamedFields::try_from(vec![
        Field { name: FieldName(Ident::try_from_str("a").unwrap()), ty: Num(3) },
        Field { name: FieldName(Ident::try_from_str("b").unwrap()), ty: Num(4) },
    ])
    .unwrap();
    let mut seen = Vec::new();
    let out = Ty::Struct(fields).translate(&mut seen, &10).unwrap();
    assert_eq!(seen, vec![3, 4]);
    let refs = out.iter();
    assert_eq!(refs.len(), 2);
    assert_eq!(refs[0].0 .0, [3u8; 32]);
    assert_eq!(refs[1].0 .0, [4u8; 32]);
    assert!(refs[0].1.is_some());
}

#[test]
fn iter_over_refs() {
    let ty: Ty<SemId> = Ty::List(SemId([5; 32]), Sizing::u16());
    let refs = ty.iter();
    assert_eq!(refs.len(), 1);
    assert_eq!(refs[0].0 .0, [5u8; 32]);
    assert!(Ty::<SemId>::unit().iter().is_empty());
}

#[test]
fn type_refs_match_iter_with_cases() {
    let fields = NamedFields::try_from(vec![
        Field { name: FieldName(Ident::try_from_str("x").unwrap()), ty: SemId([7; 32]) },
        Field { name: FieldName(Ident::try_from_str("y").unwrap()), ty: SemId([8; 32]) },
    ])
    .unwrap();
    let ty: Ty<SemId> = Ty::Struct(fields);
    let refs = ty.type_refs();
    assert_eq!(refs.len(), 2);
    assert_eq!(refs[1].0 .0, [8u8; 32]);
    match &refs[1].1 {
        Some(ItemCase::NamedField(pos, name)) => {
            assert_eq!(*pos, 1);
            assert_eq!(name.as_bytes(), b"y");
        }
        other => panic!("unexpected case {:?}", other),
    }
    let map: Ty<SemId> = Ty::MapOf(SemId([1; 32]), SemId([2; 32]), Sizing::u8());
    let refs = map.type_refs();
    assert!(matches!(refs[0].1, Some(ItemCase::MapKey)));
    assert!(matches!(refs[1].1, Some(ItemCase::MapValue)));
}

#[test]
fn semid_newtype_wraps_no_inline_type() {
    let fields = UnnamedFields::try_from(vec![SemId([3; 32])]).unwrap();
    let ty: Ty<SemId> = Ty::Tuple(fields);
    assert!(ty.as_wrapped_ty().is_none());
    assert!(Ty::<SemId>::unit().as_wrapped_ty().is_none());
}
