use strict_types::ast::id::SemId;
use strict_types::ast::ty::{EnumVariants, Field, ItemCase, NamedFields, Ty, Variant};
use strict_types::ident::{FieldName, Ident, LibName, TypeName, VariantName};
use strict_types::layout::info::{Attr, Comment, NestedCase, Subject, TypeFqn, TypeInfo, TypeLayout};
use strict_types::layout::Pred;
use strict_types::primitive::constants::{U8, UNIT};
use strict_types::primitive::Primitive;
use strict_types::util::Sizing;

fn fqn(lib: &str, name: &str) -> TypeFqn {
    TypeFqn { lib: LibName::try_from_str(lib).unwrap(), name: TypeName::try_from_str(name).unwrap() }
}

fn fname(s: &str) -> FieldName {
    FieldName::try_from_str(s).unwrap()
}

fn info(depth: usize, ty: Ty<SemId>, fqn: Option<TypeFqn>, item: Option<ItemCase>) -> TypeInfo {
    TypeInfo { depth, ty, fqn, item, nested: vec![] }
}

fn name_of(s: &Subject) -> Vec<u8> {
    match s {
        Subject::Name(n) => n.clone(),
        Subject::Position(p) => panic!("position {p}"),
    }
}

fn u8_ty() -> Ty<SemId> {
    Ty::Primitive(Primitive(U8))
}

#[test]
fn primitive_item_description() {
    let v = info(0, u8_ty(), None, None).to_vesper();
    assert_eq!(name_of(&v.subject), b"_".to_vec());
    assert_eq!(v.predicate, Pred::Is);
    assert_eq!(v.attributes.len(), 1);
    assert!(matches!(&v.attributes[0], Attr::TypeName(t) if t.iter().collect::<String>() == "U8"));
    assert!(v.content.is_empty());
    assert!(v.comment.is_none());

    let unit = info(0, Ty::Primitive(Primitive(UNIT)), Some(fqn("Std", "Unit")), None).to_vesper();
    assert_eq!(name_of(&unit.subject), b"Unit".to_vec());
    assert!(matches!(&unit.attributes[0], Attr::TypeName(t) if t.iter().collect::<String>() == "Unit"));
}

#[test]
fn field_and_map_descriptions() {
    let named = info(1, u8_ty(), Some(fqn("Geo", "Coord")), Some(ItemCase::NamedField(0, fname("x"))));
    let v = named.to_vesper();
    assert_eq!(name_of(&v.subject), b"x".to_vec());
    assert!(matches!(&v.comment, Some(Comment::Fqn(f)) if f.name.as_bytes() == b"Coord"));

    let unnamed = info(1, u8_ty(), None, Some(ItemCase::UnnamedField(2))).to_vesper();
    assert!(matches!(unnamed.subject, Subject::Position(2)));

    let key = info(1, u8_ty(), None, Some(ItemCase::MapKey)).to_vesper();
    assert_eq!(name_of(&key.subject), b"from".to_vec());
    assert!(key.comment.is_none());
    let value = info(1, u8_ty(), Some(fqn("Geo", "Coord")), Some(ItemCase::MapValue)).to_vesper();
    assert_eq!(name_of(&value.subject), b"Coord".to_vec());
    assert!(matches!(value.comment, Some(Comment::MappedOnto)));
}

#[test]
fn enum_array_and_nesting_attributes() {
    let mut vars = EnumVariants::with(Variant { name: VariantName(Ident::try_from_str("a").unwrap()), tag: 0 });
    vars.insert(Variant { name: VariantName(Ident::try_from_str("b").unwrap()), tag: 7 }).unwrap();
    let v = info(0, Ty::Enum(vars), None, Some(ItemCase::UnionVariant(3, VariantName(Ident::try_from_str("e").unwrap())))).to_vesper();
    assert_eq!(v.predicate, Pred::Enum);
    assert_eq!(v.attributes.len(), 3);
    assert!(matches!(&v.attributes[1], Attr::EnumVariant(7, n) if n == b"b"));
    assert!(matches!(v.attributes[2], Attr::Tag(3)));

    let bytes = info(0, Ty::Array(SemId([0; 32]), 16), None, None);
    let v = bytes.to_vesper();
    assert!(matches!(v.attributes[0], Attr::Len(16)));

    let mut s = info(0, Ty::List(SemId([0; 32]), Sizing::u8()), None, None);
    s.nested = vec![NestedCase::NewType(Some(fqn("Std", "Name"))), NestedCase::AsciiStr(None), NestedCase::Option];
    let v = s.to_vesper();
    assert_eq!(v.predicate, Pred::Ascii);
    assert_eq!(v.attributes.len(), 2);
    assert!(matches!(&v.attributes[0], Attr::Wrapped(Some(n)) if n == b"Name"));
    assert!(matches!(v.attributes[1], Attr::Option));
}

#[test]
fn layout_tree() {
    let fields = NamedFields::try_from(vec![
        Field { name: fname("a"), ty: SemId([1; 32]) },
        Field { name: fname("b"), ty: SemId([2; 32]) },
    ])
    .unwrap();
    let layout = TypeLayout {
        items: vec![
            info(0, Ty::Struct(fields), Some(fqn("Geo", "Point")), None),
            info(1, u8_ty(), None, Some(ItemCase::NamedField(0, fname("a")))),
            info(1, Ty::List(SemId([3; 32]), Sizing::u8()), None, Some(ItemCase::NamedField(1, fname("b")))),
            info(2, u8_ty(), None, Some(ItemCase::ListItem)),
        ],
    };
    let root = layout.to_vesper();
    assert_eq!(name_of(&root.subject), b"Point".to_vec());
    assert_eq!(root.predicate, Pred::Rec);
    assert_eq!(root.content.len(), 2);
    assert_eq!(name_of(&root.content[0].subject), b"a".to_vec());
    assert!(root.content[0].content.is_empty());
    assert_eq!(name_of(&root.content[1].subject), b"b".to_vec());
    assert_eq!(root.content[1].predicate, Pred::List);
    assert_eq!(root.content[1].content.len(), 1);
    assert_eq!(name_of(&root.content[1].content[0].subject), b"_".to_vec());
}
