use strict_types::ast::iter::CheckError;
use strict_types::ast::path::{Path, Step};
use strict_types::ast::ty::Cls;
use strict_types::ident::{FieldName, Ident, VariantName};

fn sample_path() -> Path {
    let mut path = Path::new();
    path.push(Step::NamedField(FieldName(Ident::try_from_str("data").unwrap()))).unwrap();
    path.push(Step::Variant(VariantName(Ident::try_from_str("some").unwrap()))).unwrap();
    path.push(Step::UnnamedField(12)).unwrap();
    path.push(Step::MapValue).unwrap();
    path.push(Step::List).unwrap();
    path.push(Step::Index).unwrap();
    path.push(Step::SetOf).unwrap();
    path.push(Step::MapKey).unwrap();
    path
}

#[test]
fn path_text() {
    assert_eq!(Path::new().to_string(), "");
    assert_eq!(sample_path().to_string(), ".data.some.12[value][]#{}[key]");
}

#[test]
fn path_iter() {
    let path = sample_path();
    let steps = path.iter();
    assert_eq!(steps.len(), 8);
    assert!(matches!(steps[2], Step::UnnamedField(12)));
    assert!(matches!(steps[7], Step::MapKey));
    assert!(Path::new().iter().is_empty());
}

#[test]
fn cls_names() {
    let names: Vec<String> = [
        Cls::Primitive,
        Cls::Unicode,
        Cls::AsciiStr,
        Cls::Enum,
        Cls::Union,
        Cls::Struct,
        Cls::Tuple,
        Cls::Array,
        Cls::List,
        Cls::SetOf,
        Cls::MapOf,
    ]
    .iter()
    .map(|c| c.to_string())
    .collect();
    assert_eq!(
        names,
        vec!["primitive", "unicode", "asciistr", "enum", "union", "struct", "tuple", "array", "list", "set", "map"]
    );
}

#[test]
fn check_error_messages() {
    let e = CheckError::NoSubtypes(Cls::Primitive, Path::with(Step::Index));
    assert_eq!(e.to_string(), "the type primitive at the current path # doesn't have subtypes");
    let e = CheckError::TypeMismatch { expected: Cls::Struct, found: Cls::List, path: Path::with(Step::MapKey) };
    assert_eq!(e.to_string(), "type list found when struct was expected at path [key]");
    let e = CheckError::UncheckedFields { checked: 2, total: 15 };
    assert_eq!(e.to_string(), "only 2 fields were checked out of 15 fields in total");
}
