use strict_types::encoding::types::{
    check_named, ord_of, strict_name_from_path, DeclarationError, StrictProduct, StrictStruct,
    StrictSum, StrictTuple, StrictType, StrictUnion,
};
use strict_types::ty::Variant;

#[test]
fn strict_names_from_rust_paths() {
    assert_eq!(strict_name_from_path("strict_types::ast::Ty"), "Ty_");
    assert_eq!(strict_name_from_path("Bool"), "Bool_");
    assert_eq!(strict_name_from_path("alloc::vec::Vec<u8>"), "Vec_u8");
    assert_eq!(
        strict_name_from_path("std::collections::BTreeMap<alloc::string::String, u8>"),
        "BTreeMap_String_ u8"
    );
    assert_eq!(strict_name_from_path("a::Outer<b::Inner<c::X>>"), "Outer_X");
}

#[test]
fn named_item_checks() {
    assert_eq!(check_named(&[(0, "a"), (1, "b")]), Ok(()));
    assert_eq!(check_named(&[(0, "a"), (0, "b")]), Err(DeclarationError::RepeatedIds));
    assert_eq!(check_named(&[(0, "a"), (1, "a")]), Err(DeclarationError::RepeatedNames));
    assert_eq!(check_named(&[(0, "a"), (0, "a")]), Err(DeclarationError::RepeatedIds));
    assert_eq!(ord_of(&[(3, "x"), (7, "y")], "y"), Some(7));
    assert_eq!(ord_of(&[(3, "x"), (7, "y")], "z"), None);
}

struct Point;

impl StrictType for Point {
    const STRICT_LIB_NAME: &'static str = "Test";
    fn strict_name() -> Option<String> { Some(strict_name_from_path("test::Point")) }
}
impl StrictProduct for Point {}
impl StrictStruct for Point {
    const ALL_FIELDS: &'static [(u8, &'static str)] = &[(0, "x"), (1, "y")];
}

struct Pair;

impl StrictType for Pair {
    const STRICT_LIB_NAME: &'static str = "Test";
    fn strict_name() -> Option<String> { None }
}
impl StrictProduct for Pair {}
impl StrictTuple for Pair {
    const ALL_FIELDS: &'static [u8] = &[0, 0];
}

enum Shape {
    Dot,
    Line,
}

impl StrictType for Shape {
    const STRICT_LIB_NAME: &'static str = "Test";
    fn strict_name() -> Option<String> { Some(String::from("Shape")) }
}
impl StrictSum for Shape {
    const ALL_VARIANTS: &'static [(u8, &'static str)] = &[(0, "dot"), (5, "line")];
    fn variant_name(&self) -> &'static str {
        match self {
            Shape::Dot => "dot",
            Shape::Line => "line",
        }
    }
}
impl StrictUnion for Shape {}

#[test]
fn strict_type_traits() {
    assert_eq!(Point::strict_name(), Some(String::from("Point_")));
    assert_eq!(Point::STRICT_LIB_NAME, "Test");
    assert_eq!(Point::strict_check_fields(), Ok(()));
    assert_eq!(Pair::strict_check_fields(), Err(DeclarationError::RepeatedIds));
    assert_eq!(Shape::strict_check_variants(), Ok(()));
    assert_eq!(Shape::Dot.variant_ord(), Some(0));
    assert_eq!(Shape::Line.variant_ord(), Some(5));
}

#[test]
fn variants_by_name_or_value() {
    let a = Variant::new("a", 1);
    assert!(a == Variant::new("a", 2));
    assert!(a == Variant::new("b", 1));
    assert!(a != Variant::new("b", 2));
    assert_eq!(a.name, "a");
    assert_eq!(a.value, 1);
}
