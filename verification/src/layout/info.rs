//! Layout descriptions of types: what one item of a type layout says of its type, as
//! a subject, a predicate, attributes and a comment, and the tree of these for a
//! whole layout.

use vstd::prelude::*;

use crate::ast::id::SemId;
use crate::ast::ty::{Cls, ItemCase, Ty, TypeRef};
use crate::ident::{LibName, TypeName};
use crate::layout::vesper::{LenRange, Pred};
use crate::primitive::constants::{primitive_text, UNIT};

verus! {

/// A fully qualified type name: the library and the name of the type.
#[derive(Debug)]
pub struct TypeFqn {
    pub lib: LibName,
    pub name: TypeName,
}

/// How a type is nested within the type that holds it, beyond its class.
#[derive(Debug)]
pub enum NestedCase {
    NewType(Option<TypeFqn>),
    Option,
    ByteStr,
    UniStr,
    AsciiStr(Option<TypeFqn>),
}

/// One item of a type layout: a type at a depth of the tree, with its name where it
/// has one, its place within its parent and how it is nested.
#[derive(Debug)]
pub struct TypeInfo {
    pub depth: usize,
    pub ty: Ty<SemId>,
    pub fqn: Option<TypeFqn>,
    pub item: Option<ItemCase>,
    pub nested: Vec<NestedCase>,
}

/// What a layout description speaks of: a name, or a position of an unnamed field.
#[derive(Debug)]
pub enum Subject {
    Name(Vec<u8>),
    Position(u8),
}

/// A subject, as plain values.
pub enum SubjectModel {
    Name(Seq<u8>),
    Position(u8),
}

impl View for Subject {
    type V = SubjectModel;

    open spec fn view(&self) -> SubjectModel {
        match self {
            Subject::Name(n) => SubjectModel::Name(n@),
            Subject::Position(p) => SubjectModel::Position(*p),
        }
    }
}

/// The comment of a layout description: the full name of the type, or the role of
/// an unnamed type in a map (`map key`, `mapped onto`).
#[derive(Debug)]
pub enum Comment {
    Fqn(TypeFqn),
    MapKey,
    MappedOnto,
}

/// A comment, as plain values.
pub enum CommentModel {
    Fqn(Seq<u8>, Seq<u8>),
    MapKey,
    MappedOnto,
}

impl View for Comment {
    type V = CommentModel;

    open spec fn view(&self) -> CommentModel {
        match self {
            Comment::Fqn(f) => CommentModel::Fqn(f.lib@, f.name@),
            Comment::MapKey => CommentModel::MapKey,
            Comment::MappedOnto => CommentModel::MappedOnto,
        }
    }
}

/// An attribute of a layout description.
#[derive(Debug)]
pub enum Attr {
    TypeName(Vec<char>),
    Wrapped(Option<Vec<u8>>),
    Option,
    Tag(u8),
    AsciiEnum(Vec<u8>),
    EnumVariant(u8, Vec<u8>),
    Len(u16),
    LenRange(LenRange),
}

/// An attribute, as plain values.
pub enum AttrModel {
    TypeName(Seq<char>),
    Wrapped(Option<Seq<u8>>),
    Option,
    Tag(u8),
    AsciiEnum(Seq<u8>),
    EnumVariant(u8, Seq<u8>),
    Len(u16),
    LenRange(LenRange),
}

impl View for Attr {
    type V = AttrModel;

    open spec fn view(&self) -> AttrModel {
        match self {
            Attr::TypeName(t) => AttrModel::TypeName(t@),
            Attr::Wrapped(n) => AttrModel::Wrapped(
                match n {
                    Some(n) => Some(n@),
                    None => None,
                },
            ),
            Attr::Option => AttrModel::Option,
            Attr::Tag(t) => AttrModel::Tag(*t),
            Attr::AsciiEnum(n) => AttrModel::AsciiEnum(n@),
            Attr::EnumVariant(t, n) => AttrModel::EnumVariant(*t, n@),
            Attr::Len(l) => AttrModel::Len(*l),
            Attr::LenRange(r) => AttrModel::LenRange(*r),
        }
    }
}

/// A layout description: a subject, a predicate, attributes, the descriptions of the
/// nested types and a comment.
#[derive(Debug)]
pub struct TypeVesper {
    pub subject: Subject,
    pub predicate: Pred,
    pub attributes: Vec<Attr>,
    pub content: Vec<Box<TypeVesper>>,
    pub comment: Option<Comment>,
}

/// The bytes of `_`.
pub open spec fn underscore() -> Seq<u8> {
    seq![0x5Fu8]
}

/// The name of the type of an item: its own name, or `_`.
pub open spec fn info_name(info: TypeInfo) -> Seq<u8> {
    match info.fqn {
        Some(f) => f.name@,
        None => underscore(),
    }
}

/// The full name of the type of an item, as a comment.
pub open spec fn fqn_comment(info: TypeInfo) -> Option<CommentModel> {
    match info.fqn {
        Some(f) => Some(CommentModel::Fqn(f.lib@, f.name@)),
        None => None,
    }
}

/// The subject of the description of an item: the name of the field or the variant
/// it is; the position of an unnamed field of an unnamed type; `from` and `to` for
/// the unnamed key and value of a map; else the name of its type.
pub open spec fn vesper_subject(info: TypeInfo) -> SubjectModel {
    match info.item {
        Some(ItemCase::UnnamedField(pos)) => if info_name(info) == underscore() {
            SubjectModel::Position(pos)
        } else {
            SubjectModel::Name(info_name(info))
        },
        Some(ItemCase::NamedField(_, f)) => SubjectModel::Name(f@),
        Some(ItemCase::UnionVariant(_, v)) => SubjectModel::Name(v@),
        Some(ItemCase::MapKey) => if info.fqn is Some {
            SubjectModel::Name(info_name(info))
        } else {
            SubjectModel::Name(seq![0x66u8, 0x72u8, 0x6Fu8, 0x6Du8])
        },
        Some(ItemCase::MapValue) => if info.fqn is Some {
            SubjectModel::Name(info_name(info))
        } else {
            SubjectModel::Name(seq![0x74u8, 0x6Fu8])
        },
        _ => SubjectModel::Name(info_name(info)),
    }
}

/// The comment of the description of an item: the full name of its type where it is
/// a named field, a variant, or an unnamed field with a name of `_`; `map key` and
/// `mapped onto` for a named key or value of a map.
pub open spec fn vesper_comment(info: TypeInfo) -> Option<CommentModel> {
    match info.item {
        Some(ItemCase::UnnamedField(_)) => if info_name(info) == underscore() {
            fqn_comment(info)
        } else {
            None
        },
        Some(ItemCase::NamedField(_, _)) => fqn_comment(info),
        Some(ItemCase::UnionVariant(_, _)) => fqn_comment(info),
        Some(ItemCase::MapKey) => if info.fqn is Some {
            Some(CommentModel::MapKey)
        } else {
            None
        },
        Some(ItemCase::MapValue) => if info.fqn is Some {
            Some(CommentModel::MappedOnto)
        } else {
            None
        },
        _ => None,
    }
}

/// The predicate of a type before its nesting is seen: `char` for an enum of ASCII
/// characters, `bytes` for an array of bytes, else the predicate of its class.
pub open spec fn base_pred(ty: Ty<SemId>) -> Pred {
    if ty.spec_is_char_enum() {
        Pred::Char
    } else if ty matches Ty::Array(r, _) && r.spec_is_byte() {
        Pred::Bytes
    } else {
        Pred::spec_from_cls(ty.spec_cls())
    }
}

/// The predicate after the nesting cases: the last string case decides (`ascii`,
/// `bytes` or `str`); the other cases keep it.
pub open spec fn nested_pred(ns: Seq<NestedCase>, p: Pred) -> Pred
    decreases ns.len(),
{
    if ns.len() == 0 {
        p
    } else {
        match ns.last() {
            NestedCase::AsciiStr(_) => Pred::Ascii,
            NestedCase::ByteStr => Pred::Bytes,
            NestedCase::UniStr => Pred::Str,
            _ => nested_pred(ns.drop_last(), p),
        }
    }
}

/// The predicate of a type before its nesting is seen, class by class: `is` for a
/// primitive, `str` for the Unicode character, `char` for an enum of ASCII
/// characters and `enum` for another, `union`, `rec` for a structure, `tuple`,
/// `bytes` for an array of bytes and `array` for another, `list`, `set`, `map`.
pub proof fn lemma_base_pred(ty: Ty<SemId>)
    ensures
        base_pred(ty) == match ty {
            Ty::Primitive(_) => Pred::Is,
            Ty::UnicodeChar => Pred::Str,
            Ty::Enum(_) => if ty.spec_is_char_enum() {
                Pred::Char
            } else {
                Pred::Enum
            },
            Ty::Union(_) => Pred::Union,
            Ty::Struct(_) => Pred::Rec,
            Ty::Tuple(_) => Pred::Tuple,
            Ty::Array(r, _) => if r.spec_is_byte() {
                Pred::Bytes
            } else {
                Pred::Array
            },
            Ty::List(_, _) => Pred::List,
            Ty::SetOf(_, _) => Pred::SetOf,
            Ty::MapOf(_, _, _) => Pred::MapOf,
        },
{
}

/// Whether a nesting case is a string case: an ASCII string, a byte string or a
/// Unicode string.
pub open spec fn is_string_case(c: NestedCase) -> bool {
    c is AsciiStr || c is ByteStr || c is UniStr
}

/// The predicate after the nesting cases is decided by the last string case: a
/// Unicode string is described as `str`, the predicate of the Unicode class; an
/// ASCII string as `ascii`, the predicate of the ASCII string class; a byte string
/// as `bytes`. With no string case, the predicate is the one given.
pub proof fn lemma_nested_pred(ns: Seq<NestedCase>, p: Pred, i: int)
    ensures
        (forall|j: int| 0 <= j < ns.len() ==> !is_string_case(#[trigger] ns[j])) ==> nested_pred(ns, p) == p,
        0 <= i < ns.len() && is_string_case(ns[i]) && (forall|j: int|
            i < j < ns.len() ==> !is_string_case(#[trigger] ns[j])) ==> nested_pred(ns, p) == match ns[i] {
            NestedCase::UniStr => Pred::spec_from_cls(Cls::Unicode),
            NestedCase::AsciiStr(_) => Pred::spec_from_cls(Cls::AsciiStr),
            _ => Pred::Bytes,
        },
        Pred::spec_from_cls(Cls::Unicode) == Pred::Str,
        Pred::spec_from_cls(Cls::AsciiStr) == Pred::Ascii,
    decreases ns.len(),
{
    if ns.len() > 0 {
        let last = ns.len() - 1;
        assert(ns.last() == ns[last]);
        if !is_string_case(ns[last]) {
            lemma_nested_pred(ns.drop_last(), p, i);
            assert forall|j: int| 0 <= j < ns.drop_last().len() implies ns.drop_last()[j] == ns[j] by {}
        }
    }
}

/// The attributes a type gives by itself: the name of a primitive (`Unit` for the
/// unit type), or the length of an array.
pub open spec fn ty_attrs(ty: Ty<SemId>) -> Seq<AttrModel> {
    match ty {
        Ty::Primitive(p) => if p.0 == UNIT {
            seq![AttrModel::TypeName(seq!['U', 'n', 'i', 't'])]
        } else {
            seq![AttrModel::TypeName(primitive_text(p))]
        },
        Ty::Array(_, len) => seq![AttrModel::Len(len)],
        _ => Seq::empty(),
    }
}

/// The attribute of a nesting case: the charset of a named ASCII string, the name
/// (where there is one) of a newtype, and `option`.
pub open spec fn case_attrs(c: NestedCase) -> Seq<AttrModel> {
    match c {
        NestedCase::AsciiStr(Some(f)) => seq![AttrModel::AsciiEnum(f.name@)],
        NestedCase::NewType(Some(f)) => seq![AttrModel::Wrapped(Some(f.name@))],
        NestedCase::NewType(None) => seq![AttrModel::Wrapped(None)],
        NestedCase::Option => seq![AttrModel::Option],
        _ => Seq::empty(),
    }
}

/// The attributes of the nesting cases, in order.
pub open spec fn nested_attrs(ns: Seq<NestedCase>) -> Seq<AttrModel>
    decreases ns.len(),
{
    if ns.len() == 0 {
        Seq::empty()
    } else {
        nested_attrs(ns.drop_last()) + case_attrs(ns.last())
    }
}

/// The variants of an enum, each as its tag and name.
pub open spec fn enum_attrs(ty: Ty<SemId>) -> Seq<AttrModel> {
    match ty {
        Ty::Enum(vs) => Seq::new(vs@.len(), |i: int| AttrModel::EnumVariant(vs@[i].1, vs@[i].0)),
        _ => Seq::empty(),
    }
}

/// The tag of a union variant.
pub open spec fn tag_attrs(item: Option<ItemCase>) -> Seq<AttrModel> {
    match item {
        Some(ItemCase::UnionVariant(pos, _)) => seq![AttrModel::Tag(pos)],
        _ => Seq::empty(),
    }
}

/// The attributes of the description of an item, in order.
pub open spec fn vesper_attrs(info: TypeInfo) -> Seq<AttrModel> {
    ty_attrs(info.ty) + nested_attrs(info.nested@) + enum_attrs(info.ty) + tag_attrs(info.item)
}

/// The bytes of a slice, in a vector.
fn bytes_vec(b: &[u8]) -> (v: Vec<u8>)
    ensures
        v@ == b@,
{
    let mut v: Vec<u8> = Vec::new();
    let mut i: usize = 0;
    while i < b.len()
        invariant
            i <= b@.len(),
            v@ == b@.subrange(0, i as int),
        decreases b@.len() - i,
    {
        v.push(b[i]);
        i = i + 1;
        assert(v@ =~= b@.subrange(0, i as int));
    }
    assert(b@.subrange(0, b@.len() as int) =~= b@);
    v
}

impl Clone for TypeFqn {
    fn clone(&self) -> (c: Self)
        ensures
            c.lib@ == self.lib@,
            c.name@ == self.name@,
    {
        TypeFqn { lib: self.lib.clone(), name: self.name.clone() }
    }
}

impl TypeInfo {
    fn name_bytes(&self) -> (n: Vec<u8>)
        ensures
            n@ == info_name(*self),
    {
        match &self.fqn {
            Some(f) => bytes_vec(f.name.as_bytes()),
            None => {
                let mut v: Vec<u8> = Vec::new();
                v.push(0x5F);
                assert(v@ =~= underscore());
                v
            },
        }
    }

    fn fqn_comment(&self) -> (c: Option<Comment>)
        ensures
            match c {
                Some(c) => fqn_comment(*self) == Some(c@),
                None => fqn_comment(*self) is None,
            },
    {
        match &self.fqn {
            Some(f) => Some(Comment::Fqn(f.clone())),
            None => None,
        }
    }

    fn subject_and_comment(&self) -> (r: (Subject, Option<Comment>))
        ensures
            r.0@ == vesper_subject(*self),
            match r.1 {
                Some(c) => vesper_comment(*self) == Some(c@),
                None => vesper_comment(*self) is None,
            },
    {
        let name = self.name_bytes();
        let is_underscore = name.len() == 1 && name[0] == 0x5F;
        assert(is_underscore == (name@ == underscore())) by {
            if name@ == underscore() {
                assert(name@[0] == 0x5F);
            }
            if is_underscore {
                assert(name@ =~= underscore());
            }
        }
        match &self.item {
            Some(ItemCase::UnnamedField(pos)) => if is_underscore {
                (Subject::Position(*pos), self.fqn_comment())
            } else {
                (Subject::Name(name), None)
            },
            Some(ItemCase::NamedField(_, f)) => (Subject::Name(bytes_vec(f.as_bytes())), self.fqn_comment()),
            Some(ItemCase::UnionVariant(_, v)) => (Subject::Name(bytes_vec(v.as_bytes())), self.fqn_comment()),
            Some(ItemCase::MapKey) => if self.fqn.is_some() {
                (Subject::Name(name), Some(Comment::MapKey))
            } else {
                let v: Vec<u8> = vec![0x66u8, 0x72u8, 0x6Fu8, 0x6Du8];
                assert(v@ =~= seq![0x66u8, 0x72u8, 0x6Fu8, 0x6Du8]);
                (Subject::Name(v), None)
            },
            Some(ItemCase::MapValue) => if self.fqn.is_some() {
                (Subject::Name(name), Some(Comment::MappedOnto))
            } else {
                let v: Vec<u8> = vec![0x74u8, 0x6Fu8];
                assert(v@ =~= seq![0x74u8, 0x6Fu8]);
                (Subject::Name(v), None)
            },
            _ => (Subject::Name(name), None),
        }
    }

    /// The description of the item alone, without the items nested in it.
    pub fn to_vesper(&self) -> (v: TypeVesper)
        ensures
            v.subject@ == vesper_subject(*self),
            v.predicate == nested_pred(self.nested@, base_pred(self.ty)),
            v.attributes@.map_values(|a: Attr| a@) == vesper_attrs(*self),
            v.content@.len() == 0,
            match v.comment {
                Some(c) => vesper_comment(*self) == Some(c@),
                None => vesper_comment(*self) is None,
            },
    {
        let (subject, comment) = self.subject_and_comment();
        let mut attributes: Vec<Attr> = Vec::new();
        let mut predicate = Pred::from_cls(self.ty.cls());
        match &self.ty {
            Ty::Primitive(prim) => {
                if prim.0 == UNIT {
                    let t: Vec<char> = vec!['U', 'n', 'i', 't'];
                    assert(t@ =~= seq!['U', 'n', 'i', 't']);
                    attributes.push(Attr::TypeName(t));
                } else {
                    let mut t: Vec<char> = Vec::new();
                    prim.push_text(&mut t);
                    assert(t@ =~= primitive_text(*prim));
                    attributes.push(Attr::TypeName(t));
                }
            },
            Ty::Array(_, len) => attributes.push(Attr::Len(*len)),
            _ => {},
        }
        assert(attributes@.map_values(|a: Attr| a@) =~= ty_attrs(self.ty));
        if self.ty.is_char_enum() {
            predicate = Pred::Char;
        } else if self.ty.is_byte_array() {
            predicate = Pred::Bytes;
        }
        assert(predicate == base_pred(self.ty));
        let ghost base = predicate;
        let ghost head = attributes@.map_values(|a: Attr| a@);
        let mut i: usize = 0;
        while i < self.nested.len()
            invariant
                i <= self.nested@.len(),
                predicate == nested_pred(self.nested@.subrange(0, i as int), base),
                attributes@.map_values(|a: Attr| a@) == head + nested_attrs(self.nested@.subrange(0, i as int)),
            decreases self.nested@.len() - i,
        {
            let ghost before = attributes@.map_values(|a: Attr| a@);
            let ghost pre = self.nested@.subrange(0, i + 1);
            assert(pre.drop_last() =~= self.nested@.subrange(0, i as int));
            assert(pre.last() == self.nested@[i as int]);
            match &self.nested[i] {
                NestedCase::AsciiStr(fqn) => {
                    predicate = Pred::Ascii;
                    match fqn {
                        Some(f) => attributes.push(Attr::AsciiEnum(bytes_vec(f.name.as_bytes()))),
                        None => {},
                    }
                },
                NestedCase::ByteStr => {
                    predicate = Pred::Bytes;
                },
                NestedCase::UniStr => {
                    predicate = Pred::Str;
                },
                NestedCase::NewType(fqn) => {
                    match fqn {
                        Some(f) => attributes.push(Attr::Wrapped(Some(bytes_vec(f.name.as_bytes())))),
                        None => attributes.push(Attr::Wrapped(None)),
                    }
                },
                NestedCase::Option => {
                    attributes.push(Attr::Option);
                },
            }
            assert(attributes@.map_values(|a: Attr| a@) =~= before + case_attrs(self.nested@[i as int]));
            i = i + 1;
        }
        assert(self.nested@.subrange(0, self.nested@.len() as int) =~= self.nested@);
        let ghost mid = attributes@.map_values(|a: Attr| a@);
        match &self.ty {
            Ty::Enum(variants) => {
                let mut j: usize = 0;
                while j < variants.len()
                    invariant
                        j <= variants@.len(),
                        self.ty == Ty::<SemId>::Enum(*variants),
                        attributes@.map_values(|a: Attr| a@) == mid + Seq::new(
                            j as nat,
                            |k: int| AttrModel::EnumVariant(variants@[k].1, variants@[k].0),
                        ),
                    decreases variants@.len() - j,
                {
                    let ghost before = attributes@.map_values(|a: Attr| a@);
                    let var = variants.get(j).unwrap();
                    let name = bytes_vec(var.name.as_bytes());
                    assert(var.tag == variants@[j as int].1 && name@ == variants@[j as int].0);
                    attributes.push(Attr::EnumVariant(var.tag, name));
                    assert(attributes@.map_values(|a: Attr| a@) =~= before.push(
                        AttrModel::EnumVariant(variants@[j as int].1, variants@[j as int].0),
                    ));
                    j = j + 1;
                    assert(attributes@.map_values(|a: Attr| a@) =~= mid + Seq::new(
                        j as nat,
                        |k: int| AttrModel::EnumVariant(variants@[k].1, variants@[k].0),
                    ));
                }
                assert(attributes@.map_values(|a: Attr| a@) =~= mid + enum_attrs(self.ty));
            },
            _ => {
                assert(attributes@.map_values(|a: Attr| a@) =~= mid + enum_attrs(self.ty));
            },
        }
        let ghost late = attributes@.map_values(|a: Attr| a@);
        match &self.item {
            Some(ItemCase::UnionVariant(pos, _)) => attributes.push(Attr::Tag(*pos)),
            _ => {},
        }
        assert(attributes@.map_values(|a: Attr| a@) =~= late + tag_attrs(self.item));
        TypeVesper { subject, predicate, attributes, content: Vec::new(), comment }
    }
}

/// Whether `t` describes the item `info` alone: its subject, predicate, attributes
/// and comment are those of the item.
pub open spec fn describes_item(t: TypeVesper, info: TypeInfo) -> bool {
    &&& t.subject@ == vesper_subject(info)
    &&& t.predicate == nested_pred(info.nested@, base_pred(info.ty))
    &&& t.attributes@.map_values(|a: Attr| a@) == vesper_attrs(info)
    &&& match t.comment {
        Some(c) => vesper_comment(info) == Some(c@),
        None => vesper_comment(info) is None,
    }
}

/// Where the items nested in item `j` end: the first item from `i` on that is not
/// deeper than item `j`, or the end of the items.
pub open spec fn subtree_end(items: Seq<TypeInfo>, j: int, i: int) -> int
    decreases items.len() - i,
{
    if i >= items.len() {
        items.len() as int
    } else if items[i].depth <= items[j].depth {
        i
    } else {
        subtree_end(items, j, i + 1)
    }
}

/// The items nested in item `j` are deeper than it, and end after `i - 1`.
pub proof fn lemma_subtree_end(items: Seq<TypeInfo>, j: int, i: int)
    requires
        0 <= j < i,
    ensures
        i <= subtree_end(items, j, i) <= items.len() || (i > items.len() && subtree_end(items, j, i) == items.len()),
        forall|x: int| i <= x < subtree_end(items, j, i) ==> items[x].depth > items[j].depth,
        subtree_end(items, j, i) < items.len() ==> items[subtree_end(items, j, i)].depth <= items[j].depth,
    decreases items.len() - i,
{
    if i < items.len() && items[i].depth > items[j].depth {
        lemma_subtree_end(items, j, i + 1);
    }
}

/// The children of item `k`, from item `j` on: each item of depth one more than item
/// `k`, the next child following where the items nested in it end.
pub open spec fn kids(items: Seq<TypeInfo>, k: int, j: int) -> Seq<int>
    decreases items.len() - j,
{
    if 0 <= k < j < items.len() && items[j].depth == items[k].depth + 1 {
        proof {
            lemma_subtree_end(items, j, j + 1);
        }
        seq![j] + kids(items, k, subtree_end(items, j, j + 1))
    } else {
        Seq::empty()
    }
}

/// Children come after the item they start from.
pub proof fn lemma_kids_after(items: Seq<TypeInfo>, k: int, j: int)
    ensures
        forall|c: int| 0 <= c < kids(items, k, j).len() ==> j <= #[trigger] kids(items, k, j)[c] < items.len(),
    decreases items.len() - j,
{
    if 0 <= k < j < items.len() && items[j].depth == items[k].depth + 1 {
        lemma_subtree_end(items, j, j + 1);
        let e = subtree_end(items, j, j + 1);
        lemma_kids_after(items, k, e);
        let ks = kids(items, k, j);
        assert(ks == seq![j] + kids(items, k, e));
        assert forall|c: int| 0 <= c < ks.len() implies j <= #[trigger] ks[c] < items.len() by {
            if c > 0 {
                assert(ks[c] == kids(items, k, e)[c - 1]);
            }
        }
    }
}

/// Whether `t` describes item `k` of `items` with all the items nested in it: the
/// item alone, then one description for each of its children, in order.
#[verifier::opaque]
pub open spec fn describes(t: TypeVesper, items: Seq<TypeInfo>, k: int) -> bool
    decreases items.len() - k,
{
    &&& 0 <= k < items.len()
    &&& describes_item(t, items[k])
    &&& t.content@.len() == kids(items, k, k + 1).len()
    &&& forall|c: int|
        0 <= c < t.content@.len() && k < kids(items, k, k + 1)[c] < items.len() ==> #[trigger] describes(
            *t.content@[c],
            items,
            kids(items, k, k + 1)[c],
        )
}

/// Layouts that form a tree: a first item at depth 0, every other item deeper, and
/// no item more than one level deeper than the one before it.
pub open spec fn valid_layout(items: Seq<TypeInfo>) -> bool {
    &&& items.len() >= 1
    &&& items[0].depth == 0
    &&& forall|k: int| 1 <= k < items.len() ==> #[trigger] depth_step_ok(items, k)
}

/// Item `k` is deeper than the root, and at most one level deeper than the item
/// before it.
pub open spec fn depth_step_ok(items: Seq<TypeInfo>, k: int) -> bool {
    1 <= items[k].depth <= items[k - 1].depth + 1
}

/// The layout of a type: its items in depth-first order, each with its depth.
#[derive(Debug)]
pub struct TypeLayout {
    pub items: Vec<TypeInfo>,
}

/// Describes item `k` with the items nested in it; gives the description and where
/// those items end.
#[verifier::rlimit(60)]
fn describe_subtree(items: &Vec<TypeInfo>, k: usize) -> (r: (TypeVesper, usize))
    requires
        valid_layout(items@),
        k < items@.len(),
    ensures
        describes(r.0, items@, k as int),
        r.1 == subtree_end(items@, k as int, k + 1),
    decreases items@.len() - k,
{
    let n = items.len();
    let mut node = items[k].to_vesper();
    let ghost d = items@[k as int].depth;
    let ghost all = kids(items@, k as int, k + 1);
    let mut j: usize = k + 1;
    proof {
        lemma_subtree_end(items@, k as int, k + 1);
        lemma_kids_after(items@, k as int, k + 1);
        if k + 1 < n {
            assert(depth_step_ok(items@, k + 1));
        }
        assert(all.subrange(0, all.len() as int) =~= all);
    }
    while j < n && items[j].depth > 0 && items[j].depth - 1 == items[k].depth
        invariant
            valid_layout(items@),
            k < j <= n,
            n == items@.len(),
            d == items@[k as int].depth,
            describes_item(node, items@[k as int]),
            all == kids(items@, k as int, k + 1),
            node.content@.len() + kids(items@, k as int, j as int).len() == all.len(),
            all.subrange(node.content@.len() as int, all.len() as int) == kids(items@, k as int, j as int),
            forall|c: int|
                0 <= c < node.content@.len() ==> describes(#[trigger] *node.content@[c], items@, all[c]),
            forall|c: int| 0 <= c < all.len() ==> k < #[trigger] all[c] < n,
            forall|x: int| k < x < j ==> items@[x].depth > d,
            j < n ==> items@[j as int].depth <= d + 1,
            subtree_end(items@, k as int, k + 1) == subtree_end(items@, k as int, j as int),
        decreases n - j,
    {
        let ghost before = node.content@;
        proof {
            lemma_subtree_end(items@, j as int, j + 1);
            lemma_kids_after(items@, k as int, subtree_end(items@, j as int, j + 1));
        }
        let (child, next) = describe_subtree(items, j);
        proof {
            assert(kids(items@, k as int, j as int) == seq![j as int] + kids(items@, k as int, next as int));
            lemma_skip_deeper(items@, k as int, j as int, next as int);
        }
        node.content.push(Box::new(child));
        assert(node.content@ == before.push(Box::new(child)));
        let ghost c0 = before.len() as int;
        let ghost rest = all.subrange(c0, all.len() as int);
        assert(rest == seq![j as int] + kids(items@, k as int, next as int));
        assert(rest[0] == j as int);
        assert(all[c0] == rest[0]);
        assert(all.subrange(c0 + 1, all.len() as int) =~= rest.drop_first());
        assert(rest.drop_first() =~= kids(items@, k as int, next as int));
        j = next;
    }
    proof {
        lemma_subtree_end(items@, k as int, j as int);
        if j < n {
            assert(items@[j as int].depth <= d);
        }
        assert(subtree_end(items@, k as int, j as int) == j);
        assert(kids(items@, k as int, j as int) == Seq::<int>::empty());
    }
    proof {
        reveal(describes);
        assert(node.content@.len() == all.len());
    }
    (node, j)
}

/// Skipping the items nested in item `j`, all deeper than item `k`, leaves where the
/// items nested in item `k` end unchanged.
proof fn lemma_skip_deeper(items: Seq<TypeInfo>, k: int, j: int, next: int)
    requires
        0 <= k < j < next,
        next == subtree_end(items, j, j + 1),
        items[j].depth == items[k].depth + 1,
        j < items.len(),
    ensures
        forall|x: int| j <= x < next ==> items[x].depth > items[k].depth,
        subtree_end(items, k, j) == subtree_end(items, k, next),
    decreases next - j,
{
    lemma_subtree_end(items, j, j + 1);
    lemma_end_through(items, k, j, next);
}

/// Where the items nested in item `k` end, seen from `i`, is the same as seen from
/// `m`, when the items from `i` up to `m` are all deeper than item `k`.
proof fn lemma_end_through(items: Seq<TypeInfo>, k: int, i: int, m: int)
    requires
        0 <= k < i <= m <= items.len(),
        forall|x: int| i <= x < m ==> items[x].depth > items[k].depth,
    ensures
        subtree_end(items, k, i) == subtree_end(items, k, m),
    decreases m - i,
{
    if i < m {
        lemma_end_through(items, k, i + 1, m);
    }
}

impl TypeLayout {
    /// The description of the whole layout: the first item with the items nested in
    /// it, each with its own.
    pub fn to_vesper(&self) -> (r: TypeVesper)
        requires
            valid_layout(self.items@),
        ensures
            describes(r, self.items@, 0),
    {
        let (root, _) = describe_subtree(&self.items, 0);
        root
    }
}

} // verus!
