//! Binary encoding of type ASTs whose nested types are given by semantic ids.

use vstd::prelude::*;

use crate::ast::id::SemId;
use crate::ast::ty::{
    clashes_any, variants_clash, wf_variants, Cls, EnumVariants, Field, NamedFields, Ty, UnionVariants, UnnamedFields,
    Variant, MAX_ITEMS,
};
use crate::collection::ConfinementError;
use crate::encoding::base::{
    le_bytes, le_value, lemma_le_len, lemma_le_roundtrip, lemma_le_value_bound, pow256, read_le, write_le,
};
use crate::encoding::serialize::{DecodeError, Encode};
use crate::ident::{bytes_eq, lemma_check_ident, valid_ident, FieldName, Ident, VariantName};
use crate::primitive::Primitive;
use crate::util::Sizing;

verus! {

/// What a type AST over semantic ids holds, as plain values: variants as names and
/// tags, semantic ids as their bytes.
pub enum TyModel {
    Primitive(u8),
    UnicodeChar,
    Enum(Seq<(Seq<u8>, u8)>),
    Union(Seq<((Seq<u8>, u8), Seq<u8>)>),
    Tuple(Seq<Seq<u8>>),
    Struct(Seq<(Seq<u8>, Seq<u8>)>),
    Array(Seq<u8>, u16),
    List(Seq<u8>, Sizing),
    SetOf(Seq<u8>, Sizing),
    MapOf(Seq<u8>, Seq<u8>, Sizing),
}

/// The items of a union, each variant with the id of its type.
pub open spec fn union_model(u: UnionVariants<SemId>) -> Seq<((Seq<u8>, u8), Seq<u8>)> {
    Seq::new(u.spec_variants().len(), |i: int| (u.spec_variants()[i], u.spec_tys()[i]@))
}

/// The fields of a structure, each name with the id of its type.
pub open spec fn struct_model(f: NamedFields<SemId>) -> Seq<(Seq<u8>, Seq<u8>)> {
    Seq::new(f.spec_names().len(), |i: int| (f.spec_names()[i], f.spec_tys()[i]@))
}

/// The ids of the fields of a tuple.
pub open spec fn tuple_model(f: UnnamedFields<SemId>) -> Seq<Seq<u8>> {
    Seq::new(f@.len(), |i: int| f@[i]@)
}

/// The model of a type AST.
pub open spec fn ty_model(t: Ty<SemId>) -> TyModel {
    match t {
        Ty::Primitive(p) => TyModel::Primitive(p.0),
        Ty::UnicodeChar => TyModel::UnicodeChar,
        Ty::Enum(vars) => TyModel::Enum(vars@),
        Ty::Union(u) => TyModel::Union(union_model(u)),
        Ty::Tuple(f) => TyModel::Tuple(tuple_model(f)),
        Ty::Struct(f) => TyModel::Struct(struct_model(f)),
        Ty::Array(id, len) => TyModel::Array(id@, len),
        Ty::List(id, s) => TyModel::List(id@, s),
        Ty::SetOf(id, s) => TyModel::SetOf(id@, s),
        Ty::MapOf(k, v, s) => TyModel::MapOf(k@, v@, s),
    }
}

/// The variants of a union, without their types.
pub open spec fn union_variants(items: Seq<((Seq<u8>, u8), Seq<u8>)>) -> Seq<(Seq<u8>, u8)> {
    Seq::new(items.len(), |i: int| items[i].0)
}

/// Variants as a type holds them: one to 255, sorted by tag, with distinct tags and
/// names, each name a valid identifier.
pub open spec fn valid_variants(vs: Seq<(Seq<u8>, u8)>) -> bool {
    &&& 1 <= vs.len() <= MAX_ITEMS
    &&& wf_variants(vs)
    &&& forall|i: int| 0 <= i < vs.len() ==> valid_ident(#[trigger] vs[i].0)
}

/// The models that type ASTs have.
pub open spec fn valid_model(m: TyModel) -> bool {
    match m {
        TyModel::Primitive(_) => true,
        TyModel::UnicodeChar => true,
        TyModel::Enum(vs) => valid_variants(vs),
        TyModel::Union(items) => valid_variants(union_variants(items)) && forall|i: int|
            0 <= i < items.len() ==> (#[trigger] items[i]).1.len() == 32,
        TyModel::Tuple(ids) => 1 <= ids.len() <= MAX_ITEMS && forall|i: int|
            0 <= i < ids.len() ==> (#[trigger] ids[i]).len() == 32,
        TyModel::Struct(fs) => 1 <= fs.len() <= MAX_ITEMS && forall|i: int|
            0 <= i < fs.len() ==> valid_ident((#[trigger] fs[i]).0) && fs[i].1.len() == 32,
        TyModel::Array(id, _) => id.len() == 32,
        TyModel::List(id, _) => id.len() == 32,
        TyModel::SetOf(id, _) => id.len() == 32,
        TyModel::MapOf(k, v, _) => k.len() == 32 && v.len() == 32,
    }
}

/// The encodings of the items of `xs`, one after another.
pub open spec fn concat_bytes<A>(xs: Seq<A>, g: spec_fn(A) -> Seq<u8>) -> Seq<u8>
    decreases xs.len(),
{
    if xs.len() == 0 {
        Seq::empty()
    } else {
        g(xs[0]) + concat_bytes(xs.drop_first(), g)
    }
}

/// A list of at most 255 items: its length as one byte, then its items.
pub open spec fn list_bytes<A>(xs: Seq<A>, g: spec_fn(A) -> Seq<u8>) -> Seq<u8> {
    seq![xs.len() as u8] + concat_bytes(xs, g)
}

/// An identifier: its length as one byte, then its characters.
pub open spec fn name_bytes(name: Seq<u8>) -> Seq<u8> {
    seq![name.len() as u8] + name
}

/// A variant: its name, then its tag.
pub open spec fn variant_bytes(v: (Seq<u8>, u8)) -> Seq<u8> {
    name_bytes(v.0) + seq![v.1]
}

/// A union item: the variant, then the id of its type.
pub open spec fn union_item_bytes(p: ((Seq<u8>, u8), Seq<u8>)) -> Seq<u8> {
    variant_bytes(p.0) + p.1
}

/// A structure field: its name, then the id of its type.
pub open spec fn field_bytes(f: (Seq<u8>, Seq<u8>)) -> Seq<u8> {
    name_bytes(f.0) + f.1
}

/// A semantic id: its 32 bytes.
pub open spec fn id_bytes(id: Seq<u8>) -> Seq<u8> {
    id
}

/// A size bound: its minimum, then its maximum, each as 8 bytes, least significant
/// first.
pub open spec fn sizing_bytes(s: Sizing) -> Seq<u8> {
    le_bytes(s.min as nat, 8) + le_bytes(s.max as nat, 8)
}

/// Encoding of a variant, as a function value.
pub open spec fn variant_enc() -> spec_fn((Seq<u8>, u8)) -> Seq<u8> {
    |v: (Seq<u8>, u8)| variant_bytes(v)
}

/// Encoding of a union item, as a function value.
pub open spec fn union_item_enc() -> spec_fn(((Seq<u8>, u8), Seq<u8>)) -> Seq<u8> {
    |p: ((Seq<u8>, u8), Seq<u8>)| union_item_bytes(p)
}

/// Encoding of a semantic id, as a function value.
pub open spec fn id_enc() -> spec_fn(Seq<u8>) -> Seq<u8> {
    |id: Seq<u8>| id_bytes(id)
}

/// Encoding of a structure field, as a function value.
pub open spec fn field_enc() -> spec_fn((Seq<u8>, Seq<u8>)) -> Seq<u8> {
    |f: (Seq<u8>, Seq<u8>)| field_bytes(f)
}

/// The byte of the class of a model.
pub open spec fn model_cls(m: TyModel) -> Cls {
    match m {
        TyModel::Primitive(_) => Cls::Primitive,
        TyModel::UnicodeChar => Cls::Unicode,
        TyModel::Enum(_) => Cls::Enum,
        TyModel::Union(_) => Cls::Union,
        TyModel::Tuple(_) => Cls::Tuple,
        TyModel::Struct(_) => Cls::Struct,
        TyModel::Array(_, _) => Cls::Array,
        TyModel::List(_, _) => Cls::List,
        TyModel::SetOf(_, _) => Cls::SetOf,
        TyModel::MapOf(_, _, _) => Cls::MapOf,
    }
}

/// The encoding of a type AST: the code of its class, then what it holds.
pub open spec fn ty_bytes(m: TyModel) -> Seq<u8> {
    seq![model_cls(m).code()] + match m {
        TyModel::Primitive(code) => seq![code],
        TyModel::UnicodeChar => Seq::empty(),
        TyModel::Enum(vs) => list_bytes(vs, variant_enc()),
        TyModel::Union(items) => list_bytes(items, union_item_enc()),
        TyModel::Tuple(ids) => list_bytes(ids, id_enc()),
        TyModel::Struct(fs) => list_bytes(fs, field_enc()),
        TyModel::Array(id, len) => id + le_bytes(len as nat, 2),
        TyModel::List(id, s) => id + sizing_bytes(s),
        TyModel::SetOf(id, s) => id + sizing_bytes(s),
        TyModel::MapOf(k, v, s) => k + v + sizing_bytes(s),
    }
}

pub proof fn lemma_concat_push<A>(xs: Seq<A>, x: A, g: spec_fn(A) -> Seq<u8>)
    ensures
        concat_bytes(xs.push(x), g) == concat_bytes(xs, g) + g(x),
    decreases xs.len(),
{
    if xs.len() == 0 {
        assert(xs.push(x).drop_first() =~= Seq::<A>::empty());
        assert(concat_bytes(xs.push(x).drop_first(), g) == Seq::<u8>::empty());
        assert(xs.push(x)[0] == x);
        assert(concat_bytes(xs, g) == Seq::<u8>::empty());
        assert(concat_bytes(xs.push(x), g) =~= concat_bytes(xs, g) + g(x));
    } else {
        lemma_concat_push(xs.drop_first(), x, g);
        assert(xs.push(x).drop_first() =~= xs.drop_first().push(x));
        assert(concat_bytes(xs.push(x), g) =~= concat_bytes(xs, g) + g(x));
    }
}

fn encode_name(name: &[u8], out: &mut Vec<u8>)
    requires
        name@.len() < 256,
    ensures
        final(out)@ == old(out)@ + name_bytes(name@),
{
    let ghost start = out@;
    out.push(name.len() as u8);
    let mut i: usize = 0;
    while i < name.len()
        invariant
            i <= name@.len(),
            out@ == start + seq![name@.len() as u8] + name@.subrange(0, i as int),
        decreases name@.len() - i,
    {
        out.push(name[i]);
        assert(name@.subrange(0, i + 1) == name@.subrange(0, i as int).push(name@[i as int]));
        i = i + 1;
    }
    assert(name@.subrange(0, name@.len() as int) == name@);
}

fn encode_id(id: &SemId, out: &mut Vec<u8>)
    ensures
        final(out)@ == old(out)@ + id@,
{
    let ghost start = out@;
    let mut i: usize = 0;
    while i < 32
        invariant
            i <= 32,
            id@.len() == 32,
            out@ == start + id@.subrange(0, i as int),
        decreases 32 - i,
    {
        out.push(id.0[i]);
        assert(id@.subrange(0, i + 1) == id@.subrange(0, i as int).push(id@[i as int]));
        i = i + 1;
    }
    assert(id@.subrange(0, 32) == id@);
}

impl Encode for SemId {
    open spec fn spec_encode(&self) -> Seq<u8> {
        self@
    }

    fn encode(&self, out: &mut Vec<u8>) {
        encode_id(self, out)
    }
}

impl Encode for Sizing {
    open spec fn spec_encode(&self) -> Seq<u8> {
        sizing_bytes(*self)
    }

    fn encode(&self, out: &mut Vec<u8>) {
        write_le(self.min as u128, 8, out);
        write_le(self.max as u128, 8, out);
    }
}

impl Encode for Primitive {
    open spec fn spec_encode(&self) -> Seq<u8> {
        seq![self.0]
    }

    fn encode(&self, out: &mut Vec<u8>) {
        out.push(self.0);
    }
}

impl Encode for Cls {
    open spec fn spec_encode(&self) -> Seq<u8> {
        seq![self.code()]
    }

    fn encode(&self, out: &mut Vec<u8>) {
        out.push(self.into_u8());
    }
}

impl Variant {
    /// Appends the encoding of the variant, whose name is a valid identifier.
    pub fn encode_checked(&self, out: &mut Vec<u8>)
        ensures
            final(out)@ == old(out)@ + variant_bytes(self@),
            valid_ident(self@.0),
    {
        self.name.0.check_valid();
        encode_name(self.name.as_bytes(), out);
        out.push(self.tag);
    }
}

impl Encode for Variant {
    open spec fn spec_encode(&self) -> Seq<u8> {
        variant_bytes(self@)
    }

    fn encode(&self, out: &mut Vec<u8>) {
        self.encode_checked(out)
    }
}

impl EnumVariants {
    /// Appends the encoding of the variants, which the type holds as valid variants.
    pub fn encode_checked(&self, out: &mut Vec<u8>)
        ensures
            final(out)@ == old(out)@ + list_bytes(self@, variant_enc()),
            valid_variants(self@),
    {
        self.check_wf();
        let ghost g = variant_enc();
        let n = self.len();
        let ghost start = out@;
        out.push(n as u8);
        let mut i: usize = 0;
        while i < n
            invariant
                i <= n,
                n == self@.len(),
                g == variant_enc(),
                out@ == start + seq![n as u8] + concat_bytes(self@.subrange(0, i as int), g),
                forall|j: int| 0 <= j < i ==> valid_ident(#[trigger] self@[j].0),
            decreases n - i,
        {
            let v = self.get(i).unwrap();
            let ghost before = out@;
            v.encode_checked(out);
            proof {
                lemma_concat_push(self@.subrange(0, i as int), self@[i as int], g);
                assert(self@.subrange(0, i as int).push(self@[i as int]) == self@.subrange(0, i + 1));
                assert(g(self@[i as int]) == variant_bytes(v@));
                assert(out@ =~= start + seq![n as u8] + concat_bytes(self@.subrange(0, i + 1), g));
            }
            i = i + 1;
        }
        assert(self@.subrange(0, n as int) == self@);
    }
}

impl Encode for EnumVariants {
    open spec fn spec_encode(&self) -> Seq<u8> {
        list_bytes(self@, variant_enc())
    }

    fn encode(&self, out: &mut Vec<u8>) {
        self.encode_checked(out)
    }
}

impl UnionVariants<SemId> {
    /// Appends the encoding of the union items, which the type holds as valid items.
    pub fn encode_checked(&self, out: &mut Vec<u8>)
        ensures
            final(out)@ == old(out)@ + list_bytes(union_model(*self), union_item_enc()),
            valid_variants(union_variants(union_model(*self))),
            forall|i: int| 0 <= i < union_model(*self).len() ==> (#[trigger] union_model(*self)[i]).1.len() == 32,
    {
        self.check_wf();
        let ghost g = union_item_enc();
        let ghost m = union_model(*self);
        let n = self.len();
        let ghost start = out@;
        out.push(n as u8);
        let mut i: usize = 0;
        while i < n
            invariant
                i <= n,
                n == m.len(),
                m == union_model(*self),
                g == union_item_enc(),
                out@ == start + seq![n as u8] + concat_bytes(m.subrange(0, i as int), g),
                forall|j: int| 0 <= j < i ==> valid_ident(#[trigger] m[j].0.0),
            decreases n - i,
        {
            let (v, id) = self.get(i).unwrap();
            v.encode_checked(out);
            encode_id(id, out);
            proof {
                lemma_concat_push(m.subrange(0, i as int), m[i as int], g);
                assert(m.subrange(0, i as int).push(m[i as int]) == m.subrange(0, i + 1));
                assert(g(m[i as int]) == union_item_bytes((v@, id@)));
                assert(out@ =~= start + seq![n as u8] + concat_bytes(m.subrange(0, i + 1), g));
            }
            i = i + 1;
        }
        assert(m.subrange(0, n as int) == m);
        assert(union_variants(m) =~= self.spec_variants());
    }
}

impl Encode for UnionVariants<SemId> {
    open spec fn spec_encode(&self) -> Seq<u8> {
        list_bytes(union_model(*self), union_item_enc())
    }

    fn encode(&self, out: &mut Vec<u8>) {
        self.encode_checked(out)
    }
}

impl UnnamedFields<SemId> {
    /// Appends the encoding of the tuple fields.
    pub fn encode_checked(&self, out: &mut Vec<u8>)
        ensures
            final(out)@ == old(out)@ + list_bytes(tuple_model(*self), id_enc()),
            1 <= tuple_model(*self).len() <= MAX_ITEMS,
            forall|i: int| 0 <= i < tuple_model(*self).len() ==> (#[trigger] tuple_model(*self)[i]).len() == 32,
    {
        self.check_wf();
        let ghost g = id_enc();
        let ghost m = tuple_model(*self);
        let n = self.len();
        let ghost start = out@;
        out.push(n as u8);
        let mut i: usize = 0;
        while i < n
            invariant
                i <= n,
                n == m.len(),
                n <= MAX_ITEMS,
                m == tuple_model(*self),
                g == id_enc(),
                out@ == start + seq![n as u8] + concat_bytes(m.subrange(0, i as int), g),
            decreases n - i,
        {
            let id = self.ty_by_pos(i as u8).unwrap();
            encode_id(id, out);
            proof {
                lemma_concat_push(m.subrange(0, i as int), m[i as int], g);
                assert(m.subrange(0, i as int).push(m[i as int]) == m.subrange(0, i + 1));
                assert(out@ =~= start + seq![n as u8] + concat_bytes(m.subrange(0, i + 1), g));
            }
            i = i + 1;
        }
        assert(m.subrange(0, n as int) == m);
    }
}

impl Encode for UnnamedFields<SemId> {
    open spec fn spec_encode(&self) -> Seq<u8> {
        list_bytes(tuple_model(*self), id_enc())
    }

    fn encode(&self, out: &mut Vec<u8>) {
        self.encode_checked(out)
    }
}

impl NamedFields<SemId> {
    /// Appends the encoding of the structure fields, whose names are valid identifiers.
    pub fn encode_checked(&self, out: &mut Vec<u8>)
        ensures
            final(out)@ == old(out)@ + list_bytes(struct_model(*self), field_enc()),
            1 <= struct_model(*self).len() <= MAX_ITEMS,
            forall|i: int| 0 <= i < struct_model(*self).len() ==> valid_ident((#[trigger] struct_model(*self)[i]).0)
                && struct_model(*self)[i].1.len() == 32,
    {
        self.check_wf();
        let ghost g = field_enc();
        let ghost m = struct_model(*self);
        let n = self.len();
        let ghost start = out@;
        out.push(n as u8);
        let mut i: usize = 0;
        while i < n
            invariant
                i <= n,
                n == m.len(),
                n <= MAX_ITEMS,
                m == struct_model(*self),
                g == field_enc(),
                out@ == start + seq![n as u8] + concat_bytes(m.subrange(0, i as int), g),
                forall|j: int| 0 <= j < i ==> valid_ident(#[trigger] m[j].0),
            decreases n - i,
        {
            let field = self.get(i).unwrap();
            field.name.0.check_valid();
            encode_name(field.name.as_bytes(), out);
            encode_id(&field.ty, out);
            proof {
                lemma_concat_push(m.subrange(0, i as int), m[i as int], g);
                assert(m.subrange(0, i as int).push(m[i as int]) == m.subrange(0, i + 1));
                assert(out@ =~= start + seq![n as u8] + concat_bytes(m.subrange(0, i + 1), g));
            }
            i = i + 1;
        }
        assert(m.subrange(0, n as int) == m);
    }
}

impl Encode for NamedFields<SemId> {
    open spec fn spec_encode(&self) -> Seq<u8> {
        list_bytes(struct_model(*self), field_enc())
    }

    fn encode(&self, out: &mut Vec<u8>) {
        self.encode_checked(out)
    }
}

impl Ty<SemId> {
    /// Appends the encoding of the type: the code of its class, then what it holds.
    /// What it holds is a valid model.
    pub fn encode_checked(&self, out: &mut Vec<u8>)
        ensures
            final(out)@ == old(out)@ + ty_bytes(ty_model(*self)),
            valid_model(ty_model(*self)),
    {
        let ghost start = out@;
        out.push(self.cls().into_u8());
        let ghost head = out@;
        match self {
            Ty::Primitive(p) => {
                out.push(p.0);
            },
            Ty::UnicodeChar => {},
            Ty::Enum(vars) => {
                vars.encode_checked(out);
            },
            Ty::Union(u) => {
                u.encode_checked(out);
            },
            Ty::Tuple(f) => {
                f.encode_checked(out);
            },
            Ty::Struct(f) => {
                f.encode_checked(out);
            },
            Ty::Array(id, len) => {
                encode_id(id, out);
                write_le(*len as u128, 2, out);
            },
            Ty::List(id, s) => {
                encode_id(id, out);
                s.encode(out);
            },
            Ty::SetOf(id, s) => {
                encode_id(id, out);
                s.encode(out);
            },
            Ty::MapOf(k, v, s) => {
                encode_id(k, out);
                encode_id(v, out);
                s.encode(out);
            },
        }
        assert(out@ =~= start + ty_bytes(ty_model(*self)));
    }
}

impl Encode for Ty<SemId> {
    open spec fn spec_encode(&self) -> Seq<u8> {
        ty_bytes(ty_model(*self))
    }

    fn encode(&self, out: &mut Vec<u8>) {
        self.encode_checked(out)
    }
}

/// Reading one byte at `pos`: the byte and the position after it.
pub open spec fn parse_byte(data: Seq<u8>, pos: int) -> Result<(u8, int), DecodeError> {
    if 0 <= pos < data.len() {
        Ok((data[pos], pos + 1))
    } else {
        Err(DecodeError::UnexpectedEnd)
    }
}

/// Reading a semantic id at `pos`.
pub open spec fn parse_id(data: Seq<u8>, pos: int) -> Result<(Seq<u8>, int), DecodeError> {
    if 0 <= pos && pos + 32 <= data.len() {
        Ok((data.subrange(pos, pos + 32), pos + 32))
    } else {
        Err(DecodeError::UnexpectedEnd)
    }
}

/// Reading an identifier at `pos`.
pub open spec fn parse_name(data: Seq<u8>, pos: int) -> Result<(Seq<u8>, int), DecodeError> {
    match Ident::spec_decode(data.skip(pos)) {
        Ok((name, n)) => Ok((name, pos + n)),
        Err(e) => Err(e),
    }
}

/// Reading a little-endian number of `n` bytes at `pos`.
pub open spec fn parse_le(data: Seq<u8>, pos: int, n: nat) -> Result<(nat, int), DecodeError> {
    if 0 <= pos && pos + n <= data.len() {
        Ok((le_value(data.subrange(pos, pos + n)), pos + n))
    } else {
        Err(DecodeError::UnexpectedEnd)
    }
}

/// Reading a size bound at `pos`.
pub open spec fn parse_sizing(data: Seq<u8>, pos: int) -> Result<(Sizing, int), DecodeError> {
    if 0 <= pos && pos + 16 <= data.len() {
        Ok((
            Sizing {
                min: le_value(data.subrange(pos, pos + 8)) as u64,
                max: le_value(data.subrange(pos + 8, pos + 16)) as u64,
            },
            pos + 16,
        ))
    } else {
        Err(DecodeError::UnexpectedEnd)
    }
}

/// Reading a variant at `pos`.
pub open spec fn parse_variant(data: Seq<u8>, pos: int) -> Result<((Seq<u8>, u8), int), DecodeError> {
    match parse_name(data, pos) {
        Err(e) => Err(e),
        Ok((name, p)) => match parse_byte(data, p) {
            Err(e) => Err(e),
            Ok((tag, q)) => Ok(((name, tag), q)),
        },
    }
}

/// A variant that comes after the last of `prev` but has a lower tag, without
/// clashing with it.
pub open spec fn out_of_order(prev: Seq<(Seq<u8>, u8)>, v: (Seq<u8>, u8)) -> bool {
    prev.len() > 0 && !variants_clash(prev.last(), v) && prev.last().1 > v.1
}

/// Reading the next enum variant after the variants `prev`.
pub open spec fn parse_enum_item(prev: Seq<(Seq<u8>, u8)>, data: Seq<u8>, pos: int) -> Result<
    ((Seq<u8>, u8), int),
    DecodeError,
> {
    match parse_variant(data, pos) {
        Err(e) => Err(e),
        Ok((v, p)) => if out_of_order(prev, v) {
            Err(DecodeError::BrokenSetOrder)
        } else if clashes_any(prev, v) {
            Err(DecodeError::RepeatedSetValue)
        } else {
            Ok((v, p))
        },
    }
}

/// Reading the next union item after the items `prev`.
pub open spec fn parse_union_item(prev: Seq<((Seq<u8>, u8), Seq<u8>)>, data: Seq<u8>, pos: int) -> Result<
    (((Seq<u8>, u8), Seq<u8>), int),
    DecodeError,
> {
    match parse_variant(data, pos) {
        Err(e) => Err(e),
        Ok((v, p)) => match parse_id(data, p) {
            Err(e) => Err(e),
            Ok((id, q)) => if out_of_order(union_variants(prev), v) {
                Err(DecodeError::BrokenMapOrder)
            } else if clashes_any(union_variants(prev), v) {
                Err(DecodeError::RepeatedMapValue)
            } else {
                Ok(((v, id), q))
            },
        },
    }
}

/// Reading the next tuple field.
pub open spec fn parse_tuple_item(prev: Seq<Seq<u8>>, data: Seq<u8>, pos: int) -> Result<(Seq<u8>, int), DecodeError> {
    parse_id(data, pos)
}

/// Reading the next structure field.
pub open spec fn parse_field(prev: Seq<(Seq<u8>, Seq<u8>)>, data: Seq<u8>, pos: int) -> Result<
    ((Seq<u8>, Seq<u8>), int),
    DecodeError,
> {
    match parse_name(data, pos) {
        Err(e) => Err(e),
        Ok((name, p)) => match parse_id(data, p) {
            Err(e) => Err(e),
            Ok((id, q)) => Ok(((name, id), q)),
        },
    }
}

pub open spec fn enum_item_parser() -> spec_fn(Seq<(Seq<u8>, u8)>, Seq<u8>, int) -> Result<((Seq<u8>, u8), int), DecodeError> {
    |prev: Seq<(Seq<u8>, u8)>, data: Seq<u8>, pos: int| parse_enum_item(prev, data, pos)
}

pub open spec fn union_item_parser() -> spec_fn(Seq<((Seq<u8>, u8), Seq<u8>)>, Seq<u8>, int) -> Result<(((Seq<u8>, u8), Seq<u8>), int), DecodeError> {
    |prev: Seq<((Seq<u8>, u8), Seq<u8>)>, data: Seq<u8>, pos: int| parse_union_item(prev, data, pos)
}

pub open spec fn tuple_item_parser() -> spec_fn(Seq<Seq<u8>>, Seq<u8>, int) -> Result<(Seq<u8>, int), DecodeError> {
    |prev: Seq<Seq<u8>>, data: Seq<u8>, pos: int| parse_tuple_item(prev, data, pos)
}

pub open spec fn field_parser() -> spec_fn(Seq<(Seq<u8>, Seq<u8>)>, Seq<u8>, int) -> Result<((Seq<u8>, Seq<u8>), int), DecodeError> {
    |prev: Seq<(Seq<u8>, Seq<u8>)>, data: Seq<u8>, pos: int| parse_field(prev, data, pos)
}

/// Reading `n` more items after the items `prev`, each with `f`: all the items and
/// the position after the last.
pub open spec fn parse_items<A>(
    prev: Seq<A>,
    data: Seq<u8>,
    pos: int,
    n: nat,
    f: spec_fn(Seq<A>, Seq<u8>, int) -> Result<(A, int), DecodeError>,
) -> Result<(Seq<A>, int), DecodeError>
    decreases n,
{
    if n == 0 {
        Ok((prev, pos))
    } else {
        match f(prev, data, pos) {
            Err(e) => Err(e),
            Ok((a, p)) => parse_items(prev.push(a), data, p, (n - 1) as nat, f),
        }
    }
}

/// Reading a list of one to 255 items: the number of items as one byte, then the
/// items.
pub open spec fn parse_list<A>(
    data: Seq<u8>,
    pos: int,
    f: spec_fn(Seq<A>, Seq<u8>, int) -> Result<(A, int), DecodeError>,
) -> Result<(Seq<A>, int), DecodeError> {
    match parse_byte(data, pos) {
        Err(e) => Err(e),
        Ok((n, p)) => if n == 0 {
            Err(DecodeError::Confinement(ConfinementError::Undersize { len: 0, min_len: 1 }))
        } else {
            parse_items(Seq::empty(), data, p, n as nat, f)
        },
    }
}

/// Reading a type AST at `pos`: the model and the position after it.
pub open spec fn parse_ty(data: Seq<u8>, pos: int) -> Result<(TyModel, int), DecodeError> {
    match parse_byte(data, pos) {
        Err(e) => Err(e),
        Ok((cls, p)) => if cls == 0 {
            match parse_byte(data, p) {
                Err(e) => Err(e),
                Ok((code, q)) => Ok((TyModel::Primitive(code), q)),
            }
        } else if cls == 1 {
            Ok((TyModel::UnicodeChar, p))
        } else if cls == 2 {
            Err(DecodeError::InvalidTyCls(cls))
        } else if cls == 3 {
            match parse_list(data, p, enum_item_parser()) {
                Err(e) => Err(e),
                Ok((vs, q)) => Ok((TyModel::Enum(vs), q)),
            }
        } else if cls == 4 {
            match parse_list(data, p, union_item_parser()) {
                Err(e) => Err(e),
                Ok((items, q)) => Ok((TyModel::Union(items), q)),
            }
        } else if cls == 5 {
            match parse_list(data, p, field_parser()) {
                Err(e) => Err(e),
                Ok((fs, q)) => Ok((TyModel::Struct(fs), q)),
            }
        } else if cls == 6 {
            match parse_list(data, p, tuple_item_parser()) {
                Err(e) => Err(e),
                Ok((ids, q)) => Ok((TyModel::Tuple(ids), q)),
            }
        } else if cls == 7 {
            match parse_id(data, p) {
                Err(e) => Err(e),
                Ok((id, q)) => match parse_le(data, q, 2) {
                    Err(e) => Err(e),
                    Ok((len, r)) => Ok((TyModel::Array(id, len as u16), r)),
                },
            }
        } else if cls == 8 || cls == 9 {
            match parse_id(data, p) {
                Err(e) => Err(e),
                Ok((id, q)) => match parse_sizing(data, q) {
                    Err(e) => Err(e),
                    Ok((s, r)) => Ok((if cls == 8 { TyModel::List(id, s) } else { TyModel::SetOf(id, s) }, r)),
                },
            }
        } else if cls == 10 {
            match parse_id(data, p) {
                Err(e) => Err(e),
                Ok((k, q)) => match parse_id(data, q) {
                    Err(e) => Err(e),
                    Ok((v, r)) => match parse_sizing(data, r) {
                        Err(e) => Err(e),
                        Ok((s, t)) => Ok((TyModel::MapOf(k, v, s), t)),
                    },
                },
            }
        } else {
            Err(DecodeError::WrongTyCls(cls))
        },
    }
}

/// Where the bytes at `pos` are `a` then `b`, they are `a` at `pos` and `b` after it.
pub(crate) proof fn lemma_split(data: Seq<u8>, pos: int, a: Seq<u8>, b: Seq<u8>)
    requires
        0 <= pos,
        pos + a.len() + b.len() <= data.len(),
        data.subrange(pos, pos + a.len() + b.len()) == a + b,
    ensures
        data.subrange(pos, pos + a.len()) == a,
        data.subrange(pos + a.len(), pos + a.len() + b.len()) == b,
{
    assert forall|i: int| 0 <= i < a.len() implies data.subrange(pos, pos + a.len())[i] == a[i] by {
        assert(data.subrange(pos, pos + a.len() + b.len())[i] == (a + b)[i]);
    }
    assert forall|i: int| 0 <= i < b.len() implies data.subrange(pos + a.len(), pos + a.len() + b.len())[i]
        == b[i] by {
        assert(data.subrange(pos, pos + a.len() + b.len())[a.len() + i] == (a + b)[a.len() + i]);
        assert((a + b)[a.len() + i] == b[i]);
        assert(data.subrange(pos, pos + a.len() + b.len())[a.len() + i] == data[pos + a.len() + i]);
    }
    assert(data.subrange(pos, pos + a.len()) =~= a);
    assert(data.subrange(pos + a.len(), pos + a.len() + b.len()) =~= b);
}

pub(crate) proof fn lemma_name_at(data: Seq<u8>, pos: int, name: Seq<u8>)
    requires
        valid_ident(name),
        0 <= pos,
        pos + name_bytes(name).len() <= data.len(),
        data.subrange(pos, pos + name_bytes(name).len()) == name_bytes(name),
    ensures
        parse_name(data, pos) == Ok::<(Seq<u8>, int), DecodeError>((name, pos + name_bytes(name).len())),
{
    let d = data.skip(pos);
    assert(data.subrange(pos, pos + name_bytes(name).len())[0] == name_bytes(name)[0]);
    assert(d[0] == name.len());
    assert(d.subrange(1, 1 + d[0]) =~= name) by {
        assert forall|i: int| 0 <= i < name.len() implies d.subrange(1, 1 + d[0])[i] == name[i] by {
            assert(data.subrange(pos, pos + name_bytes(name).len())[1 + i] == name_bytes(name)[1 + i]);
        }
    }
    lemma_check_ident(name);
}

proof fn lemma_variant_at(data: Seq<u8>, pos: int, v: (Seq<u8>, u8))
    requires
        valid_ident(v.0),
        0 <= pos,
        pos + variant_bytes(v).len() <= data.len(),
        data.subrange(pos, pos + variant_bytes(v).len()) == variant_bytes(v),
    ensures
        parse_variant(data, pos) == Ok::<((Seq<u8>, u8), int), DecodeError>((v, pos + variant_bytes(v).len())),
{
    lemma_split(data, pos, name_bytes(v.0), seq![v.1]);
    lemma_name_at(data, pos, v.0);
    let p = pos + name_bytes(v.0).len();
    assert(data.subrange(p, p + 1)[0] == data[p]);
}

pub(crate) proof fn lemma_id_at(data: Seq<u8>, pos: int, id: Seq<u8>)
    requires
        id.len() == 32,
        0 <= pos,
        pos + 32 <= data.len(),
        data.subrange(pos, pos + 32) == id,
    ensures
        parse_id(data, pos) == Ok::<(Seq<u8>, int), DecodeError>((id, pos + 32)),
{
}

pub(crate) proof fn lemma_le_at(data: Seq<u8>, pos: int, v: nat, n: nat)
    requires
        v < pow256(n),
        0 <= pos,
        pos + n <= data.len(),
        data.subrange(pos, pos + n) == le_bytes(v, n),
    ensures
        parse_le(data, pos, n) == Ok::<(nat, int), DecodeError>((v, pos + n)),
{
    lemma_le_roundtrip(v, n);
}

pub(crate) proof fn lemma_pow256_values()
    ensures
        pow256(2) == 0x1_0000,
        pow256(8) == 0x1_0000_0000_0000_0000,
{
    reveal_with_fuel(pow256, 9);
}

pub(crate) proof fn lemma_sizing_at(data: Seq<u8>, pos: int, s: Sizing)
    requires
        0 <= pos,
        pos + 16 <= data.len(),
        data.subrange(pos, pos + 16) == sizing_bytes(s),
    ensures
        parse_sizing(data, pos) == Ok::<(Sizing, int), DecodeError>((s, pos + 16)),
{
    lemma_pow256_values();
    lemma_le_roundtrip(s.min as nat, 8);
    lemma_le_roundtrip(s.max as nat, 8);
    lemma_split(data, pos, le_bytes(s.min as nat, 8), le_bytes(s.max as nat, 8));
}

/// Reading items, where the encodings of `xs` stand one after another, gives `xs`
/// back, provided each item is read back from its encoding after the ones before it.
pub(crate) proof fn lemma_items_roundtrip<A>(
    prev: Seq<A>,
    xs: Seq<A>,
    data: Seq<u8>,
    pos: int,
    f: spec_fn(Seq<A>, Seq<u8>, int) -> Result<(A, int), DecodeError>,
    g: spec_fn(A) -> Seq<u8>,
    ok: spec_fn(Seq<A>, A) -> bool,
)
    requires
        0 <= pos,
        pos + concat_bytes(xs, g).len() <= data.len(),
        data.subrange(pos, pos + concat_bytes(xs, g).len()) == concat_bytes(xs, g),
        forall|i: int| 0 <= i < xs.len() ==> #[trigger] ok(prev + xs.take(i), xs[i]),
        forall|pr: Seq<A>, x: A, p: int|
            #[trigger] ok(pr, x) && 0 <= p && p + g(x).len() <= data.len() && data.subrange(p, p + g(x).len())
                == g(x) ==> #[trigger] f(pr, data, p) == Ok::<(A, int), DecodeError>((x, p + g(x).len())),
    ensures
        parse_items(prev, data, pos, xs.len(), f) == Ok::<(Seq<A>, int), DecodeError>(
            (prev + xs, pos + concat_bytes(xs, g).len()),
        ),
    decreases xs.len(),
{
    if xs.len() == 0 {
        assert(prev + xs =~= prev);
    } else {
        let x = xs[0];
        let rest = xs.drop_first();
        lemma_split(data, pos, g(x), concat_bytes(rest, g));
        assert(prev + xs.take(0) =~= prev);
        assert(ok(prev + xs.take(0), xs[0]));
        let p = pos + g(x).len();
        assert(f(prev, data, pos) == Ok::<(A, int), DecodeError>((x, p)));
        assert forall|i: int| 0 <= i < rest.len() implies #[trigger] ok(prev.push(x) + rest.take(i), rest[i]) by {
            assert(prev.push(x) + rest.take(i) =~= prev + xs.take(i + 1));
            assert(ok(prev + xs.take(i + 1), xs[i + 1]));
        }
        lemma_items_roundtrip(prev.push(x), rest, data, p, f, g, ok);
        assert(prev.push(x) + rest =~= prev + xs);
    }
}

/// Enum variants read back from their encoding.
pub(crate) proof fn lemma_enum_list_at(data: Seq<u8>, pos: int, vs: Seq<(Seq<u8>, u8)>)
    requires
        valid_variants(vs),
        0 <= pos,
        pos + list_bytes(vs, variant_enc()).len() <= data.len(),
        data.subrange(pos, pos + list_bytes(vs, variant_enc()).len()) == list_bytes(vs, variant_enc()),
    ensures
        parse_list(data, pos, enum_item_parser()) == Ok::<(Seq<(Seq<u8>, u8)>, int), DecodeError>(
            (vs, pos + list_bytes(vs, variant_enc()).len()),
        ),
{
    let g = variant_enc();
    let f = enum_item_parser();
    let ok = |pr: Seq<(Seq<u8>, u8)>, x: (Seq<u8>, u8)|
        valid_ident(x.0) && !out_of_order(pr, x) && !clashes_any(pr, x);
    lemma_split(data, pos, seq![vs.len() as u8], concat_bytes(vs, g));
    assert(data.subrange(pos, pos + 1)[0] == data[pos]);
    assert forall|i: int| 0 <= i < vs.len() implies #[trigger] ok(Seq::<(Seq<u8>, u8)>::empty() + vs.take(i), vs[i]) by {
        let pr = Seq::<(Seq<u8>, u8)>::empty() + vs.take(i);
        assert(pr =~= vs.take(i));
        assert(valid_ident(vs[i].0));
        if clashes_any(pr, vs[i]) {
            let j = choose|j: int| 0 <= j < pr.len() && variants_clash(#[trigger] pr[j], vs[i]);
            assert(pr[j] == vs[j]);
        }
        if pr.len() > 0 {
            assert(pr.last() == vs[i - 1]);
        }
    }
    assert forall|pr: Seq<(Seq<u8>, u8)>, x: (Seq<u8>, u8), p: int|
        #[trigger] ok(pr, x) && 0 <= p && p + g(x).len() <= data.len() && data.subrange(p, p + g(x).len()) == g(x)
        implies #[trigger] f(pr, data, p) == Ok::<((Seq<u8>, u8), int), DecodeError>((x, p + g(x).len())) by {
        lemma_variant_at(data, p, x);
    }
    lemma_items_roundtrip(Seq::<(Seq<u8>, u8)>::empty(), vs, data, pos + 1, f, g, ok);
    assert(Seq::<(Seq<u8>, u8)>::empty() + vs =~= vs);
}

/// Union items read back from their encoding.
proof fn lemma_union_list_at(data: Seq<u8>, pos: int, items: Seq<((Seq<u8>, u8), Seq<u8>)>)
    requires
        valid_variants(union_variants(items)),
        forall|i: int| 0 <= i < items.len() ==> (#[trigger] items[i]).1.len() == 32,
        0 <= pos,
        pos + list_bytes(items, union_item_enc()).len() <= data.len(),
        data.subrange(pos, pos + list_bytes(items, union_item_enc()).len()) == list_bytes(items, union_item_enc()),
    ensures
        parse_list(data, pos, union_item_parser()) == Ok::<(Seq<((Seq<u8>, u8), Seq<u8>)>, int), DecodeError>(
            (items, pos + list_bytes(items, union_item_enc()).len()),
        ),
{
    let g = union_item_enc();
    let f = union_item_parser();
    let vs = union_variants(items);
    let ok = |pr: Seq<((Seq<u8>, u8), Seq<u8>)>, x: ((Seq<u8>, u8), Seq<u8>)|
        valid_ident(x.0.0) && x.1.len() == 32 && !out_of_order(union_variants(pr), x.0) && !clashes_any(
            union_variants(pr),
            x.0,
        );
    lemma_split(data, pos, seq![items.len() as u8], concat_bytes(items, g));
    assert(data.subrange(pos, pos + 1)[0] == data[pos]);
    assert forall|i: int| 0 <= i < items.len() implies #[trigger] ok(
        Seq::<((Seq<u8>, u8), Seq<u8>)>::empty() + items.take(i),
        items[i],
    ) by {
        let pr = Seq::<((Seq<u8>, u8), Seq<u8>)>::empty() + items.take(i);
        let pv = union_variants(pr);
        assert(pv =~= vs.take(i));
        assert(vs[i] == items[i].0);
        assert(valid_ident(vs[i].0));
        if clashes_any(pv, items[i].0) {
            let j = choose|j: int| 0 <= j < pv.len() && variants_clash(#[trigger] pv[j], items[i].0);
            assert(pv[j] == vs[j]);
        }
        if pv.len() > 0 {
            assert(pv.last() == vs[i - 1]);
        }
    }
    assert forall|pr: Seq<((Seq<u8>, u8), Seq<u8>)>, x: ((Seq<u8>, u8), Seq<u8>), p: int|
        #[trigger] ok(pr, x) && 0 <= p && p + g(x).len() <= data.len() && data.subrange(p, p + g(x).len()) == g(x)
        implies #[trigger] f(pr, data, p) == Ok::<(((Seq<u8>, u8), Seq<u8>), int), DecodeError>(
        (x, p + g(x).len()),
    ) by {
        lemma_split(data, p, variant_bytes(x.0), x.1);
        lemma_variant_at(data, p, x.0);
        lemma_id_at(data, p + variant_bytes(x.0).len(), x.1);
    }
    lemma_items_roundtrip(Seq::<((Seq<u8>, u8), Seq<u8>)>::empty(), items, data, pos + 1, f, g, ok);
    assert(Seq::<((Seq<u8>, u8), Seq<u8>)>::empty() + items =~= items);
}

/// Tuple fields read back from their encoding.
proof fn lemma_tuple_list_at(data: Seq<u8>, pos: int, ids: Seq<Seq<u8>>)
    requires
        1 <= ids.len() <= MAX_ITEMS,
        forall|i: int| 0 <= i < ids.len() ==> (#[trigger] ids[i]).len() == 32,
        0 <= pos,
        pos + list_bytes(ids, id_enc()).len() <= data.len(),
        data.subrange(pos, pos + list_bytes(ids, id_enc()).len()) == list_bytes(ids, id_enc()),
    ensures
        parse_list(data, pos, tuple_item_parser()) == Ok::<(Seq<Seq<u8>>, int), DecodeError>(
            (ids, pos + list_bytes(ids, id_enc()).len()),
        ),
{
    let g = id_enc();
    let f = tuple_item_parser();
    let ok = |pr: Seq<Seq<u8>>, x: Seq<u8>| x.len() == 32;
    lemma_split(data, pos, seq![ids.len() as u8], concat_bytes(ids, g));
    assert(data.subrange(pos, pos + 1)[0] == data[pos]);
    assert forall|i: int| 0 <= i < ids.len() implies #[trigger] ok(Seq::<Seq<u8>>::empty() + ids.take(i), ids[i]) by {
    }
    assert forall|pr: Seq<Seq<u8>>, x: Seq<u8>, p: int|
        #[trigger] ok(pr, x) && 0 <= p && p + g(x).len() <= data.len() && data.subrange(p, p + g(x).len()) == g(x)
        implies #[trigger] f(pr, data, p) == Ok::<(Seq<u8>, int), DecodeError>((x, p + g(x).len())) by {
        lemma_id_at(data, p, x);
    }
    lemma_items_roundtrip(Seq::<Seq<u8>>::empty(), ids, data, pos + 1, f, g, ok);
    assert(Seq::<Seq<u8>>::empty() + ids =~= ids);
}

/// Structure fields read back from their encoding.
proof fn lemma_struct_list_at(data: Seq<u8>, pos: int, fs: Seq<(Seq<u8>, Seq<u8>)>)
    requires
        1 <= fs.len() <= MAX_ITEMS,
        forall|i: int| 0 <= i < fs.len() ==> valid_ident((#[trigger] fs[i]).0) && fs[i].1.len() == 32,
        0 <= pos,
        pos + list_bytes(fs, field_enc()).len() <= data.len(),
        data.subrange(pos, pos + list_bytes(fs, field_enc()).len()) == list_bytes(fs, field_enc()),
    ensures
        parse_list(data, pos, field_parser()) == Ok::<(Seq<(Seq<u8>, Seq<u8>)>, int), DecodeError>(
            (fs, pos + list_bytes(fs, field_enc()).len()),
        ),
{
    let g = field_enc();
    let f = field_parser();
    let ok = |pr: Seq<(Seq<u8>, Seq<u8>)>, x: (Seq<u8>, Seq<u8>)| valid_ident(x.0) && x.1.len() == 32;
    lemma_split(data, pos, seq![fs.len() as u8], concat_bytes(fs, g));
    assert(data.subrange(pos, pos + 1)[0] == data[pos]);
    assert forall|i: int| 0 <= i < fs.len() implies #[trigger] ok(Seq::<(Seq<u8>, Seq<u8>)>::empty() + fs.take(i), fs[i]) by {
    }
    assert forall|pr: Seq<(Seq<u8>, Seq<u8>)>, x: (Seq<u8>, Seq<u8>), p: int|
        #[trigger] ok(pr, x) && 0 <= p && p + g(x).len() <= data.len() && data.subrange(p, p + g(x).len()) == g(x)
        implies #[trigger] f(pr, data, p) == Ok::<((Seq<u8>, Seq<u8>), int), DecodeError>((x, p + g(x).len())) by {
        lemma_split(data, p, name_bytes(x.0), x.1);
        lemma_name_at(data, p, x.0);
        lemma_id_at(data, p + name_bytes(x.0).len(), x.1);
    }
    lemma_items_roundtrip(Seq::<(Seq<u8>, Seq<u8>)>::empty(), fs, data, pos + 1, f, g, ok);
    assert(Seq::<(Seq<u8>, Seq<u8>)>::empty() + fs =~= fs);
}

/// Reading a type back from its encoding gives the type and stops right after the
/// encoding, whatever bytes follow it.
pub proof fn lemma_ty_roundtrip(m: TyModel, data: Seq<u8>, pos: int)
    requires
        valid_model(m),
        0 <= pos,
        pos + ty_bytes(m).len() <= data.len(),
        data.subrange(pos, pos + ty_bytes(m).len()) == ty_bytes(m),
    ensures
        parse_ty(data, pos) == Ok::<(TyModel, int), DecodeError>((m, pos + ty_bytes(m).len())),
{
    let tag = model_cls(m).code();
    let body = ty_bytes(m).drop_first();
    assert(ty_bytes(m) =~= seq![tag] + body);
    lemma_split(data, pos, seq![tag], body);
    assert(data.subrange(pos, pos + 1)[0] == data[pos]);
    let p = pos + 1;
    match m {
        TyModel::Primitive(code) => {
            assert(data.subrange(p, p + 1)[0] == data[p]);
        },
        TyModel::UnicodeChar => {},
        TyModel::Enum(vs) => {
            assert(body =~= list_bytes(vs, variant_enc()));
            lemma_enum_list_at(data, p, vs);
        },
        TyModel::Union(items) => {
            assert(body =~= list_bytes(items, union_item_enc()));
            lemma_union_list_at(data, p, items);
        },
        TyModel::Tuple(ids) => {
            assert(body =~= list_bytes(ids, id_enc()));
            lemma_tuple_list_at(data, p, ids);
        },
        TyModel::Struct(fs) => {
            assert(body =~= list_bytes(fs, field_enc()));
            lemma_struct_list_at(data, p, fs);
        },
        TyModel::Array(id, len) => {
            lemma_pow256_values();
            lemma_le_len(len as nat, 2);
            assert(body =~= id + le_bytes(len as nat, 2));
            lemma_split(data, p, id, le_bytes(len as nat, 2));
            lemma_id_at(data, p, id);
            lemma_le_at(data, p + 32, len as nat, 2);
        },
        TyModel::List(id, sz) => {
            lemma_le_len(sz.min as nat, 8);
            lemma_le_len(sz.max as nat, 8);
            assert(body =~= id + sizing_bytes(sz));
            lemma_split(data, p, id, sizing_bytes(sz));
            lemma_id_at(data, p, id);
            lemma_sizing_at(data, p + 32, sz);
        },
        TyModel::SetOf(id, sz) => {
            lemma_le_len(sz.min as nat, 8);
            lemma_le_len(sz.max as nat, 8);
            assert(body =~= id + sizing_bytes(sz));
            lemma_split(data, p, id, sizing_bytes(sz));
            lemma_id_at(data, p, id);
            lemma_sizing_at(data, p + 32, sz);
        },
        TyModel::MapOf(k, v, sz) => {
            lemma_le_len(sz.min as nat, 8);
            lemma_le_len(sz.max as nat, 8);
            assert(body =~= (k + v) + sizing_bytes(sz));
            lemma_split(data, p, k + v, sizing_bytes(sz));
            lemma_split(data, p, k, v);
            lemma_id_at(data, p, k);
            lemma_id_at(data, p + 32, v);
            lemma_sizing_at(data, p + 64, sz);
        },
    }
}

/// Reads one byte at `pos`.
pub(crate) fn read_byte(data: &[u8], pos: usize) -> (res: Result<(u8, usize), DecodeError>)
    ensures
        res matches Ok((b, p)) ==> parse_byte(data@, pos as int) == Ok::<(u8, int), DecodeError>((b, p as int)),
        res matches Err(e) ==> parse_byte(data@, pos as int) == Err::<(u8, int), DecodeError>(e),
{
    if pos < data.len() {
        Ok((data[pos], pos + 1))
    } else {
        Err(DecodeError::UnexpectedEnd)
    }
}

/// Reads a semantic id at `pos`.
pub(crate) fn read_id(data: &[u8], pos: usize) -> (res: Result<(SemId, usize), DecodeError>)
    ensures
        res matches Ok((id, p)) ==> parse_id(data@, pos as int) == Ok::<(Seq<u8>, int), DecodeError>((id@, p as int)),
        res matches Err(e) ==> parse_id(data@, pos as int) == Err::<(Seq<u8>, int), DecodeError>(e),
{
    if pos > data.len() || data.len() - pos < 32 {
        return Err(DecodeError::UnexpectedEnd);
    }
    let mut bytes = [0u8; 32];
    let mut i: usize = 0;
    while i < 32
        invariant
            i <= 32,
            pos + 32 <= data.len(),
            forall|j: int| 0 <= j < i ==> bytes@[j] == data@[pos + j],
        decreases 32 - i,
    {
        bytes[i] = data[pos + i];
        i = i + 1;
    }
    assert(bytes@ =~= data@.subrange(pos as int, pos + 32));
    Ok((SemId(bytes), pos + 32))
}

/// Reads an identifier at `pos`.
pub(crate) fn read_name(data: &[u8], pos: usize) -> (res: Result<(Ident, usize), DecodeError>)
    requires
        pos <= data@.len(),
    ensures
        res matches Ok((id, p)) ==> parse_name(data@, pos as int) == Ok::<(Seq<u8>, int), DecodeError>((id@, p as int))
            && p <= data@.len(),
        res matches Err(e) ==> parse_name(data@, pos as int) == Err::<(Seq<u8>, int), DecodeError>(e),
{
    let len = data.len();
    match Ident::decode(data, pos) {
        Ok((id, n)) => {
            proof {
                assert(data@.skip(pos as int).len() == data@.len() - pos);
                assert(data@.skip(pos as int).len() >= n);
            }
            Ok((id, pos + n))
        },
        Err(e) => Err(e),
    }
}

/// Reads a variant at `pos`.
fn read_variant(data: &[u8], pos: usize) -> (res: Result<(Variant, usize), DecodeError>)
    requires
        pos <= data@.len(),
    ensures
        res matches Ok((v, p)) ==> parse_variant(data@, pos as int) == Ok::<((Seq<u8>, u8), int), DecodeError>(
            (v@, p as int),
        ) && p <= data@.len(),
        res matches Err(e) ==> parse_variant(data@, pos as int) == Err::<((Seq<u8>, u8), int), DecodeError>(e),
{
    let (name, p) = match read_name(data, pos) {
        Ok(r) => r,
        Err(e) => return Err(e),
    };
    let (tag, q) = match read_byte(data, p) {
        Ok(r) => r,
        Err(e) => return Err(e),
    };
    Ok((Variant { name: VariantName(name), tag }, q))
}

/// Whether `v` clashes with one of `vars`.
fn clashes_with(vars: &Vec<Variant>, v: &Variant) -> (r: bool)
    ensures
        r == clashes_any(vars@.map_values(|x: Variant| x@), v@),
{
    let ghost s = vars@.map_values(|x: Variant| x@);
    let mut i: usize = 0;
    while i < vars.len()
        invariant
            i <= vars@.len(),
            s == vars@.map_values(|x: Variant| x@),
            forall|j: int| 0 <= j < i ==> !variants_clash(#[trigger] s[j], v@),
        decreases vars@.len() - i,
    {
        if vars[i].tag == v.tag || bytes_eq(vars[i].name.as_bytes(), v.name.as_bytes()) {
            assert(variants_clash(s[i as int], v@));
            return true;
        }
        i = i + 1;
    }
    false
}

/// Whether `v`, coming after `vars`, breaks the order of tags.
fn breaks_order(vars: &Vec<Variant>, v: &Variant) -> (r: bool)
    ensures
        r == out_of_order(vars@.map_values(|x: Variant| x@), v@),
{
    if vars.len() == 0 {
        return false;
    }
    let last = &vars[vars.len() - 1];
    let clash = last.tag == v.tag || bytes_eq(last.name.as_bytes(), v.name.as_bytes());
    !clash && last.tag > v.tag
}

/// A variant that neither clashes with well-formed variants nor breaks their order
/// keeps them well-formed.
proof fn lemma_push_wf(prev: Seq<(Seq<u8>, u8)>, v: (Seq<u8>, u8))
    requires
        wf_variants(prev),
        !out_of_order(prev, v),
        !clashes_any(prev, v),
    ensures
        wf_variants(prev.push(v)),
{
    let t = prev.push(v);
    if prev.len() > 0 {
        assert(!variants_clash(prev[prev.len() - 1], v));
    }
    assert forall|i: int, j: int| 0 <= i < j < t.len() implies t[i].1 < t[j].1 && t[i].0 != t[j].0 by {
        if j == prev.len() {
            assert(!variants_clash(prev[i], v));
            if i < prev.len() - 1 {
                assert(prev[i].1 < prev[prev.len() - 1].1);
            }
        }
    }
}

/// Reads the variants of an enum at `pos`.
pub(crate) fn read_enum_variants(data: &[u8], pos: usize) -> (res: Result<(EnumVariants, usize), DecodeError>)
    requires
        pos <= data@.len(),
    ensures
        res matches Ok((vs, p)) ==> parse_list(data@, pos as int, enum_item_parser()) == Ok::<
            (Seq<(Seq<u8>, u8)>, int),
            DecodeError,
        >((vs@, p as int)) && p <= data@.len(),
        res matches Err(e) ==> parse_list(data@, pos as int, enum_item_parser()) == Err::<
            (Seq<(Seq<u8>, u8)>, int),
            DecodeError,
        >(e),
{
    let ghost f = enum_item_parser();
    let (n, mut p) = match read_byte(data, pos) {
        Ok(r) => r,
        Err(e) => return Err(e),
    };
    if n == 0 {
        return Err(DecodeError::Confinement(ConfinementError::Undersize { len: 0, min_len: 1 }));
    }
    let mut vars: Vec<Variant> = Vec::new();
    let mut i: u8 = 0;
    assert(vars@.map_values(|x: Variant| x@) =~= Seq::<(Seq<u8>, u8)>::empty());
    while i < n
        invariant
            i <= n,
            p <= data@.len(),
            vars@.len() == i,
            f == enum_item_parser(),
            wf_variants(vars@.map_values(|x: Variant| x@)),
            parse_list(data@, pos as int, f) == parse_items(
                vars@.map_values(|x: Variant| x@),
                data@,
                p as int,
                (n - i) as nat,
                f,
            ),
        decreases n - i,
    {
        let ghost prev = vars@.map_values(|x: Variant| x@);
        let (v, q) = match read_variant(data, p) {
            Ok(r) => r,
            Err(e) => return Err(e),
        };
        if breaks_order(&vars, &v) {
            return Err(DecodeError::BrokenSetOrder);
        }
        if clashes_with(&vars, &v) {
            return Err(DecodeError::RepeatedSetValue);
        }
        proof {
            lemma_push_wf(prev, v@);
        }
        vars.push(v);
        assert(vars@.map_values(|x: Variant| x@) =~= prev.push(v@));
        p = q;
        i = i + 1;
    }
    Ok((EnumVariants::from_sorted(vars), p))
}

/// Union items out of variants and the ids of their types.
pub open spec fn union_items_of(vs: Seq<(Seq<u8>, u8)>, ids: Seq<SemId>) -> Seq<((Seq<u8>, u8), Seq<u8>)> {
    Seq::new(vs.len(), |j: int| (vs[j], ids[j]@))
}

/// Reads the items of a union at `pos`.
fn read_union_variants(data: &[u8], pos: usize) -> (res: Result<(UnionVariants<SemId>, usize), DecodeError>)
    requires
        pos <= data@.len(),
    ensures
        res matches Ok((u, p)) ==> parse_list(data@, pos as int, union_item_parser()) == Ok::<
            (Seq<((Seq<u8>, u8), Seq<u8>)>, int),
            DecodeError,
        >((union_model(u), p as int)) && p <= data@.len(),
        res matches Err(e) ==> parse_list(data@, pos as int, union_item_parser()) == Err::<
            (Seq<((Seq<u8>, u8), Seq<u8>)>, int),
            DecodeError,
        >(e),
{
    let ghost f = union_item_parser();
    let (n, mut p) = match read_byte(data, pos) {
        Ok(r) => r,
        Err(e) => return Err(e),
    };
    if n == 0 {
        return Err(DecodeError::Confinement(ConfinementError::Undersize { len: 0, min_len: 1 }));
    }
    let mut vars: Vec<Variant> = Vec::new();
    let mut tys: Vec<SemId> = Vec::new();
    let mut i: u8 = 0;
    assert(union_items_of(vars@.map_values(|x: Variant| x@), tys@) =~= Seq::<((Seq<u8>, u8), Seq<u8>)>::empty());
    while i < n
        invariant
            i <= n,
            p <= data@.len(),
            vars@.len() == i,
            tys@.len() == i,
            f == union_item_parser(),
            wf_variants(vars@.map_values(|x: Variant| x@)),
            parse_list(data@, pos as int, f) == parse_items(
                union_items_of(vars@.map_values(|x: Variant| x@), tys@),
                data@,
                p as int,
                (n - i) as nat,
                f,
            ),
        decreases n - i,
    {
        let ghost vs = vars@.map_values(|x: Variant| x@);
        let ghost prev = union_items_of(vs, tys@);
        assert(union_variants(prev) =~= vs);
        let (v, q) = match read_variant(data, p) {
            Ok(r) => r,
            Err(e) => return Err(e),
        };
        let (id, r) = match read_id(data, q) {
            Ok(x) => x,
            Err(e) => return Err(e),
        };
        if breaks_order(&vars, &v) {
            return Err(DecodeError::BrokenMapOrder);
        }
        if clashes_with(&vars, &v) {
            return Err(DecodeError::RepeatedMapValue);
        }
        proof {
            lemma_push_wf(vs, v@);
        }
        let ghost vv = v@;
        let ghost idv = id@;
        vars.push(v);
        tys.push(id);
        assert(vars@.map_values(|x: Variant| x@) =~= vs.push(vv));
        assert(union_items_of(vars@.map_values(|x: Variant| x@), tys@) =~= prev.push((vv, idv)));
        p = r;
        i = i + 1;
    }
    let ghost vs = vars@.map_values(|x: Variant| x@);
    let ghost items = union_items_of(vs, tys@);
    let u = UnionVariants::from_sorted(vars, tys);
    assert(union_model(u) =~= items);
    Ok((u, p))
}

/// Reads the fields of a tuple at `pos`.
fn read_tuple_fields(data: &[u8], pos: usize) -> (res: Result<(UnnamedFields<SemId>, usize), DecodeError>)
    requires
        pos <= data@.len(),
    ensures
        res matches Ok((t, p)) ==> parse_list(data@, pos as int, tuple_item_parser()) == Ok::<
            (Seq<Seq<u8>>, int),
            DecodeError,
        >((tuple_model(t), p as int)) && p <= data@.len(),
        res matches Err(e) ==> parse_list(data@, pos as int, tuple_item_parser()) == Err::<
            (Seq<Seq<u8>>, int),
            DecodeError,
        >(e),
{
    let ghost f = tuple_item_parser();
    let (n, mut p) = match read_byte(data, pos) {
        Ok(r) => r,
        Err(e) => return Err(e),
    };
    if n == 0 {
        return Err(DecodeError::Confinement(ConfinementError::Undersize { len: 0, min_len: 1 }));
    }
    let mut ids: Vec<SemId> = Vec::new();
    let mut i: u8 = 0;
    assert(Seq::new(ids@.len(), |j: int| ids@[j]@) =~= Seq::<Seq<u8>>::empty());
    while i < n
        invariant
            i <= n,
            p <= data@.len(),
            ids@.len() == i,
            f == tuple_item_parser(),
            parse_list(data@, pos as int, f) == parse_items(
                Seq::new(ids@.len(), |j: int| ids@[j]@),
                data@,
                p as int,
                (n - i) as nat,
                f,
            ),
        decreases n - i,
    {
        let ghost prev = Seq::new(ids@.len(), |j: int| ids@[j]@);
        let (id, q) = match read_id(data, p) {
            Ok(r) => r,
            Err(e) => return Err(e),
        };
        let ghost idv = id@;
        ids.push(id);
        assert(Seq::new(ids@.len(), |j: int| ids@[j]@) =~= prev.push(idv));
        p = q;
        i = i + 1;
    }
    let ghost model = Seq::new(ids@.len(), |j: int| ids@[j]@);
    let t = match UnnamedFields::try_from(ids) {
        Ok(t) => t,
        Err(e) => return Err(DecodeError::Confinement(e)),
    };
    assert(tuple_model(t) =~= model);
    Ok((t, p))
}

/// Structure fields out of the names and types of fields.
pub open spec fn fields_of(fs: Seq<Field<SemId>>) -> Seq<(Seq<u8>, Seq<u8>)> {
    Seq::new(fs.len(), |j: int| (fs[j].name@, fs[j].ty@))
}

/// Reads the fields of a structure at `pos`.
fn read_struct_fields(data: &[u8], pos: usize) -> (res: Result<(NamedFields<SemId>, usize), DecodeError>)
    requires
        pos <= data@.len(),
    ensures
        res matches Ok((s, p)) ==> parse_list(data@, pos as int, field_parser()) == Ok::<
            (Seq<(Seq<u8>, Seq<u8>)>, int),
            DecodeError,
        >((struct_model(s), p as int)) && p <= data@.len(),
        res matches Err(e) ==> parse_list(data@, pos as int, field_parser()) == Err::<
            (Seq<(Seq<u8>, Seq<u8>)>, int),
            DecodeError,
        >(e),
{
    let ghost f = field_parser();
    let (n, mut p) = match read_byte(data, pos) {
        Ok(r) => r,
        Err(e) => return Err(e),
    };
    if n == 0 {
        return Err(DecodeError::Confinement(ConfinementError::Undersize { len: 0, min_len: 1 }));
    }
    let mut fields: Vec<Field<SemId>> = Vec::new();
    let mut i: u8 = 0;
    assert(fields_of(fields@) =~= Seq::<(Seq<u8>, Seq<u8>)>::empty());
    while i < n
        invariant
            i <= n,
            p <= data@.len(),
            fields@.len() == i,
            f == field_parser(),
            parse_list(data@, pos as int, f) == parse_items(fields_of(fields@), data@, p as int, (n - i) as nat, f),
        decreases n - i,
    {
        let ghost prev = fields_of(fields@);
        let (name, q) = match read_name(data, p) {
            Ok(r) => r,
            Err(e) => return Err(e),
        };
        let (id, r) = match read_id(data, q) {
            Ok(x) => x,
            Err(e) => return Err(e),
        };
        let ghost fv = (name@, id@);
        fields.push(Field { name: FieldName(name), ty: id });
        assert(fields_of(fields@) =~= prev.push(fv));
        p = r;
        i = i + 1;
    }
    let ghost model = fields_of(fields@);
    let s = match NamedFields::try_from(fields) {
        Ok(s) => s,
        Err(e) => return Err(DecodeError::Confinement(e)),
    };
    assert(struct_model(s) =~= model);
    Ok((s, p))
}

/// Reads a two-byte little-endian number at `pos`.
pub(crate) fn read_u16(data: &[u8], pos: usize) -> (res: Result<(u16, usize), DecodeError>)
    requires
        pos <= data@.len(),
    ensures
        res matches Ok((v, p)) ==> parse_le(data@, pos as int, 2) == Ok::<(nat, int), DecodeError>((v as nat, p as int))
            && p <= data@.len(),
        res matches Err(e) ==> parse_le(data@, pos as int, 2) == Err::<(nat, int), DecodeError>(e),
{
    let len = data.len();
    match read_le(data, pos, 2) {
        Ok(v) => {
            proof {
                lemma_le_value_bound(data@.subrange(pos as int, pos + 2));
                lemma_pow256_values();
            }
            Ok((v as u16, pos + 2))
        },
        Err(e) => Err(e),
    }
}

/// Reads a size bound at `pos`.
pub(crate) fn read_sizing(data: &[u8], pos: usize) -> (res: Result<(Sizing, usize), DecodeError>)
    requires
        pos <= data@.len(),
    ensures
        res matches Ok((sz, p)) ==> parse_sizing(data@, pos as int) == Ok::<(Sizing, int), DecodeError>((sz, p as int))
            && p <= data@.len(),
        res matches Err(e) ==> parse_sizing(data@, pos as int) == Err::<(Sizing, int), DecodeError>(e),
{
    if data.len() - pos < 16 {
        return Err(DecodeError::UnexpectedEnd);
    }
    let min = match read_le(data, pos, 8) {
        Ok(v) => v,
        Err(e) => return Err(e),
    };
    let max = match read_le(data, pos + 8, 8) {
        Ok(v) => v,
        Err(e) => return Err(e),
    };
    proof {
        lemma_le_value_bound(data@.subrange(pos as int, pos + 8));
        lemma_le_value_bound(data@.subrange(pos + 8, pos + 16));
        lemma_pow256_values();
    }
    Ok((Sizing { min: min as u64, max: max as u64 }, pos + 16))
}

impl Ty<SemId> {
    /// Reads a type at position `pos` of `data`, returning it with the position after
    /// it.
    pub fn decode(data: &[u8], pos: usize) -> (res: Result<(Ty<SemId>, usize), DecodeError>)
        requires
            pos <= data@.len(),
        ensures
            res matches Ok((t, p)) ==> parse_ty(data@, pos as int) == Ok::<(TyModel, int), DecodeError>(
                (ty_model(t), p as int),
            ) && p <= data@.len(),
            res matches Err(e) ==> parse_ty(data@, pos as int) == Err::<(TyModel, int), DecodeError>(e),
    {
        let (cls, p) = match read_byte(data, pos) {
            Ok(r) => r,
            Err(e) => return Err(e),
        };
        if cls == 0 {
            match read_byte(data, p) {
                Ok((code, q)) => Ok((Ty::Primitive(Primitive(code)), q)),
                Err(e) => Err(e),
            }
        } else if cls == 1 {
            Ok((Ty::UnicodeChar, p))
        } else if cls == 2 {
            Err(DecodeError::InvalidTyCls(cls))
        } else if cls == 3 {
            match read_enum_variants(data, p) {
                Ok((vs, q)) => Ok((Ty::Enum(vs), q)),
                Err(e) => Err(e),
            }
        } else if cls == 4 {
            match read_union_variants(data, p) {
                Ok((u, q)) => Ok((Ty::Union(u), q)),
                Err(e) => Err(e),
            }
        } else if cls == 5 {
            match read_struct_fields(data, p) {
                Ok((fs, q)) => Ok((Ty::Struct(fs), q)),
                Err(e) => Err(e),
            }
        } else if cls == 6 {
            match read_tuple_fields(data, p) {
                Ok((fs, q)) => Ok((Ty::Tuple(fs), q)),
                Err(e) => Err(e),
            }
        } else if cls == 7 {
            let (id, q) = match read_id(data, p) {
                Ok(r) => r,
                Err(e) => return Err(e),
            };
            match read_u16(data, q) {
                Ok((len, r)) => Ok((Ty::Array(id, len), r)),
                Err(e) => Err(e),
            }
        } else if cls == 8 || cls == 9 {
            let (id, q) = match read_id(data, p) {
                Ok(r) => r,
                Err(e) => return Err(e),
            };
            match read_sizing(data, q) {
                Ok((sz, r)) => if cls == 8 {
                    Ok((Ty::List(id, sz), r))
                } else {
                    Ok((Ty::SetOf(id, sz), r))
                },
                Err(e) => Err(e),
            }
        } else if cls == 10 {
            let (k, q) = match read_id(data, p) {
                Ok(r) => r,
                Err(e) => return Err(e),
            };
            let (v, r) = match read_id(data, q) {
                Ok(x) => x,
                Err(e) => return Err(e),
            };
            match read_sizing(data, r) {
                Ok((sz, t)) => Ok((Ty::MapOf(k, v, sz), t)),
                Err(e) => Err(e),
            }
        } else {
            Err(DecodeError::WrongTyCls(cls))
        }
    }
}

/// Decoding what encoding a type appended gives a type with the same model, and
/// stops right after it.
pub proof fn lemma_encode_decode(t: Ty<SemId>, data: Seq<u8>, pos: int)
    requires
        valid_model(ty_model(t)),
        0 <= pos,
        pos + ty_bytes(ty_model(t)).len() <= data.len(),
        data.subrange(pos, pos + ty_bytes(ty_model(t)).len()) == t.spec_encode(),
    ensures
        parse_ty(data, pos) == Ok::<(TyModel, int), DecodeError>((ty_model(t), pos + t.spec_encode().len())),
{
    lemma_ty_roundtrip(ty_model(t), data, pos);
}

/// The layout of the encoding of a type: the first byte is the code of its class (0
/// primitive, 1 unicode character, 3 enum, 4 union, 5 struct, 6 tuple, 7 array, 8
/// list, 9 set, 10 map); a primitive then has its code, an array the id of its item
/// type and its length as two little-endian bytes, a list and a set the id of the
/// item type and the bounds, a map the id of the key type, then that of the value
/// type, then the bounds; the bounds are the minimum and the maximum as eight
/// little-endian bytes each.
pub proof fn lemma_ty_layout(t: Ty<SemId>)
    ensures
        ty_bytes(ty_model(t)).len() >= 1,
        match t {
            Ty::Primitive(p) => ty_bytes(ty_model(t)) == seq![0u8, p.0],
            Ty::UnicodeChar => ty_bytes(ty_model(t)) == seq![1u8],
            Ty::Enum(_) => ty_bytes(ty_model(t))[0] == 3,
            Ty::Union(_) => ty_bytes(ty_model(t))[0] == 4,
            Ty::Struct(_) => ty_bytes(ty_model(t))[0] == 5,
            Ty::Tuple(_) => ty_bytes(ty_model(t))[0] == 6,
            Ty::Array(r, n) => ty_bytes(ty_model(t)) == seq![7u8] + r@ + seq![(n % 256) as u8, (n / 256) as u8],
            Ty::List(r, s) => ty_bytes(ty_model(t)) == seq![8u8] + r@ + le_bytes(s.min as nat, 8) + le_bytes(
                s.max as nat,
                8,
            ),
            Ty::SetOf(r, s) => ty_bytes(ty_model(t)) == seq![9u8] + r@ + le_bytes(s.min as nat, 8) + le_bytes(
                s.max as nat,
                8,
            ),
            Ty::MapOf(k, v, s) => ty_bytes(ty_model(t)) == seq![10u8] + k@ + v@ + le_bytes(s.min as nat, 8)
                + le_bytes(s.max as nat, 8),
        },
{
    let b = ty_bytes(ty_model(t));
    match t {
        Ty::Primitive(p) => assert(b =~= seq![0u8, p.0]),
        Ty::UnicodeChar => assert(b =~= seq![1u8]),
        Ty::Array(r, n) => {
            reveal_with_fuel(le_bytes, 3);
            assert(le_bytes(n as nat, 2) =~= seq![(n % 256) as u8, (n / 256) as u8]);
            assert(b =~= seq![7u8] + r@ + seq![(n % 256) as u8, (n / 256) as u8]);
        },
        Ty::List(r, s) => assert(b =~= seq![8u8] + r@ + le_bytes(s.min as nat, 8) + le_bytes(s.max as nat, 8)),
        Ty::SetOf(r, s) => assert(b =~= seq![9u8] + r@ + le_bytes(s.min as nat, 8) + le_bytes(s.max as nat, 8)),
        Ty::MapOf(k, v, s) => assert(b =~= seq![10u8] + k@ + v@ + le_bytes(s.min as nat, 8) + le_bytes(
            s.max as nat,
            8,
        )),
        _ => {},
    }
}

/// What a decoded type holds, read from the bytes at `pos`: the first byte is the
/// code of its class; a primitive has the next byte as its code; an array has the
/// next 32 bytes as the id of its item type and the two after as its length, low
/// byte first; a list and a set have the next 32 bytes as the id of the item type
/// and the 16 after as the bounds; a map has the next 32 bytes as the id of its key
/// type, the 32 after as that of its value type, then the bounds. Reading stops
/// right after these bytes.
pub proof fn lemma_decoded_layout(data: Seq<u8>, pos: int, t: Ty<SemId>, q: int)
    requires
        parse_ty(data, pos) == Ok::<(TyModel, int), DecodeError>((ty_model(t), q)),
    ensures
        0 <= pos < data.len(),
        match t {
            Ty::Primitive(p) => data[pos] == 0 && q == pos + 2 && p.0 == data[pos + 1],
            Ty::UnicodeChar => data[pos] == 1 && q == pos + 1,
            Ty::Enum(_) => data[pos] == 3,
            Ty::Union(_) => data[pos] == 4,
            Ty::Struct(_) => data[pos] == 5,
            Ty::Tuple(_) => data[pos] == 6,
            Ty::Array(r, n) => data[pos] == 7 && q == pos + 35 && r@ == data.subrange(pos + 1, pos + 33) && n
                == data[pos + 33] + 256 * data[pos + 34],
            Ty::List(r, s) => data[pos] == 8 && q == pos + 49 && r@ == data.subrange(pos + 1, pos + 33) && s.min
                == le_value(data.subrange(pos + 33, pos + 41)) && s.max == le_value(data.subrange(pos + 41, pos + 49)),
            Ty::SetOf(r, s) => data[pos] == 9 && q == pos + 49 && r@ == data.subrange(pos + 1, pos + 33) && s.min
                == le_value(data.subrange(pos + 33, pos + 41)) && s.max == le_value(data.subrange(pos + 41, pos + 49)),
            Ty::MapOf(k, v, s) => data[pos] == 10 && q == pos + 81 && k@ == data.subrange(pos + 1, pos + 33) && v@
                == data.subrange(pos + 33, pos + 65) && s.min == le_value(data.subrange(pos + 65, pos + 73)) && s.max
                == le_value(data.subrange(pos + 73, pos + 81)),
        },
{
    lemma_pow256_values();
    match t {
        Ty::Array(r, n) => {
            let two = data.subrange(pos + 33, pos + 35);
            lemma_le_value_bound(two);
            reveal_with_fuel(le_value, 3);
            assert(two.drop_first().drop_first().len() == 0);
            assert(le_value(two) == two[0] + 256 * two[1]);
        },
        Ty::List(_, _) | Ty::SetOf(_, _) => {
            lemma_le_value_bound(data.subrange(pos + 33, pos + 41));
            lemma_le_value_bound(data.subrange(pos + 41, pos + 49));
        },
        Ty::MapOf(_, _, _) => {
            lemma_le_value_bound(data.subrange(pos + 65, pos + 73));
            lemma_le_value_bound(data.subrange(pos + 73, pos + 81));
        },
        _ => {},
    }
}

} // verus!
