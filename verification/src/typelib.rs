//! Type libraries: a name, the libraries it depends on under their aliases, and named
//! types, with their binary encoding.

use vstd::prelude::*;

use crate::ast::id::{
    fields_commitment, name_commitment, refs_commitment, sizing_commitment, spec_sem_id, union_commitment,
    variants_commitment, SemCommit, SemId,
};
use crate::ast::serialize::{
    concat_bytes, lemma_concat_push, model_cls, name_bytes, parse_id, parse_le, parse_name, parse_ty, struct_model,
    tuple_model, ty_bytes, ty_model, union_model, valid_model, TyModel,
};
use crate::ast::serialize::{lemma_id_at, lemma_le_at, lemma_name_at, lemma_pow256_values, lemma_split, lemma_ty_roundtrip};
use crate::encoding::base::{lemma_le_len, write_le};
use crate::encoding::semver::lemma_semver_roundtrip;
use crate::encoding::semver::{semver_bytes, valid_semver};
use crate::ident::valid_ident;
use crate::ast::ty::{NamedFields, Ty, UnionVariants, UnnamedFields};
use crate::collection::ConfinementError;
use crate::encoding::base::le_bytes;
use crate::encoding::semver::{parse_semver, SemVer, SemVerModel};
use crate::encoding::serialize::DecodeError;
use crate::ident::{Ident, LibName, TypeName};
use crate::dtl::{
    blake3_keyed, blake3_keyed_hash, hex_bytes, mnemonic_text, mnemonic_words, push_hex_bytes, setl_id_tag,
    setl_id_tag_bytes,
};
use crate::util::{push_str, string_from_chars};

verus! {

// ----- The commitment of a type, read from its model -----

/// The commitment of union items: each variant, then the id of its type.
pub open spec fn union_items_commitment(items: Seq<((Seq<u8>, u8), Seq<u8>)>) -> Seq<u8>
    decreases items.len(),
{
    if items.len() == 0 {
        Seq::empty()
    } else {
        union_items_commitment(items.drop_last()) + name_commitment(items.last().0.0) + seq![items.last().0.1]
            + items.last().1
    }
}

/// The commitment of structure fields: each name, then the id of its type.
pub open spec fn struct_items_commitment(fs: Seq<(Seq<u8>, Seq<u8>)>) -> Seq<u8>
    decreases fs.len(),
{
    if fs.len() == 0 {
        Seq::empty()
    } else {
        struct_items_commitment(fs.drop_last()) + name_commitment(fs.last().0) + fs.last().1
    }
}

/// The ids of tuple fields, one after another.
pub open spec fn ids_commitment(ids: Seq<Seq<u8>>) -> Seq<u8>
    decreases ids.len(),
{
    if ids.len() == 0 {
        Seq::empty()
    } else {
        ids_commitment(ids.drop_last()) + ids.last()
    }
}

/// What a type with the model `m` commits to (see [`SemCommit`]).
pub open spec fn model_commitment(m: TyModel) -> Seq<u8> {
    seq![model_cls(m).code()] + match m {
        TyModel::Primitive(code) => seq![code],
        TyModel::UnicodeChar => Seq::empty(),
        TyModel::Enum(vs) => variants_commitment(vs),
        TyModel::Union(items) => union_items_commitment(items),
        TyModel::Tuple(ids) => ids_commitment(ids),
        TyModel::Struct(fs) => struct_items_commitment(fs),
        TyModel::Array(id, len) => id + le_bytes(len as nat, 2),
        TyModel::List(id, s) => id + sizing_commitment(s),
        TyModel::SetOf(id, s) => id + sizing_commitment(s),
        TyModel::MapOf(k, v, s) => k + v + sizing_commitment(s),
    }
}

/// The semantic id (without a name) of a type with the model `m`.
pub open spec fn model_id(m: TyModel) -> Seq<u8> {
    spec_sem_id(None, model_commitment(m))
}

proof fn lemma_union_commitment(vars: Seq<(Seq<u8>, u8)>, tys: Seq<SemId>)
    requires
        vars.len() == tys.len(),
    ensures
        union_commitment(vars, tys) == union_items_commitment(
            Seq::new(vars.len(), |i: int| (vars[i], tys[i]@)),
        ),
    decreases vars.len(),
{
    let items = Seq::new(vars.len(), |i: int| (vars[i], tys[i]@));
    if vars.len() > 0 {
        lemma_union_commitment(vars.drop_last(), tys.drop_last());
        assert(items.drop_last() =~= Seq::new(
            vars.drop_last().len(),
            |i: int| (vars.drop_last()[i], tys.drop_last()[i]@),
        ));
    }
}

proof fn lemma_fields_commitment(names: Seq<Seq<u8>>, tys: Seq<SemId>)
    requires
        names.len() == tys.len(),
    ensures
        fields_commitment(names, tys) == struct_items_commitment(
            Seq::new(names.len(), |i: int| (names[i], tys[i]@)),
        ),
    decreases names.len(),
{
    let fs = Seq::new(names.len(), |i: int| (names[i], tys[i]@));
    if names.len() > 0 {
        lemma_fields_commitment(names.drop_last(), tys.drop_last());
        assert(fs.drop_last() =~= Seq::new(
            names.drop_last().len(),
            |i: int| (names.drop_last()[i], tys.drop_last()[i]@),
        ));
    }
}

proof fn lemma_refs_commitment(tys: Seq<SemId>)
    ensures
        refs_commitment(tys) == ids_commitment(Seq::new(tys.len(), |i: int| tys[i]@)),
    decreases tys.len(),
{
    if tys.len() > 0 {
        lemma_refs_commitment(tys.drop_last());
        assert(Seq::new(tys.len(), |i: int| tys[i]@).drop_last() =~= Seq::new(
            tys.drop_last().len(),
            |i: int| tys.drop_last()[i]@,
        ));
    }
}

/// What a type commits to is read from its model alone.
pub proof fn lemma_model_commitment(t: Ty<SemId>)
    requires
        t matches Ty::Union(u) ==> u.spec_tys().len() == u.spec_variants().len(),
        t matches Ty::Struct(f) ==> f.spec_tys().len() == f.spec_names().len(),
    ensures
        t.sem_commitment() == model_commitment(ty_model(t)),
{
    match t {
        Ty::Union(u) => {
            lemma_union_commitment(u.spec_variants(), u.spec_tys());
            assert(union_model(u) =~= Seq::new(
                u.spec_variants().len(),
                |i: int| (u.spec_variants()[i], u.spec_tys()[i]@),
            ));
        },
        Ty::Struct(f) => {
            lemma_fields_commitment(f.spec_names(), f.spec_tys());
            assert(struct_model(f) =~= Seq::new(
                f.spec_names().len(),
                |i: int| (f.spec_names()[i], f.spec_tys()[i]@),
            ));
        },
        Ty::Tuple(f) => {
            lemma_refs_commitment(f@);
            assert(tuple_model(f) =~= Seq::new(f@.len(), |i: int| f@[i]@));
        },
        _ => {},
    }
}

/// How a variant is committed: the length of its name, its name, its tag.
pub open spec fn variant_commit_fn() -> spec_fn((Seq<u8>, u8)) -> Seq<u8> {
    |v: (Seq<u8>, u8)| seq![v.0.len() as u8] + v.0 + seq![v.1]
}

/// How a union item is committed: the length of the variant name, the name, the
/// tag, then the id of the type of the variant.
pub open spec fn union_item_commit_fn() -> spec_fn(((Seq<u8>, u8), Seq<u8>)) -> Seq<u8> {
    |p: ((Seq<u8>, u8), Seq<u8>)| seq![p.0.0.len() as u8] + p.0.0 + seq![p.0.1] + p.1
}

/// How a structure field is committed: the length of its name, its name, then the id
/// of its type.
pub open spec fn field_commit_fn() -> spec_fn((Seq<u8>, Seq<u8>)) -> Seq<u8> {
    |f: (Seq<u8>, Seq<u8>)| seq![f.0.len() as u8] + f.0 + f.1
}

/// How a tuple field is committed: the id of its type.
pub open spec fn id_commit_fn() -> spec_fn(Seq<u8>) -> Seq<u8> {
    |id: Seq<u8>| id
}

proof fn lemma_variants_concat(s: Seq<(Seq<u8>, u8)>)
    ensures
        variants_commitment(s) == concat_bytes(s, variant_commit_fn()),
    decreases s.len(),
{
    if s.len() > 0 {
        lemma_variants_concat(s.drop_last());
        lemma_concat_push(s.drop_last(), s.last(), variant_commit_fn());
        assert(s.drop_last().push(s.last()) =~= s);
        assert(crate::ast::id::variant_commitment(s.last()) =~= variant_commit_fn()(s.last()));
    }
}

proof fn lemma_union_items_concat(s: Seq<((Seq<u8>, u8), Seq<u8>)>)
    ensures
        union_items_commitment(s) == concat_bytes(s, union_item_commit_fn()),
    decreases s.len(),
{
    if s.len() > 0 {
        lemma_union_items_concat(s.drop_last());
        lemma_concat_push(s.drop_last(), s.last(), union_item_commit_fn());
        assert(s.drop_last().push(s.last()) =~= s);
        assert(union_items_commitment(s) =~= union_items_commitment(s.drop_last()) + union_item_commit_fn()(
            s.last(),
        ));
    }
}

proof fn lemma_struct_items_concat(s: Seq<(Seq<u8>, Seq<u8>)>)
    ensures
        struct_items_commitment(s) == concat_bytes(s, field_commit_fn()),
    decreases s.len(),
{
    if s.len() > 0 {
        lemma_struct_items_concat(s.drop_last());
        lemma_concat_push(s.drop_last(), s.last(), field_commit_fn());
        assert(s.drop_last().push(s.last()) =~= s);
        assert(struct_items_commitment(s) =~= struct_items_commitment(s.drop_last()) + field_commit_fn()(s.last()));
    }
}

proof fn lemma_ids_concat(s: Seq<Seq<u8>>)
    ensures
        ids_commitment(s) == concat_bytes(s, id_commit_fn()),
    decreases s.len(),
{
    if s.len() > 0 {
        lemma_ids_concat(s.drop_last());
        lemma_concat_push(s.drop_last(), s.last(), id_commit_fn());
        assert(s.drop_last().push(s.last()) =~= s);
    }
}

/// What a type over semantic ids commits to, byte by byte: the code of its class,
/// then, for an enum, each variant (the length of its name, its name, its tag); for
/// a union, each variant followed by the id of its type; for a structure, each field
/// (the length of its name, its name, the id of its type); for a tuple, the ids of
/// its fields; for the other classes what [`crate::ast::id::lemma_plain_commitments`]
/// and [`crate::ast::id::lemma_array_commitment`] state. No count of items is
/// committed.
pub proof fn lemma_composite_commitments(t: Ty<SemId>)
    requires
        t matches Ty::Union(u) ==> u.spec_tys().len() == u.spec_variants().len(),
        t matches Ty::Struct(f) ==> f.spec_tys().len() == f.spec_names().len(),
    ensures
        match t {
            Ty::Enum(vars) => t.sem_commitment() == seq![3u8] + concat_bytes(vars@, variant_commit_fn()),
            Ty::Union(u) => t.sem_commitment() == seq![4u8] + concat_bytes(union_model(u), union_item_commit_fn()),
            Ty::Struct(f) => t.sem_commitment() == seq![5u8] + concat_bytes(struct_model(f), field_commit_fn()),
            Ty::Tuple(f) => t.sem_commitment() == seq![6u8] + concat_bytes(tuple_model(f), id_commit_fn()),
            _ => true,
        },
{
    lemma_model_commitment(t);
    match t {
        Ty::Enum(vars) => lemma_variants_concat(vars@),
        Ty::Union(u) => lemma_union_items_concat(union_model(u)),
        Ty::Struct(f) => lemma_struct_items_concat(struct_model(f)),
        Ty::Tuple(f) => lemma_ids_concat(tuple_model(f)),
        _ => {},
    }
}

// ----- The order of names and ids -----

/// Lexicographic order of byte strings: the first differing byte decides, and a
/// proper prefix comes first.
pub open spec fn bytes_lt(a: Seq<u8>, b: Seq<u8>) -> bool
    decreases a.len(),
{
    if a.len() == 0 {
        b.len() > 0
    } else if b.len() == 0 {
        false
    } else if a[0] != b[0] {
        a[0] < b[0]
    } else {
        bytes_lt(a.drop_first(), b.drop_first())
    }
}

/// No byte string comes before itself.
pub proof fn lemma_bytes_lt_irreflexive(a: Seq<u8>)
    ensures
        !bytes_lt(a, a),
    decreases a.len(),
{
    if a.len() > 0 {
        lemma_bytes_lt_irreflexive(a.drop_first());
    }
}

/// Whether `a` comes before `b`, byte by byte.
pub fn slice_lt(a: &[u8], b: &[u8]) -> (r: bool)
    ensures
        r == bytes_lt(a@, b@),
{
    let mut i: usize = 0;
    assert(a@.skip(0) =~= a@);
    assert(b@.skip(0) =~= b@);
    while i < a.len() && i < b.len()
        invariant
            i <= a@.len(),
            i <= b@.len(),
            forall|j: int| 0 <= j < i ==> a@[j] == b@[j],
            bytes_lt(a@, b@) == bytes_lt(a@.skip(i as int), b@.skip(i as int)),
        decreases a@.len() - i,
    {
        if a[i] != b[i] {
            proof {
                assert(a@.skip(i as int)[0] == a@[i as int]);
                assert(b@.skip(i as int)[0] == b@[i as int]);
            }
            return a[i] < b[i];
        }
        proof {
            assert(a@.skip(i as int).drop_first() =~= a@.skip(i + 1));
            assert(b@.skip(i as int).drop_first() =~= b@.skip(i + 1));
        }
        i = i + 1;
    }
    i == a.len() && i < b.len()
}

// ----- The model of a library and its reading -----

/// A dependency as plain values: the id of the library, its name and its version.
pub type DepModel = (Seq<u8>, Seq<u8>, SemVerModel);

/// A type library as plain values: its name, its dependencies under their aliases,
/// and its types under their names, in the order of the names.
pub struct LibModel {
    pub name: Seq<u8>,
    pub deps: Seq<(Seq<u8>, DepModel)>,
    pub types: Seq<(Seq<u8>, TyModel)>,
}

/// Errors in reading a type library, as plain values.
pub enum LibErrorModel {
    Decode(DecodeError),
    WrongDependencyOrdering(Seq<u8>),
    RepeatedDependency(Seq<u8>),
    WrongTypeOrdering(Seq<u8>),
    RepeatedType(Seq<u8>),
}

/// Whether an item of `s` has the key `k`.
pub open spec fn has_key<V>(s: Seq<(Seq<u8>, V)>, k: Seq<u8>) -> bool {
    exists|i: int| 0 <= i < s.len() && (#[trigger] s[i]).0 == k
}

/// Puts `(k, v)` before the first item whose key does not come before `k`.
pub open spec fn insert_by_key<V>(s: Seq<(Seq<u8>, V)>, k: Seq<u8>, v: V) -> Seq<(Seq<u8>, V)>
    decreases s.len(),
{
    if s.len() == 0 {
        seq![(k, v)]
    } else if !bytes_lt(s[0].0, k) {
        seq![(k, v)] + s
    } else {
        seq![s[0]] + insert_by_key(s.drop_first(), k, v)
    }
}

/// Reading a dependency at `pos`: its alias, the id of the library, its name and its
/// version.
pub open spec fn parse_dep(data: Seq<u8>, pos: int) -> Result<((Seq<u8>, DepModel), int), DecodeError> {
    match parse_name(data, pos) {
        Err(e) => Err(e),
        Ok((alias, p1)) => match parse_id(data, p1) {
            Err(e) => Err(e),
            Ok((id, p2)) => match parse_name(data, p2) {
                Err(e) => Err(e),
                Ok((name, p3)) => match parse_semver(data, p3) {
                    Err(e) => Err(e),
                    Ok((ver, p4)) => Ok(((alias, (id, name, ver)), p4)),
                },
            },
        },
    }
}

/// Reading `n` more dependencies at `pos`, after those read into `acc`: an alias that
/// comes before the one read last is out of order; an alias read before repeats.
pub open spec fn parse_deps(data: Seq<u8>, pos: int, n: nat, acc: Seq<(Seq<u8>, DepModel)>) -> Result<
    (Seq<(Seq<u8>, DepModel)>, int),
    LibErrorModel,
>
    decreases n,
{
    if n == 0 {
        Ok((acc, pos))
    } else {
        match parse_dep(data, pos) {
            Err(e) => Err(LibErrorModel::Decode(e)),
            Ok((d, p)) => if acc.len() > 0 && bytes_lt(d.0, acc.last().0) {
                Err(LibErrorModel::WrongDependencyOrdering(d.0))
            } else if has_key(acc, d.0) {
                Err(LibErrorModel::RepeatedDependency(d.1.1))
            } else {
                parse_deps(data, p, (n - 1) as nat, acc.push(d))
            },
        }
    }
}

/// Reading a named type at `pos`: its name, then the type.
pub open spec fn parse_named_ty(data: Seq<u8>, pos: int) -> Result<((Seq<u8>, TyModel), int), DecodeError> {
    match parse_name(data, pos) {
        Err(e) => Err(e),
        Ok((name, p1)) => match parse_ty(data, p1) {
            Err(e) => Err(e),
            Ok((m, p2)) => Ok(((name, m), p2)),
        },
    }
}

/// Reading `n` more named types at `pos`, after those read into `acc` (kept in the
/// order of their names) and the id `prev` of the type read last: a type whose id
/// comes before `prev` is out of order; a name read before repeats.
pub open spec fn parse_types(
    data: Seq<u8>,
    pos: int,
    n: nat,
    prev: Option<Seq<u8>>,
    acc: Seq<(Seq<u8>, TyModel)>,
) -> Result<(Seq<(Seq<u8>, TyModel)>, int), LibErrorModel>
    decreases n,
{
    if n == 0 {
        Ok((acc, pos))
    } else {
        match parse_named_ty(data, pos) {
            Err(e) => Err(LibErrorModel::Decode(e)),
            Ok((t, p)) => {
                let id = model_id(t.1);
                if prev matches Some(q) && bytes_lt(id, q) {
                    Err(LibErrorModel::WrongTypeOrdering(id))
                } else if has_key(acc, t.0) {
                    Err(LibErrorModel::RepeatedType(id))
                } else {
                    parse_types(data, p, (n - 1) as nat, Some(id), insert_by_key(acc, t.0, t.1))
                }
            },
        }
    }
}

/// Reading a type library at `pos`: its name; the number of dependencies as one byte
/// and the dependencies; the number of types as two little-endian bytes and the
/// types. A library must hold at least one type.
pub open spec fn parse_type_lib(data: Seq<u8>, pos: int) -> Result<(LibModel, int), LibErrorModel> {
    match parse_name(data, pos) {
        Err(e) => Err(LibErrorModel::Decode(e)),
        Ok((name, p1)) => match crate::ast::serialize::parse_byte(data, p1) {
            Err(e) => Err(LibErrorModel::Decode(e)),
            Ok((n, p2)) => match parse_deps(data, p2, n as nat, Seq::empty()) {
                Err(e) => Err(e),
                Ok((deps, p3)) => match parse_le(data, p3, 2) {
                    Err(e) => Err(LibErrorModel::Decode(e)),
                    Ok((m, p4)) => match parse_types(data, p4, m, None, Seq::empty()) {
                        Err(e) => Err(e),
                        Ok((types, p5)) => if types.len() == 0 {
                            Err(
                                LibErrorModel::Decode(
                                    DecodeError::Confinement(ConfinementError::Undersize { len: 0, min_len: 1 }),
                                ),
                            )
                        } else {
                            Ok((LibModel { name, deps, types }, p5))
                        },
                    },
                },
            },
        },
    }
}

// ----- Type libraries -----

/// A library that a type library depends on: its id, its name and its version.
#[derive(Debug)]
pub struct Dependency {
    pub id: TypeLibId,
    pub name: LibName,
    pub ver: SemVer,
}

/// A dependency as plain values.
pub open spec fn dep_model(d: Dependency) -> DepModel {
    (d.id@, d.name@, d.ver.model())
}

/// A type library: its name, its dependencies under their aliases (in the order of
/// the aliases), and its named types (in the order of the names).
#[derive(Debug)]
pub struct TypeLib {
    pub name: LibName,
    pub dependencies: Vec<(Ident, Dependency)>,
    pub types: Vec<(TypeName, Ty<SemId>)>,
}

/// Dependencies as plain values.
pub open spec fn deps_model(ds: Seq<(Ident, Dependency)>) -> Seq<(Seq<u8>, DepModel)> {
    Seq::new(ds.len(), |i: int| (ds[i].0@, dep_model(ds[i].1)))
}

/// Named types as plain values.
pub open spec fn types_model(ts: Seq<(TypeName, Ty<SemId>)>) -> Seq<(Seq<u8>, TyModel)> {
    Seq::new(ts.len(), |i: int| (ts[i].0@, ty_model(ts[i].1)))
}

impl TypeLib {
    /// The library as plain values.
    pub open spec fn model(&self) -> LibModel {
        LibModel {
            name: self.name@,
            deps: deps_model(self.dependencies@),
            types: types_model(self.types@),
        }
    }
}

/// The id of a type library.
#[derive(Copy, Clone, Debug)]
pub struct TypeLibId(pub [u8; 32]);

impl View for TypeLibId {
    type V = Seq<u8>;

    open spec fn view(&self) -> Seq<u8> {
        self.0@
    }
}

/// What the id of a library hashes: for each of its types, in order, the name and
/// then the semantic id of the type.
pub open spec fn lib_id_input(types: Seq<(Seq<u8>, TyModel)>) -> Seq<u8>
    decreases types.len(),
{
    if types.len() == 0 {
        Seq::empty()
    } else {
        lib_id_input(types.drop_last()) + types.last().0 + model_id(types.last().1)
    }
}

impl TypeLib {
    /// The id of the library: the keyed BLAKE3 hash, under 32 zero bytes, of the
    /// names and semantic ids of its types.
    pub fn id(&self) -> (id: TypeLibId)
        ensures
            id@ == blake3_keyed(setl_id_tag(), lib_id_input(types_model(self.types@))),
    {
        let ghost model = types_model(self.types@);
        let mut data: Vec<u8> = Vec::new();
        let mut i: usize = 0;
        while i < self.types.len()
            invariant
                i <= self.types@.len(),
                model == types_model(self.types@),
                data@ == lib_id_input(model.take(i as int)),
            decreases self.types@.len() - i,
        {
            let (name, ty) = &self.types[i];
            match ty {
                Ty::Union(u) => u.check_wf(),
                Ty::Struct(f) => f.check_wf(),
                _ => {},
            }
            let sem = ty.sem_id_unnamed();
            proof {
                lemma_model_commitment(*ty);
            }
            let bytes = name.as_bytes();
            let mut j: usize = 0;
            let ghost before = data@;
            while j < bytes.len()
                invariant
                    j <= bytes@.len(),
                    data@ == before + bytes@.take(j as int),
                decreases bytes@.len() - j,
            {
                data.push(bytes[j]);
                j = j + 1;
                assert(data@ =~= before + bytes@.take(j as int));
            }
            let mut k: usize = 0;
            let ghost mid = data@;
            while k < 32
                invariant
                    k <= 32,
                    sem@.len() == 32,
                    data@ == mid + sem@.take(k as int),
                decreases 32 - k,
            {
                data.push(sem.0[k]);
                k = k + 1;
                assert(data@ =~= mid + sem@.take(k as int));
            }
            proof {
                assert(bytes@.take(bytes@.len() as int) =~= bytes@);
                assert(sem@.take(32) =~= sem@);
                assert(model.take(i + 1).drop_last() =~= model.take(i as int));
                assert(model.take(i + 1).last() == model[i as int]);
            }
            i = i + 1;
        }
        assert(model.take(self.types@.len() as int) =~= model);
        let key = setl_id_tag_bytes();
        TypeLibId(blake3_keyed_hash(&key, data.as_slice()))
    }
}

impl TypeLibId {
    /// The id as lowercase hexadecimal digits, two per byte.
    pub fn to_string(&self) -> (s: String)
        ensures
            s@ == hex_bytes(self@),
    {
        let mut out: Vec<char> = Vec::new();
        push_hex_bytes(self.0.as_slice(), &mut out);
        assert(out@ =~= hex_bytes(self@));
        string_from_chars(out)
    }

    /// The id in hexadecimal, then `#` and the mnemonic of its bytes from the 15th to
    /// the 18th.
    pub fn to_string_with_mnemonic(&self) -> (s: String)
        ensures
            s@ == hex_bytes(self@) + seq!['#'] + mnemonic_words(self@.subrange(14, 18)),
    {
        let mut out: Vec<char> = Vec::new();
        push_hex_bytes(self.0.as_slice(), &mut out);
        out.push('#');
        let words = mnemonic_text(vstd::slice::slice_subrange(self.0.as_slice(), 14, 18));
        push_str(words.as_str(), &mut out);
        string_from_chars(out)
    }
}

/// Errors in reading a type library.
#[derive(Debug)]
pub enum TypeLibError {
    /// the bytes do not hold a value where one is expected
    Decode(DecodeError),
    /// incorrect ordering of dependency {0}
    WrongDependencyOrdering(Ident),
    /// repeated dependency {0}
    RepeatedDependency(LibName),
    /// incorrect ordering of type {0}
    WrongTypeOrdering(SemId),
    /// type {0} occurs multiple times
    RepeatedType(SemId),
}

impl View for TypeLibError {
    type V = LibErrorModel;

    open spec fn view(&self) -> LibErrorModel {
        match self {
            TypeLibError::Decode(e) => LibErrorModel::Decode(*e),
            TypeLibError::WrongDependencyOrdering(a) => LibErrorModel::WrongDependencyOrdering(a@),
            TypeLibError::RepeatedDependency(n) => LibErrorModel::RepeatedDependency(n@),
            TypeLibError::WrongTypeOrdering(id) => LibErrorModel::WrongTypeOrdering(id@),
            TypeLibError::RepeatedType(id) => LibErrorModel::RepeatedType(id@),
        }
    }
}

/// Reads a dependency at `pos` (see [`parse_dep`]).
fn read_dep(data: &[u8], pos: usize) -> (res: Result<((Ident, Dependency), usize), DecodeError>)
    requires
        pos <= data@.len(),
    ensures
        res matches Ok((d, p)) ==> parse_dep(data@, pos as int) == Ok::<((Seq<u8>, DepModel), int), DecodeError>(
            ((d.0@, dep_model(d.1)), p as int),
        ) && p <= data@.len(),
        res matches Err(e) ==> parse_dep(data@, pos as int) == Err::<((Seq<u8>, DepModel), int), DecodeError>(e),
{
    let (alias, p1) = match crate::ast::serialize::read_name(data, pos) {
        Ok(r) => r,
        Err(e) => return Err(e),
    };
    let (id, p2) = match crate::ast::serialize::read_id(data, p1) {
        Ok(r) => r,
        Err(e) => return Err(e),
    };
    let (name, p3) = match crate::ast::serialize::read_name(data, p2) {
        Ok(r) => r,
        Err(e) => return Err(e),
    };
    let (ver, p4) = match SemVer::decode(data, p3) {
        Ok(r) => r,
        Err(e) => return Err(e),
    };
    Ok(((alias, Dependency { id: TypeLibId(id.0), name: LibName(name), ver }), p4))
}

/// Whether an alias among `ds` is `alias`.
fn has_alias(ds: &Vec<(Ident, Dependency)>, alias: &Ident) -> (r: bool)
    ensures
        r == has_key(deps_model(ds@), alias@),
{
    let mut i: usize = 0;
    while i < ds.len()
        invariant
            i <= ds@.len(),
            forall|j: int| 0 <= j < i ==> (#[trigger] deps_model(ds@)[j]).0 != alias@,
        decreases ds@.len() - i,
    {
        if crate::ident::bytes_eq(ds[i].0.as_bytes(), alias.as_bytes()) {
            assert(deps_model(ds@)[i as int].0 == alias@);
            return true;
        }
        i = i + 1;
    }
    false
}

/// Reads `n` dependencies at `pos` (see [`parse_deps`]).
fn read_deps(data: &[u8], pos: usize, n: u8) -> (res: Result<(Vec<(Ident, Dependency)>, usize), TypeLibError>)
    requires
        pos <= data@.len(),
    ensures
        res matches Ok((ds, p)) ==> parse_deps(data@, pos as int, n as nat, Seq::empty()) == Ok::<
            (Seq<(Seq<u8>, DepModel)>, int),
            LibErrorModel,
        >((deps_model(ds@), p as int)) && p <= data@.len(),
        res matches Err(e) ==> parse_deps(data@, pos as int, n as nat, Seq::empty()) == Err::<
            (Seq<(Seq<u8>, DepModel)>, int),
            LibErrorModel,
        >(e@),
{
    let mut ds: Vec<(Ident, Dependency)> = Vec::new();
    let mut p = pos;
    let mut k: u8 = 0;
    assert(deps_model(ds@) =~= Seq::<(Seq<u8>, DepModel)>::empty());
    while k < n
        invariant
            k <= n,
            p <= data@.len(),
            parse_deps(data@, pos as int, n as nat, Seq::empty()) == parse_deps(
                data@,
                p as int,
                (n - k) as nat,
                deps_model(ds@),
            ),
        decreases n - k,
    {
        let ghost acc = deps_model(ds@);
        let (d, q) = match read_dep(data, p) {
            Ok(r) => r,
            Err(e) => return Err(TypeLibError::Decode(e)),
        };
        if ds.len() > 0 && crate::typelib::slice_lt(d.0.as_bytes(), ds[ds.len() - 1].0.as_bytes()) {
            assert(acc.last() == (ds@[ds@.len() - 1].0@, dep_model(ds@[ds@.len() - 1].1)));
            return Err(TypeLibError::WrongDependencyOrdering(d.0));
        }
        proof {
            if ds@.len() > 0 {
                assert(acc.last() == (ds@[ds@.len() - 1].0@, dep_model(ds@[ds@.len() - 1].1)));
            }
        }
        if has_alias(&ds, &d.0) {
            return Err(TypeLibError::RepeatedDependency(d.1.name));
        }
        let ghost dm = (d.0@, dep_model(d.1));
        ds.push(d);
        assert(deps_model(ds@) =~= acc.push(dm));
        p = q;
        k = k + 1;
    }
    Ok((ds, p))
}

/// Reads a named type at `pos` (see [`parse_named_ty`]).
fn read_named_ty(data: &[u8], pos: usize) -> (res: Result<((TypeName, Ty<SemId>), usize), DecodeError>)
    requires
        pos <= data@.len(),
    ensures
        res matches Ok((t, p)) ==> parse_named_ty(data@, pos as int) == Ok::<((Seq<u8>, TyModel), int), DecodeError>(
            ((t.0@, ty_model(t.1)), p as int),
        ) && p <= data@.len(),
        res matches Err(e) ==> parse_named_ty(data@, pos as int) == Err::<((Seq<u8>, TyModel), int), DecodeError>(e),
{
    let (name, p1) = match crate::ast::serialize::read_name(data, pos) {
        Ok(r) => r,
        Err(e) => return Err(e),
    };
    let (ty, p2) = match Ty::<SemId>::decode(data, p1) {
        Ok(r) => r,
        Err(e) => return Err(e),
    };
    Ok(((TypeName(name), ty), p2))
}

/// Whether a name among `ts` is `name`.
fn has_type_name(ts: &Vec<(TypeName, Ty<SemId>)>, name: &TypeName) -> (r: bool)
    ensures
        r == has_key(types_model(ts@), name@),
{
    let mut i: usize = 0;
    while i < ts.len()
        invariant
            i <= ts@.len(),
            forall|j: int| 0 <= j < i ==> (#[trigger] types_model(ts@)[j]).0 != name@,
        decreases ts@.len() - i,
    {
        if crate::ident::bytes_eq(ts[i].0.as_bytes(), name.as_bytes()) {
            assert(types_model(ts@)[i as int].0 == name@);
            return true;
        }
        i = i + 1;
    }
    false
}

/// Inserting before the first item whose key does not come before `k` puts the item
/// at that position.
proof fn lemma_insert_at<V>(s: Seq<(Seq<u8>, V)>, k: Seq<u8>, v: V, i: int)
    requires
        0 <= i <= s.len(),
        forall|j: int| 0 <= j < i ==> bytes_lt((#[trigger] s[j]).0, k),
        i < s.len() ==> !bytes_lt(s[i].0, k),
    ensures
        insert_by_key(s, k, v) == s.take(i) + seq![(k, v)] + s.skip(i),
    decreases i,
{
    if i == 0 {
        assert(s.take(0) + seq![(k, v)] + s.skip(0) =~= seq![(k, v)] + s);
    } else {
        assert(bytes_lt(s[0].0, k));
        let t = s.drop_first();
        assert forall|j: int| 0 <= j < i - 1 implies bytes_lt((#[trigger] t[j]).0, k) by {
            assert(t[j] == s[j + 1]);
        }
        lemma_insert_at(t, k, v, i - 1);
        assert(s.take(i) + seq![(k, v)] + s.skip(i) =~= seq![s[0]] + (t.take(i - 1) + seq![(k, v)] + t.skip(i - 1)));
    }
}

/// The semantic id of a type, read from its model.
fn type_id(t: &Ty<SemId>) -> (id: SemId)
    ensures
        id@ == model_id(ty_model(*t)),
{
    match t {
        Ty::Union(u) => u.check_wf(),
        Ty::Struct(f) => f.check_wf(),
        _ => {},
    }
    proof {
        lemma_model_commitment(*t);
    }
    t.sem_id_unnamed()
}

/// Reads `n` named types at `pos` (see [`parse_types`]).
fn read_types(data: &[u8], pos: usize, n: u16) -> (res: Result<(Vec<(TypeName, Ty<SemId>)>, usize), TypeLibError>)
    requires
        pos <= data@.len(),
    ensures
        res matches Ok((ts, p)) ==> parse_types(data@, pos as int, n as nat, None, Seq::empty()) == Ok::<
            (Seq<(Seq<u8>, TyModel)>, int),
            LibErrorModel,
        >((types_model(ts@), p as int)) && p <= data@.len(),
        res matches Err(e) ==> parse_types(data@, pos as int, n as nat, None, Seq::empty()) == Err::<
            (Seq<(Seq<u8>, TyModel)>, int),
            LibErrorModel,
        >(e@),
{
    let mut ts: Vec<(TypeName, Ty<SemId>)> = Vec::new();
    let mut prev: Option<SemId> = None;
    let mut p = pos;
    let mut k: u16 = 0;
    assert(types_model(ts@) =~= Seq::<(Seq<u8>, TyModel)>::empty());
    while k < n
        invariant
            k <= n,
            p <= data@.len(),
            parse_types(data@, pos as int, n as nat, None, Seq::empty()) == parse_types(
                data@,
                p as int,
                (n - k) as nat,
                match prev {
                    Some(id) => Some(id@),
                    None => None,
                },
                types_model(ts@),
            ),
        decreases n - k,
    {
        let ghost acc = types_model(ts@);
        let (t, q) = match read_named_ty(data, p) {
            Ok(r) => r,
            Err(e) => return Err(TypeLibError::Decode(e)),
        };
        let id = type_id(&t.1);
        match prev {
            Some(pid) => {
                if crate::typelib::slice_lt(id.0.as_slice(), pid.0.as_slice()) {
                    return Err(TypeLibError::WrongTypeOrdering(id));
                }
            },
            None => {},
        }
        if has_type_name(&ts, &t.0) {
            return Err(TypeLibError::RepeatedType(id));
        }
        // The position of the new type: after every name that comes before its name.
        let mut i: usize = 0;
        while i < ts.len() && crate::typelib::slice_lt(ts[i].0.as_bytes(), t.0.as_bytes())
            invariant
                i <= ts@.len(),
                acc == types_model(ts@),
                forall|j: int| 0 <= j < i ==> bytes_lt((#[trigger] acc[j]).0, t.0@),
            decreases ts@.len() - i,
        {
            i = i + 1;
        }
        let ghost m = ty_model(t.1);
        let ghost nm = t.0@;
        proof {
            lemma_insert_at(acc, nm, m, i as int);
        }
        ts.insert(i, t);
        assert(types_model(ts@) =~= acc.take(i as int) + seq![(nm, m)] + acc.skip(i as int));
        prev = Some(id);
        p = q;
        k = k + 1;
    }
    Ok((ts, p))
}

impl TypeLib {
    /// Reads a type library at position `pos` of `data` (see [`parse_type_lib`]),
    /// returning it with the position after it.
    pub fn decode(data: &[u8], pos: usize) -> (res: Result<(TypeLib, usize), TypeLibError>)
        requires
            pos <= data@.len(),
        ensures
            res matches Ok((lib, p)) ==> parse_type_lib(data@, pos as int) == Ok::<(LibModel, int), LibErrorModel>(
                (lib.model(), p as int),
            ),
            res matches Err(e) ==> parse_type_lib(data@, pos as int) == Err::<(LibModel, int), LibErrorModel>(e@),
    {
        let (name, p1) = match crate::ast::serialize::read_name(data, pos) {
            Ok(r) => r,
            Err(e) => return Err(TypeLibError::Decode(e)),
        };
        let (n, p2) = match crate::ast::serialize::read_byte(data, p1) {
            Ok(r) => r,
            Err(e) => return Err(TypeLibError::Decode(e)),
        };
        let (dependencies, p3) = match read_deps(data, p2, n) {
            Ok(r) => r,
            Err(e) => return Err(e),
        };
        let (m, p4) = match crate::ast::serialize::read_u16(data, p3) {
            Ok(r) => r,
            Err(e) => return Err(TypeLibError::Decode(e)),
        };
        let (types, p5) = match read_types(data, p4, m) {
            Ok(r) => r,
            Err(e) => return Err(e),
        };
        if types.len() == 0 {
            return Err(
                TypeLibError::Decode(DecodeError::Confinement(ConfinementError::Undersize { len: 0, min_len: 1 })),
            );
        }
        Ok((TypeLib { name: LibName(name), dependencies, types }, p5))
    }
}

// ----- Writing type libraries -----

/// The encoding of a dependency: its alias, the id of the library, its name and its
/// version.
pub open spec fn dep_bytes(d: (Seq<u8>, DepModel)) -> Seq<u8> {
    name_bytes(d.0) + d.1.0 + name_bytes(d.1.1) + semver_bytes(d.1.2)
}

/// The encoding of a named type: its name, then the type.
pub open spec fn named_ty_bytes(t: (Seq<u8>, TyModel)) -> Seq<u8> {
    name_bytes(t.0) + ty_bytes(t.1)
}

pub open spec fn dep_enc() -> spec_fn((Seq<u8>, DepModel)) -> Seq<u8> {
    |d: (Seq<u8>, DepModel)| dep_bytes(d)
}

pub open spec fn named_ty_enc() -> spec_fn((Seq<u8>, TyModel)) -> Seq<u8> {
    |t: (Seq<u8>, TyModel)| named_ty_bytes(t)
}

/// The encoding of a type library: its name; the number of dependencies as one byte
/// and the dependencies; the number of types as two little-endian bytes and the
/// types.
pub open spec fn lib_bytes(l: LibModel) -> Seq<u8> {
    name_bytes(l.name) + seq![l.deps.len() as u8] + concat_bytes(l.deps, dep_enc()) + le_bytes(
        l.types.len() as nat,
        2,
    ) + concat_bytes(l.types, named_ty_enc())
}

/// What every library holds by construction: valid identifiers, ids of 32 bytes,
/// valid versions and valid types.
pub open spec fn lib_parts_valid(l: LibModel) -> bool {
    &&& valid_ident(l.name)
    &&& forall|i: int|
        0 <= i < l.deps.len() ==> valid_ident((#[trigger] l.deps[i]).0) && l.deps[i].1.0.len() == 32
            && valid_ident(l.deps[i].1.1) && valid_semver(l.deps[i].1.2)
    &&& forall|i: int| 0 <= i < l.types.len() ==> valid_ident((#[trigger] l.types[i]).0) && valid_model(l.types[i].1)
}

impl TypeLib {
    /// Appends the encoding of the library (see [`lib_bytes`]).
    pub fn encode(&self, out: &mut Vec<u8>)
        requires
            self.dependencies@.len() <= 255,
            self.types@.len() <= 0xFFFF,
            forall|i: int|
                0 <= i < self.dependencies@.len() ==> (#[trigger] self.dependencies@[i]).1.ver.pre@.len() <= 255
                    && self.dependencies@[i].1.ver.build@.len() <= 255,
        ensures
            final(out)@ == old(out)@ + lib_bytes(self.model()),
            lib_parts_valid(self.model()),
    {
        let ghost start = out@;
        let ghost l = self.model();
        self.name.0.check_valid();
        self.name.0.encode(out);
        out.push(self.dependencies.len() as u8);
        let ghost head = out@;
        let mut i: usize = 0;
        while i < self.dependencies.len()
            invariant
                i <= self.dependencies@.len(),
                l == self.model(),
                self.dependencies@.len() <= 255,
                forall|j: int|
                    0 <= j < self.dependencies@.len() ==> (#[trigger] self.dependencies@[j]).1.ver.pre@.len() <= 255
                        && self.dependencies@[j].1.ver.build@.len() <= 255,
                out@ == head + concat_bytes(l.deps.take(i as int), dep_enc()),
                forall|j: int|
                    0 <= j < i ==> valid_ident((#[trigger] l.deps[j]).0) && l.deps[j].1.0.len() == 32 && valid_ident(
                        l.deps[j].1.1,
                    ) && valid_semver(l.deps[j].1.2),
            decreases self.dependencies@.len() - i,
        {
            let (alias, dep) = &self.dependencies[i];
            alias.check_valid();
            dep.name.0.check_valid();
            alias.encode(out);
            let ghost before_id = out@;
            let mut k: usize = 0;
            while k < 32
                invariant
                    k <= 32,
                    out@ == before_id + dep.id@.subrange(0, k as int),
                decreases 32 - k,
            {
                out.push(dep.id.0[k]);
                k = k + 1;
                assert(out@ =~= before_id + dep.id@.subrange(0, k as int));
            }
            assert(dep.id@.subrange(0, 32) =~= dep.id@);
            dep.name.0.encode(out);
            dep.ver.encode(out);
            proof {
                lemma_concat_push(l.deps.take(i as int), l.deps[i as int], dep_enc());
                assert(l.deps.take(i as int).push(l.deps[i as int]) =~= l.deps.take(i + 1));
            }
            i = i + 1;
        }
        assert(l.deps.take(l.deps.len() as int) =~= l.deps);
        write_le(self.types.len() as u128, 2, out);
        let ghost mid = out@;
        let mut i: usize = 0;
        while i < self.types.len()
            invariant
                i <= self.types@.len(),
                l == self.model(),
                out@ == mid + concat_bytes(l.types.take(i as int), named_ty_enc()),
                forall|j: int| 0 <= j < i ==> valid_ident((#[trigger] l.types[j]).0) && valid_model(l.types[j].1),
            decreases self.types@.len() - i,
        {
            let (name, ty) = &self.types[i];
            name.0.check_valid();
            name.0.encode(out);
            ty.encode_checked(out);
            proof {
                lemma_concat_push(l.types.take(i as int), l.types[i as int], named_ty_enc());
                assert(l.types.take(i as int).push(l.types[i as int]) =~= l.types.take(i + 1));
            }
            i = i + 1;
        }
        assert(l.types.take(l.types.len() as int) =~= l.types);
    }
}

// ----- Reading back what was written -----

/// If `a` comes before `b`, `b` does not come before `a`.
pub proof fn lemma_bytes_lt_asymmetric(a: Seq<u8>, b: Seq<u8>)
    requires
        bytes_lt(a, b),
    ensures
        !bytes_lt(b, a),
    decreases a.len(),
{
    if a.len() > 0 && b.len() > 0 && a[0] == b[0] {
        lemma_bytes_lt_asymmetric(a.drop_first(), b.drop_first());
    }
}

/// The libraries that read back as written: the parts are valid; at most 255
/// dependencies, with aliases in strictly increasing order; one to 65535 types, with
/// names in strictly increasing order and semantic ids that never decrease.
pub open spec fn valid_lib(l: LibModel) -> bool {
    &&& lib_parts_valid(l)
    &&& l.deps.len() <= 255
    &&& 1 <= l.types.len() <= 0xFFFF
    &&& forall|i: int, j: int| 0 <= i < j < l.deps.len() ==> bytes_lt(#[trigger] l.deps[i].0, #[trigger] l.deps[j].0)
    &&& forall|i: int, j: int|
        0 <= i < j < l.types.len() ==> bytes_lt(#[trigger] l.types[i].0, #[trigger] l.types[j].0)
    &&& forall|k: int| 1 <= k < l.types.len() ==> !bytes_lt(model_id((#[trigger] l.types[k]).1), model_id(l.types[k - 1].1))
}

proof fn lemma_dep_at(data: Seq<u8>, pos: int, d: (Seq<u8>, DepModel))
    requires
        valid_ident(d.0),
        d.1.0.len() == 32,
        valid_ident(d.1.1),
        valid_semver(d.1.2),
        0 <= pos,
        pos + dep_bytes(d).len() <= data.len(),
        data.subrange(pos, pos + dep_bytes(d).len()) == dep_bytes(d),
    ensures
        parse_dep(data, pos) == Ok::<((Seq<u8>, DepModel), int), DecodeError>((d, pos + dep_bytes(d).len())),
{
    let a = name_bytes(d.0);
    let b = d.1.0;
    let c = name_bytes(d.1.1);
    let v = semver_bytes(d.1.2);
    assert(dep_bytes(d) == a + (b + (c + v)));
    lemma_split(data, pos, a, b + (c + v));
    lemma_name_at(data, pos, d.0);
    let p1 = pos + a.len();
    lemma_split(data, p1, b, c + v);
    lemma_id_at(data, p1, b);
    let p2 = p1 + 32;
    lemma_split(data, p2, c, v);
    lemma_name_at(data, p2, d.1.1);
    let p3 = p2 + c.len();
    lemma_semver_roundtrip(d.1.2, data, p3);
}

proof fn lemma_deps_at(l: LibModel, data: Seq<u8>, pos: int, k: int)
    requires
        valid_lib(l),
        0 <= k <= l.deps.len(),
        0 <= pos,
        pos + concat_bytes(l.deps.skip(k), dep_enc()).len() <= data.len(),
        data.subrange(pos, pos + concat_bytes(l.deps.skip(k), dep_enc()).len()) == concat_bytes(
            l.deps.skip(k),
            dep_enc(),
        ),
    ensures
        parse_deps(data, pos, (l.deps.len() - k) as nat, l.deps.take(k)) == Ok::<
            (Seq<(Seq<u8>, DepModel)>, int),
            LibErrorModel,
        >((l.deps, pos + concat_bytes(l.deps.skip(k), dep_enc()).len())),
    decreases l.deps.len() - k,
{
    if k == l.deps.len() {
        assert(l.deps.take(k) =~= l.deps);
    } else {
        let rest = l.deps.skip(k);
        let d = l.deps[k];
        assert(rest[0] == d);
        assert(rest.drop_first() =~= l.deps.skip(k + 1));
        let tail = concat_bytes(l.deps.skip(k + 1), dep_enc());
        assert(concat_bytes(rest, dep_enc()) == dep_bytes(d) + tail);
        lemma_split(data, pos, dep_bytes(d), tail);
        lemma_dep_at(data, pos, d);
        let acc = l.deps.take(k);
        if k > 0 {
            assert(acc.last() == l.deps[k - 1]);
            assert(bytes_lt(l.deps[k - 1].0, l.deps[k].0));
            lemma_bytes_lt_asymmetric(l.deps[k - 1].0, l.deps[k].0);
        }
        assert(!has_key(acc, d.0)) by {
            if has_key(acc, d.0) {
                let j = choose|j: int| 0 <= j < acc.len() && (#[trigger] acc[j]).0 == d.0;
                assert(bytes_lt(l.deps[j].0, l.deps[k].0));
                lemma_bytes_lt_irreflexive(d.0);
            }
        }
        assert(acc.push(d) =~= l.deps.take(k + 1));
        lemma_deps_at(l, data, pos + dep_bytes(d).len(), k + 1);
    }
}

proof fn lemma_named_ty_at(data: Seq<u8>, pos: int, t: (Seq<u8>, TyModel))
    requires
        valid_ident(t.0),
        valid_model(t.1),
        0 <= pos,
        pos + named_ty_bytes(t).len() <= data.len(),
        data.subrange(pos, pos + named_ty_bytes(t).len()) == named_ty_bytes(t),
    ensures
        parse_named_ty(data, pos) == Ok::<((Seq<u8>, TyModel), int), DecodeError>((t, pos + named_ty_bytes(t).len())),
{
    lemma_split(data, pos, name_bytes(t.0), ty_bytes(t.1));
    lemma_name_at(data, pos, t.0);
    lemma_ty_roundtrip(t.1, data, pos + name_bytes(t.0).len());
}

proof fn lemma_types_at(l: LibModel, data: Seq<u8>, pos: int, k: int)
    requires
        valid_lib(l),
        0 <= k <= l.types.len(),
        0 <= pos,
        pos + concat_bytes(l.types.skip(k), named_ty_enc()).len() <= data.len(),
        data.subrange(pos, pos + concat_bytes(l.types.skip(k), named_ty_enc()).len()) == concat_bytes(
            l.types.skip(k),
            named_ty_enc(),
        ),
    ensures
        parse_types(
            data,
            pos,
            (l.types.len() - k) as nat,
            if k == 0 {
                None
            } else {
                Some(model_id(l.types[k - 1].1))
            },
            l.types.take(k),
        ) == Ok::<(Seq<(Seq<u8>, TyModel)>, int), LibErrorModel>(
            (l.types, pos + concat_bytes(l.types.skip(k), named_ty_enc()).len()),
        ),
    decreases l.types.len() - k,
{
    if k == l.types.len() {
        assert(l.types.take(k) =~= l.types);
    } else {
        let rest = l.types.skip(k);
        let t = l.types[k];
        assert(rest[0] == t);
        assert(rest.drop_first() =~= l.types.skip(k + 1));
        let tail = concat_bytes(l.types.skip(k + 1), named_ty_enc());
        assert(concat_bytes(rest, named_ty_enc()) == named_ty_bytes(t) + tail);
        lemma_split(data, pos, named_ty_bytes(t), tail);
        lemma_named_ty_at(data, pos, t);
        let acc = l.types.take(k);
        assert(forall|j: int| 0 <= j < acc.len() ==> bytes_lt((#[trigger] acc[j]).0, t.0)) by {
            assert forall|j: int| 0 <= j < acc.len() implies bytes_lt((#[trigger] acc[j]).0, t.0) by {
                assert(bytes_lt(l.types[j].0, l.types[k].0));
            }
        }
        assert(!has_key(acc, t.0)) by {
            if has_key(acc, t.0) {
                let j = choose|j: int| 0 <= j < acc.len() && (#[trigger] acc[j]).0 == t.0;
                assert(bytes_lt(acc[j].0, t.0));
                lemma_bytes_lt_irreflexive(t.0);
            }
        }
        lemma_insert_at(acc, t.0, t.1, acc.len() as int);
        assert(acc.take(acc.len() as int) + seq![(t.0, t.1)] + acc.skip(acc.len() as int) =~= l.types.take(k + 1));
        lemma_types_at(l, data, pos + named_ty_bytes(t).len(), k + 1);
    }
}

/// Reading a library back from its encoding gives the library and stops right after
/// the encoding, whatever bytes follow it.
#[verifier::rlimit(60)]
pub proof fn lemma_type_lib_roundtrip(l: LibModel, data: Seq<u8>, pos: int)
    requires
        valid_lib(l),
        0 <= pos,
        pos + lib_bytes(l).len() <= data.len(),
        data.subrange(pos, pos + lib_bytes(l).len()) == lib_bytes(l),
    ensures
        parse_type_lib(data, pos) == Ok::<(LibModel, int), LibErrorModel>((l, pos + lib_bytes(l).len())),
{
    let a = name_bytes(l.name);
    let n = seq![l.deps.len() as u8];
    let ds = concat_bytes(l.deps, dep_enc());
    lemma_pow256_values();
    lemma_le_len(l.types.len() as nat, 2);
    let c = le_bytes(l.types.len() as nat, 2);
    let ts = concat_bytes(l.types, named_ty_enc());
    assert(lib_bytes(l) == a + (n + (ds + (c + ts))));
    lemma_split(data, pos, a, n + (ds + (c + ts)));
    lemma_name_at(data, pos, l.name);
    let p1 = pos + a.len();
    lemma_split(data, p1, n, ds + (c + ts));
    assert(data.subrange(p1, p1 + 1)[0] == data[p1]);
    let p2 = p1 + 1;
    assert(crate::ast::serialize::parse_byte(data, p1) == Ok::<(u8, int), DecodeError>((l.deps.len() as u8, p2)));
    lemma_split(data, p2, ds, c + ts);
    assert(l.deps.skip(0) =~= l.deps);
    assert(l.deps.take(0) =~= Seq::<(Seq<u8>, DepModel)>::empty());
    lemma_deps_at(l, data, p2, 0);
    let p3 = p2 + ds.len();
    assert(parse_deps(data, p2, l.deps.len() as nat, Seq::empty()) == Ok::<
        (Seq<(Seq<u8>, DepModel)>, int),
        LibErrorModel,
    >((l.deps, p3)));
    lemma_split(data, p3, c, ts);
    lemma_le_at(data, p3, l.types.len() as nat, 2);
    let p4 = p3 + 2;
    assert(l.types.skip(0) =~= l.types);
    assert(l.types.take(0) =~= Seq::<(Seq<u8>, TyModel)>::empty());
    lemma_types_at(l, data, p4, 0);
    assert(parse_types(data, p4, l.types.len() as nat, None, Seq::empty()) == Ok::<
        (Seq<(Seq<u8>, TyModel)>, int),
        LibErrorModel,
    >((l.types, p4 + ts.len())));
}

} // verus!
