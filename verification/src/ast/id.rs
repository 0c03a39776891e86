use vstd::prelude::*;

use crate::ast::ty::{
    Cls, EnumVariants, Field, NamedFields, Ty, TypeRef, UnionVariants, UnnamedFields, Variant,
};
use crate::digest::{sha256, Sha256};
use crate::encoding::base::{le_bytes, write_le};
use crate::ident::{FieldName, LibName, TypeName, VariantName};
use crate::primitive::constants::{BYTE, U8};
use crate::primitive::Primitive;
use crate::util::Sizing;
use crate::CommitConsume;

verus! {

/// Semantic type id, which commits to the type memory layout, name and field/variant names.
#[derive(Copy, Clone, Debug)]
pub struct SemId(pub [u8; 32]);

impl View for SemId {
    type V = Seq<u8>;

    open spec fn view(&self) -> Seq<u8> {
        self.0@
    }
}

/// The text of a semantic id with the given bytes in Baid64: the `semid:` prefix,
/// the base64 digits in chunks, and the mnemonic of its checksum.
pub uninterp spec fn semid_baid64(payload: Seq<u8>) -> Seq<char>;

/// Calls `baid64::Baid64Display::with("semid", payload, true, 8, 7, true, true,
/// false)` and writes the result out. Trusted to give a text that depends on the
/// payload alone, named [`semid_baid64`]; nothing more of it is stated.
#[verifier::external_body]
fn sem_id_baid64(payload: [u8; 32]) -> (s: String)
    ensures
        s@ == semid_baid64(payload@),
{
    baid64::Baid64Display::with("semid", payload, true, 8, 7, true, true, false).to_string()
}

impl SemId {
    /// The text of the id, in Baid64 with the `semid:` prefix, chunks and mnemonic.
    pub fn to_string(&self) -> (s: String)
        ensures
            s@ == semid_baid64(self@),
    {
        sem_id_baid64(self.0)
    }
}

/// The tag that the hashes of all semantic ids start from.
pub open spec fn sem_id_tag() -> Seq<u8> {
    seq![0x75u8, 0x72u8, 0x6eu8, 0x3au8, 0x75u8, 0x62u8, 0x69u8, 0x64u8, 0x65u8, 0x63u8, 0x6fu8, 0x3au8, 0x73u8, 0x74u8, 0x72u8, 0x69u8, 0x63u8, 0x74u8, 0x2du8, 0x74u8, 0x79u8, 0x70u8, 0x65u8, 0x73u8, 0x3au8, 0x74u8, 0x79u8, 0x70u8, 0x3au8, 0x76u8, 0x30u8, 0x31u8]
}

pub fn sem_id_tag_bytes() -> (tag: [u8; 32])
    ensures
        tag@ == sem_id_tag(),
{
    let tag = [0x75, 0x72, 0x6e, 0x3a, 0x75, 0x62, 0x69, 0x64, 0x65, 0x63, 0x6f, 0x3a, 0x73, 0x74, 0x72, 0x69, 0x63, 0x74, 0x2d, 0x74, 0x79, 0x70, 0x65, 0x73, 0x3a, 0x74, 0x79, 0x70, 0x3a, 0x76, 0x30, 0x31];
    assert(tag@ =~= sem_id_tag());
    tag
}

/// The bytes of a value that its semantic id commits to.
pub trait SemCommit {
    spec fn sem_commitment(&self) -> Seq<u8>;

    /// The data of each call that committing makes to the hasher, in order.
    spec fn sem_calls(&self) -> Seq<Seq<u8>>;

    fn sem_commit<H: CommitConsume>(&self, hasher: &mut H)
        ensures
            final(hasher).consumed() == old(hasher).consumed() + self.sem_commitment(),
            final(hasher).calls() == old(hasher).calls() + self.sem_calls(),
    ;
}

/// An identifier commits to its length as one byte, then its bytes.
pub open spec fn name_commitment(name: Seq<u8>) -> Seq<u8> {
    seq![name.len() as u8] + name
}

/// An identifier is committed in two calls: its length, then its bytes.
pub open spec fn name_calls(name: Seq<u8>) -> Seq<Seq<u8>> {
    seq![seq![name.len() as u8], name]
}

fn commit_name<H: CommitConsume>(name: &[u8], hasher: &mut H)
    ensures
        final(hasher).consumed() == old(hasher).consumed() + name_commitment(name@),
        final(hasher).calls() == old(hasher).calls() + name_calls(name@),
{
    let len = [name.len() as u8];
    hasher.commit_consume(len.as_slice());
    hasher.commit_consume(name);
    assert(seq![name@.len() as u8] + name@ == len@ + name@);
    assert(len@ =~= seq![name@.len() as u8]);
}

impl SemCommit for LibName {
    open spec fn sem_commitment(&self) -> Seq<u8> {
        name_commitment(self@)
    }

    open spec fn sem_calls(&self) -> Seq<Seq<u8>> {
        name_calls(self@)
    }

    fn sem_commit<H: CommitConsume>(&self, hasher: &mut H) {
        commit_name(self.as_bytes(), hasher)
    }
}

impl SemCommit for TypeName {
    open spec fn sem_commitment(&self) -> Seq<u8> {
        name_commitment(self@)
    }

    open spec fn sem_calls(&self) -> Seq<Seq<u8>> {
        name_calls(self@)
    }

    fn sem_commit<H: CommitConsume>(&self, hasher: &mut H) {
        commit_name(self.as_bytes(), hasher)
    }
}

impl SemCommit for FieldName {
    open spec fn sem_commitment(&self) -> Seq<u8> {
        name_commitment(self@)
    }

    open spec fn sem_calls(&self) -> Seq<Seq<u8>> {
        name_calls(self@)
    }

    fn sem_commit<H: CommitConsume>(&self, hasher: &mut H) {
        commit_name(self.as_bytes(), hasher)
    }
}

impl SemCommit for VariantName {
    open spec fn sem_commitment(&self) -> Seq<u8> {
        name_commitment(self@)
    }

    open spec fn sem_calls(&self) -> Seq<Seq<u8>> {
        name_calls(self@)
    }

    fn sem_commit<H: CommitConsume>(&self, hasher: &mut H) {
        commit_name(self.as_bytes(), hasher)
    }
}

impl SemCommit for SemId {
    open spec fn sem_commitment(&self) -> Seq<u8> {
        self@
    }

    open spec fn sem_calls(&self) -> Seq<Seq<u8>> {
        seq![self@]
    }

    fn sem_commit<H: CommitConsume>(&self, hasher: &mut H) {
        hasher.commit_consume(self.0.as_slice())
    }
}

impl SemCommit for Cls {
    open spec fn sem_commitment(&self) -> Seq<u8> {
        seq![self.code()]
    }

    open spec fn sem_calls(&self) -> Seq<Seq<u8>> {
        seq![seq![self.code()]]
    }

    fn sem_commit<H: CommitConsume>(&self, hasher: &mut H) {
        let code = [self.into_u8()];
        hasher.commit_consume(code.as_slice());
        assert(code@ =~= seq![self.code()]);
    }
}

/// A variant commits to its name, then its tag.
pub open spec fn variant_commitment(v: (Seq<u8>, u8)) -> Seq<u8> {
    name_commitment(v.0) + seq![v.1]
}

/// A variant is committed in the calls of its name, then one call with its tag.
pub open spec fn variant_calls(v: (Seq<u8>, u8)) -> Seq<Seq<u8>> {
    name_calls(v.0) + seq![seq![v.1]]
}

impl SemCommit for Variant {
    open spec fn sem_commitment(&self) -> Seq<u8> {
        variant_commitment(self@)
    }

    open spec fn sem_calls(&self) -> Seq<Seq<u8>> {
        variant_calls(self@)
    }

    fn sem_commit<H: CommitConsume>(&self, hasher: &mut H) {
        self.name.sem_commit(hasher);
        let tag = [self.tag];
        hasher.commit_consume(tag.as_slice());
        assert(tag@ =~= seq![self.tag]);
    }
}

/// Sizing commits to its bounds, eight little-endian bytes each.
pub open spec fn sizing_commitment(s: Sizing) -> Seq<u8> {
    le_bytes(s.min as nat, 8) + le_bytes(s.max as nat, 8)
}

impl SemCommit for Sizing {
    open spec fn sem_commitment(&self) -> Seq<u8> {
        sizing_commitment(*self)
    }

    /// One call with both bounds.
    open spec fn sem_calls(&self) -> Seq<Seq<u8>> {
        seq![sizing_commitment(*self)]
    }

    fn sem_commit<H: CommitConsume>(&self, hasher: &mut H) {
        let mut data: Vec<u8> = Vec::new();
        write_le(self.min as u128, 8, &mut data);
        write_le(self.max as u128, 8, &mut data);
        hasher.commit_consume(data.as_slice());
    }
}

/// Enum variants commit to each variant in turn.
pub open spec fn variants_commitment(s: Seq<(Seq<u8>, u8)>) -> Seq<u8>
    decreases s.len(),
{
    if s.len() == 0 {
        Seq::empty()
    } else {
        variants_commitment(s.drop_last()) + variant_commitment(s.last())
    }
}

/// Enum variants are committed in the calls of each variant in turn.
pub open spec fn variants_calls(s: Seq<(Seq<u8>, u8)>) -> Seq<Seq<u8>>
    decreases s.len(),
{
    if s.len() == 0 {
        Seq::empty()
    } else {
        variants_calls(s.drop_last()) + variant_calls(s.last())
    }
}

impl SemCommit for EnumVariants {
    open spec fn sem_commitment(&self) -> Seq<u8> {
        variants_commitment(self@)
    }

    open spec fn sem_calls(&self) -> Seq<Seq<u8>> {
        variants_calls(self@)
    }

    fn sem_commit<H: CommitConsume>(&self, hasher: &mut H) {
        let ghost start = hasher.consumed();
        let ghost start_calls = hasher.calls();
        let mut i: usize = 0;
        while i < self.len()
            invariant
                i <= self@.len(),
                hasher.consumed() == start + variants_commitment(self@.subrange(0, i as int)),
                hasher.calls() == start_calls + variants_calls(self@.subrange(0, i as int)),
            decreases self@.len() - i,
        {
            match self.get(i) {
                Some(v) => v.sem_commit(hasher),
                None => {},
            }
            proof {
                assert(self@.subrange(0, i + 1).drop_last() == self@.subrange(0, i as int));
            }
            i = i + 1;
        }
        assert(self@.subrange(0, self@.len() as int) == self@);
    }
}

/// Union variants commit to each variant and the commitment of its type in turn.
pub open spec fn union_commitment<Ref: SemCommit>(vars: Seq<(Seq<u8>, u8)>, tys: Seq<Ref>) -> Seq<u8>
    decreases vars.len(),
{
    if vars.len() == 0 || tys.len() == 0 {
        Seq::empty()
    } else {
        union_commitment(vars.drop_last(), tys.drop_last()) + variant_commitment(vars.last())
            + tys.last().sem_commitment()
    }
}

/// Union variants are committed in the calls of each variant, then of its type, in
/// turn.
pub open spec fn union_calls<Ref: SemCommit>(vars: Seq<(Seq<u8>, u8)>, tys: Seq<Ref>) -> Seq<Seq<u8>>
    decreases vars.len(),
{
    if vars.len() == 0 || tys.len() == 0 {
        Seq::empty()
    } else {
        union_calls(vars.drop_last(), tys.drop_last()) + variant_calls(vars.last()) + tys.last().sem_calls()
    }
}

impl<Ref: SemCommit> SemCommit for UnionVariants<Ref> {
    open spec fn sem_commitment(&self) -> Seq<u8> {
        union_commitment(self.spec_variants(), self.spec_tys())
    }

    open spec fn sem_calls(&self) -> Seq<Seq<u8>> {
        union_calls(self.spec_variants(), self.spec_tys())
    }

    fn sem_commit<H: CommitConsume>(&self, hasher: &mut H) {
        self.check_wf();
        let ghost start = hasher.consumed();
        let ghost start_calls = hasher.calls();
        let ghost vs = self.spec_variants();
        let ghost ts = self.spec_tys();
        let mut i: usize = 0;
        while i < self.len()
            invariant
                i <= vs.len(),
                vs == self.spec_variants(),
                ts == self.spec_tys(),
                ts.len() == vs.len(),
                hasher.consumed() == start + union_commitment(vs.subrange(0, i as int), ts.subrange(0, i as int)),
                hasher.calls() == start_calls + union_calls(vs.subrange(0, i as int), ts.subrange(0, i as int)),
            decreases vs.len() - i,
        {
            match self.get(i) {
                Some((v, t)) => {
                    v.sem_commit(hasher);
                    t.sem_commit(hasher);
                },
                None => {},
            }
            proof {
                assert(vs.subrange(0, i + 1).drop_last() == vs.subrange(0, i as int));
                assert(ts.subrange(0, i + 1).drop_last() == ts.subrange(0, i as int));
            }
            i = i + 1;
        }
        assert(vs.subrange(0, vs.len() as int) == vs);
        assert(ts.subrange(0, ts.len() as int) == ts);
    }
}

/// A field commits to its name, then the commitment of its type.
impl<Ref: SemCommit> SemCommit for Field<Ref> {
    open spec fn sem_commitment(&self) -> Seq<u8> {
        name_commitment(self.name@) + self.ty.sem_commitment()
    }

    open spec fn sem_calls(&self) -> Seq<Seq<u8>> {
        name_calls(self.name@) + self.ty.sem_calls()
    }

    fn sem_commit<H: CommitConsume>(&self, hasher: &mut H) {
        self.name.sem_commit(hasher);
        self.ty.sem_commit(hasher);
    }
}

/// Structure fields commit to each field in turn.
pub open spec fn fields_commitment<Ref: SemCommit>(names: Seq<Seq<u8>>, tys: Seq<Ref>) -> Seq<u8>
    decreases names.len(),
{
    if names.len() == 0 || tys.len() == 0 {
        Seq::empty()
    } else {
        fields_commitment(names.drop_last(), tys.drop_last()) + name_commitment(names.last())
            + tys.last().sem_commitment()
    }
}

/// Structure fields are committed in the calls of each field in turn.
pub open spec fn fields_calls<Ref: SemCommit>(names: Seq<Seq<u8>>, tys: Seq<Ref>) -> Seq<Seq<u8>>
    decreases names.len(),
{
    if names.len() == 0 || tys.len() == 0 {
        Seq::empty()
    } else {
        fields_calls(names.drop_last(), tys.drop_last()) + name_calls(names.last()) + tys.last().sem_calls()
    }
}

impl<Ref: SemCommit> SemCommit for NamedFields<Ref> {
    open spec fn sem_commitment(&self) -> Seq<u8> {
        fields_commitment(self.spec_names(), self.spec_tys())
    }

    open spec fn sem_calls(&self) -> Seq<Seq<u8>> {
        fields_calls(self.spec_names(), self.spec_tys())
    }

    fn sem_commit<H: CommitConsume>(&self, hasher: &mut H) {
        self.check_wf();
        let ghost start = hasher.consumed();
        let ghost start_calls = hasher.calls();
        let ghost ns = self.spec_names();
        let ghost ts = self.spec_tys();
        let mut i: usize = 0;
        while i < self.len()
            invariant
                i <= ns.len(),
                ns == self.spec_names(),
                ts == self.spec_tys(),
                ts.len() == ns.len(),
                hasher.consumed() == start + fields_commitment(ns.subrange(0, i as int), ts.subrange(0, i as int)),
                hasher.calls() == start_calls + fields_calls(ns.subrange(0, i as int), ts.subrange(0, i as int)),
            decreases ns.len() - i,
        {
            match self.get(i) {
                Some(f) => f.sem_commit(hasher),
                None => {},
            }
            proof {
                assert(ns.subrange(0, i + 1).drop_last() == ns.subrange(0, i as int));
                assert(ts.subrange(0, i + 1).drop_last() == ts.subrange(0, i as int));
            }
            i = i + 1;
        }
        assert(ns.subrange(0, ns.len() as int) == ns);
        assert(ts.subrange(0, ts.len() as int) == ts);
    }
}

/// Tuple fields commit to the commitment of each field type in turn.
pub open spec fn refs_commitment<Ref: SemCommit>(tys: Seq<Ref>) -> Seq<u8>
    decreases tys.len(),
{
    if tys.len() == 0 {
        Seq::empty()
    } else {
        refs_commitment(tys.drop_last()) + tys.last().sem_commitment()
    }
}

/// Tuple fields are committed in the calls of each field type in turn.
pub open spec fn refs_calls<Ref: SemCommit>(tys: Seq<Ref>) -> Seq<Seq<u8>>
    decreases tys.len(),
{
    if tys.len() == 0 {
        Seq::empty()
    } else {
        refs_calls(tys.drop_last()) + tys.last().sem_calls()
    }
}

impl<Ref: SemCommit> SemCommit for UnnamedFields<Ref> {
    open spec fn sem_commitment(&self) -> Seq<u8> {
        refs_commitment(self@)
    }

    open spec fn sem_calls(&self) -> Seq<Seq<u8>> {
        refs_calls(self@)
    }

    fn sem_commit<H: CommitConsume>(&self, hasher: &mut H) {
        self.check_wf();
        let ghost start = hasher.consumed();
        let ghost start_calls = hasher.calls();
        let mut i: usize = 0;
        while i < self.len()
            invariant
                i <= self@.len(),
                self@.len() <= 255,
                hasher.consumed() == start + refs_commitment(self@.subrange(0, i as int)),
                hasher.calls() == start_calls + refs_calls(self@.subrange(0, i as int)),
            decreases self@.len() - i,
        {
            match self.ty_by_pos(i as u8) {
                Some(t) => t.sem_commit(hasher),
                None => {},
            }
            proof {
                assert(self@.subrange(0, i + 1).drop_last() == self@.subrange(0, i as int));
            }
            i = i + 1;
        }
        assert(self@.subrange(0, self@.len() as int) == self@);
    }
}

impl<Ref: SemCommit> SemCommit for Ty<Ref> {
    /// A type commits to its class, then to what the class holds.
    open spec fn sem_commitment(&self) -> Seq<u8> {
        seq![self.spec_cls().code()] + match self {
            Ty::Primitive(prim) => seq![prim.0],
            Ty::Enum(vars) => vars.sem_commitment(),
            Ty::Union(vars) => vars.sem_commitment(),
            Ty::Tuple(fields) => fields.sem_commitment(),
            Ty::Struct(fields) => fields.sem_commitment(),
            Ty::Array(ty, len) => ty.sem_commitment() + le_bytes(*len as nat, 2),
            Ty::UnicodeChar => Seq::empty(),
            Ty::List(ty, sizing) => ty.sem_commitment() + sizing_commitment(*sizing),
            Ty::SetOf(ty, sizing) => ty.sem_commitment() + sizing_commitment(*sizing),
            Ty::MapOf(key, ty, sizing) => key.sem_commitment() + ty.sem_commitment() + sizing_commitment(*sizing),
        }
    }

    /// A type is committed in one call with its class, then the calls of what the
    /// class holds: one call with the code of a primitive, one with the length of an
    /// array, one with the bounds of a collection.
    open spec fn sem_calls(&self) -> Seq<Seq<u8>> {
        seq![seq![self.spec_cls().code()]] + match self {
            Ty::Primitive(prim) => seq![seq![prim.0]],
            Ty::Enum(vars) => vars.sem_calls(),
            Ty::Union(vars) => vars.sem_calls(),
            Ty::Tuple(fields) => fields.sem_calls(),
            Ty::Struct(fields) => fields.sem_calls(),
            Ty::Array(ty, len) => ty.sem_calls() + seq![le_bytes(*len as nat, 2)],
            Ty::UnicodeChar => Seq::empty(),
            Ty::List(ty, sizing) => ty.sem_calls() + sizing.sem_calls(),
            Ty::SetOf(ty, sizing) => ty.sem_calls() + sizing.sem_calls(),
            Ty::MapOf(key, ty, sizing) => key.sem_calls() + ty.sem_calls() + sizing.sem_calls(),
        }
    }

    fn sem_commit<H: CommitConsume>(&self, hasher: &mut H) {
        let ghost start = hasher.consumed();
        let ghost start_calls = hasher.calls();
        self.cls().sem_commit(hasher);
        match self {
            Ty::Primitive(prim) => {
                let code = [prim.into_code()];
                hasher.commit_consume(code.as_slice());
                assert(code@ =~= seq![prim.0]);
            },
            Ty::Enum(vars) => vars.sem_commit(hasher),
            Ty::Union(vars) => vars.sem_commit(hasher),
            Ty::Tuple(fields) => fields.sem_commit(hasher),
            Ty::Struct(fields) => fields.sem_commit(hasher),
            Ty::Array(ty, len) => {
                ty.sem_commit(hasher);
                let mut data: Vec<u8> = Vec::new();
                write_le(*len as u128, 2, &mut data);
                hasher.commit_consume(data.as_slice());
            },
            Ty::UnicodeChar => {},
            Ty::List(ty, sizing) => {
                ty.sem_commit(hasher);
                sizing.sem_commit(hasher);
            },
            Ty::SetOf(ty, sizing) => {
                ty.sem_commit(hasher);
                sizing.sem_commit(hasher);
            },
            Ty::MapOf(key, ty, sizing) => {
                key.sem_commit(hasher);
                ty.sem_commit(hasher);
                sizing.sem_commit(hasher);
            },
        }
        assert(hasher.consumed() =~= start + self.sem_commitment());
        assert(hasher.calls() =~= start_calls + self.sem_calls());
    }
}

} // verus!

verus! {

/// The semantic id of a type with the given commitment, and with the given name
/// when it has one.
pub open spec fn spec_sem_id(name: Option<Seq<u8>>, commitment: Seq<u8>) -> Seq<u8> {
    let tag = sha256(sem_id_tag());
    sha256(
        tag + tag + match name {
            Some(n) => name_commitment(n),
            None => Seq::empty(),
        } + commitment,
    )
}

/// The commitment of a primitive type with the given code.
pub open spec fn primitive_commitment(code: u8) -> Seq<u8> {
    seq![0u8, code]
}

/// The semantic id of the byte type.
pub open spec fn spec_byte_id() -> Seq<u8> {
    spec_sem_id(None, primitive_commitment(BYTE))
}

/// The semantic id of the unsigned 8-bit integer type.
pub open spec fn spec_u8_id() -> Seq<u8> {
    spec_sem_id(None, primitive_commitment(U8))
}

/// The semantic id of the unicode character type.
pub open spec fn spec_unicode_id() -> Seq<u8> {
    spec_sem_id(None, seq![1u8])
}

impl<Ref: SemCommit> Ty<Ref> {
    fn sem_id_inner(&self, name: Option<&TypeName>) -> (id: SemId)
        ensures
            id@ == spec_sem_id(
                match name {
                    Some(n) => Some(n@),
                    None => None,
                },
                self.sem_commitment(),
            ),
    {
        let mut tag_hasher = Sha256::new();
        let tag_bytes = sem_id_tag_bytes();
        tag_hasher.commit_consume(tag_bytes.as_slice());
        let tag = tag_hasher.finalize();
        let mut hasher = Sha256::new();
        hasher.commit_consume(tag.as_slice());
        hasher.commit_consume(tag.as_slice());
        match name {
            Some(name) => name.sem_commit(&mut hasher),
            None => {},
        }
        self.sem_commit(&mut hasher);
        let ghost n = match name {
            Some(n) => Some(n@),
            None => None,
        };
        assert(hasher.consumed() =~= sha256(sem_id_tag()) + sha256(sem_id_tag()) + match n {
            Some(n) => name_commitment(n),
            None => Seq::empty(),
        } + self.sem_commitment());
        SemId(hasher.finalize())
    }

    /// The semantic id of the type under the given name.
    pub fn sem_id_named(&self, name: &TypeName) -> (id: SemId)
        ensures
            id@ == spec_sem_id(Some(name@), self.sem_commitment()),
    {
        self.sem_id_inner(Some(name))
    }
}

impl Ty<SemId> {
    /// The semantic id of the type with no name. The nested types of a type built
    /// over semantic ids are never inline, so no newtype is looked through.
    pub fn sem_id_unnamed(&self) -> (id: SemId)
        ensures
            id@ == spec_sem_id(None, self.sem_commitment()),
    {
        self.sem_id_inner(None)
    }
}

/// Whether two semantic ids are the same.
pub fn sem_id_eq(a: &SemId, b: &SemId) -> (eq: bool)
    ensures
        eq == (a@ == b@),
{
    crate::ident::bytes_eq(a.0.as_slice(), b.0.as_slice())
}

impl SemId {
    /// The semantic id of the unit type.
    pub fn unit() -> (id: SemId)
        ensures
            id@ == spec_sem_id(None, primitive_commitment(crate::primitive::constants::UNIT)),
    {
        let ty: Ty<SemId> = Ty::unit();
        let id = ty.sem_id_unnamed();
        assert(ty.sem_commitment() =~= primitive_commitment(crate::primitive::constants::UNIT));
        id
    }

    /// The semantic id of the byte type.
    pub fn byte() -> (id: SemId)
        ensures
            id@ == spec_byte_id(),
    {
        let ty: Ty<SemId> = Ty::byte();
        let id = ty.sem_id_unnamed();
        assert(ty.sem_commitment() =~= primitive_commitment(BYTE));
        id
    }

    /// The semantic id of the unicode character type.
    pub fn unicode_char() -> (id: SemId)
        ensures
            id@ == spec_unicode_id(),
    {
        let ty: Ty<SemId> = Ty::UnicodeChar;
        let id = ty.sem_id_unnamed();
        assert(ty.sem_commitment() =~= seq![1u8]);
        id
    }

    fn u8_id() -> (id: SemId)
        ensures
            id@ == spec_u8_id(),
    {
        let ty: Ty<SemId> = Ty::u8();
        let id = ty.sem_id_unnamed();
        assert(ty.sem_commitment() =~= primitive_commitment(U8));
        id
    }
}

impl Default for SemId {
    /// The semantic id of the unit type.
    fn default() -> (id: SemId)
        ensures
            id@ == spec_sem_id(None, primitive_commitment(crate::primitive::constants::UNIT)),
    {
        SemId::unit()
    }
}

impl TypeRef for SemId {
    open spec fn spec_is_compound(&self) -> bool {
        false
    }

    open spec fn spec_is_byte(&self) -> bool {
        self@ == spec_byte_id() || self@ == spec_u8_id()
    }

    open spec fn spec_is_unicode_char(&self) -> bool {
        self@ == spec_unicode_id()
    }

    open spec fn spec_is_char_enum(&self) -> bool {
        false
    }

    open spec fn spec_as_ty(&self) -> Option<Ty<SemId>> {
        None
    }

    fn is_compound(&self) -> (r: bool) {
        false
    }

    fn is_byte(&self) -> (r: bool) {
        sem_id_eq(&SemId::byte(), self) || sem_id_eq(&SemId::u8_id(), self)
    }

    fn is_unicode_char(&self) -> (r: bool) {
        sem_id_eq(&SemId::unicode_char(), self)
    }

    fn is_char_enum(&self) -> (r: bool) {
        false
    }

    fn as_ty(&self) -> (r: Option<&Ty<SemId>>) {
        None
    }
}

/// References that can stand for the built-in byte and character types.
pub trait PrimitiveRef: TypeRef {
    fn byte() -> Self;

    fn unicode_char() -> Self;
}

impl PrimitiveRef for SemId {
    fn byte() -> (id: SemId)
        ensures
            id@ == spec_byte_id(),
    {
        SemId::byte()
    }

    fn unicode_char() -> (id: SemId)
        ensures
            id@ == spec_unicode_id(),
    {
        SemId::unicode_char()
    }
}

// ----- Laws of semantic ids -----

/// The twice-hashed tag that every semantic id starts from.
pub open spec fn sem_id_prefix() -> Seq<u8> {
    sha256(sem_id_tag()) + sha256(sem_id_tag())
}

/// What a semantic id hashes: twice the SHA-256 hash of the tag, then, for a named
/// type, the length of the name as one byte and the bytes of the name, then the
/// commitment of the type. For one commitment, two different names give different
/// hashed data, and so does a name against no name.
pub proof fn lemma_sem_id_input(n1: Seq<u8>, n2: Seq<u8>, c: Seq<u8>)
    requires
        n1.len() < 256,
        n2.len() < 256,
    ensures
        spec_sem_id(Some(n1), c) == sha256(sem_id_prefix() + seq![n1.len() as u8] + n1 + c),
        spec_sem_id(None, c) == sha256(sem_id_prefix() + c),
        n1 != n2 ==> sem_id_prefix() + seq![n1.len() as u8] + n1 + c != sem_id_prefix() + seq![n2.len() as u8] + n2 + c,
        sem_id_prefix() + seq![n1.len() as u8] + n1 + c != sem_id_prefix() + c,
{
    let pre = sem_id_prefix();
    let tag = sha256(sem_id_tag());
    assert(tag + tag + name_commitment(n1) + c =~= pre + seq![n1.len() as u8] + n1 + c);
    assert(tag + tag + Seq::<u8>::empty() + c =~= pre + c);
    let a = pre + seq![n1.len() as u8] + n1 + c;
    let b = pre + seq![n2.len() as u8] + n2 + c;
    assert(a =~= pre + (seq![n1.len() as u8] + n1 + c));
    assert(b =~= pre + (seq![n2.len() as u8] + n2 + c));
    if n1 != n2 && a == b {
        let k: int = pre.len() as int;
        assert(a[k] == n1.len() as u8);
        assert(b[k] == n2.len() as u8);
        assert(n1.len() == n2.len());
        assert forall|j: int| 0 <= j < n1.len() implies n1[j] == n2[j] by {
            assert(a[k + 1 + j] == n1[j]);
            assert(b[k + 1 + j] == n2[j]);
        }
        assert(n1 =~= n2);
    }
    assert((pre + c).len() < a.len());
}

/// An array type commits to the class code 7, the id of its item type, then its
/// length as two little-endian bytes, in three calls; so arrays of one item type
/// with different lengths have different commitments, and their ids hash different
/// data.
pub proof fn lemma_array_commitment(r: SemId, n: u16, m: u16)
    ensures
        Ty::<SemId>::Array(r, n).sem_commitment() == seq![7u8] + r@ + seq![(n % 256) as u8, (n / 256) as u8],
        Ty::<SemId>::Array(r, n).sem_calls() == seq![seq![7u8], r@, seq![(n % 256) as u8, (n / 256) as u8]],
        spec_sem_id(None, Ty::<SemId>::Array(r, n).sem_commitment()) == sha256(
            sem_id_prefix() + seq![7u8] + r@ + seq![(n % 256) as u8, (n / 256) as u8],
        ),
        n != m ==> Ty::<SemId>::Array(r, n).sem_commitment() != Ty::<SemId>::Array(r, m).sem_commitment(),
{
    reveal_with_fuel(le_bytes, 3);
    assert(le_bytes(n as nat, 2) =~= seq![(n % 256) as u8, (n / 256) as u8]);
    assert(le_bytes(m as nat, 2) =~= seq![(m % 256) as u8, (m / 256) as u8]);
    let cn = Ty::<SemId>::Array(r, n).sem_commitment();
    let cm = Ty::<SemId>::Array(r, m).sem_commitment();
    assert(cn =~= seq![7u8] + r@ + seq![(n % 256) as u8, (n / 256) as u8]);
    assert(cm =~= seq![7u8] + r@ + seq![(m % 256) as u8, (m / 256) as u8]);
    let tag = sha256(sem_id_tag());
    assert(tag + tag + Seq::<u8>::empty() + cn =~= sem_id_prefix() + seq![7u8] + r@ + seq![
        (n % 256) as u8,
        (n / 256) as u8,
    ]);
    assert(Ty::<SemId>::Array(r, n).sem_calls() =~= seq![seq![7u8], r@, seq![(n % 256) as u8, (n / 256) as u8]]);
    if n != m && cn == cm {
        let k: int = 1 + r@.len() as int;
        assert(cn[k] == (n % 256) as u8);
        assert(cm[k] == (m % 256) as u8);
        assert(cn[k + 1] == (n / 256) as u8);
        assert(cm[k + 1] == (m / 256) as u8);
        assert(n == 256 * (n / 256) + n % 256);
        assert(m == 256 * (m / 256) + m % 256);
    }
}

/// The commitments of the types whose class holds plain values: a primitive commits
/// to 0 and its code, the unicode character to 1, a list, a set and a map to 8, 9
/// and 10, then the ids of their item types (the key first for a map), then the
/// minimum and the maximum of their size bounds as eight little-endian bytes each.
pub proof fn lemma_plain_commitments(t: Ty<SemId>)
    ensures
        match t {
            Ty::Primitive(p) => t.sem_commitment() == seq![0u8, p.0],
            Ty::UnicodeChar => t.sem_commitment() == seq![1u8],
            Ty::List(r, s) => t.sem_commitment() == seq![8u8] + r@ + le_bytes(s.min as nat, 8) + le_bytes(
                s.max as nat,
                8,
            ),
            Ty::SetOf(r, s) => t.sem_commitment() == seq![9u8] + r@ + le_bytes(s.min as nat, 8) + le_bytes(
                s.max as nat,
                8,
            ),
            Ty::MapOf(k, v, s) => t.sem_commitment() == seq![10u8] + k@ + v@ + le_bytes(s.min as nat, 8)
                + le_bytes(s.max as nat, 8),
            _ => true,
        },
{
    match t {
        Ty::Primitive(p) => assert(t.sem_commitment() =~= seq![0u8, p.0]),
        Ty::UnicodeChar => assert(t.sem_commitment() =~= seq![1u8]),
        Ty::List(r, s) => assert(t.sem_commitment() =~= seq![8u8] + r@ + le_bytes(s.min as nat, 8) + le_bytes(
            s.max as nat,
            8,
        )),
        Ty::SetOf(r, s) => assert(t.sem_commitment() =~= seq![9u8] + r@ + le_bytes(s.min as nat, 8) + le_bytes(
            s.max as nat,
            8,
        )),
        Ty::MapOf(k, v, s) => assert(t.sem_commitment() =~= seq![10u8] + k@ + v@ + le_bytes(s.min as nat, 8)
            + le_bytes(s.max as nat, 8)),
        _ => {},
    }
}

} // verus!
