use vstd::prelude::*;

use crate::collection::ConfinementError;
use crate::ident::{bytes_eq, FieldName, VariantName};
use crate::primitive::constants::{BYTE, U8};
use crate::primitive::Primitive;
use crate::util::Sizing;

verus! {

/// Maximal number of variants or fields in a type.
pub const MAX_ITEMS: usize = 255;

/// Class of a type: which constructor of the type AST it is built with.
#[derive(Copy, Clone, PartialEq, Eq, Debug, Structural)]
pub enum Cls {
    Primitive,
    Unicode,
    AsciiStr,
    Enum,
    Union,
    Struct,
    Tuple,
    Array,
    List,
    SetOf,
    MapOf,
}

impl Cls {
    /// The byte that stands for the class in encodings and commitments.
    pub open spec fn code(self) -> u8 {
        match self {
            Cls::Primitive => 0,
            Cls::Unicode => 1,
            Cls::AsciiStr => 2,
            Cls::Enum => 3,
            Cls::Union => 4,
            Cls::Struct => 5,
            Cls::Tuple => 6,
            Cls::Array => 7,
            Cls::List => 8,
            Cls::SetOf => 9,
            Cls::MapOf => 10,
        }
    }

    pub fn into_u8(self) -> (code: u8)
        ensures
            code == self.code(),
    {
        match self {
            Cls::Primitive => 0,
            Cls::Unicode => 1,
            Cls::AsciiStr => 2,
            Cls::Enum => 3,
            Cls::Union => 4,
            Cls::Struct => 5,
            Cls::Tuple => 6,
            Cls::Array => 7,
            Cls::List => 8,
            Cls::SetOf => 9,
            Cls::MapOf => 10,
        }
    }

    /// The class with the given code; the code itself when there is none.
    pub fn try_from_u8(value: u8) -> (res: Result<Cls, u8>)
        ensures
            value <= 10 ==> (res matches Ok(cls) && cls.code() == value),
            value > 10 ==> res == Err::<Cls, u8>(value),
    {
        match value {
            0 => Ok(Cls::Primitive),
            1 => Ok(Cls::Unicode),
            2 => Ok(Cls::AsciiStr),
            3 => Ok(Cls::Enum),
            4 => Ok(Cls::Union),
            5 => Ok(Cls::Struct),
            6 => Ok(Cls::Tuple),
            7 => Ok(Cls::Array),
            8 => Ok(Cls::List),
            9 => Ok(Cls::SetOf),
            10 => Ok(Cls::MapOf),
            _ => Err(value),
        }
    }
}

/// Distinct classes have distinct codes.
pub proof fn lemma_cls_code_injective(a: Cls, b: Cls)
    ensures
        a.code() == b.code() ==> a == b,
{
}

/// A named and tagged variant of an enum or a union.
#[derive(Debug)]
pub struct Variant {
    pub name: VariantName,
    pub tag: u8,
}

impl View for Variant {
    type V = (Seq<u8>, u8);

    open spec fn view(&self) -> (Seq<u8>, u8) {
        (self.name@, self.tag)
    }
}

impl Clone for Variant {
    fn clone(&self) -> (c: Self)
        ensures
            c@ == self@,
    {
        Variant { name: self.name.clone(), tag: self.tag }
    }
}

/// Two variants clash when they share the tag or the name: a type can't hold both.
pub open spec fn variants_clash(a: (Seq<u8>, u8), b: (Seq<u8>, u8)) -> bool {
    a.1 == b.1 || a.0 == b.0
}

/// Variants sorted by strictly growing tags and with pairwise distinct names.
pub open spec fn wf_variants(s: Seq<(Seq<u8>, u8)>) -> bool {
    forall|i: int, j: int| 0 <= i < j < s.len() ==> s[i].1 < s[j].1 && s[i].0 != s[j].0
}

/// Number of variants in `s` with a tag below `tag`.
pub open spec fn insert_pos(s: Seq<(Seq<u8>, u8)>, tag: u8) -> int
    decreases s.len(),
{
    if s.len() == 0 {
        0
    } else if s[0].1 < tag {
        1 + insert_pos(s.drop_first(), tag)
    } else {
        0
    }
}

/// Whether `v` clashes with one of the variants of `s`.
pub open spec fn clashes_any(s: Seq<(Seq<u8>, u8)>, v: (Seq<u8>, u8)) -> bool {
    exists|i: int| 0 <= i < s.len() && variants_clash(#[trigger] s[i], v)
}

proof fn lemma_insert_pos(s: Seq<(Seq<u8>, u8)>, tag: u8)
    requires
        wf_variants(s),
    ensures
        0 <= insert_pos(s, tag) <= s.len(),
        forall|i: int| 0 <= i < insert_pos(s, tag) ==> (#[trigger] s[i]).1 < tag,
        forall|i: int| insert_pos(s, tag) <= i < s.len() ==> (#[trigger] s[i]).1 >= tag,
    decreases s.len(),
{
    if s.len() > 0 {
        lemma_insert_pos(s.drop_first(), tag);
        assert forall|i: int| 0 <= i < insert_pos(s, tag) implies (#[trigger] s[i]).1 < tag by {
            if i > 0 {
                assert(s[i] == s.drop_first()[i - 1]);
            }
        }
        assert forall|i: int| insert_pos(s, tag) <= i < s.len() implies (#[trigger] s[i]).1 >= tag by {
            if i > 0 {
                assert(s[i] == s.drop_first()[i - 1]);
                if s[0].1 >= tag {
                    assert(s[0].1 < s[i].1);
                }
            }
        }
    }
}

/// Inserting a variant which clashes with none keeps the variants well-formed.
proof fn lemma_insert_wf(s: Seq<(Seq<u8>, u8)>, v: (Seq<u8>, u8))
    requires
        wf_variants(s),
        !clashes_any(s, v),
    ensures
        wf_variants(s.insert(insert_pos(s, v.1), v)),
{
    lemma_insert_pos(s, v.1);
    let p = insert_pos(s, v.1);
    let t = s.insert(p, v);
    assert forall|i: int, j: int| 0 <= i < j < t.len() implies t[i].1 < t[j].1 && t[i].0 != t[j].0 by {
        if i < p && j == p {
            assert(!variants_clash(s[i], v));
        } else if i == p && j > p {
            assert(!variants_clash(s[j - 1], v));
            assert(s[j - 1].1 >= v.1);
        } else if i < p && j > p {
            assert(t[j] == s[j - 1]);
        } else if i > p {
            assert(t[i] == s[i - 1] && t[j] == s[j - 1]);
        }
    }
}

/// Index of the variant with the given tag in `s`.
pub open spec fn index_of_tag(s: Seq<(Seq<u8>, u8)>, tag: u8) -> Option<int> {
    if exists|i: int| 0 <= i < s.len() && (#[trigger] s[i]).1 == tag {
        Some(choose|i: int| 0 <= i < s.len() && (#[trigger] s[i]).1 == tag)
    } else {
        None
    }
}

/// Index of the variant with the given name in `s`.
pub open spec fn index_of_name(s: Seq<(Seq<u8>, u8)>, name: Seq<u8>) -> Option<int> {
    if exists|i: int| 0 <= i < s.len() && (#[trigger] s[i]).0 == name {
        Some(choose|i: int| 0 <= i < s.len() && (#[trigger] s[i]).0 == name)
    } else {
        None
    }
}

/// An optional index as a machine-sized index.
pub open spec fn opt_usize(o: Option<int>) -> Option<usize> {
    match o {
        Some(i) => Some(i as usize),
        None => None,
    }
}

/// Finds the position of the variant with `tag`.
fn find_tag(vars: &Vec<Variant>, tag: u8) -> (r: Option<usize>)
    requires
        wf_variants(vars@.map_values(|v: Variant| v@)),
    ensures
        r == opt_usize(index_of_tag(vars@.map_values(|v: Variant| v@), tag)),
        r matches Some(i) ==> i < vars@.len() && vars@[i as int].tag == tag,
{
    let ghost s = vars@.map_values(|v: Variant| v@);
    let mut i: usize = 0;
    while i < vars.len()
        invariant
            i <= vars@.len(),
            s == vars@.map_values(|v: Variant| v@),
            wf_variants(s),
            forall|j: int| 0 <= j < i ==> (#[trigger] s[j]).1 != tag,
        decreases vars@.len() - i,
    {
        if vars[i].tag == tag {
            proof {
                assert(s[i as int].1 == tag);
                let k = choose|k: int| 0 <= k < s.len() && (#[trigger] s[k]).1 == tag;
                if k < i {
                    assert(s[k].1 < s[i as int].1);
                } else if k > i {
                    assert(s[i as int].1 < s[k].1);
                }
            }
            return Some(i);
        }
        i = i + 1;
    }
    None
}

/// Finds the position of the variant with `name`.
fn find_name(vars: &Vec<Variant>, name: &[u8]) -> (r: Option<usize>)
    requires
        wf_variants(vars@.map_values(|v: Variant| v@)),
    ensures
        r == opt_usize(index_of_name(vars@.map_values(|v: Variant| v@), name@)),
        r matches Some(i) ==> i < vars@.len() && vars@[i as int].name@ == name@,
{
    let ghost s = vars@.map_values(|v: Variant| v@);
    let mut i: usize = 0;
    while i < vars.len()
        invariant
            i <= vars@.len(),
            s == vars@.map_values(|v: Variant| v@),
            wf_variants(s),
            forall|j: int| 0 <= j < i ==> (#[trigger] s[j]).0 != name@,
        decreases vars@.len() - i,
    {
        if bytes_eq(vars[i].name.as_bytes(), name) {
            proof {
                assert(s[i as int].0 == name@);
                let k = choose|k: int| 0 <= k < s.len() && (#[trigger] s[k]).0 == name@;
                if k < i {
                    assert(s[k].0 != s[i as int].0);
                } else if k > i {
                    assert(s[i as int].0 != s[k].0);
                }
            }
            return Some(i);
        }
        i = i + 1;
    }
    None
}

/// The variants of an enum: one to 255 variants, sorted by tag, with distinct tags and
/// names.
#[derive(Debug)]
pub struct EnumVariants {
    vars: Vec<Variant>,
}

impl View for EnumVariants {
    type V = Seq<(Seq<u8>, u8)>;

    closed spec fn view(&self) -> Seq<(Seq<u8>, u8)> {
        self.vars@.map_values(|v: Variant| v@)
    }
}

impl EnumVariants {
    #[verifier::type_invariant]
    spec fn inv(self) -> bool {
        &&& 1 <= self.vars@.len() <= MAX_ITEMS
        &&& wf_variants(self.vars@.map_values(|v: Variant| v@))
    }

    /// Every enum has one to 255 well-formed variants.
    pub fn check_wf(&self)
        ensures
            1 <= self@.len() <= MAX_ITEMS,
            wf_variants(self@),
    {
        proof {
            use_type_invariant(self);
        }
    }

    /// Enum variants out of one to 255 well-formed variants.
    pub(crate) fn from_sorted(vars: Vec<Variant>) -> (r: EnumVariants)
        requires
            1 <= vars@.len() <= MAX_ITEMS,
            wf_variants(vars@.map_values(|v: Variant| v@)),
        ensures
            r@ == vars@.map_values(|v: Variant| v@),
    {
        EnumVariants { vars }
    }

    /// An enum with a single variant.
    pub fn with(variant: Variant) -> (vars: EnumVariants)
        ensures
            vars@ == seq![variant@],
    {
        let ghost v = variant@;
        let vars = EnumVariants { vars: vec![variant] };
        assert(vars.vars@.map_values(|v: Variant| v@) =~= seq![v]);
        vars
    }

    /// Adds a variant. Fails when the enum already holds 255 variants; otherwise returns
    /// whether the variant was added, which it is unless it clashes with one present.
    pub fn insert(&mut self, variant: Variant) -> (res: Result<bool, ConfinementError>)
        ensures
            old(self)@.len() == MAX_ITEMS ==> res == Err::<bool, ConfinementError>(
                ConfinementError::Oversize { len: (MAX_ITEMS + 1) as usize, max_len: MAX_ITEMS },
            ) && final(self)@ == old(self)@,
            old(self)@.len() < MAX_ITEMS && clashes_any(old(self)@, variant@) ==> res == Ok::<bool, ConfinementError>(false)
                && final(self)@ == old(self)@,
            old(self)@.len() < MAX_ITEMS && !clashes_any(old(self)@, variant@) ==> res == Ok::<bool, ConfinementError>(true)
                && final(self)@ == old(self)@.insert(insert_pos(old(self)@, variant.tag), variant@),
    {
        proof {
            use_type_invariant(&*self);
        }
        if self.vars.len() >= MAX_ITEMS {
            return Err(ConfinementError::Oversize { len: MAX_ITEMS + 1, max_len: MAX_ITEMS });
        }
        let pos = match position_for(&self.vars, &variant) {
            Some(pos) => pos,
            None => return Ok(false),
        };
        let ghost s = self@;
        proof {
            lemma_insert_wf(s, variant@);
            lemma_insert_pos(s, variant.tag);
        }
        let ghost v = variant@;
        let mut vars = vec![self.vars[0].clone()];
        assert(vars@.map_values(|v: Variant| v@) =~= seq![s[0]]);
        std::mem::swap(&mut vars, &mut self.vars);
        assert(vars@.map_values(|v: Variant| v@) == s);
        vars.insert(pos, variant);
        assert(vars@.map_values(|v: Variant| v@) =~= s.insert(pos as int, v));
        std::mem::swap(&mut vars, &mut self.vars);
        Ok(true)
    }

    pub fn len(&self) -> (len: usize)
        ensures
            len == self@.len(),
    {
        self.vars.len()
    }

    pub fn get(&self, pos: usize) -> (v: Option<&Variant>)
        ensures
            pos < self@.len() ==> (v matches Some(var) && var@ == self@[pos as int]),
            pos >= self@.len() ==> v is None,
    {
        if pos < self.vars.len() {
            Some(&self.vars[pos])
        } else {
            None
        }
    }

    pub fn into_inner(self) -> (vars: Vec<Variant>)
        ensures
            vars@.map_values(|v: Variant| v@) == self@,
    {
        self.vars
    }

    pub fn tag_by_name(&self, name: &VariantName) -> (tag: Option<u8>)
        ensures
            tag matches Some(t) ==> index_of_name(self@, name@) matches Some(i) && t == self@[i].1,
            tag is None ==> index_of_name(self@, name@) is None,
    {
        proof {
            use_type_invariant(self);
        }
        match find_name(&self.vars, name.as_bytes()) {
            Some(i) => Some(self.vars[i].tag),
            None => None,
        }
    }

    pub fn name_by_tag(&self, tag: u8) -> (name: Option<&VariantName>)
        ensures
            name matches Some(n) ==> index_of_tag(self@, tag) matches Some(i) && n@ == self@[i].0,
            name is None ==> index_of_tag(self@, tag) is None,
    {
        proof {
            use_type_invariant(self);
        }
        match find_tag(&self.vars, tag) {
            Some(i) => Some(&self.vars[i].name),
            None => None,
        }
    }

    pub fn has_tag(&self, tag: u8) -> (r: bool)
        ensures
            r == (index_of_tag(self@, tag) is Some),
    {
        proof {
            use_type_invariant(self);
        }
        find_tag(&self.vars, tag).is_some()
    }

    pub fn has_name(&self, name: &VariantName) -> (r: bool)
        ensures
            r == (index_of_name(self@, name@) is Some),
    {
        proof {
            use_type_invariant(self);
        }
        find_name(&self.vars, name.as_bytes()).is_some()
    }

    pub fn by_tag(&self, tag: u8) -> (v: Option<&Variant>)
        ensures
            v matches Some(var) ==> index_of_tag(self@, tag) matches Some(i) && var@ == self@[i],
            v is None ==> index_of_tag(self@, tag) is None,
    {
        proof {
            use_type_invariant(self);
        }
        match find_tag(&self.vars, tag) {
            Some(i) => Some(&self.vars[i]),
            None => None,
        }
    }

    pub fn by_name(&self, name: &VariantName) -> (v: Option<&Variant>)
        ensures
            v matches Some(var) ==> index_of_name(self@, name@) matches Some(i) && var@ == self@[i],
            v is None ==> index_of_name(self@, name@) is None,
    {
        proof {
            use_type_invariant(self);
        }
        match find_name(&self.vars, name.as_bytes()) {
            Some(i) => Some(&self.vars[i]),
            None => None,
        }
    }
}

/// The position at which `variant` goes into the sorted variants, or `None` when it
/// clashes with one of them.
fn position_for(vars: &Vec<Variant>, variant: &Variant) -> (r: Option<usize>)
    requires
        wf_variants(vars@.map_values(|v: Variant| v@)),
    ensures
        r is None <==> clashes_any(vars@.map_values(|v: Variant| v@), variant@),
        r matches Some(p) ==> p == insert_pos(vars@.map_values(|v: Variant| v@), variant.tag),
{
    let ghost s = vars@.map_values(|v: Variant| v@);
    proof {
        lemma_insert_pos(s, variant.tag);
    }
    let mut i: usize = 0;
    let mut pos: usize = 0;
    while i < vars.len()
        invariant
            i <= vars@.len(),
            s == vars@.map_values(|v: Variant| v@),
            wf_variants(s),
            pos == (if i <= insert_pos(s, variant.tag) { i as int } else { insert_pos(s, variant.tag) }),
            0 <= insert_pos(s, variant.tag) <= s.len(),
            forall|j: int| 0 <= j < insert_pos(s, variant.tag) ==> (#[trigger] s[j]).1 < variant.tag,
            forall|j: int| insert_pos(s, variant.tag) <= j < s.len() ==> (#[trigger] s[j]).1 >= variant.tag,
            forall|j: int| 0 <= j < i ==> !variants_clash(#[trigger] s[j], variant@),
        decreases vars@.len() - i,
    {
        let cur = &vars[i];
        assert(s[i as int] == cur@);
        if cur.tag == variant.tag || bytes_eq(cur.name.as_bytes(), variant.name.as_bytes()) {
            assert(variants_clash(s[i as int], variant@));
            return None;
        }
        if cur.tag < variant.tag {
            pos = i + 1;
        }
        i = i + 1;
    }
    Some(pos)
}

} // verus!

verus! {

/// Variants and the types they carry, side by side.
#[derive(Debug)]
struct VariantTys<Ref> {
    vars: Vec<Variant>,
    tys: Vec<Ref>,
}

/// The variants of a union with the types they carry: one to 255 variants, sorted by
/// tag, with distinct tags and names.
#[derive(Debug)]
pub struct UnionVariants<Ref> {
    items: VariantTys<Ref>,
}

impl<Ref> UnionVariants<Ref> {
    #[verifier::type_invariant]
    spec fn inv(self) -> bool {
        &&& 1 <= self.items.vars@.len() <= MAX_ITEMS
        &&& self.items.tys@.len() == self.items.vars@.len()
        &&& wf_variants(self.items.vars@.map_values(|v: Variant| v@))
    }

    /// The variants, in the order of their tags.
    pub closed spec fn spec_variants(&self) -> Seq<(Seq<u8>, u8)> {
        self.items.vars@.map_values(|v: Variant| v@)
    }

    /// The types carried by the variants, in the same order.
    pub closed spec fn spec_tys(&self) -> Seq<Ref> {
        self.items.tys@
    }

    /// Every union has one to 255 well-formed variants, each with a type.
    pub fn check_wf(&self)
        ensures
            1 <= self.spec_variants().len() <= MAX_ITEMS,
            self.spec_tys().len() == self.spec_variants().len(),
            wf_variants(self.spec_variants()),
    {
        proof {
            use_type_invariant(self);
        }
    }

    /// Union variants out of one to 255 well-formed variants and their types.
    pub(crate) fn from_sorted(vars: Vec<Variant>, tys: Vec<Ref>) -> (u: UnionVariants<Ref>)
        requires
            1 <= vars@.len() <= MAX_ITEMS,
            tys@.len() == vars@.len(),
            wf_variants(vars@.map_values(|v: Variant| v@)),
        ensures
            u.spec_variants() == vars@.map_values(|v: Variant| v@),
            u.spec_tys() == tys@,
    {
        UnionVariants { items: VariantTys { vars, tys } }
    }

    /// A union with a single variant.
    pub fn with(variant: Variant, ty: Ref) -> (u: UnionVariants<Ref>)
        ensures
            u.spec_variants() == seq![variant@],
            u.spec_tys() == seq![ty],
    {
        let ghost v = variant@;
        let u = UnionVariants { items: VariantTys { vars: vec![variant], tys: vec![ty] } };
        assert(u.items.vars@.map_values(|v: Variant| v@) =~= seq![v]);
        u
    }
}

impl<Ref: Clone> UnionVariants<Ref> {
    /// Adds a variant with its type. Fails when the union already holds 255 variants.
    /// A variant which clashes with one present is not added, and its type is handed
    /// back.
    pub fn insert(&mut self, variant: Variant, ty: Ref) -> (res: Result<Option<Ref>, ConfinementError>)
        ensures
            old(self).spec_variants().len() == MAX_ITEMS ==> res == Err::<Option<Ref>, ConfinementError>(
                ConfinementError::Oversize { len: (MAX_ITEMS + 1) as usize, max_len: MAX_ITEMS })
                && final(self).spec_variants() == old(self).spec_variants()
                && final(self).spec_tys() == old(self).spec_tys(),
            old(self).spec_variants().len() < MAX_ITEMS && clashes_any(old(self).spec_variants(), variant@)
                ==> res == Ok::<Option<Ref>, ConfinementError>(Some(ty))
                && final(self).spec_variants() == old(self).spec_variants()
                && final(self).spec_tys() == old(self).spec_tys(),
            old(self).spec_variants().len() < MAX_ITEMS && !clashes_any(old(self).spec_variants(), variant@)
                ==> res == Ok::<Option<Ref>, ConfinementError>(None)
                && final(self).spec_variants() == old(self).spec_variants().insert(
                insert_pos(old(self).spec_variants(), variant.tag),
                variant@,
            ) && final(self).spec_tys() == old(self).spec_tys().insert(
                insert_pos(old(self).spec_variants(), variant.tag),
                ty,
            ),
    {
        proof {
            use_type_invariant(&*self);
        }
        if self.items.vars.len() >= MAX_ITEMS {
            return Err(ConfinementError::Oversize { len: MAX_ITEMS + 1, max_len: MAX_ITEMS });
        }
        let pos = match position_for(&self.items.vars, &variant) {
            Some(pos) => pos,
            None => return Ok(Some(ty)),
        };
        let ghost s = self.spec_variants();
        let ghost t = self.items.tys@;
        proof {
            lemma_insert_wf(s, variant@);
            lemma_insert_pos(s, variant.tag);
        }
        let ghost v = variant@;
        let mut items = VariantTys { vars: vec![self.items.vars[0].clone()], tys: vec![self.items.tys[0].clone()] };
        assert(items.vars@.map_values(|v: Variant| v@) =~= seq![s[0]]);
        std::mem::swap(&mut items, &mut self.items);
        assert(items.vars@.map_values(|v: Variant| v@) == s);
        items.vars.insert(pos, variant);
        items.tys.insert(pos, ty);
        assert(items.vars@.map_values(|v: Variant| v@) =~= s.insert(pos as int, v));
        std::mem::swap(&mut items, &mut self.items);
        Ok(None)
    }
}

} // verus!

verus! {

impl<Ref> UnionVariants<Ref> {
    pub fn len(&self) -> (len: usize)
        ensures
            len == self.spec_variants().len(),
    {
        self.items.vars.len()
    }

    /// The variant at position `pos`, in the order of tags, with its type.
    pub fn get(&self, pos: usize) -> (r: Option<(&Variant, &Ref)>)
        ensures
            pos < self.spec_variants().len() ==> (r matches Some(p) && p.0@ == self.spec_variants()[pos as int]
                && *p.1 == self.spec_tys()[pos as int]),
            pos >= self.spec_variants().len() ==> r is None,
    {
        proof {
            use_type_invariant(self);
        }
        if pos < self.items.vars.len() {
            Some((&self.items.vars[pos], &self.items.tys[pos]))
        } else {
            None
        }
    }

    /// The variant with the lowest tag.
    pub fn unwrap_first(&self) -> (v: &Variant)
        ensures
            v@ == self.spec_variants()[0],
    {
        proof {
            use_type_invariant(self);
        }
        &self.items.vars[0]
    }

    /// The variant with the highest tag.
    pub fn unwrap_last(&self) -> (v: &Variant)
        ensures
            v@ == self.spec_variants()[self.spec_variants().len() - 1],
    {
        proof {
            use_type_invariant(self);
        }
        &self.items.vars[self.items.vars.len() - 1]
    }

    pub fn into_keys(self) -> (vars: Vec<Variant>)
        ensures
            vars@.map_values(|v: Variant| v@) == self.spec_variants(),
    {
        self.items.vars
    }

    /// The variants and their types, in the order of tags.
    pub(crate) fn into_parts(self) -> (parts: (Vec<Variant>, Vec<Ref>))
        ensures
            parts.0@.map_values(|v: Variant| v@) == self.spec_variants(),
            parts.1@ == self.spec_tys(),
            1 <= parts.0@.len() <= MAX_ITEMS,
            parts.1@.len() == parts.0@.len(),
            wf_variants(self.spec_variants()),
    {
        proof {
            use_type_invariant(&self);
        }
        (self.items.vars, self.items.tys)
    }

    pub fn into_values(self) -> (tys: Vec<Ref>)
        ensures
            tys@ == self.spec_tys(),
    {
        self.items.tys
    }

    /// The variants with their types, in the order of tags.
    pub fn into_inner(self) -> (pairs: Vec<(Variant, Ref)>)
        ensures
            pairs@.len() == self.spec_variants().len(),
            forall|i: int| 0 <= i < pairs@.len() ==> (#[trigger] pairs@[i]).0@ == self.spec_variants()[i]
                && pairs@[i].1 == self.spec_tys()[i],
    {
        proof {
            use_type_invariant(&self);
        }
        let ghost vs = self.spec_variants();
        let ghost ts = self.spec_tys();
        let VariantTys { mut vars, mut tys } = self.items;
        let mut pairs: Vec<(Variant, Ref)> = Vec::new();
        let n = vars.len();
        while vars.len() > 0
            invariant
                vars@.len() == tys@.len(),
                pairs@.len() + vars@.len() == n,
                n == vs.len(),
                ts.len() == n,
                forall|i: int| 0 <= i < vars@.len() ==> (#[trigger] vars@[i])@ == vs[pairs@.len() + i]
                    && tys@[i] == ts[pairs@.len() + i],
                forall|i: int| 0 <= i < pairs@.len() ==> (#[trigger] pairs@[i]).0@ == vs[i] && pairs@[i].1
                    == ts[i],
            decreases vars@.len(),
        {
            let v = vars.remove(0);
            let t = tys.remove(0);
            pairs.push((v, t));
        }
        pairs
    }

    pub fn has_tag(&self, tag: u8) -> (r: bool)
        ensures
            r == (index_of_tag(self.spec_variants(), tag) is Some),
    {
        proof {
            use_type_invariant(self);
        }
        find_tag(&self.items.vars, tag).is_some()
    }

    pub fn by_tag(&self, tag: u8) -> (r: Option<(&Variant, &Ref)>)
        ensures
            r matches Some(p) ==> index_of_tag(self.spec_variants(), tag) matches Some(i) && p.0@
                == self.spec_variants()[i] && *p.1 == self.spec_tys()[i],
            r is None ==> index_of_tag(self.spec_variants(), tag) is None,
    {
        proof {
            use_type_invariant(self);
        }
        match find_tag(&self.items.vars, tag) {
            Some(i) => Some((&self.items.vars[i], &self.items.tys[i])),
            None => None,
        }
    }

    pub fn by_name(&self, name: &VariantName) -> (r: Option<(&Variant, &Ref)>)
        ensures
            r matches Some(p) ==> index_of_name(self.spec_variants(), name@) matches Some(i) && p.0@
                == self.spec_variants()[i] && *p.1 == self.spec_tys()[i],
            r is None ==> index_of_name(self.spec_variants(), name@) is None,
    {
        proof {
            use_type_invariant(self);
        }
        match find_name(&self.items.vars, name.as_bytes()) {
            Some(i) => Some((&self.items.vars[i], &self.items.tys[i])),
            None => None,
        }
    }

    pub fn ty_by_name(&self, name: &VariantName) -> (r: Option<&Ref>)
        ensures
            r matches Some(t) ==> index_of_name(self.spec_variants(), name@) matches Some(i) && *t
                == self.spec_tys()[i],
            r is None ==> index_of_name(self.spec_variants(), name@) is None,
    {
        proof {
            use_type_invariant(self);
        }
        match find_name(&self.items.vars, name.as_bytes()) {
            Some(i) => Some(&self.items.tys[i]),
            None => None,
        }
    }

    pub fn ty_by_tag(&self, tag: u8) -> (r: Option<&Ref>)
        ensures
            r matches Some(t) ==> index_of_tag(self.spec_variants(), tag) matches Some(i) && *t
                == self.spec_tys()[i],
            r is None ==> index_of_tag(self.spec_variants(), tag) is None,
    {
        proof {
            use_type_invariant(self);
        }
        match find_tag(&self.items.vars, tag) {
            Some(i) => Some(&self.items.tys[i]),
            None => None,
        }
    }

    /// The type of the variant at position `pos`, in the order of tags.
    pub fn ty_by_pos(&self, pos: u8) -> (r: Option<&Ref>)
        ensures
            pos < self.spec_tys().len() ==> r == Some(&self.spec_tys()[pos as int]),
            pos >= self.spec_tys().len() ==> r is None,
    {
        proof {
            use_type_invariant(self);
        }
        if (pos as usize) < self.items.tys.len() {
            Some(&self.items.tys[pos as usize])
        } else {
            None
        }
    }

    pub fn tag_by_name(&self, name: &VariantName) -> (r: Option<u8>)
        ensures
            r matches Some(t) ==> index_of_name(self.spec_variants(), name@) matches Some(i) && t
                == self.spec_variants()[i].1,
            r is None ==> index_of_name(self.spec_variants(), name@) is None,
    {
        proof {
            use_type_invariant(self);
        }
        match find_name(&self.items.vars, name.as_bytes()) {
            Some(i) => Some(self.items.vars[i].tag),
            None => None,
        }
    }

    pub fn name_by_tag(&self, tag: u8) -> (r: Option<&VariantName>)
        ensures
            r matches Some(n) ==> index_of_tag(self.spec_variants(), tag) matches Some(i) && n@
                == self.spec_variants()[i].0,
            r is None ==> index_of_tag(self.spec_variants(), tag) is None,
    {
        proof {
            use_type_invariant(self);
        }
        match find_tag(&self.items.vars, tag) {
            Some(i) => Some(&self.items.vars[i].name),
            None => None,
        }
    }

    /// The name of the variant at position `pos`, in the order of tags.
    pub fn name_by_pos(&self, pos: u8) -> (r: Option<&VariantName>)
        ensures
            pos < self.spec_variants().len() ==> (r matches Some(n) && n@ == self.spec_variants()[pos as int].0),
            pos >= self.spec_variants().len() ==> r is None,
    {
        proof {
            use_type_invariant(self);
        }
        if (pos as usize) < self.items.vars.len() {
            Some(&self.items.vars[pos as usize].name)
        } else {
            None
        }
    }
}

/// A named field of a structure.
#[derive(Debug)]
pub struct Field<Ref> {
    pub name: FieldName,
    pub ty: Ref,
}

/// The fields of a structure: one to 255 of them, in the order of declaration.
#[derive(Debug)]
pub struct NamedFields<Ref> {
    fields: Vec<Field<Ref>>,
}

impl<Ref> NamedFields<Ref> {
    #[verifier::type_invariant]
    spec fn inv(self) -> bool {
        1 <= self.fields@.len() <= MAX_ITEMS
    }

    /// Field names, in the order of declaration.
    pub closed spec fn spec_names(&self) -> Seq<Seq<u8>> {
        self.fields@.map_values(|f: Field<Ref>| f.name@)
    }

    /// Field types, in the order of declaration.
    pub closed spec fn spec_tys(&self) -> Seq<Ref> {
        self.fields@.map_values(|f: Field<Ref>| f.ty)
    }

    pub fn check_wf(&self)
        ensures
            1 <= self.spec_names().len() <= MAX_ITEMS,
            self.spec_tys().len() == self.spec_names().len(),
    {
        proof {
            use_type_invariant(self);
        }
    }

    /// Structure fields out of one to 255 fields.
    pub(crate) fn from_checked(fields: Vec<Field<Ref>>) -> (r: NamedFields<Ref>)
        requires
            1 <= fields@.len() <= MAX_ITEMS,
        ensures
            r.spec_names() == fields@.map_values(|f: Field<Ref>| f.name@),
            r.spec_tys() == fields@.map_values(|f: Field<Ref>| f.ty),
    {
        NamedFields { fields }
    }

    /// Makes structure fields out of a vector of one to 255 fields.
    pub fn try_from(fields: Vec<Field<Ref>>) -> (res: Result<NamedFields<Ref>, ConfinementError>)
        ensures
            fields@.len() == 0 ==> res == Err::<NamedFields<Ref>, ConfinementError>(
                ConfinementError::Undersize { len: 0, min_len: 1 },
            ),
            fields@.len() > MAX_ITEMS ==> res == Err::<NamedFields<Ref>, ConfinementError>(
                ConfinementError::Oversize { len: fields@.len() as usize, max_len: MAX_ITEMS },
            ),
            1 <= fields@.len() <= MAX_ITEMS ==> (res matches Ok(f) && f.spec_names()
                == fields@.map_values(|f: Field<Ref>| f.name@) && f.spec_tys() == fields@.map_values(
                |f: Field<Ref>| f.ty,
            )),
    {
        if fields.len() == 0 {
            return Err(ConfinementError::Undersize { len: 0, min_len: 1 });
        }
        if fields.len() > MAX_ITEMS {
            return Err(ConfinementError::Oversize { len: fields.len(), max_len: MAX_ITEMS });
        }
        Ok(NamedFields { fields })
    }

    pub fn len(&self) -> (len: usize)
        ensures
            len == self.spec_names().len(),
    {
        self.fields.len()
    }

    pub fn get(&self, pos: usize) -> (f: Option<&Field<Ref>>)
        ensures
            pos < self.spec_names().len() ==> (f matches Some(field) && field.name@ == self.spec_names()[pos as int]
                && field.ty == self.spec_tys()[pos as int]),
            pos >= self.spec_names().len() ==> f is None,
    {
        if pos < self.fields.len() {
            Some(&self.fields[pos])
        } else {
            None
        }
    }

    pub fn into_inner(self) -> (fields: Vec<Field<Ref>>)
        ensures
            fields@.map_values(|f: Field<Ref>| f.name@) == self.spec_names(),
            fields@.map_values(|f: Field<Ref>| f.ty) == self.spec_tys(),
    {
        self.fields
    }

    pub fn ty_by_pos(&self, pos: u8) -> (r: Option<&Ref>)
        ensures
            pos < self.spec_tys().len() ==> r == Some(&self.spec_tys()[pos as int]),
            pos >= self.spec_tys().len() ==> r is None,
    {
        if (pos as usize) < self.fields.len() {
            Some(&self.fields[pos as usize].ty)
        } else {
            None
        }
    }

    /// The type of the first field with the given name.
    pub fn ty_by_name(&self, name: &FieldName) -> (r: Option<&Ref>)
        ensures
            r matches Some(t) ==> exists|i: int|
                0 <= i < self.spec_names().len() && self.spec_names()[i] == name@ && *t == self.spec_tys()[i]
                    && forall|j: int| 0 <= j < i ==> self.spec_names()[j] != name@,
            r is None ==> forall|j: int| 0 <= j < self.spec_names().len() ==> self.spec_names()[j] != name@,
    {
        let mut i: usize = 0;
        while i < self.fields.len()
            invariant
                i <= self.fields@.len(),
                forall|j: int| 0 <= j < i ==> self.spec_names()[j] != name@,
                self.spec_names().len() == self.fields@.len(),
            decreases self.fields@.len() - i,
        {
            if bytes_eq(self.fields[i].name.as_bytes(), name.as_bytes()) {
                assert(self.spec_names()[i as int] == name@);
                assert(self.spec_tys()[i as int] == self.fields@[i as int].ty);
                return Some(&self.fields[i].ty);
            }
            i = i + 1;
        }
        None
    }
}

/// The fields of a tuple: one to 255 of them, in the order of declaration.
#[derive(Debug)]
pub struct UnnamedFields<Ref> {
    fields: Vec<Ref>,
}

impl<Ref> View for UnnamedFields<Ref> {
    type V = Seq<Ref>;

    closed spec fn view(&self) -> Seq<Ref> {
        self.fields@
    }
}

impl<Ref> UnnamedFields<Ref> {
    #[verifier::type_invariant]
    spec fn inv(self) -> bool {
        1 <= self.fields@.len() <= MAX_ITEMS
    }

    pub fn check_wf(&self)
        ensures
            1 <= self@.len() <= MAX_ITEMS,
    {
        proof {
            use_type_invariant(self);
        }
    }

    /// Tuple fields out of one to 255 types.
    pub(crate) fn from_checked(fields: Vec<Ref>) -> (r: UnnamedFields<Ref>)
        requires
            1 <= fields@.len() <= MAX_ITEMS,
        ensures
            r@ == fields@,
    {
        UnnamedFields { fields }
    }

    /// Makes tuple fields out of a vector of one to 255 types.
    pub fn try_from(fields: Vec<Ref>) -> (res: Result<UnnamedFields<Ref>, ConfinementError>)
        ensures
            fields@.len() == 0 ==> res == Err::<UnnamedFields<Ref>, ConfinementError>(
                ConfinementError::Undersize { len: 0, min_len: 1 },
            ),
            fields@.len() > MAX_ITEMS ==> res == Err::<UnnamedFields<Ref>, ConfinementError>(
                ConfinementError::Oversize { len: fields@.len() as usize, max_len: MAX_ITEMS },
            ),
            1 <= fields@.len() <= MAX_ITEMS ==> (res matches Ok(f) && f@ == fields@),
    {
        if fields.len() == 0 {
            return Err(ConfinementError::Undersize { len: 0, min_len: 1 });
        }
        if fields.len() > MAX_ITEMS {
            return Err(ConfinementError::Oversize { len: fields.len(), max_len: MAX_ITEMS });
        }
        Ok(UnnamedFields { fields })
    }

    pub fn len(&self) -> (len: usize)
        ensures
            len == self@.len(),
    {
        self.fields.len()
    }

    pub fn into_inner(self) -> (fields: Vec<Ref>)
        ensures
            fields@ == self@,
    {
        self.fields
    }

    pub fn first(&self) -> (r: &Ref)
        ensures
            *r == self@[0],
    {
        proof {
            use_type_invariant(self);
        }
        &self.fields[0]
    }

    pub fn ty_by_pos(&self, pos: u8) -> (r: Option<&Ref>)
        ensures
            pos < self@.len() ==> r == Some(&self@[pos as int]),
            pos >= self@.len() ==> r is None,
    {
        if (pos as usize) < self.fields.len() {
            Some(&self.fields[pos as usize])
        } else {
            None
        }
    }
}

} // verus!

verus! {

/// Glue for constructing ASTs: what a type reference tells about the type it stands
/// for.
pub trait TypeRef: Sized {
    spec fn spec_is_compound(&self) -> bool;

    spec fn spec_is_byte(&self) -> bool;

    spec fn spec_is_unicode_char(&self) -> bool;

    /// Whether the referenced type is an enum of ASCII characters, directly or inside
    /// a newtype.
    spec fn spec_is_char_enum(&self) -> bool;

    /// The type the reference carries inline, if it carries one.
    spec fn spec_as_ty(&self) -> Option<Ty<Self>>;

    fn is_compound(&self) -> (r: bool)
        ensures
            r == self.spec_is_compound(),
    ;

    fn is_byte(&self) -> (r: bool)
        ensures
            r == self.spec_is_byte(),
    ;

    fn is_unicode_char(&self) -> (r: bool)
        ensures
            r == self.spec_is_unicode_char(),
    ;

    fn is_char_enum(&self) -> (r: bool)
        ensures
            r == self.spec_is_char_enum(),
    ;

    fn as_ty(&self) -> (r: Option<&Ty<Self>>)
        ensures
            r matches Some(t) ==> self.spec_as_ty() == Some(*t),
            r is None ==> self.spec_as_ty() is None,
    ;
}

/// Type AST, whose nested types are given by references of type `Ref`.
#[derive(Debug)]
pub enum Ty<Ref> {
    Primitive(Primitive),
    /// We use separate type since unlike primitive it has variable length.
    /// While unicode character can be expressed as a composite type, it will be very verbose
    /// expression (union with 256 variants), so instead we built it in.
    UnicodeChar,
    Enum(EnumVariants),
    Union(UnionVariants<Ref>),
    Tuple(UnnamedFields<Ref>),
    Struct(NamedFields<Ref>),
    Array(Ref, u16),
    List(Ref, Sizing),
    SetOf(Ref, Sizing),
    MapOf(Ref, Ref, Sizing),
}

/// Position of a nested type within its parent.
#[derive(Debug)]
pub enum ItemCase {
    UnnamedField(u8),
    NamedField(u8, FieldName),
    UnionVariant(u8, VariantName),
    ArrayItem,
    ListItem,
    SetItem,
    MapKey,
    MapValue,
}

/// A tag of an ASCII character: from 32 to 127.
pub open spec fn is_char_tag(tag: u8) -> bool {
    32 <= tag <= 127
}

impl<Ref> Ty<Ref> {
    pub open spec fn spec_cls(&self) -> Cls {
        match self {
            Ty::Primitive(_) => Cls::Primitive,
            Ty::Enum(_) => Cls::Enum,
            Ty::Union(_) => Cls::Union,
            Ty::Struct(_) => Cls::Struct,
            Ty::Tuple(_) => Cls::Tuple,
            Ty::Array(_, _) => Cls::Array,
            Ty::UnicodeChar => Cls::Unicode,
            Ty::List(_, _) => Cls::List,
            Ty::SetOf(_, _) => Cls::SetOf,
            Ty::MapOf(_, _, _) => Cls::MapOf,
        }
    }

    pub fn cls(&self) -> (cls: Cls)
        ensures
            cls == self.spec_cls(),
    {
        match self {
            Ty::Primitive(_) => Cls::Primitive,
            Ty::Enum(_) => Cls::Enum,
            Ty::Union(_) => Cls::Union,
            Ty::Struct(_) => Cls::Struct,
            Ty::Tuple(_) => Cls::Tuple,
            Ty::Array(_, _) => Cls::Array,
            Ty::UnicodeChar => Cls::Unicode,
            Ty::List(_, _) => Cls::List,
            Ty::SetOf(_, _) => Cls::SetOf,
            Ty::MapOf(_, _, _) => Cls::MapOf,
        }
    }

    pub fn unit() -> (ty: Ty<Ref>)
        ensures
            ty matches Ty::Primitive(p) && p.0 == crate::primitive::constants::UNIT,
    {
        Ty::Primitive(Primitive(crate::primitive::constants::UNIT))
    }

    pub fn byte() -> (ty: Ty<Ref>)
        ensures
            ty matches Ty::Primitive(p) && p.0 == BYTE,
    {
        Ty::Primitive(Primitive(BYTE))
    }

    pub fn u8() -> (ty: Ty<Ref>)
        ensures
            ty matches Ty::Primitive(p) && p.0 == U8,
    {
        Ty::Primitive(Primitive(U8))
    }

    pub fn enumerate(variants: EnumVariants) -> (ty: Ty<Ref>)
        ensures
            ty == Ty::<Ref>::Enum(variants),
    {
        Ty::Enum(variants)
    }

    pub fn union(variants: UnionVariants<Ref>) -> (ty: Ty<Ref>)
        ensures
            ty == Ty::Union(variants),
    {
        Ty::Union(variants)
    }

    pub fn struc(fields: NamedFields<Ref>) -> (ty: Ty<Ref>)
        ensures
            ty == Ty::Struct(fields),
    {
        Ty::Struct(fields)
    }

    pub fn tuple(fields: UnnamedFields<Ref>) -> (ty: Ty<Ref>)
        ensures
            ty == Ty::Tuple(fields),
    {
        Ty::Tuple(fields)
    }

    pub fn list(ty: Ref, sizing: Sizing) -> (r: Ty<Ref>)
        ensures
            r == Ty::List(ty, sizing),
    {
        Ty::List(ty, sizing)
    }

    pub fn set(ty: Ref, sizing: Sizing) -> (r: Ty<Ref>)
        ensures
            r == Ty::SetOf(ty, sizing),
    {
        Ty::SetOf(ty, sizing)
    }

    pub fn map(key: Ref, val: Ref, sizing: Sizing) -> (r: Ty<Ref>)
        ensures
            r == Ty::MapOf(key, val, sizing),
    {
        Ty::MapOf(key, val, sizing)
    }

    pub open spec fn spec_is_compound(&self) -> bool {
        match self {
            Ty::Tuple(fields) => fields@.len() > 1,
            Ty::Struct(fields) => fields.spec_names().len() > 1,
            Ty::Enum(_) | Ty::Union(_) => true,
            _ => false,
        }
    }

    pub fn is_compound(&self) -> (r: bool)
        ensures
            r == self.spec_is_compound(),
    {
        match self {
            Ty::Tuple(fields) => fields.len() > 1,
            Ty::Struct(fields) => fields.len() > 1,
            Ty::Enum(_) | Ty::Union(_) => true,
            _ => false,
        }
    }

    pub fn is_primitive(&self) -> (r: bool)
        ensures
            r == (self is Primitive || self is UnicodeChar),
    {
        match self {
            Ty::Primitive(_) | Ty::UnicodeChar => true,
            _ => false,
        }
    }

    pub fn is_collection(&self) -> (r: bool)
        ensures
            r == (self is Array || self is List || self is SetOf || self is MapOf),
    {
        match self {
            Ty::Array(..) | Ty::List(..) | Ty::SetOf(..) | Ty::MapOf(..) => true,
            _ => false,
        }
    }

    pub fn is_newtype(&self) -> (r: bool)
        ensures
            r == (self matches Ty::Tuple(fields) && fields@.len() == 1),
    {
        match self {
            Ty::Tuple(fields) => fields.len() == 1,
            _ => false,
        }
    }

    /// Whether the type is an option: a union of exactly the variants `none` with tag 0
    /// and `some` with tag 1.
    pub open spec fn spec_is_option(&self) -> bool {
        match self {
            Ty::Union(variants) => variants.spec_variants() == seq![(none_name(), 0u8), (some_name(), 1u8)],
            _ => false,
        }
    }

    /// For an option, the type of its `some` variant.
    pub fn as_some(&self) -> (r: Option<&Ref>)
        ensures
            r is Some <==> self.spec_is_option(),
            r matches Some(t) ==> (self matches Ty::Union(variants) && *t == variants.spec_tys()[1]),
    {
        match self {
            Ty::Union(variants) => {
                variants.check_wf();
                if variants.len() != 2 {
                    assert(variants.spec_variants().len() != 2);
                    return None;
                }
                let first = variants.unwrap_first();
                let last = variants.unwrap_last();
                let is_opt = first.tag == 0 && last.tag == 1 && is_none_name(first.name.as_bytes())
                    && is_some_name(last.name.as_bytes());
                if is_opt {
                    assert(variants.spec_variants() =~= seq![(none_name(), 0u8), (some_name(), 1u8)]);
                    variants.ty_by_pos(1)
                } else {
                    None
                }
            },
            _ => None,
        }
    }

    pub fn is_option(&self) -> (r: bool)
        ensures
            r == self.spec_is_option(),
    {
        self.as_some().is_some()
    }

    /// The number of types nested in this one.
    pub open spec fn spec_count_type_refs(&self) -> int {
        match self {
            Ty::Primitive(_) | Ty::Enum(_) | Ty::UnicodeChar => 0,
            Ty::Union(variants) => variants.spec_variants().len() as int,
            Ty::Struct(fields) => fields.spec_names().len() as int,
            Ty::Tuple(fields) => fields@.len() as int,
            Ty::Array(_, _) | Ty::List(_, _) | Ty::SetOf(_, _) => 1,
            Ty::MapOf(_, _, _) => 2,
        }
    }

    pub fn count_type_refs(&self) -> (n: u8)
        ensures
            n == self.spec_count_type_refs(),
    {
        match self {
            Ty::Primitive(_) | Ty::Enum(_) | Ty::UnicodeChar => 0,
            Ty::Union(variants) => {
                variants.check_wf();
                variants.len() as u8
            },
            Ty::Struct(fields) => {
                fields.check_wf();
                fields.len() as u8
            },
            Ty::Tuple(fields) => {
                fields.check_wf();
                fields.len() as u8
            },
            Ty::Array(_, _) | Ty::List(_, _) | Ty::SetOf(_, _) => 1,
            Ty::MapOf(_, _, _) => 2,
        }
    }

    /// The type nested at position `pos`.
    pub open spec fn spec_ty_at(&self, pos: u8) -> Option<Ref> {
        match self {
            Ty::Union(variants) => if pos < variants.spec_tys().len() {
                Some(variants.spec_tys()[pos as int])
            } else {
                None
            },
            Ty::Struct(fields) => if pos < fields.spec_tys().len() {
                Some(fields.spec_tys()[pos as int])
            } else {
                None
            },
            Ty::Tuple(fields) => if pos < fields@.len() {
                Some(fields@[pos as int])
            } else {
                None
            },
            Ty::Array(ty, _) | Ty::List(ty, _) | Ty::SetOf(ty, _) => if pos == 0 {
                Some(*ty)
            } else {
                None
            },
            Ty::MapOf(key, ty, _) => if pos == 0 {
                Some(*key)
            } else if pos == 1 {
                Some(*ty)
            } else {
                None
            },
            _ => None,
        }
    }

    pub fn ty_at(&self, pos: u8) -> (r: Option<&Ref>)
        ensures
            r matches Some(t) ==> self.spec_ty_at(pos) == Some(*t),
            r is None ==> self.spec_ty_at(pos) is None,
    {
        match self {
            Ty::Union(fields) => fields.ty_by_pos(pos),
            Ty::Struct(fields) => fields.ty_by_pos(pos),
            Ty::Tuple(fields) => fields.ty_by_pos(pos),
            Ty::Array(ty, _) | Ty::List(ty, _) | Ty::SetOf(ty, _) => if pos == 0 {
                Some(ty)
            } else {
                None
            },
            Ty::MapOf(key, ty, _) => if pos == 0 {
                Some(key)
            } else if pos == 1 {
                Some(ty)
            } else {
                None
            },
            _ => None,
        }
    }

    /// What the position `pos` is within this type, as [`Ty::case_at`] gives it:
    /// `r` is `None` where the position holds no case. A tuple gives its case only at
    /// the position equal to its number of fields; this is deliberate, it is what the
    /// lookup of cases does.
    pub open spec fn spec_case_is(&self, pos: u8, r: Option<ItemCase>) -> bool {
        &&& self is Union ==> (r is Some <==> self.spec_ty_at(pos) is Some)
        &&& self is Struct ==> (r is Some <==> self.spec_ty_at(pos) is Some)
        &&& self matches Ty::Tuple(fields) ==> (r is Some <==> pos == fields@.len())
        &&& self is Array ==> (r is Some <==> pos == 0)
        &&& self is List ==> (r is Some <==> pos == 0)
        &&& self is SetOf ==> (r is Some <==> pos == 0)
        &&& self is MapOf ==> (r is Some <==> pos <= 1)
        &&& self is Primitive || self is UnicodeChar || self is Enum ==> r is None
        &&& r matches Some(c) ==> match c {
            ItemCase::UnnamedField(p) => p == pos && self is Tuple,
            ItemCase::NamedField(p, name) => p == pos && (self matches Ty::Struct(fields) && name@
                == fields.spec_names()[pos as int]),
            ItemCase::UnionVariant(p, name) => p == pos && (self matches Ty::Union(variants) && name@
                == variants.spec_variants()[pos as int].0),
            ItemCase::ArrayItem => self is Array,
            ItemCase::ListItem => self is List,
            ItemCase::SetItem => self is SetOf,
            ItemCase::MapKey => self is MapOf && pos == 0,
            ItemCase::MapValue => self is MapOf && pos == 1,
        }
    }

    /// What the position `pos` is within this type.
    pub fn case_at(&self, pos: u8) -> (r: Option<ItemCase>)
        ensures
            self.spec_case_is(pos, r),
    {
        match self {
            Ty::Union(fields) => {
                fields.check_wf();
                match fields.name_by_pos(pos) {
                    Some(name) => Some(ItemCase::UnionVariant(pos, name.clone())),
                    None => None,
                }
            },
            Ty::Struct(fields) => {
                fields.check_wf();
                match fields.get(pos as usize) {
                    Some(field) => Some(ItemCase::NamedField(pos, field.name.clone())),
                    None => None,
                }
            },
            Ty::Tuple(fields) => {
                fields.check_wf();
                if fields.len() as u8 == pos {
                    Some(ItemCase::UnnamedField(pos))
                } else {
                    None
                }
            },
            Ty::Array(_, _) => if pos == 0 {
                Some(ItemCase::ArrayItem)
            } else {
                None
            },
            Ty::List(_, _) => if pos == 0 {
                Some(ItemCase::ListItem)
            } else {
                None
            },
            Ty::SetOf(_, _) => if pos == 0 {
                Some(ItemCase::SetItem)
            } else {
                None
            },
            Ty::MapOf(_, _, _) => if pos == 0 {
                Some(ItemCase::MapKey)
            } else if pos == 1 {
                Some(ItemCase::MapValue)
            } else {
                None
            },
            _ => None,
        }
    }

    pub open spec fn spec_is_byte(&self) -> bool {
        self matches Ty::Primitive(p) && (p.0 == BYTE || p.0 == U8)
    }

    pub fn is_byte(&self) -> (r: bool)
        ensures
            r == self.spec_is_byte(),
    {
        match self {
            Ty::Primitive(p) => p.0 == BYTE || p.0 == U8,
            _ => false,
        }
    }

    pub fn is_unicode_char(&self) -> (r: bool)
        ensures
            r == (self is UnicodeChar),
    {
        match self {
            Ty::UnicodeChar => true,
            _ => false,
        }
    }
}

impl<Ref: TypeRef> Ty<Ref> {
    pub open spec fn spec_is_char_enum(&self) -> bool {
        match self {
            Ty::Tuple(fields) => fields@[0].spec_is_char_enum(),
            Ty::Enum(variants) => forall|i: int| 0 <= i < variants@.len() ==> is_char_tag(#[trigger] variants@[i].1),
            _ => false,
        }
    }

    /// Whether the type is an enum of ASCII characters, directly or inside a newtype.
    pub fn is_char_enum(&self) -> (r: bool)
        ensures
            r == self.spec_is_char_enum(),
    {
        match self {
            Ty::Tuple(fields) => {
                fields.check_wf();
                fields.first().is_char_enum()
            },
            Ty::Enum(variants) => {
                let mut i: usize = 0;
                while i < variants.len()
                    invariant
                        i <= variants@.len(),
                        forall|j: int| 0 <= j < i ==> is_char_tag(#[trigger] variants@[j].1),
                        self.spec_is_char_enum() == (forall|j: int|
                            0 <= j < variants@.len() ==> is_char_tag(#[trigger] variants@[j].1)),
                    decreases variants@.len() - i,
                {
                    let tag = match variants.get(i) {
                        Some(v) => v.tag,
                        None => 0,
                    };
                    assert(tag == variants@[i as int].1);
                    if !(32 <= tag && tag <= 127) {
                        return false;
                    }
                    i = i + 1;
                }
                true
            },
            _ => false,
        }
    }

    /// For a newtype (a tuple of a single field), the type that the field carries
    /// inline, if it carries one.
    pub fn as_wrapped_ty(&self) -> (r: Option<&Ty<Ref>>)
        ensures
            r is Some <==> (self matches Ty::Tuple(fields) && fields@.len() == 1
                && fields@[0].spec_as_ty() is Some),
            r matches Some(t) ==> (self matches Ty::Tuple(fields) && fields@[0].spec_as_ty() == Some(*t)),
    {
        match self {
            Ty::Tuple(fields) => {
                fields.check_wf();
                if fields.len() == 1 {
                    fields.first().as_ty()
                } else {
                    None
                }
            },
            _ => None,
        }
    }

    pub fn is_byte_array(&self) -> (r: bool)
        ensures
            r == (self matches Ty::Array(ty, _) && ty.spec_is_byte()),
    {
        match self {
            Ty::Array(ty, _) => ty.is_byte(),
            _ => false,
        }
    }
}

/// Nested types exist exactly at the positions below their count.
pub proof fn lemma_ty_at_count<Ref>(ty: &Ty<Ref>, pos: u8)
    requires
        ty matches Ty::Union(v) ==> v.spec_tys().len() == v.spec_variants().len(),
        ty matches Ty::Struct(f) ==> f.spec_tys().len() == f.spec_names().len(),
    ensures
        ty.spec_ty_at(pos) is Some <==> pos < ty.spec_count_type_refs(),
{
}

pub open spec fn none_name() -> Seq<u8> {
    seq![0x6Eu8, 0x6Fu8, 0x6Eu8, 0x65u8]
}

pub open spec fn some_name() -> Seq<u8> {
    seq![0x73u8, 0x6Fu8, 0x6Du8, 0x65u8]
}

fn is_none_name(name: &[u8]) -> (r: bool)
    ensures
        r == (name@ == none_name()),
{
    let r = name.len() == 4 && name[0] == 0x6E && name[1] == 0x6F && name[2] == 0x6E && name[3] == 0x65;
    assert(r ==> name@ =~= none_name());
    r
}

fn is_some_name(name: &[u8]) -> (r: bool)
    ensures
        r == (name@ == some_name()),
{
    let r = name.len() == 4 && name[0] == 0x73 && name[1] == 0x6F && name[2] == 0x6D && name[3] == 0x65;
    assert(r ==> name@ =~= some_name());
    r
}

} // verus!
