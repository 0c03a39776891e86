use vstd::prelude::*;

verus! {

/// Compatibility of two type layouts.
#[derive(Copy, Clone, PartialEq, Eq, Debug, Structural)]
pub enum Compat {
    NonCompatible,
    Alloset,
    Subset,
    Superset,
    Compatible,
}

impl Compat {
    /// Compatibility seen from the other side: subsets become supersets and back.
    pub open spec fn spec_neg(self) -> Compat {
        match self {
            Compat::NonCompatible => Compat::NonCompatible,
            Compat::Subset => Compat::Superset,
            Compat::Superset => Compat::Subset,
            Compat::Alloset => Compat::Alloset,
            Compat::Compatible => Compat::Compatible,
        }
    }

    pub fn neg(self) -> (r: Compat)
        ensures
            r == self.spec_neg(),
    {
        match self {
            Compat::NonCompatible => Compat::NonCompatible,
            Compat::Subset => Compat::Superset,
            Compat::Superset => Compat::Subset,
            Compat::Alloset => Compat::Alloset,
            Compat::Compatible => Compat::Compatible,
        }
    }

    /// Compatibility of two parts taken together.
    pub open spec fn spec_add(self, rhs: Compat) -> Compat {
        match (self, rhs) {
            (Compat::NonCompatible, _) | (_, Compat::NonCompatible) => Compat::NonCompatible,
            (Compat::Subset, Compat::Compatible) | (Compat::Subset, Compat::Subset) | (Compat::Compatible, Compat::Subset) => Compat::Subset,
            (Compat::Superset, Compat::Compatible) | (Compat::Superset, Compat::Superset) | (Compat::Compatible, Compat::Superset) => Compat::Superset,
            (Compat::Superset, Compat::Subset) | (Compat::Subset, Compat::Superset) => Compat::Alloset,
            (Compat::Alloset, _) | (_, Compat::Alloset) => Compat::Alloset,
            (Compat::Compatible, Compat::Compatible) => Compat::Compatible,
        }
    }

    pub fn add(self, rhs: Compat) -> (r: Compat)
        ensures
            r == self.spec_add(rhs),
    {
        match (self, rhs) {
            (Compat::NonCompatible, _) | (_, Compat::NonCompatible) => Compat::NonCompatible,
            (Compat::Subset, Compat::Compatible | Compat::Subset)
            | (Compat::Compatible, Compat::Subset) => Compat::Subset,
            (Compat::Superset, Compat::Compatible | Compat::Superset)
            | (Compat::Compatible, Compat::Superset) => Compat::Superset,
            (Compat::Superset, Compat::Subset) | (Compat::Subset, Compat::Superset) => Compat::Alloset,
            (Compat::Alloset, _) | (_, Compat::Alloset) => Compat::Alloset,
            (Compat::Compatible, Compat::Compatible) => Compat::Compatible,
        }
    }

    pub fn add_assign(&mut self, rhs: Compat)
        ensures
            *final(self) == old(self).spec_add(rhs),
    {
        *self = self.add(rhs);
    }
}

/// Compatibility of many parts taken together, starting from full compatibility.
pub open spec fn spec_sum(items: Seq<Compat>) -> Compat
    decreases items.len(),
{
    if items.len() == 0 {
        Compat::Compatible
    } else {
        spec_sum(items.drop_last()).spec_add(items.last())
    }
}

pub fn sum(items: &[Compat]) -> (r: Compat)
    ensures
        r == spec_sum(items@),
{
    let mut acc = Compat::Compatible;
    let mut i: usize = 0;
    while i < items.len()
        invariant
            i <= items@.len(),
            acc == spec_sum(items@.subrange(0, i as int)),
        decreases items@.len() - i,
    {
        assert(items@.subrange(0, i + 1).drop_last() == items@.subrange(0, i as int));
        acc.add_assign(items[i]);
        i = i + 1;
    }
    assert(items@.subrange(0, items@.len() as int) == items@);
    acc
}

/// Negation undoes itself.
pub proof fn lemma_neg_involutive(a: Compat)
    ensures
        a.spec_neg().spec_neg() == a,
{
}

/// Full compatibility is neutral and non-compatibility absorbs everything.
pub proof fn lemma_add_identity_absorbing(a: Compat)
    ensures
        a.spec_add(Compat::Compatible) == a,
        Compat::Compatible.spec_add(a) == a,
        a.spec_add(Compat::NonCompatible) == Compat::NonCompatible,
        Compat::NonCompatible.spec_add(a) == Compat::NonCompatible,
        a.spec_add(a) == a,
{
}

/// The order of parts does not change their compatibility.
pub proof fn lemma_add_commutative(a: Compat, b: Compat)
    ensures
        a.spec_add(b) == b.spec_add(a),
{
}

/// The grouping of parts does not change their compatibility.
pub proof fn lemma_add_associative(a: Compat, b: Compat, c: Compat)
    ensures
        a.spec_add(b).spec_add(c) == a.spec_add(b.spec_add(c)),
{
}

/// Seeing a combination from the other side is combining the parts seen from the
/// other side.
pub proof fn lemma_neg_distributes(a: Compat, b: Compat)
    ensures
        a.spec_add(b).spec_neg() == a.spec_neg().spec_add(b.spec_neg()),
{
}

/// Types whose layouts can be compared.
pub trait Compatibility {
    fn compatibility(&self, other: &Self) -> Compat;
}

/// The order of items in a collection, and whether they are keyed.
#[derive(Copy, Clone, PartialEq, Eq, Debug, Structural)]
pub enum ItemsSorting {
    OrderedMap,
    UnorderedMap,
    OrderedSet,
    UnorderedSet,
    Unordered,
}

impl ItemsSorting {
    pub open spec fn code(self) -> u8 {
        match self {
            ItemsSorting::OrderedMap => 0x40,
            ItemsSorting::UnorderedMap => 0x4F,
            ItemsSorting::OrderedSet => 0x80,
            ItemsSorting::UnorderedSet => 0x8F,
            ItemsSorting::Unordered => 0xFF,
        }
    }

    pub fn into_u8(self) -> (code: u8)
        ensures
            code == self.code(),
    {
        match self {
            ItemsSorting::OrderedMap => 0x40,
            ItemsSorting::UnorderedMap => 0x4F,
            ItemsSorting::OrderedSet => 0x80,
            ItemsSorting::UnorderedSet => 0x8F,
            ItemsSorting::Unordered => 0xFF,
        }
    }

    /// The sorting with the given code; the code itself when there is none.
    pub fn try_from_u8(code: u8) -> (r: Result<ItemsSorting, u8>)
        ensures
            r matches Ok(s) ==> s.code() == code,
            r is Err ==> r == Err::<ItemsSorting, u8>(code) && forall|s: ItemsSorting| s.code() != code,
    {
        match code {
            0x40 => Ok(ItemsSorting::OrderedMap),
            0x4F => Ok(ItemsSorting::UnorderedMap),
            0x80 => Ok(ItemsSorting::OrderedSet),
            0x8F => Ok(ItemsSorting::UnorderedSet),
            0xFF => Ok(ItemsSorting::Unordered),
            _ => Err(code),
        }
    }
}

/// Inclusive bounds on a length.
#[derive(Copy, Clone, PartialEq, Eq, Debug, Structural)]
pub struct LenRange<T> {
    pub min: T,
    pub max: T,
}

/// A value of fixed byte size, possibly with restricted values.
#[derive(Copy, Clone, PartialEq, Eq, Debug, Structural)]
pub struct AtomicItem {
    pub bytes: u16,
    pub restricted: bool,
}

} // verus!
