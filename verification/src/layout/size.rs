use vstd::prelude::*;

verus! {

/// Measure of a type size in bytes.
#[derive(Copy, Clone, PartialEq, Eq, Debug, Structural)]
pub enum TypeSize {
    /// Type has a fixed size known at compile time.
    Fixed(u16),
    /// Type has variable size.
    Variable { max: usize },
}

impl TypeSize {
    /// The largest number of bytes a value of the type takes.
    pub open spec fn spec_max_size(self) -> int {
        match self {
            TypeSize::Fixed(exact) => exact as int,
            TypeSize::Variable { max } => max as int,
        }
    }

    pub fn exact_size(self) -> (r: Option<u16>)
        ensures
            r == match self {
                TypeSize::Fixed(exact) => Some(exact),
                TypeSize::Variable { .. } => None::<u16>,
            },
    {
        match self {
            TypeSize::Fixed(exact) => Some(exact),
            TypeSize::Variable { .. } => None,
        }
    }

    pub fn max_size(self) -> (r: usize)
        ensures
            r == self.spec_max_size(),
    {
        match self {
            TypeSize::Fixed(exact) => exact as usize,
            TypeSize::Variable { max } => max,
        }
    }

    /// The size of two types placed one after the other: fixed when both are fixed,
    /// variable otherwise.
    pub open spec fn spec_add(self, rhs: TypeSize) -> TypeSize {
        match (self, rhs) {
            (TypeSize::Fixed(a), TypeSize::Fixed(b)) => TypeSize::Fixed((a + b) as u16),
            (TypeSize::Fixed(fixed), TypeSize::Variable { max }) => TypeSize::Variable { max: (fixed + max) as usize },
            (TypeSize::Variable { max }, TypeSize::Fixed(fixed)) => TypeSize::Variable { max: (fixed + max) as usize },
            (TypeSize::Variable { max: a }, TypeSize::Variable { max: b }) => TypeSize::Variable { max: (a + b) as usize },
        }
    }

    /// Whether the sum of the two sizes fits the numbers that hold it.
    pub open spec fn can_add(self, rhs: TypeSize) -> bool {
        match (self, rhs) {
            (TypeSize::Fixed(a), TypeSize::Fixed(b)) => a + b <= u16::MAX,
            _ => self.spec_max_size() + rhs.spec_max_size() <= usize::MAX,
        }
    }

    pub fn add(self, rhs: TypeSize) -> (r: TypeSize)
        requires
            self.can_add(rhs),
        ensures
            r == self.spec_add(rhs),
            r.spec_max_size() == self.spec_max_size() + rhs.spec_max_size(),
    {
        match (self, rhs) {
            (TypeSize::Fixed(a), TypeSize::Fixed(b)) => TypeSize::Fixed(a + b),
            (TypeSize::Fixed(fixed), TypeSize::Variable { max })
            | (TypeSize::Variable { max }, TypeSize::Fixed(fixed)) => TypeSize::Variable { max: fixed as usize + max },
            (TypeSize::Variable { max: a }, TypeSize::Variable { max: b }) => TypeSize::Variable { max: a + b },
        }
    }

    pub fn add_assign(&mut self, rhs: TypeSize)
        requires
            old(self).can_add(rhs),
        ensures
            *final(self) == old(self).spec_add(rhs),
    {
        *self = self.add(rhs);
    }
}

/// The size of a sequence of types placed one after the other.
pub open spec fn spec_sum(items: Seq<TypeSize>) -> TypeSize
    decreases items.len(),
{
    if items.len() == 0 {
        TypeSize::Fixed(0)
    } else {
        spec_sum(items.drop_last()).spec_add(items.last())
    }
}

/// Whether every partial sum of the sizes fits its number.
pub open spec fn can_sum(items: Seq<TypeSize>) -> bool
    decreases items.len(),
{
    if items.len() == 0 {
        true
    } else {
        can_sum(items.drop_last()) && spec_sum(items.drop_last()).can_add(items.last())
    }
}

/// The size of a sequence of types placed one after the other.
pub fn sum(items: &[TypeSize]) -> (r: TypeSize)
    requires
        can_sum(items@),
    ensures
        r == spec_sum(items@),
{
    let mut acc = TypeSize::Fixed(0);
    let mut i: usize = 0;
    while i < items.len()
        invariant
            i <= items@.len(),
            acc == spec_sum(items@.subrange(0, i as int)),
            can_sum(items@),
        decreases items@.len() - i,
    {
        proof {
            lemma_can_sum_prefix(items@, i as int + 1);
            assert(items@.subrange(0, i + 1).drop_last() == items@.subrange(0, i as int));
        }
        acc.add_assign(items[i]);
        i = i + 1;
    }
    assert(items@.subrange(0, items@.len() as int) == items@);
    acc
}

proof fn lemma_can_sum_prefix(items: Seq<TypeSize>, n: int)
    requires
        can_sum(items),
        0 <= n <= items.len(),
    ensures
        can_sum(items.subrange(0, n)),
    decreases items.len(),
{
    if n < items.len() {
        assert(items.drop_last().subrange(0, n) == items.subrange(0, n));
        lemma_can_sum_prefix(items.drop_last(), n);
    } else {
        assert(items.subrange(0, n) == items);
    }
}

/// The fixed size zero is neutral for addition.
pub proof fn lemma_add_zero(a: TypeSize)
    ensures
        a.spec_add(TypeSize::Fixed(0)) == a,
        TypeSize::Fixed(0).spec_add(a) == a,
{
}

/// Addition of sizes is commutative.
pub proof fn lemma_add_commutative(a: TypeSize, b: TypeSize)
    ensures
        a.spec_add(b) == b.spec_add(a),
        a.can_add(b) == b.can_add(a),
{
}

/// Addition of sizes is associative when no sum overflows.
pub proof fn lemma_add_associative(a: TypeSize, b: TypeSize, c: TypeSize)
    requires
        a.can_add(b),
        a.spec_add(b).can_add(c),
        b.can_add(c),
        a.can_add(b.spec_add(c)),
    ensures
        a.spec_add(b).spec_add(c) == a.spec_add(b.spec_add(c)),
{
}

/// A sum is fixed exactly when all its items are fixed, and its maximal size is the
/// sum of the maximal sizes of its items.
pub proof fn lemma_sum_max(items: Seq<TypeSize>)
    requires
        can_sum(items),
    ensures
        spec_sum(items) is Fixed <==> forall|i: int| 0 <= i < items.len() ==> (#[trigger] items[i]) is Fixed,
    decreases items.len(),
{
    if items.len() > 0 {
        lemma_sum_max(items.drop_last());
        if spec_sum(items) is Fixed {
            assert forall|i: int| 0 <= i < items.len() implies (#[trigger] items[i]) is Fixed by {
                if i < items.len() - 1 {
                    assert(items[i] == items.drop_last()[i]);
                }
            }
        }
        if forall|i: int| 0 <= i < items.len() ==> (#[trigger] items[i]) is Fixed {
            assert forall|i: int| 0 <= i < items.drop_last().len() implies (#[trigger] items.drop_last()[i]) is Fixed by {
                assert(items.drop_last()[i] == items[i]);
            }
            assert(items[items.len() - 1] is Fixed);
        }
    }
}

} // verus!
