//! Collections with bounds on the number of their items.

use vstd::prelude::*;

verus! {

/// Violation of a collection size bound.
#[derive(Copy, Clone, PartialEq, Eq, Debug, Structural)]
pub enum ConfinementError {
    /// the collection holds {len} items, while at most {max_len} are allowed
    Oversize { len: usize, max_len: usize },
    /// the collection holds {len} items, while at least {min_len} are required
    Undersize { len: usize, min_len: usize },
    /// attempt to access the element at {index} which is outside of the collection length
    /// boundary {len}
    OutOfBoundary { index: usize, len: usize },
}

} // verus!

verus! {

/// Largest number of items in a strict collection.
pub const STRICT_COLLECTION_MAX_LEN: u16 = 0xFFFF;

/// operation results in collection size exceeding 0xFFFF, which is prohibited
#[derive(Copy, Clone, PartialEq, Eq, Debug, Structural)]
pub struct OversizeError;

/// operation results in collection size {len} less than lower boundary of {min_len}, which is
/// prohibited
#[derive(Copy, Clone, PartialEq, Eq, Debug, Structural)]
pub struct UndersizeError {
    pub len: u16,
    pub min_len: u16,
}

/// Errors in removing an item from a collection.
#[derive(Copy, Clone, PartialEq, Eq, Debug, Structural)]
pub enum RemoveError {
    Undersize(UndersizeError),
    /// index {index} is out of bounds of the collection size {len}.
    IndexOutOfBounds { index: u16, len: u16 },
}

impl RemoveError {
    pub fn from_undersize(err: UndersizeError) -> (e: RemoveError)
        ensures
            e == RemoveError::Undersize(err),
    {
        RemoveError::Undersize(err)
    }
}

/// The order of `T` is a lawful total order.
pub open spec fn ord_lawful<T: Ord>() -> bool {
    vstd::laws_cmp::obeys_cmp::<T>()
}

proof fn lemma_set_len<T: Ord>(s: &std::collections::BTreeSet<T>)
    requires
        ord_lawful::<T>(),
    ensures
        vstd::std_specs::btree::spec_btree_set_len(s) == s@.len(),
{
    broadcast use vstd::std_specs::btree::axiom_key_obeys_cmp_spec_meaning;
    broadcast use vstd::std_specs::btree::axiom_spec_btree_set_len;
}

proof fn lemma_map_len<K: Ord, V>(m: &std::collections::BTreeMap<K, V>)
    requires
        ord_lawful::<K>(),
    ensures
        vstd::std_specs::btree::spec_btree_map_len(m) == m@.len(),
{
    broadcast use vstd::std_specs::btree::axiom_key_obeys_cmp_spec_meaning;
    broadcast use vstd::std_specs::btree::axiom_spec_btree_map_len;
}

/// A vector of at least `MIN_LEN` and at most 0xFFFF items.
#[derive(Debug)]
pub struct StrictVec<T, const MIN_LEN: u16>(Vec<T>);

impl<T, const MIN_LEN: u16> View for StrictVec<T, MIN_LEN> {
    type V = Seq<T>;

    closed spec fn view(&self) -> Seq<T> {
        self.0@
    }
}

impl<T> StrictVec<T, 0> {
    pub fn new() -> (v: Self)
        ensures
            v@ == Seq::<T>::empty(),
            v.wf(),
    {
        StrictVec(Vec::new())
    }
}

impl<T, const MIN_LEN: u16> StrictVec<T, MIN_LEN> {
    /// The number of items is within the bounds.
    pub open spec fn wf(&self) -> bool {
        MIN_LEN <= self@.len() <= STRICT_COLLECTION_MAX_LEN
    }

    pub fn len(&self) -> (len: u16)
        requires
            self.wf(),
        ensures
            len == self@.len(),
    {
        self.0.len() as u16
    }

    pub fn as_slice(&self) -> (s: &[T])
        ensures
            s@ == self@,
    {
        self.0.as_slice()
    }

    /// Appends an item, returning its index; fails when the vector is full.
    pub fn push(&mut self, item: T) -> (res: Result<u16, OversizeError>)
        requires
            old(self).wf(),
        ensures
            final(self).wf(),
            old(self)@.len() >= STRICT_COLLECTION_MAX_LEN ==> res == Err::<u16, OversizeError>(OversizeError)
                && final(self)@ == old(self)@,
            old(self)@.len() < STRICT_COLLECTION_MAX_LEN ==> res == Ok::<u16, OversizeError>(old(self)@.len() as u16)
                && final(self)@ == old(self)@.push(item),
    {
        let len = self.len();
        if len >= STRICT_COLLECTION_MAX_LEN {
            return Err(OversizeError);
        }
        self.0.push(item);
        Ok(len)
    }

    /// Removes the item at `index`; fails when the vector holds only `MIN_LEN` items or
    /// when the index is out of bounds.
    pub fn remove(&mut self, index: u16) -> (res: Result<T, RemoveError>)
        requires
            old(self).wf(),
        ensures
            final(self).wf(),
            old(self)@.len() == MIN_LEN ==> res == Err::<T, RemoveError>(
                RemoveError::Undersize(UndersizeError { len: MIN_LEN, min_len: MIN_LEN }),
            ) && final(self)@ == old(self)@,
            old(self)@.len() != MIN_LEN && index >= old(self)@.len() ==> res == Err::<T, RemoveError>(
                RemoveError::IndexOutOfBounds { index, len: old(self)@.len() as u16 },
            ) && final(self)@ == old(self)@,
            old(self)@.len() != MIN_LEN && index < old(self)@.len() ==> res == Ok::<T, RemoveError>(
                old(self)@[index as int],
            ) && final(self)@ == old(self)@.remove(index as int),
    {
        let len = self.len();
        if len == MIN_LEN {
            return Err(RemoveError::from_undersize(UndersizeError { len, min_len: MIN_LEN }));
        }
        if index >= len {
            return Err(RemoveError::IndexOutOfBounds { index, len });
        }
        Ok(self.0.remove(index as usize))
    }
}

/// A set of at least `MIN_LEN` and at most 0xFFFF items.
#[derive(Debug)]
pub struct StrictSet<T, const MIN_LEN: u16>(std::collections::BTreeSet<T>);

impl<T, const MIN_LEN: u16> View for StrictSet<T, MIN_LEN> {
    type V = Set<T>;

    closed spec fn view(&self) -> Set<T> {
        self.0@
    }
}

impl<T: Ord> StrictSet<T, 0> {
    pub fn new() -> (s: Self)
        ensures
            s@ == Set::<T>::empty(),
            s.wf(),
    {
        StrictSet(std::collections::BTreeSet::new())
    }
}

impl<T: Ord, const MIN_LEN: u16> StrictSet<T, MIN_LEN> {
    /// The set is finite and the number of items is within the bounds.
    pub open spec fn wf(&self) -> bool {
        &&& self@.finite()
        &&& MIN_LEN <= self@.len() <= STRICT_COLLECTION_MAX_LEN
    }

    pub fn len(&self) -> (len: u16)
        requires
            self.wf(),
            ord_lawful::<T>(),
        ensures
            len == self@.len(),
    {
        proof {
            lemma_set_len(&self.0);
        }
        self.0.len() as u16
    }

    /// Adds an item, returning the number of items before; fails when the set is full.
    pub fn insert(&mut self, item: T) -> (res: Result<u16, OversizeError>)
        requires
            old(self).wf(),
            ord_lawful::<T>(),
        ensures
            final(self).wf(),
            old(self)@.len() >= STRICT_COLLECTION_MAX_LEN ==> res == Err::<u16, OversizeError>(OversizeError)
                && final(self)@ == old(self)@,
            old(self)@.len() < STRICT_COLLECTION_MAX_LEN ==> res == Ok::<u16, OversizeError>(old(self)@.len() as u16)
                && final(self)@ == old(self)@.insert(item),
    {
        let len = self.len();
        if len >= STRICT_COLLECTION_MAX_LEN {
            return Err(OversizeError);
        }
        self.0.insert(item);
        Ok(len)
    }

    /// Removes an item, returning whether it was present; fails when the set holds only
    /// `MIN_LEN` items.
    pub fn remove(&mut self, item: &T) -> (res: Result<bool, UndersizeError>)
        requires
            old(self).wf(),
            ord_lawful::<T>(),
        ensures
            final(self).wf(),
            old(self)@.len() == MIN_LEN ==> res == Err::<bool, UndersizeError>(
                UndersizeError { len: MIN_LEN, min_len: MIN_LEN },
            ) && final(self)@ == old(self)@,
            old(self)@.len() != MIN_LEN ==> res == Ok::<bool, UndersizeError>(old(self)@.contains(*item))
                && final(self)@ == old(self)@.remove(*item),
    {
        let len = self.len();
        if len == MIN_LEN {
            return Err(UndersizeError { len, min_len: MIN_LEN });
        }
        proof {
            broadcast use vstd::std_specs::btree::axiom_set_contains_deref_key;
            broadcast use vstd::std_specs::btree::axiom_set_deref_key_removed;
        }
        Ok(self.0.remove(item))
    }
}

/// A map of at least `MIN_LEN` and at most 0xFFFF entries.
#[derive(Debug)]
pub struct StrictMap<K, V, const MIN_LEN: u16>(std::collections::BTreeMap<K, V>);

impl<K, V, const MIN_LEN: u16> View for StrictMap<K, V, MIN_LEN> {
    type V = Map<K, V>;

    closed spec fn view(&self) -> Map<K, V> {
        self.0@
    }
}

impl<K: Ord, V> StrictMap<K, V, 0> {
    pub fn new() -> (m: Self)
        ensures
            m@ == Map::<K, V>::empty(),
            m.wf(),
    {
        StrictMap(std::collections::BTreeMap::new())
    }
}

impl<K: Ord, V, const MIN_LEN: u16> StrictMap<K, V, MIN_LEN> {
    /// The map is finite and the number of entries is within the bounds.
    pub open spec fn wf(&self) -> bool {
        &&& self@.dom().finite()
        &&& MIN_LEN <= self@.len() <= STRICT_COLLECTION_MAX_LEN
    }

    pub fn len(&self) -> (len: u16)
        requires
            self.wf(),
            ord_lawful::<K>(),
        ensures
            len == self@.len(),
    {
        proof {
            lemma_map_len(&self.0);
        }
        self.0.len() as u16
    }
}

/// A string of at least `MIN_LEN` bytes.
#[derive(Debug)]
pub struct StrictStr<const MIN_LEN: u16>(String);

impl<const MIN_LEN: u16> View for StrictStr<MIN_LEN> {
    type V = Seq<char>;

    closed spec fn view(&self) -> Seq<char> {
        self.0@
    }
}

impl StrictStr<0> {
    pub fn new() -> (s: Self)
        ensures
            s@ == Seq::<char>::empty(),
    {
        StrictStr(String::new())
    }
}

impl<const MIN_LEN: u16> StrictStr<MIN_LEN> {
    /// The number of bytes of the string, taken modulo 0x10000.
    pub fn len(&self) -> (len: u16)
        ensures
            len == ((vstd::utf8::encode_utf8(self@).len() as usize) as u16),
    {
        let n = self.0.as_str().len();
        #[verifier::truncate]
        (n as u16)
    }
}

/// An ASCII string of at least `MIN_LEN` and at most `MAX_LEN` characters.
#[derive(Debug)]
pub struct AsciiString<const MIN_LEN: u16, const MAX_LEN: u16>(String);

impl<const MIN_LEN: u16, const MAX_LEN: u16> View for AsciiString<MIN_LEN, MAX_LEN> {
    type V = Seq<char>;

    closed spec fn view(&self) -> Seq<char> {
        self.0@
    }
}

impl<const MAX_LEN: u16> AsciiString<0, MAX_LEN> {
    pub fn new() -> (s: Self)
        ensures
            s@ == Seq::<char>::empty(),
    {
        AsciiString(String::new())
    }
}

impl<const MIN_LEN: u16, const MAX_LEN: u16> AsciiString<MIN_LEN, MAX_LEN> {
    /// The number of bytes of the string, taken modulo 0x10000.
    pub fn len(&self) -> (len: u16)
        ensures
            len == ((vstd::utf8::encode_utf8(self@).len() as usize) as u16),
    {
        let n = self.0.as_str().len();
        #[verifier::truncate]
        (n as u16)
    }
}

} // verus!
