use vstd::prelude::*;

use crate::collection::ConfinementError;
use crate::ident::InvalidIdent;

verus! {

/// Errors in decoding binary data.
#[derive(Clone, PartialEq, Eq, Debug)]
pub enum DecodeError {
    /// the data ended before a complete value was read
    UnexpectedEnd,
    /// unknown type class value {0}
    WrongTyCls(u8),
    /// invalid type class {0} for map keys
    InvalidTyCls(u8),
    /// unknown variant id {0} for inline type reference
    WrongRef(u8),
    /// confinement requirements are not satisfied. Specifically, {0}
    Confinement(ConfinementError),
    /// the identifier is invalid: {0}
    InvalidIdent(InvalidIdent),
    /// invalid value {1} for {0} enum
    WrongEnumId(&'static str, u8),
    /// value occurs multiple times in a set
    RepeatedSetValue,
    /// key occurs multiple times in a map
    RepeatedMapValue,
    /// encoded values are not deterministically ordered within a set
    BrokenSetOrder,
    /// encoded map has wrong order of keys
    BrokenMapOrder,
}

/// A value with a binary encoding.
pub trait Encode {
    /// The bytes that encode the value.
    spec fn spec_encode(&self) -> Seq<u8>;

    /// Appends the encoding of the value to `out`.
    fn encode(&self, out: &mut Vec<u8>)
        ensures
            final(out)@ == old(out)@ + self.spec_encode(),
    ;
}

/// A reader of typed values.
pub trait TypedRead: Sized {}

} // verus!
