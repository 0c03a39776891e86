//! Strict types: a type system for deterministic, confined binary data layouts.
//!
//! The crate describes primitive types, identifiers, type ASTs, their semantic
//! commitments and binary encodings, memory-layout algebra and bounded collections.

pub mod primitive;
pub mod collection;
pub mod ident;
pub mod encoding;
pub mod util;
pub mod ast;
pub mod digest;
pub mod layout;
pub mod ty;
pub mod data;
pub mod armor;
pub mod bindle;
pub mod bindle_law;
pub mod dtl;
pub mod typelib;

use vstd::prelude::*;

verus! {

/// A hasher, or any other sink, that consumes the bytes a value commits to.
pub trait CommitConsume {
    /// All bytes consumed so far.
    spec fn consumed(&self) -> Seq<u8>;

    /// The data of each call of `commit_consume` so far, in order.
    spec fn calls(&self) -> Seq<Seq<u8>>;

    fn commit_consume(&mut self, data: &[u8])
        ensures
            final(self).consumed() == old(self).consumed() + data@,
            final(self).calls() == old(self).calls().push(data@),
    ;
}

} // verus!
