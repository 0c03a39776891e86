//! Variants of enums described by static names.

use vstd::prelude::*;

use crate::encoding::types::str_eq;

verus! {

/// A variant of an enum, by its static name and its value.
#[derive(Copy, Clone, Debug)]
pub struct Variant {
    pub name: &'static str,
    pub value: u8,
}

impl Variant {
    pub fn new(name: &'static str, value: u8) -> (v: Variant)
        ensures
            v.name == name,
            v.value == value,
    {
        Variant { name, value }
    }
}

/// Two variants are the same when they share the name or the value: an enum can't
/// hold both.
impl PartialEq for Variant {
    fn eq(&self, other: &Self) -> (r: bool) {
        str_eq(self.name, other.name) || self.value == other.value
    }
}

impl vstd::std_specs::cmp::PartialEqSpecImpl for Variant {
    open spec fn obeys_eq_spec() -> bool {
        true
    }

    open spec fn eq_spec(&self, other: &Self) -> bool {
        self.name@ == other.name@ || self.value == other.value
    }
}

} // verus!
