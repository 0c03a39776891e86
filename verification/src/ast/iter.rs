//! The type references of a type, in order.

use vstd::prelude::*;

use crate::ast::display::cls_text;
use crate::ast::path::{path_text, Path};
use crate::ast::ty::{lemma_ty_at_count, Cls, ItemCase, Ty};
use crate::util::{decimal, push_decimal, push_str, string_from_chars};

verus! {

/// Why a value does not check against a type.
#[derive(Debug)]
pub enum CheckError {
    /// The type at the path has no nested types.
    NoSubtypes(Cls, Path),
    /// A type of one class stands where a type of another was expected.
    TypeMismatch { expected: Cls, found: Cls, path: Path },
    /// Fewer fields were checked than the type has.
    UncheckedFields { checked: u8, total: u8 },
}

impl CheckError {
    /// The message of the error.
    pub open spec fn text(&self) -> Seq<char> {
        match self {
            CheckError::NoSubtypes(cls, path) => "the type "@ + cls_text(*cls) + " at the current path "@
                + path_text(path@) + " doesn't have subtypes"@,
            CheckError::TypeMismatch { expected, found, path } => "type "@ + cls_text(*found)
                + " found when "@ + cls_text(*expected) + " was expected at path "@ + path_text(path@),
            CheckError::UncheckedFields { checked, total } => "only "@ + decimal(*checked as nat)
                + " fields were checked out of "@ + decimal(*total as nat) + " fields in total"@,
        }
    }

    /// The message of the error.
    pub fn to_string(&self) -> (s: String)
        ensures
            s@ == self.text(),
    {
        let mut out: Vec<char> = Vec::new();
        match self {
            CheckError::NoSubtypes(cls, path) => {
                push_str("the type ", &mut out);
                cls.push_text(&mut out);
                push_str(" at the current path ", &mut out);
                path.push_text(&mut out);
                push_str(" doesn't have subtypes", &mut out);
            },
            CheckError::TypeMismatch { expected, found, path } => {
                push_str("type ", &mut out);
                found.push_text(&mut out);
                push_str(" found when ", &mut out);
                expected.push_text(&mut out);
                push_str(" was expected at path ", &mut out);
                path.push_text(&mut out);
            },
            CheckError::UncheckedFields { checked, total } => {
                push_str("only ", &mut out);
                push_decimal(*checked as u64, &mut out);
                push_str(" fields were checked out of ", &mut out);
                push_decimal(*total as u64, &mut out);
                push_str(" fields in total", &mut out);
            },
        }
        assert(out@ =~= self.text());
        string_from_chars(out)
    }
}

impl<Ref> Ty<Ref> {
    /// The references to the types nested in this one, in order, each with the case
    /// that [`Ty::case_at`] gives for its position.
    pub fn iter(&self) -> (items: Vec<(&Ref, Option<ItemCase>)>)
        ensures
            items@.len() == self.spec_count_type_refs(),
            forall|i: int| 0 <= i < items@.len() ==> self.spec_ty_at(i as u8) == Some(*(#[trigger] items@[i]).0),
            forall|i: int| 0 <= i < items@.len() ==> self.spec_case_is(i as u8, (#[trigger] items@[i]).1),
    {
        match self {
            Ty::Union(u) => u.check_wf(),
            Ty::Struct(f) => f.check_wf(),
            Ty::Tuple(f) => f.check_wf(),
            _ => {},
        }
        let n = self.count_type_refs();
        let mut items: Vec<(&Ref, Option<ItemCase>)> = Vec::new();
        let mut pos: u8 = 0;
        while pos < n
            invariant
                pos <= n,
                n == self.spec_count_type_refs(),
                items@.len() == pos,
                self matches Ty::Union(v) ==> v.spec_tys().len() == v.spec_variants().len(),
                self matches Ty::Struct(f) ==> f.spec_tys().len() == f.spec_names().len(),
                forall|i: int| 0 <= i < pos ==> self.spec_ty_at(i as u8) == Some(*(#[trigger] items@[i]).0),
                forall|i: int| 0 <= i < pos ==> self.spec_case_is(i as u8, (#[trigger] items@[i]).1),
            decreases n - pos,
        {
            proof {
                lemma_ty_at_count(self, pos);
            }
            let r = self.ty_at(pos).unwrap();
            let case = self.case_at(pos);
            items.push((r, case));
            pos = pos + 1;
        }
        items
    }

    /// The references to the types nested in this one, in order: the same as
    /// [`Ty::iter`].
    pub fn type_refs(&self) -> (items: Vec<(&Ref, Option<ItemCase>)>)
        ensures
            items@.len() == self.spec_count_type_refs(),
            forall|i: int| 0 <= i < items@.len() ==> self.spec_ty_at(i as u8) == Some(*(#[trigger] items@[i]).0),
            forall|i: int| 0 <= i < items@.len() ==> self.spec_case_is(i as u8, (#[trigger] items@[i]).1),
    {
        self.iter()
    }
}

} // verus!
