//! Paths to types nested in a type.

use vstd::prelude::*;

use crate::ast::ty::{index_of_name, index_of_tag, Ty, TypeRef};
use crate::collection::OversizeError;
use crate::ident::{FieldName, VariantName};
use crate::util::{decimal, name_text, push_decimal, push_name, string_from_chars};

verus! {

/// A step from a type to a type nested in it.
#[derive(Debug)]
pub enum Step {
    NamedField(FieldName),
    UnnamedField(u8),
    Variant(VariantName),
    Index,
    List,
    SetOf,
    MapKey,
    MapValue,
}

/// A step, with names as their bytes.
pub enum StepView {
    NamedField(Seq<u8>),
    UnnamedField(u8),
    Variant(Seq<u8>),
    Index,
    List,
    SetOf,
    MapKey,
    MapValue,
}

/// The text of a step: `.` and the name or position of a field or variant, `#` for an
/// array item, `[]` for a list item, `{}` for a set item, `[key]` and `[value]` for
/// the keys and values of a map.
pub open spec fn step_text(s: StepView) -> Seq<char> {
    match s {
        StepView::NamedField(name) => seq!['.'] + name_text(name),
        StepView::UnnamedField(pos) => seq!['.'] + decimal(pos as nat),
        StepView::Variant(name) => seq!['.'] + name_text(name),
        StepView::Index => seq!['#'],
        StepView::List => seq!['[', ']'],
        StepView::SetOf => seq!['{', '}'],
        StepView::MapKey => seq!['[', 'k', 'e', 'y', ']'],
        StepView::MapValue => seq!['[', 'v', 'a', 'l', 'u', 'e', ']'],
    }
}

/// The text of a path: the texts of its steps, one after another.
pub open spec fn path_text(steps: Seq<StepView>) -> Seq<char>
    decreases steps.len(),
{
    if steps.len() == 0 {
        Seq::empty()
    } else {
        path_text(steps.drop_last()) + step_text(steps.last())
    }
}

impl Step {
    /// Appends the text of the step.
    pub fn push_text(&self, out: &mut Vec<char>)
        ensures
            final(out)@ == old(out)@ + step_text(self@),
    {
        let ghost start = out@;
        match self {
            Step::NamedField(name) => {
                out.push('.');
                push_name(name.as_bytes(), out);
            },
            Step::UnnamedField(pos) => {
                out.push('.');
                push_decimal(*pos as u64, out);
            },
            Step::Variant(name) => {
                out.push('.');
                push_name(name.as_bytes(), out);
            },
            Step::Index => {
                out.push('#');
            },
            Step::List => {
                out.push('[');
                out.push(']');
            },
            Step::SetOf => {
                out.push('{');
                out.push('}');
            },
            Step::MapKey => {
                out.push('[');
                out.push('k');
                out.push('e');
                out.push('y');
                out.push(']');
            },
            Step::MapValue => {
                out.push('[');
                out.push('v');
                out.push('a');
                out.push('l');
                out.push('u');
                out.push('e');
                out.push(']');
            },
        }
        assert(out@ =~= start + step_text(self@));
    }
}

impl View for Step {
    type V = StepView;

    open spec fn view(&self) -> StepView {
        match self {
            Step::NamedField(name) => StepView::NamedField(name@),
            Step::UnnamedField(pos) => StepView::UnnamedField(*pos),
            Step::Variant(name) => StepView::Variant(name@),
            Step::Index => StepView::Index,
            Step::List => StepView::List,
            Step::SetOf => StepView::SetOf,
            Step::MapKey => StepView::MapKey,
            Step::MapValue => StepView::MapValue,
        }
    }
}

impl Clone for Step {
    fn clone(&self) -> (c: Self)
        ensures
            c@ == self@,
    {
        match self {
            Step::NamedField(name) => Step::NamedField(name.clone()),
            Step::UnnamedField(pos) => Step::UnnamedField(*pos),
            Step::Variant(name) => Step::Variant(name.clone()),
            Step::Index => Step::Index,
            Step::List => Step::List,
            Step::SetOf => Step::SetOf,
            Step::MapKey => Step::MapKey,
            Step::MapValue => Step::MapValue,
        }
    }
}

/// A path: at most 0xFFFF steps.
#[derive(Debug)]
pub struct Path {
    steps: Vec<Step>,
}

impl View for Path {
    type V = Seq<StepView>;

    closed spec fn view(&self) -> Seq<StepView> {
        self.steps@.map_values(|s: Step| s@)
    }
}

impl Path {
    #[verifier::type_invariant]
    spec fn inv(self) -> bool {
        self.steps@.len() <= 0xFFFF
    }

    /// The empty path.
    pub fn new() -> (p: Path)
        ensures
            p@ == Seq::<StepView>::empty(),
    {
        let p = Path { steps: Vec::new() };
        assert(p@ =~= Seq::<StepView>::empty());
        p
    }

    /// The path of one step.
    pub fn with(step: Step) -> (p: Path)
        ensures
            p@ == seq![step@],
    {
        let ghost v = step@;
        let p = Path { steps: vec![step] };
        assert(p@ =~= seq![v]);
        p
    }

    pub fn len(&self) -> (len: usize)
        ensures
            len == self@.len(),
            len <= 0xFFFF,
    {
        proof {
            use_type_invariant(self);
        }
        self.steps.len()
    }

    /// The steps, in order.
    pub fn as_slice(&self) -> (s: &[Step])
        ensures
            s@.map_values(|x: Step| x@) == self@,
    {
        self.steps.as_slice()
    }

    /// The steps, in order: the same as [`Path::as_slice`].
    pub fn iter(&self) -> (s: &[Step])
        ensures
            s@.map_values(|x: Step| x@) == self@,
    {
        self.as_slice()
    }

    /// Appends the text of the path: the text of each step, in order.
    pub fn push_text(&self, out: &mut Vec<char>)
        ensures
            final(out)@ == old(out)@ + path_text(self@),
    {
        let ghost start = out@;
        let steps = self.as_slice();
        let ghost views = steps@.map_values(|x: Step| x@);
        let mut i: usize = 0;
        while i < steps.len()
            invariant
                i <= steps@.len(),
                views == steps@.map_values(|x: Step| x@),
                views == self@,
                out@ == start + path_text(views.take(i as int)),
            decreases steps@.len() - i,
        {
            steps[i].push_text(out);
            assert(views.take(i + 1).drop_last() =~= views.take(i as int));
            i = i + 1;
        }
        assert(views.take(steps@.len() as int) =~= views);
    }

    /// The text of the path.
    pub fn to_string(&self) -> (s: String)
        ensures
            s@ == path_text(self@),
    {
        let mut out: Vec<char> = Vec::new();
        self.push_text(&mut out);
        assert(out@ =~= path_text(self@));
        string_from_chars(out)
    }

    /// Appends a step, unless the path already holds 0xFFFF steps.
    pub fn push(&mut self, step: Step) -> (res: Result<(), OversizeError>)
        ensures
            old(self)@.len() < 0xFFFF ==> res is Ok && final(self)@ == old(self)@.push(step@),
            old(self)@.len() >= 0xFFFF ==> res is Err && final(self)@ == old(self)@,
    {
        proof {
            use_type_invariant(&*self);
        }
        if self.steps.len() >= 0xFFFF {
            return Err(OversizeError);
        }
        let ghost s = self@;
        let ghost v = step@;
        let mut steps: Vec<Step> = Vec::new();
        std::mem::swap(&mut steps, &mut self.steps);
        steps.push(step);
        assert(steps@.map_values(|x: Step| x@) =~= s.push(v));
        std::mem::swap(&mut steps, &mut self.steps);
        Ok(())
    }
}

/// The index of the first name equal to `name`, if any.
pub open spec fn first_name_index(names: Seq<Seq<u8>>, name: Seq<u8>) -> Option<int> {
    if exists|i: int| 0 <= i < names.len() && names[i] == name && forall|j: int| 0 <= j < i ==> names[j] != name {
        Some(choose|i: int| 0 <= i < names.len() && names[i] == name && forall|j: int| 0 <= j < i ==> names[j] != name)
    } else {
        None
    }
}

/// The reference that a step from `ty` leads to.
pub open spec fn step_ref<Ref>(ty: Ty<Ref>, step: StepView) -> Option<Ref> {
    match (ty, step) {
        (Ty::Struct(fields), StepView::NamedField(name)) => match first_name_index(fields.spec_names(), name) {
            Some(i) => Some(fields.spec_tys()[i]),
            None => None,
        },
        (Ty::Union(vars), StepView::Variant(name)) => match index_of_name(vars.spec_variants(), name) {
            Some(i) => Some(vars.spec_tys()[i]),
            None => None,
        },
        (Ty::Struct(fields), StepView::UnnamedField(pos)) => if pos < fields.spec_tys().len() {
            Some(fields.spec_tys()[pos as int])
        } else {
            None
        },
        (Ty::Union(vars), StepView::UnnamedField(tag)) => match index_of_tag(vars.spec_variants(), tag) {
            Some(i) => Some(vars.spec_tys()[i]),
            None => None,
        },
        (Ty::Array(r, _), StepView::Index) => Some(r),
        (Ty::List(r, _), StepView::List) => Some(r),
        (Ty::SetOf(r, _), StepView::SetOf) => Some(r),
        (Ty::MapOf(k, _, _), StepView::MapKey) => Some(k),
        (Ty::MapOf(_, v, _), StepView::MapValue) => Some(v),
        _ => None,
    }
}

/// The type that a step from `ty` leads to, where the reference carries it inline.
pub open spec fn step_ty<Ref: TypeRef>(ty: Ty<Ref>, step: StepView) -> Option<Ty<Ref>> {
    match step_ref(ty, step) {
        Some(r) => r.spec_as_ty(),
        None => None,
    }
}

/// The outcome of looking a path up in `root`. The steps are taken from the last to
/// the first, each from `root` itself; the outcome is the type that the first step
/// leads to. A step that leads nowhere ends the lookup, with the steps taken so far,
/// in the order they were taken. Every step is taken from `root`, not from the type
/// the previous step reached: this is deliberate, it is what the lookup does.
pub open spec fn path_lookup<Ref: TypeRef>(root: Ty<Ref>, steps: Seq<StepView>) -> Result<Ty<Ref>, Seq<StepView>>
    decreases steps.len(),
{
    if steps.len() == 0 {
        Ok(root)
    } else if step_ty(root, steps.last()) is None {
        Err(seq![steps.last()])
    } else if steps.len() == 1 {
        Ok(step_ty(root, steps.last())->0)
    } else {
        match path_lookup(root, steps.drop_last()) {
            Ok(t) => Ok(t),
            Err(p) => Err(seq![steps.last()] + p),
        }
    }
}

/// A path that leads nowhere within a type.
pub struct PathError<'ty, Ref> {
    pub ty: &'ty Ty<Ref>,
    pub path: Path,
}

impl<'ty, Ref> PathError<'ty, Ref> {
    pub fn new(ty: &'ty Ty<Ref>, path: Path) -> (e: Self)
        ensures
            e.ty == ty,
            e.path@ == path@,
    {
        PathError { ty, path }
    }
}

/// The reference that `step` leads to from `ty`.
fn step_target<'a, Ref>(ty: &'a Ty<Ref>, step: &Step) -> (r: Option<&'a Ref>)
    ensures
        r matches Some(t) ==> step_ref(*ty, step@) == Some(*t),
        r is None ==> step_ref(*ty, step@) is None,
{
    match (ty, step) {
        (Ty::Struct(fields), Step::NamedField(name)) => {
            let r = fields.ty_by_name(name);
            proof {
                let names = fields.spec_names();
                if r is Some {
                    let i = choose|i: int|
                        0 <= i < names.len() && names[i] == name@ && *r->0 == fields.spec_tys()[i]
                            && forall|j: int| 0 <= j < i ==> names[j] != name@;
                    let k = first_name_index(names, name@)->0;
                    assert(first_name_index(names, name@) is Some);
                    if k < i {
                        assert(names[k] != name@);
                    } else if k > i {
                        assert(names[i] != name@);
                    }
                }
            }
            r
        },
        (Ty::Union(vars), Step::Variant(name)) => vars.ty_by_name(name),
        (Ty::Struct(fields), Step::UnnamedField(pos)) => fields.ty_by_pos(*pos),
        (Ty::Union(vars), Step::UnnamedField(tag)) => vars.ty_by_tag(*tag),
        (Ty::Array(r, _), Step::Index) => Some(r),
        (Ty::List(r, _), Step::List) => Some(r),
        (Ty::SetOf(r, _), Step::SetOf) => Some(r),
        (Ty::MapOf(k, _, _), Step::MapKey) => Some(k),
        (Ty::MapOf(_, v, _), Step::MapValue) => Some(v),
        _ => None,
    }
}

/// The outcome of a lookup that took some steps before the rest.
pub open spec fn after_steps<T>(taken: Seq<StepView>, rest: Result<T, Seq<StepView>>) -> Result<T, Seq<StepView>> {
    match rest {
        Ok(t) => Ok(t),
        Err(p) => Err(taken + p),
    }
}

impl<Ref: TypeRef> Ty<Ref> {
    /// Looks a path up in the type (see [`path_lookup`]).
    pub fn at_path<'a>(&'a self, path: &Path) -> (res: Result<&'a Ty<Ref>, PathError<'a, Ref>>)
        ensures
            res matches Ok(t) ==> path_lookup(*self, path@) == Ok::<Ty<Ref>, Seq<StepView>>(*t),
            res matches Err(e) ==> e.ty == self && path_lookup(*self, path@) == Err::<Ty<Ref>, Seq<StepView>>(
                e.path@,
            ),
    {
        let steps = path.as_slice();
        let ghost sv = path@;
        assert(steps@.map_values(|x: Step| x@) == sv);
        let n = path.len();
        if n == 0 {
            return Ok(self);
        }
        let mut ty: &'a Ty<Ref> = self;
        let mut so_far = Path::new();
        let mut i: usize = n;
        assert(sv.take(n as int) =~= sv);
        assert(after_steps(so_far@, path_lookup(*self, sv)) == path_lookup(*self, sv)) by {
            if path_lookup(*self, sv) is Err {
                assert(so_far@ + path_lookup(*self, sv)->Err_0 =~= path_lookup(*self, sv)->Err_0);
            }
        }
        while i > 0
            invariant
                i <= n,
                n == sv.len(),
                sv == path@,
                n <= 0xFFFF,
                n - i == so_far@.len(),
                steps@.map_values(|x: Step| x@) == sv,
                i > 0 ==> path_lookup(*self, sv) == after_steps(so_far@, path_lookup(*self, sv.take(i as int))),
                i == 0 ==> path_lookup(*self, sv) == Ok::<Ty<Ref>, Seq<StepView>>(*ty),
            decreases i,
        {
            let ghost pre = sv.take(i as int);
            let ghost taken = so_far@;
            assert(pre.last() == sv[i - 1]);
            assert(pre.drop_last() =~= sv.take(i - 1));
            let step = &steps[i - 1];
            assert(step@ == sv[i - 1]);
            let target = step_target(self, step);
            let next = match target {
                Some(r) => r.as_ty(),
                None => None,
            };
            let pushed = so_far.push(step.clone());
            assert(pushed is Ok);
            assert(so_far@ == taken.push(sv[i - 1]));
            match next {
                Some(t) => {
                    ty = t;
                    proof {
                        if i >= 2 {
                            let rest = path_lookup(*self, sv.take(i - 1));
                            if rest is Err {
                                assert(taken + (seq![sv[i - 1]] + rest->Err_0) =~= so_far@ + rest->Err_0);
                            }
                        }
                    }
                },
                None => {
                    assert(path_lookup(*self, pre) == Err::<Ty<Ref>, Seq<StepView>>(seq![sv[i - 1]]));
                    assert(taken + seq![sv[i - 1]] =~= so_far@);
                    assert(path_lookup(*self, sv) == Err::<Ty<Ref>, Seq<StepView>>(so_far@));
                    let e = PathError::new(self, so_far);
                    assert(path_lookup(*self, path@) == Err::<Ty<Ref>, Seq<StepView>>(e.path@));
                    return Err(e);
                },
            }
            i = i - 1;
        }
        Ok(ty)
    }
}

} // verus!
