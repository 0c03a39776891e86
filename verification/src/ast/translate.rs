//! Translation of type ASTs from one kind of type reference to another.

use vstd::prelude::*;

use crate::ast::ty::{Field, NamedFields, Ty, UnionVariants, UnnamedFields, Variant, MAX_ITEMS};
use crate::ident::FieldName;
use crate::util::Sizing;

verus! {

/// Conversion of a value into another kind, with a builder it may update and a
/// context it reads.
pub trait Translate<To>: Sized {
    type Context;
    type Builder;
    type Error;

    /// Whether translating `self` with the builder at `before` and the context `ctx`
    /// gives `res` and leaves the builder at `after`. An implementation states here
    /// what its `translate` does; where it states nothing, nothing is known of it.
    open spec fn translates(
        self,
        before: Self::Builder,
        ctx: Self::Context,
        res: Result<To, Self::Error>,
        after: Self::Builder,
    ) -> bool {
        true
    }

    fn translate(self, builder: &mut Self::Builder, ctx: &Self::Context) -> (res: Result<To, Self::Error>)
        ensures
            self.translates(*old(builder), *ctx, res, *final(builder)),
    ;
}

/// Two types have the same shape when they differ in their type references alone:
/// the same class, primitive, variants, field names, lengths and sizes.
pub open spec fn same_shape<A, B>(a: Ty<A>, b: Ty<B>) -> bool {
    match (a, b) {
        (Ty::Primitive(p), Ty::Primitive(q)) => p == q,
        (Ty::UnicodeChar, Ty::UnicodeChar) => true,
        (Ty::Enum(x), Ty::Enum(y)) => x@ == y@,
        (Ty::Union(x), Ty::Union(y)) => x.spec_variants() == y.spec_variants(),
        (Ty::Struct(x), Ty::Struct(y)) => x.spec_names() == y.spec_names(),
        (Ty::Tuple(x), Ty::Tuple(y)) => x@.len() == y@.len(),
        (Ty::Array(_, n), Ty::Array(_, m)) => n == m,
        (Ty::List(_, s), Ty::List(_, t)) => s == t,
        (Ty::SetOf(_, s), Ty::SetOf(_, t)) => s == t,
        (Ty::MapOf(_, _, s), Ty::MapOf(_, _, t)) => s == t,
        _ => false,
    }
}

/// Whether `refs[j]` translates to `ts[j]` with the builder going from `bs[j]` to
/// `bs[j + 1]`, for every `j` below the length of `ts`.
pub open spec fn translates_chain<Ref: Translate<ToRef>, ToRef>(
    refs: Seq<Ref>,
    bs: Seq<Ref::Builder>,
    ctx: Ref::Context,
    ts: Seq<ToRef>,
) -> bool {
    &&& ts.len() <= refs.len()
    &&& bs.len() == ts.len() + 1
    &&& forall|j: int|
        #![trigger refs[j]]
        0 <= j < ts.len() ==> refs[j].translates(bs[j], ctx, Ok(ts[j]), bs[j + 1])
}

/// Translating `refs` one by one, in order, with the builder passed on from each to
/// the next, starting at `before`: `res` holds the translations of all of them, or
/// the error of the first that fails (after which no other is translated), and
/// `after` is the builder that the last translation made left.
pub open spec fn translates_all<Ref: Translate<ToRef>, ToRef>(
    refs: Seq<Ref>,
    before: Ref::Builder,
    ctx: Ref::Context,
    res: Result<Seq<ToRef>, Ref::Error>,
    after: Ref::Builder,
) -> bool {
    match res {
        Ok(ts) => ts.len() == refs.len() && exists|bs: Seq<Ref::Builder>|
            #[trigger] translates_chain(refs, bs, ctx, ts) && bs[0] == before && bs.last() == after,
        Err(e) => exists|bs: Seq<Ref::Builder>, ts: Seq<ToRef>|
            #[trigger] translates_chain(refs, bs, ctx, ts) && ts.len() < refs.len() && bs[0] == before
                && refs[ts.len() as int].translates(bs.last(), ctx, Err(e), after),
    }
}

/// Whether `k` translates to `tk` and then `v` to `tv`, with the builder going from
/// `before` to `after`.
pub open spec fn translates_pair<Ref: Translate<ToRef>, ToRef>(
    k: Ref,
    v: Ref,
    before: Ref::Builder,
    ctx: Ref::Context,
    tk: ToRef,
    tv: ToRef,
    after: Ref::Builder,
) -> bool {
    exists|mid: Ref::Builder|
        #[trigger] k.translates(before, ctx, Ok(tk), mid) && v.translates(mid, ctx, Ok(tv), after)
}

/// A result of a vector, with the vector taken by its view.
pub open spec fn seq_res<T, E>(res: Result<Vec<T>, E>) -> Result<Seq<T>, E> {
    match res {
        Ok(v) => Ok(v@),
        Err(e) => Err(e),
    }
}

/// Translates type references one by one, in order, stopping at the first error.
fn translate_refs<Ref: Translate<ToRef>, ToRef>(
    refs: Vec<Ref>,
    builder: &mut Ref::Builder,
    ctx: &Ref::Context,
) -> (res: Result<Vec<ToRef>, Ref::Error>)
    ensures
        translates_all(refs@, *old(builder), *ctx, seq_res(res), *final(builder)),
        res matches Ok(out) ==> out@.len() == refs@.len(),
{
    let ghost orig = refs@;
    let ghost mut bs: Seq<Ref::Builder> = seq![*builder];
    let mut refs = refs;
    let n = refs.len();
    let mut out: Vec<ToRef> = Vec::new();
    let mut failed: Option<Ref::Error> = None;
    let mut i: usize = 0;
    while i < n && failed.is_none()
        invariant
            i <= n,
            n == orig.len(),
            failed is None ==> refs@ == orig.skip(i as int),
            out@.len() == i,
            translates_chain(orig, bs, *ctx, out@),
            bs[0] == *old(builder),
            failed is None ==> bs.last() == *builder,
            failed matches Some(e) ==> i < n && orig[i as int].translates(bs.last(), *ctx, Err(e), *builder),
        decreases n - i + (if failed is None { 1int } else { 0int }),
    {
        let r = refs.remove(0);
        assert(r == orig[i as int]);
        assert(refs@ =~= orig.skip(i + 1));
        let res = r.translate(builder, ctx);
        match res {
            Ok(t) => {
                proof {
                    bs = bs.push(*builder);
                }
                out.push(t);
                i = i + 1;
            },
            Err(e) => {
                failed = Some(e);
            },
        }
    }
    match failed {
        Some(e) => Err(e),
        None => Ok(out),
    }
}

impl<Ref: Translate<ToRef>, ToRef> Translate<UnionVariants<ToRef>> for UnionVariants<Ref> {
    type Context = Ref::Context;
    type Builder = Ref::Builder;
    type Error = Ref::Error;

    /// The variants stay; their types are translated in order, stopping at the first
    /// error.
    open spec fn translates(
        self,
        before: Ref::Builder,
        ctx: Ref::Context,
        res: Result<UnionVariants<ToRef>, Ref::Error>,
        after: Ref::Builder,
    ) -> bool {
        match res {
            Ok(u) => u.spec_variants() == self.spec_variants() && translates_all(
                self.spec_tys(),
                before,
                ctx,
                Ok(u.spec_tys()),
                after,
            ),
            Err(e) => translates_all(self.spec_tys(), before, ctx, Err(e), after),
        }
    }

    fn translate(self, builder: &mut Ref::Builder, ctx: &Ref::Context) -> (res: Result<UnionVariants<ToRef>, Ref::Error>)
        ensures
            res matches Ok(u) ==> u.spec_variants() == self.spec_variants(),
    {
        let ghost vs = self.spec_variants();
        let (vars, tys) = self.into_parts();
        match translate_refs(tys, builder, ctx) {
            Ok(out) => Ok(UnionVariants::from_sorted(vars, out)),
            Err(e) => Err(e),
        }
    }
}

impl<Ref: Translate<ToRef>, ToRef> Translate<UnnamedFields<ToRef>> for UnnamedFields<Ref> {
    type Context = Ref::Context;
    type Builder = Ref::Builder;
    type Error = Ref::Error;

    /// The fields are translated in order, stopping at the first error.
    open spec fn translates(
        self,
        before: Ref::Builder,
        ctx: Ref::Context,
        res: Result<UnnamedFields<ToRef>, Ref::Error>,
        after: Ref::Builder,
    ) -> bool {
        match res {
            Ok(f) => translates_all(self@, before, ctx, Ok(f@), after),
            Err(e) => translates_all(self@, before, ctx, Err(e), after),
        }
    }

    fn translate(self, builder: &mut Ref::Builder, ctx: &Ref::Context) -> (res: Result<UnnamedFields<ToRef>, Ref::Error>)
        ensures
            res matches Ok(f) ==> f@.len() == self@.len(),
    {
        self.check_wf();
        let fields = self.into_inner();
        match translate_refs(fields, builder, ctx) {
            Ok(out) => Ok(UnnamedFields::from_checked(out)),
            Err(e) => Err(e),
        }
    }
}

impl<Ref: Translate<ToRef>, ToRef> Translate<NamedFields<ToRef>> for NamedFields<Ref> {
    type Context = Ref::Context;
    type Builder = Ref::Builder;
    type Error = Ref::Error;

    /// The names stay; the types of the fields are translated in order, stopping at
    /// the first error.
    open spec fn translates(
        self,
        before: Ref::Builder,
        ctx: Ref::Context,
        res: Result<NamedFields<ToRef>, Ref::Error>,
        after: Ref::Builder,
    ) -> bool {
        match res {
            Ok(f) => f.spec_names() == self.spec_names() && translates_all(
                self.spec_tys(),
                before,
                ctx,
                Ok(f.spec_tys()),
                after,
            ),
            Err(e) => translates_all(self.spec_tys(), before, ctx, Err(e), after),
        }
    }

    fn translate(self, builder: &mut Ref::Builder, ctx: &Ref::Context) -> (res: Result<NamedFields<ToRef>, Ref::Error>)
        ensures
            res matches Ok(f) ==> f.spec_names() == self.spec_names(),
    {
        self.check_wf();
        let ghost names = self.spec_names();
        let ghost tys = self.spec_tys();
        let mut fields = self.into_inner();
        let n = fields.len();
        // Parts the fields into their names and their types.
        let mut field_names: Vec<FieldName> = Vec::new();
        let mut field_tys: Vec<Ref> = Vec::new();
        let mut i: usize = 0;
        while i < n
            invariant
                i <= n,
                names.len() == n,
                tys.len() == n,
                fields@.len() == n - i,
                fields@.map_values(|f: Field<Ref>| f.name@) == names.skip(i as int),
                fields@.map_values(|f: Field<Ref>| f.ty) == tys.skip(i as int),
                field_names@.map_values(|f: FieldName| f@) == names.take(i as int),
                field_tys@ == tys.take(i as int),
            decreases n - i,
        {
            let ghost before = fields@.map_values(|f: Field<Ref>| f.name@);
            let ghost before_tys = fields@.map_values(|f: Field<Ref>| f.ty);
            let ghost done = field_names@.map_values(|f: FieldName| f@);
            let field = fields.remove(0);
            assert(field.name@ == before[0]);
            assert(field.ty == before_tys[0]);
            assert(fields@.map_values(|f: Field<Ref>| f.name@) =~= before.drop_first());
            assert(fields@.map_values(|f: Field<Ref>| f.ty) =~= before_tys.drop_first());
            let Field { name, ty } = field;
            let ghost nv = name@;
            field_names.push(name);
            field_tys.push(ty);
            i = i + 1;
            assert(field_names@.map_values(|f: FieldName| f@) =~= done.push(nv));
            assert(field_names@.map_values(|f: FieldName| f@) =~= names.take(i as int));
            assert(field_tys@ =~= tys.take(i as int));
            assert(fields@.map_values(|f: Field<Ref>| f.name@) =~= names.skip(i as int));
            assert(fields@.map_values(|f: Field<Ref>| f.ty) =~= tys.skip(i as int));
        }
        assert(tys.take(n as int) =~= tys);
        assert(names.take(n as int) =~= names);
        let translated = translate_refs(field_tys, builder, ctx);
        match translated {
            Err(e) => Err(e),
            Ok(out_tys) => {
                let ghost ts = out_tys@;
                // Puts the names back with the translated types.
                let mut out_tys = out_tys;
                let mut out: Vec<Field<ToRef>> = Vec::new();
                let mut j: usize = 0;
                while j < n
                    invariant
                        j <= n,
                        1 <= n <= MAX_ITEMS,
                        ts.len() == n,
                        names.len() == n,
                        field_names@.len() == n - j,
                        out_tys@.len() == n - j,
                        field_names@.map_values(|f: FieldName| f@) == names.skip(j as int),
                        out_tys@ == ts.skip(j as int),
                        out@.map_values(|f: Field<ToRef>| f.name@) == names.take(j as int),
                        out@.map_values(|f: Field<ToRef>| f.ty) == ts.take(j as int),
                    decreases n - j,
                {
                    let ghost nb = field_names@.map_values(|f: FieldName| f@);
                    let ghost dn = out@.map_values(|f: Field<ToRef>| f.name@);
                    let ghost dt = out@.map_values(|f: Field<ToRef>| f.ty);
                    let name = field_names.remove(0);
                    let ty = out_tys.remove(0);
                    assert(name@ == nb[0]);
                    assert(ty == ts[j as int]);
                    let ghost nv = name@;
                    out.push(Field { name, ty });
                    j = j + 1;
                    assert(out@.map_values(|f: Field<ToRef>| f.name@) =~= dn.push(nv));
                    assert(out@.map_values(|f: Field<ToRef>| f.name@) =~= names.take(j as int));
                    assert(out@.map_values(|f: Field<ToRef>| f.ty) =~= dt.push(ty));
                    assert(out@.map_values(|f: Field<ToRef>| f.ty) =~= ts.take(j as int));
                    assert(field_names@.map_values(|f: FieldName| f@) =~= nb.drop_first());
                    assert(field_names@.map_values(|f: FieldName| f@) =~= names.skip(j as int));
                    assert(out_tys@ =~= ts.skip(j as int));
                }
                assert(names.take(n as int) =~= names);
                assert(ts.take(n as int) =~= ts);
                Ok(NamedFields::from_checked(out))
            },
        }
    }
}

impl<Ref: Translate<ToRef>, ToRef> Translate<Ty<ToRef>> for Ty<Ref> {
    type Context = Ref::Context;
    type Builder = Ref::Builder;
    type Error = Ref::Error;

    /// Every type reference of the type is translated, in order, stopping at the first
    /// error; the rest of the type stays. A type without references is kept as it is,
    /// with the builder untouched.
    open spec fn translates(
        self,
        before: Ref::Builder,
        ctx: Ref::Context,
        res: Result<Ty<ToRef>, Ref::Error>,
        after: Ref::Builder,
    ) -> bool {
        match self {
            Ty::Primitive(p) => res == Ok::<Ty<ToRef>, Ref::Error>(Ty::Primitive(p)) && after == before,
            Ty::Enum(v) => res == Ok::<Ty<ToRef>, Ref::Error>(Ty::Enum(v)) && after == before,
            Ty::UnicodeChar => res == Ok::<Ty<ToRef>, Ref::Error>(Ty::UnicodeChar) && after == before,
            Ty::Union(u) => match res {
                Ok(Ty::Union(t)) => u.translates(before, ctx, Ok(t), after),
                Ok(_) => false,
                Err(e) => u.translates(before, ctx, Err(e), after),
            },
            Ty::Struct(f) => match res {
                Ok(Ty::Struct(t)) => f.translates(before, ctx, Ok(t), after),
                Ok(_) => false,
                Err(e) => f.translates(before, ctx, Err(e), after),
            },
            Ty::Tuple(f) => match res {
                Ok(Ty::Tuple(t)) => f.translates(before, ctx, Ok(t), after),
                Ok(_) => false,
                Err(e) => f.translates(before, ctx, Err(e), after),
            },
            Ty::Array(r, len) => match res {
                Ok(Ty::Array(t, l)) => l == len && r.translates(before, ctx, Ok(t), after),
                Ok(_) => false,
                Err(e) => r.translates(before, ctx, Err(e), after),
            },
            Ty::List(r, sizing) => match res {
                Ok(Ty::List(t, s)) => s == sizing && r.translates(before, ctx, Ok(t), after),
                Ok(_) => false,
                Err(e) => r.translates(before, ctx, Err(e), after),
            },
            Ty::SetOf(r, sizing) => match res {
                Ok(Ty::SetOf(t, s)) => s == sizing && r.translates(before, ctx, Ok(t), after),
                Ok(_) => false,
                Err(e) => r.translates(before, ctx, Err(e), after),
            },
            Ty::MapOf(k, v, sizing) => match res {
                Ok(Ty::MapOf(tk, tv, s)) => s == sizing && translates_pair(k, v, before, ctx, tk, tv, after),
                Ok(_) => false,
                Err(e) => k.translates(before, ctx, Err(e), after) || exists|mid: Ref::Builder, tk: ToRef|
                    #[trigger] k.translates(before, ctx, Ok(tk), mid) && v.translates(mid, ctx, Err(e), after),
            },
        }
    }

    fn translate(self, builder: &mut Ref::Builder, ctx: &Ref::Context) -> (res: Result<Ty<ToRef>, Ref::Error>)
        ensures
            res matches Ok(t) ==> same_shape(self, t),
    {
        match self {
            Ty::Primitive(prim) => Ok(Ty::Primitive(prim)),
            Ty::Enum(vars) => Ok(Ty::Enum(vars)),
            Ty::Union(fields) => {
                let r = fields.translate(builder, ctx);
                match r {
                    Ok(f) => Ok(Ty::Union(f)),
                    Err(e) => Err(e),
                }
            },
            Ty::Struct(fields) => {
                let r = fields.translate(builder, ctx);
                match r {
                    Ok(f) => Ok(Ty::Struct(f)),
                    Err(e) => Err(e),
                }
            },
            Ty::Tuple(fields) => {
                let r = fields.translate(builder, ctx);
                match r {
                    Ok(f) => Ok(Ty::Tuple(f)),
                    Err(e) => Err(e),
                }
            },
            Ty::Array(ty, len) => {
                let r = ty.translate(builder, ctx);
                match r {
                    Ok(t) => Ok(Ty::Array(t, len)),
                    Err(e) => Err(e),
                }
            },
            Ty::UnicodeChar => Ok(Ty::UnicodeChar),
            Ty::List(ty, sizing) => {
                let r = ty.translate(builder, ctx);
                match r {
                    Ok(t) => Ok(Ty::List(t, sizing)),
                    Err(e) => Err(e),
                }
            },
            Ty::SetOf(ty, sizing) => {
                let r = ty.translate(builder, ctx);
                match r {
                    Ok(t) => Ok(Ty::SetOf(t, sizing)),
                    Err(e) => Err(e),
                }
            },
            Ty::MapOf(key, ty, sizing) => {
                let ghost b0 = *builder;
                let ghost kv = key;
                let rk = key.translate(builder, ctx);
                match rk {
                    Err(e) => Err(e),
                    Ok(k) => {
                        let ghost mid = *builder;
                        assert(kv.translates(b0, *ctx, Ok(k), mid));
                        let ghost vv = ty;
                        let rv = ty.translate(builder, ctx);
                        match rv {
                            Ok(t) => {
                                assert(vv.translates(mid, *ctx, Ok(t), *builder));
                                assert(translates_pair(kv, vv, b0, *ctx, k, t, *builder));
                                Ok(Ty::MapOf(k, t, sizing))
                            },
                            Err(e) => {
                                assert(vv.translates(mid, *ctx, Err(e), *builder));
                                assert(exists|m: Ref::Builder, tk: ToRef|
                                    #[trigger] kv.translates(b0, *ctx, Ok(tk), m) && vv.translates(m, *ctx, Err(e), *builder));
                                Err(e)
                            },
                        }
                    },
                }
            },
        }
    }
}

} // verus!
