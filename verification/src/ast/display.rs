//! Text of type ASTs whose nested types are given by semantic ids.

use vstd::prelude::*;

use crate::ast::id::{semid_baid64, SemId};
use crate::ast::serialize::{ty_model, union_model, union_variants, struct_model, tuple_model, TyModel};
use crate::ast::ty::{none_name, some_name, Cls, EnumVariants, Field, NamedFields, Ty, UnionVariants, UnnamedFields, Variant};
use crate::primitive::constants::primitive_text;
use crate::primitive::Primitive;
use crate::util::{
    decimal, name_text, push_decimal, push_name, push_spaces, push_str, sizing_text, string_from_chars,
};

verus! {

/// The name of a class, in lowercase.
pub open spec fn cls_text(c: Cls) -> Seq<char> {
    match c {
        Cls::Primitive => "primitive"@,
        Cls::Unicode => "unicode"@,
        Cls::AsciiStr => "asciistr"@,
        Cls::Enum => "enum"@,
        Cls::Union => "union"@,
        Cls::Struct => "struct"@,
        Cls::Tuple => "tuple"@,
        Cls::Array => "array"@,
        Cls::List => "list"@,
        Cls::SetOf => "set"@,
        Cls::MapOf => "map"@,
    }
}

impl Cls {
    /// Appends the name of the class.
    pub fn push_text(&self, out: &mut Vec<char>)
        ensures
            final(out)@ == old(out)@ + cls_text(*self),
    {
        match self {
            Cls::Primitive => push_str("primitive", out),
            Cls::Unicode => push_str("unicode", out),
            Cls::AsciiStr => push_str("asciistr", out),
            Cls::Enum => push_str("enum", out),
            Cls::Union => push_str("union", out),
            Cls::Struct => push_str("struct", out),
            Cls::Tuple => push_str("tuple", out),
            Cls::Array => push_str("array", out),
            Cls::List => push_str("list", out),
            Cls::SetOf => push_str("set", out),
            Cls::MapOf => push_str("map", out),
        }
    }

    /// The name of the class.
    pub fn to_string(&self) -> (s: String)
        ensures
            s@ == cls_text(*self),
    {
        let mut out: Vec<char> = Vec::new();
        self.push_text(&mut out);
        assert(out@ =~= cls_text(*self));
        string_from_chars(out)
    }
}

/// `t + 1`, staying at 255.
pub open spec fn sat_inc(t: u8) -> u8 {
    if t == 255 {
        255
    } else {
        (t + 1) as u8
    }
}

/// The tag that the variant at `k` is expected to have: one more than the tag
/// before it, and 0 for the first.
pub open spec fn expected_tag(vs: Seq<(Seq<u8>, u8)>, k: int) -> u8 {
    if k == 0 {
        0
    } else {
        sat_inc(vs[k - 1].1)
    }
}

/// `n` spaces.
pub open spec fn spaces(n: nat) -> Seq<char> {
    Seq::new(n, |i: int| ' ')
}

/// The text of a semantic id.
pub open spec fn id_text(id: Seq<u8>) -> Seq<char> {
    semid_baid64(id)
}

/// An enum variant: its name, and `#` with its tag where the tag is not the expected
/// one.
pub open spec fn enum_item_text(vs: Seq<(Seq<u8>, u8)>, k: int) -> Seq<char> {
    name_text(vs[k].0) + if vs[k].1 != expected_tag(vs, k) {
        seq!['#'] + decimal(vs[k].1 as nat)
    } else {
        Seq::empty()
    }
}

/// Before every fourth variant from the fourth on, a line break.
pub open spec fn enum_break(k: int) -> Seq<char> {
    if k >= 4 && k % 4 == 0 {
        seq!['\n'] + spaces(22)
    } else {
        Seq::empty()
    }
}

/// The variants from the second up to `n`, each after ` | `.
pub open spec fn enum_items_text(vs: Seq<(Seq<u8>, u8)>, n: int) -> Seq<char>
    decreases n,
{
    if n <= 1 {
        Seq::empty()
    } else {
        enum_items_text(vs, n - 1) + enum_break(n - 1) + seq![' ', '|', ' '] + enum_item_text(vs, n - 1)
    }
}

/// The text of enum variants; a single variant is followed by ` | (|)`, and the text
/// of any variants ends with a line break.
pub open spec fn enum_text(vs: Seq<(Seq<u8>, u8)>) -> Seq<char> {
    if vs.len() == 0 {
        seq!['(', '|', ')']
    } else {
        enum_item_text(vs, 0) + (if vs.len() == 1 {
            seq![' ', '|', ' ', '(', '|', ')']
        } else {
            Seq::empty()
        }) + enum_items_text(vs, vs.len() as int) + seq!['\n']
    }
}

/// A union item: the variant's name, `#` with its tag where the tag is not the
/// expected one, a space, and the type.
pub open spec fn union_item_text(items: Seq<((Seq<u8>, u8), Seq<u8>)>, k: int) -> Seq<char> {
    let vs = union_variants(items);
    name_text(vs[k].0) + (if vs[k].1 != expected_tag(vs, k) {
        seq!['#'] + decimal(vs[k].1 as nat) + seq![' ']
    } else {
        seq![' ']
    }) + id_text(items[k].1)
}

/// The separator between union items.
pub open spec fn union_sep() -> Seq<char> {
    seq!['\n'] + spaces(23) + seq!['|', ' ']
}

/// The first `n` union items, each followed by the separator unless it is the last.
pub open spec fn union_items_text(items: Seq<((Seq<u8>, u8), Seq<u8>)>, n: int) -> Seq<char>
    decreases n,
{
    if n <= 0 {
        Seq::empty()
    } else {
        union_items_text(items, n - 1) + union_item_text(items, n - 1) + if n < items.len() {
            union_sep()
        } else {
            Seq::empty()
        }
    }
}

/// The text of union items; a single item is followed by ` | (|)`.
pub open spec fn union_text(items: Seq<((Seq<u8>, u8), Seq<u8>)>) -> Seq<char> {
    if items.len() == 0 {
        seq!['(', '|', ')']
    } else {
        union_items_text(items, items.len() as int) + if items.len() == 1 {
            seq![' ', '|', ' ', '(', '|', ')']
        } else {
            Seq::empty()
        }
    }
}

/// A structure field: its name, a space and its type.
pub open spec fn field_text(f: (Seq<u8>, Seq<u8>)) -> Seq<char> {
    name_text(f.0) + seq![' '] + id_text(f.1)
}

/// The separator between structure fields: on a new line from three fields on.
pub open spec fn field_sep(len: nat) -> Seq<char> {
    if len >= 3 {
        seq!['\n'] + spaces(23) + seq![',', ' ']
    } else {
        seq![',', ' ']
    }
}

/// The first `n` fields, each followed by the separator unless it is the last.
pub open spec fn fields_text(fs: Seq<(Seq<u8>, Seq<u8>)>, n: int) -> Seq<char>
    decreases n,
{
    if n <= 0 {
        Seq::empty()
    } else {
        fields_text(fs, n - 1) + field_text(fs[n - 1]) + if n < fs.len() {
            field_sep(fs.len())
        } else {
            Seq::empty()
        }
    }
}

/// The first `n` tuple fields, separated by `, `.
pub open spec fn tuple_text(ids: Seq<Seq<u8>>, n: int) -> Seq<char>
    decreases n,
{
    if n <= 0 {
        Seq::empty()
    } else {
        tuple_text(ids, n - 1) + id_text(ids[n - 1]) + if n < ids.len() {
            seq![',', ' ']
        } else {
            Seq::empty()
        }
    }
}

/// Whether union items are those of an optional value: `none` with tag 0 and `some`
/// with tag 1.
pub open spec fn is_option_items(items: Seq<((Seq<u8>, u8), Seq<u8>)>) -> bool {
    union_variants(items) == seq![(none_name(), 0u8), (some_name(), 1u8)]
}

/// The text of a type.
pub open spec fn ty_text(m: TyModel) -> Seq<char> {
    match m {
        TyModel::Primitive(code) => primitive_text(Primitive(code)),
        TyModel::UnicodeChar => seq!['U', 'n', 'i', 'c', 'o', 'd', 'e'],
        TyModel::Enum(vs) => enum_text(vs),
        TyModel::Union(items) => if is_option_items(items) {
            id_text(items[1].1) + seq!['?']
        } else {
            union_text(items)
        },
        TyModel::Struct(fs) => fields_text(fs, fs.len() as int),
        TyModel::Tuple(ids) => tuple_text(ids, ids.len() as int),
        TyModel::Array(id, len) => seq!['['] + id_text(id) + seq![' ', '^', ' '] + decimal(len as nat) + seq![']'],
        TyModel::List(id, s) => seq!['['] + id_text(id) + sizing_text(s) + seq![']'],
        TyModel::SetOf(id, s) => seq!['{'] + id_text(id) + sizing_text(s) + seq!['}'],
        TyModel::MapOf(k, v, s) => seq!['{'] + id_text(k) + seq![' ', '-', '>'] + sizing_text(s) + seq![' ']
            + id_text(v) + seq!['}'],
    }
}

/// Appends the text of a semantic id to `out`.
fn push_id(id: &SemId, out: &mut Vec<char>)
    ensures
        final(out)@ == old(out)@ + id_text(id@),
{
    let s = id.to_string();
    push_str(s.as_str(), out);
}

/// Appends the decimal notation of a tag, after `#`, to `out`.
fn push_tag(tag: u8, out: &mut Vec<char>)
    ensures
        final(out)@ == old(out)@ + seq!['#'] + decimal(tag as nat),
{
    let ghost start = out@;
    out.push('#');
    push_decimal(tag as u64, out);
    assert(out@ =~= start + seq!['#'] + decimal(tag as nat));
}

fn next_tag(t: u8) -> (r: u8)
    ensures
        r == sat_inc(t),
{
    if t == 255 {
        255
    } else {
        t + 1
    }
}

impl Variant {
    /// The text of a variant: its name.
    pub fn to_string(&self) -> (s: String)
        ensures
            s@ == name_text(self@.0),
    {
        let mut out: Vec<char> = Vec::new();
        push_name(self.name.as_bytes(), &mut out);
        assert(out@ =~= name_text(self@.0));
        string_from_chars(out)
    }
}

impl EnumVariants {
    /// Appends the text of the variants to `out`.
    #[verifier::rlimit(40)]
    pub fn push_text(&self, out: &mut Vec<char>)
        ensures
            final(out)@ == old(out)@ + enum_text(self@),
    {
        self.check_wf();
        let ghost vs = self@;
        let ghost start = out@;
        let n = self.len();
        let first = self.get(0).unwrap();
        push_name(first.name.as_bytes(), out);
        if first.tag != 0 {
            push_tag(first.tag, out);
        }
        if n == 1 {
            out.push(' ');
            out.push('|');
            out.push(' ');
            out.push('(');
            out.push('|');
            out.push(')');
        }
        let ghost head = out@;
        assert(head =~= start + enum_item_text(vs, 0) + (if vs.len() == 1 {
            seq![' ', '|', ' ', '(', '|', ')']
        } else {
            Seq::<char>::empty()
        }));
        let mut last: u8 = next_tag(first.tag);
        let mut i: usize = 1;
        while i < n
            invariant
                1 <= i <= n,
                n == vs.len(),
                vs == self@,
                last == expected_tag(vs, i as int),
                out@ == head + enum_items_text(vs, i as int),
            decreases n - i,
        {
            let ghost before = out@;
            if i >= 4 && i % 4 == 0 {
                out.push('\n');
                push_spaces(22, out);
            }
            out.push(' ');
            out.push('|');
            out.push(' ');
            let v = self.get(i).unwrap();
            push_name(v.name.as_bytes(), out);
            if v.tag != last {
                push_tag(v.tag, out);
            }
            proof {
                assert(out@ =~= before + enum_break(i as int) + seq![' ', '|', ' '] + enum_item_text(vs, i as int));
            }
            last = next_tag(v.tag);
            i = i + 1;
        }
        out.push('\n');
        assert(out@ =~= start + enum_text(vs));
    }

    /// The text of the variants.
    pub fn to_string(&self) -> (s: String)
        ensures
            s@ == enum_text(self@),
    {
        let mut out: Vec<char> = Vec::new();
        self.push_text(&mut out);
        assert(out@ =~= enum_text(self@));
        string_from_chars(out)
    }
}

impl UnionVariants<SemId> {
    /// Appends the text of the union items to `out`.
    pub fn push_text(&self, out: &mut Vec<char>)
        ensures
            final(out)@ == old(out)@ + union_text(union_model(*self)),
    {
        self.check_wf();
        let ghost items = union_model(*self);
        let ghost vs = union_variants(items);
        assert(vs =~= self.spec_variants());
        let ghost start = out@;
        let n = self.len();
        let mut last: u8 = 0;
        let mut i: usize = 0;
        while i < n
            invariant
                i <= n,
                n == items.len(),
                items == union_model(*self),
                vs == union_variants(items),
                vs == self.spec_variants(),
                last == expected_tag(vs, i as int),
                out@ == start + union_items_text(items, i as int),
            decreases n - i,
        {
            let ghost before = out@;
            let (v, id) = self.get(i).unwrap();
            push_name(v.name.as_bytes(), out);
            if v.tag != last {
                push_tag(v.tag, out);
            }
            out.push(' ');
            push_id(id, out);
            if i + 1 < n {
                out.push('\n');
                push_spaces(23, out);
                out.push('|');
                out.push(' ');
            }
            proof {
                assert(out@ =~= before + union_item_text(items, i as int) + if i + 1 < items.len() {
                    union_sep()
                } else {
                    Seq::<char>::empty()
                });
            }
            last = next_tag(v.tag);
            i = i + 1;
        }
        if n == 1 {
            out.push(' ');
            out.push('|');
            out.push(' ');
            out.push('(');
            out.push('|');
            out.push(')');
        }
        assert(out@ =~= start + union_text(items));
    }

    /// The text of the union items.
    pub fn to_string(&self) -> (s: String)
        ensures
            s@ == union_text(union_model(*self)),
    {
        let mut out: Vec<char> = Vec::new();
        self.push_text(&mut out);
        assert(out@ =~= union_text(union_model(*self)));
        string_from_chars(out)
    }
}

impl Field<SemId> {
    /// The text of a field: its name, a space and its type.
    pub fn to_string(&self) -> (s: String)
        ensures
            s@ == field_text((self.name@, self.ty@)),
    {
        let mut out: Vec<char> = Vec::new();
        push_name(self.name.as_bytes(), &mut out);
        out.push(' ');
        push_id(&self.ty, &mut out);
        assert(out@ =~= field_text((self.name@, self.ty@)));
        string_from_chars(out)
    }
}

impl NamedFields<SemId> {
    /// Appends the text of the fields to `out`.
    pub fn push_text(&self, out: &mut Vec<char>)
        ensures
            final(out)@ == old(out)@ + fields_text(struct_model(*self), struct_model(*self).len() as int),
    {
        self.check_wf();
        let ghost fs = struct_model(*self);
        let ghost start = out@;
        let n = self.len();
        let mut i: usize = 0;
        while i < n
            invariant
                i <= n,
                n == fs.len(),
                fs == struct_model(*self),
                out@ == start + fields_text(fs, i as int),
            decreases n - i,
        {
            let ghost before = out@;
            let field = self.get(i).unwrap();
            push_name(field.name.as_bytes(), out);
            out.push(' ');
            push_id(&field.ty, out);
            if i + 1 < n {
                if n >= 3 {
                    out.push('\n');
                    push_spaces(23, out);
                }
                out.push(',');
                out.push(' ');
            }
            proof {
                assert(out@ =~= before + field_text(fs[i as int]) + if i + 1 < fs.len() {
                    field_sep(fs.len())
                } else {
                    Seq::<char>::empty()
                });
            }
            i = i + 1;
        }
    }

    /// The text of the fields.
    pub fn to_string(&self) -> (s: String)
        ensures
            s@ == fields_text(struct_model(*self), struct_model(*self).len() as int),
    {
        let mut out: Vec<char> = Vec::new();
        self.push_text(&mut out);
        assert(out@ =~= fields_text(struct_model(*self), struct_model(*self).len() as int));
        string_from_chars(out)
    }
}

impl UnnamedFields<SemId> {
    /// Appends the text of the fields to `out`.
    pub fn push_text(&self, out: &mut Vec<char>)
        ensures
            final(out)@ == old(out)@ + tuple_text(tuple_model(*self), tuple_model(*self).len() as int),
    {
        self.check_wf();
        let ghost ids = tuple_model(*self);
        let ghost start = out@;
        let n = self.len();
        let mut i: usize = 0;
        while i < n
            invariant
                i <= n,
                n == ids.len(),
                n <= 255,
                ids == tuple_model(*self),
                out@ == start + tuple_text(ids, i as int),
            decreases n - i,
        {
            let ghost before = out@;
            let id = self.ty_by_pos(i as u8).unwrap();
            push_id(id, out);
            if i + 1 < n {
                out.push(',');
                out.push(' ');
            }
            proof {
                assert(out@ =~= before + id_text(ids[i as int]) + if i + 1 < ids.len() {
                    seq![',', ' ']
                } else {
                    Seq::<char>::empty()
                });
            }
            i = i + 1;
        }
    }

    /// The text of the fields.
    pub fn to_string(&self) -> (s: String)
        ensures
            s@ == tuple_text(tuple_model(*self), tuple_model(*self).len() as int),
    {
        let mut out: Vec<char> = Vec::new();
        self.push_text(&mut out);
        assert(out@ =~= tuple_text(tuple_model(*self), tuple_model(*self).len() as int));
        string_from_chars(out)
    }
}

impl Ty<SemId> {
    /// Appends the text of the type to `out`.
    pub fn push_text(&self, out: &mut Vec<char>)
        ensures
            final(out)@ == old(out)@ + ty_text(ty_model(*self)),
    {
        let ghost start = out@;
        match self {
            Ty::Primitive(p) => p.push_text(out),
            Ty::UnicodeChar => {
                out.push('U');
                out.push('n');
                out.push('i');
                out.push('c');
                out.push('o');
                out.push('d');
                out.push('e');
            },
            Ty::Enum(vars) => vars.push_text(out),
            Ty::Union(u) => {
                let ghost items = union_model(*u);
                assert(union_variants(items) =~= u.spec_variants());
                match self.as_some() {
                    Some(id) => {
                        push_id(id, out);
                        out.push('?');
                    },
                    None => u.push_text(out),
                }
            },
            Ty::Struct(fs) => fs.push_text(out),
            Ty::Tuple(fs) => fs.push_text(out),
            Ty::Array(id, len) => {
                out.push('[');
                push_id(id, out);
                out.push(' ');
                out.push('^');
                out.push(' ');
                push_decimal(*len as u64, out);
                out.push(']');
            },
            Ty::List(id, sz) => {
                out.push('[');
                push_id(id, out);
                sz.push_text(out);
                out.push(']');
            },
            Ty::SetOf(id, sz) => {
                out.push('{');
                push_id(id, out);
                sz.push_text(out);
                out.push('}');
            },
            Ty::MapOf(k, v, sz) => {
                out.push('{');
                push_id(k, out);
                out.push(' ');
                out.push('-');
                out.push('>');
                sz.push_text(out);
                out.push(' ');
                push_id(v, out);
                out.push('}');
            },
        }
        assert(out@ =~= start + ty_text(ty_model(*self)));
    }

    /// The text of the type.
    pub fn to_string(&self) -> (s: String)
        ensures
            s@ == ty_text(ty_model(*self)),
    {
        let mut out: Vec<char> = Vec::new();
        self.push_text(&mut out);
        assert(out@ =~= ty_text(ty_model(*self)));
        string_from_chars(out)
    }
}

} // verus!
