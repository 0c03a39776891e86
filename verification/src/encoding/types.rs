//! Traits that describe how Rust types map onto strict types, and the checks and
//! names derived from them.

use vstd::prelude::*;
use vstd::string::StrSliceExecFns;

use crate::util::string_from_chars;

verus! {

/// Whether a `::` separator starts at index `i` of `s`.
pub open spec fn is_sep_at(s: Seq<char>, i: int) -> bool {
    0 <= i && i + 1 < s.len() && s[i] == ':' && s[i + 1] == ':'
}

/// The largest index not above `k` at which a `::` separator starts, or -1.
pub open spec fn rfind_sep(s: Seq<char>, k: int) -> int
    decreases k + 1,
{
    if k < 0 {
        -1
    } else if is_sep_at(s, k) {
        k
    } else {
        rfind_sep(s, k - 1)
    }
}

/// The last segment of a `::`-separated path.
pub open spec fn path_ident(s: Seq<char>) -> Seq<char> {
    let i = rfind_sep(s, s.len() - 2);
    if i < 0 {
        s
    } else {
        s.subrange(i + 2, s.len() as int)
    }
}

/// The index of the first `c` in `s` from index `i` on, or -1.
pub open spec fn find_from(s: Seq<char>, c: char, i: int) -> int
    decreases s.len() - i,
{
    if i < 0 || i >= s.len() {
        -1
    } else if s[i] == c {
        i
    } else {
        find_from(s, c, i + 1)
    }
}

/// `s` without the characters `c` at its end.
pub open spec fn trim_end(s: Seq<char>, c: char) -> Seq<char>
    decreases s.len(),
{
    if s.len() > 0 && s.last() == c {
        trim_end(s.drop_last(), c)
    } else {
        s
    }
}

/// For each `,`-separated segment of `s`, an underscore and the segment's last path
/// segment.
pub open spec fn args_text(s: Seq<char>) -> Seq<char>
    decreases s.len(),
{
    let i = find_from(s, ',', 0);
    if i < 0 {
        seq!['_'] + path_ident(s)
    } else {
        proof {
            lemma_find_from(s, ',', 0);
        }
        seq!['_'] + path_ident(s.subrange(0, i)) + args_text(s.subrange(i + 1, s.len() as int))
    }
}

/// The strict name of a type whose full path is `path`: the last segment of the path
/// before the first `<`, then, for each `,`-separated generic argument, an underscore
/// and the argument's last path segment. A path without generic arguments gives one
/// empty argument.
pub open spec fn strict_name_of(path: Seq<char>) -> Seq<char> {
    let lt = find_from(path, '<', 0);
    let base = if lt < 0 {
        path
    } else {
        path.subrange(0, lt)
    };
    let generics = if lt < 0 {
        Seq::empty()
    } else {
        path.subrange(lt + 1, path.len() as int)
    };
    path_ident(base) + args_text(trim_end(generics, '>'))
}

pub proof fn lemma_find_from(s: Seq<char>, c: char, i: int)
    ensures
        find_from(s, c, i) == -1 || (i <= find_from(s, c, i) < s.len() && s[find_from(s, c, i)] == c),
        find_from(s, c, i) == -1 ==> forall|j: int| 0 <= i <= j < s.len() ==> s[j] != c,
        find_from(s, c, i) >= 0 ==> forall|j: int| i <= j < find_from(s, c, i) ==> s[j] != c,
    decreases s.len() - i,
{
    if 0 <= i < s.len() && s[i] != c {
        lemma_find_from(s, c, i + 1);
    }
}

proof fn lemma_rfind_sep(s: Seq<char>, k: int)
    ensures
        -1 <= rfind_sep(s, k),
        rfind_sep(s, k) >= 0 ==> rfind_sep(s, k) <= k && is_sep_at(s, rfind_sep(s, k)),
        forall|j: int| rfind_sep(s, k) < j <= k ==> !is_sep_at(s, j),
    decreases k + 1,
{
    if k >= 0 && !is_sep_at(s, k) {
        lemma_rfind_sep(s, k - 1);
    }
}

/// The last segment of the `::`-separated path `s`.
fn last_segment(s: &[char]) -> (r: Vec<char>)
    ensures
        r@ == path_ident(s@),
{
    let n = s.len();
    let mut k: usize = n;
    // Search downwards for the rightmost separator, which starts below `n - 1`.
    while k > 0
        invariant
            k <= n,
            n == s@.len(),
            forall|j: int| (k as int) - 1 < j <= (n as int) - 2 ==> !is_sep_at(s@, j),
        decreases k,
    {
        let i = k - 1;
        if i + 1 < n && s[i] == ':' && s[i + 1] == ':' {
            proof {
                assert(is_sep_at(s@, i as int));
                lemma_rfind_sep(s@, n - 2);
                assert(rfind_sep(s@, n - 2) == i) by {
                    let r = rfind_sep(s@, n - 2);
                    if r < i {
                        assert(!is_sep_at(s@, i as int));
                    }
                }
            }
            let rest = vstd::slice::slice_subrange(s, i + 2, n);
            return vstd::slice::slice_to_vec(rest);
        }
        k = i;
    }
    proof {
        lemma_rfind_sep(s@, n - 2);
        assert(rfind_sep(s@, n - 2) < 0);
    }
    vstd::slice::slice_to_vec(s)
}

/// The first index of `c` in `s` from `from` on.
fn find_char(s: &[char], c: char, from: usize) -> (r: Option<usize>)
    requires
        from <= s@.len(),
    ensures
        r matches Some(i) ==> find_from(s@, c, from as int) == i,
        r is None ==> find_from(s@, c, from as int) == -1,
{
    let mut i = from;
    proof {
        lemma_find_from(s@, c, from as int);
    }
    while i < s.len()
        invariant
            from <= i <= s@.len(),
            find_from(s@, c, from as int) == find_from(s@, c, i as int),
        decreases s@.len() - i,
    {
        if s[i] == c {
            return Some(i);
        }
        i = i + 1;
    }
    None
}

/// The strict name of a type whose full path is given.
pub fn strict_name_from_path(path: &str) -> (name: String)
    ensures
        name@ == strict_name_of(path@),
{
    let n = path.unicode_len();
    let mut chars: Vec<char> = Vec::new();
    let mut i: usize = 0;
    while i < n
        invariant
            i <= n,
            n == path@.len(),
            chars@ == path@.subrange(0, i as int),
        decreases n - i,
    {
        chars.push(path.get_char(i));
        assert(path@.subrange(0, i + 1) == path@.subrange(0, i as int).push(path@[i as int]));
        i = i + 1;
    }
    assert(path@.subrange(0, n as int) == path@);
    let s = chars.as_slice();
    proof {
        lemma_find_from(s@, '<', 0);
    }
    let found = find_char(s, '<', 0);
    let (base, generics) = match found {
        Some(lt) => (vstd::slice::slice_subrange(s, 0, lt), vstd::slice::slice_subrange(s, lt + 1, n)),
        None => (s, vstd::slice::slice_subrange(s, n, n)),
    };
    let ghost lt_spec = find_from(path@, '<', 0);
    assert(base@ == (if lt_spec < 0 { path@ } else { path@.subrange(0, lt_spec) }));
    assert(generics@ == (if lt_spec < 0 { Seq::<char>::empty() } else { path@.subrange(lt_spec + 1, path@.len() as int) }));
    let mut out = last_segment(base);
    // Trim the closing angle brackets.
    let mut end = generics.len();
    assert(generics@.subrange(0, end as int) == generics@);
    while end > 0 && generics[end - 1] == '>'
        invariant
            end <= generics@.len(),
            trim_end(generics@, '>') == trim_end(generics@.subrange(0, end as int), '>'),
        decreases end,
    {
        assert(generics@.subrange(0, end as int).drop_last() == generics@.subrange(0, end - 1));
        end = end - 1;
    }
    assert(trim_end(generics@.subrange(0, end as int), '>') == generics@.subrange(0, end as int));
    let args = vstd::slice::slice_subrange(generics, 0, end);
    let ghost target = out@ + args_text(args@);
    assert(target == strict_name_of(path@));
    let mut start: usize = 0;
    let alen = args.len();
    assert(args@.subrange(0, alen as int) == args@);
    loop
        invariant
            start <= alen,
            alen == args@.len(),
            out@ + args_text(args@.subrange(start as int, alen as int)) == target,
            target == strict_name_of(path@),
        decreases alen - start,
    {
        let ghost rest = args@.subrange(start as int, alen as int);
        match find_char(args, ',', start) {
            Some(comma) => {
                proof {
                    lemma_find_from(args@, ',', start as int);
                    lemma_find_shift(args@, start as int);
                    assert(rest.subrange(0, comma - start) == args@.subrange(start as int, comma as int));
                    assert(rest.subrange(comma - start + 1, rest.len() as int) == args@.subrange(comma + 1, alen as int));
                }
                let seg = vstd::slice::slice_subrange(args, start, comma);
                let ident = last_segment(seg);
                let ghost before = out@;
                out.push('_');
                let mut j: usize = 0;
                while j < ident.len()
                    invariant
                        j <= ident@.len(),
                        out@ == before + seq!['_'] + ident@.subrange(0, j as int),
                    decreases ident@.len() - j,
                {
                    out.push(ident[j]);
                    assert(ident@.subrange(0, j + 1) == ident@.subrange(0, j as int).push(ident@[j as int]));
                    j = j + 1;
                }
                assert(ident@.subrange(0, ident@.len() as int) == ident@);
                assert(args_text(rest) == seq!['_'] + path_ident(args@.subrange(start as int, comma as int))
                    + args_text(args@.subrange(comma + 1, alen as int)));
                start = comma + 1;
            },
            None => {
                proof {
                    lemma_find_from(args@, ',', start as int);
                    lemma_find_shift(args@, start as int);
                }
                let seg = vstd::slice::slice_subrange(args, start, alen);
                let ident = last_segment(seg);
                let ghost before = out@;
                out.push('_');
                let mut j: usize = 0;
                while j < ident.len()
                    invariant
                        j <= ident@.len(),
                        out@ == before + seq!['_'] + ident@.subrange(0, j as int),
                    decreases ident@.len() - j,
                {
                    out.push(ident[j]);
                    assert(ident@.subrange(0, j + 1) == ident@.subrange(0, j as int).push(ident@[j as int]));
                    j = j + 1;
                }
                assert(ident@.subrange(0, ident@.len() as int) == ident@);
                assert(out@ == target);
                return string_from_chars(out);
            },
        }
    }
}

/// Searching a suffix of `s` finds what searching `s` from the suffix start finds,
/// shifted.
proof fn lemma_find_shift(s: Seq<char>, start: int)
    requires
        0 <= start <= s.len(),
    ensures
        find_from(s.subrange(start, s.len() as int), ',', 0) == (if find_from(s, ',', start) < 0 {
            -1
        } else {
            find_from(s, ',', start) - start
        }),
{
    let t = s.subrange(start, s.len() as int);
    lemma_find_from(s, ',', start);
    lemma_find_from(t, ',', 0);
    let a = find_from(s, ',', start);
    let b = find_from(t, ',', 0);
    if a < 0 {
        if b >= 0 {
            assert(t[b] == s[start + b]);
        }
    } else {
        assert(t[a - start] == s[a]);
        if b < 0 {
            assert(t[a - start] != ',');
        } else if b < a - start {
            assert(t[b] == s[start + b]);
        } else if b > a - start {
            assert(t[a - start] != ',');
        }
    }
}


/// Whether no two items of `s` are equal.
pub open spec fn all_distinct<T>(s: Seq<T>) -> bool {
    forall|i: int, j: int| 0 <= i < j < s.len() ==> s[i] != s[j]
}

/// Errors in the field or variant lists that a type declares.
#[derive(Copy, Clone, PartialEq, Eq, Debug, Structural)]
pub enum DeclarationError {
    /// the type contains repeated field or variant ids
    RepeatedIds,
    /// the type contains repeated field or variant names
    RepeatedNames,
}

/// Whether two strings hold the same characters.
pub fn str_eq(a: &str, b: &str) -> (eq: bool)
    ensures
        eq == (a@ == b@),
{
    let n = a.unicode_len();
    if n != b.unicode_len() {
        return false;
    }
    let mut i: usize = 0;
    while i < n
        invariant
            i <= n,
            n == a@.len(),
            n == b@.len(),
            forall|j: int| 0 <= j < i ==> a@[j] == b@[j],
        decreases n - i,
    {
        if a.get_char(i) != b.get_char(i) {
            return false;
        }
        i = i + 1;
    }
    assert(a@ =~= b@);
    true
}

/// Whether all the ids in `ids` differ.
pub fn distinct_ids(ids: &[u8]) -> (r: bool)
    ensures
        r == all_distinct(ids@),
{
    let n = ids.len();
    let mut i: usize = 0;
    while i < n
        invariant
            i <= n,
            n == ids@.len(),
            forall|a: int, b: int| 0 <= a < b < n && a < i ==> ids@[a] != ids@[b],
        decreases n - i,
    {
        let mut j: usize = i + 1;
        while j < n
            invariant
                i < j <= n,
                n == ids@.len(),
                forall|a: int, b: int| 0 <= a < b < n && a < i ==> ids@[a] != ids@[b],
                forall|b: int| i < b < j ==> ids@[i as int] != ids@[b],
            decreases n - j,
        {
            if ids[i] == ids[j] {
                return false;
            }
            j = j + 1;
        }
        i = i + 1;
    }
    true
}

pub open spec fn ids_of(items: Seq<(u8, &'static str)>) -> Seq<u8> {
    items.map_values(|p: (u8, &'static str)| p.0)
}

pub open spec fn names_of(items: Seq<(u8, &'static str)>) -> Seq<Seq<char>> {
    items.map_values(|p: (u8, &'static str)| p.1@)
}

/// Whether all the names in `items` differ.
pub fn distinct_names(items: &[(u8, &'static str)]) -> (r: bool)
    ensures
        r == all_distinct(names_of(items@)),
{
    let n = items.len();
    let mut i: usize = 0;
    while i < n
        invariant
            i <= n,
            n == items@.len(),
            forall|a: int, b: int| 0 <= a < b < n && a < i ==> items@[a].1@ != items@[b].1@,
        decreases n - i,
    {
        let mut j: usize = i + 1;
        while j < n
            invariant
                i < j <= n,
                n == items@.len(),
                forall|a: int, b: int| 0 <= a < b < n && a < i ==> items@[a].1@ != items@[b].1@,
                forall|b: int| i < b < j ==> items@[i as int].1@ != items@[b].1@,
            decreases n - j,
        {
            if str_eq(items[i].1, items[j].1) {
                assert(names_of(items@)[i as int] == names_of(items@)[j as int]);
                return false;
            }
            j = j + 1;
        }
        i = i + 1;
    }
    assert forall|a: int, b: int| 0 <= a < b < names_of(items@).len() implies names_of(items@)[a]
        != names_of(items@)[b] by {
        assert(names_of(items@)[a] == items@[a].1@);
        assert(names_of(items@)[b] == items@[b].1@);
    }
    true
}

/// The ids of `items`, in order.
pub fn collect_ids(items: &[(u8, &'static str)]) -> (ids: Vec<u8>)
    ensures
        ids@ == ids_of(items@),
{
    let mut ids: Vec<u8> = Vec::new();
    let mut i: usize = 0;
    while i < items.len()
        invariant
            i <= items@.len(),
            ids@ == ids_of(items@.subrange(0, i as int)),
        decreases items@.len() - i,
    {
        ids.push(items[i].0);
        assert(ids_of(items@.subrange(0, i + 1)) == ids_of(items@.subrange(0, i as int)).push(
            items@[i as int].0,
        ));
        i = i + 1;
    }
    assert(items@.subrange(0, items@.len() as int) == items@);
    ids
}

/// The outcome of checking a list of named, numbered items (struct fields or enum
/// and union variants): repeated ids are reported before repeated names.
pub open spec fn spec_check_named(items: Seq<(u8, &'static str)>) -> Result<(), DeclarationError> {
    if !all_distinct(ids_of(items)) {
        Err(DeclarationError::RepeatedIds)
    } else if !all_distinct(names_of(items)) {
        Err(DeclarationError::RepeatedNames)
    } else {
        Ok(())
    }
}

/// Checks that neither the ids nor the names of `items` repeat.
pub fn check_named(items: &[(u8, &'static str)]) -> (r: Result<(), DeclarationError>)
    ensures
        r == spec_check_named(items@),
{
    let ids = collect_ids(items);
    if !distinct_ids(ids.as_slice()) {
        return Err(DeclarationError::RepeatedIds);
    }
    if !distinct_names(items) {
        return Err(DeclarationError::RepeatedNames);
    }
    Ok(())
}

/// The id that stands beside the first item named `name`, if any.
pub open spec fn spec_ord_of(items: Seq<(u8, &'static str)>, name: Seq<char>) -> Option<u8>
    decreases items.len(),
{
    if items.len() == 0 {
        None
    } else if items[0].1@ == name {
        Some(items[0].0)
    } else {
        spec_ord_of(items.drop_first(), name)
    }
}

/// An id that a name is found with is listed.
proof fn lemma_ord_of_listed(items: Seq<(u8, &'static str)>, name: Seq<char>)
    ensures
        spec_ord_of(items, name) matches Some(o) ==> exists|i: int| 0 <= i < items.len() && #[trigger] items[i].0 == o,
    decreases items.len(),
{
    if items.len() > 0 && items[0].1@ != name {
        lemma_ord_of_listed(items.drop_first(), name);
        if spec_ord_of(items, name) is Some {
            let o = spec_ord_of(items, name)->0;
            let i = choose|i: int| 0 <= i < items.drop_first().len() && #[trigger] items.drop_first()[i].0 == o;
            assert(items[i + 1].0 == o);
        }
    }
}

/// Finds the id of the first item named `name`.
pub fn ord_of(items: &[(u8, &'static str)], name: &str) -> (r: Option<u8>)
    ensures
        r == spec_ord_of(items@, name@),
{
    let n = items.len();
    let mut i: usize = 0;
    assert(items@.subrange(0, n as int) == items@);
    while i < n
        invariant
            i <= n,
            n == items@.len(),
            spec_ord_of(items@, name@) == spec_ord_of(items@.subrange(i as int, n as int), name@),
        decreases n - i,
    {
        let ghost rest = items@.subrange(i as int, n as int);
        assert(rest.drop_first() == items@.subrange(i + 1, n as int));
        if str_eq(items[i].1, name) {
            return Some(items[i].0);
        }
        i = i + 1;
    }
    None
}

/// A Rust type that has a strict type.
pub trait StrictType {
    /// The name of the library defining the type.
    const STRICT_LIB_NAME: &'static str;

    /// The strict name of the type; for a type named after its Rust path, the result
    /// of [`strict_name_from_path`] on that path.
    fn strict_name() -> (name: Option<String>);
}

/// A product type: a tuple or a struct.
pub trait StrictProduct: StrictType {}

/// A tuple type, with the ids of its fields.
pub trait StrictTuple: StrictProduct {
    const ALL_FIELDS: &'static [u8];

    /// Checks that no field id repeats.
    fn strict_check_fields() -> (r: Result<(), DeclarationError>)
        ensures
            r is Ok <==> all_distinct(Self::ALL_FIELDS@),
            r is Err ==> r == Err::<(), DeclarationError>(DeclarationError::RepeatedIds),
    {
        if distinct_ids(Self::ALL_FIELDS) {
            Ok(())
        } else {
            Err(DeclarationError::RepeatedIds)
        }
    }
}

/// A struct type, with the ids and names of its fields.
pub trait StrictStruct: StrictProduct {
    const ALL_FIELDS: &'static [(u8, &'static str)];

    /// Checks that neither a field id nor a field name repeats.
    fn strict_check_fields() -> (r: Result<(), DeclarationError>)
        ensures
            r == spec_check_named(Self::ALL_FIELDS@),
    {
        check_named(Self::ALL_FIELDS)
    }
}

/// A sum type: an enum or a union, with the ids and names of its variants.
pub trait StrictSum: StrictType {
    const ALL_VARIANTS: &'static [(u8, &'static str)];

    /// Checks that neither a variant id nor a variant name repeats.
    fn strict_check_variants() -> (r: Result<(), DeclarationError>)
        ensures
            r == spec_check_named(Self::ALL_VARIANTS@),
    {
        check_named(Self::ALL_VARIANTS)
    }

    /// The id that `ALL_VARIANTS` lists for the variant that `self` holds, as
    /// [`ord_of`] finds it for the name that `variant_name` gives; `None` where the
    /// name is not listed.
    fn variant_ord(&self) -> (ord: Option<u8>)
        ensures
            self.variant_name_text() matches Some(name) ==> ord == spec_ord_of(Self::ALL_VARIANTS@, name),
            ord matches Some(o) ==> exists|i: int|
                0 <= i < Self::ALL_VARIANTS@.len() && #[trigger] Self::ALL_VARIANTS@[i].0 == o,
    {
        let name = self.variant_name();
        let r = ord_of(Self::ALL_VARIANTS, name);
        proof {
            lemma_ord_of_listed(Self::ALL_VARIANTS@, name@);
        }
        r
    }

    /// The name of the variant that `self` holds, as a text, where the
    /// implementation states it; `None` (the default) states nothing.
    open spec fn variant_name_text(&self) -> Option<Seq<char>> {
        None
    }

    /// The name of the variant that `self` holds.
    fn variant_name(&self) -> (name: &'static str)
        ensures
            self.variant_name_text() matches Some(t) ==> name@ == t,
    ;
}

/// A union type.
pub trait StrictUnion: StrictSum {}

/// How a strict type is built.
pub enum TypeClass {
    Embedded,
    Enum(&'static [(u8, &'static str)]),
    Union(&'static [(u8, &'static str)]),
    Tuple(&'static [u8]),
    Struct(&'static [(u8, &'static str)]),
}

} // verus!
