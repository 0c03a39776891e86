//! Reading the frame of a bindle text gives back what writing it put in.

use vstd::prelude::*;

use crate::armor::{armor_lines, base85_text, chunked, is_base85_char, plate_line};
use crate::bindle::{
    bindle_text_spec, first_empty, id_prefix, id_values, joined, kv_lines, lemma_first_empty, lines_of, plate,
    scan_lines, signer_lines, spec_parse_frame, strip_cr,
};

verus! {

/// Whether `s` holds no line feed.
pub open spec fn no_newline(s: Seq<char>) -> bool {
    forall|i: int| 0 <= i < s.len() ==> s[i] != '\n'
}

/// Whether `s` holds a line: no line feed, and no carriage return at its end.
pub open spec fn line_safe(s: Seq<char>) -> bool {
    no_newline(s) && !(s.len() > 0 && s.last() == '\r')
}

/// Lines written out, each followed by a line feed.
pub open spec fn join_lines(ls: Seq<Seq<char>>) -> Seq<char>
    decreases ls.len(),
{
    if ls.len() == 0 {
        Seq::empty()
    } else {
        join_lines(ls.drop_last()) + ls.last() + seq!['\n']
    }
}

proof fn lemma_scan_prefix(s: Seq<char>, t: Seq<char>, n: int)
    requires
        0 <= n <= s.len(),
    ensures
        scan_lines(s + t, n) == scan_lines(s, n),
    decreases n,
{
    if n > 0 {
        lemma_scan_prefix(s, t, n - 1);
        assert((s + t)[n - 1] == s[n - 1]);
    }
}

proof fn lemma_scan_append(a: Seq<char>, b: Seq<char>, k: int)
    requires
        scan_lines(a, a.len() as int).1 == Seq::<char>::empty(),
        0 <= k <= b.len(),
    ensures
        scan_lines(a + b, a.len() + k) == (scan_lines(a, a.len() as int).0 + scan_lines(b, k).0, scan_lines(b, k).1),
    decreases k,
{
    if k == 0 {
        lemma_scan_prefix(a, b, a.len() as int);
        assert(scan_lines(a, a.len() as int).0 + Seq::<Seq<char>>::empty() =~= scan_lines(a, a.len() as int).0);
    } else {
        lemma_scan_append(a, b, k - 1);
        assert((a + b)[a.len() + k - 1] == b[k - 1]);
        let (la, _) = scan_lines(a, a.len() as int);
        let (lb, cb) = scan_lines(b, k - 1);
        if b[k - 1] == '\n' {
            assert(la + lb.push(strip_cr(cb)) =~= (la + lb).push(strip_cr(cb)));
        }
    }
}

/// The lines of text that ends a line, followed by more text, are its lines and then
/// those of the rest.
proof fn lemma_lines_concat(a: Seq<char>, b: Seq<char>)
    requires
        scan_lines(a, a.len() as int).1 == Seq::<char>::empty(),
    ensures
        lines_of(a + b) == lines_of(a) + lines_of(b),
        scan_lines(a + b, (a + b).len() as int).1 == scan_lines(b, b.len() as int).1,
{
    lemma_scan_append(a, b, b.len() as int);
    assert((a + b).len() == a.len() + b.len());
    let (la, _) = scan_lines(a, a.len() as int);
    let (lb, cb) = scan_lines(b, b.len() as int);
    assert(lines_of(a) == la);
    if cb.len() > 0 {
        assert(la + lb.push(cb) =~= (la + lb).push(cb));
    }
}

proof fn lemma_scan_line(l: Seq<char>, k: int)
    requires
        no_newline(l),
        0 <= k <= l.len(),
    ensures
        scan_lines(l, k) == (Seq::<Seq<char>>::empty(), l.take(k)),
    decreases k,
{
    if k > 0 {
        lemma_scan_line(l, k - 1);
        assert(l.take(k - 1).push(l[k - 1]) =~= l.take(k));
    }
}

/// A line written out is read back as itself.
proof fn lemma_one_line(l: Seq<char>)
    requires
        line_safe(l),
    ensures
        scan_lines(l + seq!['\n'], l.len() + 1int) == (seq![l], Seq::<char>::empty()),
        lines_of(l + seq!['\n']) == seq![l],
{
    let s = l + seq!['\n'];
    lemma_scan_prefix(l, seq!['\n'], l.len() as int);
    lemma_scan_line(l, l.len() as int);
    assert(l.take(l.len() as int) =~= l);
    assert(s[l.len() as int] == '\n');
    assert(Seq::<Seq<char>>::empty().push(l) =~= seq![l]);
    assert(s.len() == l.len() + 1);
}

/// Lines written out are read back as themselves.
proof fn lemma_join_lines(ls: Seq<Seq<char>>)
    requires
        forall|i: int| 0 <= i < ls.len() ==> line_safe(#[trigger] ls[i]),
    ensures
        lines_of(join_lines(ls)) == ls,
        scan_lines(join_lines(ls), join_lines(ls).len() as int).1 == Seq::<char>::empty(),
    decreases ls.len(),
{
    if ls.len() == 0 {
        assert(lines_of(Seq::<char>::empty()) =~= Seq::<Seq<char>>::empty());
    } else {
        let init = ls.drop_last();
        lemma_join_lines(init);
        assert(line_safe(ls[ls.len() - 1]));
        lemma_one_line(ls.last());
        let a = join_lines(init);
        let b = ls.last() + seq!['\n'];
        lemma_lines_concat(a, b);
        assert(join_lines(ls) =~= a + b);
        assert(init + seq![ls.last()] =~= ls);
    }
}

/// `s` without its line feeds.
pub open spec fn no_nl(s: Seq<char>) -> Seq<char>
    decreases s.len(),
{
    if s.len() == 0 {
        Seq::empty()
    } else {
        no_nl(s.drop_last()) + if s.last() == '\n' {
            Seq::empty()
        } else {
            seq![s.last()]
        }
    }
}

proof fn lemma_no_nl_concat(a: Seq<char>, b: Seq<char>)
    ensures
        no_nl(a + b) == no_nl(a) + no_nl(b),
    decreases b.len(),
{
    if b.len() == 0 {
        assert(a + b =~= a);
        assert(no_nl(a) + no_nl(b) =~= no_nl(a));
    } else {
        lemma_no_nl_concat(a, b.drop_last());
        assert((a + b).drop_last() =~= a + b.drop_last());
        assert((a + b).last() == b.last());
        assert(no_nl(a + b) =~= no_nl(a) + no_nl(b));
    }
}

proof fn lemma_joined_push(ls: Seq<Seq<char>>, x: Seq<char>, k: int)
    requires
        0 <= k <= ls.len(),
    ensures
        joined(ls.push(x), k) == joined(ls, k),
    decreases k,
{
    if k > 0 {
        lemma_joined_push(ls, x, k - 1);
        assert(ls.push(x)[k - 1] == ls[k - 1]);
    }
}

/// With no carriage returns, what the lines hold together is the text without its
/// line feeds.
proof fn lemma_joined_scan(s: Seq<char>, n: int)
    requires
        0 <= n <= s.len(),
        forall|i: int| 0 <= i < s.len() ==> s[i] != '\r',
    ensures
        joined(scan_lines(s, n).0, scan_lines(s, n).0.len() as int) + scan_lines(s, n).1 == no_nl(s.take(n)),
        forall|i: int| 0 <= i < scan_lines(s, n).1.len() ==> scan_lines(s, n).1[i] != '\r',
    decreases n,
{
    if n == 0 {
        assert(s.take(0) =~= Seq::<char>::empty());
        assert(joined(Seq::<Seq<char>>::empty(), 0) + Seq::<char>::empty() =~= Seq::<char>::empty());
    } else {
        lemma_joined_scan(s, n - 1);
        let (ls, cur) = scan_lines(s, n - 1);
        assert(s.take(n).drop_last() =~= s.take(n - 1));
        assert(s.take(n).last() == s[n - 1]);
        if s[n - 1] == '\n' {
            assert(strip_cr(cur) == cur);
            lemma_joined_push(ls, cur, ls.len() as int);
            assert(ls.push(cur)[ls.len() as int] == cur);
            assert(joined(ls.push(cur), ls.len() + 1int) == joined(ls, ls.len() as int) + cur);
            assert(joined(ls.push(cur), ls.push(cur).len() as int) + Seq::<char>::empty() =~= no_nl(s.take(n)));
        } else {
            assert(joined(ls, ls.len() as int) + cur.push(s[n - 1]) =~= no_nl(s.take(n)));
        }
    }
}

proof fn lemma_joined_lines(s: Seq<char>)
    requires
        forall|i: int| 0 <= i < s.len() ==> s[i] != '\r',
    ensures
        joined(lines_of(s), lines_of(s).len() as int) == no_nl(s),
{
    lemma_joined_scan(s, s.len() as int);
    assert(s.take(s.len() as int) =~= s);
    let (ls, cur) = scan_lines(s, s.len() as int);
    if cur.len() > 0 {
        lemma_joined_push(ls, cur, ls.len() as int);
        assert(ls.push(cur)[ls.len() as int] == cur);
    } else {
        assert(joined(ls, ls.len() as int) + cur =~= joined(ls, ls.len() as int));
    }
}

proof fn lemma_no_nl_chunked(t: Seq<char>, k: int)
    requires
        no_newline(t),
        0 <= k <= t.len(),
    ensures
        no_nl(chunked(t, k)) == t.take(k),
    decreases k,
{
    if k == 0 {
        assert(t.take(0) =~= Seq::<char>::empty());
    } else {
        lemma_no_nl_chunked(t, k - 1);
        let tail = seq![t[k - 1]] + if k % 64 == 0 {
            seq!['\n']
        } else {
            Seq::<char>::empty()
        };
        lemma_no_nl_concat(chunked(t, k - 1), tail);
        lemma_no_nl_concat(seq![t[k - 1]], if k % 64 == 0 {
            seq!['\n']
        } else {
            Seq::<char>::empty()
        });
        assert(no_nl(seq![t[k - 1]]) =~= seq![t[k - 1]]) by {
            assert(t[k - 1] != '\n');
            assert(seq![t[k - 1]].drop_last() =~= Seq::<char>::empty());
            assert(no_nl(Seq::<char>::empty()) == Seq::<char>::empty());
            assert(seq![t[k - 1]].last() == t[k - 1]);
        }
        assert(no_nl(seq!['\n']) =~= Seq::<char>::empty()) by {
            assert(seq!['\n'].drop_last() =~= Seq::<char>::empty());
            assert(no_nl(Seq::<char>::empty()) == Seq::<char>::empty());
            assert(seq!['\n'].last() == '\n');
        }
        assert(chunked(t, k) =~= chunked(t, k - 1) + tail);
        assert(t.take(k) =~= t.take(k - 1).push(t[k - 1]));
    }
}

/// The armor lines of a text without line feeds, with the empty line after them, hold
/// the text.
proof fn lemma_no_nl_armor(t: Seq<char>)
    requires
        no_newline(t),
    ensures
        no_nl(armor_lines(t) + seq!['\n']) == t,
{
    lemma_no_nl_chunked(t, t.len() as int);
    assert(t.take(t.len() as int) =~= t);
    lemma_no_nl_concat(chunked(t, t.len() as int), seq!['\n', '\n']);
    assert(armor_lines(t) + seq!['\n'] =~= chunked(t, t.len() as int) + seq!['\n', '\n']);
    assert(no_nl(seq!['\n', '\n']) =~= Seq::<char>::empty()) by {
        assert(seq!['\n', '\n'].drop_last() =~= seq!['\n']);
        assert(seq!['\n'].drop_last() =~= Seq::<char>::empty());
        assert(no_nl(Seq::<char>::empty()) == Seq::<char>::empty());
        assert(seq!['\n'].last() == '\n');
        assert(no_nl(seq!['\n']) =~= Seq::<char>::empty());
        assert(seq!['\n', '\n'].last() == '\n');
    }
    assert(t + Seq::<char>::empty() =~= t);
}

proof fn lemma_join_concat(a: Seq<Seq<char>>, b: Seq<Seq<char>>)
    ensures
        join_lines(a + b) == join_lines(a) + join_lines(b),
    decreases b.len(),
{
    if b.len() == 0 {
        assert(a + b =~= a);
        assert(join_lines(a) + join_lines(b) =~= join_lines(a));
    } else {
        lemma_join_concat(a, b.drop_last());
        assert((a + b).drop_last() =~= a + b.drop_last());
        assert((a + b).last() == b.last());
        assert(join_lines(a + b) =~= join_lines(a) + join_lines(b));
    }
}

/// A header line: its name, `: ` and its value.
pub open spec fn kv_line(h: (Seq<char>, Seq<char>)) -> Seq<char> {
    h.0 + seq![':', ' '] + h.1
}

/// A signer line.
pub open spec fn signer_line(s: Seq<char>) -> Seq<char> {
    seq!['S', 'i', 'g', 'n', 'e', 'd', '-', 'B', 'y', ':', ' '] + s
}

proof fn lemma_kv_lines(hs: Seq<(Seq<char>, Seq<char>)>, n: int)
    requires
        0 <= n <= hs.len(),
    ensures
        kv_lines(hs, n) == join_lines(Seq::new(n as nat, |i: int| kv_line(hs[i]))),
    decreases n,
{
    if n > 0 {
        lemma_kv_lines(hs, n - 1);
        let l = Seq::new(n as nat, |i: int| kv_line(hs[i]));
        assert(l.drop_last() =~= Seq::new((n - 1) as nat, |i: int| kv_line(hs[i])));
        assert(kv_lines(hs, n) =~= join_lines(l));
    }
}

proof fn lemma_signer_lines(ss: Seq<Seq<char>>, n: int)
    requires
        0 <= n <= ss.len(),
    ensures
        signer_lines(ss, n) == join_lines(Seq::new(n as nat, |i: int| signer_line(ss[i]))),
    decreases n,
{
    if n > 0 {
        lemma_signer_lines(ss, n - 1);
        let l = Seq::new(n as nat, |i: int| signer_line(ss[i]));
        assert(l.drop_last() =~= Seq::new((n - 1) as nat, |i: int| signer_line(ss[i])));
        assert(signer_lines(ss, n) =~= join_lines(l));
    }
}

proof fn lemma_ends_with_newline(s: Seq<char>)
    requires
        s.len() > 0,
        s.last() == '\n',
    ensures
        scan_lines(s, s.len() as int).1 == Seq::<char>::empty(),
{
}

/// The lines of the header section of a bindle text: the `Id` line, the `Mnemonic`
/// line where there is one, the headers and the signers.
pub open spec fn header_section(
    id: Seq<char>,
    mnemonic: Option<Seq<char>>,
    headers: Seq<(Seq<char>, Seq<char>)>,
    signers: Seq<Seq<char>>,
) -> Seq<Seq<char>> {
    seq![id_prefix() + id] + match mnemonic {
        Some(m) => seq![seq!['M', 'n', 'e', 'm', 'o', 'n', 'i', 'c', ':', ' '] + m],
        None => Seq::empty(),
    } + Seq::new(headers.len(), |i: int| kv_line(headers[i])) + Seq::new(
        signers.len(),
        |i: int| signer_line(signers[i]),
    )
}

/// Whether a line is an `Id` header line.
pub open spec fn is_id_line(l: Seq<char>) -> bool {
    l.len() >= 4 && l.take(4) == id_prefix()
}

proof fn lemma_id_values(hdr: Seq<Seq<char>>, id: Seq<char>, n: int)
    requires
        1 <= n <= hdr.len(),
        hdr[0] == id_prefix() + id,
        forall|j: int| 1 <= j < hdr.len() ==> !is_id_line(#[trigger] hdr[j]),
    ensures
        id_values(hdr, n) == seq![id],
    decreases n,
{
    if n == 1 {
        assert((id_prefix() + id).take(4) =~= id_prefix());
        assert((id_prefix() + id).skip(4) =~= id);
        assert(id_values(hdr, 0) == Seq::<Seq<char>>::empty());
        assert(Seq::<Seq<char>>::empty().push(id) =~= seq![id]);
    } else {
        lemma_id_values(hdr, id, n - 1);
        assert(!is_id_line(hdr[n - 1]));
    }
}

proof fn lemma_join_one(x: Seq<char>)
    ensures
        join_lines(seq![x]) == x + seq!['\n'],
{
    assert(seq![x].drop_last() =~= Seq::<Seq<char>>::empty());
    assert(join_lines(Seq::<Seq<char>>::empty()) == Seq::<char>::empty());
    assert(seq![x].last() == x);
    assert(Seq::<char>::empty() + x + seq!['\n'] =~= x + seq!['\n']);
}

/// The mnemonic line, where there is a mnemonic.
pub open spec fn mnemonic_lines(mnemonic: Option<Seq<char>>) -> Seq<Seq<char>> {
    match mnemonic {
        Some(m) => seq![seq!['M', 'n', 'e', 'm', 'o', 'n', 'i', 'c', ':', ' '] + m],
        None => Seq::empty(),
    }
}

/// The lines of the bindle text up to the empty line before the armor.
pub open spec fn head_lines(
    title: Seq<char>,
    id: Seq<char>,
    mnemonic: Option<Seq<char>>,
    headers: Seq<(Seq<char>, Seq<char>)>,
    signers: Seq<Seq<char>>,
) -> Seq<Seq<char>> {
    seq![plate(true, title)] + header_section(id, mnemonic, headers, signers) + seq![Seq::<char>::empty()]
}

proof fn lemma_text_lines(
    title: Seq<char>,
    id: Seq<char>,
    mnemonic: Option<Seq<char>>,
    headers: Seq<(Seq<char>, Seq<char>)>,
    signers: Seq<Seq<char>>,
    data: Seq<u8>,
)
    ensures
        bindle_text_spec(title, id, mnemonic, headers, signers, data) == join_lines(
            head_lines(title, id, mnemonic, headers, signers),
        ) + (armor_lines(base85_text(data)) + seq!['\n'] + join_lines(seq![plate(false, title)])),
{
    let begin = plate(true, title);
    let end = plate(false, title);
    assert(plate_line(true, title) =~= begin + seq!['\n']);
    assert(plate_line(false, title) =~= end + seq!['\n']);
    let kvs = Seq::new(headers.len(), |i: int| kv_line(headers[i]));
    let sigs = Seq::new(signers.len(), |i: int| signer_line(signers[i]));
    lemma_kv_lines(headers, headers.len() as int);
    lemma_signer_lines(signers, signers.len() as int);
    let mn = mnemonic_lines(mnemonic);
    let idl = id_prefix() + id;
    lemma_join_one(begin);
    lemma_join_one(idl);
    lemma_join_one(end);
    lemma_join_one(Seq::<char>::empty());
    lemma_join_concat(seq![begin], seq![idl]);
    lemma_join_concat(seq![begin] + seq![idl], mn);
    let first = seq![begin] + seq![idl] + mn;
    match mnemonic {
        Some(m) => {
            lemma_join_one(seq!['M', 'n', 'e', 'm', 'o', 'n', 'i', 'c', ':', ' '] + m);
        },
        None => {
            assert(join_lines(mn) == Seq::<char>::empty());
        },
    }
    lemma_join_concat(first, kvs);
    lemma_join_concat(first + kvs, sigs);
    lemma_join_concat(first + kvs + sigs, seq![Seq::<char>::empty()]);
    assert(first + kvs + sigs + seq![Seq::<char>::empty()] =~= head_lines(title, id, mnemonic, headers, signers));
    assert(bindle_text_spec(title, id, mnemonic, headers, signers, data) =~= join_lines(
        head_lines(title, id, mnemonic, headers, signers),
    ) + (armor_lines(base85_text(data)) + seq!['\n'] + join_lines(seq![end])));
}

proof fn lemma_prefixed_line(p: Seq<char>, s: Seq<char>)
    requires
        no_newline(p),
        p.len() > 0,
        line_safe(s),
        !(s.len() == 0 && p.last() == '\r'),
    ensures
        line_safe(p + s),
{
    let l = p + s;
    assert forall|j: int| 0 <= j < l.len() implies l[j] != '\n' by {
        if j >= p.len() {
            assert(l[j] == s[j - p.len()]);
        } else {
            assert(l[j] == p[j]);
        }
    }
    if s.len() > 0 {
        assert(l.last() == s.last());
    } else {
        assert(l.last() == p.last());
    }
}

proof fn lemma_head_lines_safe(
    title: Seq<char>,
    id: Seq<char>,
    mnemonic: Option<Seq<char>>,
    headers: Seq<(Seq<char>, Seq<char>)>,
    signers: Seq<Seq<char>>,
)
    requires
        no_newline(title),
        line_safe(id),
        mnemonic matches Some(m) ==> line_safe(m),
        forall|i: int| 0 <= i < headers.len() ==> line_safe(#[trigger] kv_line(headers[i])),
        forall|i: int| 0 <= i < signers.len() ==> line_safe(#[trigger] signers[i]),
    ensures
        forall|i: int| 0 <= i < head_lines(title, id, mnemonic, headers, signers).len() ==> line_safe(
            #[trigger] head_lines(title, id, mnemonic, headers, signers)[i],
        ),
{
    let h = head_lines(title, id, mnemonic, headers, signers);
    let begin = plate(true, title);
    let mn = mnemonic_lines(mnemonic);
    let kvs = Seq::new(headers.len(), |i: int| kv_line(headers[i]));
    let sigs = Seq::new(signers.len(), |i: int| signer_line(signers[i]));
    assert(line_safe(begin)) by {
        assert forall|i: int| 0 <= i < begin.len() implies begin[i] != '\n' by {
            if 11 <= i < 11 + title.len() {
                assert(begin[i] == title[i - 11]);
            }
        }
    }
    assert forall|i: int| 0 <= i < h.len() implies line_safe(#[trigger] h[i]) by {
        if i == 0 {
            assert(h[0] == begin);
        } else if i == 1 {
            assert(h[1] == id_prefix() + id);
            lemma_prefixed_line(id_prefix(), id);
        } else if i < 2 + mn.len() {
            let m = mnemonic->0;
            assert(h[i] == seq!['M', 'n', 'e', 'm', 'o', 'n', 'i', 'c', ':', ' '] + m);
            lemma_prefixed_line(seq!['M', 'n', 'e', 'm', 'o', 'n', 'i', 'c', ':', ' '], m);
        } else if i < 2 + mn.len() + kvs.len() {
            assert(h[i] == kvs[i - 2 - mn.len()]);
        } else if i < h.len() - 1 {
            let k = i - 2 - mn.len() - kvs.len();
            assert(h[i] == sigs[k]);
            lemma_prefixed_line(seq!['S', 'i', 'g', 'n', 'e', 'd', '-', 'B', 'y', ':', ' '], signers[k]);
        } else {
            assert(h[i] == Seq::<char>::empty());
        }
    }
}

proof fn lemma_header_section_lines(
    id: Seq<char>,
    mnemonic: Option<Seq<char>>,
    headers: Seq<(Seq<char>, Seq<char>)>,
    signers: Seq<Seq<char>>,
)
    requires
        forall|i: int| 0 <= i < headers.len() ==> !is_id_line(#[trigger] kv_line(headers[i])),
    ensures
        forall|j: int| 0 <= j < header_section(id, mnemonic, headers, signers).len() ==> (#[trigger] header_section(
            id,
            mnemonic,
            headers,
            signers,
        )[j]).len() > 0,
        forall|j: int| 1 <= j < header_section(id, mnemonic, headers, signers).len() ==> !is_id_line(
            #[trigger] header_section(id, mnemonic, headers, signers)[j],
        ),
        header_section(id, mnemonic, headers, signers)[0] == id_prefix() + id,
{
    let hs = header_section(id, mnemonic, headers, signers);
    let mn = mnemonic_lines(mnemonic);
    let kvs = Seq::new(headers.len(), |i: int| kv_line(headers[i]));
    let sigs = Seq::new(signers.len(), |i: int| signer_line(signers[i]));
    assert forall|j: int| 0 <= j < hs.len() implies (#[trigger] hs[j]).len() > 0 && (j >= 1 ==> !is_id_line(hs[j])) by {
        if j == 0 {
            assert(hs[0] == id_prefix() + id);
        } else if j < 1 + mn.len() {
            let l = hs[j];
            assert(l == seq!['M', 'n', 'e', 'm', 'o', 'n', 'i', 'c', ':', ' '] + mnemonic->0);
            assert(l.take(4)[0] == 'M');
        } else if j < 1 + mn.len() + kvs.len() {
            let h = headers[j - 1 - mn.len()];
            assert(hs[j] == kvs[j - 1 - mn.len()]);
            assert(hs[j] == h.0 + seq![':', ' '] + h.1);
        } else {
            let l = hs[j];
            assert(l == sigs[j - 1 - mn.len() - kvs.len()]);
            assert(l.take(4)[0] == 'S');
        }
    }
}

/// The title, the id, the mnemonic, the headers and the signers of a bindle fit on
/// their lines, and no header line reads as an `Id` line.
pub open spec fn bindle_parts_fit(
    title: Seq<char>,
    id: Seq<char>,
    mnemonic: Option<Seq<char>>,
    headers: Seq<(Seq<char>, Seq<char>)>,
    signers: Seq<Seq<char>>,
) -> bool {
    &&& no_newline(title)
    &&& line_safe(id)
    &&& mnemonic matches Some(m) ==> line_safe(m)
    &&& forall|i: int| 0 <= i < headers.len() ==> line_safe(#[trigger] kv_line(headers[i])) && !is_id_line(kv_line(headers[i]))
    &&& forall|i: int| 0 <= i < signers.len() ==> line_safe(#[trigger] signers[i])
}

/// Reading the frame of a bindle text gives back the id it was written with, as its
/// only `Id` header, and the Base85 text of its data: provided the title, the id, the
/// mnemonic, the headers and the signers fit on their lines, and no header line reads
/// as an `Id` line.
#[verifier::rlimit(50)]
pub proof fn lemma_bindle_frame_roundtrip(
    title: Seq<char>,
    id: Seq<char>,
    mnemonic: Option<Seq<char>>,
    headers: Seq<(Seq<char>, Seq<char>)>,
    signers: Seq<Seq<char>>,
    data: Seq<u8>,
)
    requires
        no_newline(title),
        line_safe(id),
        mnemonic matches Some(m) ==> line_safe(m),
        forall|i: int| 0 <= i < headers.len() ==> line_safe(#[trigger] kv_line(headers[i])) && !is_id_line(kv_line(headers[i])),
        forall|i: int| 0 <= i < signers.len() ==> line_safe(#[trigger] signers[i]),
        forall|i: int| 0 <= i < base85_text(data).len() ==> is_base85_char(#[trigger] base85_text(data)[i]),
    ensures
        spec_parse_frame(title, bindle_text_spec(title, id, mnemonic, headers, signers, data)) == Some(
            (seq![id], base85_text(data)),
        ),
{
    let t = base85_text(data);
    let end = plate(false, title);
    let hs = header_section(id, mnemonic, headers, signers);
    let h = head_lines(title, id, mnemonic, headers, signers);
    let x = armor_lines(t) + seq!['\n'];
    let text = bindle_text_spec(title, id, mnemonic, headers, signers, data);
    lemma_text_lines(title, id, mnemonic, headers, signers, data);
    lemma_head_lines_safe(title, id, mnemonic, headers, signers);
    lemma_header_section_lines(id, mnemonic, headers, signers);
    assert(line_safe(end)) by {
        assert forall|i: int| 0 <= i < end.len() implies end[i] != '\n' by {
            if 9 <= i < 9 + title.len() {
                assert(end[i] == title[i - 9]);
            }
        }
    }
    lemma_join_lines(h);
    lemma_join_lines(seq![end]);
    assert(no_newline(t)) by {
        assert forall|i: int| 0 <= i < t.len() implies t[i] != '\n' by {
            assert(is_base85_char(t[i]));
        }
    }
    assert(x.last() == '\n');
    lemma_ends_with_newline(x);
    lemma_lines_concat(x, join_lines(seq![end]));
    lemma_lines_concat(join_lines(h), x + join_lines(seq![end]));
    let body = lines_of(x);
    let ls = lines_of(text);
    assert(ls =~= h + (body + seq![end]));
    let mid = ls.subrange(1, ls.len() - 1);
    let k = hs.len() as int;
    assert(mid =~= hs + seq![Seq::<char>::empty()] + body);
    lemma_first_empty(mid);
    assert(first_empty(mid) == k) by {
        if first_empty(mid) < k {
            assert(mid[first_empty(mid)] == hs[first_empty(mid)]);
        }
        if first_empty(mid) > k {
            assert(mid[k].len() == 0);
        }
    }
    assert(mid.take(k) =~= hs);
    assert(mid.skip(k + 1) =~= body);
    lemma_id_values(hs, id, hs.len() as int);
    assert forall|i: int| 0 <= i < x.len() implies x[i] != '\r' by {
        lemma_no_cr_armor(t, i);
    }
    lemma_joined_lines(x);
    lemma_no_nl_armor(t);
}

/// The armor lines of Base85 text hold no carriage return.
proof fn lemma_no_cr_armor(t: Seq<char>, i: int)
    requires
        forall|j: int| 0 <= j < t.len() ==> is_base85_char(#[trigger] t[j]),
        0 <= i < (armor_lines(t) + seq!['\n']).len(),
    ensures
        (armor_lines(t) + seq!['\n'])[i] != '\r',
{
    lemma_chunked_chars(t, t.len() as int);
    let x = armor_lines(t) + seq!['\n'];
    let c = chunked(t, t.len() as int);
    if i < c.len() {
        assert(x[i] == c[i]);
    }
}

proof fn lemma_chunked_chars(t: Seq<char>, k: int)
    requires
        forall|j: int| 0 <= j < t.len() ==> is_base85_char(#[trigger] t[j]),
        0 <= k <= t.len(),
    ensures
        forall|i: int| 0 <= i < chunked(t, k).len() ==> chunked(t, k)[i] != '\r',
    decreases k,
{
    if k > 0 {
        lemma_chunked_chars(t, k - 1);
        assert(is_base85_char(t[k - 1]));
        let prev = chunked(t, k - 1);
        assert forall|i: int| 0 <= i < chunked(t, k).len() implies chunked(t, k)[i] != '\r' by {
            if i < prev.len() {
                assert(chunked(t, k)[i] == prev[i]);
            } else if i == prev.len() {
                assert(chunked(t, k)[i] == t[k - 1]);
            }
        }
    }
}

} // verus!
