//! Bindles: ASCII-armored containers of serialized data, with an id, headers and the
//! signers of the content.

use vstd::prelude::*;
use vstd::string::StrSliceExecFns;

use crate::armor::{
    armor_lines, base85_data, base85_decodable, base85_decode, base85_text, is_base85_decodable, plate_line,
    push_armor_lines, push_plate_line,
};
use crate::bindle_law::{bindle_parts_fit, lemma_bindle_frame_roundtrip};
use crate::util::{push_str, string_from_chars};

verus! {

/// Identity suites of the signers of bindles.
#[derive(Copy, Clone, PartialEq, Eq, Debug, Structural)]
pub enum IdSuite {
    Pgp,
    Ssh,
    Ssi,
}

impl IdSuite {
    pub open spec fn code(self) -> u8 {
        match self {
            IdSuite::Pgp => 0,
            IdSuite::Ssh => 1,
            IdSuite::Ssi => 2,
        }
    }

    pub open spec fn spec_name(self) -> Seq<char> {
        match self {
            IdSuite::Pgp => seq!['O', 'p', 'e', 'n', 'P', 'G', 'P'],
            IdSuite::Ssh => seq!['O', 'p', 'e', 'n', 'S', 'S', 'H'],
            IdSuite::Ssi => seq!['S', 'S', 'I'],
        }
    }

    pub fn into_u8(self) -> (code: u8)
        ensures
            code == self.code(),
    {
        match self {
            IdSuite::Pgp => 0,
            IdSuite::Ssh => 1,
            IdSuite::Ssi => 2,
        }
    }

    /// The suite with the given code; the code itself when there is none.
    pub fn try_from_u8(code: u8) -> (r: Result<IdSuite, u8>)
        ensures
            code <= 2 ==> (r matches Ok(s) && s.code() == code),
            code > 2 ==> r == Err::<IdSuite, u8>(code),
    {
        match code {
            0 => Ok(IdSuite::Pgp),
            1 => Ok(IdSuite::Ssh),
            2 => Ok(IdSuite::Ssi),
            _ => Err(code),
        }
    }

    /// The name of the suite.
    pub fn to_string(self) -> (s: String)
        ensures
            s@ == self.spec_name(),
    {
        let mut out: Vec<char> = Vec::new();
        match self {
            IdSuite::Pgp => {
                out.push('O');
                out.push('p');
                out.push('e');
                out.push('n');
                out.push('P');
                out.push('G');
                out.push('P');
            },
            IdSuite::Ssh => {
                out.push('O');
                out.push('p');
                out.push('e');
                out.push('n');
                out.push('S');
                out.push('S');
                out.push('H');
            },
            IdSuite::Ssi => {
                out.push('S');
                out.push('S');
                out.push('I');
            },
        }
        assert(out@ =~= self.spec_name());
        string_from_chars(out)
    }
}

/// The first `n` headers, each as `name: value` and a line break.
pub open spec fn kv_lines(hs: Seq<(Seq<char>, Seq<char>)>, n: int) -> Seq<char>
    decreases n,
{
    if n <= 0 {
        Seq::empty()
    } else {
        kv_lines(hs, n - 1) + hs[n - 1].0 + seq![':', ' '] + hs[n - 1].1 + seq!['\n']
    }
}

/// The first `n` signers, each as `Signed-By: ` with the signer and a line break.
pub open spec fn signer_lines(ss: Seq<Seq<char>>, n: int) -> Seq<char>
    decreases n,
{
    if n <= 0 {
        Seq::empty()
    } else {
        signer_lines(ss, n - 1) + seq!['S', 'i', 'g', 'n', 'e', 'd', '-', 'B', 'y', ':', ' '] + ss[n - 1]
            + seq!['\n']
    }
}

/// The headers, as their texts.
pub open spec fn kv_model(hs: Seq<(String, String)>) -> Seq<(Seq<char>, Seq<char>)> {
    Seq::new(hs.len(), |i: int| (hs[i].0@, hs[i].1@))
}

/// The signers, as their texts.
pub open spec fn signers_model(ss: Seq<String>) -> Seq<Seq<char>> {
    Seq::new(ss.len(), |i: int| ss[i]@)
}

/// The text of a bindle: the begin line, the `Id` line, a `Mnemonic` line where there
/// is a mnemonic, the headers, the signers, an empty line, the Base85 lines of the
/// data, an empty line and the end line.
pub open spec fn bindle_text_spec(
    title: Seq<char>,
    id: Seq<char>,
    mnemonic: Option<Seq<char>>,
    headers: Seq<(Seq<char>, Seq<char>)>,
    signers: Seq<Seq<char>>,
    data: Seq<u8>,
) -> Seq<char> {
    plate_line(true, title) + seq!['I', 'd', ':', ' '] + id + seq!['\n'] + match mnemonic {
        Some(m) => seq!['M', 'n', 'e', 'm', 'o', 'n', 'i', 'c', ':', ' '] + m + seq!['\n'],
        None => Seq::empty(),
    } + kv_lines(headers, headers.len() as int) + signer_lines(signers, signers.len() as int) + seq!['\n']
        + armor_lines(base85_text(data)) + seq!['\n'] + plate_line(false, title)
}

/// Writes a bindle of serialized `data` under the plate `title`.
pub fn bindle_text(
    title: &str,
    id: &str,
    mnemonic: Option<&str>,
    headers: &[(String, String)],
    signers: &[String],
    data: &[u8],
) -> (s: String)
    ensures
        s@ == bindle_text_spec(
            title@,
            id@,
            match mnemonic {
                Some(m) => Some(m@),
                None => None,
            },
            kv_model(headers@),
            signers_model(signers@),
            data@,
        ),
        base85_decodable(base85_text(data@)),
{
    let ghost hs = kv_model(headers@);
    let ghost ss = signers_model(signers@);
    let mut out: Vec<char> = Vec::new();
    push_plate_line(true, title, &mut out);
    out.push('I');
    out.push('d');
    out.push(':');
    out.push(' ');
    push_str(id, &mut out);
    out.push('\n');
    match mnemonic {
        Some(m) => {
            out.push('M');
            out.push('n');
            out.push('e');
            out.push('m');
            out.push('o');
            out.push('n');
            out.push('i');
            out.push('c');
            out.push(':');
            out.push(' ');
            push_str(m, &mut out);
            out.push('\n');
        },
        None => {},
    }
    let ghost head = out@;
    let mut i: usize = 0;
    while i < headers.len()
        invariant
            i <= headers@.len(),
            hs == kv_model(headers@),
            out@ == head + kv_lines(hs, i as int),
        decreases headers@.len() - i,
    {
        let ghost before = out@;
        push_str(headers[i].0.as_str(), &mut out);
        out.push(':');
        out.push(' ');
        push_str(headers[i].1.as_str(), &mut out);
        out.push('\n');
        assert(out@ =~= before + hs[i as int].0 + seq![':', ' '] + hs[i as int].1 + seq!['\n']);
        i = i + 1;
    }
    let ghost mid = out@;
    let mut i: usize = 0;
    while i < signers.len()
        invariant
            i <= signers@.len(),
            ss == signers_model(signers@),
            out@ == mid + signer_lines(ss, i as int),
        decreases signers@.len() - i,
    {
        let ghost before = out@;
        out.push('S');
        out.push('i');
        out.push('g');
        out.push('n');
        out.push('e');
        out.push('d');
        out.push('-');
        out.push('B');
        out.push('y');
        out.push(':');
        out.push(' ');
        push_str(signers[i].as_str(), &mut out);
        out.push('\n');
        assert(out@ =~= before + seq!['S', 'i', 'g', 'n', 'e', 'd', '-', 'B', 'y', ':', ' '] + ss[i as int]
            + seq!['\n']);
        i = i + 1;
    }
    out.push('\n');
    push_armor_lines(data, &mut out);
    out.push('\n');
    push_plate_line(false, title, &mut out);
    assert(out@ =~= bindle_text_spec(
        title@,
        id@,
        match mnemonic {
            Some(m) => Some(m@),
            None => None,
        },
        hs,
        ss,
        data@,
    ));
    string_from_chars(out)
}

/// A line without the carriage return that ends it, if one does.
pub open spec fn strip_cr(l: Seq<char>) -> Seq<char> {
    if l.len() > 0 && l.last() == '\r' {
        l.drop_last()
    } else {
        l
    }
}

/// The lines finished within the first `n` characters of `s`, and the line begun
/// after them.
pub open spec fn scan_lines(s: Seq<char>, n: int) -> (Seq<Seq<char>>, Seq<char>)
    decreases n,
{
    if n <= 0 {
        (Seq::empty(), Seq::empty())
    } else {
        let (ls, cur) = scan_lines(s, n - 1);
        if s[n - 1] == '\n' {
            (ls.push(strip_cr(cur)), Seq::empty())
        } else {
            (ls, cur.push(s[n - 1]))
        }
    }
}

/// The lines of `s`: split at `\n`, each without a `\r` before the `\n`; a final
/// line break starts no further line.
pub open spec fn lines_of(s: Seq<char>) -> Seq<Seq<char>> {
    let (ls, cur) = scan_lines(s, s.len() as int);
    if cur.len() > 0 {
        ls.push(cur)
    } else {
        ls
    }
}

/// The index of the first empty line, or the number of lines when none is empty.
pub open spec fn first_empty(ls: Seq<Seq<char>>) -> int
    decreases ls.len(),
{
    if ls.len() == 0 {
        0
    } else if ls[0].len() == 0 {
        0
    } else {
        1 + first_empty(ls.drop_first())
    }
}

/// The text `Id: `.
pub open spec fn id_prefix() -> Seq<char> {
    seq!['I', 'd', ':', ' ']
}

/// The values of the `Id: ` lines among the first `n` lines, in order.
pub open spec fn id_values(ls: Seq<Seq<char>>, n: int) -> Seq<Seq<char>>
    decreases n,
{
    if n <= 0 {
        Seq::empty()
    } else if ls[n - 1].len() >= 4 && ls[n - 1].take(4) == id_prefix() {
        id_values(ls, n - 1).push(ls[n - 1].skip(4))
    } else {
        id_values(ls, n - 1)
    }
}

/// The first `n` lines, one after another: the non-empty ones, as empty lines add
/// nothing.
pub open spec fn joined(ls: Seq<Seq<char>>, n: int) -> Seq<char>
    decreases n,
{
    if n <= 0 {
        Seq::empty()
    } else {
        joined(ls, n - 1) + ls[n - 1]
    }
}

/// The plate line without its line break.
pub open spec fn plate(begin: bool, title: Seq<char>) -> Seq<char> {
    plate_line(begin, title).drop_last()
}

/// Errors in the text of a bindle.
#[derive(Copy, Clone, PartialEq, Eq, Debug)]
pub enum BindleParseError {
    /// the provided text doesn't represent a recognizable ASCII-armored bindle
    /// encoding.
    WrongStructure,
    /// bindle data has invalid Base85 encoding (ASCII armoring).
    Base85,
    /// bindle contains more than 16MB of data.
    TooLarge,
    /// the actual data doesn't match the provided id.
    MismatchedId { actual: [u8; 32], expected: [u8; 32] },
}

/// The largest size of the data of a bindle, in bytes: 2^24 - 1.
pub const BINDLE_MAX_LEN: usize = 0xFF_FFFF;

/// Checks the id that the `Id` header of a bindle gives (the last such header, where
/// there is one) against the id computed from its content.
pub fn check_bindle_id(header_id: Option<[u8; 32]>, actual: [u8; 32]) -> (r: Result<(), BindleParseError>)
    ensures
        match header_id {
            None => r is Ok,
            Some(expected) => if expected@ == actual@ {
                r is Ok
            } else {
                r == Err::<(), BindleParseError>(BindleParseError::MismatchedId { actual, expected })
            },
        },
{
    match header_id {
        None => Ok(()),
        Some(expected) => {
            let mut i: usize = 0;
            while i < 32
                invariant
                    i <= 32,
                    header_id == Some(expected),
                    forall|j: int| 0 <= j < i ==> expected@[j] == actual@[j],
                decreases 32 - i,
            {
                if expected[i] != actual[i] {
                    return Err(BindleParseError::MismatchedId { actual, expected });
                }
                i = i + 1;
            }
            assert(expected@ =~= actual@);
            Ok(())
        },
    }
}

/// What the text of a bindle holds before its data is decoded: the values of its `Id`
/// headers and its Base85 text.
#[derive(Debug)]
pub struct BindleFrame {
    pub ids: Vec<String>,
    pub armor: String,
}

/// The frame of a bindle text: the first and the last line must be the plate lines
/// of `title`; the header lines run up to the first empty line; the non-empty lines
/// after it, but for the last, make the armor.
pub open spec fn spec_parse_frame(title: Seq<char>, s: Seq<char>) -> Option<(Seq<Seq<char>>, Seq<char>)> {
    let ls = lines_of(s);
    if ls.len() >= 2 && ls[0] == plate(true, title) && ls.last() == plate(false, title) {
        let mid = ls.subrange(1, ls.len() - 1);
        let k = first_empty(mid);
        let hdr = mid.take(k);
        let body = if k < mid.len() {
            mid.skip(k + 1)
        } else {
            Seq::empty()
        };
        Some((id_values(hdr, hdr.len() as int), joined(body, body.len() as int)))
    } else {
        None
    }
}

fn chars_eq(a: &Vec<char>, b: &Vec<char>) -> (r: bool)
    ensures
        r == (a@ == b@),
{
    if a.len() != b.len() {
        return false;
    }
    let mut i: usize = 0;
    while i < a.len()
        invariant
            i <= a@.len(),
            a@.len() == b@.len(),
            forall|j: int| 0 <= j < i ==> a@[j] == b@[j],
        decreases a@.len() - i,
    {
        if a[i] != b[i] {
            return false;
        }
        i = i + 1;
    }
    assert(a@ =~= b@);
    true
}

/// The lines of `s`.
fn split_lines(s: &str) -> (ls: Vec<Vec<char>>)
    ensures
        ls@.map_values(|l: Vec<char>| l@) == lines_of(s@),
{
    let n = s.unicode_len();
    let mut ls: Vec<Vec<char>> = Vec::new();
    let mut cur: Vec<char> = Vec::new();
    let mut i: usize = 0;
    assert(ls@.map_values(|l: Vec<char>| l@) =~= Seq::<Seq<char>>::empty());
    while i < n
        invariant
            i <= n,
            n == s@.len(),
            (ls@.map_values(|l: Vec<char>| l@), cur@) == scan_lines(s@, i as int),
        decreases n - i,
    {
        let c = s.get_char(i);
        let ghost prev = ls@.map_values(|l: Vec<char>| l@);
        let ghost cv = cur@;
        if c == '\n' {
            if cur.len() > 0 && cur[cur.len() - 1] == '\r' {
                cur.pop();
            }
            assert(cur@ == strip_cr(cv));
            let mut line: Vec<char> = Vec::new();
            std::mem::swap(&mut line, &mut cur);
            ls.push(line);
            assert(ls@.map_values(|l: Vec<char>| l@) =~= prev.push(strip_cr(cv)));
        } else {
            cur.push(c);
        }
        i = i + 1;
    }
    if cur.len() > 0 {
        let ghost prev = ls@.map_values(|l: Vec<char>| l@);
        let ghost cv = cur@;
        ls.push(cur);
        assert(ls@.map_values(|l: Vec<char>| l@) =~= prev.push(cv));
    }
    ls
}

/// The plate line of `title`, without its line break.
fn plate_chars(begin: bool, title: &str) -> (p: Vec<char>)
    ensures
        p@ == plate(begin, title@),
{
    let mut p: Vec<char> = Vec::new();
    push_plate_line(begin, title, &mut p);
    p.pop();
    p
}

/// Reads the frame of a bindle text (see [`spec_parse_frame`]).
pub fn parse_bindle_frame(title: &str, s: &str) -> (r: Result<BindleFrame, BindleParseError>)
    ensures
        r is Err <==> spec_parse_frame(title@, s@) is None,
        r matches Err(e) ==> e == BindleParseError::WrongStructure,
        r matches Ok(f) ==> spec_parse_frame(title@, s@) == Some(
            (Seq::new(f.ids@.len(), |i: int| f.ids@[i]@), f.armor@),
        ),
{
    let ls = split_lines(s);
    let ghost lv = ls@.map_values(|l: Vec<char>| l@);
    let n = ls.len();
    if n < 2 {
        return Err(BindleParseError::WrongStructure);
    }
    let begin = plate_chars(true, title);
    let end = plate_chars(false, title);
    assert(lv[0] == ls@[0]@);
    assert(lv.last() == ls@[n - 1]@);
    if !chars_eq(&ls[0], &begin) || !chars_eq(&ls[n - 1], &end) {
        return Err(BindleParseError::WrongStructure);
    }
    let ghost mid = lv.subrange(1, n - 1);
    // The header lines: up to the first empty line.
    let mut k: usize = 1;
    proof {
        lemma_first_empty(mid);
    }
    while k < n - 1 && ls[k].len() > 0
        invariant
            1 <= k <= n - 1,
            n == lv.len(),
            lv == ls@.map_values(|l: Vec<char>| l@),
            mid == lv.subrange(1, n - 1),
            0 <= first_empty(mid) <= mid.len(),
            first_empty(mid) < mid.len() ==> mid[first_empty(mid)].len() == 0,
            forall|j: int| 0 <= j < first_empty(mid) ==> mid[j].len() > 0,
            forall|j: int| 1 <= j < k ==> lv[j].len() > 0,
        decreases n - k,
    {
        assert(lv[k as int] == ls@[k as int]@);
        k = k + 1;
    }
    let ghost fe = first_empty(mid);
    assert(k - 1 == fe) by {
        if k - 1 < fe {
            assert(mid[k - 1].len() > 0);
            assert(lv[k as int] == ls@[k as int]@);
        }
        if k - 1 > fe {
            assert(lv[fe + 1].len() > 0);
        }
    }
    let ghost hdr = mid.take(fe);
    let mut ids: Vec<String> = Vec::new();
    let mut j: usize = 1;
    while j < k
        invariant
            1 <= j <= k,
            k <= n - 1,
            n == lv.len(),
            lv == ls@.map_values(|l: Vec<char>| l@),
            hdr == lv.subrange(1, k as int),
            Seq::new(ids@.len(), |i: int| ids@[i]@) == id_values(hdr, j - 1),
        decreases k - j,
    {
        let ghost before = Seq::new(ids@.len(), |i: int| ids@[i]@);
        let line = &ls[j];
        assert(line@ == hdr[j - 1]);
        if line.len() >= 4 && line[0] == 'I' && line[1] == 'd' && line[2] == ':' && line[3] == ' ' {
            assert(line@.take(4) =~= id_prefix());
            let mut v: Vec<char> = Vec::new();
            let mut t: usize = 4;
            while t < line.len()
                invariant
                    4 <= t <= line@.len(),
                    v@ == line@.subrange(4, t as int),
                decreases line@.len() - t,
            {
                v.push(line[t]);
                t = t + 1;
                assert(v@ =~= line@.subrange(4, t as int));
            }
            let ghost vv = v@;
            ids.push(string_from_chars(v));
            assert(Seq::new(ids@.len(), |i: int| ids@[i]@) =~= before.push(vv));
        } else {
            assert(!(line@.len() >= 4 && line@.take(4) == id_prefix())) by {
                if line@.len() >= 4 && line@.take(4) == id_prefix() {
                    assert(line@.take(4)[0] == 'I');
                    assert(line@.take(4)[1] == 'd');
                    assert(line@.take(4)[2] == ':');
                    assert(line@.take(4)[3] == ' ');
                }
            }
        }
        j = j + 1;
    }
    let ghost body = if fe < mid.len() {
        mid.skip(fe + 1)
    } else {
        Seq::<Seq<char>>::empty()
    };
    let mut armor: Vec<char> = Vec::new();
    let mut j: usize = k + 1;
    assert(body =~= if k + 1 <= n - 1 { lv.subrange(k + 1, n - 1) } else { Seq::<Seq<char>>::empty() });
    while j < n - 1
        invariant
            k + 1 <= j,
            j <= n - 1 || j == k + 1,
            n >= 2,
            k <= n - 1,
            n == lv.len(),
            lv == ls@.map_values(|l: Vec<char>| l@),
            body == (if k + 1 <= n - 1 { lv.subrange(k + 1, n - 1) } else { Seq::<Seq<char>>::empty() }),
            armor@ == joined(body, j - (k + 1)),
        decreases n - j,
    {
        let ghost before = armor@;
        let line = &ls[j];
        assert(line@ == body[j - (k + 1)]);
        let mut t: usize = 0;
        while t < line.len()
            invariant
                t <= line@.len(),
                armor@ == before + line@.subrange(0, t as int),
            decreases line@.len() - t,
        {
            armor.push(line[t]);
            t = t + 1;
            assert(armor@ =~= before + line@.subrange(0, t as int));
        }
        assert(line@.subrange(0, line@.len() as int) =~= line@);
        j = j + 1;
    }
    let frame = BindleFrame { ids, armor: string_from_chars(armor) };
    Ok(frame)
}

/// What the text of a bindle holds: the values of its `Id` headers and its data.
#[derive(Debug)]
pub struct ParsedBindle {
    pub ids: Vec<String>,
    pub data: Vec<u8>,
}

/// The texts of a list of strings.
pub open spec fn texts(ss: Seq<String>) -> Seq<Seq<char>> {
    Seq::new(ss.len(), |i: int| ss[i]@)
}

/// Reads a bindle text: its frame (see [`spec_parse_frame`]), then the data that its
/// Base85 text decodes to. A text that [`bindle_text`] wrote is read back to the id
/// and the data it was written with, where the parts fit on their lines.
pub fn parse_bindle(title: &str, s: &str) -> (r: Result<ParsedBindle, BindleParseError>)
    ensures
        match spec_parse_frame(title@, s@) {
            None => r == Err::<ParsedBindle, BindleParseError>(BindleParseError::WrongStructure),
            Some((ids, armor)) => if !base85_decodable(armor) {
                r == Err::<ParsedBindle, BindleParseError>(BindleParseError::Base85)
            } else if base85_data(armor).len() > BINDLE_MAX_LEN {
                r == Err::<ParsedBindle, BindleParseError>(BindleParseError::TooLarge)
            } else {
                r matches Ok(b) && texts(b.ids@) == ids && b.data@ == base85_data(armor)
            },
        },
        forall|id: Seq<char>, mnemonic: Option<Seq<char>>, headers: Seq<(Seq<char>, Seq<char>)>, signers: Seq<Seq<char>>, data: Seq<u8>|
            #![trigger bindle_text_spec(title@, id, mnemonic, headers, signers, data)]
            s@ == bindle_text_spec(title@, id, mnemonic, headers, signers, data) && bindle_parts_fit(
                title@,
                id,
                mnemonic,
                headers,
                signers,
            ) && base85_decodable(base85_text(data)) && data.len() <= BINDLE_MAX_LEN ==> (r matches Ok(b) && texts(
                b.ids@,
            ) == seq![id] && b.data@ == data),
{
    let frame = match parse_bindle_frame(title, s) {
        Ok(f) => f,
        Err(e) => {
            proof {
                assert forall|id: Seq<char>, mnemonic: Option<Seq<char>>, headers: Seq<(Seq<char>, Seq<char>)>, signers: Seq<Seq<char>>, data: Seq<u8>|
                    s@ == bindle_text_spec(title@, id, mnemonic, headers, signers, data) && bindle_parts_fit(
                        title@,
                        id,
                        mnemonic,
                        headers,
                        signers,
                    ) && base85_decodable(base85_text(data)) implies false by {
                    lemma_bindle_frame_roundtrip(title@, id, mnemonic, headers, signers, data);
                }
            }
            return Err(e);
        },
    };
    assert(texts(frame.ids@) =~= Seq::new(frame.ids@.len(), |i: int| frame.ids@[i]@));
    if !is_base85_decodable(frame.armor.as_str()) {
        proof {
            assert forall|id: Seq<char>, mnemonic: Option<Seq<char>>, headers: Seq<(Seq<char>, Seq<char>)>, signers: Seq<Seq<char>>, data: Seq<u8>|
                s@ == bindle_text_spec(title@, id, mnemonic, headers, signers, data) && bindle_parts_fit(
                    title@,
                    id,
                    mnemonic,
                    headers,
                    signers,
                ) && base85_decodable(base85_text(data)) implies false by {
                lemma_bindle_frame_roundtrip(title@, id, mnemonic, headers, signers, data);
            }
        }
        return Err(BindleParseError::Base85);
    }
    let data = base85_decode(frame.armor.as_str());
    if data.len() > BINDLE_MAX_LEN {
        proof {
            assert forall|id: Seq<char>, mnemonic: Option<Seq<char>>, headers: Seq<(Seq<char>, Seq<char>)>, signers: Seq<Seq<char>>, d: Seq<u8>|
                s@ == bindle_text_spec(title@, id, mnemonic, headers, signers, d) && bindle_parts_fit(
                    title@,
                    id,
                    mnemonic,
                    headers,
                    signers,
                ) && base85_decodable(base85_text(d)) && d.len() <= BINDLE_MAX_LEN implies false by {
                lemma_bindle_frame_roundtrip(title@, id, mnemonic, headers, signers, d);
                assert(frame.armor@ == base85_text(d));
            }
        }
        return Err(BindleParseError::TooLarge);
    }
    proof {
        assert forall|id: Seq<char>, mnemonic: Option<Seq<char>>, headers: Seq<(Seq<char>, Seq<char>)>, signers: Seq<Seq<char>>, d: Seq<u8>|
            s@ == bindle_text_spec(title@, id, mnemonic, headers, signers, d) && bindle_parts_fit(
                title@,
                id,
                mnemonic,
                headers,
                signers,
            ) && base85_decodable(base85_text(d)) implies texts(frame.ids@) == seq![id] && data@ == d by {
            lemma_bindle_frame_roundtrip(title@, id, mnemonic, headers, signers, d);
            assert(frame.armor@ == base85_text(d));
        }
    }
    Ok(ParsedBindle { ids: frame.ids, data })
}

pub proof fn lemma_first_empty(ls: Seq<Seq<char>>)
    ensures
        0 <= first_empty(ls) <= ls.len(),
        first_empty(ls) < ls.len() ==> ls[first_empty(ls)].len() == 0,
        forall|j: int| 0 <= j < first_empty(ls) ==> ls[j].len() > 0,
    decreases ls.len(),
{
    if ls.len() > 0 && ls[0].len() > 0 {
        lemma_first_empty(ls.drop_first());
        assert forall|j: int| 0 <= j < first_empty(ls) implies ls[j].len() > 0 by {
            if j > 0 {
                assert(ls[j] == ls.drop_first()[j - 1]);
            }
        }
    }
}

} // verus!
