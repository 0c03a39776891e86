//! ASCII armor: text framing of binary data, with headers and Base85 lines.

use vstd::prelude::*;
use vstd::string::StrSliceExecFns;

use crate::util::{push_str, string_from_chars};

verus! {

/// A header line of an armored block: `title: value`, then `;` and `name=value` for
/// each parameter on lines of their own.
#[derive(Debug)]
pub struct ArmorHeader {
    pub title: String,
    pub value: String,
    pub params: Vec<(String, String)>,
}

/// The parameters of a header, as their texts.
pub open spec fn params_model(params: Seq<(String, String)>) -> Seq<(Seq<char>, Seq<char>)> {
    Seq::new(params.len(), |i: int| (params[i].0@, params[i].1@))
}

/// The first `n` parameters, each as `;`, a line break, the name, `=` and the value.
pub open spec fn params_text(ps: Seq<(Seq<char>, Seq<char>)>, n: int) -> Seq<char>
    decreases n,
{
    if n <= 0 {
        Seq::empty()
    } else {
        params_text(ps, n - 1) + seq![';', '\n'] + ps[n - 1].0 + seq!['='] + ps[n - 1].1
    }
}

/// The text of a header; one without parameters ends with a line break.
pub open spec fn header_text(title: Seq<char>, value: Seq<char>, ps: Seq<(Seq<char>, Seq<char>)>) -> Seq<char> {
    title + seq![':', ' '] + value + (if ps.len() == 0 {
        seq!['\n']
    } else {
        Seq::empty()
    }) + params_text(ps, ps.len() as int)
}

impl ArmorHeader {
    pub open spec fn spec_text(&self) -> Seq<char> {
        header_text(self.title@, self.value@, params_model(self.params@))
    }

    /// Appends the text of the header to `out`.
    pub fn push_text(&self, out: &mut Vec<char>)
        ensures
            final(out)@ == old(out)@ + self.spec_text(),
    {
        let ghost ps = params_model(self.params@);
        let ghost start = out@;
        push_str(self.title.as_str(), out);
        out.push(':');
        out.push(' ');
        push_str(self.value.as_str(), out);
        if self.params.len() == 0 {
            out.push('\n');
        }
        let ghost head = out@;
        assert(head =~= start + self.title@ + seq![':', ' '] + self.value@ + (if ps.len() == 0 {
            seq!['\n']
        } else {
            Seq::<char>::empty()
        }));
        let mut i: usize = 0;
        while i < self.params.len()
            invariant
                i <= self.params@.len(),
                ps == params_model(self.params@),
                out@ == head + params_text(ps, i as int),
            decreases self.params@.len() - i,
        {
            let ghost before = out@;
            out.push(';');
            out.push('\n');
            push_str(self.params[i].0.as_str(), out);
            out.push('=');
            push_str(self.params[i].1.as_str(), out);
            assert(out@ =~= before + seq![';', '\n'] + ps[i as int].0 + seq!['='] + ps[i as int].1);
            i = i + 1;
        }
        assert(out@ =~= start + self.spec_text());
    }

    /// The text of the header.
    pub fn to_string(&self) -> (s: String)
        ensures
            s@ == self.spec_text(),
    {
        let mut out: Vec<char> = Vec::new();
        self.push_text(&mut out);
        assert(out@ =~= self.spec_text());
        string_from_chars(out)
    }
}

/// The Base85 text (RFC 1924 alphabet) of `data`.
pub uninterp spec fn base85_text(data: Seq<u8>) -> Seq<char>;

/// The characters of the Base85 alphabet of RFC 1924: digits, letters and
/// `!#$%&()*+-;<=>?@^_`{|}~`.
pub open spec fn is_base85_char(c: char) -> bool {
    ('0' <= c <= '9') || ('A' <= c <= 'Z') || ('a' <= c <= 'z') || c == '!' || c == '#' || c == '$' || c == '%'
        || c == '&' || c == '(' || c == ')' || c == '*' || c == '+' || c == '-' || c == ';' || c == '<'
        || c == '=' || c == '>' || c == '?' || c == '@' || c == '^' || c == '_' || c == '`' || c == '{'
        || c == '|' || c == '}' || c == '~'
}

/// The value of a character of the Base85 alphabet, by the crate's table of digits:
/// digits from 0, upper-case letters from 10, lower-case letters from 36, then the
/// signs `!#$%&()*+-;<=>?@^_`{|}~` from 62 to 84.
pub open spec fn b85_value(c: char) -> int {
    if '0' <= c <= '9' {
        c as int - 48
    } else if 'A' <= c <= 'Z' {
        c as int - 55
    } else if 'a' <= c <= 'z' {
        c as int - 61
    } else if c == '!' {
        62
    } else if c == '#' {
        63
    } else if c == '$' {
        64
    } else if c == '%' {
        65
    } else if c == '&' {
        66
    } else if c == '(' {
        67
    } else if c == ')' {
        68
    } else if c == '*' {
        69
    } else if c == '+' {
        70
    } else if c == '-' {
        71
    } else if c == ';' {
        72
    } else if c == '<' {
        73
    } else if c == '=' {
        74
    } else if c == '>' {
        75
    } else if c == '?' {
        76
    } else if c == '@' {
        77
    } else if c == '^' {
        78
    } else if c == '_' {
        79
    } else if c == '`' {
        80
    } else if c == '{' {
        81
    } else if c == '|' {
        82
    } else if c == '}' {
        83
    } else {
        84
    }
}

/// The digit at position `i` of `t`, or 126 past its end (the value that the decoder
/// puts in place of the characters missing from a last, short group).
pub open spec fn b85_digit_at(t: Seq<char>, i: int) -> int {
    if i < t.len() {
        b85_value(t[i])
    } else {
        126
    }
}

/// The number that the group of five characters from position `5 * k` of `t` stands
/// for, in base 85, the most significant digit first.
pub open spec fn b85_group(t: Seq<char>, k: int) -> int {
    b85_digit_at(t, 5 * k) * 52200625 + b85_digit_at(t, 5 * k + 1) * 614125 + b85_digit_at(t, 5 * k + 2)
        * 7225 + b85_digit_at(t, 5 * k + 3) * 85 + b85_digit_at(t, 5 * k + 4)
}

/// Whether `t` is Base85 text that decodes to bytes: every character is in the
/// alphabet, the text does not end in a lone character after its groups of five, and
/// no group stands for a number above `u32::MAX`.
pub open spec fn base85_decodable(t: Seq<char>) -> bool {
    &&& forall|i: int| 0 <= i < t.len() ==> is_base85_char(#[trigger] t[i])
    &&& t.len() % 5 != 1
    &&& forall|k: int| 0 <= k && 5 * k < t.len() ==> #[trigger] b85_group(t, k) <= 0xFFFF_FFFF
}

/// Calls `base85::encode`. Trusted to give a text that depends on the data alone,
/// named [`base85_text`], made of the characters of the alphabet that the crate's
/// table of digits lists, and that `base85::decode` reads back (each full group
/// encodes a `u32`; a last group of one, two or three bytes is written as two, three
/// or four characters, whose value padded with the digit 126 stays below 2^32).
/// Nothing more of the encoding is stated.
#[verifier::external_body]
pub(crate) fn base85_encode(data: &[u8]) -> (s: String)
    ensures
        s@ == base85_text(data@),
        base85_decodable(s@),
{
    base85::encode(data)
}

/// The bytes that the Base85 text `text` decodes to.
pub uninterp spec fn base85_data(text: Seq<char>) -> Seq<u8>;

/// Calls `base85::decode` on a text that [`base85_decodable`] admits: there the crate
/// finds every character in its table and no lone character at the end, so it returns
/// bytes, and no group overflows its `u32` accumulator, so it does not panic. Trusted
/// to give bytes that depend on the text alone, named [`base85_data`], and to give
/// back the data of any text that `base85::encode` wrote (the crate's own test
/// encodes and decodes back). Nothing more of the decoding is stated.
#[verifier::external_body]
pub(crate) fn base85_decode(text: &str) -> (data: Vec<u8>)
    requires
        base85_decodable(text@),
    ensures
        data@ == base85_data(text@),
        forall|d: Seq<u8>| text@ == #[trigger] base85_text(d) ==> data@ == d,
{
    match base85::decode(text) {
        Ok(data) => data,
        Err(_) => Vec::new(),
    }
}

/// The value of a Base85 character, if it is one.
fn b85_digit(c: char) -> (r: Option<u64>)
    ensures
        r is Some <==> is_base85_char(c),
        r matches Some(v) ==> v == b85_value(c),
{
    if '0' <= c && c <= '9' {
        Some((c as u32 - 48) as u64)
    } else if 'A' <= c && c <= 'Z' {
        Some((c as u32 - 55) as u64)
    } else if 'a' <= c && c <= 'z' {
        Some((c as u32 - 61) as u64)
    } else if c == '!' {
        Some(62)
    } else if c == '#' {
        Some(63)
    } else if c == '$' {
        Some(64)
    } else if c == '%' {
        Some(65)
    } else if c == '&' {
        Some(66)
    } else if c == '(' {
        Some(67)
    } else if c == ')' {
        Some(68)
    } else if c == '*' {
        Some(69)
    } else if c == '+' {
        Some(70)
    } else if c == '-' {
        Some(71)
    } else if c == ';' {
        Some(72)
    } else if c == '<' {
        Some(73)
    } else if c == '=' {
        Some(74)
    } else if c == '>' {
        Some(75)
    } else if c == '?' {
        Some(76)
    } else if c == '@' {
        Some(77)
    } else if c == '^' {
        Some(78)
    } else if c == '_' {
        Some(79)
    } else if c == '`' {
        Some(80)
    } else if c == '{' {
        Some(81)
    } else if c == '|' {
        Some(82)
    } else if c == '}' {
        Some(83)
    } else if c == '~' {
        Some(84)
    } else {
        None
    }
}

/// The digit at position `i` of a text of Base85 characters, or 126 past its end.
fn b85_digit_or_pad(t: &str, i: usize) -> (v: u64)
    requires
        forall|j: int| 0 <= j < t@.len() ==> is_base85_char(#[trigger] t@[j]),
    ensures
        v == b85_digit_at(t@, i as int),
        v <= 126,
{
    if i < t.unicode_len() {
        match b85_digit(t.get_char(i)) {
            Some(v) => v,
            None => 0,
        }
    } else {
        126
    }
}

/// Whether `t` is Base85 text that decodes to bytes (see [`base85_decodable`]).
pub fn is_base85_decodable(t: &str) -> (r: bool)
    ensures
        r == base85_decodable(t@),
{
    let n = t.unicode_len();
    if n % 5 == 1 {
        return false;
    }
    let mut i: usize = 0;
    while i < n
        invariant
            i <= n,
            n == t@.len(),
            forall|j: int| 0 <= j < i ==> is_base85_char(#[trigger] t@[j]),
        decreases n - i,
    {
        if b85_digit(t.get_char(i)).is_none() {
            return false;
        }
        i = i + 1;
    }
    let mut pos: usize = 0;
    let ghost mut k: int = 0;
    while pos < n
        invariant
            n == t@.len(),
            forall|j: int| 0 <= j < n ==> is_base85_char(#[trigger] t@[j]),
            pos == 5 * k,
            0 <= k,
            pos <= n + 4,
            forall|g: int| 0 <= g < k ==> #[trigger] b85_group(t@, g) <= 0xFFFF_FFFF,
        decreases n + 5 - pos,
    {
        let v = b85_digit_or_pad(t, pos) * 52200625 + b85_digit_or_pad(t, pos + 1) * 614125
            + b85_digit_or_pad(t, pos + 2) * 7225 + b85_digit_or_pad(t, pos + 3) * 85
            + b85_digit_or_pad(t, pos + 4);
        assert(v == b85_group(t@, k));
        if v > 0xFFFF_FFFF {
            return false;
        }
        pos = pos + 5;
        proof {
            k = k + 1;
        }
    }
    true
}

/// The first `n` characters of `t`, with a line break after every 64th.
pub open spec fn chunked(t: Seq<char>, n: int) -> Seq<char>
    decreases n,
{
    if n <= 0 {
        Seq::empty()
    } else {
        chunked(t, n - 1) + seq![t[n - 1]] + if n % 64 == 0 {
            seq!['\n']
        } else {
            Seq::empty()
        }
    }
}

/// Text cut into lines of 64 characters, the last line possibly shorter or empty, each
/// ending with a line break.
pub open spec fn armor_lines(t: Seq<char>) -> Seq<char> {
    chunked(t, t.len() as int) + seq!['\n']
}

/// Appends the Base85 text of `data` to `out`, in lines of 64 characters.
pub fn push_armor_lines(data: &[u8], out: &mut Vec<char>)
    ensures
        final(out)@ == old(out)@ + armor_lines(base85_text(data@)),
        base85_decodable(base85_text(data@)),
{
    let text = base85_encode(data);
    let s = text.as_str();
    let ghost t = s@;
    let ghost start = out@;
    let n = s.unicode_len();
    let mut i: usize = 0;
    while i < n
        invariant
            i <= n,
            n == t.len(),
            t == s@,
            out@ == start + chunked(t, i as int),
        decreases n - i,
    {
        let ghost before = out@;
        out.push(s.get_char(i));
        if (i + 1) % 64 == 0 {
            out.push('\n');
        }
        i = i + 1;
        assert(out@ =~= start + chunked(t, i as int));
    }
    out.push('\n');
}

/// The line `-----BEGIN title-----` or `-----END title-----`.
pub open spec fn plate_line(begin: bool, title: Seq<char>) -> Seq<char> {
    seq!['-', '-', '-', '-', '-'] + (if begin {
        seq!['B', 'E', 'G', 'I', 'N', ' ']
    } else {
        seq!['E', 'N', 'D', ' ']
    }) + title + seq!['-', '-', '-', '-', '-', '\n']
}

/// Appends a plate line to `out`.
pub fn push_plate_line(begin: bool, title: &str, out: &mut Vec<char>)
    ensures
        final(out)@ == old(out)@ + plate_line(begin, title@),
{
    let ghost start = out@;
    let mut i: usize = 0;
    while i < 5
        invariant
            i <= 5,
            out@ == start + Seq::new(i as nat, |j: int| '-'),
        decreases 5 - i,
    {
        out.push('-');
        i = i + 1;
        assert(out@ =~= start + Seq::new(i as nat, |j: int| '-'));
    }
    if begin {
        out.push('B');
        out.push('E');
        out.push('G');
        out.push('I');
        out.push('N');
        out.push(' ');
    } else {
        out.push('E');
        out.push('N');
        out.push('D');
        out.push(' ');
    }
    push_str(title, out);
    let ghost mid = out@;
    let mut i: usize = 0;
    while i < 5
        invariant
            i <= 5,
            out@ == mid + Seq::new(i as nat, |j: int| '-'),
        decreases 5 - i,
    {
        out.push('-');
        i = i + 1;
        assert(out@ =~= mid + Seq::new(i as nat, |j: int| '-'));
    }
    out.push('\n');
    assert(out@ =~= start + plate_line(begin, title@));
}

/// The first `n` headers, each followed by a line break.
pub open spec fn headers_text(hs: Seq<ArmorHeader>, n: int) -> Seq<char>
    decreases n,
{
    if n <= 0 {
        Seq::empty()
    } else {
        headers_text(hs, n - 1) + hs[n - 1].spec_text() + seq!['\n']
    }
}

/// The armored text of data: the begin line, the `Id` and `Digest` lines, the
/// headers, an empty line, the Base85 lines of the data, an empty line and the end
/// line.
pub open spec fn armored_text(
    title: Seq<char>,
    id: Seq<char>,
    digest: Seq<char>,
    headers: Seq<ArmorHeader>,
    data: Seq<u8>,
) -> Seq<char> {
    plate_line(true, title) + seq!['I', 'd', ':', ' '] + id + seq!['\n'] + seq![
        'D',
        'i',
        'g',
        'e',
        's',
        't',
        ':',
        ' ',
    ] + digest + seq!['\n'] + headers_text(headers, headers.len() as int) + seq!['\n'] + armor_lines(
        base85_text(data),
    ) + seq!['\n'] + plate_line(false, title)
}

/// Writes data as an armored block under the plate `title`, with its id, its digest
/// and the headers.
pub fn display_ascii_armored(title: &str, id: &str, digest: &str, headers: &[ArmorHeader], data: &[u8]) -> (s: String)
    ensures
        s@ == armored_text(title@, id@, digest@, headers@, data@),
{
    let mut out: Vec<char> = Vec::new();
    push_plate_line(true, title, &mut out);
    out.push('I');
    out.push('d');
    out.push(':');
    out.push(' ');
    push_str(id, &mut out);
    out.push('\n');
    out.push('D');
    out.push('i');
    out.push('g');
    out.push('e');
    out.push('s');
    out.push('t');
    out.push(':');
    out.push(' ');
    push_str(digest, &mut out);
    out.push('\n');
    let ghost head = out@;
    let mut i: usize = 0;
    while i < headers.len()
        invariant
            i <= headers@.len(),
            out@ == head + headers_text(headers@, i as int),
        decreases headers@.len() - i,
    {
        headers[i].push_text(&mut out);
        out.push('\n');
        i = i + 1;
    }
    out.push('\n');
    push_armor_lines(data, &mut out);
    out.push('\n');
    push_plate_line(false, title, &mut out);
    assert(out@ =~= armored_text(title@, id@, digest@, headers@, data@));
    string_from_chars(out)
}

} // verus!
