//! Small value types shared by the type AST and its encodings.

use vstd::prelude::*;
use vstd::string::StrSliceExecFns;

verus! {

/// Bounds on the number of items in a collection.
#[derive(Copy, Clone, PartialEq, Eq, Debug, Structural)]
pub struct Sizing {
    pub min: u64,
    pub max: u64,
}

impl Sizing {
    pub fn one() -> (s: Sizing)
        ensures
            s == (Sizing { min: 1, max: 1 }),
    {
        Sizing { min: 1, max: 1 }
    }

    pub fn u8() -> (s: Sizing)
        ensures
            s == (Sizing { min: 0, max: 0xFF }),
    {
        Sizing { min: 0, max: 0xFF }
    }

    pub fn u16() -> (s: Sizing)
        ensures
            s == (Sizing { min: 0, max: 0xFFFF }),
    {
        Sizing { min: 0, max: 0xFFFF }
    }

    pub fn u8_nonempty() -> (s: Sizing)
        ensures
            s == (Sizing { min: 1, max: 0xFF }),
    {
        Sizing { min: 1, max: 0xFF }
    }

    pub fn u16_nonempty() -> (s: Sizing)
        ensures
            s == (Sizing { min: 1, max: 0xFFFF }),
    {
        Sizing { min: 1, max: 0xFFFF }
    }

    pub fn new(min: u64, max: u64) -> (s: Sizing)
        ensures
            s == (Sizing { min, max }),
    {
        Sizing { min, max }
    }

    pub fn fixed(len: u64) -> (s: Sizing)
        ensures
            s == (Sizing { min: len, max: len }),
    {
        Sizing { min: len, max: len }
    }

    pub fn is_fixed(&self) -> (r: bool)
        ensures
            r == (self.min == self.max),
    {
        self.min == self.max
    }

    /// Whether a collection of `len` items fits these bounds.
    pub fn check(&self, len: usize) -> (r: bool)
        ensures
            r == (self.min <= len && len <= self.max),
    {
        let len = len as u64;
        len >= self.min && len <= self.max
    }
}

} // verus!

verus! {

/// The decimal digit for `d`.
pub open spec fn digit_char(d: nat) -> char {
    ((48 + d) as u32) as char
}

/// The decimal notation of `n`, without leading zeros.
pub open spec fn decimal(n: nat) -> Seq<char>
    decreases n,
{
    if n < 10 {
        seq![digit_char(n)]
    } else {
        decimal(n / 10) + seq![digit_char(n % 10)]
    }
}

/// Appends the decimal notation of `n` to `out`.
pub fn push_decimal(n: u64, out: &mut Vec<char>)
    ensures
        final(out)@ == old(out)@ + decimal(n as nat),
    decreases n,
{
    if n >= 10 {
        push_decimal(n / 10, out);
    }
    let d = (n % 10) as u8;
    let c = (48u8 + d) as char;
    assert(c == digit_char((n % 10) as nat));
    out.push(c);
}

/// Appends the characters of `s` to `out`.
pub fn push_str(s: &str, out: &mut Vec<char>)
    ensures
        final(out)@ == old(out)@ + s@,
{
    let ghost start = out@;
    let n = s.unicode_len();
    let mut i: usize = 0;
    while i < n
        invariant
            i <= n,
            n == s@.len(),
            out@ == start + s@.subrange(0, i as int),
        decreases n - i,
    {
        out.push(s.get_char(i));
        assert(s@.subrange(0, i + 1) == s@.subrange(0, i as int).push(s@[i as int]));
        i = i + 1;
    }
    assert(s@.subrange(0, n as int) == s@);
}

/// Calls `String::from_iter` on characters. Trusted to give the string of exactly
/// these characters.
#[verifier::external_body]
pub fn string_from_chars(chars: Vec<char>) -> (s: String)
    ensures
        s@ == chars@,
{
    String::from_iter(chars)
}

/// The lowercase hexadecimal digit for `d`.
pub open spec fn hex_digit(d: nat) -> char {
    if d < 10 {
        ((48 + d) as u32) as char
    } else {
        ((87 + d) as u32) as char
    }
}

/// The lowercase hexadecimal digits of `n`, without leading zeros.
pub open spec fn hex_digits(n: nat) -> Seq<char>
    decreases n,
{
    if n < 16 {
        seq![hex_digit(n)]
    } else {
        hex_digits(n / 16) + seq![hex_digit(n % 16)]
    }
}

/// The notation of `n` as `0x` and its hexadecimal digits.
pub open spec fn hex_text(n: nat) -> Seq<char> {
    seq!['0', 'x'] + hex_digits(n)
}

fn push_hex_digits(n: u64, out: &mut Vec<char>)
    ensures
        final(out)@ == old(out)@ + hex_digits(n as nat),
    decreases n,
{
    if n >= 16 {
        push_hex_digits(n / 16, out);
    }
    let d = (n % 16) as u8;
    let c = if d < 10 {
        (48u8 + d) as char
    } else {
        (87u8 + d) as char
    };
    assert(c == hex_digit((n % 16) as nat));
    out.push(c);
}

/// Appends `0x` and the hexadecimal digits of `n` to `out`.
pub fn push_hex(n: u64, out: &mut Vec<char>)
    ensures
        final(out)@ == old(out)@ + hex_text(n as nat),
{
    let ghost start = out@;
    out.push('0');
    out.push('x');
    push_hex_digits(n, out);
    assert(out@ =~= start + hex_text(n as nat));
}

/// Appends `n` spaces to `out`.
pub fn push_spaces(n: usize, out: &mut Vec<char>)
    ensures
        final(out)@ == old(out)@ + Seq::new(n as nat, |i: int| ' '),
{
    let ghost start = out@;
    let mut i: usize = 0;
    while i < n
        invariant
            i <= n,
            out@ == start + Seq::new(i as nat, |j: int| ' '),
        decreases n - i,
    {
        out.push(' ');
        i = i + 1;
        assert(out@ =~= start + Seq::new(i as nat, |j: int| ' '));
    }
}

/// The characters of an ASCII name, one per byte.
pub open spec fn name_text(name: Seq<u8>) -> Seq<char> {
    Seq::new(name.len(), |i: int| name[i] as char)
}

/// Appends the characters of an ASCII name to `out`.
pub fn push_name(name: &[u8], out: &mut Vec<char>)
    ensures
        final(out)@ == old(out)@ + name_text(name@),
{
    let ghost start = out@;
    let mut i: usize = 0;
    while i < name.len()
        invariant
            i <= name@.len(),
            out@ == start + name_text(name@.subrange(0, i as int)),
        decreases name@.len() - i,
    {
        out.push(name[i] as char);
        i = i + 1;
        assert(out@ =~= start + name_text(name@.subrange(0, i as int)));
    }
    assert(name@.subrange(0, name@.len() as int) =~= name@);
}

/// How size bounds are written after the type of the items: nothing for the default
/// bounds, ` ^ n` for a fixed size, else ` ^ ` with the minimum, `..`, and the
/// maximum in hexadecimal; a bound at its default is left out.
pub open spec fn sizing_text(s: Sizing) -> Seq<char> {
    if s.min == 0 && s.max == 0xFFFF {
        Seq::empty()
    } else if s.min == s.max {
        seq![' ', '^', ' '] + decimal(s.min as nat)
    } else if s.min == 0 {
        seq![' ', '^', ' ', '.', '.'] + hex_text(s.max as nat)
    } else if s.max == 0xFFFF {
        seq![' ', '^', ' '] + decimal(s.min as nat) + seq!['.', '.']
    } else {
        seq![' ', '^', ' '] + decimal(s.min as nat) + seq!['.', '.'] + hex_text(s.max as nat)
    }
}

impl Sizing {
    /// Appends the text of the bounds to `out`.
    pub fn push_text(&self, out: &mut Vec<char>)
        ensures
            final(out)@ == old(out)@ + sizing_text(*self),
    {
        let ghost start = out@;
        if self.min == 0 && self.max == 0xFFFF {
            assert(out@ =~= start + sizing_text(*self));
            return;
        }
        out.push(' ');
        out.push('^');
        out.push(' ');
        if self.min == self.max {
            push_decimal(self.min, out);
        } else if self.min == 0 {
            out.push('.');
            out.push('.');
            push_hex(self.max, out);
        } else if self.max == 0xFFFF {
            push_decimal(self.min, out);
            out.push('.');
            out.push('.');
        } else {
            push_decimal(self.min, out);
            out.push('.');
            out.push('.');
            push_hex(self.max, out);
        }
        assert(out@ =~= start + sizing_text(*self));
    }

    /// The text of the bounds.
    pub fn to_string(&self) -> (s: String)
        ensures
            s@ == sizing_text(*self),
    {
        let mut out: Vec<char> = Vec::new();
        self.push_text(&mut out);
        assert(out@ =~= sizing_text(*self));
        string_from_chars(out)
    }
}

} // verus!
