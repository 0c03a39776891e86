//! Identifiers: ASCII names of types, fields, variants and libraries.

use vstd::prelude::*;
use vstd::string::StringSliceAdditionalSpecFns;

use crate::collection::ConfinementError;
use crate::encoding::DecodeError;

verus! {

/// Maximal length of an identifier, in characters.
pub const IDENT_MAX_LEN: usize = 32;

pub open spec fn is_ascii_byte(b: u8) -> bool {
    b < 0x80
}

pub open spec fn is_alphabetic(b: u8) -> bool {
    (0x41 <= b <= 0x5A) || (0x61 <= b <= 0x7A)
}

pub open spec fn is_digit(b: u8) -> bool {
    0x30 <= b <= 0x39
}

/// Characters allowed anywhere in an identifier: letters, digits and `_`.
pub open spec fn is_ident_char(b: u8) -> bool {
    is_alphabetic(b) || is_digit(b) || b == 0x5F
}

/// Characters allowed at the start of an identifier: letters and `_`.
pub open spec fn is_ident_start(b: u8) -> bool {
    is_alphabetic(b) || b == 0x5F
}

pub open spec fn all_ascii(s: Seq<u8>) -> bool {
    forall|i: int| 0 <= i < s.len() ==> is_ascii_byte(#[trigger] s[i])
}

pub open spec fn all_ident_chars(s: Seq<u8>) -> bool {
    forall|i: int| 0 <= i < s.len() ==> is_ident_char(#[trigger] s[i])
}

/// Index of the first character that may not stand in an identifier, or the length
/// of `s` when there is none.
pub open spec fn first_invalid(s: Seq<u8>) -> int
    decreases s.len(),
{
    if s.len() == 0 {
        0
    } else if !is_ident_char(s[0]) {
        0
    } else {
        1 + first_invalid(s.drop_first())
    }
}

/// A valid identifier: one to 32 characters, letters, digits and `_`, not starting
/// with a digit.
pub open spec fn valid_ident(s: Seq<u8>) -> bool {
    &&& 1 <= s.len() <= IDENT_MAX_LEN
    &&& is_ident_start(s[0])
    &&& all_ident_chars(s)
}

/// Errors in identifier names.
#[derive(Copy, Clone, PartialEq, Eq, Debug, Structural)]
pub enum InvalidIdent {
    /// ident must contain at least one character
    Empty,
    /// identifier name must start with alphabetic character and not `{0}`
    NonAlphabetic(u8),
    /// identifier name contains invalid character `{0}`
    InvalidChar(u8),
    /// identifier name contains non-ASCII character(s)
    NonAsciiChar,
    /// identifier name has invalid length
    Confinement(ConfinementError),
}

/// The outcome of checking the bytes `s` as an identifier name: the first failed
/// rule, in the order ASCII, non-empty, first character, other characters, length.
pub open spec fn spec_check_ident(s: Seq<u8>) -> Result<(), InvalidIdent> {
    if !all_ascii(s) {
        Err(InvalidIdent::NonAsciiChar)
    } else if s.len() == 0 {
        Err(InvalidIdent::Empty)
    } else if !is_ident_start(s[0]) {
        Err(InvalidIdent::NonAlphabetic(s[0]))
    } else if first_invalid(s) < s.len() {
        Err(InvalidIdent::InvalidChar(s[first_invalid(s)]))
    } else if s.len() > IDENT_MAX_LEN {
        Err(InvalidIdent::Confinement(ConfinementError::Oversize { len: s.len() as usize, max_len: IDENT_MAX_LEN }))
    } else {
        Ok(())
    }
}

proof fn lemma_first_invalid(s: Seq<u8>)
    ensures
        0 <= first_invalid(s) <= s.len(),
        forall|i: int| 0 <= i < first_invalid(s) ==> is_ident_char(#[trigger] s[i]),
        first_invalid(s) < s.len() ==> !is_ident_char(s[first_invalid(s)]),
    decreases s.len(),
{
    if s.len() > 0 && is_ident_char(s[0]) {
        lemma_first_invalid(s.drop_first());
        assert forall|i: int| 0 <= i < first_invalid(s) implies is_ident_char(#[trigger] s[i]) by {
            if i > 0 {
                assert(s[i] == s.drop_first()[i - 1]);
            }
        }
    }
}

/// A valid identifier is exactly a sequence on which every check passes.
pub proof fn lemma_check_ident(s: Seq<u8>)
    ensures
        spec_check_ident(s) is Ok <==> valid_ident(s),
{
    lemma_first_invalid(s);
    if valid_ident(s) {
        assert forall|i: int| 0 <= i < s.len() implies is_ascii_byte(#[trigger] s[i]) by {
            assert(is_ident_char(s[i]));
        }
    }
    if spec_check_ident(s) is Ok {
        assert forall|i: int| 0 <= i < s.len() implies is_ident_char(#[trigger] s[i]) by {
            assert(i < first_invalid(s));
        }
    }
}

/// Identifier (field or type name).
#[derive(Debug)]
pub struct Ident {
    bytes: Vec<u8>,
}

impl View for Ident {
    type V = Seq<u8>;

    closed spec fn view(&self) -> Seq<u8> {
        self.bytes@
    }
}

impl Clone for Ident {
    fn clone(&self) -> (c: Self)
        ensures
            c@ == self@,
    {
        proof {
            use_type_invariant(self);
        }
        Ident { bytes: self.bytes.clone() }
    }
}

impl Ident {
    #[verifier::type_invariant]
    spec fn inv(self) -> bool {
        valid_ident(self.bytes@)
    }

    /// Checks the bytes `s` as an identifier name.
    pub fn check(s: &[u8]) -> (res: Result<(), InvalidIdent>)
        ensures
            res == spec_check_ident(s@),
    {
        proof {
            lemma_first_invalid(s@);
        }
        let mut i: usize = 0;
        while i < s.len()
            invariant
                i <= s.len(),
                forall|j: int| 0 <= j < i ==> is_ascii_byte(#[trigger] s@[j]),
            decreases s.len() - i,
        {
            if s[i] >= 0x80 {
                return Err(InvalidIdent::NonAsciiChar);
            }
            i = i + 1;
        }
        if s.len() == 0 {
            return Err(InvalidIdent::Empty);
        }
        let first = s[0];
        if !(is_alphabetic_exec(first) || first == 0x5F) {
            return Err(InvalidIdent::NonAlphabetic(first));
        }
        let mut i: usize = 0;
        while i < s.len()
            invariant
                i <= s.len(),
                all_ascii(s@),
                s@.len() > 0,
                is_ident_start(s@[0]),
                0 <= first_invalid(s@) <= s@.len(),
                forall|j: int| 0 <= j < i ==> is_ident_char(#[trigger] s@[j]),
                forall|j: int| 0 <= j < first_invalid(s@) ==> is_ident_char(#[trigger] s@[j]),
                first_invalid(s@) < s@.len() ==> !is_ident_char(s@[first_invalid(s@)]),
            decreases s.len() - i,
        {
            if !is_ident_char_exec(s[i]) {
                assert(i == first_invalid(s@)) by {
                    if i < first_invalid(s@) {
                        assert(is_ident_char(s@[i as int]));
                    }
                    if i > first_invalid(s@) {
                        assert(is_ident_char(s@[first_invalid(s@)]));
                    }
                }
                return Err(InvalidIdent::InvalidChar(s[i]));
            }
            i = i + 1;
        }
        assert(first_invalid(s@) == s@.len()) by {
            if first_invalid(s@) < s@.len() {
                assert(is_ident_char(s@[first_invalid(s@)]));
            }
        }
        if s.len() > IDENT_MAX_LEN {
            return Err(
                InvalidIdent::Confinement(
                    ConfinementError::Oversize { len: s.len(), max_len: IDENT_MAX_LEN },
                ),
            );
        }
        Ok(())
    }

    /// Makes an identifier from its ASCII bytes.
    pub fn from_ascii(s: &[u8]) -> (res: Result<Ident, InvalidIdent>)
        ensures
            res is Ok <==> spec_check_ident(s@) is Ok,
            res matches Ok(id) ==> id@ == s@,
            res matches Err(e) ==> spec_check_ident(s@) == Err::<(), InvalidIdent>(e),
    {
        match Ident::check(s) {
            Ok(()) => {
                proof {
                    lemma_check_ident(s@);
                }
                Ok(Ident { bytes: vstd::slice::slice_to_vec(s) })
            },
            Err(e) => Err(e),
        }
    }

    /// Makes an identifier from a string.
    pub fn try_from_str(s: &str) -> (res: Result<Ident, InvalidIdent>)
        ensures
            res is Ok <==> spec_check_ident(s.spec_bytes()) is Ok,
            res matches Ok(id) ==> id@ == s.spec_bytes(),
            res matches Err(e) ==> spec_check_ident(s.spec_bytes()) == Err::<(), InvalidIdent>(e),
    {
        Ident::from_ascii(s.as_bytes())
    }

    /// Every identifier is valid.
    pub fn check_valid(&self)
        ensures
            valid_ident(self@),
    {
        proof {
            use_type_invariant(self);
        }
    }

    pub fn len(&self) -> (len: usize)
        ensures
            len == self@.len(),
            1 <= len <= IDENT_MAX_LEN,
    {
        proof {
            use_type_invariant(self);
        }
        self.bytes.len()
    }

    pub fn as_bytes(&self) -> (b: &[u8])
        ensures
            b@ == self@,
    {
        self.bytes.as_slice()
    }

    /// Identifier bytes, one character per byte.
    pub fn to_chars(&self) -> (chars: Vec<char>)
        ensures
            chars@.len() == self@.len(),
            forall|i: int| 0 <= i < chars@.len() ==> chars@[i] as u32 == self@[i],
    {
        let mut chars: Vec<char> = Vec::new();
        let mut i: usize = 0;
        while i < self.bytes.len()
            invariant
                i <= self.bytes@.len(),
                chars@.len() == i,
                forall|j: int| 0 <= j < i ==> chars@[j] as u32 == self.bytes@[j],
            decreases self.bytes@.len() - i,
        {
            let c = self.bytes[i] as char;
            chars.push(c);
            i = i + 1;
        }
        chars
    }

    /// Byte-wise comparison of two identifiers.
    pub fn eq_ident(&self, other: &Ident) -> (eq: bool)
        ensures
            eq == (self@ == other@),
    {
        bytes_eq(self.bytes.as_slice(), other.bytes.as_slice())
    }

    /// The strict encoding of an identifier: its length as one byte, then its bytes.
    pub open spec fn spec_encode(&self) -> Seq<u8> {
        seq![self@.len() as u8] + self@
    }

    pub fn encode(&self, out: &mut Vec<u8>)
        ensures
            final(out)@ == old(out)@ + self.spec_encode(),
    {
        proof {
            use_type_invariant(self);
        }
        out.push(self.bytes.len() as u8);
        let mut i: usize = 0;
        let ghost start = out@;
        while i < self.bytes.len()
            invariant
                i <= self.bytes@.len(),
                out@ == start + self.bytes@.subrange(0, i as int),
            decreases self.bytes@.len() - i,
        {
            out.push(self.bytes[i]);
            assert(self.bytes@.subrange(0, i + 1) == self.bytes@.subrange(0, i as int).push(self.bytes@[i as int]));
            i = i + 1;
        }
        assert(self.bytes@.subrange(0, self.bytes@.len() as int) == self.bytes@);
    }

    /// The outcome of reading an identifier from the start of `data`.
    pub open spec fn spec_decode(data: Seq<u8>) -> Result<(Seq<u8>, nat), DecodeError> {
        if data.len() < 1 {
            Err(DecodeError::UnexpectedEnd)
        } else if data.len() < 1 + data[0] {
            Err(DecodeError::UnexpectedEnd)
        } else {
            let body = data.subrange(1, 1 + data[0]);
            match spec_check_ident(body) {
                Ok(()) => Ok((body, (1 + data[0]) as nat)),
                Err(e) => Err(DecodeError::InvalidIdent(e)),
            }
        }
    }

    /// Reads an identifier at position `pos` of `data`, returning it with the number
    /// of bytes read.
    pub fn decode(data: &[u8], pos: usize) -> (res: Result<(Ident, usize), DecodeError>)
        requires
            pos <= data@.len(),
        ensures
            res matches Ok((id, n)) ==> Ident::spec_decode(data@.skip(pos as int)) == Ok::<(Seq<u8>, nat), DecodeError>((id@, n as nat)),
            res matches Err(e) ==> Ident::spec_decode(data@.skip(pos as int)) == Err::<(Seq<u8>, nat), DecodeError>(e),
    {
        let ghost rest = data@.skip(pos as int);
        if pos >= data.len() {
            return Err(DecodeError::UnexpectedEnd);
        }
        let len = data[pos] as usize;
        assert(rest[0] == data@[pos as int]);
        if data.len() - pos - 1 < len {
            return Err(DecodeError::UnexpectedEnd);
        }
        let body = sub_slice(data, pos + 1, pos + 1 + len);
        assert(body@ == rest.subrange(1, 1 + rest[0]));
        match Ident::from_ascii(body) {
            Ok(id) => Ok((id, len + 1)),
            Err(e) => Err(DecodeError::InvalidIdent(e)),
        }
    }
}

/// Name of a type.
#[derive(Debug)]
pub struct TypeName(pub Ident);

impl View for TypeName {
    type V = Seq<u8>;

    open spec fn view(&self) -> Seq<u8> {
        self.0@
    }
}

impl Clone for TypeName {
    fn clone(&self) -> (c: Self)
        ensures
            c@ == self@,
    {
        TypeName(self.0.clone())
    }
}

impl TypeName {
    pub fn try_from_str(s: &str) -> (res: Result<TypeName, InvalidIdent>)
        ensures
            res is Ok <==> spec_check_ident(s.spec_bytes()) is Ok,
            res matches Ok(name) ==> name@ == s.spec_bytes(),
            res matches Err(e) ==> spec_check_ident(s.spec_bytes()) == Err::<(), InvalidIdent>(e),
    {
        match Ident::try_from_str(s) {
            Ok(id) => Ok(TypeName(id)),
            Err(e) => Err(e),
        }
    }

    pub fn len(&self) -> (len: usize)
        ensures
            len == self@.len(),
            1 <= len <= IDENT_MAX_LEN,
    {
        self.0.len()
    }

    pub fn as_bytes(&self) -> (b: &[u8])
        ensures
            b@ == self@,
    {
        self.0.as_bytes()
    }
}

/// Name of a structure field.
#[derive(Debug)]
pub struct FieldName(pub Ident);

impl View for FieldName {
    type V = Seq<u8>;

    open spec fn view(&self) -> Seq<u8> {
        self.0@
    }
}

impl Clone for FieldName {
    fn clone(&self) -> (c: Self)
        ensures
            c@ == self@,
    {
        FieldName(self.0.clone())
    }
}

impl FieldName {
    pub fn try_from_str(s: &str) -> (res: Result<FieldName, InvalidIdent>)
        ensures
            res is Ok <==> spec_check_ident(s.spec_bytes()) is Ok,
            res matches Ok(name) ==> name@ == s.spec_bytes(),
            res matches Err(e) ==> spec_check_ident(s.spec_bytes()) == Err::<(), InvalidIdent>(e),
    {
        match Ident::try_from_str(s) {
            Ok(id) => Ok(FieldName(id)),
            Err(e) => Err(e),
        }
    }

    pub fn len(&self) -> (len: usize)
        ensures
            len == self@.len(),
            1 <= len <= IDENT_MAX_LEN,
    {
        self.0.len()
    }

    pub fn as_bytes(&self) -> (b: &[u8])
        ensures
            b@ == self@,
    {
        self.0.as_bytes()
    }
}

/// Name of an enum or union variant.
#[derive(Debug)]
pub struct VariantName(pub Ident);

impl View for VariantName {
    type V = Seq<u8>;

    open spec fn view(&self) -> Seq<u8> {
        self.0@
    }
}

impl Clone for VariantName {
    fn clone(&self) -> (c: Self)
        ensures
            c@ == self@,
    {
        VariantName(self.0.clone())
    }
}

impl VariantName {
    pub fn try_from_str(s: &str) -> (res: Result<VariantName, InvalidIdent>)
        ensures
            res is Ok <==> spec_check_ident(s.spec_bytes()) is Ok,
            res matches Ok(name) ==> name@ == s.spec_bytes(),
            res matches Err(e) ==> spec_check_ident(s.spec_bytes()) == Err::<(), InvalidIdent>(e),
    {
        match Ident::try_from_str(s) {
            Ok(id) => Ok(VariantName(id)),
            Err(e) => Err(e),
        }
    }

    pub fn len(&self) -> (len: usize)
        ensures
            len == self@.len(),
            1 <= len <= IDENT_MAX_LEN,
    {
        self.0.len()
    }

    pub fn as_bytes(&self) -> (b: &[u8])
        ensures
            b@ == self@,
    {
        self.0.as_bytes()
    }
}

/// Name of a type library.
#[derive(Debug)]
pub struct LibName(pub Ident);

impl View for LibName {
    type V = Seq<u8>;

    open spec fn view(&self) -> Seq<u8> {
        self.0@
    }
}

impl Clone for LibName {
    fn clone(&self) -> (c: Self)
        ensures
            c@ == self@,
    {
        LibName(self.0.clone())
    }
}

impl LibName {
    pub fn try_from_str(s: &str) -> (res: Result<LibName, InvalidIdent>)
        ensures
            res is Ok <==> spec_check_ident(s.spec_bytes()) is Ok,
            res matches Ok(name) ==> name@ == s.spec_bytes(),
            res matches Err(e) ==> spec_check_ident(s.spec_bytes()) == Err::<(), InvalidIdent>(e),
    {
        match Ident::try_from_str(s) {
            Ok(id) => Ok(LibName(id)),
            Err(e) => Err(e),
        }
    }

    pub fn len(&self) -> (len: usize)
        ensures
            len == self@.len(),
            1 <= len <= IDENT_MAX_LEN,
    {
        self.0.len()
    }

    pub fn as_bytes(&self) -> (b: &[u8])
        ensures
            b@ == self@,
    {
        self.0.as_bytes()
    }
}

/// Decoding the encoding of an identifier, followed by any bytes, gives the
/// identifier back and reads exactly its encoding.
pub proof fn lemma_ident_roundtrip(id: Ident, rest: Seq<u8>)
    requires
        valid_ident(id@),
    ensures
        Ident::spec_decode(id.spec_encode() + rest) == Ok::<(Seq<u8>, nat), DecodeError>((id@, id.spec_encode().len())),
{
    let data = id.spec_encode() + rest;
    assert(data[0] == id@.len());
    assert(data.subrange(1, 1 + data[0]) == id@);
    lemma_check_ident(id@);
}

pub fn is_alphabetic_exec(b: u8) -> (r: bool)
    ensures
        r == is_alphabetic(b),
{
    (0x41 <= b && b <= 0x5A) || (0x61 <= b && b <= 0x7A)
}

pub fn is_ident_char_exec(b: u8) -> (r: bool)
    ensures
        r == is_ident_char(b),
{
    is_alphabetic_exec(b) || (0x30 <= b && b <= 0x39) || b == 0x5F
}

/// Byte-wise equality of two slices.
pub fn bytes_eq(a: &[u8], b: &[u8]) -> (eq: bool)
    ensures
        eq == (a@ == b@),
{
    if a.len() != b.len() {
        return false;
    }
    let mut i: usize = 0;
    while i < a.len()
        invariant
            a@.len() == b@.len(),
            i <= a@.len(),
            forall|j: int| 0 <= j < i ==> a@[j] == b@[j],
        decreases a@.len() - i,
    {
        if a[i] != b[i] {
            return false;
        }
        i = i + 1;
    }
    assert(a@ == b@);
    true
}

/// The bytes of `data` from `start` up to `end`.
pub fn sub_slice(data: &[u8], start: usize, end: usize) -> (s: &[u8])
    requires
        start <= end <= data@.len(),
    ensures
        s@ == data@.subrange(start as int, end as int),
{
    vstd::slice::slice_subrange(data, start, end)
}

} // verus!
