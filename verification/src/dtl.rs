//! Ids of libraries of types: keyed BLAKE3 hashes of the ids of their root types.

use vstd::prelude::*;

use crate::util::{hex_digit, push_str, string_from_chars};

verus! {

/// The keyed BLAKE3 hash of `data` under `key`.
pub uninterp spec fn blake3_keyed(key: Seq<u8>, data: Seq<u8>) -> Seq<u8>;

/// Calls `blake3::keyed_hash`. Trusted to return the 32 bytes named [`blake3_keyed`]
/// of the key and the data; nothing else is claimed of the hash.
#[verifier::external_body]
pub(crate) fn blake3_keyed_hash(key: &[u8; 32], data: &[u8]) -> (h: [u8; 32])
    ensures
        h@ == blake3_keyed(key@, data@),
{
    *blake3::keyed_hash(key, data).as_bytes()
}

/// The mnemonic words that encode `data`.
pub uninterp spec fn mnemonic_words(data: Seq<u8>) -> Seq<char>;

/// Calls `mnemonic::to_string`. Trusted to give a text that depends on the data
/// alone, named [`mnemonic_words`]; nothing more of the words is stated.
#[verifier::external_body]
pub(crate) fn mnemonic_text(data: &[u8]) -> (s: String)
    ensures
        s@ == mnemonic_words(data@),
{
    mnemonic::to_string(data)
}

/// The key of library ids: 32 zero bytes.
pub open spec fn setl_id_tag() -> Seq<u8> {
    Seq::new(32, |i: int| 0u8)
}

pub(crate) fn setl_id_tag_bytes() -> (tag: [u8; 32])
    ensures
        tag@ == setl_id_tag(),
{
    let tag = [0u8; 32];
    assert(tag@ =~= setl_id_tag());
    tag
}

/// The id of a library of types.
#[derive(Copy, Clone, Debug)]
pub struct LibId(pub [u8; 32]);

impl View for LibId {
    type V = Seq<u8>;

    open spec fn view(&self) -> Seq<u8> {
        self.0@
    }
}

/// A hasher of the ids of the root types of a library, in order.
#[derive(Debug)]
pub struct LibHasher {
    data: Vec<u8>,
}

impl LibHasher {
    /// The ids given so far, one after another.
    pub closed spec fn input_bytes(&self) -> Seq<u8> {
        self.data@
    }

    pub fn new() -> (h: LibHasher)
        ensures
            h.input_bytes() == Seq::<u8>::empty(),
    {
        LibHasher { data: Vec::new() }
    }

    /// Takes in the id of a type.
    pub fn input(&mut self, id: [u8; 32])
        ensures
            final(self).input_bytes() == old(self).input_bytes() + id@,
    {
        let ghost start = self.data@;
        let mut i: usize = 0;
        while i < 32
            invariant
                i <= 32,
                self.data@ == start + id@.subrange(0, i as int),
            decreases 32 - i,
        {
            self.data.push(id[i]);
            i = i + 1;
            assert(self.data@ =~= start + id@.subrange(0, i as int));
        }
        assert(id@.subrange(0, 32) =~= id@);
    }

    /// The id of the library: the keyed hash of the ids taken in.
    pub fn finish(self) -> (id: LibId)
        ensures
            id@ == blake3_keyed(setl_id_tag(), self.input_bytes()),
    {
        let key = setl_id_tag_bytes();
        LibId(blake3_keyed_hash(&key, self.data.as_slice()))
    }
}

/// The ids of the root types of a library, one after another.
pub open spec fn roots_bytes(roots: Seq<[u8; 32]>) -> Seq<u8>
    decreases roots.len(),
{
    if roots.len() == 0 {
        Seq::empty()
    } else {
        roots_bytes(roots.drop_last()) + roots.last()@
    }
}

/// The id of a library whose root types have the given ids, hashed in the order
/// given (a library keeps its roots in ascending order).
pub fn lib_id(roots: &Vec<[u8; 32]>) -> (id: LibId)
    ensures
        id@ == blake3_keyed(setl_id_tag(), roots_bytes(roots@)),
{
    let mut hasher = LibHasher::new();
    let mut i: usize = 0;
    while i < roots.len()
        invariant
            i <= roots.len(),
            hasher.input_bytes() == roots_bytes(roots@.subrange(0, i as int)),
        decreases roots.len() - i,
    {
        hasher.input(roots[i]);
        proof {
            let pre = roots@.subrange(0, i + 1);
            assert(pre.drop_last() =~= roots@.subrange(0, i as int));
        }
        i = i + 1;
    }
    assert(roots@.subrange(0, roots.len() as int) =~= roots@);
    hasher.finish()
}

/// The bytes of `data` as lowercase hexadecimal digits, two per byte.
pub open spec fn hex_bytes(data: Seq<u8>) -> Seq<char>
    decreases data.len(),
{
    if data.len() == 0 {
        Seq::empty()
    } else {
        hex_bytes(data.drop_last()) + seq![hex_digit((data.last() / 16) as nat), hex_digit((data.last() % 16) as nat)]
    }
}

fn hex_char(d: u8) -> (c: char)
    requires
        d < 16,
    ensures
        c == hex_digit(d as nat),
{
    if d < 10 {
        (48u8 + d) as char
    } else {
        (87u8 + d) as char
    }
}

/// Appends the bytes of `data` as lowercase hexadecimal digits, two per byte.
pub(crate) fn push_hex_bytes(data: &[u8], out: &mut Vec<char>)
    ensures
        final(out)@ == old(out)@ + hex_bytes(data@),
{
    let ghost start = out@;
    let mut i: usize = 0;
    while i < data.len()
        invariant
            i <= data@.len(),
            out@ == start + hex_bytes(data@.subrange(0, i as int)),
        decreases data@.len() - i,
    {
        let b = data[i];
        out.push(hex_char(b / 16));
        out.push(hex_char(b % 16));
        proof {
            let pre = data@.subrange(0, i + 1);
            assert(pre.drop_last() =~= data@.subrange(0, i as int));
            assert(pre.last() == b);
        }
        i = i + 1;
        assert(out@ =~= start + hex_bytes(data@.subrange(0, i as int)));
    }
    assert(data@.subrange(0, data@.len() as int) =~= data@);
}

/// The text `urn:ubideco:setl:`.
pub open spec fn setl_prefix() -> Seq<char> {
    seq!['u', 'r', 'n', ':', 'u', 'b', 'i', 'd', 'e', 'c', 'o', ':', 's', 'e', 't', 'l', ':']
}

impl LibId {
    /// The id as a URN: `urn:ubideco:setl:` and its bytes in hexadecimal.
    pub fn to_string(&self) -> (s: String)
        ensures
            s@ == setl_prefix() + hex_bytes(self@),
    {
        let mut out: Vec<char> = Vec::new();
        push_str("urn:ubideco:setl:", &mut out);
        proof {
            reveal_strlit("urn:ubideco:setl:");
        }
        assert(out@ =~= setl_prefix());
        push_hex_bytes(self.0.as_slice(), &mut out);
        string_from_chars(out)
    }

    /// The id as a URN followed by `#` and the mnemonic of its bytes from the 15th to
    /// the 18th.
    pub fn to_string_with_mnemonic(&self) -> (s: String)
        ensures
            s@ == setl_prefix() + hex_bytes(self@) + seq!['#'] + mnemonic_words(self@.subrange(14, 18)),
    {
        let urn = self.to_string();
        let mut out: Vec<char> = Vec::new();
        push_str(urn.as_str(), &mut out);
        out.push('#');
        let words = mnemonic_text(vstd::slice::slice_subrange(self.0.as_slice(), 14, 18));
        push_str(words.as_str(), &mut out);
        string_from_chars(out)
    }
}

} // verus!
