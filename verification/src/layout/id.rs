//! Memory-layout ids: commitments to the classes of the types a layout is made of.

use vstd::prelude::*;

use crate::ast::ty::Ty;
use crate::digest::{sha256, Sha256};
use crate::CommitConsume;

verus! {

/// The tag that the hashes of all memory-layout ids start from.
pub open spec fn mem_id_tag() -> Seq<u8> {
    seq![0x75u8, 0x72u8, 0x6eu8, 0x3au8, 0x75u8, 0x62u8, 0x69u8, 0x64u8, 0x65u8, 0x63u8, 0x6fu8, 0x3au8, 0x73u8, 0x74u8, 0x72u8, 0x69u8, 0x63u8, 0x74u8, 0x2du8, 0x74u8, 0x79u8, 0x70u8, 0x65u8, 0x73u8, 0x3au8, 0x6du8, 0x65u8, 0x6du8, 0x3au8, 0x76u8, 0x30u8, 0x32u8]
}

fn mem_id_tag_bytes() -> (tag: [u8; 32])
    ensures
        tag@ == mem_id_tag(),
{
    let tag = [0x75, 0x72, 0x6e, 0x3a, 0x75, 0x62, 0x69, 0x64, 0x65, 0x63, 0x6f, 0x3a, 0x73, 0x74, 0x72, 0x69, 0x63, 0x74, 0x2d, 0x74, 0x79, 0x70, 0x65, 0x73, 0x3a, 0x6d, 0x65, 0x6d, 0x3a, 0x76, 0x30, 0x32];
    assert(tag@ =~= mem_id_tag());
    tag
}

/// The bytes of a value that a memory-layout id commits to.
pub trait MemCommit {
    spec fn mem_commitment(&self) -> Seq<u8>;

    fn mem_commit<H: CommitConsume>(&self, hasher: &mut H)
        ensures
            final(hasher).consumed() == old(hasher).consumed() + self.mem_commitment(),
    ;
}

/// A type commits to the code of its class alone.
impl<Ref> MemCommit for Ty<Ref> {
    open spec fn mem_commitment(&self) -> Seq<u8> {
        seq![self.spec_cls().code()]
    }

    fn mem_commit<H: CommitConsume>(&self, hasher: &mut H) {
        let code = [self.cls().into_u8()];
        hasher.commit_consume(code.as_slice());
        assert(code@ =~= seq![self.spec_cls().code()]);
    }
}

/// What a layout of the types `tys`, in order, commits to.
pub open spec fn layout_commitment(tys: Seq<Ty<crate::ast::id::SemId>>) -> Seq<u8>
    decreases tys.len(),
{
    if tys.len() == 0 {
        Seq::empty()
    } else {
        layout_commitment(tys.drop_last()) + tys.last().mem_commitment()
    }
}

/// Memory-layout id, which commits to the classes of the types of a layout.
#[derive(Copy, Clone, Debug)]
pub struct MemId(pub [u8; 32]);

impl View for MemId {
    type V = Seq<u8>;

    open spec fn view(&self) -> Seq<u8> {
        self.0@
    }
}

/// The id of a layout made of the types `tys`: the SHA-256 digest of the tag's digest,
/// twice, and of the layout's commitment.
pub open spec fn spec_mem_id(tys: Seq<Ty<crate::ast::id::SemId>>) -> Seq<u8> {
    let tag = sha256(mem_id_tag());
    sha256(tag + tag + layout_commitment(tys))
}

impl MemId {
    /// The id of a layout made of the types `tys`, in order.
    pub fn of_layout(tys: &[Ty<crate::ast::id::SemId>]) -> (id: MemId)
        ensures
            id@ == spec_mem_id(tys@),
    {
        let mut tag_hasher = Sha256::new();
        let tag_bytes = mem_id_tag_bytes();
        tag_hasher.commit_consume(tag_bytes.as_slice());
        let tag = tag_hasher.finalize();
        let mut hasher = Sha256::new();
        hasher.commit_consume(tag.as_slice());
        hasher.commit_consume(tag.as_slice());
        let ghost head = hasher.consumed();
        let mut i: usize = 0;
        while i < tys.len()
            invariant
                i <= tys@.len(),
                hasher.consumed() == head + layout_commitment(tys@.subrange(0, i as int)),
            decreases tys@.len() - i,
        {
            tys[i].mem_commit(&mut hasher);
            proof {
                let pre = tys@.subrange(0, i + 1);
                assert(pre.drop_last() =~= tys@.subrange(0, i as int));
                assert(hasher.consumed() =~= head + layout_commitment(pre));
            }
            i = i + 1;
        }
        assert(tys@.subrange(0, tys@.len() as int) =~= tys@);
        assert(head =~= sha256(mem_id_tag()) + sha256(mem_id_tag()));
        MemId(hasher.finalize())
    }
}

/// The Baid58 text of a memory-layout id with the given bytes, as written after
/// `urn:ubideco:`: the `mem` prefix, a colon, the Base58 digits and the mnemonic of the
/// checksum.
pub uninterp spec fn mem_id_baid58(payload: Seq<u8>) -> Seq<char>;

/// The mnemonic of the checksum of a memory-layout id with the given bytes.
pub uninterp spec fn mem_id_mnemonic(payload: Seq<u8>) -> Seq<char>;

/// Writes `baid58::Baid58::with("mem", payload)` with the flags `::<#`. Trusted to give
/// a text that depends on the payload alone, named [`mem_id_baid58`]; nothing more
/// of it is stated.
#[verifier::external_body]
fn mem_id_baid58_text(payload: [u8; 32]) -> (s: String)
    ensures
        s@ == mem_id_baid58(payload@),
{
    format!("{::<#}", baid58::Baid58::with("mem", payload))
}

/// Calls `mnemonic` on `baid58::Baid58::with("mem", payload)`. Trusted to give a text
/// that depends on the payload alone, named [`mem_id_mnemonic`].
#[verifier::external_body]
fn mem_id_mnemonic_text(payload: [u8; 32]) -> (s: String)
    ensures
        s@ == mem_id_mnemonic(payload@),
{
    baid58::Baid58::with("mem", payload).mnemonic()
}

impl MemId {
    /// The id as a URN: `urn:ubideco:` and its Baid58 text.
    pub fn to_string(&self) -> (s: String)
        ensures
            s@ == seq!['u', 'r', 'n', ':', 'u', 'b', 'i', 'd', 'e', 'c', 'o', ':'] + mem_id_baid58(self@),
    {
        let mut out: Vec<char> = Vec::new();
        out.push('u');
        out.push('r');
        out.push('n');
        out.push(':');
        out.push('u');
        out.push('b');
        out.push('i');
        out.push('d');
        out.push('e');
        out.push('c');
        out.push('o');
        out.push(':');
        let text = mem_id_baid58_text(self.0);
        crate::util::push_str(text.as_str(), &mut out);
        assert(out@ =~= seq!['u', 'r', 'n', ':', 'u', 'b', 'i', 'd', 'e', 'c', 'o', ':'] + mem_id_baid58(self@));
        crate::util::string_from_chars(out)
    }

    /// The mnemonic of the id's checksum.
    pub fn mnemonic(&self) -> (s: String)
        ensures
            s@ == mem_id_mnemonic(self@),
    {
        mem_id_mnemonic_text(self.0)
    }
}

} // verus!
