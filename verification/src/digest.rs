//! SHA-256 hashing of commitments.

use sha2::Digest;
use vstd::prelude::*;

use crate::CommitConsume;

verus! {

/// The SHA-256 digest of `data`.
pub uninterp spec fn sha256(data: Seq<u8>) -> Seq<u8>;

/// Calls `sha2::Sha256::digest`. Trusted to return the 32 bytes named `sha256` of the
/// hashed data; nothing else is claimed of the digest.
#[verifier::external_body]
fn sha256_digest(data: &[u8]) -> (d: [u8; 32])
    ensures
        d@ == sha256(data@),
{
    sha2::Sha256::digest(data).into()
}

/// A SHA-256 hasher that collects the committed bytes and hashes them at the end.
pub struct Sha256 {
    data: Vec<u8>,
    calls: Ghost<Seq<Seq<u8>>>,
}

impl CommitConsume for Sha256 {
    closed spec fn consumed(&self) -> Seq<u8> {
        self.data@
    }

    closed spec fn calls(&self) -> Seq<Seq<u8>> {
        self.calls@
    }

    fn commit_consume(&mut self, data: &[u8])
    {
        self.calls = Ghost(self.calls@.push(data@));
        let ghost calls = self.calls@;
        let mut i: usize = 0;
        let ghost start = self.data@;
        while i < data.len()
            invariant
                i <= data@.len(),
                self.data@ == start + data@.subrange(0, i as int),
                self.calls@ == calls,
            decreases data@.len() - i,
        {
            self.data.push(data[i]);
            assert(data@.subrange(0, i + 1) == data@.subrange(0, i as int).push(data@[i as int]));
            i = i + 1;
        }
        assert(data@.subrange(0, data@.len() as int) == data@);
    }
}

impl Sha256 {
    pub fn new() -> (h: Sha256)
        ensures
            h.consumed() == Seq::<u8>::empty(),
            h.calls() == Seq::<Seq<u8>>::empty(),
    {
        Sha256 { data: Vec::new(), calls: Ghost(Seq::empty()) }
    }

    /// The digest of everything consumed.
    pub fn finalize(&self) -> (d: [u8; 32])
        ensures
            d@ == sha256(self.consumed()),
    {
        sha256_digest(self.data.as_slice())
    }
}

} // verus!
