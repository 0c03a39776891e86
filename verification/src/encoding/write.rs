//! In-memory writers that count what they write and keep to a limit.

use vstd::prelude::*;

verus! {

/// A write that would go past the limit of a writer.
#[derive(Copy, Clone, PartialEq, Eq, Debug, Structural)]
pub struct LimitExceeded;

/// A writer into memory that counts the bytes written and refuses writes beyond its
/// limit.
#[derive(Debug)]
pub struct CountingWriter {
    count: usize,
    limit: usize,
    writer: Vec<u8>,
}

impl CountingWriter {
    #[verifier::type_invariant]
    spec fn inv(self) -> bool {
        self.count <= self.limit
    }

    pub closed spec fn spec_count(&self) -> usize {
        self.count
    }

    pub closed spec fn spec_limit(&self) -> usize {
        self.limit
    }

    /// The bytes held: those the writer started with, then those written.
    pub closed spec fn spec_bytes(&self) -> Seq<u8> {
        self.writer@
    }

    /// A writer over `writer` without a limit.
    pub fn from(writer: Vec<u8>) -> (w: CountingWriter)
        ensures
            w.spec_count() == 0,
            w.spec_limit() == usize::MAX,
            w.spec_bytes() == writer@,
    {
        CountingWriter { count: 0, limit: usize::MAX, writer }
    }

    /// A writer over `writer` that accepts at most `limit` bytes.
    pub fn with(limit: usize, writer: Vec<u8>) -> (w: CountingWriter)
        ensures
            w.spec_count() == 0,
            w.spec_limit() == limit,
            w.spec_bytes() == writer@,
    {
        CountingWriter { count: 0, limit, writer }
    }

    /// The number of bytes written so far.
    pub fn count(&self) -> (n: usize)
        ensures
            n == self.spec_count(),
            n <= self.spec_limit(),
    {
        proof {
            use_type_invariant(self);
        }
        self.count
    }

    /// Writes all of `buf`, unless that would take the count beyond the limit; returns
    /// the number of bytes written.
    pub fn write(&mut self, buf: &[u8]) -> (res: Result<usize, LimitExceeded>)
        ensures
            old(self).spec_count() + buf@.len() > old(self).spec_limit() ==> res == Err::<usize, LimitExceeded>(
                LimitExceeded,
            ) && final(self).spec_count() == old(self).spec_count() && final(self).spec_bytes()
                == old(self).spec_bytes(),
            old(self).spec_count() + buf@.len() <= old(self).spec_limit() ==> res == Ok::<usize, LimitExceeded>(
                buf@.len() as usize,
            ) && final(self).spec_count() == old(self).spec_count() + buf@.len() && final(self).spec_bytes()
                == old(self).spec_bytes() + buf@,
            final(self).spec_limit() == old(self).spec_limit(),
    {
        proof {
            use_type_invariant(&*self);
        }
        if buf.len() > self.limit - self.count {
            return Err(LimitExceeded);
        }
        let mut bytes: Vec<u8> = Vec::new();
        std::mem::swap(&mut bytes, &mut self.writer);
        let ghost start = bytes@;
        let mut i: usize = 0;
        while i < buf.len()
            invariant
                i <= buf@.len(),
                bytes@ == start + buf@.subrange(0, i as int),
            decreases buf@.len() - i,
        {
            bytes.push(buf[i]);
            i = i + 1;
            assert(bytes@ =~= start + buf@.subrange(0, i as int));
        }
        assert(buf@.subrange(0, buf@.len() as int) =~= buf@);
        std::mem::swap(&mut bytes, &mut self.writer);
        self.count = self.count + buf.len();
        Ok(buf.len())
    }

    /// The bytes held.
    pub fn unbox(self) -> (w: Vec<u8>)
        ensures
            w@ == self.spec_bytes(),
    {
        self.writer
    }
}

} // verus!
