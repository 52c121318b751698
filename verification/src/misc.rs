//! Byte vectors that can be read like a stream.

use vstd::prelude::*;

verus! {

/// The error of reading more bytes than the vector holds.
#[derive(Debug)]
pub struct VectorTooShort;

/// A byte vector that can be read from like a stream: a read takes the
/// front bytes and removes them.
pub struct ReadableVec {
    /// The bytes that remain to be read.
    pub vector: Vec<u8>,
}

impl ReadableVec {
    /// Fills `buf` with the vector's first bytes and removes them from
    /// the vector; a vector holding fewer bytes than `buf` asks for
    /// leaves both unchanged.
    pub fn read(&mut self, buf: &mut Vec<u8>) -> (r: Result<usize, VectorTooShort>)
        ensures
            match r {
                Ok(n) => {
                    &&& n == old(buf)@.len()
                    &&& old(self).vector@.len() >= n
                    &&& final(buf)@ == old(self).vector@.take(n as int)
                    &&& final(self).vector@ == old(self).vector@.skip(n as int)
                },
                Err(_) => {
                    &&& old(self).vector@.len() < old(buf)@.len()
                    &&& final(self).vector@ == old(self).vector@
                    &&& final(buf)@ == old(buf)@
                },
            },
    {
        let n = buf.len();
        if self.vector.len() < n {
            return Err(VectorTooShort);
        }
        let ghost orig = self.vector@;
        let mut out: Vec<u8> = Vec::new();
        let mut added: usize = 0;
        while added < n
            invariant
                added <= n <= orig.len(),
                out@ == orig.take(added as int),
                self.vector@ == orig.skip(added as int),
            decreases n - added,
        {
            out.push(self.vector[0]);
            self.vector.remove(0);
            added += 1;
            proof {
                assert(out@ =~= orig.take(added as int));
                assert(self.vector@ =~= orig.skip(added as int));
            }
        }
        *buf = out;
        Ok(n)
    }
}

} // verus!
