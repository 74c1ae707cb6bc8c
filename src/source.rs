use vstd::prelude::*;
use crate::errors::Errors;

verus! {

/// The source blob, read sequentially from a position.
#[derive(Debug)]
pub struct SourceFile {
    pub data: Vec<u8>,
    pub position: usize,
}

impl SourceFile {
    pub fn new(data: Vec<u8>) -> (r: Self)
        ensures
            r.data@ == data@,
            r.position == 0,
    {
        Self { data, position: 0 }
    }

    /// Reads the next `n` bytes; `Io` when fewer remain.
    pub fn read(&mut self, n: usize) -> (r: Result<Vec<u8>, Errors>)
        requires
            old(self).position <= old(self).data@.len(),
        ensures
            final(self).data == old(self).data,
            final(self).position <= final(self).data@.len(),
            old(self).position + n <= old(self).data@.len() ==> {
                &&& r is Ok
                &&& r->Ok_0@ == old(self).data@.subrange(
                    old(self).position as int,
                    old(self).position + n,
                )
                &&& final(self).position == old(self).position + n
            },
            old(self).position + n > old(self).data@.len() ==> {
                &&& r == Err::<Vec<u8>, Errors>(Errors::Io)
                &&& final(self).position == old(self).position
            },
    {
        let at: usize = self.position;
        if n > self.data.len() - at {
            return Err(Errors::Io);
        }
        let mut buf: Vec<u8> = Vec::new();
        let mut k: usize = 0;
        while k < n
            invariant
                k <= n,
                at + n <= self.data.len(),
                buf@ == self.data@.subrange(at as int, at + k),
            decreases n - k,
        {
            buf.push(self.data[at + k]);
            k = k + 1;
            assert(buf@ =~= self.data@.subrange(at as int, at + k));
        }
        self.position = at + n;
        Ok(buf)
    }
}

} // verus!
