use vstd::prelude::*;
use crate::errors::Errors;

verus! {

/// `d` with `buf` written over it from `pos`; a gap between the old end and
/// `pos` reads as zeros.
pub open spec fn write_at(d: Seq<u8>, pos: int, buf: Seq<u8>) -> Seq<u8> {
    let len = if d.len() > pos + buf.len() {
        d.len() as int
    } else {
        pos + buf.len()
    };
    Seq::new(
        len as nat,
        |i: int|
            if pos <= i < pos + buf.len() {
                buf[i - pos]
            } else if i < d.len() {
                d[i]
            } else {
                0u8
            },
    )
}

/// The target blob: a writable buffer with a write position.
#[derive(Debug)]
pub struct TargetFile {
    pub data: Vec<u8>,
    pub position: usize,
}

impl TargetFile {
    /// An empty target.
    pub fn new() -> (r: Self)
        ensures
            r.data@.len() == 0,
            r.position == 0,
    {
        Self { data: Vec::new(), position: 0 }
    }

    /// Moves the write position.
    pub fn seek(&mut self, pos: usize) -> (r: Result<(), Errors>)
        ensures
            r is Ok,
            final(self).data == old(self).data,
            final(self).position == pos,
    {
        self.position = pos;
        Ok(())
    }

    /// Writes `buf` at the write position and moves past it; `Io` when the
    /// end would not fit in memory.
    pub fn write(&mut self, buf: &[u8]) -> (r: Result<(), Errors>)
        ensures
            old(self).position + buf@.len() <= usize::MAX ==> {
                &&& r is Ok
                &&& final(self).data@ == write_at(
                    old(self).data@,
                    old(self).position as int,
                    buf@,
                )
                &&& final(self).position == old(self).position + buf@.len()
            },
            old(self).position + buf@.len() > usize::MAX ==> {
                &&& r == Err::<(), Errors>(Errors::Io)
                &&& *final(self) == *old(self)
            },
    {
        let pos: usize = self.position;
        if buf.len() > usize::MAX - pos {
            return Err(Errors::Io);
        }
        let ghost d0 = self.data@;
        while self.data.len() < pos
            invariant
                d0.len() <= self.data@.len() <= pos || self.data@.len() == d0.len(),
                forall|i: int| 0 <= i < self.data@.len() ==> self.data@[i] == (if i < d0.len() {
                    d0[i]
                } else {
                    0u8
                }),
            decreases pos - self.data@.len(),
        {
            self.data.push(0);
        }
        let mut k: usize = 0;
        while k < buf.len()
            invariant
                k <= buf@.len(),
                pos + buf@.len() <= usize::MAX,
                self.data@.len() >= pos + k,
                self.data@.len() == if d0.len() > pos + k {
                    d0.len() as int
                } else {
                    pos + k
                },
                forall|i: int|
                    0 <= i < self.data@.len() ==> self.data@[i] == (if pos <= i < pos + k {
                        buf@[i - pos]
                    } else if i < d0.len() {
                        d0[i]
                    } else {
                        0u8
                    }),
            decreases buf@.len() - k,
        {
            if pos + k < self.data.len() {
                self.data.set(pos + k, buf[k]);
            } else {
                self.data.push(buf[k]);
            }
            k = k + 1;
        }
        assert(self.data@ =~= write_at(d0, pos as int, buf@));
        self.position = pos + buf.len();
        Ok(())
    }
}

} // verus!
