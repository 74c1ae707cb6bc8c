use vstd::prelude::*;
use crate::errors::Errors;
use crate::action::{Action, action_of};
use crate::decode::{varint, varint_result};

pub mod crc32;

use crc32::{BpsCrc32, crc32_of, crc32_prefix, footer_of, le_u32};

verus! {

/// Whether the four bytes at the start of `c`, which must be there, are the
/// magic tag "BPS1".
pub open spec fn has_magic(c: Seq<u8>) -> bool {
    c[0] == 66 && c[1] == 80 && c[2] == 83 && c[3] == 49
}

/// The sizes that a patch header declares and how many bytes the header,
/// metadata included, takes.
#[derive(Debug, Clone, Copy, PartialEq, Eq, Structural)]
pub struct BpsHeader {
    pub source_size: u64,
    pub target_size: u64,
    pub metadata_size: u64,
    pub header_size: u64,
}

/// What parsing the header at the start of `c` gives, where `c` is the patch
/// without its footer: the magic tag, three varints, then the metadata,
/// which must lie within `c`.
pub open spec fn header_result(c: Seq<u8>) -> Result<BpsHeader, Errors> {
    if c.len() < 4 {
        Err(Errors::Io)
    } else if !has_magic(c) {
        Err(Errors::BadHeader)
    } else {
        match varint_result(c.subrange(4, c.len() as int)) {
            Err(e) => Err(e),
            Ok((s, n1)) => {
                let p1 = 4 + n1;
                match varint_result(c.subrange(p1, c.len() as int)) {
                    Err(e) => Err(e),
                    Ok((t, n2)) => {
                        let p2 = p1 + n2;
                        match varint_result(c.subrange(p2, c.len() as int)) {
                            Err(e) => Err(e),
                            Ok((m, n3)) => {
                                let p3 = p2 + n3;
                                if p3 + m > c.len() {
                                    Err(Errors::Io)
                                } else {
                                    Ok(
                                        BpsHeader {
                                            source_size: s,
                                            target_size: t,
                                            metadata_size: m,
                                            header_size: (p3 + m) as u64,
                                        },
                                    )
                                }
                            },
                        }
                    },
                }
            },
        }
    }
}

impl BpsHeader {
    /// Checks that `data` starts with the magic tag; `Io` when it is shorter
    /// than the tag.
    pub fn magic_check(data: &[u8]) -> (r: Result<(), Errors>)
        ensures
            data@.len() < 4 ==> r == Err::<(), Errors>(Errors::Io),
            data@.len() >= 4 && has_magic(data@) ==> r == Ok::<(), Errors>(()),
            data@.len() >= 4 && !has_magic(data@) ==> r == Err::<(), Errors>(Errors::BadHeader),
    {
        if data.len() < 4 {
            return Err(Errors::Io);
        }
        if data[0] != 66 || data[1] != 80 || data[2] != 83 || data[3] != 49 {
            return Err(Errors::BadHeader);
        }
        Ok(())
    }

    pub fn source_size(&self) -> (r: u64)
        ensures
            r == self.source_size,
    {
        self.source_size
    }

    pub fn target_size(&self) -> (r: u64)
        ensures
            r == self.target_size,
    {
        self.target_size
    }

    /// Parses the header from the first `end` bytes of `data`.
    pub fn parse(data: &[u8], end: usize) -> (r: Result<Self, Errors>)
        requires
            end <= data@.len(),
        ensures
            r == header_result(data@.subrange(0, end as int)),
            r is Ok ==> r->Ok_0.header_size <= end,
    {
        let ghost c = data@.subrange(0, end as int);
        if end < 4 {
            return Err(Errors::Io);
        }
        assert(c[0] == data@[0] && c[1] == data@[1] && c[2] == data@[2] && c[3] == data@[3]);
        Self::magic_check(data)?;
        assert(c.subrange(4, c.len() as int) =~= data@.subrange(4, end as int));
        let (source_size, p1) = varint(data, 4, end)?;
        assert(c.subrange(p1 as int, c.len() as int) =~= data@.subrange(p1 as int, end as int));
        let (target_size, p2) = varint(data, p1, end)?;
        assert(c.subrange(p2 as int, c.len() as int) =~= data@.subrange(p2 as int, end as int));
        let (metadata_size, p3) = varint(data, p2, end)?;
        if metadata_size > (end - p3) as u64 {
            return Err(Errors::Io);
        }
        let header_size: u64 = p3 as u64 + metadata_size;
        Ok(Self { source_size, target_size, metadata_size, header_size })
    }
}

/// The checksum that guards a patch: the CRC32 of all its bytes but the
/// last four.
pub open spec fn patch_checksum(p: Seq<u8>) -> u32 {
    crc32_of(p.subrange(0, p.len() - 4))
}

/// What opening the patch `p` gives when its checksum computes to
/// `computed`: the footer must fit, the checksum must match, the patch must
/// start with the magic tag, then the header must parse within the bytes
/// before the footer.
pub open spec fn bps_result(p: Seq<u8>, computed: u32) -> Result<(BpsHeader, BpsCrc32), Errors> {
    if p.len() < 12 {
        Err(Errors::BadBps)
    } else if computed != footer_of(p).bps {
        Err(Errors::BadCrc32Bps)
    } else if !has_magic(p) {
        Err(Errors::BadHeader)
    } else {
        match header_result(p.subrange(0, p.len() - 12)) {
            Err(e) => Err(e),
            Ok(h) => Ok((h, footer_of(p))),
        }
    }
}

/// The instruction that starts at `pos` in `p`, read no further than the
/// footer, with the number of bytes its word takes.
pub open spec fn next_action(p: Seq<u8>, pos: int) -> Result<(Action, usize), Errors> {
    if pos > p.len() - 12 {
        Err(Errors::Io)
    } else {
        match varint_result(p.subrange(pos, p.len() - 12)) {
            Err(e) => Err(e),
            Ok((w, n)) => Ok((action_of(w), n)),
        }
    }
}

/// An opened patch: its bytes, parsed header and footer, and a read position.
#[derive(Debug)]
pub struct Bps {
    pub data: Vec<u8>,
    pub header: BpsHeader,
    pub crc32: BpsCrc32,
    pub patch_size: u64,
    pub position: usize,
}

impl Bps {
    /// The patch holds its footer and header, and the fields agree with its bytes.
    pub open spec fn wf(&self) -> bool {
        &&& self.data@.len() >= 12
        &&& self.header.header_size <= self.data@.len() - 12
        &&& self.patch_size == self.data@.len()
        &&& self.position <= self.data@.len()
        &&& self.crc32 == footer_of(self.data@)
    }

    /// Opens a patch whose own checksum is already computed.
    pub fn with_checksum(data: Vec<u8>, computed: u32) -> (r: Result<Self, Errors>)
        ensures
            match r {
                Ok(b) => {
                    &&& b.wf()
                    &&& b.data@ == data@
                    &&& b.position == b.header.header_size
                    &&& bps_result(data@, computed) == Ok::<(BpsHeader, BpsCrc32), Errors>(
                        (b.header, b.crc32),
                    )
                },
                Err(e) => bps_result(data@, computed) == Err::<(BpsHeader, BpsCrc32), Errors>(e),
            },
    {
        let crc32 = BpsCrc32::from_footer(&data)?;
        if computed != crc32.bps() {
            return Err(Errors::BadCrc32Bps);
        }
        BpsHeader::magic_check(&data)?;
        let end: usize = data.len() - 12;
        let header = BpsHeader::parse(&data, end)?;
        let patch_size: u64 = data.len() as u64;
        let position: usize = header.header_size as usize;
        Ok(Self { data, header, crc32, patch_size, position })
    }

    /// Opens a patch: checks its own checksum first, then reads its header.
    pub fn new(data: Vec<u8>) -> (r: Result<Self, Errors>)
        ensures
            match r {
                Ok(b) => {
                    &&& b.wf()
                    &&& b.data@ == data@
                    &&& b.position == b.header.header_size
                    &&& bps_result(data@, patch_checksum(data@)) == Ok::<
                        (BpsHeader, BpsCrc32),
                        Errors,
                    >((b.header, b.crc32))
                },
                Err(e) => bps_result(data@, patch_checksum(data@)) == Err::<
                    (BpsHeader, BpsCrc32),
                    Errors,
                >(e),
            },
    {
        if data.len() < 12 {
            return Err(Errors::BadBps);
        }
        let computed = crc32_prefix(&data, data.len() - 4);
        Self::with_checksum(data, computed)
    }

    /// Decodes the instruction at the read position and moves past its word.
    pub fn action(&mut self) -> (r: Result<Action, Errors>)
        requires
            old(self).wf(),
        ensures
            final(self).wf(),
            final(self).data == old(self).data,
            final(self).header == old(self).header,
            final(self).crc32 == old(self).crc32,
            final(self).patch_size == old(self).patch_size,
            match next_action(old(self).data@, old(self).position as int) {
                Ok((a, n)) => {
                    &&& r == Ok::<Action, Errors>(a)
                    &&& final(self).position == old(self).position + n
                },
                Err(e) => {
                    &&& r == Err::<Action, Errors>(e)
                    &&& final(self).position == old(self).position
                },
            },
    {
        let end: usize = self.data.len() - 12;
        if self.position > end {
            return Err(Errors::Io);
        }
        let (word, next) = varint(&self.data, self.position, end)?;
        self.position = next;
        Ok(Action::from(word))
    }

    pub fn patch_size(&self) -> (r: u64)
        ensures
            r == self.patch_size,
    {
        self.patch_size
    }

    /// Reads `n` bytes of the patch starting at `at`, leaving the read
    /// position just past them.
    pub fn read_len_at(&mut self, n: usize, at: usize) -> (r: Result<Vec<u8>, Errors>)
        requires
            old(self).wf(),
        ensures
            final(self).wf(),
            final(self).data == old(self).data,
            final(self).header == old(self).header,
            final(self).crc32 == old(self).crc32,
            final(self).patch_size == old(self).patch_size,
            at + n <= old(self).data@.len() ==> {
                &&& r is Ok
                &&& r->Ok_0@ == old(self).data@.subrange(at as int, at + n)
                &&& final(self).position == at + n
            },
            at + n > old(self).data@.len() ==> {
                &&& r == Err::<Vec<u8>, Errors>(Errors::Io)
                &&& final(self).position == old(self).position
            },
    {
        if at > self.data.len() || n > self.data.len() - at {
            return Err(Errors::Io);
        }
        let mut bytes: Vec<u8> = Vec::new();
        let mut k: usize = 0;
        while k < n
            invariant
                k <= n,
                at + n <= self.data.len(),
                bytes@ == self.data@.subrange(at as int, at + k),
            decreases n - k,
        {
            bytes.push(self.data[at + k]);
            k = k + 1;
            assert(bytes@ =~= self.data@.subrange(at as int, at + k));
        }
        self.position = at + n;
        Ok(bytes)
    }
}

proof fn lemma_le_u32_differs(a: Seq<u8>, b: Seq<u8>, at: int, i: int)
    requires
        0 <= at,
        at + 4 <= a.len(),
        a.len() == b.len(),
        at <= i < at + 4,
        a[i] != b[i],
        forall|j: int| 0 <= j < a.len() && j != i ==> a[j] == b[j],
    ensures
        le_u32(a, at) != le_u32(b, at),
{
    assert(a[at] == b[at] || i == at);
    assert(a[at + 1] == b[at + 1] || i == at + 1);
    assert(a[at + 2] == b[at + 2] || i == at + 2);
    assert(a[at + 3] == b[at + 3] || i == at + 3);
}

/// A patch that passes its own checksum fails it, with `BadCrc32Bps`, once
/// any one byte of the stored checksum is changed: the bytes it guards stay
/// the same while the stored value changes.
pub proof fn lemma_flipped_checksum_rejected(p: Seq<u8>, q: Seq<u8>, i: int)
    requires
        p.len() >= 12,
        q.len() == p.len(),
        footer_of(p).bps == patch_checksum(p),
        p.len() - 4 <= i < p.len(),
        p[i] != q[i],
        forall|j: int| 0 <= j < p.len() && j != i ==> p[j] == q[j],
    ensures
        bps_result(q, patch_checksum(q)) == Err::<(BpsHeader, BpsCrc32), Errors>(
            Errors::BadCrc32Bps,
        ),
{
    assert(p.subrange(0, p.len() - 4) =~= q.subrange(0, q.len() - 4));
    lemma_le_u32_differs(p, q, p.len() - 4, i);
}

} // verus!
