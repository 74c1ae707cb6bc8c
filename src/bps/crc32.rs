use vstd::prelude::*;
use crate::errors::Errors;

verus! {

/// The CRC32 of a byte sequence, as crc32fast computes it.
pub uninterp spec fn crc32_of(b: Seq<u8>) -> u32;

/// Relies on crc32fast::hash: the CRC32 of the bytes it is given, which
/// depends on those bytes alone.
#[verifier::external_body]
pub(crate) fn crc32_prefix(b: &[u8], n: usize) -> (r: u32)
    requires
        n <= b@.len(),
    ensures
        r == crc32_of(b@.subrange(0, n as int)),
{
    crc32fast::hash(&b[..n])
}

/// The little-endian 32-bit value of the four bytes at `i`.
pub open spec fn le_u32(b: Seq<u8>, i: int) -> u32 {
    (b[i] + b[i + 1] * 256 + b[i + 2] * 65536 + b[i + 3] * 16777216) as u32
}

/// What comparing a checksum against some bytes gives.
pub open spec fn crc_check(expected: u32, computed: u32) -> Result<(), Errors> {
    if computed == expected {
        Ok(())
    } else {
        Err(Errors::BadCrc32)
    }
}

/// An expected checksum.
#[derive(Debug, Clone, Copy, PartialEq, Eq, Structural)]
pub struct Crc32 {
    pub crc32: u32,
}

impl Crc32 {
    pub fn new(crc32: u32) -> (r: Self)
        ensures
            r.crc32 == crc32,
    {
        Self { crc32 }
    }

    /// Compares the expected checksum with one already computed.
    pub fn check(&self, computed: u32) -> (r: Result<(), Errors>)
        ensures
            r == crc_check(self.crc32, computed),
    {
        if computed != self.crc32 {
            return Err(Errors::BadCrc32);
        }
        Ok(())
    }

    /// Compares the expected checksum with the CRC32 of `data`.
    pub fn compare(&self, data: &[u8]) -> (r: Result<(), Errors>)
        ensures
            r == crc_check(self.crc32, crc32_of(data@)),
    {
        let hash = crc32_prefix(data, data.len());
        assert(data@.subrange(0, data@.len() as int) =~= data@);
        self.check(hash)
    }
}

/// The three checksums of a patch's footer.
#[derive(Debug, Clone, Copy, PartialEq, Eq, Structural)]
pub struct BpsCrc32 {
    pub bps: u32,
    pub source: u32,
    pub target: u32,
}

/// The footer read from the last twelve bytes of `p`: source, target and
/// patch checksums, each little-endian.
pub open spec fn footer_of(p: Seq<u8>) -> BpsCrc32 {
    let f = p.len() - 12;
    BpsCrc32 { source: le_u32(p, f), target: le_u32(p, f + 4), bps: le_u32(p, f + 8) }
}

fn read_le_u32(b: &[u8], i: usize) -> (r: u32)
    requires
        i + 4 <= b@.len(),
    ensures
        r == le_u32(b@, i as int),
{
    let b0: u32 = b[i] as u32;
    let b1: u32 = b[i + 1] as u32;
    let b2: u32 = b[i + 2] as u32;
    let b3: u32 = b[i + 3] as u32;
    b0 + b1 * 256 + b2 * 65536 + b3 * 16777216
}

impl BpsCrc32 {
    pub fn bps(&self) -> (r: u32)
        ensures
            r == self.bps,
    {
        self.bps
    }

    pub fn source(&self) -> (r: u32)
        ensures
            r == self.source,
    {
        self.source
    }

    pub fn target(&self) -> (r: u32)
        ensures
            r == self.target,
    {
        self.target
    }

    /// Reads the footer of a patch; `BadBps` when the patch is shorter than
    /// the footer.
    pub fn from_footer(data: &[u8]) -> (r: Result<Self, Errors>)
        ensures
            data@.len() < 12 ==> r == Err::<Self, Errors>(Errors::BadBps),
            data@.len() >= 12 ==> r == Ok::<Self, Errors>(footer_of(data@)),
    {
        if data.len() < 12 {
            return Err(Errors::BadBps);
        }
        let f: usize = data.len() - 12;
        let source = read_le_u32(data, f);
        let target = read_le_u32(data, f + 4);
        let bps = read_le_u32(data, f + 8);
        Ok(Self { bps, source, target })
    }
}

/// Checking a checksum depends on nothing but the checksums compared, so two
/// checks of the same bytes against the same footer value agree.
pub proof fn lemma_check_deterministic(expected: u32, a: Seq<u8>, b: Seq<u8>)
    requires
        a == b,
    ensures
        crc_check(expected, crc32_of(a)) == crc_check(expected, crc32_of(b)),
{
}

} // verus!
