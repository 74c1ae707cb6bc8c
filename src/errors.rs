use vstd::prelude::*;

verus! {

/// Every way in which opening or applying a patch can fail.
#[derive(Debug, Clone, Copy, PartialEq, Eq, Structural)]
pub enum Errors {
    /// The patch is too short to hold its footer, or a number in it does not fit in 64 bits.
    BadBps,
    /// A checksum did not match the bytes it guards.
    BadCrc32,
    /// The checksum of the patch itself did not match.
    BadCrc32Bps,
    /// The checksum of the source did not match.
    BadCrc32Source,
    /// The checksum of the rebuilt target did not match.
    BadCrc32Target,
    /// The patch does not start with the magic tag.
    BadHeader,
    /// The declared target size is too large to hold in memory.
    InvalidReadSize,
    /// A copy reads outside the source, or target bytes not yet written.
    OutOfBounds,
    /// An instruction would write past the declared target size.
    PatchOverrun,
    /// The instructions ended before the declared target size was reached.
    IncompletePatch,
    /// A stream ended in the middle of a value.
    Io,
}

} // verus!
