use vstd::prelude::*;
use crate::bps::crc32::{BpsCrc32, Crc32, crc32_of};
use crate::bps::{Bps, BpsHeader};
use crate::engine::{apply_body, initial_state, lemma_run_fails_at, lemma_run_output_size, run, step, steps};
use crate::errors::Errors;
use crate::source::SourceFile;
use crate::target::TargetFile;

verus! {

/// The part of `source` that copies may read: no more than the header declares.
pub open spec fn readable_source(source: Seq<u8>, h: BpsHeader) -> Seq<u8> {
    if source.len() > h.source_size {
        source.subrange(0, h.source_size as int)
    } else {
        source
    }
}

/// What applying the opened patch `p` to `source` gives: the instructions
/// run from the end of the header to the footer, then the target checksum is
/// checked, then the source checksum.
pub open spec fn patch_result(p: Seq<u8>, h: BpsHeader, crcs: BpsCrc32, source: Seq<u8>) -> Result<
    Seq<u8>,
    Errors,
> {
    if h.target_size > usize::MAX {
        Err(Errors::InvalidReadSize)
    } else {
        match run(
            p.subrange(0, p.len() - 12),
            readable_source(source, h),
            h.target_size as nat,
            initial_state(h.header_size as int),
        ) {
            Err(e) => Err(e),
            Ok(out) => if crc32_of(out) != crcs.target {
                Err(Errors::BadCrc32Target)
            } else if crc32_of(source) != crcs.source {
                Err(Errors::BadCrc32Source)
            } else {
                Ok(out)
            },
        }
    }
}

/// An opened patch together with the source it applies to and the target
/// it writes.
#[derive(Debug)]
pub struct Patcher {
    pub bps: Bps,
    pub source_file: SourceFile,
    pub target_file: TargetFile,
}

impl Patcher {
    pub fn new(bps: Bps, source_file: SourceFile, target_file: TargetFile) -> (r: Self)
        ensures
            r.bps == bps,
            r.source_file == source_file,
            r.target_file == target_file,
    {
        Self { bps, source_file, target_file }
    }

    /// Rebuilds the target. On success the target holds exactly the declared
    /// number of bytes, with the declared checksum; on failure it is left
    /// as it was.
    pub fn patch(&mut self) -> (r: Result<(), Errors>)
        requires
            old(self).bps.wf(),
        ensures
            final(self).bps == old(self).bps,
            final(self).source_file == old(self).source_file,
            match r {
                Ok(_) => {
                    &&& patch_result(
                        old(self).bps.data@,
                        old(self).bps.header,
                        old(self).bps.crc32,
                        old(self).source_file.data@,
                    ) == Ok::<Seq<u8>, Errors>(final(self).target_file.data@)
                    &&& final(self).target_file.data@.len() == old(self).bps.header.target_size
                    &&& crc32_of(final(self).target_file.data@) == old(self).bps.crc32.target
                },
                Err(e) => {
                    &&& patch_result(
                        old(self).bps.data@,
                        old(self).bps.header,
                        old(self).bps.crc32,
                        old(self).source_file.data@,
                    ) == Err::<Seq<u8>, Errors>(e)
                    &&& final(self).target_file == old(self).target_file
                },
            },
    {
        let target_size: u64 = self.bps.header.target_size();
        if target_size > usize::MAX as u64 {
            return Err(Errors::InvalidReadSize);
        }
        let source: &[u8] = self.source_file.data.as_slice();
        let limit: usize = if source.len() as u64 > self.bps.header.source_size() {
            self.bps.header.source_size() as usize
        } else {
            source.len()
        };
        let readable: &[u8] = &source[0..limit];
        assert(readable@ =~= readable_source(source@, self.bps.header));
        let end: usize = self.bps.data.len() - 12;
        let start: usize = self.bps.header.header_size as usize;
        let out = apply_body(self.bps.data.as_slice(), start, end, readable, target_size)?;
        if Crc32::new(self.bps.crc32.target()).compare(out.as_slice()).is_err() {
            return Err(Errors::BadCrc32Target);
        }
        if Crc32::new(self.bps.crc32.source()).compare(source).is_err() {
            return Err(Errors::BadCrc32Source);
        }
        let n: usize = out.len();
        self.target_file = TargetFile { data: out, position: n };
        Ok(())
    }
}

/// What applying a patch gives, set against its run: a success holds
/// exactly the declared number of bytes and matches the target checksum; a
/// failing run fails the patch with the same error, before any checksum is
/// looked at; and a run that succeeds with the wrong target checksum fails at
/// the target check.
pub proof fn lemma_patch_outcome(p: Seq<u8>, h: BpsHeader, crcs: BpsCrc32, source: Seq<u8>)
    requires
        h.target_size <= usize::MAX,
    ensures
        ({
            let r = run(
                p.subrange(0, p.len() - 12),
                readable_source(source, h),
                h.target_size as nat,
                initial_state(h.header_size as int),
            );
            &&& patch_result(p, h, crcs, source) is Ok ==> {
                &&& patch_result(p, h, crcs, source)->Ok_0.len() == h.target_size
                &&& crc32_of(patch_result(p, h, crcs, source)->Ok_0) == crcs.target
            }
            &&& r is Err ==> patch_result(p, h, crcs, source) == Err::<Seq<u8>, Errors>(r->Err_0)
            &&& r is Ok && crc32_of(r->Ok_0) != crcs.target ==> patch_result(p, h, crcs, source)
                == Err::<Seq<u8>, Errors>(Errors::BadCrc32Target)
        }),
{
    lemma_run_output_size(
        p.subrange(0, p.len() - 12),
        readable_source(source, h),
        h.target_size as nat,
        initial_state(h.header_size as int),
    );
}

/// Wherever the run of a patch reaches an instruction that fails (for one
/// that writes past the target size or reads outside the source, see
/// `lemma_step_bounds`), applying the patch fails with that instruction's
/// error, before any checksum of the target or source is looked at.
pub proof fn lemma_patch_fails_at(
    p: Seq<u8>,
    h: BpsHeader,
    crcs: BpsCrc32,
    source: Seq<u8>,
    k: nat,
)
    requires
        12 <= p.len() <= usize::MAX,
        h.target_size <= usize::MAX,
        h.header_size <= p.len() - 12,
        ({
            let body = p.subrange(0, p.len() - 12);
            let src = readable_source(source, h);
            let tsize = h.target_size as nat;
            let st0 = initial_state(h.header_size as int);
            &&& steps(body, src, tsize, st0, k) is Ok
            &&& steps(body, src, tsize, st0, k)->Ok_0.pos < body.len()
            &&& step(body, src, tsize, steps(body, src, tsize, st0, k)->Ok_0) is Err
        }),
    ensures
        ({
            let body = p.subrange(0, p.len() - 12);
            let src = readable_source(source, h);
            let tsize = h.target_size as nat;
            let st0 = initial_state(h.header_size as int);
            patch_result(p, h, crcs, source) == Err::<Seq<u8>, Errors>(
                step(body, src, tsize, steps(body, src, tsize, st0, k)->Ok_0)->Err_0,
            )
        }),
{
    lemma_run_fails_at(
        p.subrange(0, p.len() - 12),
        readable_source(source, h),
        h.target_size as nat,
        initial_state(h.header_size as int),
        k,
    );
}

} // verus!
