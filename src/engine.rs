use vstd::prelude::*;
use crate::action::{Action, action_of};
use crate::decode::{signed, signed_value, varint, varint_end, varint_result};
use crate::errors::Errors;

verus! {

/// The state of a run: the target written so far, the position in the
/// patch, and the two relative cursors.
pub struct EngineState {
    pub out: Seq<u8>,
    pub pos: int,
    pub source_rel: int,
    pub target_rel: int,
}

/// The state a run starts in, with the instructions beginning at `start`.
pub open spec fn initial_state(start: int) -> EngineState {
    EngineState { out: Seq::empty(), pos: start, source_rel: 0, target_rel: 0 }
}

/// `out` followed by `len` bytes, each copied from `from + k` of the
/// sequence as it stands once the earlier ones are appended.
pub open spec fn self_copy(out: Seq<u8>, from: int, len: nat) -> Seq<u8>
    decreases len,
{
    if len == 0 {
        out
    } else {
        self_copy(out.push(out[from]), from + 1, (len - 1) as nat)
    }
}

/// One instruction executed: `body` holds the patch up to the end of the
/// instructions, `tsize` is the declared target size.
pub open spec fn step(body: Seq<u8>, source: Seq<u8>, tsize: nat, st: EngineState) -> Result<
    EngineState,
    Errors,
> {
    match varint_result(body.subrange(st.pos, body.len() as int)) {
        Err(e) => Err(e),
        Ok((word, n)) => {
            let p1 = st.pos + n;
            let len = action_of(word).len_spec() as int;
            let wp = st.out.len() as int;
            match action_of(word) {
                Action::SourceRead(_) => if wp + len > tsize {
                    Err(Errors::PatchOverrun)
                } else if wp + len > source.len() {
                    Err(Errors::OutOfBounds)
                } else {
                    Ok(EngineState { out: st.out + source.subrange(wp, wp + len), pos: p1, ..st })
                },
                Action::TargetRead(_) => if wp + len > tsize {
                    Err(Errors::PatchOverrun)
                } else if p1 + len > body.len() {
                    Err(Errors::Io)
                } else {
                    Ok(EngineState { out: st.out + body.subrange(p1, p1 + len), pos: p1 + len, ..st })
                },
                Action::SourceCopy(_) => match varint_result(body.subrange(p1, body.len() as int)) {
                    Err(e) => Err(e),
                    Ok((d, n2)) => {
                        let from = st.source_rel + signed_value(d);
                        if wp + len > tsize {
                            Err(Errors::PatchOverrun)
                        } else if from < 0 || from + len > source.len() {
                            Err(Errors::OutOfBounds)
                        } else {
                            Ok(
                                EngineState {
                                    out: st.out + source.subrange(from, from + len),
                                    pos: p1 + n2,
                                    source_rel: from + len,
                                    target_rel: st.target_rel,
                                },
                            )
                        }
                    },
                },
                Action::TargetCopy(_) => match varint_result(body.subrange(p1, body.len() as int)) {
                    Err(e) => Err(e),
                    Ok((d, n2)) => {
                        let from = st.target_rel + signed_value(d);
                        if wp + len > tsize {
                            Err(Errors::PatchOverrun)
                        } else if from < 0 || from >= wp {
                            Err(Errors::OutOfBounds)
                        } else {
                            Ok(
                                EngineState {
                                    out: self_copy(st.out, from, len as nat),
                                    pos: p1 + n2,
                                    source_rel: st.source_rel,
                                    target_rel: from + len,
                                },
                            )
                        }
                    },
                },
            }
        },
    }
}

/// The target that running the instructions from `st` to the end of `body`
/// gives, or the first error.
pub open spec fn run(body: Seq<u8>, source: Seq<u8>, tsize: nat, st: EngineState) -> Result<
    Seq<u8>,
    Errors,
>
    decreases body.len() - st.pos,
{
    if st.pos >= body.len() {
        if st.out.len() == tsize {
            Ok(st.out)
        } else {
            Err(Errors::IncompletePatch)
        }
    } else {
        match step(body, source, tsize, st) {
            Err(e) => Err(e),
            Ok(next) => if st.pos < next.pos <= body.len() {
                run(body, source, tsize, next)
            } else {
                Err(Errors::Io)
            },
        }
    }
}

/// Executes the instructions of `patch` from `start` up to `end` against
/// `source`, building a target of `target_size` bytes.
pub fn apply_body(patch: &[u8], start: usize, end: usize, source: &[u8], target_size: u64) -> (r:
    Result<Vec<u8>, Errors>)
    requires
        start <= end <= patch@.len(),
        target_size <= usize::MAX,
    ensures
        match r {
            Ok(out) => run(
                patch@.subrange(0, end as int),
                source@,
                target_size as nat,
                initial_state(start as int),
            ) == Ok::<Seq<u8>, Errors>(out@),
            Err(e) => run(
                patch@.subrange(0, end as int),
                source@,
                target_size as nat,
                initial_state(start as int),
            ) == Err::<Seq<u8>, Errors>(e),
        },
        r is Ok ==> r->Ok_0@.len() == target_size,
{
    proof {
        lemma_run_output_size(
            patch@.subrange(0, end as int),
            source@,
            target_size as nat,
            initial_state(start as int),
        );
    }
    let ghost body = patch@.subrange(0, end as int);
    let ghost tsize = target_size as nat;
    let mut out: Vec<u8> = Vec::new();
    let mut pos: usize = start;
    let mut source_rel: usize = 0;
    let mut target_rel: usize = 0;
    loop
        invariant
            start <= pos <= end <= patch@.len(),
            body == patch@.subrange(0, end as int),
            tsize == target_size as nat,
            target_size <= usize::MAX,
            out@.len() <= target_size,
            run(body, source@, tsize, initial_state(start as int)) == run(
                body,
                source@,
                tsize,
                EngineState {
                    out: out@,
                    pos: pos as int,
                    source_rel: source_rel as int,
                    target_rel: target_rel as int,
                },
            ),
        decreases end - pos,
    {
        let ghost st = EngineState {
            out: out@,
            pos: pos as int,
            source_rel: source_rel as int,
            target_rel: target_rel as int,
        };
        if pos >= end {
            if out.len() as u64 == target_size {
                return Ok(out);
            }
            return Err(Errors::IncompletePatch);
        }
        assert(body.subrange(pos as int, body.len() as int) =~= patch@.subrange(
            pos as int,
            end as int,
        ));
        let (word, p1) = varint(patch, pos, end)?;
        let action = Action::from(word);
        let wp: u64 = out.len() as u64;
        match action {
            Action::SourceRead(len) => {
                if len > target_size - wp {
                    return Err(Errors::PatchOverrun);
                }
                if wp > source.len() as u64 || len > source.len() as u64 - wp {
                    return Err(Errors::OutOfBounds);
                }
                let from: usize = wp as usize;
                let n: usize = len as usize;
                let ghost out0 = out@;
                let mut k: usize = 0;
                while k < n
                    invariant
                        k <= n,
                        from + n <= source.len(),
                        out0.len() + n <= target_size,
                        out@ == out0 + source@.subrange(from as int, from + k),
                    decreases n - k,
                {
                    out.push(source[from + k]);
                    k = k + 1;
                    assert(out@ =~= out0 + source@.subrange(from as int, from + k));
                }
                pos = p1;
            },
            Action::TargetRead(len) => {
                if len > target_size - wp {
                    return Err(Errors::PatchOverrun);
                }
                if len > (end - p1) as u64 {
                    return Err(Errors::Io);
                }
                let n: usize = len as usize;
                let ghost out0 = out@;
                let mut k: usize = 0;
                while k < n
                    invariant
                        k <= n,
                        p1 + n <= end <= patch.len(),
                        out0.len() + n <= target_size,
                        body == patch@.subrange(0, end as int),
                        out@ == out0 + body.subrange(p1 as int, p1 + k),
                    decreases n - k,
                {
                    out.push(patch[p1 + k]);
                    k = k + 1;
                    assert(out@ =~= out0 + body.subrange(p1 as int, p1 + k));
                }
                pos = p1 + n;
            },
            Action::SourceCopy(len) => {
                assert(body.subrange(p1 as int, body.len() as int) =~= patch@.subrange(
                    p1 as int,
                    end as int,
                ));
                let (d, p2) = varint(patch, p1, end)?;
                let delta: i64 = signed(d);
                let from: i128 = source_rel as i128 + delta as i128;
                if len > target_size - wp {
                    return Err(Errors::PatchOverrun);
                }
                if from < 0 || from > source.len() as i128 || len as i128 > source.len() as i128
                    - from {
                    return Err(Errors::OutOfBounds);
                }
                let from: usize = from as usize;
                let n: usize = len as usize;
                let ghost out0 = out@;
                let mut k: usize = 0;
                while k < n
                    invariant
                        k <= n,
                        from + n <= source.len(),
                        out0.len() + n <= target_size,
                        out@ == out0 + source@.subrange(from as int, from + k),
                    decreases n - k,
                {
                    out.push(source[from + k]);
                    k = k + 1;
                    assert(out@ =~= out0 + source@.subrange(from as int, from + k));
                }
                source_rel = from + n;
                pos = p2;
            },
            Action::TargetCopy(len) => {
                assert(body.subrange(p1 as int, body.len() as int) =~= patch@.subrange(
                    p1 as int,
                    end as int,
                ));
                let (d, p2) = varint(patch, p1, end)?;
                let delta: i64 = signed(d);
                let from: i128 = target_rel as i128 + delta as i128;
                if len > target_size - wp {
                    return Err(Errors::PatchOverrun);
                }
                if from < 0 || from >= out.len() as i128 {
                    return Err(Errors::OutOfBounds);
                }
                let from: usize = from as usize;
                let n: usize = len as usize;
                let ghost out0 = out@;
                let mut k: usize = 0;
                while k < n
                    invariant
                        k <= n,
                        from + k < out.len(),
                        from < out0.len(),
                        out@.len() == out0.len() + k,
                        out0.len() + n <= target_size,
                        self_copy(out0, from as int, n as nat) == self_copy(
                            out@,
                            from + k,
                            (n - k) as nat,
                        ),
                    decreases n - k,
                {
                    let b: u8 = out[from + k];
                    out.push(b);
                    k = k + 1;
                }
                assert(self_copy(out@, from + k, 0) == out@);
                assert(from + n <= out.len());
                target_rel = from + n;
                pos = p2;
            },
        }
    }
}

/// A run that succeeds writes exactly the declared number of target bytes.
pub proof fn lemma_run_output_size(body: Seq<u8>, source: Seq<u8>, tsize: nat, st: EngineState)
    ensures
        run(body, source, tsize, st) is Ok ==> run(body, source, tsize, st)->Ok_0.len() == tsize,
    decreases body.len() - st.pos,
{
    if st.pos < body.len() {
        if let Ok(next) = step(body, source, tsize, st) {
            if st.pos < next.pos <= body.len() {
                lemma_run_output_size(body, source, tsize, next);
            }
        }
    }
}

/// Copying from the last byte written repeats that byte: each copied byte
/// is read after the one before it has been appended.
pub proof fn lemma_self_copy_repeats(out: Seq<u8>, len: nat)
    requires
        out.len() >= 1,
    ensures
        self_copy(out, out.len() - 1, len) == out + Seq::new(len, |i: int| out.last()),
    decreases len,
{
    if len > 0 {
        let next = out.push(out.last());
        lemma_self_copy_repeats(next, (len - 1) as nat);
        assert(next + Seq::new((len - 1) as nat, |i: int| next.last()) =~= out + Seq::new(
            len,
            |i: int| out.last(),
        ));
    } else {
        assert(out + Seq::new(len, |i: int| out.last()) =~= out);
    }
}

/// An instruction that would write past the declared target size fails
/// with `PatchOverrun`, and one that would read outside the source fails
/// with `OutOfBounds`; neither is cut short or wrapped around.
pub proof fn lemma_step_bounds(
    body: Seq<u8>,
    source: Seq<u8>,
    tsize: nat,
    st: EngineState,
    word: u64,
    n: usize,
)
    requires
        0 <= st.pos <= body.len(),
        varint_result(body.subrange(st.pos, body.len() as int)) == Ok::<(u64, usize), Errors>(
            (word, n),
        ),
    ensures
        ({
            let a = action_of(word);
            let len = a.len_spec() as int;
            let wp = st.out.len() as int;
            let p1 = st.pos + n;
            let delta = varint_result(body.subrange(p1, body.len() as int));
            &&& (a is SourceRead || a is TargetRead) && wp + len > tsize ==> step(
                body,
                source,
                tsize,
                st,
            ) == Err::<EngineState, Errors>(Errors::PatchOverrun)
            &&& (a is SourceCopy || a is TargetCopy) && delta is Ok && wp + len > tsize ==> step(
                body,
                source,
                tsize,
                st,
            ) == Err::<EngineState, Errors>(Errors::PatchOverrun)
            &&& a is SourceRead && wp + len <= tsize && wp + len > source.len() ==> step(
                body,
                source,
                tsize,
                st,
            ) == Err::<EngineState, Errors>(Errors::OutOfBounds)
            &&& a is SourceCopy && delta is Ok && wp + len <= tsize && ({
                let from = st.source_rel + signed_value(delta->Ok_0.0);
                from < 0 || from + len > source.len()
            }) ==> step(body, source, tsize, st) == Err::<EngineState, Errors>(Errors::OutOfBounds)
            &&& a is TargetCopy && delta is Ok && wp + len <= tsize && ({
                let from = st.target_rel + signed_value(delta->Ok_0.0);
                from < 0 || from >= wp
            }) ==> step(body, source, tsize, st) == Err::<EngineState, Errors>(Errors::OutOfBounds)
            &&& step(body, source, tsize, st) is Ok ==> step(body, source, tsize, st)->Ok_0.out.len()
                == wp + len <= tsize
        }),
{
    let a = action_of(word);
    let len = a.len_spec() as int;
    if step(body, source, tsize, st) is Ok {
        if a is TargetCopy {
            let p1 = st.pos + n;
            let (d, n2) = varint_result(body.subrange(p1, body.len() as int))->Ok_0;
            lemma_self_copy_len(st.out, st.target_rel + signed_value(d), len as nat);
        }
    }
}

proof fn lemma_self_copy_len(out: Seq<u8>, from: int, len: nat)
    ensures
        self_copy(out, from, len).len() == out.len() + len,
    decreases len,
{
    if len > 0 {
        lemma_self_copy_len(out.push(out[from]), from + 1, (len - 1) as nat);
    }
}

/// The state after `k` instructions executed from `st`, or the first error.
pub open spec fn steps(body: Seq<u8>, source: Seq<u8>, tsize: nat, st: EngineState, k: nat) -> Result<
    EngineState,
    Errors,
>
    decreases k,
{
    if k == 0 {
        Ok(st)
    } else {
        match steps(body, source, tsize, st, (k - 1) as nat) {
            Err(e) => Err(e),
            Ok(mid) => step(body, source, tsize, mid),
        }
    }
}

proof fn lemma_varint_end_bounds(s: Seq<u8>)
    ensures
        varint_end(s) is Some ==> 1 <= varint_end(s).unwrap() <= s.len(),
    decreases s.len(),
{
    if s.len() > 0 && s[0] < 128 {
        lemma_varint_end_bounds(s.drop_first());
    }
}

/// Every instruction consumes at least one byte and stays within the body.
proof fn lemma_step_advances(body: Seq<u8>, source: Seq<u8>, tsize: nat, st: EngineState)
    requires
        0 <= st.pos <= body.len() <= usize::MAX,
    ensures
        step(body, source, tsize, st) is Ok ==> st.pos < step(body, source, tsize, st)->Ok_0.pos
            <= body.len(),
{
    let s0 = body.subrange(st.pos, body.len() as int);
    lemma_varint_end_bounds(s0);
    if let Ok((w, n)) = varint_result(s0) {
        let p1 = st.pos + n;
        lemma_varint_end_bounds(body.subrange(p1, body.len() as int));
    }
}

/// A run goes through every state that the instructions before it reach.
pub proof fn lemma_run_prefix(body: Seq<u8>, source: Seq<u8>, tsize: nat, st0: EngineState, k: nat)
    requires
        0 <= st0.pos <= body.len() <= usize::MAX,
        steps(body, source, tsize, st0, k) is Ok,
    ensures
        0 <= steps(body, source, tsize, st0, k)->Ok_0.pos <= body.len(),
        run(body, source, tsize, st0) == run(
            body,
            source,
            tsize,
            steps(body, source, tsize, st0, k)->Ok_0,
        ),
    decreases k,
{
    if k > 0 {
        lemma_run_prefix(body, source, tsize, st0, (k - 1) as nat);
        let mid = steps(body, source, tsize, st0, (k - 1) as nat)->Ok_0;
        lemma_step_advances(body, source, tsize, mid);
    }
}

/// Once the instructions before it succeed, a run fails with whatever error
/// the next instruction fails with.
pub proof fn lemma_run_fails_at(
    body: Seq<u8>,
    source: Seq<u8>,
    tsize: nat,
    st0: EngineState,
    k: nat,
)
    requires
        0 <= st0.pos <= body.len() <= usize::MAX,
        steps(body, source, tsize, st0, k) is Ok,
        steps(body, source, tsize, st0, k)->Ok_0.pos < body.len(),
        step(body, source, tsize, steps(body, source, tsize, st0, k)->Ok_0) is Err,
    ensures
        run(body, source, tsize, st0) == Err::<Seq<u8>, Errors>(
            step(body, source, tsize, steps(body, source, tsize, st0, k)->Ok_0)->Err_0,
        ),
{
    lemma_run_prefix(body, source, tsize, st0, k);
}

/// Wherever a run reaches an instruction that would write past the declared
/// target size, the run fails with `PatchOverrun`; where it reaches one that
/// would read outside the source, or target bytes not yet written, it fails
/// with `OutOfBounds`.
pub proof fn lemma_run_bounds(
    body: Seq<u8>,
    source: Seq<u8>,
    tsize: nat,
    st0: EngineState,
    k: nat,
    word: u64,
    n: usize,
)
    requires
        0 <= st0.pos <= body.len() <= usize::MAX,
        steps(body, source, tsize, st0, k) is Ok,
        varint_result(
            body.subrange(steps(body, source, tsize, st0, k)->Ok_0.pos, body.len() as int),
        ) == Ok::<(u64, usize), Errors>((word, n)),
    ensures
        ({
            let st = steps(body, source, tsize, st0, k)->Ok_0;
            let a = action_of(word);
            let len = a.len_spec() as int;
            let wp = st.out.len() as int;
            let delta = varint_result(body.subrange(st.pos + n, body.len() as int));
            let r = run(body, source, tsize, st0);
            &&& (a is SourceRead || a is TargetRead) && wp + len > tsize ==> r == Err::<
                Seq<u8>,
                Errors,
            >(Errors::PatchOverrun)
            &&& (a is SourceCopy || a is TargetCopy) && delta is Ok && wp + len > tsize ==> r
                == Err::<Seq<u8>, Errors>(Errors::PatchOverrun)
            &&& a is SourceRead && wp + len <= tsize && wp + len > source.len() ==> r == Err::<
                Seq<u8>,
                Errors,
            >(Errors::OutOfBounds)
            &&& a is SourceCopy && delta is Ok && wp + len <= tsize && ({
                let from = st.source_rel + signed_value(delta->Ok_0.0);
                from < 0 || from + len > source.len()
            }) ==> r == Err::<Seq<u8>, Errors>(Errors::OutOfBounds)
            &&& a is TargetCopy && delta is Ok && wp + len <= tsize && ({
                let from = st.target_rel + signed_value(delta->Ok_0.0);
                from < 0 || from >= wp
            }) ==> r == Err::<Seq<u8>, Errors>(Errors::OutOfBounds)
        }),
{
    lemma_run_prefix(body, source, tsize, st0, k);
    let st = steps(body, source, tsize, st0, k)->Ok_0;
    if st.pos == body.len() {
        assert(body.subrange(st.pos, body.len() as int) =~= Seq::<u8>::empty());
    }
    lemma_step_bounds(body, source, tsize, st, word, n);
    if step(body, source, tsize, st) is Err {
        lemma_run_fails_at(body, source, tsize, st0, k);
    }
}

/// Wherever a run reaches a `TargetCopy` whose cursor lands on the byte just
/// before the write position, and the target has room, the instruction
/// appends that byte `len` times and leaves the cursor just past the copied
/// bytes; the run goes on from there.
pub proof fn lemma_run_repeats_last_byte(
    body: Seq<u8>,
    source: Seq<u8>,
    tsize: nat,
    st0: EngineState,
    k: nat,
    word: u64,
    n: usize,
    d: u64,
    n2: usize,
)
    requires
        0 <= st0.pos <= body.len() <= usize::MAX,
        steps(body, source, tsize, st0, k) is Ok,
        ({
            let st = steps(body, source, tsize, st0, k)->Ok_0;
            &&& st.out.len() >= 1
            &&& varint_result(body.subrange(st.pos, body.len() as int)) == Ok::<
                (u64, usize),
                Errors,
            >((word, n))
            &&& action_of(word) is TargetCopy
            &&& varint_result(body.subrange(st.pos + n, body.len() as int)) == Ok::<
                (u64, usize),
                Errors,
            >((d, n2))
            &&& st.target_rel + signed_value(d) == st.out.len() - 1
            &&& st.out.len() + action_of(word).len_spec() <= tsize
        }),
    ensures
        ({
            let st = steps(body, source, tsize, st0, k)->Ok_0;
            let len = action_of(word).len_spec() as nat;
            let next = EngineState {
                out: st.out + Seq::new(len, |i: int| st.out.last()),
                pos: st.pos + n + n2,
                source_rel: st.source_rel,
                target_rel: st.out.len() - 1 + len,
            };
            &&& steps(body, source, tsize, st0, k + 1) == Ok::<EngineState, Errors>(next)
            &&& run(body, source, tsize, st0) == run(body, source, tsize, next)
        }),
{
    let st = steps(body, source, tsize, st0, k)->Ok_0;
    let len = action_of(word).len_spec() as nat;
    lemma_self_copy_repeats(st.out, len);
    lemma_run_prefix(body, source, tsize, st0, k + 1);
}

} // verus!
