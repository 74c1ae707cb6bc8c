use vstd::prelude::*;
use crate::errors::Errors;

verus! {

/// Where the varint at the start of `s` ends: the index just past its last
/// byte, which is the first byte with the high bit set. `None` when `s` ends
/// before such a byte.
pub open spec fn varint_end(s: Seq<u8>) -> Option<nat>
    decreases s.len(),
{
    if s.len() == 0 {
        None
    } else if s[0] >= 128 {
        Some(1)
    } else {
        match varint_end(s.drop_first()) {
            Some(e) => Some(e + 1),
            None => None,
        }
    }
}

/// The value of the varint digits at the start of `s`, each low seven bits
/// weighted by `shift`, with the bias that each continued byte adds.
pub open spec fn varint_value(s: Seq<u8>, shift: nat) -> nat
    decreases s.len(),
{
    if s.len() == 0 {
        0
    } else if s[0] >= 128 {
        (s[0] % 128) as nat * shift
    } else {
        (s[0] % 128) as nat * shift + shift * 128 + varint_value(s.drop_first(), shift * 128)
    }
}

/// What decoding the varint at the start of `s` gives: its value and the
/// number of bytes it takes, `Io` when `s` ends first, `BadBps` when the value
/// does not fit in 64 bits.
pub open spec fn varint_result(s: Seq<u8>) -> Result<(u64, usize), Errors> {
    match varint_end(s) {
        None => Err(Errors::Io),
        Some(e) => if varint_value(s, 1) > u64::MAX {
            Err(Errors::BadBps)
        } else {
            Ok((varint_value(s, 1) as u64, e as usize))
        },
    }
}

/// The bytes that encode `n` as a varint: seven bits per byte, low bits
/// first, each continued byte standing for one more than its digits say.
pub open spec fn varint_encoding(n: nat) -> Seq<u8>
    decreases n,
{
    if n / 128 == 0 {
        seq![(n % 128 + 128) as u8]
    } else {
        seq![(n % 128) as u8] + varint_encoding((n / 128 - 1) as nat)
    }
}

/// The signed delta that an unsigned varint value stands for: the low bit is
/// the sign, the other bits the magnitude.
pub open spec fn signed_value(v: u64) -> int {
    if v % 2 == 1 {
        -((v / 2) as int)
    } else {
        (v / 2) as int
    }
}

/// The unsigned value that stands for the delta `d`.
pub open spec fn signed_encoding(d: int) -> int {
    if d < 0 {
        -d * 2 + 1
    } else {
        d * 2
    }
}

proof fn lemma_varint_end_prefix(s: Seq<u8>, t: Seq<u8>)
    requires
        varint_end(s) is Some,
    ensures
        varint_end(s + t) == varint_end(s),
        varint_end(s).unwrap() <= s.len(),
    decreases s.len(),
{
    if s[0] < 128 {
        assert((s + t).drop_first() =~= s.drop_first() + t);
        lemma_varint_end_prefix(s.drop_first(), t);
    }
}

proof fn lemma_varint_encoding(n: nat, shift: nat, t: Seq<u8>)
    ensures
        varint_end(varint_encoding(n) + t) == Some(varint_encoding(n).len()),
        varint_value(varint_encoding(n) + t, shift) == n * shift,
    decreases n,
{
    let s = varint_encoding(n) + t;
    let x = n % 128;
    let q = n / 128;
    if q == 0 {
        assert(s[0] == (x + 128) as u8);
        assert(n == x) by (nonlinear_arith)
            requires x == n % 128, q == n / 128, q == 0;
    } else {
        let rest = varint_encoding((q - 1) as nat);
        assert(s.drop_first() =~= rest + t);
        lemma_varint_encoding((q - 1) as nat, shift * 128, t);
        assert(s[0] == x as u8);
        assert(x * shift + shift * 128 + (q - 1) * (shift * 128) == n * shift) by (nonlinear_arith)
            requires x == n % 128, q == n / 128, q >= 1;
    }
}

/// Decoding the varint encoding of any 64-bit value gives the value back and
/// takes exactly the bytes of the encoding, whatever follows them.
pub proof fn lemma_varint_round_trip(n: u64, rest: Seq<u8>)
    ensures
        varint_result(varint_encoding(n as nat) + rest) == Ok::<(u64, usize), Errors>(
            (n, varint_encoding(n as nat).len() as usize),
        ),
{
    lemma_varint_encoding(n as nat, 1, rest);
}

/// The signed-delta decoding inverts its encoding for every delta whose
/// encoding fits in 64 bits.
pub proof fn lemma_signed_round_trip(d: int)
    requires
        -0x7fff_ffff_ffff_ffff <= d <= 0x7fff_ffff_ffff_ffff,
    ensures
        0 <= signed_encoding(d) <= u64::MAX,
        signed_value(signed_encoding(d) as u64) == d,
{
}

/// Decodes the unsigned varint that starts at `pos` in `s`, reading no byte
/// at or past `end`; returns the value and the position just past it.
pub fn varint(s: &[u8], pos: usize, end: usize) -> (r: Result<(u64, usize), Errors>)
    requires
        pos <= end <= s@.len(),
    ensures
        match r {
            Ok((v, next)) => pos < next <= end && varint_result(s@.subrange(pos as int, end as int))
                == Ok::<(u64, usize), Errors>((v, (next - pos) as usize)),
            Err(e) => varint_result(s@.subrange(pos as int, end as int)) == Err::<(u64, usize), Errors>(e),
        },
{
    let ghost whole = s@.subrange(pos as int, end as int);
    let mut data: u64 = 0;
    let mut shift: u64 = 1;
    let mut overflow: bool = false;
    let mut i: usize = pos;
    loop
        invariant
            pos <= i <= end <= s@.len(),
            whole == s@.subrange(pos as int, end as int),
            shift >= 1,
            varint_end(whole) == (match varint_end(s@.subrange(i as int, end as int)) {
                Some(e) => Some((e + (i - pos)) as nat),
                None => None::<nat>,
            }),
            !overflow ==> varint_value(whole, 1) == data + varint_value(
                s@.subrange(i as int, end as int),
                shift as nat,
            ),
            overflow ==> varint_value(whole, 1) > u64::MAX,
        decreases end - i,
    {
        let ghost cur = s@.subrange(i as int, end as int);
        if i >= end {
            return Err(Errors::Io);
        }
        let x: u8 = s[i];
        assert(cur.drop_first() =~= s@.subrange(i + 1, end as int));
        assert(cur[0] == x);
        i = i + 1;
        let digit: u64 = (x % 128) as u64;
        if !overflow {
            proof {
                assert(varint_value(cur, shift as nat) >= digit * shift) by (nonlinear_arith)
                    requires
                        varint_value(cur, shift as nat) == (if x >= 128 {
                            digit * shift
                        } else {
                            digit * shift + shift * 128 + varint_value(cur.drop_first(), (shift * 128) as nat)
                        }),
                ;
            }
            match digit.checked_mul(shift) {
                Some(term) => {
                    match data.checked_add(term) {
                        Some(d) => {
                            data = d;
                        },
                        None => {
                            overflow = true;
                        },
                    }
                },
                None => {
                    overflow = true;
                },
            }
        }
        if x >= 128 {
            if overflow {
                return Err(Errors::BadBps);
            }
            return Ok((data, i));
        }
        if !overflow {
            proof {
                assert(varint_value(cur, shift as nat) == digit * shift + shift * 128
                    + varint_value(cur.drop_first(), (shift * 128) as nat));
            }
            match shift.checked_mul(128) {
                Some(sh) => {
                    match data.checked_add(sh) {
                        Some(d) => {
                            data = d;
                            shift = sh;
                        },
                        None => {
                            overflow = true;
                        },
                    }
                },
                None => {
                    overflow = true;
                },
            }
        }
    }
}

/// Turns an unsigned varint value into the signed delta it stands for.
pub fn signed(v: u64) -> (r: i64)
    ensures
        r as int == signed_value(v),
{
    let half: u64 = v >> 1;
    assert(v >> 1 == v / 2) by (bit_vector);
    assert(v & 1 == v % 2) by (bit_vector);
    if v & 1 == 1 {
        -(half as i64)
    } else {
        half as i64
    }
}

} // verus!
