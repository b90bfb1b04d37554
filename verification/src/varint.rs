//! Bounds-checked base-128 varint reading.
//!
//! A varint is a little-endian sequence of 7-bit groups: each byte contributes
//! its low seven bits at position `7 * k`, and a set high bit means another
//! byte follows. A 64-bit value occupies at most ten bytes.

use vstd::prelude::*;
use crate::error::Error;

verus! {

/// Reading the varint that begins at `start`, given that its first `k` bytes
/// have already contributed `acc`, with the buffer ending at `end`.
pub open spec fn varint_from(buf: Seq<u8>, start: int, end: int, k: nat, acc: u64) -> Result<
    (u64, int),
    Error,
>
    decreases 10 - k,
{
    if k >= 10 {
        Err(Error::OverlongVarint { offset: start as usize })
    } else if start + k >= end {
        Err(Error::TruncatedVarint { offset: start as usize })
    } else {
        let b = buf[start + k];
        let next = acc | (((b & 0x7f) as u64) << ((7 * k) as u64));
        if b >= 0x80 {
            varint_from(buf, start, end, k + 1, next)
        } else if k == 9 && b > 1 {
            Err(Error::VarintOverflow { offset: start as usize })
        } else {
            Ok((next, start + k + 1))
        }
    }
}

/// The varint that begins at `start` in `buf[..end]`: its value and the
/// position just past its last byte, or the error that reading it meets.
pub open spec fn spec_varint(buf: Seq<u8>, start: int, end: int) -> Result<(u64, int), Error> {
    varint_from(buf, start, end, 0, 0)
}

/// A successfully read varint ends strictly after its start and within the
/// buffer.
pub proof fn lemma_varint_from_bounds(buf: Seq<u8>, start: int, end: int, k: nat, acc: u64)
    ensures
        varint_from(buf, start, end, k, acc) matches Ok((v, p)) ==> start + k < p <= end,
    decreases 10 - k,
{
    if k < 10 && start + k < end && buf[start + k] >= 0x80 {
        let b = buf[start + k];
        lemma_varint_from_bounds(buf, start, end, k + 1, acc | (((b & 0x7f) as u64) << ((7
            * k) as u64)));
    }
}

pub proof fn lemma_varint_bounds(buf: Seq<u8>, start: int, end: int)
    ensures
        spec_varint(buf, start, end) matches Ok((v, p)) ==> start < p <= end,
{
    lemma_varint_from_bounds(buf, start, end, 0, 0);
}

/// Read the varint that begins at `start`, never reading at or past `end`.
pub fn read_varint(buf: &[u8], start: usize, end: usize) -> (r: Result<(u64, usize), Error>)
    requires
        start <= end <= buf.len(),
    ensures
        match r {
            Ok((v, p)) => spec_varint(buf@, start as int, end as int) == Ok::<(u64, int), Error>(
                (v, p as int),
            ) && start < p <= end,
            Err(e) => spec_varint(buf@, start as int, end as int) == Err::<(u64, int), Error>(e),
        },
{
    proof {
        lemma_varint_bounds(buf@, start as int, end as int);
    }
    let mut k: usize = 0;
    let mut acc: u64 = 0;
    while k < 10
        invariant
            k <= 10,
            start <= end <= buf.len(),
            spec_varint(buf@, start as int, end as int) == varint_from(
                buf@,
                start as int,
                end as int,
                k as nat,
                acc,
            ),
            spec_varint(buf@, start as int, end as int) matches Ok((v, p)) ==> start < p <= end,
        decreases 10 - k,
    {
        if end - start <= k {
            return Err(Error::TruncatedVarint { offset: start });
        }
        let b = buf[start + k];
        let next = acc | (((b & 0x7f) as u64) << ((7 * k) as u64));
        if b >= 0x80 {
            acc = next;
            k = k + 1;
        } else if k == 9 && b > 1 {
            return Err(Error::VarintOverflow { offset: start });
        } else {
            return Ok((next, start + k + 1));
        }
    }
    Err(Error::OverlongVarint { offset: start })
}

} // verus!

verus! {

/// `128^k`: the weight of the `k`-th seven-bit group of a varint.
pub open spec fn pow128(k: nat) -> nat
    decreases k,
{
    if k == 0 {
        1
    } else {
        128 * pow128((k - 1) as nat)
    }
}

/// The base-128 little-endian value of `s`: the sum over its bytes `k` of
/// the low seven bits of byte `k` times `128^k`.
pub open spec fn base128(s: Seq<u8>) -> nat
    decreases s.len(),
{
    if s.len() == 0 {
        0
    } else {
        base128(s.drop_last()) + (s.last() % 128) as nat * pow128((s.len() - 1) as nat)
    }
}

/// Adding the seven-bit group of byte `b` at position `k` to an accumulator
/// below `128^k` is ordinary addition of its weighted value.
proof fn lemma_group_step(acc: u64, b: u8, k: nat)
    requires
        k < 10,
        acc < pow128(k),
        k == 9 ==> (b & 0x7f) <= 1,
    ensures
        (acc | (((b & 0x7f) as u64) << ((7 * k) as u64))) == acc + (b % 128) as nat * pow128(k),
        k < 9 ==> acc + (b % 128) as nat * pow128(k) < pow128(k + 1),
{
    reveal_with_fuel(pow128, 11);
    assert((b & 0x7f) == b % 128) by (bit_vector);
    let x = (b & 0x7f) as u64;
    let sh = (7 * k) as u64;
    if k == 0 {
        assert(sh == 0);
        assert(acc | (x << sh) == acc + x * 0x1) by (bit_vector)
            requires
                acc < 0x1,
                x < 128,
                sh == 0,
        ;
    } else if k == 1 {
        assert(sh == 7);
        assert(acc | (x << sh) == acc + x * 0x80) by (bit_vector)
            requires
                acc < 0x80,
                x < 128,
                sh == 7,
        ;
    } else if k == 2 {
        assert(sh == 14);
        assert(acc | (x << sh) == acc + x * 0x4000) by (bit_vector)
            requires
                acc < 0x4000,
                x < 128,
                sh == 14,
        ;
    } else if k == 3 {
        assert(sh == 21);
        assert(acc | (x << sh) == acc + x * 0x200000) by (bit_vector)
            requires
                acc < 0x200000,
                x < 128,
                sh == 21,
        ;
    } else if k == 4 {
        assert(sh == 28);
        assert(acc | (x << sh) == acc + x * 0x10000000) by (bit_vector)
            requires
                acc < 0x10000000,
                x < 128,
                sh == 28,
        ;
    } else if k == 5 {
        assert(sh == 35);
        assert(acc | (x << sh) == acc + x * 0x800000000) by (bit_vector)
            requires
                acc < 0x800000000,
                x < 128,
                sh == 35,
        ;
    } else if k == 6 {
        assert(sh == 42);
        assert(acc | (x << sh) == acc + x * 0x40000000000) by (bit_vector)
            requires
                acc < 0x40000000000,
                x < 128,
                sh == 42,
        ;
    } else if k == 7 {
        assert(sh == 49);
        assert(acc | (x << sh) == acc + x * 0x2000000000000) by (bit_vector)
            requires
                acc < 0x2000000000000,
                x < 128,
                sh == 49,
        ;
    } else if k == 8 {
        assert(sh == 56);
        assert(acc | (x << sh) == acc + x * 0x100000000000000) by (bit_vector)
            requires
                acc < 0x100000000000000,
                x < 128,
                sh == 56,
        ;
    } else if k == 9 {
        assert(sh == 63);
        assert(acc | (x << sh) == acc + x * 0x8000000000000000) by (bit_vector)
            requires
                acc < 0x8000000000000000,
                x < 128,
                sh == 63,
                x <= 1,
        ;
    }
}

proof fn lemma_varint_from_value(buf: Seq<u8>, start: int, end: int, k: nat, acc: u64)
    requires
        0 <= start,
        start + k <= end <= buf.len(),
        k <= 10,
        k < 10 ==> acc == base128(buf.subrange(start, start + k)) && acc < pow128(k),
    ensures
        varint_from(buf, start, end, k, acc) matches Ok((v, p)) ==> v == base128(buf.subrange(start, p)),
    decreases 10 - k,
{
    if k < 10 && start + k < end {
        let b = buf[start + k];
        let s1 = buf.subrange(start, start + k + 1);
        assert(s1.drop_last() =~= buf.subrange(start, start + k));
        assert(s1.last() == b);
        let next = acc | (((b & 0x7f) as u64) << ((7 * k) as u64));
        if b >= 0x80 {
            if k < 9 {
                lemma_group_step(acc, b, k);
                lemma_varint_from_value(buf, start, end, k + 1, next);
            } else {
                assert(varint_from(buf, start, end, k + 1, next) is Err);
            }
        } else if !(k == 9 && b > 1) {
            assert((b & 0x7f) == b) by (bit_vector)
                requires
                    b < 0x80,
            ;
            lemma_group_step(acc, b, k);
        }
    }
}

/// The value a successful varint read gives is the base-128 little-endian
/// value of exactly the bytes it read: byte `k` contributes its low seven
/// bits times `128^k`.
pub proof fn law_varint_value(buf: Seq<u8>, start: int, end: int)
    requires
        0 <= start <= end <= buf.len(),
    ensures
        spec_varint(buf, start, end) matches Ok((v, p)) ==> v == base128(buf.subrange(start, p)),
{
    assert(buf.subrange(start, start) =~= Seq::<u8>::empty());
    lemma_varint_from_value(buf, start, end, 0, 0);
}

} // verus!
