//! Re-reading a length-delimited payload as a packed repeated field.

use vstd::prelude::*;
use crate::reader::{le32, le64, read_u32_le, read_u64_le};
use crate::varint::{lemma_varint_bounds, read_varint, spec_varint};

verus! {

/// The varints that exactly fill `buf[pos..end]`, or `None` when the bytes
/// there are not a whole number of well-formed varints.
pub open spec fn varints_from(buf: Seq<u8>, pos: int, end: int) -> Option<Seq<u64>>
    decreases end - pos,
{
    if pos >= end {
        Some(Seq::empty())
    } else {
        match spec_varint(buf, pos, end) {
            Err(_) => None,
            Ok((v, p)) => {
                proof {
                    lemma_varint_bounds(buf, pos, end);
                }
                match varints_from(buf, p, end) {
                    Some(rest) => Some(seq![v] + rest),
                    None => None,
                }
            },
        }
    }
}

/// `pre` followed by the values of `r`, when there are any.
pub open spec fn prefixed(pre: Seq<u64>, r: Option<Seq<u64>>) -> Option<Seq<u64>> {
    match r {
        Some(s) => Some(pre + s),
        None => None,
    }
}

/// A non-empty payload read as packed varints.
pub open spec fn spec_packed_varints(raw: Seq<u8>) -> Option<Seq<u64>> {
    if raw.len() == 0 {
        None
    } else {
        varints_from(raw, 0, raw.len() as int)
    }
}

/// A payload read as packed little-endian 4-byte values: defined when its
/// length is a non-zero multiple of 4.
pub open spec fn spec_packed_i32(raw: Seq<u8>) -> Option<Seq<u32>> {
    if raw.len() == 0 || raw.len() % 4 != 0 {
        None
    } else {
        Some(Seq::new(raw.len() / 4, |i: int| le32(raw, 4 * i)))
    }
}

/// A payload read as packed little-endian 8-byte values: defined when its
/// length is a non-zero multiple of 8.
pub open spec fn spec_packed_i64(raw: Seq<u8>) -> Option<Seq<u64>> {
    if raw.len() == 0 || raw.len() % 8 != 0 {
        None
    } else {
        Some(Seq::new(raw.len() / 8, |i: int| le64(raw, 8 * i)))
    }
}

/// Read `raw` as a packed repeated field of varints (see [`spec_packed_varints`]).
pub fn packed_varints(raw: &[u8]) -> (r: Option<Vec<u64>>)
    ensures
        match r {
            Some(v) => spec_packed_varints(raw@) == Some(v@),
            None => spec_packed_varints(raw@) is None,
        },
{
    let n = raw.len();
    if n == 0 {
        return None;
    }
    let mut out: Vec<u64> = Vec::new();
    let mut p: usize = 0;
    assert(varints_from(raw@, 0, n as int) == prefixed(Seq::<u64>::empty(), varints_from(raw@, 0, n as int))) by {
        match varints_from(raw@, 0, n as int) {
            Some(s) => { assert(Seq::<u64>::empty() + s =~= s); }
            None => {}
        }
    }
    while p < n
        invariant
            p <= n == raw.len(),
            varints_from(raw@, 0, n as int) == prefixed(out@, varints_from(raw@, p as int, n as int)),
        decreases n - p,
    {
        match read_varint(raw, p, n) {
            Err(_) => {
                return None;
            },
            Ok((v, q)) => {
                proof {
                    let rest = varints_from(raw@, q as int, n as int);
                    match rest {
                        Some(s) => { assert(out@ + (seq![v] + s) =~= out@.push(v) + s); }
                        None => {}
                    }
                }
                out.push(v);
                p = q;
            },
        }
    }
    assert(out@ + Seq::<u64>::empty() =~= out@);
    Some(out)
}

/// Read `raw` as packed little-endian 4-byte values (see [`spec_packed_i32`]).
pub fn packed_i32(raw: &[u8]) -> (r: Option<Vec<u32>>)
    ensures
        match r {
            Some(v) => spec_packed_i32(raw@) == Some(v@),
            None => spec_packed_i32(raw@) is None,
        },
{
    let n = raw.len();
    if n == 0 || n % 4 != 0 {
        return None;
    }
    let mut out: Vec<u32> = Vec::new();
    let mut i: usize = 0;
    while i < n / 4
        invariant
            n == raw.len(),
            n % 4 == 0,
            i <= n / 4,
            out@.len() == i,
            forall|j: int| 0 <= j < i ==> out@[j] == le32(raw@, 4 * j),
        decreases n / 4 - i,
    {
        out.push(read_u32_le(raw, 4 * i));
        i = i + 1;
    }
    assert(out@ =~= Seq::new(n as nat / 4, |j: int| le32(raw@, 4 * j)));
    Some(out)
}

/// Read `raw` as packed little-endian 8-byte values (see [`spec_packed_i64`]).
pub fn packed_i64(raw: &[u8]) -> (r: Option<Vec<u64>>)
    ensures
        match r {
            Some(v) => spec_packed_i64(raw@) == Some(v@),
            None => spec_packed_i64(raw@) is None,
        },
{
    let n = raw.len();
    if n == 0 || n % 8 != 0 {
        return None;
    }
    let mut out: Vec<u64> = Vec::new();
    let mut i: usize = 0;
    while i < n / 8
        invariant
            n == raw.len(),
            n % 8 == 0,
            i <= n / 8,
            out@.len() == i,
            forall|j: int| 0 <= j < i ==> out@[j] == le64(raw@, 8 * j),
        decreases n / 8 - i,
    {
        out.push(read_u64_le(raw, 8 * i));
        i = i + 1;
    }
    assert(out@ =~= Seq::new(n as nat / 8, |j: int| le64(raw@, 8 * j)));
    Some(out)
}

} // verus!

verus! {

impl crate::wire::LenValue {
    /// The payload as a packed repeated field of varints: `Some` iff it is
    /// non-empty and decodes as a whole number of varints consuming exactly
    /// its bytes. One candidate reading, not a certainty.
    pub fn as_packed_varints(&self) -> (r: Option<Vec<u64>>)
        ensures
            match r {
                Some(v) => spec_packed_varints(self.raw@) == Some(v@),
                None => spec_packed_varints(self.raw@) is None,
            },
    {
        packed_varints(self.raw.as_slice())
    }

    /// The payload as packed little-endian 4-byte values: `Some` iff its
    /// length is a non-zero multiple of 4.
    pub fn as_packed_i32(&self) -> (r: Option<Vec<u32>>)
        ensures
            match r {
                Some(v) => spec_packed_i32(self.raw@) == Some(v@),
                None => spec_packed_i32(self.raw@) is None,
            },
    {
        packed_i32(self.raw.as_slice())
    }

    /// The payload as packed little-endian 8-byte values: `Some` iff its
    /// length is a non-zero multiple of 8.
    pub fn as_packed_i64(&self) -> (r: Option<Vec<u64>>)
        ensures
            match r {
                Some(v) => spec_packed_i64(self.raw@) == Some(v@),
                None => spec_packed_i64(self.raw@) is None,
            },
    {
        packed_i64(self.raw.as_slice())
    }
}

} // verus!

verus! {

/// The varints filling `buf[pos..end]` are at most as many as its bytes, and
/// at least one when the range is not empty.
proof fn lemma_varints_count(buf: Seq<u8>, pos: int, end: int)
    ensures
        varints_from(buf, pos, end) matches Some(vs) ==> vs.len() <= if pos < end {
            end - pos
        } else {
            0
        } && (pos < end ==> vs.len() >= 1),
    decreases end - pos,
{
    if pos < end {
        lemma_varint_bounds(buf, pos, end);
        if let Ok((v, p)) = spec_varint(buf, pos, end) {
            lemma_varints_count(buf, p, end);
        }
    }
}

/// A packed varint reading has at least one value and no more values than
/// the payload has bytes (every varint takes at least one byte).
pub proof fn law_packed_varint_count(raw: Seq<u8>)
    ensures
        spec_packed_varints(raw) matches Some(vs) ==> 1 <= vs.len() <= raw.len(),
{
    lemma_varints_count(raw, 0, raw.len() as int);
}

} // verus!

verus! {

/// Packed fixed-width readings, byte by byte: a payload reads as packed
/// 4-byte values exactly when its length is a non-zero multiple of 4, and
/// value `i` is the little-endian number in bytes `4i..4i+4`; likewise for
/// 8-byte values and bytes `8i..8i+8`.
pub proof fn law_packed_fixed_bytes(raw: Seq<u8>)
    ensures
        (spec_packed_i32(raw) is Some) == (raw.len() > 0 && raw.len() % 4 == 0),
        spec_packed_i32(raw) matches Some(vs) ==> vs.len() == raw.len() / 4 && forall|i: int|
            0 <= i < vs.len() ==> #[trigger] vs[i] as int == raw[4 * i] + 0x100 * raw[4 * i + 1]
                + 0x1_0000 * raw[4 * i + 2] + 0x100_0000 * raw[4 * i + 3],
        (spec_packed_i64(raw) is Some) == (raw.len() > 0 && raw.len() % 8 == 0),
        spec_packed_i64(raw) matches Some(vs) ==> vs.len() == raw.len() / 8 && forall|i: int|
            0 <= i < vs.len() ==> #[trigger] vs[i] as int == raw[8 * i] + 0x100 * raw[8 * i + 1]
                + 0x1_0000 * raw[8 * i + 2] + 0x100_0000 * raw[8 * i + 3] + 0x1_0000_0000 * raw[8
                * i + 4] + 0x100_0000_0000 * raw[8 * i + 5] + 0x1_0000_0000_0000 * raw[8 * i + 6]
                + 0x100_0000_0000_0000 * raw[8 * i + 7],
{
    if let Some(vs) = spec_packed_i32(raw) {
        assert forall|i: int| 0 <= i < vs.len() implies #[trigger] vs[i] as int == raw[4 * i] + 0x100
            * raw[4 * i + 1] + 0x1_0000 * raw[4 * i + 2] + 0x100_0000 * raw[4 * i + 3] by {
            assert(vs[i] == le32(raw, 4 * i));
        }
    }
    if let Some(vs) = spec_packed_i64(raw) {
        assert forall|i: int| 0 <= i < vs.len() implies #[trigger] vs[i] as int == raw[8 * i] + 0x100
            * raw[8 * i + 1] + 0x1_0000 * raw[8 * i + 2] + 0x100_0000 * raw[8 * i + 3]
            + 0x1_0000_0000 * raw[8 * i + 4] + 0x100_0000_0000 * raw[8 * i + 5] + 0x1_0000_0000_0000
            * raw[8 * i + 6] + 0x100_0000_0000_0000 * raw[8 * i + 7] by {
            assert(vs[i] == le64(raw, 8 * i));
            assert(0 <= 8 * i && 8 * i + 8 <= raw.len()) by (nonlinear_arith)
                requires
                    0 <= i < raw.len() / 8,
            ;
        }
    }
}

} // verus!
