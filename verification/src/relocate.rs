//! Decoding depends only on the bytes decoded and the nesting left, not on
//! where the bytes sit: a payload decodes the same inside its enclosing
//! buffer as on its own. This is what lets a length-delimited field be
//! re-read from its raw bytes alone.

use vstd::prelude::*;
use crate::error::Error;
use crate::reader::{classify, le32, le64, parse_fields, parse_value, spec_decode};
use crate::text::is_printable_utf8;
use crate::varint::{lemma_varint_bounds, spec_varint, varint_from};
use crate::wire::{FieldModel, InterpModel, ValueModel, MAX_FIELD_NUMBER};
use vstd::utf8::decode_utf8;

verus! {

/// `b1[p1..e1]` and `b2[p2..e2]` are the same bytes.
pub open spec fn same_bytes(b1: Seq<u8>, p1: int, e1: int, b2: Seq<u8>, p2: int, e2: int) -> bool {
    &&& 0 <= p1 <= e1 <= b1.len()
    &&& 0 <= p2 <= e2 <= b2.len()
    &&& e1 - p1 == e2 - p2
    &&& b1.subrange(p1, e1) == b2.subrange(p2, e2)
}

/// The successful outcome of a varint read, with its end relative to `base`.
pub open spec fn varint_rel(r: Result<(u64, int), Error>, base: int) -> Option<(u64, int)> {
    match r {
        Ok((v, p)) => Some((v, p - base)),
        Err(_) => None,
    }
}

/// The successful outcome of a value read, with its end relative to `base`.
pub open spec fn value_rel(r: Result<(ValueModel, int), Error>, base: int) -> Option<(ValueModel, int)> {
    match r {
        Ok((v, p)) => Some((v, p - base)),
        Err(_) => None,
    }
}

/// The successful outcome of a field-sequence read, with its end relative to
/// `base`.
pub open spec fn fields_rel(r: Result<(Seq<FieldModel>, int), Error>, base: int) -> Option<
    (Seq<FieldModel>, int),
> {
    match r {
        Ok((f, p)) => Some((f, p - base)),
        Err(_) => None,
    }
}

/// The field number of the enclosing group, if any.
pub open spec fn group_number(g: Option<(u64, usize)>) -> Option<u64> {
    match g {
        Some((n, _)) => Some(n),
        None => None,
    }
}

proof fn lemma_same_bytes_sub(b1: Seq<u8>, p1: int, e1: int, b2: Seq<u8>, p2: int, e2: int, a: int, c: int)
    requires
        same_bytes(b1, p1, e1, b2, p2, e2),
        0 <= a <= c <= e1 - p1,
    ensures
        same_bytes(b1, p1 + a, p1 + c, b2, p2 + a, p2 + c),
{
    assert(b1.subrange(p1 + a, p1 + c) =~= b1.subrange(p1, e1).subrange(a, c));
    assert(b2.subrange(p2 + a, p2 + c) =~= b2.subrange(p2, e2).subrange(a, c));
}

proof fn lemma_same_byte(b1: Seq<u8>, p1: int, e1: int, b2: Seq<u8>, p2: int, e2: int, j: int)
    requires
        same_bytes(b1, p1, e1, b2, p2, e2),
        0 <= j < e1 - p1,
    ensures
        b1[p1 + j] == b2[p2 + j],
{
    assert(b1.subrange(p1, e1)[j] == b1[p1 + j]);
    assert(b2.subrange(p2, e2)[j] == b2[p2 + j]);
}

proof fn lemma_varint_from_relocate(
    b1: Seq<u8>,
    p1: int,
    e1: int,
    b2: Seq<u8>,
    p2: int,
    e2: int,
    k: nat,
    acc: u64,
)
    requires
        same_bytes(b1, p1, e1, b2, p2, e2),
    ensures
        varint_rel(varint_from(b1, p1, e1, k, acc), p1) == varint_rel(varint_from(b2, p2, e2, k, acc), p2),
    decreases 10 - k,
{
    if k < 10 && p1 + k < e1 {
        lemma_same_byte(b1, p1, e1, b2, p2, e2, k as int);
        let b = b1[p1 + k];
        lemma_varint_from_relocate(b1, p1, e1, b2, p2, e2, k + 1, acc | (((b & 0x7f) as u64) << ((7
            * k) as u64)));
    }
}

proof fn lemma_varint_relocate(b1: Seq<u8>, p1: int, e1: int, b2: Seq<u8>, p2: int, e2: int)
    requires
        same_bytes(b1, p1, e1, b2, p2, e2),
    ensures
        varint_rel(spec_varint(b1, p1, e1), p1) == varint_rel(spec_varint(b2, p2, e2), p2),
{
    lemma_varint_from_relocate(b1, p1, e1, b2, p2, e2, 0, 0);
}

proof fn lemma_le_relocate(b1: Seq<u8>, p1: int, e1: int, b2: Seq<u8>, p2: int, e2: int)
    requires
        same_bytes(b1, p1, e1, b2, p2, e2),
    ensures
        e1 - p1 >= 4 ==> le32(b1, p1) == le32(b2, p2),
        e1 - p1 >= 8 ==> le64(b1, p1) == le64(b2, p2),
{
    if e1 - p1 >= 4 {
        lemma_same_byte(b1, p1, e1, b2, p2, e2, 0);
        lemma_same_byte(b1, p1, e1, b2, p2, e2, 1);
        lemma_same_byte(b1, p1, e1, b2, p2, e2, 2);
        lemma_same_byte(b1, p1, e1, b2, p2, e2, 3);
    }
    if e1 - p1 >= 8 {
        lemma_same_byte(b1, p1, e1, b2, p2, e2, 4);
        lemma_same_byte(b1, p1, e1, b2, p2, e2, 5);
        lemma_same_byte(b1, p1, e1, b2, p2, e2, 6);
        lemma_same_byte(b1, p1, e1, b2, p2, e2, 7);
    }
}

/// Reading fields from equal bytes, with the same nesting left and the same
/// enclosing group number, succeeds or fails alike and, on success, gives the
/// same fields ending at the same relative position.
pub proof fn lemma_parse_relocate(
    b1: Seq<u8>,
    p1: int,
    e1: int,
    d1: nat,
    m1: nat,
    g1: Option<(u64, usize)>,
    b2: Seq<u8>,
    p2: int,
    e2: int,
    d2: nat,
    m2: nat,
    g2: Option<(u64, usize)>,
)
    requires
        same_bytes(b1, p1, e1, b2, p2, e2),
        m1 - d1 == m2 - d2,
        group_number(g1) == group_number(g2),
    ensures
        fields_rel(parse_fields(b1, p1, e1, d1, m1, g1), p1) == fields_rel(
            parse_fields(b2, p2, e2, d2, m2, g2),
            p2,
        ),
    decreases e1 - p1, 0int,
{
    if p1 < e1 {
        lemma_varint_relocate(b1, p1, e1, b2, p2, e2);
        lemma_varint_bounds(b1, p1, e1);
        lemma_varint_bounds(b2, p2, e2);
        if let Ok((tag, q1)) = spec_varint(b1, p1, e1) {
            let q2 = spec_varint(b2, p2, e2)->Ok_0.1;
            let wire = (tag % 8) as u8;
            let number = tag / 8;
            if wire <= 5 && wire != 4 && number != 0 && number <= MAX_FIELD_NUMBER {
                lemma_same_bytes_sub(b1, p1, e1, b2, p2, e2, q1 - p1, e1 - p1);
                lemma_value_relocate(b1, q1, e1, wire, number, p1, d1, m1, b2, q2, e2, p2, d2, m2);
                if let Ok((v, r1)) = parse_value(b1, q1, e1, wire, number, p1, d1, m1) {
                    let r2 = parse_value(b2, q2, e2, wire, number, p2, d2, m2)->Ok_0.1;
                    if p1 < r1 <= e1 {
                        lemma_same_bytes_sub(b1, p1, e1, b2, p2, e2, r1 - p1, e1 - p1);
                        lemma_parse_relocate(b1, r1, e1, d1, m1, g1, b2, r2, e2, d2, m2, g2);
                    }
                }
            }
        }
    }
}

/// Reading a value from equal bytes with the same nesting left succeeds or
/// fails alike and, on success, gives the same value ending at the same
/// relative position.
pub proof fn lemma_value_relocate(
    b1: Seq<u8>,
    s1: int,
    e1: int,
    wire: u8,
    number: u64,
    t1: int,
    d1: nat,
    m1: nat,
    b2: Seq<u8>,
    s2: int,
    e2: int,
    t2: int,
    d2: nat,
    m2: nat,
)
    requires
        same_bytes(b1, s1, e1, b2, s2, e2),
        m1 - d1 == m2 - d2,
    ensures
        value_rel(parse_value(b1, s1, e1, wire, number, t1, d1, m1), s1) == value_rel(
            parse_value(b2, s2, e2, wire, number, t2, d2, m2),
            s2,
        ),
    decreases e1 - s1, 1int,
{
    if wire == 0 {
        lemma_varint_relocate(b1, s1, e1, b2, s2, e2);
    } else if wire == 1 || wire == 5 {
        lemma_le_relocate(b1, s1, e1, b2, s2, e2);
    } else if wire == 2 {
        lemma_len_relocate(b1, s1, e1, number, t1, d1, m1, b2, s2, e2, t2, d2, m2);
    } else if d1 < m1 {
        lemma_parse_relocate(
            b1,
            s1,
            e1,
            d1 + 1,
            m1,
            Some((number, t1 as usize)),
            b2,
            s2,
            e2,
            d2 + 1,
            m2,
            Some((number, t2 as usize)),
        );
    }
}

/// The length-delimited case of [`lemma_value_relocate`].
proof fn lemma_len_relocate(
    b1: Seq<u8>,
    s1: int,
    e1: int,
    number: u64,
    t1: int,
    d1: nat,
    m1: nat,
    b2: Seq<u8>,
    s2: int,
    e2: int,
    t2: int,
    d2: nat,
    m2: nat,
)
    requires
        same_bytes(b1, s1, e1, b2, s2, e2),
        m1 - d1 == m2 - d2,
    ensures
        value_rel(parse_value(b1, s1, e1, 2, number, t1, d1, m1), s1) == value_rel(
            parse_value(b2, s2, e2, 2, number, t2, d2, m2),
            s2,
        ),
    decreases e1 - s1, 0int,
{
    lemma_varint_relocate(b1, s1, e1, b2, s2, e2);
    lemma_varint_bounds(b1, s1, e1);
    lemma_varint_bounds(b2, s2, e2);
    if let Ok((len, q1)) = spec_varint(b1, s1, e1) {
        let q2 = spec_varint(b2, s2, e2)->Ok_0.1;
        if len <= e1 - q1 {
            lemma_same_bytes_sub(b1, s1, e1, b2, s2, e2, q1 - s1, q1 - s1 + len);
            lemma_classify_relocate(b1, q1, q1 + len, d1, m1, b2, q2, q2 + len, d2, m2);
        }
    }
}

/// Equal payloads with the same nesting left are interpreted alike.
pub proof fn lemma_classify_relocate(
    b1: Seq<u8>,
    s1: int,
    e1: int,
    d1: nat,
    m1: nat,
    b2: Seq<u8>,
    s2: int,
    e2: int,
    d2: nat,
    m2: nat,
)
    requires
        same_bytes(b1, s1, e1, b2, s2, e2),
        m1 - d1 == m2 - d2,
    ensures
        classify(b1, s1, e1, d1, m1) == classify(b2, s2, e2, d2, m2),
    decreases e1 - s1, 2int,
{
    if d1 < m1 && s1 < e1 {
        lemma_parse_relocate(b1, s1, e1, d1 + 1, m1, None, b2, s2, e2, d2 + 1, m2, None);
    }
}

} // verus!
