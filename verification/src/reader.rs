//! The recursive schemaless decoder.
//!
//! [`parse_fields`] is the specification: the meaning of a byte range as a
//! sequence of fields. [`read_fields`] is the bounds-checked implementation,
//! proved to compute exactly that.

use vstd::prelude::*;
use vstd::utf8::*;
use crate::error::Error;
use crate::text::{is_printable_utf8, printable_utf8};
use crate::varint::{lemma_varint_bounds, read_varint, spec_varint};
use crate::wire::{Limits, DEFAULT_MAX_DEPTH, fields_model, wire_of, Field, FieldModel, FieldValue, InterpModel, LenInterp, LenValue, ValueModel, WireType, MAX_FIELD_NUMBER};

verus! {

/// The little-endian value of the four bytes at `p`.
pub open spec fn le32(buf: Seq<u8>, p: int) -> u32 {
    (buf[p] as int + 0x100 * buf[p + 1] + 0x10000 * buf[p + 2] + 0x1000000 * buf[p + 3]) as u32
}

/// The little-endian value of the eight bytes at `p`.
pub open spec fn le64(buf: Seq<u8>, p: int) -> u64 {
    (le32(buf, p) as int + 0x1_0000_0000 * le32(buf, p + 4)) as u64
}

/// The meaning of `buf[pos..end]` as a sequence of fields, read at nesting
/// `depth` with at most `max_depth` levels, inside the group `group` (its
/// field number and the offset of its start tag) or at message level (`None`).
///
/// On success it gives the fields and the position where reading stopped:
/// `end` at message level, just past the matching group-end tag in a group.
pub open spec fn parse_fields(
    buf: Seq<u8>,
    pos: int,
    end: int,
    depth: nat,
    max_depth: nat,
    group: Option<(u64, usize)>,
) -> Result<(Seq<FieldModel>, int), Error>
    decreases end - pos, 0int,
{
    if pos >= end {
        match group {
            Some((number, offset)) => Err(Error::UnterminatedGroup { field: number, offset }),
            None => Ok((Seq::empty(), pos)),
        }
    } else {
        match spec_varint(buf, pos, end) {
            Err(e) => Err(e),
            Ok((tag, p1)) => {
                proof {
                    lemma_varint_bounds(buf, pos, end);
                }
                let wire = (tag % 8) as u8;
                let number = tag / 8;
                if wire > 5 {
                    Err(Error::InvalidWireType { value: wire, offset: pos as usize })
                } else if number == 0 || number > MAX_FIELD_NUMBER {
                    Err(Error::InvalidFieldNumber { value: number, offset: pos as usize })
                } else if wire == 4 {
                    match group {
                        Some((g, _)) if g == number => Ok((Seq::empty(), p1)),
                        _ => Err(Error::UnexpectedEndGroup { field: number, offset: pos as usize }),
                    }
                } else {
                    match parse_value(buf, p1, end, wire, number, pos, depth, max_depth) {
                        Err(e) => Err(e),
                        Ok((v, p2)) => {
                            if pos < p2 <= end {
                                let field = FieldModel {
                                    number,
                                    wire_type: wire_of(wire as int),
                                    value: v,
                                };
                                match parse_fields(buf, p2, end, depth, max_depth, group) {
                                    Ok((rest, p3)) => Ok((seq![field] + rest, p3)),
                                    Err(e) => Err(e),
                                }
                            } else {
                                // Unreachable: every value ends within (pos, end].
                                Err(Error::UnexpectedEof { what: "field", offset: pos as usize })
                            }
                        },
                    }
                }
            },
        }
    }
}

/// The value of wire type `wire` that begins at `start` (just past a tag for
/// field `number` found at `tag_offset`), and the position just past it.
/// A length-delimited payload is interpreted by [`classify`]; a group is the
/// fields up to its matching group-end tag, one level deeper.
pub open spec fn parse_value(
    buf: Seq<u8>,
    start: int,
    end: int,
    wire: u8,
    number: u64,
    tag_offset: int,
    depth: nat,
    max_depth: nat,
) -> Result<(ValueModel, int), Error>
    decreases end - start, 1int,
{
    if wire == 0 {
        match spec_varint(buf, start, end) {
            Ok((v, p)) => Ok((ValueModel::Varint(v), p)),
            Err(e) => Err(e),
        }
    } else if wire == 1 {
        if end - start < 8 {
            Err(Error::UnexpectedEof { what: "fixed64", offset: start as usize })
        } else {
            Ok((ValueModel::I64(le64(buf, start)), start + 8))
        }
    } else if wire == 5 {
        if end - start < 4 {
            Err(Error::UnexpectedEof { what: "fixed32", offset: start as usize })
        } else {
            Ok((ValueModel::I32(le32(buf, start)), start + 4))
        }
    } else if wire == 2 {
        match spec_varint(buf, start, end) {
            Err(e) => Err(e),
            Ok((len, p)) => {
                proof {
                    lemma_varint_bounds(buf, start, end);
                }
                if len > end - p {
                    Err(
                        Error::LengthOutOfRange {
                            value: len,
                            available: (end - p) as usize,
                            offset: start as usize,
                        },
                    )
                } else {
                    Ok(
                        (
                            ValueModel::Len(
                                buf.subrange(p, p + len),
                                classify(buf, p, p + len, depth, max_depth),
                            ),
                            p + len,
                        ),
                    )
                }
            },
        }
    } else if depth >= max_depth {
        Err(Error::DepthLimitExceeded { limit: max_depth as usize, offset: tag_offset as usize })
    } else {
        match parse_fields(buf, start, end, depth + 1, max_depth, Some((number, tag_offset as usize))) {
            Ok((inner, p)) => Ok((ValueModel::Group(inner), p)),
            Err(e) => Err(e),
        }
    }
}

/// The interpretation of the payload `buf[s..e]` read at nesting `depth`:
/// message-first, as `protoc --decode_raw` does. A non-empty payload that
/// parses cleanly as a message one level deeper is that message; otherwise
/// printable UTF-8 is text; otherwise opaque bytes. At the depth limit no
/// payload is interpreted further: it degrades to bytes.
pub open spec fn classify(buf: Seq<u8>, s: int, e: int, depth: nat, max_depth: nat) -> InterpModel
    decreases e - s, 2int,
{
    if depth >= max_depth {
        InterpModel::Bytes
    } else if s < e && parse_fields(buf, s, e, depth + 1, max_depth, None) is Ok {
        InterpModel::Message(parse_fields(buf, s, e, depth + 1, max_depth, None)->Ok_0.0)
    } else if is_printable_utf8(buf.subrange(s, e)) {
        InterpModel::Text(decode_utf8(buf.subrange(s, e)))
    } else {
        InterpModel::Bytes
    }
}

/// The meaning of a whole buffer as a top-level message, decoded with at most
/// `max_depth` levels of nesting.
pub open spec fn spec_decode(bytes: Seq<u8>, max_depth: nat) -> Result<Seq<FieldModel>, Error> {
    match parse_fields(bytes, 0, bytes.len() as int, 0, max_depth, None) {
        Ok((fields, _)) => Ok(fields),
        Err(e) => Err(e),
    }
}

/// `pre` followed by the fields of `r`, when `r` succeeds.
pub open spec fn prepend(pre: Seq<FieldModel>, r: Result<(Seq<FieldModel>, int), Error>) -> Result<
    (Seq<FieldModel>, int),
    Error,
> {
    match r {
        Ok((f, q)) => Ok((pre + f, q)),
        Err(e) => Err(e),
    }
}

/// Whether the executable result `r` is the specified result `s`.
pub open spec fn fields_result_is(
    r: Result<(Vec<Field>, usize), Error>,
    s: Result<(Seq<FieldModel>, int), Error>,
) -> bool {
    match r {
        Ok((v, p)) => s == Ok::<(Seq<FieldModel>, int), Error>((fields_model(v@), p as int)),
        Err(e) => s == Err::<(Seq<FieldModel>, int), Error>(e),
    }
}

/// Pushing a field extends the model by that field's model.
proof fn lemma_fields_model_push(v: Seq<Field>, f: Field)
    ensures
        fields_model(v.push(f)) == fields_model(v).push(f.model()),
{
    assert(v.push(f).drop_last() =~= v);
}

/// The little-endian value of four bytes.
pub(crate) fn read_u32_le(buf: &[u8], p: usize) -> (r: u32)
    requires
        p + 4 <= buf.len(),
    ensures
        r == le32(buf@, p as int),
{
    buf[p] as u32 + (buf[p + 1] as u32) * 0x100 + (buf[p + 2] as u32) * 0x10000 + (buf[p
        + 3] as u32) * 0x1000000
}

/// The little-endian value of eight bytes.
pub(crate) fn read_u64_le(buf: &[u8], p: usize) -> (r: u64)
    requires
        p + 8 <= buf.len(),
    ensures
        r == le64(buf@, p as int),
{
    let lo = read_u32_le(buf, p) as u64;
    let hi = read_u32_le(buf, p + 4) as u64;
    lo + hi * 0x1_0000_0000
}

/// The wire type with raw value `w <= 5`.
fn wire_type_from(w: u8) -> (r: WireType)
    requires
        w <= 5,
    ensures
        r == wire_of(w as int),
{
    if w == 0 {
        WireType::Varint
    } else if w == 1 {
        WireType::I64
    } else if w == 2 {
        WireType::Len
    } else if w == 3 {
        WireType::StartGroup
    } else if w == 4 {
        WireType::EndGroup
    } else {
        WireType::I32
    }
}

/// Decode the fields of `buf[pos..end]` (see [`parse_fields`]).
pub fn read_fields(
    buf: &[u8],
    pos: usize,
    end: usize,
    depth: usize,
    max_depth: usize,
    group: Option<(u64, usize)>,
) -> (r: Result<(Vec<Field>, usize), Error>)
    requires
        pos <= end <= buf.len(),
    ensures
        fields_result_is(r, parse_fields(buf@, pos as int, end as int, depth as nat, max_depth as nat, group)),
        r matches Ok((_, q)) ==> pos <= q <= end && (group is Some ==> pos < q),
    decreases end - pos, 0usize,
{
    let ghost whole = parse_fields(buf@, pos as int, end as int, depth as nat, max_depth as nat, group);
    let mut fields: Vec<Field> = Vec::new();
    let mut p = pos;
    assert(whole == prepend(fields_model(fields@), parse_fields(buf@, p as int, end as int, depth as nat, max_depth as nat, group))) by {
        match whole {
            Ok((f, q)) => { assert(Seq::<FieldModel>::empty() + f =~= f); }
            Err(_) => {}
        }
    }
    loop
        invariant
            pos <= p <= end <= buf.len(),
            whole == parse_fields(buf@, pos as int, end as int, depth as nat, max_depth as nat, group),
            whole == prepend(fields_model(fields@), parse_fields(buf@, p as int, end as int, depth as nat, max_depth as nat, group)),
        decreases end - p,
    {
        let ghost here = parse_fields(buf@, p as int, end as int, depth as nat, max_depth as nat, group);
        if p >= end {
            match group {
                Some((number, offset)) => {
                    return Err(Error::UnterminatedGroup { field: number, offset });
                },
                None => {
                    assert(fields_model(fields@) + Seq::<FieldModel>::empty() =~= fields_model(fields@));
                    return Ok((fields, p));
                },
            }
        }
        let (tag, p1) = match read_varint(buf, p, end) {
            Ok(x) => x,
            Err(e) => {
                return Err(e);
            },
        };
        proof {
            lemma_varint_bounds(buf@, p1 as int, end as int);
        }
        let wire = (tag % 8) as u8;
        let number = tag / 8;
        if wire > 5 {
            return Err(Error::InvalidWireType { value: wire, offset: p });
        }
        if number == 0 || number > MAX_FIELD_NUMBER {
            return Err(Error::InvalidFieldNumber { value: number, offset: p });
        }
        if wire == 4 {
            match group {
                Some((g, _)) => {
                    if g == number {
                        assert(fields_model(fields@) + Seq::<FieldModel>::empty() =~= fields_model(fields@));
                        return Ok((fields, p1));
                    }
                },
                None => {},
            }
            return Err(Error::UnexpectedEndGroup { field: number, offset: p });
        }
        let (value, p2) = match read_value(buf, p1, end, wire, number, p, depth, max_depth) {
            Ok(x) => x,
            Err(e) => {
                return Err(e);
            },
        };
        let field = Field { number, wire_type: wire_type_from(wire), value };
        proof {
            lemma_fields_model_push(fields@, field);
            let fm = field.model();
            let rest = parse_fields(buf@, p2 as int, end as int, depth as nat, max_depth as nat, group);
            assert(here == prepend(seq![fm], rest));
            match rest {
                Ok((f, q)) => {
                    assert(fields_model(fields@) + (seq![fm] + f) =~= fields_model(fields@).push(fm) + f);
                }
                Err(_) => {}
            }
        }
        fields.push(field);
        p = p2;
    }
}

/// Read the value of wire type `wire` that begins at `start` (see
/// [`parse_value`]).
fn read_value(
    buf: &[u8],
    start: usize,
    end: usize,
    wire: u8,
    number: u64,
    tag_offset: usize,
    depth: usize,
    max_depth: usize,
) -> (r: Result<(FieldValue, usize), Error>)
    requires
        start <= end <= buf.len(),
        tag_offset < start,
        wire <= 5,
        wire != 4,
    ensures
        match r {
            Ok((v, p)) => parse_value(buf@, start as int, end as int, wire, number, tag_offset as int, depth as nat, max_depth as nat)
                == Ok::<(ValueModel, int), Error>((v.model(), p as int)) && start < p <= end,
            Err(e) => parse_value(buf@, start as int, end as int, wire, number, tag_offset as int, depth as nat, max_depth as nat)
                == Err::<(ValueModel, int), Error>(e),
        },
    decreases end - start, 1usize,
{
    if wire == 0 {
        match read_varint(buf, start, end) {
            Ok((v, q)) => Ok((FieldValue::Varint(v), q)),
            Err(e) => Err(e),
        }
    } else if wire == 1 {
        if end - start < 8 {
            return Err(Error::UnexpectedEof { what: "fixed64", offset: start });
        }
        Ok((FieldValue::I64(read_u64_le(buf, start)), start + 8))
    } else if wire == 5 {
        if end - start < 4 {
            return Err(Error::UnexpectedEof { what: "fixed32", offset: start });
        }
        Ok((FieldValue::I32(read_u32_le(buf, start)), start + 4))
    } else if wire == 2 {
        let (len, q) = match read_varint(buf, start, end) {
            Ok(x) => x,
            Err(e) => {
                return Err(e);
            },
        };
        if len > (end - q) as u64 {
            return Err(Error::LengthOutOfRange { value: len, available: end - q, offset: start });
        }
        let stop = q + len as usize;
        let interp = classify_payload(buf, q, stop, depth, max_depth);
        let raw = vstd::slice::slice_to_vec(&buf[q..stop]);
        Ok((FieldValue::Len(LenValue { raw, interp }), stop))
    } else {
        if depth >= max_depth {
            return Err(Error::DepthLimitExceeded { limit: max_depth, offset: tag_offset });
        }
        match read_fields(buf, start, end, depth + 1, max_depth, Some((number, tag_offset))) {
            Ok((inner, q)) => Ok((FieldValue::Group(inner), q)),
            Err(e) => Err(e),
        }
    }
}

/// Interpret the payload `buf[s..e]` (see [`classify`]).
fn classify_payload(buf: &[u8], s: usize, e: usize, depth: usize, max_depth: usize) -> (r: LenInterp)
    requires
        s <= e <= buf.len(),
    ensures
        r.model() == classify(buf@, s as int, e as int, depth as nat, max_depth as nat),
    decreases e - s, 2usize,
{
    if depth >= max_depth {
        return LenInterp::Bytes;
    }
    if s < e {
        match read_fields(buf, s, e, depth + 1, max_depth, None) {
            Ok((fields, _)) => {
                return LenInterp::Message(fields);
            },
            Err(_) => {},
        }
    }
    let payload = &buf[s..e];
    match printable_utf8(payload) {
        Some(t) => LenInterp::Text(t),
        None => LenInterp::Bytes,
    }
}

} // verus!

verus! {

/// Whether `r` is the executable form of the specified decode `s`.
pub open spec fn decode_result_is(r: Result<Vec<Field>, Error>, s: Result<Seq<FieldModel>, Error>) -> bool {
    match r {
        Ok(v) => s == Ok::<Seq<FieldModel>, Error>(fields_model(v@)),
        Err(e) => s == Err::<Seq<FieldModel>, Error>(e),
    }
}

/// Decode a whole buffer as a top-level message.
pub fn decode_message(bytes: &[u8], limits: &Limits) -> (r: Result<Vec<Field>, Error>)
    ensures
        decode_result_is(r, spec_decode(bytes@, limits.max_depth as nat)),
{
    match read_fields(bytes, 0, bytes.len(), 0, limits.max_depth, None) {
        Ok((fields, _)) => Ok(fields),
        Err(e) => Err(e),
    }
}

/// Decode protobuf wire-format bytes into a field tree with default limits.
/// Any malformed input (truncated or overlong varint, lying length, invalid
/// wire type or field number, unbalanced group, nesting past the depth limit)
/// yields an `Error`, never a panic.
pub fn decode(bytes: &[u8]) -> (r: Result<Vec<Field>, Error>)
    ensures
        decode_result_is(r, spec_decode(bytes@, DEFAULT_MAX_DEPTH as nat)),
{
    decode_with_limits(bytes, Limits { max_depth: DEFAULT_MAX_DEPTH })
}

/// Decode protobuf wire-format bytes into a field tree with explicit limits.
pub fn decode_with_limits(bytes: &[u8], limits: Limits) -> (r: Result<Vec<Field>, Error>)
    ensures
        decode_result_is(r, spec_decode(bytes@, limits.max_depth as nat)),
{
    decode_message(bytes, &limits)
}

} // verus!
