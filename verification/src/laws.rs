//! Properties of the decoder that span its functions.

use vstd::prelude::*;
use crate::reader::{classify, parse_fields, parse_value, spec_decode};
use crate::varint::{lemma_varint_bounds, spec_varint, varint_from};
use crate::relocate::{lemma_classify_relocate, lemma_parse_relocate};
use crate::text::{is_printable_scalar, is_printable_utf8, lemma_printable_chars};
use crate::error::{error_offset, Error};
use vstd::utf8::decode_utf8;
use crate::analysis::{analyze_all, analyze_field, child_path, AnalyzedValueModel};
use crate::wire::{wire_of, wire_value, FieldModel, InterpModel, ValueModel, WireType, MAX_FIELD_NUMBER};

verus! {

/// Mapping a wire type to its raw value and back is the identity, and every
/// raw value `0..=5` maps to a wire type with that value.
pub proof fn law_wire_type_roundtrip(w: WireType, v: u8)
    ensures
        wire_of(wire_value(w) as int) == w,
        v <= 5 ==> wire_value(wire_of(v as int)) == v,
{
}

/// A decoded field is well formed: its number is in `1..=2^29 - 1`, its wire
/// type is never a group end, its value is of the kind its wire type names,
/// and so are the fields nested in it.
pub open spec fn field_well_formed(f: FieldModel) -> bool
    decreases f, 0int,
{
    &&& 1 <= f.number <= MAX_FIELD_NUMBER
    &&& match f.value {
        ValueModel::Varint(_) => f.wire_type == WireType::Varint,
        ValueModel::I64(_) => f.wire_type == WireType::I64,
        ValueModel::I32(_) => f.wire_type == WireType::I32,
        ValueModel::Len(_, interp) => f.wire_type == WireType::Len && match interp {
            InterpModel::Message(inner) => well_formed_from(inner, 0),
            _ => true,
        },
        ValueModel::Group(inner) => f.wire_type == WireType::StartGroup && well_formed_from(
            inner,
            0,
        ),
    }
}

/// The fields of `s` from index `i` on are well formed.
pub open spec fn well_formed_from(s: Seq<FieldModel>, i: int) -> bool
    decreases s, s.len() - i,
{
    if 0 <= i < s.len() {
        field_well_formed(s[i]) && well_formed_from(s, i + 1)
    } else {
        true
    }
}

/// Every field of the sequence is well formed.
pub open spec fn fields_well_formed(s: Seq<FieldModel>) -> bool {
    well_formed_from(s, 0)
}

pub open spec fn interp_well_formed(interp: InterpModel) -> bool {
    match interp {
        InterpModel::Message(inner) => fields_well_formed(inner),
        _ => true,
    }
}

/// `well_formed_from` states well-formedness of each field from `i` on.
pub proof fn lemma_well_formed_from(s: Seq<FieldModel>, i: int)
    requires
        0 <= i,
    ensures
        well_formed_from(s, i) <==> forall|j: int| i <= j < s.len() ==> #[trigger] field_well_formed(s[j]),
    decreases s.len() - i,
{
    if i < s.len() {
        lemma_well_formed_from(s, i + 1);
        assert(well_formed_from(s, i) == (field_well_formed(s[i]) && well_formed_from(s, i + 1)));
        if well_formed_from(s, i) {
            assert forall|j: int| i <= j < s.len() implies #[trigger] field_well_formed(s[j]) by {
                if j > i {
                    assert(i + 1 <= j < s.len());
                }
            }
        }
        if forall|j: int| i <= j < s.len() ==> #[trigger] field_well_formed(s[j]) {
            assert(field_well_formed(s[i]));
            assert forall|j: int| i + 1 <= j < s.len() implies #[trigger] field_well_formed(s[j]) by {
                assert(i <= j);
            }
        }
    }
}

proof fn lemma_prepend_well_formed(f: FieldModel, rest: Seq<FieldModel>)
    requires
        field_well_formed(f),
        fields_well_formed(rest),
    ensures
        fields_well_formed(seq![f] + rest),
{
    let s = seq![f] + rest;
    lemma_well_formed_from(rest, 0);
    assert forall|i: int| 0 <= i < s.len() implies #[trigger] field_well_formed(s[i]) by {
        if i > 0 {
            assert(s[i] == rest[i - 1]);
        }
    }
    lemma_well_formed_from(s, 0);
}

/// Whatever `parse_fields` accepts is well formed.
pub proof fn lemma_parse_well_formed(
    buf: Seq<u8>,
    pos: int,
    end: int,
    depth: nat,
    max_depth: nat,
    group: Option<(u64, usize)>,
)
    ensures
        parse_fields(buf, pos, end, depth, max_depth, group) matches Ok((f, _)) ==> fields_well_formed(f),
    decreases end - pos, 0int,
{
    if pos < end {
        lemma_varint_bounds(buf, pos, end);
        if let Ok((tag, p1)) = spec_varint(buf, pos, end) {
            let wire = (tag % 8) as u8;
            let number = tag / 8;
            if wire <= 5 && wire != 4 && number != 0 && number <= MAX_FIELD_NUMBER {
                lemma_value_well_formed(buf, p1, end, wire, number, pos, depth, max_depth);
                if let Ok((v, p2)) = parse_value(buf, p1, end, wire, number, pos, depth, max_depth) {
                    if pos < p2 <= end {
                        lemma_parse_well_formed(buf, p2, end, depth, max_depth, group);
                        if let Ok((rest, _)) = parse_fields(buf, p2, end, depth, max_depth, group) {
                            lemma_prepend_well_formed(
                                FieldModel { number, wire_type: wire_of(wire as int), value: v },
                                rest,
                            );
                        }
                    }
                }
            }
        }
    }
}

/// A value that `parse_value` accepts makes a well-formed field.
pub proof fn lemma_value_well_formed(
    buf: Seq<u8>,
    start: int,
    end: int,
    wire: u8,
    number: u64,
    tag_offset: int,
    depth: nat,
    max_depth: nat,
)
    requires
        1 <= number <= MAX_FIELD_NUMBER,
        wire <= 5,
        wire != 4,
    ensures
        parse_value(buf, start, end, wire, number, tag_offset, depth, max_depth) matches Ok((v, _))
            ==> field_well_formed(FieldModel { number, wire_type: wire_of(wire as int), value: v }),
    decreases end - start, 1int,
{
    if wire == 2 {
        lemma_varint_bounds(buf, start, end);
        if let Ok((len, p)) = spec_varint(buf, start, end) {
            if len <= end - p {
                lemma_classify_well_formed(buf, p, p + len, depth, max_depth);
            }
        }
    } else if wire == 3 && depth < max_depth {
        lemma_parse_well_formed(buf, start, end, depth + 1, max_depth, Some((number, tag_offset as usize)));
    }
}

/// Every interpretation `classify` gives is well formed.
pub proof fn lemma_classify_well_formed(buf: Seq<u8>, s: int, e: int, depth: nat, max_depth: nat)
    ensures
        interp_well_formed(classify(buf, s, e, depth, max_depth)),
    decreases e - s, 2int,
{
    if depth < max_depth && s < e {
        lemma_parse_well_formed(buf, s, e, depth + 1, max_depth, None);
    }
}

/// Every field the decoder returns is well formed (field numbers in
/// `1..=2^29 - 1`, no group-end fields, values of the kind their wire type
/// names), all the way down the tree.
pub proof fn law_decoded_fields_well_formed(bytes: Seq<u8>, max_depth: nat)
    ensures
        spec_decode(bytes, max_depth) matches Ok(fields) ==> fields_well_formed(fields),
{
    lemma_parse_well_formed(bytes, 0, bytes.len() as int, 0, max_depth, None);
}

} // verus!

verus! {

/// A length-delimited field's interpretation is that of its raw payload read
/// on its own at nesting `depth`.
pub open spec fn payload_interpreted(f: FieldModel, depth: nat, max_depth: nat) -> bool {
    match f.value {
        ValueModel::Len(raw, interp) => interp == classify(raw, 0, raw.len() as int, depth, max_depth),
        _ => true,
    }
}

proof fn lemma_value_payload(
    buf: Seq<u8>,
    start: int,
    end: int,
    wire: u8,
    number: u64,
    tag_offset: int,
    depth: nat,
    max_depth: nat,
)
    requires
        0 <= start <= end <= buf.len(),
    ensures
        parse_value(buf, start, end, wire, number, tag_offset, depth, max_depth) matches Ok((v, _))
            ==> payload_interpreted(FieldModel { number, wire_type: wire_of(wire as int), value: v }, depth, max_depth),
{
    if wire == 2 {
        lemma_varint_bounds(buf, start, end);
        if let Ok((len, p)) = spec_varint(buf, start, end) {
            if len <= end - p {
                let raw = buf.subrange(p, p + len);
                assert(raw.subrange(0, len as int) =~= raw);
                lemma_classify_relocate(buf, p, p + len, depth, max_depth, raw, 0, len as int, depth, max_depth);
            }
        }
    }
}

/// Every length-delimited field that `parse_fields` returns is interpreted as
/// its raw payload is on its own.
proof fn lemma_parse_payloads(
    buf: Seq<u8>,
    pos: int,
    end: int,
    depth: nat,
    max_depth: nat,
    group: Option<(u64, usize)>,
)
    requires
        0 <= pos <= end <= buf.len(),
    ensures
        parse_fields(buf, pos, end, depth, max_depth, group) matches Ok((f, _)) ==> forall|i: int|
            0 <= i < f.len() ==> #[trigger] payload_interpreted(f[i], depth, max_depth),
    decreases end - pos,
{
    if pos < end {
        lemma_varint_bounds(buf, pos, end);
        if let Ok((tag, p1)) = spec_varint(buf, pos, end) {
            let wire = (tag % 8) as u8;
            let number = tag / 8;
            if wire <= 5 && wire != 4 && number != 0 && number <= MAX_FIELD_NUMBER {
                lemma_value_payload(buf, p1, end, wire, number, pos, depth, max_depth);
                if let Ok((v, p2)) = parse_value(buf, p1, end, wire, number, pos, depth, max_depth) {
                    if pos < p2 <= end {
                        lemma_parse_payloads(buf, p2, end, depth, max_depth, group);
                        if let Ok((rest, _)) = parse_fields(buf, p2, end, depth, max_depth, group) {
                            let s = seq![FieldModel { number, wire_type: wire_of(wire as int), value: v }] + rest;
                            assert forall|i: int| 0 <= i < s.len() implies #[trigger] payload_interpreted(s[i], depth, max_depth) by {
                                if i > 0 {
                                    assert(s[i] == rest[i - 1]);
                                }
                            }
                        }
                    }
                }
            }
        }
    }
}

/// How a length-delimited payload is interpreted when found in a message
/// decoded with `max_depth` levels: message-first, as `protoc --decode_raw`
/// does. With no nesting left it is bytes. Otherwise a non-empty payload that
/// decodes on its own (with one level less) is that message; otherwise
/// printable UTF-8 is text; otherwise it is bytes.
pub open spec fn expected_interp(raw: Seq<u8>, max_depth: nat) -> InterpModel {
    if max_depth == 0 {
        InterpModel::Bytes
    } else if raw.len() > 0 && spec_decode(raw, (max_depth - 1) as nat) is Ok {
        InterpModel::Message(spec_decode(raw, (max_depth - 1) as nat)->Ok_0)
    } else if is_printable_utf8(raw) {
        InterpModel::Text(decode_utf8(raw))
    } else {
        InterpModel::Bytes
    }
}

/// Message-first inference: each length-delimited field of a decoded message
/// keeps its raw payload bytes and is interpreted as [`expected_interp`]
/// says: as the message those bytes decode to on their own, else as their
/// text, else as opaque bytes. Applied again to a nested message, it covers
/// every level of the tree.
pub proof fn law_message_first(bytes: Seq<u8>, max_depth: nat, i: int)
    requires
        spec_decode(bytes, max_depth) is Ok,
        0 <= i < spec_decode(bytes, max_depth)->Ok_0.len(),
    ensures
        spec_decode(bytes, max_depth)->Ok_0[i].value matches ValueModel::Len(raw, interp) ==> interp
            == expected_interp(raw, max_depth),
{
    let fields = spec_decode(bytes, max_depth)->Ok_0;
    lemma_parse_payloads(bytes, 0, bytes.len() as int, 0, max_depth, None);
    assert(payload_interpreted(fields[i], 0, max_depth));
    if let ValueModel::Len(raw, interp) = fields[i].value {
        let n = raw.len() as int;
        assert(raw.subrange(0, n) =~= raw);
        if max_depth >= 1 {
            lemma_parse_relocate(raw, 0, n, 1, max_depth, None, raw, 0, n, 0, (max_depth - 1) as nat, None);
        }
    }
}

} // verus!

verus! {

/// ZigZag decoding is one-to-one, and maps even codes to the non-negative
/// values and odd codes to the negative ones.
pub proof fn law_zigzag_one_to_one(a: u64, b: u64)
    ensures
        crate::wire::spec_zigzag(a) == crate::wire::spec_zigzag(b) ==> a == b,
        crate::wire::spec_zigzag(a) >= 0 <==> a % 2 == 0,
{
}

/// The analysis mirrors the decoded tree: one analysed field per decoded
/// field, in order, with the same number and wire type, addressed by the
/// dotted path `prefix.number` (the bare number at the top level).
pub proof fn law_analysis_paths(fs: Seq<FieldModel>, prefix: Seq<char>, i: int)
    requires
        0 <= i < fs.len(),
    ensures
        crate::analysis::analyze_all(fs, prefix).len() == fs.len(),
        crate::analysis::analyze_all(fs, prefix)[i].path == crate::analysis::child_path(prefix, fs[i].number),
        crate::analysis::analyze_all(fs, prefix)[i].number == fs[i].number,
        crate::analysis::analyze_all(fs, prefix)[i].wire_type == fs[i].wire_type,
{
    crate::analysis::lemma_analyze_all_index(fs, prefix);
}

/// Only length-delimited fields carry less than full confidence, and only
/// they carry notes.
pub proof fn law_confidence_only_for_payloads(f: FieldModel, prefix: Seq<char>)
    ensures
        !(f.value is Len) ==> crate::analysis::analyze_field(f, prefix).confidence
            == crate::analysis::Confidence::Certain
            && crate::analysis::analyze_field(f, prefix).notes.len() == 0,
        f.value is Len ==> crate::analysis::analyze_field(f, prefix).confidence
            != crate::analysis::Confidence::Certain,
{
}

/// A payload is read as text only when every character of that text is
/// printable: no control character other than tab, line feed and carriage
/// return.
pub proof fn law_text_is_printable(buf: Seq<u8>, s: int, e: int, depth: nat, max_depth: nat)
    ensures
        classify(buf, s, e, depth, max_depth) matches InterpModel::Text(t) ==> forall|i: int|
            0 <= i < t.len() ==> is_printable_scalar(#[trigger] t[i] as u32),
{
    if classify(buf, s, e, depth, max_depth) is Text {
        lemma_printable_chars(buf.subrange(s, e));
    }
}

} // verus!

verus! {

/// Field `f` nests no more than `budget` levels of groups and messages.
pub open spec fn field_within(f: FieldModel, budget: nat) -> bool
    decreases f, 0int,
{
    match f.value {
        ValueModel::Len(_, InterpModel::Message(inner)) => budget >= 1 && within_from(
            inner,
            (budget - 1) as nat,
            0,
        ),
        ValueModel::Group(inner) => budget >= 1 && within_from(inner, (budget - 1) as nat, 0),
        _ => true,
    }
}

/// The fields of `s` from index `i` on nest no more than `budget` levels.
pub open spec fn within_from(s: Seq<FieldModel>, budget: nat, i: int) -> bool
    decreases s, s.len() - i,
{
    if 0 <= i < s.len() {
        field_within(s[i], budget) && within_from(s, budget, i + 1)
    } else {
        true
    }
}

/// `within_from` states the bound of each field from `i` on.
proof fn lemma_within_from(s: Seq<FieldModel>, budget: nat, i: int)
    requires
        0 <= i,
    ensures
        within_from(s, budget, i) <==> forall|j: int| i <= j < s.len() ==> #[trigger] field_within(s[j], budget),
    decreases s.len() - i,
{
    if i < s.len() {
        lemma_within_from(s, budget, i + 1);
        if within_from(s, budget, i) {
            assert forall|j: int| i <= j < s.len() implies #[trigger] field_within(s[j], budget) by {
                if j > i {
                    assert(i + 1 <= j < s.len());
                }
            }
        }
        if forall|j: int| i <= j < s.len() ==> #[trigger] field_within(s[j], budget) {
            assert(field_within(s[i], budget));
            assert forall|j: int| i + 1 <= j < s.len() implies #[trigger] field_within(s[j], budget) by {
                assert(i <= j);
            }
        }
    }
}

proof fn lemma_prepend_within(f: FieldModel, rest: Seq<FieldModel>, budget: nat)
    requires
        field_within(f, budget),
        within_from(rest, budget, 0),
    ensures
        within_from(seq![f] + rest, budget, 0),
{
    let s = seq![f] + rest;
    lemma_within_from(rest, budget, 0);
    assert forall|i: int| 0 <= i < s.len() implies #[trigger] field_within(s[i], budget) by {
        if i > 0 {
            assert(s[i] == rest[i - 1]);
        }
    }
    lemma_within_from(s, budget, 0);
}

/// What `parse_fields` accepts at nesting `depth` nests no more than
/// `max_depth - depth` further levels.
proof fn lemma_parse_within(
    buf: Seq<u8>,
    pos: int,
    end: int,
    depth: nat,
    max_depth: nat,
    group: Option<(u64, usize)>,
)
    requires
        depth <= max_depth,
    ensures
        parse_fields(buf, pos, end, depth, max_depth, group) matches Ok((f, _)) ==> within_from(
            f,
            (max_depth - depth) as nat,
            0,
        ),
    decreases end - pos, 0int,
{
    if pos < end {
        lemma_varint_bounds(buf, pos, end);
        if let Ok((tag, p1)) = spec_varint(buf, pos, end) {
            let wire = (tag % 8) as u8;
            let number = tag / 8;
            if wire <= 5 && wire != 4 && number != 0 && number <= MAX_FIELD_NUMBER {
                lemma_value_within(buf, p1, end, wire, number, pos, depth, max_depth);
                if let Ok((v, p2)) = parse_value(buf, p1, end, wire, number, pos, depth, max_depth) {
                    if pos < p2 <= end {
                        lemma_parse_within(buf, p2, end, depth, max_depth, group);
                        if let Ok((rest, _)) = parse_fields(buf, p2, end, depth, max_depth, group) {
                            lemma_prepend_within(
                                FieldModel { number, wire_type: wire_of(wire as int), value: v },
                                rest,
                                (max_depth - depth) as nat,
                            );
                        }
                    }
                }
            }
        }
    }
}

proof fn lemma_value_within(
    buf: Seq<u8>,
    start: int,
    end: int,
    wire: u8,
    number: u64,
    tag_offset: int,
    depth: nat,
    max_depth: nat,
)
    requires
        depth <= max_depth,
    ensures
        parse_value(buf, start, end, wire, number, tag_offset, depth, max_depth) matches Ok((v, _))
            ==> field_within(
            FieldModel { number, wire_type: wire_of(wire as int), value: v },
            (max_depth - depth) as nat,
        ),
    decreases end - start, 1int,
{
    if wire == 2 {
        lemma_varint_bounds(buf, start, end);
        if let Ok((len, p)) = spec_varint(buf, start, end) {
            if len <= end - p {
                lemma_classify_within(buf, p, p + len, depth, max_depth);
            }
        }
    } else if wire != 0 && wire != 1 && wire != 5 && depth < max_depth {
        lemma_parse_within(buf, start, end, depth + 1, max_depth, Some((number, tag_offset as usize)));
    }
}

proof fn lemma_classify_within(buf: Seq<u8>, s: int, e: int, depth: nat, max_depth: nat)
    requires
        depth <= max_depth,
    ensures
        classify(buf, s, e, depth, max_depth) matches InterpModel::Message(inner) ==> depth < max_depth
            && within_from(inner, (max_depth - depth - 1) as nat, 0),
    decreases e - s, 2int,
{
    if depth < max_depth && s < e {
        lemma_parse_within(buf, s, e, depth + 1, max_depth, None);
    }
}

/// The decoded tree is never deeper than the depth limit: every top-level
/// field nests at most `max_depth` levels of groups and messages.
pub proof fn law_nesting_within_limit(bytes: Seq<u8>, max_depth: nat)
    ensures
        spec_decode(bytes, max_depth) matches Ok(fields) ==> forall|i: int|
            0 <= i < fields.len() ==> #[trigger] field_within(fields[i], max_depth),
{
    lemma_parse_within(bytes, 0, bytes.len() as int, 0, max_depth, None);
    if let Ok(fields) = spec_decode(bytes, max_depth) {
        lemma_within_from(fields, max_depth, 0);
    }
}

} // verus!

verus! {

/// A payload's interpretation inside a buffer, read at nesting `depth`, is
/// the one [`expected_interp`] gives its bytes with the nesting left.
pub proof fn lemma_classify_expected(buf: Seq<u8>, s: int, e: int, depth: nat, max_depth: nat)
    requires
        0 <= s <= e <= buf.len(),
        depth <= max_depth,
    ensures
        classify(buf, s, e, depth, max_depth) == expected_interp(
            buf.subrange(s, e),
            (max_depth - depth) as nat,
        ),
{
    let raw = buf.subrange(s, e);
    let n = raw.len() as int;
    let b = (max_depth - depth) as nat;
    assert(raw.subrange(0, n) =~= raw);
    lemma_classify_relocate(buf, s, e, depth, max_depth, raw, 0, n, 0, b);
    if b >= 1 {
        lemma_parse_relocate(raw, 0, n, 1, b, None, raw, 0, n, 0, (b - 1) as nat, None);
    }
}

/// A message-level read of a non-empty range that succeeds gives at least
/// one field.
proof fn lemma_parse_nonempty(buf: Seq<u8>, s: int, e: int, depth: nat, max_depth: nat)
    requires
        s < e,
    ensures
        parse_fields(buf, s, e, depth, max_depth, None) matches Ok((f, _)) ==> f.len() > 0,
{
}

/// Field `f`, found with `budget` levels of nesting left, has its payloads
/// read as [`expected_interp`] says, all the way down; a payload read as a
/// message holds at least one field.
pub open spec fn field_payloads_expected(f: FieldModel, budget: nat) -> bool
    decreases f, 0int,
{
    match f.value {
        ValueModel::Len(raw, interp) => interp == expected_interp(raw, budget) && match interp {
            InterpModel::Message(inner) => inner.len() > 0 && budget >= 1 && expected_from(
                inner,
                (budget - 1) as nat,
                0,
            ),
            _ => true,
        },
        ValueModel::Group(inner) => budget >= 1 && expected_from(inner, (budget - 1) as nat, 0),
        _ => true,
    }
}

/// The fields of `s` from index `i` on satisfy [`field_payloads_expected`].
pub open spec fn expected_from(s: Seq<FieldModel>, budget: nat, i: int) -> bool
    decreases s, s.len() - i,
{
    if 0 <= i < s.len() {
        field_payloads_expected(s[i], budget) && expected_from(s, budget, i + 1)
    } else {
        true
    }
}

proof fn lemma_expected_from(s: Seq<FieldModel>, budget: nat, i: int)
    requires
        0 <= i,
    ensures
        expected_from(s, budget, i) <==> forall|j: int| i <= j < s.len() ==> #[trigger] field_payloads_expected(s[j], budget),
    decreases s.len() - i,
{
    if i < s.len() {
        lemma_expected_from(s, budget, i + 1);
        if expected_from(s, budget, i) {
            assert forall|j: int| i <= j < s.len() implies #[trigger] field_payloads_expected(s[j], budget) by {
                if j > i {
                    assert(i + 1 <= j < s.len());
                }
            }
        }
        if forall|j: int| i <= j < s.len() ==> #[trigger] field_payloads_expected(s[j], budget) {
            assert(field_payloads_expected(s[i], budget));
            assert forall|j: int| i + 1 <= j < s.len() implies #[trigger] field_payloads_expected(s[j], budget) by {
                assert(i <= j);
            }
        }
    }
}

proof fn lemma_prepend_expected(f: FieldModel, rest: Seq<FieldModel>, budget: nat)
    requires
        field_payloads_expected(f, budget),
        expected_from(rest, budget, 0),
    ensures
        expected_from(seq![f] + rest, budget, 0),
{
    let s = seq![f] + rest;
    lemma_expected_from(rest, budget, 0);
    assert forall|i: int| 0 <= i < s.len() implies #[trigger] field_payloads_expected(s[i], budget) by {
        if i > 0 {
            assert(s[i] == rest[i - 1]);
        }
    }
    lemma_expected_from(s, budget, 0);
}

proof fn lemma_parse_expected(
    buf: Seq<u8>,
    pos: int,
    end: int,
    depth: nat,
    max_depth: nat,
    group: Option<(u64, usize)>,
)
    requires
        0 <= pos <= end <= buf.len(),
        depth <= max_depth,
    ensures
        parse_fields(buf, pos, end, depth, max_depth, group) matches Ok((f, _)) ==> expected_from(
            f,
            (max_depth - depth) as nat,
            0,
        ),
    decreases end - pos, 0int,
{
    if pos < end {
        lemma_varint_bounds(buf, pos, end);
        if let Ok((tag, p1)) = spec_varint(buf, pos, end) {
            let wire = (tag % 8) as u8;
            let number = tag / 8;
            if wire <= 5 && wire != 4 && number != 0 && number <= MAX_FIELD_NUMBER {
                lemma_value_expected(buf, p1, end, wire, number, pos, depth, max_depth);
                if let Ok((v, p2)) = parse_value(buf, p1, end, wire, number, pos, depth, max_depth) {
                    if pos < p2 <= end {
                        lemma_parse_expected(buf, p2, end, depth, max_depth, group);
                        if let Ok((rest, _)) = parse_fields(buf, p2, end, depth, max_depth, group) {
                            lemma_prepend_expected(
                                FieldModel { number, wire_type: wire_of(wire as int), value: v },
                                rest,
                                (max_depth - depth) as nat,
                            );
                        }
                    }
                }
            }
        }
    }
}

proof fn lemma_value_expected(
    buf: Seq<u8>,
    start: int,
    end: int,
    wire: u8,
    number: u64,
    tag_offset: int,
    depth: nat,
    max_depth: nat,
)
    requires
        0 <= start <= end <= buf.len(),
        depth <= max_depth,
    ensures
        parse_value(buf, start, end, wire, number, tag_offset, depth, max_depth) matches Ok((v, _))
            ==> field_payloads_expected(
            FieldModel { number, wire_type: wire_of(wire as int), value: v },
            (max_depth - depth) as nat,
        ),
    decreases end - start, 1int,
{
    if wire == 2 {
        lemma_varint_bounds(buf, start, end);
        if let Ok((len, p)) = spec_varint(buf, start, end) {
            if len <= end - p {
                lemma_classify_expected(buf, p, p + len, depth, max_depth);
                lemma_classify_expected_tree(buf, p, p + len, depth, max_depth);
            }
        }
    } else if wire != 0 && wire != 1 && wire != 5 && depth < max_depth {
        lemma_parse_expected(buf, start, end, depth + 1, max_depth, Some((number, tag_offset as usize)));
    }
}

proof fn lemma_classify_expected_tree(buf: Seq<u8>, s: int, e: int, depth: nat, max_depth: nat)
    requires
        0 <= s <= e <= buf.len(),
        depth <= max_depth,
    ensures
        classify(buf, s, e, depth, max_depth) matches InterpModel::Message(inner) ==> inner.len() > 0
            && depth < max_depth && expected_from(inner, (max_depth - depth - 1) as nat, 0),
    decreases e - s, 2int,
{
    if depth < max_depth && s < e {
        lemma_parse_nonempty(buf, s, e, depth + 1, max_depth);
        lemma_parse_expected(buf, s, e, depth + 1, max_depth, None);
    }
}

/// Message-first inference holds at every level of the decoded tree: each
/// length-delimited field, however deeply nested, is interpreted as
/// [`expected_interp`] says of its raw bytes with the nesting left at its
/// level, and a payload read as a message is never an empty message.
pub proof fn law_payloads_expected_at_every_level(bytes: Seq<u8>, max_depth: nat)
    ensures
        spec_decode(bytes, max_depth) matches Ok(fields) ==> forall|i: int|
            0 <= i < fields.len() ==> #[trigger] field_payloads_expected(fields[i], max_depth),
{
    lemma_parse_expected(bytes, 0, bytes.len() as int, 0, max_depth, None);
    if let Ok(fields) = spec_decode(bytes, max_depth) {
        lemma_expected_from(fields, max_depth, 0);
    }
}

/// A buffer holding exactly one well-framed length-delimited field (a tag
/// for field `tag / 8` with wire type 2, a length varint, then exactly that
/// many bytes) decodes to that one field, whatever the payload holds: a
/// payload that fails to parse is read as text or bytes, and its errors never
/// surface.
pub proof fn law_single_len_field(bytes: Seq<u8>, max_depth: nat, tag: u64, p1: int, len: u64, p2: int)
    requires
        spec_varint(bytes, 0, bytes.len() as int) == Ok::<(u64, int), Error>((tag, p1)),
        tag % 8 == 2,
        1 <= tag / 8 <= MAX_FIELD_NUMBER,
        spec_varint(bytes, p1, bytes.len() as int) == Ok::<(u64, int), Error>((len, p2)),
        p2 + len == bytes.len(),
    ensures
        spec_decode(bytes, max_depth) == Ok::<Seq<FieldModel>, Error>(
            seq![
                FieldModel {
                    number: tag / 8,
                    wire_type: WireType::Len,
                    value: ValueModel::Len(
                        bytes.subrange(p2, bytes.len() as int),
                        expected_interp(bytes.subrange(p2, bytes.len() as int), max_depth),
                    ),
                },
            ],
        ),
{
    let n = bytes.len() as int;
    lemma_varint_bounds(bytes, 0, n);
    lemma_varint_bounds(bytes, p1, n);
    lemma_classify_expected(bytes, p2, n, 0, max_depth);
    let v = ValueModel::Len(bytes.subrange(p2, n), classify(bytes, p2, n, 0, max_depth));
    assert(parse_value(bytes, p1, n, 2, tag / 8, 0, 0, max_depth) == Ok::<(ValueModel, int), Error>((v, n)));
    assert(parse_fields(bytes, n, n, 0, max_depth, None) == Ok::<(Seq<FieldModel>, int), Error>((Seq::empty(), n)));
    let field = FieldModel { number: tag / 8, wire_type: wire_of(2), value: v };
    assert(seq![field] + Seq::<FieldModel>::empty() =~= seq![field]);
}

} // verus!

verus! {

/// A failed varint read reports the offset where the varint began.
proof fn lemma_varint_error_offset(buf: Seq<u8>, start: int, end: int, k: nat, acc: u64)
    ensures
        varint_from(buf, start, end, k, acc) matches Err(e) ==> error_offset(e) == start as usize,
    decreases 10 - k,
{
    if k < 10 && start + k < end && buf[start + k] >= 0x80 {
        let b = buf[start + k];
        lemma_varint_error_offset(buf, start, end, k + 1, acc | (((b & 0x7f) as u64) << ((7 * k) as u64)));
    }
}

/// Errors from reading fields in `buf[pos..end]` name an offset no later
/// than `end`.
proof fn lemma_parse_error_offset(
    buf: Seq<u8>,
    pos: int,
    end: int,
    depth: nat,
    max_depth: nat,
    group: Option<(u64, usize)>,
)
    requires
        0 <= pos <= end <= buf.len() <= usize::MAX,
        group matches Some((_, o)) ==> o <= end,
    ensures
        parse_fields(buf, pos, end, depth, max_depth, group) matches Err(e) ==> error_offset(e) <= end,
    decreases end - pos, 0int,
{
    if pos < end {
        lemma_varint_bounds(buf, pos, end);
        lemma_varint_error_offset(buf, pos, end, 0, 0);
        if let Ok((tag, p1)) = spec_varint(buf, pos, end) {
            let wire = (tag % 8) as u8;
            let number = tag / 8;
            if wire <= 5 && wire != 4 && number != 0 && number <= MAX_FIELD_NUMBER {
                lemma_value_error_offset(buf, p1, end, wire, number, pos, depth, max_depth);
                if let Ok((v, p2)) = parse_value(buf, p1, end, wire, number, pos, depth, max_depth) {
                    if pos < p2 <= end {
                        lemma_parse_error_offset(buf, p2, end, depth, max_depth, group);
                    }
                }
            }
        }
    }
}

proof fn lemma_value_error_offset(
    buf: Seq<u8>,
    start: int,
    end: int,
    wire: u8,
    number: u64,
    tag_offset: int,
    depth: nat,
    max_depth: nat,
)
    requires
        0 <= tag_offset < start <= end <= buf.len() <= usize::MAX,
    ensures
        parse_value(buf, start, end, wire, number, tag_offset, depth, max_depth) matches Err(e)
            ==> error_offset(e) <= end,
    decreases end - start, 1int,
{
    lemma_varint_error_offset(buf, start, end, 0, 0);
    if wire != 0 && wire != 1 && wire != 5 && wire != 2 && depth < max_depth {
        lemma_parse_error_offset(buf, start, end, depth + 1, max_depth, Some((number, tag_offset as usize)));
    }
}

/// Every decode error carries an offset inside the input (at most its
/// length: a read that runs off the end names the end).
pub proof fn law_error_offset_in_input(bytes: Seq<u8>, max_depth: nat)
    requires
        bytes.len() <= usize::MAX,
    ensures
        spec_decode(bytes, max_depth) matches Err(e) ==> error_offset(e) <= bytes.len(),
{
    lemma_parse_error_offset(bytes, 0, bytes.len() as int, 0, max_depth, None);
}

} // verus!

verus! {

/// The shape of one analysed field: it is addressed by `prefix.number` (the
/// bare number at the top level), keeps its number and wire type, carries no
/// timestamp readings, keeps its scalar, text or bytes value, and its
/// children (of a group or of a payload read as a message) are the analyses
/// of the nested fields, each addressed under the field's own path.
pub proof fn law_analyzed_field_shape(f: FieldModel, prefix: Seq<char>)
    ensures
        analyze_field(f, prefix).path == child_path(prefix, f.number),
        analyze_field(f, prefix).number == f.number,
        analyze_field(f, prefix).wire_type == f.wire_type,
        analyze_field(f, prefix).timestamps.len() == 0,
        f.value matches ValueModel::Varint(v) ==> analyze_field(f, prefix).value
            == AnalyzedValueModel::Varint(v),
        f.value matches ValueModel::I64(v) ==> analyze_field(f, prefix).value
            == AnalyzedValueModel::Fixed64(v),
        f.value matches ValueModel::I32(v) ==> analyze_field(f, prefix).value
            == AnalyzedValueModel::Fixed32(v),
        f.value matches ValueModel::Len(_, InterpModel::Text(t)) ==> analyze_field(f, prefix).value
            == AnalyzedValueModel::Text(t),
        f.value matches ValueModel::Len(raw, InterpModel::Bytes) ==> analyze_field(f, prefix).value
            == AnalyzedValueModel::Bytes(raw),
        f.value matches ValueModel::Group(inner) ==> analyze_field(f, prefix).value
            == AnalyzedValueModel::Group(analyze_all(inner, child_path(prefix, f.number))),
        f.value matches ValueModel::Len(_, InterpModel::Message(inner)) ==> analyze_field(
            f,
            prefix,
        ).value == AnalyzedValueModel::Message(analyze_all(inner, child_path(prefix, f.number))),
{
}

} // verus!

verus! {

/// A payload found at the depth limit is not interpreted further: it is
/// kept as opaque bytes, however it would otherwise read.
pub proof fn law_payload_at_limit_is_bytes(buf: Seq<u8>, s: int, e: int, depth: nat, max_depth: nat)
    requires
        depth >= max_depth,
    ensures
        classify(buf, s, e, depth, max_depth) == InterpModel::Bytes,
{
}

} // verus!
