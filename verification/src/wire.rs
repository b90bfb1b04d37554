//! Wire types and the decoded field tree.

use vstd::prelude::*;
use crate::error::Error;

verus! {

/// The six protobuf wire types: the 3-bit value packed into the low bits of a
/// tag. Values 6 and 7 are undefined.
#[derive(Debug, Clone, Copy, PartialEq, Eq, Structural)]
pub enum WireType {
    /// `0`: base-128 varint.
    Varint,
    /// `1`: fixed 8 bytes, little-endian.
    I64,
    /// `2`: length-delimited.
    Len,
    /// `3`: group start (deprecated).
    StartGroup,
    /// `4`: group end (deprecated).
    EndGroup,
    /// `5`: fixed 4 bytes, little-endian.
    I32,
}

/// The raw 3-bit value of a wire type.
pub open spec fn wire_value(w: WireType) -> u8 {
    match w {
        WireType::Varint => 0,
        WireType::I64 => 1,
        WireType::Len => 2,
        WireType::StartGroup => 3,
        WireType::EndGroup => 4,
        WireType::I32 => 5,
    }
}

/// The wire type whose raw value is `v`, for `v <= 5`.
pub open spec fn wire_of(v: int) -> WireType
    recommends
        0 <= v <= 5,
{
    if v == 0 {
        WireType::Varint
    } else if v == 1 {
        WireType::I64
    } else if v == 2 {
        WireType::Len
    } else if v == 3 {
        WireType::StartGroup
    } else if v == 4 {
        WireType::EndGroup
    } else {
        WireType::I32
    }
}

impl WireType {
    /// The raw 3-bit wire-type value.
    pub fn as_u8(self) -> (r: u8)
        ensures
            r == wire_value(self),
            r <= 5,
    {
        match self {
            WireType::Varint => 0,
            WireType::I64 => 1,
            WireType::Len => 2,
            WireType::StartGroup => 3,
            WireType::EndGroup => 4,
            WireType::I32 => 5,
        }
    }
}

} // verus!

verus! {

/// The largest valid field number, 2^29 - 1.
pub const MAX_FIELD_NUMBER: u64 = 536_870_911;

/// The default maximum nesting depth (submessages + groups). Past it a group
/// is refused with `DepthLimitExceeded`, and a length-delimited payload is not
/// treated as a message: it degrades to `LenInterp::Bytes` rather than
/// recursing without bound.
pub const DEFAULT_MAX_DEPTH: usize = 100;

impl WireType {
    /// Map a raw 3-bit wire-type value to a [`WireType`]; `6`/`7` (and any
    /// larger value) are undefined and rejected with the given offset.
    pub fn from_u8(value: u8, offset: usize) -> (r: Result<Self, Error>)
        ensures
            value <= 5 ==> r == Ok::<WireType, Error>(wire_of(value as int)),
            value > 5 ==> r == Err::<WireType, Error>(Error::InvalidWireType { value, offset }),
    {
        match value {
            0 => Ok(WireType::Varint),
            1 => Ok(WireType::I64),
            2 => Ok(WireType::Len),
            3 => Ok(WireType::StartGroup),
            4 => Ok(WireType::EndGroup),
            5 => Ok(WireType::I32),
            other => Err(Error::InvalidWireType { value: other, offset }),
        }
    }
}

/// One decoded record: a field number, its wire type, and the decoded value.
#[derive(Debug, PartialEq)]
pub struct Field {
    /// The field number (`tag >> 3`); always in `1..=536_870_911`.
    pub number: u64,
    /// The wire type carried by the tag.
    pub wire_type: WireType,
    /// The decoded value.
    pub value: FieldValue,
}

/// A decoded field value, keyed by wire type.
#[derive(Debug, PartialEq)]
pub enum FieldValue {
    /// A base-128 varint, stored as the raw unsigned 64-bit value.
    Varint(u64),
    /// A fixed 8-byte little-endian value, as raw `u64` bits.
    I64(u64),
    /// A fixed 4-byte little-endian value, as raw `u32` bits.
    I32(u32),
    /// A length-delimited payload plus its inferred interpretation.
    Len(LenValue),
    /// A deprecated group, decoded as its sequence of inner fields.
    Group(Vec<Field>),
}

/// A length-delimited field: the raw payload bytes plus the inferred
/// interpretation.
#[derive(Debug, PartialEq)]
pub struct LenValue {
    /// The raw payload bytes (length prefix already stripped).
    pub raw: Vec<u8>,
    /// The inferred interpretation.
    pub interp: LenInterp,
}

/// The inferred interpretation of a length-delimited payload: a non-empty
/// payload that parses cleanly as a message is a `Message`; otherwise valid,
/// printable UTF-8 is `Text`; otherwise it is opaque `Bytes`. A payload found
/// at the depth limit is `Bytes`.
#[derive(Debug, PartialEq)]
pub enum LenInterp {
    /// The payload decoded cleanly as a nested message.
    Message(Vec<Field>),
    /// The payload is valid, printable UTF-8.
    Text(String),
    /// The payload is opaque bytes.
    Bytes,
}

/// Decoder limits that bound resource use on hostile input.
#[derive(Debug, Clone, Copy, PartialEq, Eq, Structural)]
pub struct Limits {
    /// Maximum nesting depth for submessages and groups.
    pub max_depth: usize,
}

impl Default for Limits {
    fn default() -> (r: Self)
        ensures
            r.max_depth == DEFAULT_MAX_DEPTH,
    {
        Limits { max_depth: DEFAULT_MAX_DEPTH }
    }
}

/// Mathematical model of a decoded field.
pub struct FieldModel {
    pub number: u64,
    pub wire_type: WireType,
    pub value: ValueModel,
}

/// Mathematical model of a decoded value.
pub enum ValueModel {
    Varint(u64),
    I64(u64),
    I32(u32),
    /// The raw payload and its interpretation.
    Len(Seq<u8>, InterpModel),
    Group(Seq<FieldModel>),
}

/// Mathematical model of a payload interpretation.
pub enum InterpModel {
    Message(Seq<FieldModel>),
    Text(Seq<char>),
    Bytes,
}

impl Field {
    pub open spec fn model(self) -> FieldModel
        decreases self,
    {
        FieldModel { number: self.number, wire_type: self.wire_type, value: self.value.model() }
    }
}

impl FieldValue {
    pub open spec fn model(self) -> ValueModel
        decreases self,
    {
        match self {
            FieldValue::Varint(v) => ValueModel::Varint(v),
            FieldValue::I64(v) => ValueModel::I64(v),
            FieldValue::I32(v) => ValueModel::I32(v),
            FieldValue::Len(l) => ValueModel::Len(l.raw@, l.interp.model()),
            FieldValue::Group(v) => ValueModel::Group(fields_model(v@)),
        }
    }
}

impl LenInterp {
    pub open spec fn model(self) -> InterpModel
        decreases self,
    {
        match self {
            LenInterp::Message(v) => InterpModel::Message(fields_model(v@)),
            LenInterp::Text(s) => InterpModel::Text(s@),
            LenInterp::Bytes => InterpModel::Bytes,
        }
    }
}

/// The model of a sequence of fields, element by element.
pub open spec fn fields_model(s: Seq<Field>) -> Seq<FieldModel>
    decreases s,
{
    if s.len() == 0 {
        Seq::empty()
    } else {
        fields_model(s.drop_last()).push(s.last().model())
    }
}

} // verus!

verus! {

/// The signed value that ZigZag encoding maps to `n`: even `n` encode the
/// non-negative `n / 2`, odd `n` the negative `-(n + 1) / 2`.
pub open spec fn spec_zigzag(n: u64) -> int {
    if n % 2 == 0 {
        n as int / 2
    } else {
        -(n as int / 2) - 1
    }
}

/// Decode ZigZag-encoded `sint32`/`sint64` back to a signed value:
/// `0 -> 0`, `1 -> -1`, `2 -> 1`, `3 -> -2`, ...
pub fn zigzag_decode(n: u64) -> (r: i64)
    ensures
        r as int == spec_zigzag(n),
{
    let half = (n / 2) as i64;
    if n % 2 == 0 {
        half
    } else {
        -half - 1
    }
}

} // verus!

verus! {

/// The model of a sequence of fields has one element per field, each the
/// model of that field.
pub proof fn lemma_fields_model_index(s: Seq<Field>)
    ensures
        fields_model(s).len() == s.len(),
        forall|i: int| 0 <= i < s.len() ==> #[trigger] fields_model(s)[i] == s[i].model(),
    decreases s.len(),
{
    if s.len() > 0 {
        lemma_fields_model_index(s.drop_last());
    }
}

} // verus!

verus! {

/// A copy of a field, equal to it in every part.
fn copy_field(f: &Field) -> (r: Field)
    ensures
        r.model() == f.model(),
    decreases *f, 2int,
{
    Field { number: f.number, wire_type: f.wire_type, value: copy_value(&f.value) }
}

/// A copy of a value, equal to it in every part.
fn copy_value(v: &FieldValue) -> (r: FieldValue)
    ensures
        r.model() == v.model(),
    decreases *v, 1int,
{
    match v {
        FieldValue::Varint(x) => FieldValue::Varint(*x),
        FieldValue::I64(x) => FieldValue::I64(*x),
        FieldValue::I32(x) => FieldValue::I32(*x),
        FieldValue::Len(l) => FieldValue::Len(copy_len(l)),
        FieldValue::Group(inner) => FieldValue::Group(copy_fields(inner.as_slice())),
    }
}

/// A copy of a length-delimited value, equal to it in every part.
fn copy_len(l: &LenValue) -> (r: LenValue)
    ensures
        r.raw@ == l.raw@,
        r.interp.model() == l.interp.model(),
    decreases *l, 1int,
{
    LenValue { raw: vstd::slice::slice_to_vec(l.raw.as_slice()), interp: copy_interp(&l.interp) }
}

/// A copy of an interpretation, equal to it in every part.
fn copy_interp(i: &LenInterp) -> (r: LenInterp)
    ensures
        r.model() == i.model(),
    decreases *i, 1int,
{
    match i {
        LenInterp::Message(inner) => LenInterp::Message(copy_fields(inner.as_slice())),
        LenInterp::Text(s) => LenInterp::Text(s.clone()),
        LenInterp::Bytes => LenInterp::Bytes,
    }
}

/// Copies of a sequence of fields, element by element.
fn copy_fields(fs: &[Field]) -> (r: Vec<Field>)
    ensures
        fields_model(r@) == fields_model(fs@),
    decreases fs@, 0int,
{
    let mut out: Vec<Field> = Vec::new();
    let n = fs.len();
    for i in 0..n
        invariant
            n == fs@.len(),
            out@.len() == i,
            forall|k: int| 0 <= k < i ==> #[trigger] out@[k].model() == fs@[k].model(),
    {
        out.push(copy_field(&fs[i]));
    }
    proof {
        lemma_fields_model_index(out@);
        lemma_fields_model_index(fs@);
        assert(fields_model(out@) =~= fields_model(fs@));
    }
    out
}

impl Clone for Field {
    fn clone(&self) -> (r: Self)
        ensures
            r.model() == self.model(),
    {
        copy_field(self)
    }
}

impl Clone for FieldValue {
    fn clone(&self) -> (r: Self)
        ensures
            r.model() == self.model(),
    {
        copy_value(self)
    }
}

impl Clone for LenValue {
    fn clone(&self) -> (r: Self)
        ensures
            r.raw@ == self.raw@,
            r.interp.model() == self.interp.model(),
    {
        copy_len(self)
    }
}

impl Clone for LenInterp {
    fn clone(&self) -> (r: Self)
        ensures
            r.model() == self.model(),
    {
        copy_interp(self)
    }
}

} // verus!
