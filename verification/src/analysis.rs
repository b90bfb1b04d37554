//! The forensic analysis layer: a path-addressed tree of classified fields,
//! with ambiguity scoring for length-delimited payloads.
//!
//! The decoder picks one message-first reading of each payload; here each
//! length-delimited field also carries a [`Confidence`] and notes naming the
//! other plausible readings (a message that is also printable text; opaque
//! bytes that also read as a packed repeated field). The scores are
//! documented heuristics, not certainties.

use vstd::prelude::*;
use vstd::string::StringExecFns;
use vstd::utf8::decode_utf8;
use crate::error::Error;
use crate::timestamps::TimeSource;
use crate::packed::{spec_packed_i32, spec_packed_i64, spec_packed_varints};
use crate::reader::{decode_with_limits, spec_decode};
use crate::strings::{decimal, decimal_string, push_decimal, push_str};
use crate::text::{is_printable_utf8, printable_utf8};
use crate::wire::{
    fields_model, lemma_fields_model_index, Field, FieldModel, FieldValue, InterpModel, LenInterp,
    LenValue, Limits, ValueModel, WireType, DEFAULT_MAX_DEPTH,
};

verus! {

/// Confidence in a field's reading (the documented heuristics, in percent).
#[derive(Clone, Copy, Debug, PartialEq, Eq, Structural)]
pub enum Confidence {
    /// An unambiguous scalar or group: 100%.
    Certain,
    /// A payload that parses cleanly as a message and is not also printable
    /// text: 90%.
    Message,
    /// A payload that parses as a message and is also printable text: 55%.
    MessageAmbiguous,
    /// A payload that is not a message but is printable text: 90%.
    Text,
    /// A payload that is neither a message nor printable text: 60%.
    Bytes,
    /// Opaque bytes that also read as a packed repeated field: 50%.
    BytesPackable,
}

/// The confidence, in percent.
pub open spec fn confidence_percent(c: Confidence) -> u8 {
    match c {
        Confidence::Certain => 100,
        Confidence::Message => 90,
        Confidence::MessageAmbiguous => 55,
        Confidence::Text => 90,
        Confidence::Bytes => 60,
        Confidence::BytesPackable => 50,
    }
}

impl Confidence {
    /// The confidence, in percent.
    pub fn percent(self) -> (r: u8)
        ensures
            r == confidence_percent(self),
    {
        match self {
            Confidence::Certain => 100,
            Confidence::Message => 90,
            Confidence::MessageAmbiguous => 55,
            Confidence::Text => 90,
            Confidence::Bytes => 60,
            Confidence::BytesPackable => 50,
        }
    }
}

/// The result of analysing a protobuf blob: its top-level fields.
#[derive(Debug, PartialEq)]
pub struct Analysis {
    /// The top-level fields, in wire order.
    pub fields: Vec<AnalyzedField>,
}

/// One field enriched with forensic classification.
#[derive(Debug, PartialEq)]
pub struct AnalyzedField {
    /// Dotted path from the root (e.g. `"3.1"` for field 1 of the submessage
    /// in top-level field 3).
    pub path: String,
    /// The field number.
    pub number: u64,
    /// The wire type carried by the tag.
    pub wire_type: WireType,
    /// The classified value.
    pub value: AnalyzedValue,
    /// Confidence in the value's interpretation.
    pub confidence: Confidence,
    /// Human-readable notes: alternative interpretations and ambiguity flags.
    pub notes: Vec<String>,
    /// Timestamp readings consistent with this field's numeric value. The
    /// analysis leaves this empty: finding the readings takes floating point,
    /// and the caller attaches them.
    pub timestamps: Vec<TimestampReading>,
}

/// One timestamp reading consistent with a field's numeric value: a
/// candidate, never a confirmed time.
#[derive(Debug, PartialEq)]
pub struct TimestampReading {
    /// Which numeric view produced this reading.
    pub source: TimeSource,
    /// Format id (e.g. `"unix"`).
    pub format_id: String,
    /// Human-readable format label.
    pub label: String,
    /// The RFC 3339 rendering of the decoded instant (UTC).
    pub rendered: String,
    /// The plausibility score as a whole-number percentage.
    pub confidence_pct: u8,
    /// Spec citation for the assumed format.
    pub citation: String,
}

/// Mathematical model of a timestamp reading.
pub struct TimestampModel {
    pub source: TimeSource,
    pub format_id: Seq<char>,
    pub label: Seq<char>,
    pub rendered: Seq<char>,
    pub confidence_pct: u8,
    pub citation: Seq<char>,
}

impl TimestampReading {
    pub open spec fn model(self) -> TimestampModel {
        TimestampModel {
            source: self.source,
            format_id: self.format_id@,
            label: self.label@,
            rendered: self.rendered@,
            confidence_pct: self.confidence_pct,
            citation: self.citation@,
        }
    }
}

/// The models of timestamp readings.
pub open spec fn readings_model(s: Seq<TimestampReading>) -> Seq<TimestampModel> {
    s.map_values(|t: TimestampReading| t.model())
}

/// A classified field value.
#[derive(Debug, PartialEq)]
pub enum AnalyzedValue {
    /// A varint (raw unsigned value).
    Varint(u64),
    /// A fixed 8-byte value (raw bits).
    Fixed64(u64),
    /// A fixed 4-byte value (raw bits).
    Fixed32(u32),
    /// A length-delimited payload that resolved to a nested message.
    Message(Vec<AnalyzedField>),
    /// A deprecated group.
    Group(Vec<AnalyzedField>),
    /// A length-delimited payload that resolved to printable UTF-8 text.
    Text(String),
    /// A length-delimited payload left as opaque bytes.
    Bytes(Vec<u8>),
}

/// Mathematical model of an analysed field.
pub struct AnalyzedModel {
    pub path: Seq<char>,
    pub number: u64,
    pub wire_type: WireType,
    pub value: AnalyzedValueModel,
    pub confidence: Confidence,
    pub notes: Seq<Seq<char>>,
    pub timestamps: Seq<TimestampModel>,
}

/// Mathematical model of a classified value.
pub enum AnalyzedValueModel {
    Varint(u64),
    Fixed64(u64),
    Fixed32(u32),
    Message(Seq<AnalyzedModel>),
    Group(Seq<AnalyzedModel>),
    Text(Seq<char>),
    Bytes(Seq<u8>),
}

/// The characters of each string.
pub open spec fn strings_model(s: Seq<String>) -> Seq<Seq<char>> {
    s.map_values(|t: String| t@)
}

impl AnalyzedField {
    pub open spec fn model(self) -> AnalyzedModel
        decreases self,
    {
        AnalyzedModel {
            path: self.path@,
            number: self.number,
            wire_type: self.wire_type,
            value: self.value.model(),
            confidence: self.confidence,
            notes: strings_model(self.notes@),
            timestamps: readings_model(self.timestamps@),
        }
    }
}

impl AnalyzedValue {
    pub open spec fn model(self) -> AnalyzedValueModel
        decreases self,
    {
        match self {
            AnalyzedValue::Varint(v) => AnalyzedValueModel::Varint(v),
            AnalyzedValue::Fixed64(v) => AnalyzedValueModel::Fixed64(v),
            AnalyzedValue::Fixed32(v) => AnalyzedValueModel::Fixed32(v),
            AnalyzedValue::Message(v) => AnalyzedValueModel::Message(analyzed_models(v@)),
            AnalyzedValue::Group(v) => AnalyzedValueModel::Group(analyzed_models(v@)),
            AnalyzedValue::Text(s) => AnalyzedValueModel::Text(s@),
            AnalyzedValue::Bytes(b) => AnalyzedValueModel::Bytes(b@),
        }
    }
}

/// The models of a sequence of analysed fields, element by element.
pub open spec fn analyzed_models(s: Seq<AnalyzedField>) -> Seq<AnalyzedModel>
    decreases s,
{
    if s.len() == 0 {
        Seq::empty()
    } else {
        analyzed_models(s.drop_last()).push(s.last().model())
    }
}

pub proof fn lemma_analyzed_models_index(s: Seq<AnalyzedField>)
    ensures
        analyzed_models(s).len() == s.len(),
        forall|i: int| 0 <= i < s.len() ==> #[trigger] analyzed_models(s)[i] == s[i].model(),
    decreases s.len(),
{
    if s.len() > 0 {
        lemma_analyzed_models_index(s.drop_last());
    }
}

/// The dotted path of field `number` under `prefix` (the bare number at the
/// top level).
pub open spec fn child_path(prefix: Seq<char>, number: u64) -> Seq<char> {
    if prefix.len() == 0 {
        decimal(number as nat)
    } else {
        prefix + "."@ + decimal(number as nat)
    }
}

/// Rust's `Debug` rendering of a string: quoted, with escapes.
pub uninterp spec fn debug_text(s: Seq<char>) -> Seq<char>;

/// The note for a message payload that is also printable text.
pub open spec fn text_note(text: Seq<char>) -> Seq<char> {
    "payload also decodes as UTF-8 text: "@ + debug_text(text)
}

/// The comma-separated decimal numerals of `vs`.
pub open spec fn list_body(vs: Seq<u64>) -> Seq<char>
    decreases vs.len(),
{
    if vs.len() == 0 {
        Seq::empty()
    } else if vs.len() == 1 {
        decimal(vs[0] as nat)
    } else {
        list_body(vs.drop_last()) + ", "@ + decimal(vs.last() as nat)
    }
}

/// `[v1, v2, ...]`, as Rust's `Debug` renders a list of integers.
pub open spec fn debug_list(vs: Seq<u64>) -> Seq<char> {
    "["@ + list_body(vs) + "]"@
}

/// The note for bytes that also read as packed varints.
pub open spec fn varint_note(vs: Seq<u64>) -> Seq<char> {
    "payload also decodes as "@ + decimal(vs.len()) + " packed varint(s): "@ + debug_list(vs)
}

/// The note for bytes that also read as `count` packed fixed-width values.
pub open spec fn fixed_note(count: nat, kind: Seq<char>) -> Seq<char> {
    "payload also decodes as "@ + decimal(count) + " packed "@ + kind + " value(s)"@
}

/// The notes for opaque bytes: one per packed repeated reading they admit
/// (varints, then fixed32, then fixed64).
pub open spec fn packed_notes(raw: Seq<u8>) -> Seq<Seq<char>> {
    (match spec_packed_varints(raw) {
        Some(vs) => seq![varint_note(vs)],
        None => Seq::empty(),
    }) + (match spec_packed_i32(raw) {
        Some(vs) => seq![fixed_note(vs.len(), "fixed32"@)],
        None => Seq::empty(),
    }) + (match spec_packed_i64(raw) {
        Some(vs) => seq![fixed_note(vs.len(), "fixed64"@)],
        None => Seq::empty(),
    })
}

/// The classification of a length-delimited field at `path`: its value, the
/// confidence in it, and notes naming the other plausible readings.
pub open spec fn analyze_len(raw: Seq<u8>, interp: InterpModel, path: Seq<char>) -> (
    AnalyzedValueModel,
    Confidence,
    Seq<Seq<char>>,
)
    decreases interp, 0int,
{
    match interp {
        InterpModel::Message(inner) => if is_printable_utf8(raw) {
            (
                AnalyzedValueModel::Message(analyze_all(inner, path)),
                Confidence::MessageAmbiguous,
                seq![text_note(decode_utf8(raw))],
            )
        } else {
            (AnalyzedValueModel::Message(analyze_all(inner, path)), Confidence::Message, Seq::empty())
        },
        InterpModel::Text(t) => (AnalyzedValueModel::Text(t), Confidence::Text, Seq::empty()),
        InterpModel::Bytes => (
            AnalyzedValueModel::Bytes(raw),
            if packed_notes(raw).len() > 0 {
                Confidence::BytesPackable
            } else {
                Confidence::Bytes
            },
            packed_notes(raw),
        ),
    }
}

/// The analysis of field `f` under `prefix`.
pub open spec fn analyze_field(f: FieldModel, prefix: Seq<char>) -> AnalyzedModel
    decreases f, 1int,
{
    let path = child_path(prefix, f.number);
    let (value, confidence, notes) = match f.value {
        ValueModel::Varint(v) => (AnalyzedValueModel::Varint(v), Confidence::Certain, Seq::empty()),
        ValueModel::I64(v) => (AnalyzedValueModel::Fixed64(v), Confidence::Certain, Seq::empty()),
        ValueModel::I32(v) => (AnalyzedValueModel::Fixed32(v), Confidence::Certain, Seq::empty()),
        ValueModel::Group(inner) => (
            AnalyzedValueModel::Group(analyze_all(inner, path)),
            Confidence::Certain,
            Seq::empty(),
        ),
        ValueModel::Len(raw, interp) => analyze_len(raw, interp, path),
    };
    AnalyzedModel {
        path,
        number: f.number,
        wire_type: f.wire_type,
        value,
        confidence,
        notes,
        timestamps: Seq::empty(),
    }
}

/// The analysis of a sibling list of fields under `prefix`.
pub open spec fn analyze_all(fs: Seq<FieldModel>, prefix: Seq<char>) -> Seq<AnalyzedModel>
    decreases fs, 2int,
{
    if fs.len() == 0 {
        Seq::empty()
    } else {
        analyze_all(fs.drop_last(), prefix).push(analyze_field(fs.last(), prefix))
    }
}

} // verus!

verus! {

/// `format!("{:?}", s)`: Rust's `Debug` rendering of a string (quoted, with
/// escapes), named [`debug_text`]; what the escapes are is left to std.
#[verifier::external_body]
pub(crate) fn debug_quoted(s: &str) -> (r: String)
    ensures
        r@ == debug_text(s@),
{
    format!("{:?}", s)
}

/// The note for a message payload that is also printable text, given the
/// text's quoted rendering `quoted`.
pub fn text_note_string(quoted: &str) -> (r: String)
    ensures
        r@ == "payload also decodes as UTF-8 text: "@ + quoted@,
{
    let mut s = String::from_str("payload also decodes as UTF-8 text: ");
    push_str(&mut s, quoted);
    s
}

/// The dotted path of field `number` under `prefix`.
fn child_path_string(prefix: &str, number: u64) -> (r: String)
    ensures
        r@ == child_path(prefix@, number),
{
    if prefix.is_empty() {
        decimal_string(number)
    } else {
        let mut s = String::from_str(prefix);
        push_str(&mut s, ".");
        push_decimal(&mut s, number);
        s
    }
}

/// Appends `[v1, v2, ...]`.
fn push_list(s: &mut String, vs: &Vec<u64>)
    ensures
        final(s)@ == old(s)@ + debug_list(vs@),
{
    push_str(s, "[");
    let n = vs.len();
    let ghost start = s@;
    assert(vs@.take(0) =~= Seq::<u64>::empty());
    for i in 0..n
        invariant
            n == vs@.len(),
            s@ == start + list_body(vs@.take(i as int)),
    {
        if i > 0 {
            push_str(s, ", ");
        }
        push_decimal(s, vs[i]);
        proof {
            let t = vs@.take(i + 1);
            assert(t.drop_last() =~= vs@.take(i as int));
            if i > 0 {
                assert(s@ =~= start + (list_body(vs@.take(i as int)) + ", "@ + decimal(vs@[i as int] as nat)));
            } else {
                assert(s@ =~= start + decimal(vs@[0] as nat));
            }
        }
    }
    assert(vs@.take(n as int) =~= vs@);
    push_str(s, "]");
    assert(s@ =~= old(s)@ + ("["@ + list_body(vs@) + "]"@));
}

/// The note for bytes that also read as packed varints.
fn varint_note_string(vs: &Vec<u64>) -> (r: String)
    ensures
        r@ == varint_note(vs@),
{
    let mut s = String::from_str("payload also decodes as ");
    push_decimal(&mut s, vs.len() as u64);
    push_str(&mut s, " packed varint(s): ");
    push_list(&mut s, vs);
    assert(s@ =~= varint_note(vs@));
    s
}

/// The note for bytes that also read as `count` packed fixed-width values.
fn fixed_note_string(count: usize, kind: &str) -> (r: String)
    ensures
        r@ == fixed_note(count as nat, kind@),
{
    let mut s = String::from_str("payload also decodes as ");
    push_decimal(&mut s, count as u64);
    push_str(&mut s, " packed ");
    push_str(&mut s, kind);
    push_str(&mut s, " value(s)");
    s
}

} // verus!

verus! {

/// The analyses of fields, element by element.
pub proof fn lemma_analyze_all_index(fs: Seq<FieldModel>, prefix: Seq<char>)
    ensures
        analyze_all(fs, prefix).len() == fs.len(),
        forall|i: int| 0 <= i < fs.len() ==> #[trigger] analyze_all(fs, prefix)[i] == analyze_field(fs[i], prefix),
    decreases fs.len(),
{
    if fs.len() > 0 {
        lemma_analyze_all_index(fs.drop_last(), prefix);
    }
}

/// Classify a length-delimited field at `path` (see [`analyze_len`]),
/// recording the notes it raises.
fn classify_len(len: &LenValue, path: &str, notes: &mut Vec<String>) -> (r: (AnalyzedValue, Confidence))
    requires
        old(notes)@.len() == 0,
    ensures
        (r.0.model(), r.1, strings_model(final(notes)@)) == analyze_len(len.raw@, len.interp.model(), path@),
    decreases *len,
{
    match &len.interp {
        LenInterp::Message(inner) => {
            let analyzed = walk(inner.as_slice(), path);
            match printable_utf8(len.raw.as_slice()) {
                Some(text) => {
                    let quoted = debug_quoted(text.as_str());
                    notes.push(text_note_string(quoted.as_str()));
                    assert(strings_model(notes@) =~= seq![text_note(decode_utf8(len.raw@))]);
                    (AnalyzedValue::Message(analyzed), Confidence::MessageAmbiguous)
                },
                None => {
                    assert(strings_model(notes@) =~= Seq::<Seq<char>>::empty());
                    (AnalyzedValue::Message(analyzed), Confidence::Message)
                },
            }
        },
        LenInterp::Text(s) => {
            assert(strings_model(notes@) =~= Seq::<Seq<char>>::empty());
            (AnalyzedValue::Text(s.clone()), Confidence::Text)
        },
        LenInterp::Bytes => {
            let mut confidence = Confidence::Bytes;
            let ghost raw = len.raw@;
            let ghost n1: Seq<Seq<char>> = match spec_packed_varints(raw) {
                Some(vs) => seq![varint_note(vs)],
                None => Seq::empty(),
            };
            let ghost n2: Seq<Seq<char>> = match spec_packed_i32(raw) {
                Some(vs) => seq![fixed_note(vs.len(), "fixed32"@)],
                None => Seq::empty(),
            };
            let ghost n3: Seq<Seq<char>> = match spec_packed_i64(raw) {
                Some(vs) => seq![fixed_note(vs.len(), "fixed64"@)],
                None => Seq::empty(),
            };
            assert(strings_model(notes@) =~= Seq::<Seq<char>>::empty());
            if let Some(vs) = len.as_packed_varints() {
                notes.push(varint_note_string(&vs));
                confidence = Confidence::BytesPackable;
            }
            assert(strings_model(notes@) =~= n1);
            if let Some(vs) = len.as_packed_i32() {
                notes.push(fixed_note_string(vs.len(), "fixed32"));
                confidence = Confidence::BytesPackable;
            }
            assert(strings_model(notes@) =~= n1 + n2);
            if let Some(vs) = len.as_packed_i64() {
                notes.push(fixed_note_string(vs.len(), "fixed64"));
                confidence = Confidence::BytesPackable;
            }
            assert(strings_model(notes@) =~= n1 + n2 + n3);
            let bytes = vstd::slice::slice_to_vec(len.raw.as_slice());
            (AnalyzedValue::Bytes(bytes), confidence)
        },
    }
}

/// Analyse one field under `prefix`.
fn analyze_one(field: &Field, prefix: &str) -> (r: AnalyzedField)
    ensures
        r.model() == analyze_field(field.model(), prefix@),
    decreases *field,
{
    let path = child_path_string(prefix, field.number);
    let mut notes: Vec<String> = Vec::new();
    let (value, confidence) = match &field.value {
        FieldValue::Varint(v) => (AnalyzedValue::Varint(*v), Confidence::Certain),
        FieldValue::I64(v) => (AnalyzedValue::Fixed64(*v), Confidence::Certain),
        FieldValue::I32(v) => (AnalyzedValue::Fixed32(*v), Confidence::Certain),
        FieldValue::Group(inner) => (AnalyzedValue::Group(walk(inner.as_slice(), path.as_str())), Confidence::Certain),
        FieldValue::Len(len) => classify_len(len, path.as_str(), &mut notes),
    };
    assert(notes@.len() == 0 ==> strings_model(notes@) =~= Seq::<Seq<char>>::empty());
    let timestamps: Vec<TimestampReading> = Vec::new();
    assert(readings_model(timestamps@) =~= Seq::<TimestampModel>::empty());
    AnalyzedField {
        path,
        number: field.number,
        wire_type: field.wire_type,
        value,
        confidence,
        notes,
        timestamps,
    }
}

/// Analyse a sibling list of fields under `prefix`, producing dotted paths.
fn walk(fields: &[Field], prefix: &str) -> (r: Vec<AnalyzedField>)
    ensures
        analyzed_models(r@) == analyze_all(fields_model(fields@), prefix@),
    decreases fields@,
{
    let mut out: Vec<AnalyzedField> = Vec::new();
    let n = fields.len();
    for i in 0..n
        invariant
            n == fields@.len(),
            out@.len() == i,
            forall|k: int| 0 <= k < i ==> #[trigger] out@[k].model() == analyze_field(fields@[k].model(), prefix@),
    {
        out.push(analyze_one(&fields[i], prefix));
    }
    proof {
        lemma_analyzed_models_index(out@);
        lemma_fields_model_index(fields@);
        lemma_analyze_all_index(fields_model(fields@), prefix@);
        assert(analyzed_models(out@) =~= analyze_all(fields_model(fields@), prefix@));
    }
    out
}

/// The analysis of already-decoded fields.
pub open spec fn analysis_model(a: Analysis) -> Seq<AnalyzedModel> {
    analyzed_models(a.fields@)
}

/// Analyse already-decoded fields (no wire decode).
pub fn analyze_fields(fields: &[Field]) -> (r: Analysis)
    ensures
        analysis_model(r) == analyze_all(fields_model(fields@), Seq::empty()),
{
    proof {
        reveal_strlit("");
    }
    assert(""@ =~= Seq::<char>::empty());
    Analysis { fields: walk(fields, "") }
}

/// Decode and analyse a protobuf blob with explicit limits; a malformed blob
/// yields the decoder's error.
pub fn analyze_with(bytes: &[u8], limits: Limits) -> (r: Result<Analysis, Error>)
    ensures
        match r {
            Ok(a) => spec_decode(bytes@, limits.max_depth as nat) is Ok && analysis_model(a)
                == analyze_all(spec_decode(bytes@, limits.max_depth as nat)->Ok_0, Seq::empty()),
            Err(e) => spec_decode(bytes@, limits.max_depth as nat) == Err::<Seq<FieldModel>, Error>(e),
        },
{
    let fields = decode_with_limits(bytes, limits)?;
    Ok(analyze_fields(fields.as_slice()))
}

/// Decode and analyse a protobuf blob with the default limits.
pub fn analyze(bytes: &[u8]) -> (r: Result<Analysis, Error>)
    ensures
        match r {
            Ok(a) => spec_decode(bytes@, DEFAULT_MAX_DEPTH as nat) is Ok && analysis_model(a)
                == analyze_all(spec_decode(bytes@, DEFAULT_MAX_DEPTH as nat)->Ok_0, Seq::empty()),
            Err(e) => spec_decode(bytes@, DEFAULT_MAX_DEPTH as nat) == Err::<Seq<FieldModel>, Error>(e),
        },
{
    analyze_with(bytes, Limits { max_depth: DEFAULT_MAX_DEPTH })
}

} // verus!

verus! {

/// A copy of a timestamp reading, equal to it in every part.
fn copy_reading(t: &TimestampReading) -> (r: TimestampReading)
    ensures
        r.model() == t.model(),
{
    TimestampReading {
        source: t.source,
        format_id: t.format_id.clone(),
        label: t.label.clone(),
        rendered: t.rendered.clone(),
        confidence_pct: t.confidence_pct,
        citation: t.citation.clone(),
    }
}

/// Copies of strings, element by element.
fn copy_strings(v: &Vec<String>) -> (r: Vec<String>)
    ensures
        strings_model(r@) == strings_model(v@),
{
    let mut out: Vec<String> = Vec::new();
    let n = v.len();
    for i in 0..n
        invariant
            n == v@.len(),
            out@.len() == i,
            forall|k: int| 0 <= k < i ==> #[trigger] out@[k]@ == v@[k]@,
    {
        out.push(v[i].clone());
    }
    assert(strings_model(out@) =~= strings_model(v@));
    out
}

/// Copies of timestamp readings, element by element.
fn copy_readings(v: &Vec<TimestampReading>) -> (r: Vec<TimestampReading>)
    ensures
        readings_model(r@) == readings_model(v@),
{
    let mut out: Vec<TimestampReading> = Vec::new();
    let n = v.len();
    for i in 0..n
        invariant
            n == v@.len(),
            out@.len() == i,
            forall|k: int| 0 <= k < i ==> #[trigger] out@[k].model() == v@[k].model(),
    {
        out.push(copy_reading(&v[i]));
    }
    assert(readings_model(out@) =~= readings_model(v@));
    out
}

/// A copy of an analysed field, equal to it in every part.
fn copy_analyzed(f: &AnalyzedField) -> (r: AnalyzedField)
    ensures
        r.model() == f.model(),
    decreases *f, 2int,
{
    AnalyzedField {
        path: f.path.clone(),
        number: f.number,
        wire_type: f.wire_type,
        value: copy_analyzed_value(&f.value),
        confidence: f.confidence,
        notes: copy_strings(&f.notes),
        timestamps: copy_readings(&f.timestamps),
    }
}

/// A copy of a classified value, equal to it in every part.
fn copy_analyzed_value(v: &AnalyzedValue) -> (r: AnalyzedValue)
    ensures
        r.model() == v.model(),
    decreases *v, 1int,
{
    match v {
        AnalyzedValue::Varint(x) => AnalyzedValue::Varint(*x),
        AnalyzedValue::Fixed64(x) => AnalyzedValue::Fixed64(*x),
        AnalyzedValue::Fixed32(x) => AnalyzedValue::Fixed32(*x),
        AnalyzedValue::Message(c) => AnalyzedValue::Message(copy_analyzed_all(c.as_slice())),
        AnalyzedValue::Group(c) => AnalyzedValue::Group(copy_analyzed_all(c.as_slice())),
        AnalyzedValue::Text(s) => AnalyzedValue::Text(s.clone()),
        AnalyzedValue::Bytes(b) => AnalyzedValue::Bytes(vstd::slice::slice_to_vec(b.as_slice())),
    }
}

/// Copies of analysed fields, element by element.
fn copy_analyzed_all(fs: &[AnalyzedField]) -> (r: Vec<AnalyzedField>)
    ensures
        analyzed_models(r@) == analyzed_models(fs@),
    decreases fs@, 0int,
{
    let mut out: Vec<AnalyzedField> = Vec::new();
    let n = fs.len();
    for i in 0..n
        invariant
            n == fs@.len(),
            out@.len() == i,
            forall|k: int| 0 <= k < i ==> #[trigger] out@[k].model() == fs@[k].model(),
    {
        out.push(copy_analyzed(&fs[i]));
    }
    proof {
        lemma_analyzed_models_index(out@);
        lemma_analyzed_models_index(fs@);
        assert(analyzed_models(out@) =~= analyzed_models(fs@));
    }
    out
}

impl Clone for TimestampReading {
    fn clone(&self) -> (r: Self)
        ensures
            r.model() == self.model(),
    {
        copy_reading(self)
    }
}

impl Clone for AnalyzedField {
    fn clone(&self) -> (r: Self)
        ensures
            r.model() == self.model(),
    {
        copy_analyzed(self)
    }
}

impl Clone for AnalyzedValue {
    fn clone(&self) -> (r: Self)
        ensures
            r.model() == self.model(),
    {
        copy_analyzed_value(self)
    }
}

impl Clone for Analysis {
    fn clone(&self) -> (r: Self)
        ensures
            analysis_model(r) == analysis_model(*self),
    {
        Analysis { fields: copy_analyzed_all(self.fields.as_slice()) }
    }
}

} // verus!
