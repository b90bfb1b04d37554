//! Output renderers: a human `text` field tree and a protoscope-like format.
//! (The machine-faithful JSON lines are rendered by the front end.)

use vstd::prelude::*;
use vstd::string::StringExecFns;
use crate::analysis::{
    analyzed_models, debug_text, lemma_analyzed_models_index, Analysis, AnalyzedField,
    AnalyzedModel, AnalyzedValue, AnalyzedValueModel, Confidence, TimestampModel,
    TimestampReading, confidence_percent, readings_model, strings_model,
};
use crate::hex::{hex, hex_digit, hex_encode};
use crate::strings::{decimal, digit_char, push_char, push_decimal, push_str};
use crate::timestamps::{source_label, source_str};
use crate::error::{contains_text, lemma_infix};
use crate::wire::WireType;

verus! {

/// The label of a wire type.
pub open spec fn wire_label(w: WireType) -> Seq<char> {
    match w {
        WireType::Varint => "varint"@,
        WireType::I64 => "i64"@,
        WireType::Len => "len"@,
        WireType::StartGroup => "sgroup"@,
        WireType::EndGroup => "egroup"@,
        WireType::I32 => "i32"@,
    }
}

/// The label of a wire type, as rendered. (No decoded field carries
/// `EndGroup`: the decoder consumes group-end tags.)
pub fn wire_str(w: WireType) -> (r: &'static str)
    ensures
        r@ == wire_label(w),
{
    match w {
        WireType::Varint => "varint",
        WireType::I64 => "i64",
        WireType::Len => "len",
        WireType::StartGroup => "sgroup",
        WireType::EndGroup => "egroup",
        WireType::I32 => "i32",
    }
}

/// The name of a value's kind.
pub open spec fn kind_label(v: AnalyzedValueModel) -> Seq<char> {
    match v {
        AnalyzedValueModel::Varint(_) => "varint"@,
        AnalyzedValueModel::Fixed64(_) => "fixed64"@,
        AnalyzedValueModel::Fixed32(_) => "fixed32"@,
        AnalyzedValueModel::Message(_) => "message"@,
        AnalyzedValueModel::Group(_) => "group"@,
        AnalyzedValueModel::Text(_) => "string"@,
        AnalyzedValueModel::Bytes(_) => "bytes"@,
    }
}

/// The name of a value's kind, as rendered.
pub fn value_kind(v: &AnalyzedValue) -> (r: &'static str)
    ensures
        r@ == kind_label(v.model()),
{
    match v {
        AnalyzedValue::Varint(_) => "varint",
        AnalyzedValue::Fixed64(_) => "fixed64",
        AnalyzedValue::Fixed32(_) => "fixed32",
        AnalyzedValue::Message(_) => "message",
        AnalyzedValue::Group(_) => "group",
        AnalyzedValue::Text(_) => "string",
        AnalyzedValue::Bytes(_) => "bytes",
    }
}

/// The `width` lowest hex digits of `v`, zero-padded, lowercase.
pub open spec fn hex_fixed(v: nat, width: nat) -> Seq<char>
    decreases width,
{
    if width == 0 {
        Seq::empty()
    } else {
        hex_fixed(v / 16, (width - 1) as nat).push(hex_digit(v % 16))
    }
}

fn push_hex_fixed(s: &mut String, v: u64, width: u32)
    ensures
        final(s)@ == old(s)@ + hex_fixed(v as nat, width as nat),
    decreases width,
{
    if width == 0 {
        assert(old(s)@ + Seq::<char>::empty() =~= old(s)@);
    } else {
        push_hex_fixed(s, v / 16, width - 1);
        let d = (v % 16) as u8;
        let c = if d < 10 {
            (48u8 + d) as char
        } else {
            (87u8 + d) as char
        };
        push_char(s, c);
        assert(old(s)@ + hex_fixed(v as nat, width as nat) =~= (old(s)@ + hex_fixed(
            (v / 16) as nat,
            (width - 1) as nat,
        )).push(c));
    }
}

/// A confidence below certainty as a two-decimal fraction (`0.90`).
pub open spec fn confidence_text(c: Confidence) -> Seq<char> {
    "0."@ + seq![
        digit_char((confidence_percent(c) / 10) as nat),
        digit_char((confidence_percent(c) % 10) as nat),
    ]
}

/// The indentation one level deeper.
pub open spec fn deeper(ind: Seq<char>) -> Seq<char> {
    ind + "  "@
}

// ---- protoscope ----------------------------------------------------------

/// A field in the protoscope-like format, indented by `ind`: `N: value`, or
/// `N: {` ... `}` around the children of a message or group.
pub open spec fn proto_field(f: AnalyzedModel, ind: Seq<char>) -> Seq<char>
    decreases f, 0int,
{
    let head = ind + decimal(f.number as nat) + ": "@;
    match f.value {
        AnalyzedValueModel::Varint(v) => head + decimal(v as nat) + "\n"@,
        AnalyzedValueModel::Fixed64(v) => head + decimal(v as nat) + "i64\n"@,
        AnalyzedValueModel::Fixed32(v) => head + decimal(v as nat) + "i32\n"@,
        AnalyzedValueModel::Text(s) => head + "{"@ + debug_text(s) + "}\n"@,
        AnalyzedValueModel::Bytes(b) => head + "{`"@ + hex_encode(b) + "`}\n"@,
        AnalyzedValueModel::Message(c) => head + "{\n"@ + proto_all(c, deeper(ind)) + ind + "}\n"@,
        AnalyzedValueModel::Group(c) => head + "{\n"@ + proto_all(c, deeper(ind)) + ind + "}\n"@,
    }
}

/// Sibling fields in the protoscope-like format, in order.
pub open spec fn proto_all(fs: Seq<AnalyzedModel>, ind: Seq<char>) -> Seq<char>
    decreases fs, 1int,
{
    if fs.len() == 0 {
        Seq::empty()
    } else {
        proto_all(fs.drop_last(), ind) + proto_field(fs.last(), ind)
    }
}

proof fn lemma_proto_all_step(fs: Seq<AnalyzedModel>, ind: Seq<char>, i: int)
    requires
        0 <= i < fs.len(),
    ensures
        proto_all(fs.take(i + 1), ind) == proto_all(fs.take(i), ind) + proto_field(fs[i], ind),
{
    assert(fs.take(i + 1).drop_last() =~= fs.take(i));
}

fn push_proto_field(out: &mut String, field: &AnalyzedField, ind: &str)
    ensures
        final(out)@ == old(out)@ + proto_field(field.model(), ind@),
    decreases *field, 0usize,
{
    let ghost start = out@;
    push_str(out, ind);
    push_decimal(out, field.number);
    push_str(out, ": ");
    let ghost head = ind@ + decimal(field.number as nat) + ": "@;
    assert(out@ =~= start + head);
    match &field.value {
        AnalyzedValue::Varint(v) => {
            push_decimal(out, *v);
            push_str(out, "\n");
            assert(out@ =~= start + proto_field(field.model(), ind@));
        },
        AnalyzedValue::Fixed64(v) => {
            push_decimal(out, *v);
            push_str(out, "i64\n");
            assert(out@ =~= start + proto_field(field.model(), ind@));
        },
        AnalyzedValue::Fixed32(v) => {
            push_decimal(out, *v as u64);
            push_str(out, "i32\n");
            assert(out@ =~= start + proto_field(field.model(), ind@));
        },
        AnalyzedValue::Text(s) => {
            push_str(out, "{");
            let q = crate::analysis::debug_quoted(s.as_str());
            push_str(out, q.as_str());
            push_str(out, "}\n");
            assert(out@ =~= start + proto_field(field.model(), ind@));
        },
        AnalyzedValue::Bytes(b) => {
            push_str(out, "{`");
            let h = hex(b.as_slice());
            push_str(out, h.as_str());
            push_str(out, "`}\n");
            assert(out@ =~= start + proto_field(field.model(), ind@));
        },
        AnalyzedValue::Message(children) | AnalyzedValue::Group(children) => {
            push_str(out, "{\n");
            let mut inner = String::from_str(ind);
            push_str(&mut inner, "  ");
            push_proto_children(out, children, inner.as_str());
            push_str(out, ind);
            push_str(out, "}\n");
            assert(out@ =~= start + proto_field(field.model(), ind@));
        },
    }
}

fn push_proto_children(out: &mut String, children: &Vec<AnalyzedField>, ind: &str)
    ensures
        final(out)@ == old(out)@ + proto_all(analyzed_models(children@), ind@),
    decreases children@, 1usize,
{
    let ghost models = analyzed_models(children@);
    proof {
        lemma_analyzed_models_index(children@);
    }
    let ghost start = out@;
    assert(models.take(0) =~= Seq::<AnalyzedModel>::empty());
    assert(start + Seq::<char>::empty() =~= start);
    let n = children.len();
    for i in 0..n
        invariant
            n == children@.len(),
            models == analyzed_models(children@),
            models.len() == n,
            forall|k: int| 0 <= k < n ==> #[trigger] models[k] == children@[k].model(),
            out@ == start + proto_all(models.take(i as int), ind@),
    {
        push_proto_field(out, &children[i], ind);
        proof {
            lemma_proto_all_step(models, ind@, i as int);
            assert(out@ =~= start + proto_all(models.take(i + 1), ind@));
        }
    }
    assert(models.take(n as int) =~= models);
}

/// The whole analysis in the protoscope-like format.
pub open spec fn protoscope_text(a: Seq<AnalyzedModel>) -> Seq<char> {
    proto_all(a, Seq::empty())
}

/// Render an analysis in the protoscope-like format.
pub fn render_protoscope(analysis: &Analysis) -> (r: String)
    ensures
        r@ == protoscope_text(analyzed_models(analysis.fields@)),
{
    let mut out = String::new();
    let ghost models = analyzed_models(analysis.fields@);
    proof {
        lemma_analyzed_models_index(analysis.fields@);
        reveal_strlit("");
    }
    assert(models.take(0) =~= Seq::<AnalyzedModel>::empty());
    assert(""@ =~= Seq::<char>::empty());
    let n = analysis.fields.len();
    for i in 0..n
        invariant
            n == analysis.fields@.len(),
            models == analyzed_models(analysis.fields@),
            models.len() == n,
            forall|k: int| 0 <= k < n ==> #[trigger] models[k] == analysis.fields@[k].model(),
            ""@ == Seq::<char>::empty(),
            out@ == proto_all(models.take(i as int), Seq::empty()),
    {
        push_proto_field(&mut out, &analysis.fields[i], "");
        proof {
            lemma_proto_all_step(models, Seq::empty(), i as int);
        }
    }
    assert(models.take(n as int) =~= models);
    out
}

} // verus!

verus! {

// ---- text -------------------------------------------------------------------

/// The first line of a field in the text format, without its value.
pub open spec fn text_head(f: AnalyzedModel, ind: Seq<char>) -> Seq<char> {
    ind + f.path + " [field "@ + decimal(f.number as nat) + " "@ + wire_label(f.wire_type) + "]"@
}

/// The confidence line, shown only below certainty.
pub open spec fn conf_line(c: Confidence, ind: Seq<char>) -> Seq<char> {
    if c == Confidence::Certain {
        Seq::empty()
    } else {
        ind + "    conf "@ + confidence_text(c) + "\n"@
    }
}

/// One line per note.
pub open spec fn note_lines(ns: Seq<Seq<char>>, ind: Seq<char>) -> Seq<char>
    decreases ns.len(),
{
    if ns.len() == 0 {
        Seq::empty()
    } else {
        note_lines(ns.drop_last(), ind) + ind + "    note: "@ + ns.last() + "\n"@
    }
}

/// The line of one timestamp reading: a candidate (`time?`), never a verdict.
pub open spec fn time_line(t: TimestampModel, ind: Seq<char>) -> Seq<char> {
    ind + "    time? "@ + t.rendered + "  "@ + t.label + " ("@ + t.format_id + ", "@ + decimal(
        t.confidence_pct as nat,
    ) + "%, via "@ + source_label(t.source) + ")\n"@
}

/// One line per timestamp reading.
pub open spec fn time_lines(ts: Seq<TimestampModel>, ind: Seq<char>) -> Seq<char>
    decreases ts.len(),
{
    if ts.len() == 0 {
        Seq::empty()
    } else {
        time_lines(ts.drop_last(), ind) + time_line(ts.last(), ind)
    }
}

/// The head and value of a field in the text format (and its children, one
/// level deeper).
pub open spec fn text_body(f: AnalyzedModel, ind: Seq<char>) -> Seq<char>
    decreases f, 0int,
{
    let head = text_head(f, ind);
    match f.value {
        AnalyzedValueModel::Varint(v) => head + " varint "@ + decimal(v as nat) + "\n"@,
        AnalyzedValueModel::Fixed64(v) => head + " fixed64 "@ + decimal(v as nat) + " (0x"@
            + hex_fixed(v as nat, 16) + ")\n"@,
        AnalyzedValueModel::Fixed32(v) => head + " fixed32 "@ + decimal(v as nat) + " (0x"@
            + hex_fixed(v as nat, 8) + ")\n"@,
        AnalyzedValueModel::Text(s) => head + " string "@ + debug_text(s) + "\n"@,
        AnalyzedValueModel::Bytes(b) => head + " bytes["@ + decimal(b.len()) + "] "@ + hex_encode(
            b,
        ) + "\n"@,
        AnalyzedValueModel::Message(c) => head + " message ("@ + decimal(c.len())
            + " field(s))\n"@ + text_all(c, deeper(ind)),
        AnalyzedValueModel::Group(c) => head + " group ("@ + decimal(c.len()) + " field(s))\n"@
            + text_all(c, deeper(ind)),
    }
}

/// A field in the text format, indented by `ind`: its head and value (and
/// its children, one level deeper), then its confidence, notes and
/// timestamp readings.
pub open spec fn text_field(f: AnalyzedModel, ind: Seq<char>) -> Seq<char>
    decreases f, 1int,
{
    text_body(f, ind) + conf_line(f.confidence, ind) + note_lines(f.notes, ind) + time_lines(
        f.timestamps,
        ind,
    )
}

/// Sibling fields in the text format, in order.
pub open spec fn text_all(fs: Seq<AnalyzedModel>, ind: Seq<char>) -> Seq<char>
    decreases fs, 0int,
{
    if fs.len() == 0 {
        Seq::empty()
    } else {
        text_all(fs.drop_last(), ind) + text_field(fs.last(), ind)
    }
}

proof fn lemma_text_all_step(fs: Seq<AnalyzedModel>, ind: Seq<char>, i: int)
    requires
        0 <= i < fs.len(),
    ensures
        text_all(fs.take(i + 1), ind) == text_all(fs.take(i), ind) + text_field(fs[i], ind),
{
    assert(fs.take(i + 1).drop_last() =~= fs.take(i));
}

fn push_conf_line(out: &mut String, c: Confidence, ind: &str)
    ensures
        final(out)@ == old(out)@ + conf_line(c, ind@),
{
    if let Confidence::Certain = c {
        assert(old(out)@ + Seq::<char>::empty() =~= old(out)@);
    } else {
        let p = c.percent();
        push_str(out, ind);
        push_str(out, "    conf ");
        push_str(out, "0.");
        push_char(out, (48u8 + p / 10) as char);
        push_char(out, (48u8 + p % 10) as char);
        push_str(out, "\n");
        assert(out@ =~= old(out)@ + conf_line(c, ind@));
    }
}

fn push_note_lines(out: &mut String, notes: &Vec<String>, ind: &str)
    ensures
        final(out)@ == old(out)@ + note_lines(strings_model(notes@), ind@),
{
    let ghost ns = strings_model(notes@);
    let ghost start = out@;
    assert(ns.take(0) =~= Seq::<Seq<char>>::empty());
    assert(start + Seq::<char>::empty() =~= start);
    let n = notes.len();
    for i in 0..n
        invariant
            n == notes@.len(),
            ns == strings_model(notes@),
            out@ == start + note_lines(ns.take(i as int), ind@),
    {
        push_str(out, ind);
        push_str(out, "    note: ");
        push_str(out, notes[i].as_str());
        push_str(out, "\n");
        assert(ns.take(i + 1).drop_last() =~= ns.take(i as int));
        assert(out@ =~= start + note_lines(ns.take(i + 1), ind@));
    }
    assert(ns.take(n as int) =~= ns);
}

fn push_time_line(out: &mut String, t: &TimestampReading, ind: &str)
    ensures
        final(out)@ == old(out)@ + time_line(t.model(), ind@),
{
    push_str(out, ind);
    push_str(out, "    time? ");
    push_str(out, t.rendered.as_str());
    push_str(out, "  ");
    push_str(out, t.label.as_str());
    push_str(out, " (");
    push_str(out, t.format_id.as_str());
    push_str(out, ", ");
    push_decimal(out, t.confidence_pct as u64);
    push_str(out, "%, via ");
    push_str(out, source_str(t.source));
    push_str(out, ")\n");
    assert(out@ =~= old(out)@ + time_line(t.model(), ind@));
}

fn push_time_lines(out: &mut String, ts: &Vec<TimestampReading>, ind: &str)
    ensures
        final(out)@ == old(out)@ + time_lines(readings_model(ts@), ind@),
{
    let ghost ms = readings_model(ts@);
    let ghost start = out@;
    assert(ms.take(0) =~= Seq::<TimestampModel>::empty());
    assert(start + Seq::<char>::empty() =~= start);
    let n = ts.len();
    for i in 0..n
        invariant
            n == ts@.len(),
            ms == readings_model(ts@),
            out@ == start + time_lines(ms.take(i as int), ind@),
    {
        push_time_line(out, &ts[i], ind);
        assert(ms.take(i + 1).drop_last() =~= ms.take(i as int));
        assert(out@ =~= start + time_lines(ms.take(i + 1), ind@));
    }
    assert(ms.take(n as int) =~= ms);
}

fn push_text_field(out: &mut String, field: &AnalyzedField, ind: &str)
    ensures
        final(out)@ == old(out)@ + text_field(field.model(), ind@),
    decreases *field, 1usize,
{
    let ghost m = field.model();
    push_text_body(out, field, ind);
    push_conf_line(out, field.confidence, ind);
    push_note_lines(out, &field.notes, ind);
    push_time_lines(out, &field.timestamps, ind);
    assert(out@ =~= old(out)@ + text_field(m, ind@));
}

fn push_text_head(out: &mut String, field: &AnalyzedField, ind: &str)
    ensures
        final(out)@ == old(out)@ + text_head(field.model(), ind@),
{
    push_str(out, ind);
    push_str(out, field.path.as_str());
    push_str(out, " [field ");
    push_decimal(out, field.number);
    push_str(out, " ");
    push_str(out, wire_str(field.wire_type));
    push_str(out, "]");
    assert(out@ =~= old(out)@ + text_head(field.model(), ind@));
}

#[verifier::spinoff_prover]
#[verifier::rlimit(30)]
fn push_text_body(out: &mut String, field: &AnalyzedField, ind: &str)
    ensures
        final(out)@ == old(out)@ + text_body(field.model(), ind@),
    decreases *field, 0usize,
{
    let ghost start = out@;
    let ghost m = field.model();
    push_text_head(out, field, ind);
    let ghost head = out@;
    match &field.value {
        AnalyzedValue::Varint(v) => {
            push_str(out, " varint ");
            push_decimal(out, *v);
            push_str(out, "\n");
            assert(out@ =~= start + text_body(m, ind@));
        },
        AnalyzedValue::Fixed64(v) => {
            push_str(out, " fixed64 ");
            push_decimal(out, *v);
            push_str(out, " (0x");
            push_hex_fixed(out, *v, 16);
            push_str(out, ")\n");
            assert(out@ =~= start + text_body(m, ind@));
        },
        AnalyzedValue::Fixed32(v) => {
            push_str(out, " fixed32 ");
            push_decimal(out, *v as u64);
            push_str(out, " (0x");
            push_hex_fixed(out, *v as u64, 8);
            push_str(out, ")\n");
            assert(out@ =~= start + text_body(m, ind@));
        },
        AnalyzedValue::Text(s) => {
            push_str(out, " string ");
            let q = crate::analysis::debug_quoted(s.as_str());
            push_str(out, q.as_str());
            push_str(out, "\n");
            assert(out@ =~= start + text_body(m, ind@));
        },
        AnalyzedValue::Bytes(b) => {
            push_str(out, " bytes[");
            push_decimal(out, b.len() as u64);
            push_str(out, "] ");
            let h = hex(b.as_slice());
            push_str(out, h.as_str());
            push_str(out, "\n");
            assert(out@ =~= start + text_body(m, ind@));
        },
        AnalyzedValue::Message(children) => {
            proof {
                lemma_analyzed_models_index(children@);
            }
            push_str(out, " message (");
            push_decimal(out, children.len() as u64);
            push_str(out, " field(s))\n");
            let mut inner = String::from_str(ind);
            push_str(&mut inner, "  ");
            push_text_children(out, children, inner.as_str());
            assert(out@ =~= start + text_body(m, ind@));
        },
        AnalyzedValue::Group(children) => {
            proof {
                lemma_analyzed_models_index(children@);
            }
            push_str(out, " group (");
            push_decimal(out, children.len() as u64);
            push_str(out, " field(s))\n");
            let mut inner = String::from_str(ind);
            push_str(&mut inner, "  ");
            push_text_children(out, children, inner.as_str());
            assert(out@ =~= start + text_body(m, ind@));
        },
    }
}

fn push_text_children(out: &mut String, children: &Vec<AnalyzedField>, ind: &str)
    ensures
        final(out)@ == old(out)@ + text_all(analyzed_models(children@), ind@),
    decreases children@, 0usize,
{
    let ghost models = analyzed_models(children@);
    proof {
        lemma_analyzed_models_index(children@);
    }
    let ghost start = out@;
    assert(models.take(0) =~= Seq::<AnalyzedModel>::empty());
    assert(start + Seq::<char>::empty() =~= start);
    let n = children.len();
    for i in 0..n
        invariant
            n == children@.len(),
            models == analyzed_models(children@),
            models.len() == n,
            forall|k: int| 0 <= k < n ==> #[trigger] models[k] == children@[k].model(),
            out@ == start + text_all(models.take(i as int), ind@),
    {
        push_text_field(out, &children[i], ind);
        proof {
            lemma_text_all_step(models, ind@, i as int);
            assert(out@ =~= start + text_all(models.take(i + 1), ind@));
        }
    }
    assert(models.take(n as int) =~= models);
}

/// Render an analysis as the human-readable text field tree.
pub fn render_text(analysis: &Analysis) -> (r: String)
    ensures
        r@ == text_all(analyzed_models(analysis.fields@), Seq::empty()),
{
    let mut out = String::new();
    let ghost models = analyzed_models(analysis.fields@);
    proof {
        lemma_analyzed_models_index(analysis.fields@);
        reveal_strlit("");
    }
    assert(models.take(0) =~= Seq::<AnalyzedModel>::empty());
    assert(""@ =~= Seq::<char>::empty());
    let n = analysis.fields.len();
    for i in 0..n
        invariant
            n == analysis.fields@.len(),
            models == analyzed_models(analysis.fields@),
            models.len() == n,
            forall|k: int| 0 <= k < n ==> #[trigger] models[k] == analysis.fields@[k].model(),
            ""@ == Seq::<char>::empty(),
            out@ == text_all(models.take(i as int), Seq::empty()),
    {
        push_text_field(&mut out, &analysis.fields[i], "");
        proof {
            lemma_text_all_step(models, Seq::empty(), i as int);
        }
    }
    assert(models.take(n as int) =~= models);
    out
}

} // verus!

verus! {

/// `n` spaces.
pub open spec fn spaces(n: nat) -> Seq<char> {
    Seq::new(n, |i: int| ' ')
}

/// The field reached from the sibling list `fs` by following the child
/// indices `idx` (the first picks among `fs`, each next one among the
/// children of the message or group picked before).
pub open spec fn descend(fs: Seq<AnalyzedModel>, idx: Seq<int>) -> Option<AnalyzedModel>
    decreases idx.len(),
{
    if idx.len() == 0 || !(0 <= idx[0] < fs.len()) {
        None
    } else if idx.len() == 1 {
        Some(fs[idx[0]])
    } else {
        match fs[idx[0]].value {
            AnalyzedValueModel::Message(c) => descend(c, idx.drop_first()),
            AnalyzedValueModel::Group(c) => descend(c, idx.drop_first()),
            _ => None,
        }
    }
}

proof fn lemma_contains_trans(a: Seq<char>, b: Seq<char>, c: Seq<char>)
    requires
        contains_text(a, b),
        contains_text(b, c),
    ensures
        contains_text(a, c),
{
    let k1 = choose|k: int| 0 <= k && k + b.len() <= a.len() && #[trigger] a.subrange(k, k + b.len()) == b;
    let k2 = choose|k: int| 0 <= k && k + c.len() <= b.len() && #[trigger] b.subrange(k, k + c.len()) == c;
    assert(a.subrange(k1 + k2, k1 + k2 + c.len()) =~= b.subrange(k2, k2 + c.len()));
}

proof fn lemma_text_all_concat(a: Seq<AnalyzedModel>, b: Seq<AnalyzedModel>, ind: Seq<char>)
    ensures
        text_all(a + b, ind) == text_all(a, ind) + text_all(b, ind),
    decreases b.len(),
{
    if b.len() == 0 {
        assert(a + b =~= a);
        assert(text_all(a, ind) + Seq::<char>::empty() =~= text_all(a, ind));
    } else {
        lemma_text_all_concat(a, b.drop_last(), ind);
        assert((a + b).drop_last() =~= a + b.drop_last());
        assert((a + b).last() == b.last());
        assert(text_all(a, ind) + text_all(b, ind) =~= text_all(a, ind) + text_all(b.drop_last(), ind)
            + text_field(b.last(), ind));
    }
}

/// Each field of a sibling list appears, rendered at the list's
/// indentation, in the rendering of the list.
pub proof fn law_text_all_contains_fields(fs: Seq<AnalyzedModel>, ind: Seq<char>, i: int)
    requires
        0 <= i < fs.len(),
    ensures
        contains_text(text_all(fs, ind), text_field(fs[i], ind)),
{
    let a = fs.take(i);
    let b = fs.skip(i + 1);
    assert(fs =~= a + seq![fs[i]] + b);
    lemma_text_all_concat(a + seq![fs[i]], b, ind);
    lemma_text_all_concat(a, seq![fs[i]], ind);
    let one = seq![fs[i]];
    assert(one.drop_last() =~= Seq::<AnalyzedModel>::empty());
    assert(one.last() == fs[i]);
    assert(text_all(one.drop_last(), ind) =~= Seq::<char>::empty());
    assert(text_all(one, ind) =~= text_field(fs[i], ind));
    lemma_infix(text_all(a, ind), text_field(fs[i], ind), text_all(b, ind));
}

/// The children of a message or group appear in its rendering indented two
/// spaces deeper than the field itself.
pub proof fn law_text_children_two_deeper(f: AnalyzedModel, ind: Seq<char>)
    ensures
        f.value matches AnalyzedValueModel::Message(c) ==> contains_text(text_field(f, ind), text_all(c, ind + "  "@)),
        f.value matches AnalyzedValueModel::Group(c) ==> contains_text(text_field(f, ind), text_all(c, ind + "  "@)),
{
    let rest = conf_line(f.confidence, ind) + note_lines(f.notes, ind) + time_lines(f.timestamps, ind);
    match f.value {
        AnalyzedValueModel::Message(c) => {
            let x = text_head(f, ind) + " message ("@ + decimal(c.len()) + " field(s))\n"@;
            assert(text_field(f, ind) =~= x + text_all(c, ind + "  "@) + rest);
            lemma_infix(x, text_all(c, ind + "  "@), rest);
        },
        AnalyzedValueModel::Group(c) => {
            let x = text_head(f, ind) + " group ("@ + decimal(c.len()) + " field(s))\n"@;
            assert(text_field(f, ind) =~= x + text_all(c, ind + "  "@) + rest);
            lemma_infix(x, text_all(c, ind + "  "@), rest);
        },
        _ => {},
    }
}

/// `a` is a prefix of `a + b`.
proof fn lemma_prefix(a: Seq<char>, b: Seq<char>)
    ensures
        (a + b).subrange(0, a.len() as int) == a,
{
    assert((a + b).subrange(0, a.len() as int) =~= a);
}

/// The body of a field's rendering begins with its head.
proof fn lemma_body_starts_with_head(f: AnalyzedModel, ind: Seq<char>)
    ensures
        text_body(f, ind).len() >= text_head(f, ind).len(),
        text_body(f, ind).subrange(0, text_head(f, ind).len() as int) == text_head(f, ind),
{
    let h = text_head(f, ind);
    match f.value {
        AnalyzedValueModel::Varint(v) => {
            let r = " varint "@ + decimal(v as nat) + "\n"@;
            assert(text_body(f, ind) =~= h + r);
            lemma_prefix(h, r);
        },
        AnalyzedValueModel::Fixed64(v) => {
            let r = " fixed64 "@ + decimal(v as nat) + " (0x"@ + hex_fixed(v as nat, 16) + ")\n"@;
            assert(text_body(f, ind) =~= h + r);
            lemma_prefix(h, r);
        },
        AnalyzedValueModel::Fixed32(v) => {
            let r = " fixed32 "@ + decimal(v as nat) + " (0x"@ + hex_fixed(v as nat, 8) + ")\n"@;
            assert(text_body(f, ind) =~= h + r);
            lemma_prefix(h, r);
        },
        AnalyzedValueModel::Text(t) => {
            let r = " string "@ + debug_text(t) + "\n"@;
            assert(text_body(f, ind) =~= h + r);
            lemma_prefix(h, r);
        },
        AnalyzedValueModel::Bytes(b) => {
            let r = " bytes["@ + decimal(b.len()) + "] "@ + hex_encode(b) + "\n"@;
            assert(text_body(f, ind) =~= h + r);
            lemma_prefix(h, r);
        },
        AnalyzedValueModel::Message(c) => {
            let r = " message ("@ + decimal(c.len()) + " field(s))\n"@ + text_all(c, deeper(ind));
            assert(text_body(f, ind) =~= h + r);
            lemma_prefix(h, r);
        },
        AnalyzedValueModel::Group(c) => {
            let r = " group ("@ + decimal(c.len()) + " field(s))\n"@ + text_all(c, deeper(ind));
            assert(text_body(f, ind) =~= h + r);
            lemma_prefix(h, r);
        },
    }
}

/// A field's rendering begins with its indentation, its path and
/// `" [field "`.
pub proof fn law_text_field_head_line(f: AnalyzedModel, ind: Seq<char>)
    ensures
        text_field(f, ind).len() >= ind.len() + f.path.len() + 8,
        text_field(f, ind).subrange(0, (ind.len() + f.path.len() + 8) as int) == ind + f.path + " [field "@,
{
    reveal_strlit(" [field ");
    let p = ind + f.path + " [field "@;
    let h = text_head(f, ind);
    let tail = conf_line(f.confidence, ind) + note_lines(f.notes, ind) + time_lines(f.timestamps, ind);
    lemma_body_starts_with_head(f, ind);
    assert(h =~= p + (decimal(f.number as nat) + " "@ + wire_label(f.wire_type) + "]"@));
    assert(text_field(f, ind) =~= text_body(f, ind) + tail);
    assert(text_field(f, ind).subrange(0, p.len() as int) =~= text_body(f, ind).subrange(0, h.len() as int).subrange(0, p.len() as int));
}

/// Indentation by depth: in the text rendering of a sibling list indented
/// by `m` spaces, the field reached by the child indices `idx` is rendered
/// indented by `m + 2 * (idx.len() - 1)` spaces, two more per level of
/// nesting (so in `render_text`, where `m` is 0, a field `d` levels deep is
/// indented by exactly `2d` spaces).
pub proof fn law_text_indent_by_depth(fs: Seq<AnalyzedModel>, idx: Seq<int>, m: nat)
    ensures
        descend(fs, idx) matches Some(g) ==> contains_text(
            text_all(fs, spaces(m)),
            text_field(g, spaces((m + 2 * (idx.len() - 1)) as nat)),
        ),
    decreases idx.len(),
{
    if idx.len() >= 1 && 0 <= idx[0] < fs.len() {
        let f = fs[idx[0]];
        law_text_all_contains_fields(fs, spaces(m), idx[0]);
        if idx.len() > 1 {
            reveal_strlit("  ");
            assert(spaces(m) + "  "@ =~= spaces(m + 2));
            law_text_children_two_deeper(f, spaces(m));
            match f.value {
                AnalyzedValueModel::Message(c) => {
                    law_text_indent_by_depth(c, idx.drop_first(), m + 2);
                    if let Some(g) = descend(c, idx.drop_first()) {
                        assert((m + 2 + 2 * (idx.drop_first().len() - 1)) as nat == (m + 2 * (idx.len() - 1)) as nat);
                        lemma_contains_trans(text_field(f, spaces(m)), text_all(c, spaces(m + 2)), text_field(g, spaces((m + 2 * (idx.len() - 1)) as nat)));
                        lemma_contains_trans(text_all(fs, spaces(m)), text_field(f, spaces(m)), text_field(g, spaces((m + 2 * (idx.len() - 1)) as nat)));
                    }
                },
                AnalyzedValueModel::Group(c) => {
                    law_text_indent_by_depth(c, idx.drop_first(), m + 2);
                    if let Some(g) = descend(c, idx.drop_first()) {
                        assert((m + 2 + 2 * (idx.drop_first().len() - 1)) as nat == (m + 2 * (idx.len() - 1)) as nat);
                        lemma_contains_trans(text_field(f, spaces(m)), text_all(c, spaces(m + 2)), text_field(g, spaces((m + 2 * (idx.len() - 1)) as nat)));
                        lemma_contains_trans(text_all(fs, spaces(m)), text_field(f, spaces(m)), text_field(g, spaces((m + 2 * (idx.len() - 1)) as nat)));
                    }
                },
                _ => {},
            }
        }
    }
}

} // verus!

verus! {

proof fn lemma_proto_all_concat(a: Seq<AnalyzedModel>, b: Seq<AnalyzedModel>, ind: Seq<char>)
    ensures
        proto_all(a + b, ind) == proto_all(a, ind) + proto_all(b, ind),
    decreases b.len(),
{
    if b.len() == 0 {
        assert(a + b =~= a);
        assert(proto_all(a, ind) + Seq::<char>::empty() =~= proto_all(a, ind));
    } else {
        lemma_proto_all_concat(a, b.drop_last(), ind);
        assert((a + b).drop_last() =~= a + b.drop_last());
        assert((a + b).last() == b.last());
        assert(proto_all(a, ind) + proto_all(b, ind) =~= proto_all(a, ind) + proto_all(b.drop_last(), ind)
            + proto_field(b.last(), ind));
    }
}

/// Each field of a sibling list appears, rendered at the list's
/// indentation, in the protoscope-like rendering of the list.
pub proof fn law_proto_all_contains_fields(fs: Seq<AnalyzedModel>, ind: Seq<char>, i: int)
    requires
        0 <= i < fs.len(),
    ensures
        contains_text(proto_all(fs, ind), proto_field(fs[i], ind)),
{
    let a = fs.take(i);
    let b = fs.skip(i + 1);
    assert(fs =~= a + seq![fs[i]] + b);
    lemma_proto_all_concat(a + seq![fs[i]], b, ind);
    lemma_proto_all_concat(a, seq![fs[i]], ind);
    let one = seq![fs[i]];
    assert(one.drop_last() =~= Seq::<AnalyzedModel>::empty());
    assert(one.last() == fs[i]);
    assert(proto_all(one.drop_last(), ind) =~= Seq::<char>::empty());
    assert(proto_all(one, ind) =~= proto_field(fs[i], ind));
    lemma_infix(proto_all(a, ind), proto_field(fs[i], ind), proto_all(b, ind));
}

/// In the protoscope-like format a message or group is `N: {`, its
/// children indented two spaces deeper, then `}` at the field's own
/// indentation.
pub proof fn law_proto_children_two_deeper(f: AnalyzedModel, ind: Seq<char>)
    ensures
        f.value matches AnalyzedValueModel::Message(c) ==> proto_field(f, ind) == ind + decimal(
            f.number as nat,
        ) + ": {\n"@ + proto_all(c, ind + "  "@) + ind + "}\n"@,
        f.value matches AnalyzedValueModel::Group(c) ==> proto_field(f, ind) == ind + decimal(
            f.number as nat,
        ) + ": {\n"@ + proto_all(c, ind + "  "@) + ind + "}\n"@,
{
    reveal_strlit(": {\n");
    reveal_strlit(": ");
    reveal_strlit("{\n");
    let d = decimal(f.number as nat);
    match f.value {
        AnalyzedValueModel::Message(c) => {
            assert(ind + d + ": "@ + "{\n"@ =~= ind + d + ": {\n"@);
        },
        AnalyzedValueModel::Group(c) => {
            assert(ind + d + ": "@ + "{\n"@ =~= ind + d + ": {\n"@);
        },
        _ => {},
    }
}

/// Indentation by depth in the protoscope-like format: in the rendering of
/// a sibling list indented by `m` spaces, the field reached by the child
/// indices `idx` is rendered indented by `m + 2 * (idx.len() - 1)` spaces
/// (so in `render_protoscope` a field `d` levels deep is indented by `2d`).
pub proof fn law_proto_indent_by_depth(fs: Seq<AnalyzedModel>, idx: Seq<int>, m: nat)
    ensures
        descend(fs, idx) matches Some(g) ==> contains_text(
            proto_all(fs, spaces(m)),
            proto_field(g, spaces((m + 2 * (idx.len() - 1)) as nat)),
        ),
    decreases idx.len(),
{
    if idx.len() >= 1 && 0 <= idx[0] < fs.len() {
        let f = fs[idx[0]];
        law_proto_all_contains_fields(fs, spaces(m), idx[0]);
        if idx.len() > 1 {
            reveal_strlit("  ");
            assert(spaces(m) + "  "@ =~= spaces(m + 2));
            law_proto_children_two_deeper(f, spaces(m));
            let n = (m + 2 * (idx.len() - 1)) as nat;
            let x = spaces(m) + decimal(f.number as nat) + ": {\n"@;
            let y = spaces(m) + "}\n"@;
            match f.value {
                AnalyzedValueModel::Message(c) => {
                    law_proto_indent_by_depth(c, idx.drop_first(), m + 2);
                    assert(proto_field(f, spaces(m)) =~= x + proto_all(c, spaces(m + 2)) + y);
                    lemma_infix(x, proto_all(c, spaces(m + 2)), y);
                    if let Some(g) = descend(c, idx.drop_first()) {
                        assert((m + 2 + 2 * (idx.drop_first().len() - 1)) as nat == n);
                        lemma_contains_trans(proto_field(f, spaces(m)), proto_all(c, spaces(m + 2)), proto_field(g, spaces(n)));
                        lemma_contains_trans(proto_all(fs, spaces(m)), proto_field(f, spaces(m)), proto_field(g, spaces(n)));
                    }
                },
                AnalyzedValueModel::Group(c) => {
                    law_proto_indent_by_depth(c, idx.drop_first(), m + 2);
                    assert(proto_field(f, spaces(m)) =~= x + proto_all(c, spaces(m + 2)) + y);
                    lemma_infix(x, proto_all(c, spaces(m + 2)), y);
                    if let Some(g) = descend(c, idx.drop_first()) {
                        assert((m + 2 + 2 * (idx.drop_first().len() - 1)) as nat == n);
                        lemma_contains_trans(proto_field(f, spaces(m)), proto_all(c, spaces(m + 2)), proto_field(g, spaces(n)));
                        lemma_contains_trans(proto_all(fs, spaces(m)), proto_field(f, spaces(m)), proto_field(g, spaces(n)));
                    }
                },
                _ => {},
            }
        }
    }
}

/// A field's protoscope-like rendering begins with its indentation, its
/// field number in decimal and `": "`.
pub proof fn law_proto_field_head(f: AnalyzedModel, ind: Seq<char>)
    ensures
        ({
            let h = ind + decimal(f.number as nat) + ": "@;
            proto_field(f, ind).len() >= h.len() && proto_field(f, ind).subrange(0, h.len() as int) == h
        }),
{
    let h = ind + decimal(f.number as nat) + ": "@;
    let r = proto_field(f, ind).subrange(h.len() as int, proto_field(f, ind).len() as int);
    match f.value {
        AnalyzedValueModel::Varint(v) => { assert(proto_field(f, ind) =~= h + (decimal(v as nat) + "\n"@)); },
        AnalyzedValueModel::Fixed64(v) => { assert(proto_field(f, ind) =~= h + (decimal(v as nat) + "i64\n"@)); },
        AnalyzedValueModel::Fixed32(v) => { assert(proto_field(f, ind) =~= h + (decimal(v as nat) + "i32\n"@)); },
        AnalyzedValueModel::Text(s) => { assert(proto_field(f, ind) =~= h + ("{"@ + debug_text(s) + "}\n"@)); },
        AnalyzedValueModel::Bytes(b) => { assert(proto_field(f, ind) =~= h + ("{`"@ + hex_encode(b) + "`}\n"@)); },
        AnalyzedValueModel::Message(c) => { assert(proto_field(f, ind) =~= h + ("{\n"@ + proto_all(c, deeper(ind)) + ind + "}\n"@)); },
        AnalyzedValueModel::Group(c) => { assert(proto_field(f, ind) =~= h + ("{\n"@ + proto_all(c, deeper(ind)) + ind + "}\n"@)); },
    }
    assert(proto_field(f, ind).subrange(0, h.len() as int) =~= h);
}

} // verus!
