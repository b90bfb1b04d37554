//! Behavioural tests for the forensic analysis layer.

use protobuf_forensic::analysis::text_note_string;
use protobuf_forensic::render::value_kind;
use protobuf_forensic::{analyze, analyze_with, AnalyzedValue, Confidence, Limits};

/// Encode a varint into `out` (test helper).
fn put_varint(mut v: u64, out: &mut Vec<u8>) {
    loop {
        let mut b = (v & 0x7f) as u8;
        v >>= 7;
        if v != 0 {
            b |= 0x80;
        }
        out.push(b);
        if v == 0 {
            break;
        }
    }
}

/// `field << 3 | wire` then a varint value.
fn varint_field(field: u64, value: u64) -> Vec<u8> {
    let mut out = Vec::new();
    put_varint(field << 3, &mut out); // wire type 0 (varint)
    put_varint(value, &mut out);
    out
}

/// The confidence as the documented fraction.
fn fraction(c: Confidence) -> f64 {
    f64::from(c.percent()) / 100.0
}

#[test]
fn analyze_scalar_varint_is_unambiguous() {
    let a = analyze(&varint_field(1, 150)).unwrap();
    assert_eq!(a.fields.len(), 1);
    let f = &a.fields[0];
    assert_eq!(f.path, "1");
    assert_eq!(f.number, 1);
    assert!(matches!(f.value, AnalyzedValue::Varint(150)));
    assert_eq!(fraction(f.confidence), 1.0);
    assert!(f.notes.is_empty());
}

#[test]
fn analyze_nested_message_has_dotted_paths() {
    // field 3 = { field 1 = 150 } -> `1a 03 08 96 01`.
    let a = analyze(&[0x1a, 0x03, 0x08, 0x96, 0x01]).unwrap();
    let outer = &a.fields[0];
    assert_eq!(outer.path, "3");
    match &outer.value {
        AnalyzedValue::Message(inner) => {
            assert_eq!(inner.len(), 1);
            assert_eq!(inner[0].path, "3.1");
            assert!(matches!(inner[0].value, AnalyzedValue::Varint(150)));
        }
        _ => panic!("expected Message"),
    }
    // A clean, non-printable message payload is high-confidence, no text note.
    assert!((fraction(outer.confidence) - 0.9).abs() < 1e-9);
    assert_eq!(outer.confidence, Confidence::Message);
}

#[test]
fn analyze_ambiguous_message_that_is_also_text_is_flagged() {
    // LEN payload "(1" = [0x28, 0x31] parses as field 5 = varint 49 AND is
    // printable ASCII. field 2 LEN -> `12 02 28 31`.
    let a = analyze(&[0x12, 0x02, 0x28, 0x31]).unwrap();
    let f = &a.fields[0];
    assert!(matches!(f.value, AnalyzedValue::Message(_)));
    assert!((fraction(f.confidence) - 0.55).abs() < 1e-9);
    assert!(
        f.notes.iter().any(|n| n.contains("text") && n.contains("(1")),
        "expected a note naming the text alternative, got {:?}",
        f.notes
    );
    assert_eq!(f.notes, vec!["payload also decodes as UTF-8 text: \"(1\"".to_string()]);
}

#[test]
fn analyze_printable_string_is_text_high_confidence() {
    // field 2 = "testing".
    let bytes = [0x12, 0x07, b't', b'e', b's', b't', b'i', b'n', b'g'];
    let a = analyze(&bytes).unwrap();
    let f = &a.fields[0];
    match &f.value {
        AnalyzedValue::Text(s) => assert_eq!(s, "testing"),
        _ => panic!("expected Text"),
    }
    assert!((fraction(f.confidence) - 0.9).abs() < 1e-9);
}

#[test]
fn analyze_opaque_bytes_with_packed_reading_is_noted() {
    // field 5 packed {1,2,3} -> `2a 03 01 02 03`: resolves to Bytes, packed
    // varints [1,2,3] are noted with reduced confidence.
    let a = analyze(&[0x2a, 0x03, 0x01, 0x02, 0x03]).unwrap();
    let f = &a.fields[0];
    assert!(matches!(f.value, AnalyzedValue::Bytes(_)));
    assert!((fraction(f.confidence) - 0.5).abs() < 1e-9);
    assert!(
        f.notes.iter().any(|n| n.contains("packed") && n.contains('1')),
        "expected a packed note, got {:?}",
        f.notes
    );
    assert_eq!(
        f.notes,
        vec!["payload also decodes as 3 packed varint(s): [1, 2, 3]".to_string()]
    );
}

#[test]
fn packed_fixed32_payload_is_noted() {
    // field 5 LEN with two little-endian i32s (1, 2): not a clean message, not
    // text; the packed fixed32 reading is noted.
    let a = analyze(&[0x2a, 0x08, 0x01, 0x00, 0x00, 0x00, 0x02, 0x00, 0x00, 0x00]).unwrap();
    let f = &a.fields[0];
    assert!(matches!(f.value, AnalyzedValue::Bytes(_)));
    assert!(
        f.notes.iter().any(|n| n.contains("fixed32")),
        "expected a packed fixed32 note, got {:?}",
        f.notes
    );
    assert!(f.notes.iter().any(|n| n == "payload also decodes as 2 packed fixed32 value(s)"));
    assert!(f.notes.iter().any(|n| n == "payload also decodes as 1 packed fixed64 value(s)"));
}

#[test]
fn opaque_bytes_without_packed_reading_keep_base_confidence() {
    // field 4 = { 0xff, 0xfe }: not a message, not text, not packed.
    let a = analyze(&[0x22, 0x02, 0xff, 0xfe]).unwrap();
    let f = &a.fields[0];
    match &f.value {
        AnalyzedValue::Bytes(b) => assert_eq!(b, &vec![0xff, 0xfe]),
        _ => panic!("expected Bytes"),
    }
    assert_eq!(f.confidence, Confidence::Bytes);
    assert_eq!(f.confidence.percent(), 60);
    assert!(f.notes.is_empty());
}

#[test]
fn group_children_have_dotted_paths() {
    // field 8 group { field 2 = 150 }.
    let a = analyze(&[0x43, 0x10, 0x96, 0x01, 0x44]).unwrap();
    let f = &a.fields[0];
    assert_eq!(f.confidence, Confidence::Certain);
    match &f.value {
        AnalyzedValue::Group(inner) => assert_eq!(inner[0].path, "8.2"),
        _ => panic!("expected Group"),
    }
}

#[test]
fn analyze_with_shallow_limits_degrades_submessage() {
    // With no nesting allowed, field 3's payload cannot be a message.
    let a = analyze_with(&[0x1a, 0x03, 0x08, 0x96, 0x01], Limits { max_depth: 0 }).unwrap();
    assert!(matches!(a.fields[0].value, AnalyzedValue::Bytes(_)));
}

#[test]
fn analyze_malformed_input_errors_not_panics() {
    // Truncated varint value.
    assert!(analyze(&[0x08, 0x80]).is_err());
}

#[test]
fn text_note_quotes_the_payload() {
    assert_eq!(
        text_note_string("\"hi\""),
        "payload also decodes as UTF-8 text: \"hi\""
    );
}

#[test]
fn value_kinds_are_named() {
    assert_eq!(value_kind(&AnalyzedValue::Varint(1)), "varint");
    assert_eq!(value_kind(&AnalyzedValue::Fixed64(1)), "fixed64");
    assert_eq!(value_kind(&AnalyzedValue::Fixed32(1)), "fixed32");
    assert_eq!(value_kind(&AnalyzedValue::Message(Vec::new())), "message");
    assert_eq!(value_kind(&AnalyzedValue::Group(Vec::new())), "group");
    assert_eq!(value_kind(&AnalyzedValue::Text("x".to_string())), "string");
    assert_eq!(value_kind(&AnalyzedValue::Bytes(vec![0xff])), "bytes");
}

#[test]
fn cloned_analysis_equals_the_original() {
    let a = analyze(&[0x1a, 0x03, 0x08, 0x96, 0x01, 0x12, 0x02, 0x68, 0x69]).unwrap();
    let b = a.clone();
    assert_eq!(a, b);
    assert_eq!(a.fields[0].clone(), a.fields[0]);
    assert_eq!(a.fields[0].path, "3");
    match &a.fields[0].value {
        AnalyzedValue::Message(children) => assert_eq!(children[0].path, "3.1"),
        _ => panic!("expected a message"),
    }
    assert!(a.fields[0].timestamps.is_empty());
}
