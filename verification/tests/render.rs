//! Behavioural tests for the text and protoscope-like renderers.

use protobuf_forensic::render::{render_protoscope, render_text};
use protobuf_forensic::{analyze, CliError, Format};

fn render(bytes: &[u8], format: Format) -> String {
    let analysis = analyze(bytes).unwrap();
    match format {
        Format::Text => render_text(&analysis),
        Format::Protoscope => render_protoscope(&analysis),
        Format::Jsonl => panic!("JSON lines are rendered by the front end"),
    }
}

#[test]
fn cli_text_renders_field_and_value() {
    // field 1 = 150.
    let out = render(&[0x08, 0x96, 0x01], Format::Text);
    assert!(out.contains('1'), "should name the field number");
    assert!(out.contains("150"), "should render the value; got:\n{out}");
    assert_eq!(out, "1 [field 1 varint] varint 150\n");
}

#[test]
fn cli_text_shows_nested_paths() {
    // field 3 = { field 1 = 150 }.
    let out = render(&[0x1a, 0x03, 0x08, 0x96, 0x01], Format::Text);
    assert!(out.contains("3.1"), "should show the nested path; got:\n{out}");
    assert_eq!(
        out,
        "3 [field 3 len] message (1 field(s))\n  3.1 [field 1 varint] varint 150\n    conf 0.90\n"
    );
}

#[test]
fn cli_protoscope_like_format() {
    let out = render(&[0x08, 0x96, 0x01], Format::Protoscope);
    assert!(out.contains("1: 150"), "got:\n{out}");
}

#[test]
fn cli_protoscope_nests_submessages_in_braces() {
    let out = render(&[0x1a, 0x03, 0x08, 0x96, 0x01], Format::Protoscope);
    assert!(out.contains('{') && out.contains('}'), "got:\n{out}");
    assert!(out.contains("1: 150"), "inner field should render; got:\n{out}");
    assert_eq!(out, "3: {\n  1: 150\n}\n");
}

#[test]
fn cli_text_renders_string_field() {
    let bytes = [0x12, 0x07, b't', b'e', b's', b't', b'i', b'n', b'g'];
    let out = render(&bytes, Format::Text);
    assert!(out.contains("testing"), "got:\n{out}");
    assert_eq!(out, "2 [field 2 len] string \"testing\"\n    conf 0.90\n");
}

#[test]
fn cli_run_propagates_decode_error() {
    let err = analyze(&[0x08, 0x80]).map_err(CliError::from);
    assert!(err.is_err());
}

#[test]
fn protoscope_renders_fixed_and_bytes() {
    // fixed32 + a bytes payload in one blob.
    let mut bytes = vec![0x35];
    bytes.extend_from_slice(&7_u32.to_le_bytes()); // field 6 fixed32 = 7
    bytes.extend_from_slice(&[0x22, 0x02, 0xff, 0xfe]); // field 4 bytes ff fe
    let out = render(&bytes, Format::Protoscope);
    assert!(out.contains("6: 7i32"), "got:\n{out}");
    assert!(out.contains("4: {`fffe`}"), "got:\n{out}");
}

/// field 7 fixed64 = 1, then field 8 group { field 2 = 150 }.
const FIXED64_AND_GROUP: &[u8] = &[
    0x39, 0x01, 0x00, 0x00, 0x00, 0x00, 0x00, 0x00, 0x00, // field 7 fixed64 = 1
    0x43, 0x10, 0x96, 0x01, 0x44, // field 8 group { field 2 = 150 }
];

#[test]
fn text_renders_fixed64_and_group() {
    let out = render(FIXED64_AND_GROUP, Format::Text);
    assert!(out.contains("fixed64"), "got:\n{out}");
    assert!(out.contains("group"), "got:\n{out}");
    assert!(out.contains("sgroup"), "group field wire label; got:\n{out}");
    assert!(out.contains("8.2"), "nested group path; got:\n{out}");
    assert!(out.contains("7 [field 7 i64] fixed64 1 (0x0000000000000001)\n"), "got:\n{out}");
}

#[test]
fn protoscope_renders_fixed64_and_group() {
    let out = render(FIXED64_AND_GROUP, Format::Protoscope);
    assert!(out.contains("7: 1i64"), "got:\n{out}");
    assert!(out.contains("8: {"), "group as braces; got:\n{out}");
    assert!(out.contains("2: 150"), "inner group field; got:\n{out}");
}

#[test]
fn text_renders_bytes_notes_and_fixed32() {
    // field 5 packed {1,2,3}; field 6 fixed32 = 0x12345678.
    let out = render(&[0x2a, 0x03, 0x01, 0x02, 0x03, 0x35, 0x78, 0x56, 0x34, 0x12], Format::Text);
    assert_eq!(
        out,
        "5 [field 5 len] bytes[3] 010203\n    conf 0.50\n    note: payload also decodes as 3 packed varint(s): [1, 2, 3]\n6 [field 6 i32] fixed32 305419896 (0x12345678)\n"
    );
}

#[test]
fn protoscope_renders_text_payload() {
    let bytes = [0x12, 0x07, b't', b'e', b's', b't', b'i', b'n', b'g'];
    let out = render(&bytes, Format::Protoscope);
    assert_eq!(out, "2: {\"testing\"}\n");
}
