//! Behavioural tests for the command-line front end's hex parsing and errors.

use protobuf_forensic::{decode, hex, parse_hex, CliError, Error};

#[test]
fn cli_parse_hex_plain() {
    assert_eq!(parse_hex("089601").unwrap(), vec![0x08, 0x96, 0x01]);
}

#[test]
fn cli_parse_hex_tolerates_prefix_whitespace_and_separators() {
    assert_eq!(parse_hex("0x08 96 01").unwrap(), vec![0x08, 0x96, 0x01]);
    assert_eq!(parse_hex("08:96:01").unwrap(), vec![0x08, 0x96, 0x01]);
    assert_eq!(parse_hex("08-96-01").unwrap(), vec![0x08, 0x96, 0x01]);
}

#[test]
fn cli_parse_hex_rejects_odd_length() {
    assert!(parse_hex("089").is_err());
}

#[test]
fn cli_parse_hex_rejects_and_names_bad_character() {
    let err = parse_hex("08zz").unwrap_err();
    // The message names the offending character so the user can locate it.
    assert!(err.message().contains('z'), "got: {}", err.message());
}

#[test]
fn parse_hex_reports_position_and_digit_count() {
    match parse_hex("08zz") {
        Err(CliError::Hex { reason }) => {
            assert_eq!(reason, "invalid hex character 'z' at position 2");
        }
        other => panic!("expected a hex error, got {other:?}"),
    }
    match parse_hex("0x089") {
        Err(CliError::Hex { reason }) => assert_eq!(reason, "odd number of hex digits (3)"),
        other => panic!("expected a hex error, got {other:?}"),
    }
    let err = parse_hex("0g").unwrap_err();
    assert_eq!(err.message(), "invalid hex input: invalid hex character 'g' at position 1");
}

#[test]
fn parse_hex_accepts_upper_case_and_empty_input() {
    assert_eq!(parse_hex("0xABcd").unwrap(), vec![0xab, 0xcd]);
    assert_eq!(parse_hex("ABcd").unwrap(), vec![0xab, 0xcd]);
    assert_eq!(parse_hex("").unwrap(), Vec::<u8>::new());
    assert_eq!(parse_hex(" \t\n").unwrap(), Vec::<u8>::new());
}

#[test]
fn hex_renders_lowercase_pairs() {
    assert_eq!(hex(&[0x01, 0x02, 0x03]), "010203");
    assert_eq!(hex(&[0xff, 0xfe, 0x0a]), "fffe0a");
    assert_eq!(hex(&[]), "");
}

#[test]
fn parse_hex_inverts_hex() {
    let bytes: Vec<u8> = (0..=255u8).collect();
    assert_eq!(parse_hex(&hex(&bytes)).unwrap(), bytes);
}

#[test]
fn decode_error_message_names_offset() {
    let err = decode(&[0x08, 0x80]).unwrap_err();
    assert_eq!(err, Error::TruncatedVarint { offset: 1 });
    assert_eq!(err.offset(), 1);
    assert_eq!(err.message(), "truncated varint at offset 1");
    let cli: CliError = err.into();
    assert_eq!(cli.message(), "protobuf decode error: truncated varint at offset 1");
}

#[test]
fn error_messages_show_values() {
    assert_eq!(
        Error::LengthOutOfRange { value: 5, available: 2, offset: 1 }.message(),
        "length-delimited field claims 5 bytes but only 2 remain (at offset 1)"
    );
    assert_eq!(
        Error::UnexpectedEof { what: "fixed32", offset: 7 }.message(),
        "unexpected end of input reading fixed32 at offset 7"
    );
    assert_eq!(
        Error::DepthLimitExceeded { limit: 100, offset: 12 }.message(),
        "nesting depth limit 100 exceeded at offset 12"
    );
}

#[test]
fn parse_hex_refuses_upper_case_prefix() {
    let err = parse_hex("0X08").unwrap_err();
    assert_eq!(err.message(), "invalid hex input: invalid hex character 'X' at position 1");
}

#[test]
fn parse_hex_reads_the_digits_left_after_separators() {
    assert_eq!(parse_hex("0x 0:1\tf-F\n10").unwrap(), vec![0x01, 0xff, 0x10]);
    assert_eq!(
        parse_hex("0x 0:1 f").unwrap_err().message(),
        "invalid hex input: odd number of hex digits (3)"
    );
}
