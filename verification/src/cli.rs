//! The command-line front end's decisions: output formats, errors, and the
//! parsing of `--hex` input.

use vstd::prelude::*;
use vstd::string::StringExecFns;
use crate::error::{error_message, Error};
use crate::hex::{parse_hex_bytes, spec_parse_hex};
use crate::strings::push_str;

verus! {

/// Output format.
#[derive(Clone, Copy, Debug, PartialEq, Eq, Structural)]
pub enum Format {
    /// Human-readable, indented field tree with confidence, notes, and timestamps.
    Text,
    /// One JSON object per field (pre-order, path-addressed).
    Jsonl,
    /// A protoscope-like `N: value` / `N: { ... }` rendering.
    Protoscope,
}

#[verifier::external_type_specification]
#[verifier::external_body]
pub struct ExIoError(std::io::Error);

/// Errors surfaced by the command-line tool.
#[derive(Debug)]
#[non_exhaustive]
pub enum CliError {
    /// The wire decode failed.
    Decode(Error),
    /// A `--hex` argument was not valid hex; the reason names the offending
    /// character and its position, or the digit count.
    Hex {
        /// A human description of the problem.
        reason: String,
    },
    /// An I/O error reading input or writing output.
    Io(std::io::Error),
}

/// `io::Error`'s `Display` text. What it says depends on the operating
/// system's error messages, so nothing is stated of it.
#[verifier::external_body]
fn io_error_text(e: &std::io::Error) -> String {
    e.to_string()
}

impl CliError {
    /// The human-readable description of this error (its `Display` text).
    pub fn message(&self) -> (r: String)
        ensures
            *self matches CliError::Decode(e) ==> r@ == "protobuf decode error: "@ + error_message(e),
            *self matches CliError::Hex { reason } ==> r@ == "invalid hex input: "@ + reason@,
            *self matches CliError::Io(_) ==> r@.len() >= "I/O error: "@.len() && r@.subrange(
                0,
                "I/O error: "@.len() as int,
            ) == "I/O error: "@,
    {
        match self {
            CliError::Decode(e) => {
                let mut s = String::from_str("protobuf decode error: ");
                let m = e.message();
                push_str(&mut s, m.as_str());
                s
            },
            CliError::Hex { reason } => {
                let mut s = String::from_str("invalid hex input: ");
                push_str(&mut s, reason.as_str());
                s
            },
            CliError::Io(e) => {
                let mut s = String::from_str("I/O error: ");
                let ghost prefix = s@;
                let t = io_error_text(e);
                push_str(&mut s, t.as_str());
                assert(s@.subrange(0, prefix.len() as int) =~= prefix);
                s
            },
        }
    }
}

impl From<Error> for CliError {
    fn from(e: Error) -> (r: CliError) {
        CliError::Decode(e)
    }
}

impl vstd::std_specs::convert::FromSpecImpl<Error> for CliError {
    open spec fn obeys_from_spec() -> bool {
        true
    }

    open spec fn from_spec(e: Error) -> CliError {
        CliError::Decode(e)
    }
}

impl From<std::io::Error> for CliError {
    fn from(e: std::io::Error) -> (r: CliError) {
        CliError::Io(e)
    }
}

impl vstd::std_specs::convert::FromSpecImpl<std::io::Error> for CliError {
    open spec fn obeys_from_spec() -> bool {
        true
    }

    open spec fn from_spec(e: std::io::Error) -> CliError {
        CliError::Io(e)
    }
}

/// Parse a hex string into bytes, tolerating a leading `0x`, ASCII
/// whitespace, and `:`/`-` separators. Odd length or a non-hex character is
/// an error naming the offending character and position.
pub fn parse_hex(input: &str) -> (r: Result<Vec<u8>, CliError>)
    ensures
        match r {
            Ok(v) => spec_parse_hex(input@) == Ok::<Seq<u8>, Seq<char>>(v@),
            Err(e) => e matches CliError::Hex { reason } && spec_parse_hex(input@) == Err::<
                Seq<u8>,
                Seq<char>,
            >(reason@),
        },
{
    match parse_hex_bytes(input) {
        Ok(v) => Ok(v),
        Err(reason) => Err(CliError::Hex { reason }),
    }
}

} // verus!
