//! Schemaless Protocol Buffers wire-format decoder with a forensic analysis
//! layer, verified with Verus.
//!
//! The wire format: `tag = (field_number << 3) | wire_type`, where wire type
//! `0` is a varint, `1` is fixed 8 bytes (`I64`), `2` is length-delimited
//! (`LEN`), `3`/`4` are the deprecated group markers, and `5` is fixed 4 bytes
//! (`I32`).
#![allow(unused_imports)]

pub mod analysis;
pub mod cli;
pub mod error;
pub mod hex;
pub mod strings;
pub mod laws;
pub mod packed;
pub mod reader;
pub mod relocate;
pub mod render;
pub mod text;
pub mod timestamps;
pub mod varint;
pub mod wire;

pub use analysis::{
    analyze, analyze_fields, analyze_with, Analysis, AnalyzedField, AnalyzedValue, Confidence,
};
pub use cli::{parse_hex, CliError, Format};
pub use error::Error;
pub use hex::hex;
pub use timestamps::{source_str, TimeSource};
pub use packed::{packed_i32, packed_i64, packed_varints};
pub use reader::{decode, decode_message, decode_with_limits};
pub use text::printable_utf8;
pub use wire::{
    zigzag_decode, Field, FieldValue, LenInterp, LenValue, Limits, WireType, DEFAULT_MAX_DEPTH,
    MAX_FIELD_NUMBER,
};
