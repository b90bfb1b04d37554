//! Error type for the schemaless wire decoder.
//!
//! Every variant carries the offending value and its byte offset, so the raw
//! datum and its location travel with the error.

use vstd::prelude::*;
use vstd::string::StringExecFns;
use crate::strings::{decimal, push_decimal, push_str};

verus! {

/// Errors returned while decoding protobuf wire-format bytes.
#[derive(Debug, Clone, PartialEq, Eq)]
#[non_exhaustive]
pub enum Error {
    /// A varint ran off the end of the buffer before its final byte.
    TruncatedVarint {
        /// Byte offset where the varint began.
        offset: usize,
    },
    /// A varint's continuation bit was still set after ten bytes.
    OverlongVarint {
        /// Byte offset where the varint began.
        offset: usize,
    },
    /// A varint's tenth byte carried payload bits above bit 63.
    VarintOverflow {
        /// Byte offset where the varint began.
        offset: usize,
    },
    /// Ran off the end of the buffer while reading a fixed-width field.
    UnexpectedEof {
        /// What was being read (`"fixed32"` or `"fixed64"`).
        what: &'static str,
        /// Byte offset where the read began.
        offset: usize,
    },
    /// A length-delimited field's length exceeds the bytes remaining.
    LengthOutOfRange {
        /// The offending length value.
        value: u64,
        /// The bytes actually available.
        available: usize,
        /// Byte offset where the length prefix was read.
        offset: usize,
    },
    /// A tag's wire type was 6 or 7.
    InvalidWireType {
        /// The offending 3-bit wire-type value.
        value: u8,
        /// Byte offset of the tag.
        offset: usize,
    },
    /// A tag encoded field number 0, or a number above 2^29 - 1.
    InvalidFieldNumber {
        /// The offending field number.
        value: u64,
        /// Byte offset of the tag.
        offset: usize,
    },
    /// A group-end tag with no matching open group.
    UnexpectedEndGroup {
        /// The field number carried by the group-end tag.
        field: u64,
        /// Byte offset of the tag.
        offset: usize,
    },
    /// A group-start was never closed before the buffer ended.
    UnterminatedGroup {
        /// The field number of the unterminated group.
        field: u64,
        /// Byte offset where the group opened.
        offset: usize,
    },
    /// Nesting exceeded the configured depth limit.
    DepthLimitExceeded {
        /// The configured maximum depth.
        limit: usize,
        /// Byte offset where the limit was hit.
        offset: usize,
    },
}

/// The byte offset carried by an error.
pub open spec fn error_offset(e: Error) -> usize {
    match e {
        Error::TruncatedVarint { offset } => offset,
        Error::OverlongVarint { offset } => offset,
        Error::VarintOverflow { offset } => offset,
        Error::UnexpectedEof { offset, .. } => offset,
        Error::LengthOutOfRange { offset, .. } => offset,
        Error::InvalidWireType { offset, .. } => offset,
        Error::InvalidFieldNumber { offset, .. } => offset,
        Error::UnexpectedEndGroup { offset, .. } => offset,
        Error::UnterminatedGroup { offset, .. } => offset,
        Error::DepthLimitExceeded { offset, .. } => offset,
    }
}

impl Error {
    /// The byte offset associated with this error, for reporting.
    pub fn offset(&self) -> (r: usize)
        ensures
            r == error_offset(*self),
    {
        match self {
            Error::TruncatedVarint { offset } => *offset,
            Error::OverlongVarint { offset } => *offset,
            Error::VarintOverflow { offset } => *offset,
            Error::UnexpectedEof { offset, .. } => *offset,
            Error::LengthOutOfRange { offset, .. } => *offset,
            Error::InvalidWireType { offset, .. } => *offset,
            Error::InvalidFieldNumber { offset, .. } => *offset,
            Error::UnexpectedEndGroup { offset, .. } => *offset,
            Error::UnterminatedGroup { offset, .. } => *offset,
            Error::DepthLimitExceeded { offset, .. } => *offset,
        }
    }
}

} // verus!

verus! {

/// The human-readable description of an error.
pub open spec fn error_message(e: Error) -> Seq<char> {
    match e {
        Error::TruncatedVarint { offset } => "truncated varint at offset "@ + decimal(offset as nat),
        Error::OverlongVarint { offset } => "overlong varint (>10 bytes) at offset "@ + decimal(
            offset as nat,
        ),
        Error::VarintOverflow { offset } => "varint overflows u64 at offset "@ + decimal(offset as nat),
        Error::UnexpectedEof { what, offset } => "unexpected end of input reading "@ + what@
            + " at offset "@ + decimal(offset as nat),
        Error::LengthOutOfRange { value, available, offset } => "length-delimited field claims "@
            + decimal(value as nat) + " bytes but only "@ + decimal(available as nat)
            + " remain (at offset "@ + decimal(offset as nat) + ")"@,
        Error::InvalidWireType { value, offset } => "invalid wire type "@ + decimal(value as nat)
            + " at offset "@ + decimal(offset as nat),
        Error::InvalidFieldNumber { value, offset } => "invalid field number "@ + decimal(
            value as nat,
        ) + " at offset "@ + decimal(offset as nat),
        Error::UnexpectedEndGroup { field, offset } => "unexpected group-end tag for field "@
            + decimal(field as nat) + " at offset "@ + decimal(offset as nat),
        Error::UnterminatedGroup { field, offset } => "unterminated group for field "@ + decimal(
            field as nat,
        ) + " opened at offset "@ + decimal(offset as nat),
        Error::DepthLimitExceeded { limit, offset } => "nesting depth limit "@ + decimal(
            limit as nat,
        ) + " exceeded at offset "@ + decimal(offset as nat),
    }
}

impl Error {
    /// The human-readable description of this error (its `Display` text).
    pub fn message(&self) -> (r: String)
        ensures
            r@ == error_message(*self),
    {
        match self {
            Error::TruncatedVarint { offset } => {
                let mut s = String::from_str("truncated varint at offset ");
                push_decimal(&mut s, *offset as u64);
                s
            },
            Error::OverlongVarint { offset } => {
                let mut s = String::from_str("overlong varint (>10 bytes) at offset ");
                push_decimal(&mut s, *offset as u64);
                s
            },
            Error::VarintOverflow { offset } => {
                let mut s = String::from_str("varint overflows u64 at offset ");
                push_decimal(&mut s, *offset as u64);
                s
            },
            Error::UnexpectedEof { what, offset } => {
                let mut s = String::from_str("unexpected end of input reading ");
                push_str(&mut s, what);
                push_str(&mut s, " at offset ");
                push_decimal(&mut s, *offset as u64);
                s
            },
            Error::LengthOutOfRange { value, available, offset } => {
                let mut s = String::from_str("length-delimited field claims ");
                push_decimal(&mut s, *value);
                push_str(&mut s, " bytes but only ");
                push_decimal(&mut s, *available as u64);
                push_str(&mut s, " remain (at offset ");
                push_decimal(&mut s, *offset as u64);
                push_str(&mut s, ")");
                s
            },
            Error::InvalidWireType { value, offset } => {
                let mut s = String::from_str("invalid wire type ");
                push_decimal(&mut s, *value as u64);
                push_str(&mut s, " at offset ");
                push_decimal(&mut s, *offset as u64);
                s
            },
            Error::InvalidFieldNumber { value, offset } => {
                let mut s = String::from_str("invalid field number ");
                push_decimal(&mut s, *value);
                push_str(&mut s, " at offset ");
                push_decimal(&mut s, *offset as u64);
                s
            },
            Error::UnexpectedEndGroup { field, offset } => {
                let mut s = String::from_str("unexpected group-end tag for field ");
                push_decimal(&mut s, *field);
                push_str(&mut s, " at offset ");
                push_decimal(&mut s, *offset as u64);
                s
            },
            Error::UnterminatedGroup { field, offset } => {
                let mut s = String::from_str("unterminated group for field ");
                push_decimal(&mut s, *field);
                push_str(&mut s, " opened at offset ");
                push_decimal(&mut s, *offset as u64);
                s
            },
            Error::DepthLimitExceeded { limit, offset } => {
                let mut s = String::from_str("nesting depth limit ");
                push_decimal(&mut s, *limit as u64);
                push_str(&mut s, " exceeded at offset ");
                push_decimal(&mut s, *offset as u64);
                s
            },
        }
    }
}

} // verus!

verus! {

/// `t` occurs in `s` as a contiguous run.
pub open spec fn contains_text(s: Seq<char>, t: Seq<char>) -> bool {
    exists|k: int| 0 <= k && k + t.len() <= s.len() && #[trigger] s.subrange(k, k + t.len()) == t
}

/// `t` occurs in `a + t + b`.
pub proof fn lemma_infix(a: Seq<char>, t: Seq<char>, b: Seq<char>)
    ensures
        contains_text(a + t + b, t),
{
    let s = a + t + b;
    assert(s.subrange(a.len() as int, (a.len() + t.len()) as int) =~= t);
}

/// Every error message shows the error's offset in decimal and each other
/// datum the error carries (the offending value, the bytes available, what
/// was being read, the field number or the depth limit).
pub proof fn law_error_message_shows_data(e: Error)
    ensures
        contains_text(error_message(e), decimal(error_offset(e) as nat)),
        match e {
            Error::UnexpectedEof { what, .. } => contains_text(error_message(e), what@),
            Error::LengthOutOfRange { value, available, .. } => contains_text(
                error_message(e),
                decimal(value as nat),
            ) && contains_text(error_message(e), decimal(available as nat)),
            Error::InvalidWireType { value, .. } => contains_text(error_message(e), decimal(value as nat)),
            Error::InvalidFieldNumber { value, .. } => contains_text(error_message(e), decimal(value as nat)),
            Error::UnexpectedEndGroup { field, .. } => contains_text(error_message(e), decimal(field as nat)),
            Error::UnterminatedGroup { field, .. } => contains_text(error_message(e), decimal(field as nat)),
            Error::DepthLimitExceeded { limit, .. } => contains_text(error_message(e), decimal(limit as nat)),
            _ => true,
        },
{
    let m = error_message(e);
    let e0 = Seq::<char>::empty();
    match e {
        Error::TruncatedVarint { offset } => {
            let p = "truncated varint at offset "@;
            assert(m =~= p + decimal(offset as nat) + e0);
            lemma_infix(p, decimal(offset as nat), e0);
        },
        Error::OverlongVarint { offset } => {
            let p = "overlong varint (>10 bytes) at offset "@;
            assert(m =~= p + decimal(offset as nat) + e0);
            lemma_infix(p, decimal(offset as nat), e0);
        },
        Error::VarintOverflow { offset } => {
            let p = "varint overflows u64 at offset "@;
            assert(m =~= p + decimal(offset as nat) + e0);
            lemma_infix(p, decimal(offset as nat), e0);
        },
        Error::UnexpectedEof { what, offset } => {
            let p1 = "unexpected end of input reading "@;
            let p2 = " at offset "@;
            let d = decimal(offset as nat);
            assert(m =~= p1 + what@ + (p2 + d));
            lemma_infix(p1, what@, p2 + d);
            assert(m =~= (p1 + what@ + p2) + d + e0);
            lemma_infix(p1 + what@ + p2, d, e0);
        },
        Error::LengthOutOfRange { value, available, offset } => {
            let p1 = "length-delimited field claims "@;
            let p2 = " bytes but only "@;
            let p3 = " remain (at offset "@;
            let p4 = ")"@;
            let dv = decimal(value as nat);
            let da = decimal(available as nat);
            let d = decimal(offset as nat);
            assert(m =~= p1 + dv + (p2 + da + p3 + d + p4));
            lemma_infix(p1, dv, p2 + da + p3 + d + p4);
            assert(m =~= (p1 + dv + p2) + da + (p3 + d + p4));
            lemma_infix(p1 + dv + p2, da, p3 + d + p4);
            assert(m =~= (p1 + dv + p2 + da + p3) + d + p4);
            lemma_infix(p1 + dv + p2 + da + p3, d, p4);
        },
        Error::InvalidWireType { value, offset } => {
            let p1 = "invalid wire type "@;
            let p2 = " at offset "@;
            let dv = decimal(value as nat);
            let d = decimal(offset as nat);
            assert(m =~= p1 + dv + (p2 + d));
            lemma_infix(p1, dv, p2 + d);
            assert(m =~= (p1 + dv + p2) + d + e0);
            lemma_infix(p1 + dv + p2, d, e0);
        },
        Error::InvalidFieldNumber { value, offset } => {
            let p1 = "invalid field number "@;
            let p2 = " at offset "@;
            let dv = decimal(value as nat);
            let d = decimal(offset as nat);
            assert(m =~= p1 + dv + (p2 + d));
            lemma_infix(p1, dv, p2 + d);
            assert(m =~= (p1 + dv + p2) + d + e0);
            lemma_infix(p1 + dv + p2, d, e0);
        },
        Error::UnexpectedEndGroup { field, offset } => {
            let p1 = "unexpected group-end tag for field "@;
            let p2 = " at offset "@;
            let dv = decimal(field as nat);
            let d = decimal(offset as nat);
            assert(m =~= p1 + dv + (p2 + d));
            lemma_infix(p1, dv, p2 + d);
            assert(m =~= (p1 + dv + p2) + d + e0);
            lemma_infix(p1 + dv + p2, d, e0);
        },
        Error::UnterminatedGroup { field, offset } => {
            let p1 = "unterminated group for field "@;
            let p2 = " opened at offset "@;
            let dv = decimal(field as nat);
            let d = decimal(offset as nat);
            assert(m =~= p1 + dv + (p2 + d));
            lemma_infix(p1, dv, p2 + d);
            assert(m =~= (p1 + dv + p2) + d + e0);
            lemma_infix(p1 + dv + p2, d, e0);
        },
        Error::DepthLimitExceeded { limit, offset } => {
            let p1 = "nesting depth limit "@;
            let p2 = " exceeded at offset "@;
            let dv = decimal(limit as nat);
            let d = decimal(offset as nat);
            assert(m =~= p1 + dv + (p2 + d));
            lemma_infix(p1, dv, p2 + d);
            assert(m =~= (p1 + dv + p2) + d + e0);
            lemma_infix(p1 + dv + p2, d, e0);
        },
    }
}

} // verus!
