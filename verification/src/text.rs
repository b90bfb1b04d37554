//! Recognising printable UTF-8 text.
//!
//! A payload is printable text when it is well-formed UTF-8 (RFC 3629: no
//! overlong encodings, no surrogates, nothing above U+10FFFF) and none of its
//! characters is a control character other than tab, line feed and carriage
//! return.

use vstd::prelude::*;
use vstd::utf8::*;

verus! {

/// A Unicode scalar that is not a control character (C0 controls other than
/// tab, LF and CR; DEL; C1 controls).
pub open spec fn is_printable_scalar(c: u32) -> bool {
    !((c < 0x20 && c != 0x09 && c != 0x0a && c != 0x0d) || (0x7f <= c && c <= 0x9f))
}

/// `bytes` is well-formed UTF-8 and every scalar it encodes is printable.
pub open spec fn is_printable_utf8(bytes: Seq<u8>) -> bool
    decreases bytes.len(),
{
    bytes.len() != 0 ==> {
        &&& valid_first_scalar(bytes)
        &&& is_printable_scalar(decode_first_scalar(bytes))
        &&& is_printable_utf8(pop_first_scalar(bytes))
    }
}

/// Printable UTF-8 is in particular valid UTF-8.
pub proof fn lemma_printable_is_valid(bytes: Seq<u8>)
    requires
        is_printable_utf8(bytes),
    ensures
        valid_utf8(bytes),
    decreases bytes.len(),
{
    if bytes.len() != 0 {
        lemma_printable_is_valid(pop_first_scalar(bytes));
    }
}

/// A well-formed encoding decodes to a value in the range of `char`.
proof fn lemma_first_scalar_range(bytes: Seq<u8>)
    requires
        valid_first_scalar(bytes),
    ensures
        decode_first_scalar(bytes) <= 0x10FFFF,
        ((decode_first_scalar(bytes) as char) as u32) == decode_first_scalar(bytes),
{
    let b0 = bytes[0];
    if is_leading_byte_width_1(b0) {
        assert((b0 & 0x7F) as u32 <= 0x7F) by (bit_vector);
    } else if is_leading_byte_width_2(b0) {
        let b1 = bytes[1];
        assert(((((b0 & 0x1F) as u32) << 6) | ((b1 & 0x3f) as u32)) <= 0x7FF) by (bit_vector);
    } else if is_leading_byte_width_3(b0) {
        let b1 = bytes[1];
        let b2 = bytes[2];
        assert(((((b0 & 0x0F) as u32) << 12) | (((b1 & 0x3f) as u32) << 6) | ((b2 & 0x3f) as u32))
            <= 0xFFFF) by (bit_vector);
    }
}

/// Printable UTF-8 decodes to characters none of which is a control character.
pub proof fn lemma_printable_chars(bytes: Seq<u8>)
    requires
        is_printable_utf8(bytes),
    ensures
        valid_utf8(bytes),
        forall|i: int|
            0 <= i < decode_utf8(bytes).len() ==> is_printable_scalar(
                #[trigger] decode_utf8(bytes)[i] as u32,
            ),
    decreases bytes.len(),
{
    lemma_printable_is_valid(bytes);
    if bytes.len() != 0 {
        let rest = pop_first_scalar(bytes);
        lemma_printable_chars(rest);
        let d = decode_utf8(bytes);
        lemma_first_scalar_range(bytes);
        assert(d == seq![decode_first_scalar(bytes) as char] + decode_utf8(rest));
        assert forall|i: int| 0 <= i < d.len() implies is_printable_scalar(
            #[trigger] d[i] as u32,
        ) by {
            if i == 0 {
                assert(d[0] == decode_first_scalar(bytes) as char);
                assert(is_printable_scalar(decode_first_scalar(bytes)));
            } else {
                assert(d[i] == decode_utf8(rest)[i - 1]);
            }
        }
    }
}

/// Decode the scalar whose encoding begins at `pos`: `None` when the bytes
/// there are not a well-formed encoding of one scalar.
fn first_scalar(buf: &[u8], pos: usize) -> (r: Option<(u32, usize)>)
    requires
        pos < buf.len(),
    ensures
        ({
            let s = buf@.subrange(pos as int, buf@.len() as int);
            &&& r is Some <==> valid_first_scalar(s)
            &&& r matches Some((c, n)) ==> c == decode_first_scalar(s) && n
                == length_of_first_scalar(s)
        }),
{
    let ghost s = buf@.subrange(pos as int, buf@.len() as int);
    let avail = buf.len() - pos;
    let b0 = buf[pos];
    if b0 <= 0x7f {
        Some(((b0 & 0x7F) as u32, 1))
    } else if 0xc0 <= b0 && b0 <= 0xdf {
        if avail < 2 {
            return None;
        }
        let b1 = buf[pos + 1];
        if !(0x80 <= b1 && b1 <= 0xbf) {
            return None;
        }
        let c = (((b0 & 0x1F) as u32) << 6) | ((b1 & 0x3f) as u32);
        if 0x80 <= c && !(0xD800 <= c && c <= 0xDFFF) {
            Some((c, 2))
        } else {
            None
        }
    } else if 0xe0 <= b0 && b0 <= 0xef {
        if avail < 3 {
            return None;
        }
        let b1 = buf[pos + 1];
        let b2 = buf[pos + 2];
        if !(0x80 <= b1 && b1 <= 0xbf && 0x80 <= b2 && b2 <= 0xbf) {
            return None;
        }
        let c = (((b0 & 0x0F) as u32) << 12) | (((b1 & 0x3f) as u32) << 6) | ((b2 & 0x3f) as u32);
        if 0x800 <= c && !(0xD800 <= c && c <= 0xDFFF) {
            Some((c, 3))
        } else {
            None
        }
    } else if 0xf0 <= b0 && b0 <= 0xf7 {
        if avail < 4 {
            return None;
        }
        let b1 = buf[pos + 1];
        let b2 = buf[pos + 2];
        let b3 = buf[pos + 3];
        if !(0x80 <= b1 && b1 <= 0xbf && 0x80 <= b2 && b2 <= 0xbf && 0x80 <= b3 && b3 <= 0xbf) {
            return None;
        }
        let c = (((b0 & 0x07) as u32) << 18) | (((b1 & 0x3f) as u32) << 12) | (((b2 & 0x3f) as u32)
            << 6) | ((b3 & 0x3f) as u32);
        if 0x10000 <= c && c <= 0x10ffff && !(0xD800 <= c && c <= 0xDFFF) {
            Some((c, 4))
        } else {
            None
        }
    } else {
        None
    }
}

/// Whether `c` is printable (see [`is_printable_scalar`]).
fn printable_scalar(c: u32) -> (r: bool)
    ensures
        r == is_printable_scalar(c),
{
    !((c < 0x20 && c != 0x09 && c != 0x0a && c != 0x0d) || (0x7f <= c && c <= 0x9f))
}

/// Whether `bytes` is well-formed, printable UTF-8.
pub fn check_printable_utf8(bytes: &[u8]) -> (r: bool)
    ensures
        r == is_printable_utf8(bytes@),
{
    let n = bytes.len();
    let mut pos: usize = 0;
    assert(bytes@.subrange(0, n as int) =~= bytes@);
    while pos < n
        invariant
            pos <= n == bytes.len(),
            is_printable_utf8(bytes@) == is_printable_utf8(bytes@.subrange(pos as int, n as int)),
        decreases n - pos,
    {
        let ghost s = bytes@.subrange(pos as int, n as int);
        match first_scalar(bytes, pos) {
            None => {
                return false;
            },
            Some((c, k)) => {
                if !printable_scalar(c) {
                    return false;
                }
                assert(pop_first_scalar(s) =~= bytes@.subrange(pos + k, n as int));
                pos = pos + k;
            },
        }
    }
    assert(bytes@.subrange(pos as int, n as int).len() == 0);
    true
}

/// `String::from_utf8`: on well-formed UTF-8 it yields the string of the
/// characters those bytes encode. The error arm is unreachable under the
/// precondition.
#[verifier::external_body]
fn string_from_utf8(raw: &[u8]) -> (s: String)
    requires
        valid_utf8(raw@),
    ensures
        s@ == decode_utf8(raw@),
{
    match String::from_utf8(raw.to_vec()) {
        Ok(s) => s,
        Err(_) => String::new(),
    }
}

/// The payload as text, when it is well-formed, printable UTF-8.
pub fn printable_utf8(raw: &[u8]) -> (r: Option<String>)
    ensures
        r is Some <==> is_printable_utf8(raw@),
        r matches Some(s) ==> valid_utf8(raw@) && s@ == decode_utf8(raw@),
{
    if check_printable_utf8(raw) {
        proof {
            lemma_printable_is_valid(raw@);
        }
        Some(string_from_utf8(raw))
    } else {
        None
    }
}

} // verus!

verus! {

/// Printable text, character by character: a payload is printable UTF-8
/// exactly when it is well-formed UTF-8 and each character it decodes to is
/// tab, line feed, carriage return, in `U+0020..=U+007E`, or at least
/// `U+00A0`; so only the C0 controls, DEL and the C1 controls are refused.
pub proof fn law_printable_utf8_characters(bytes: Seq<u8>)
    ensures
        is_printable_utf8(bytes) <==> valid_utf8(bytes) && forall|i: int|
            0 <= i < decode_utf8(bytes).len() ==> {
                let c = #[trigger] decode_utf8(bytes)[i] as u32;
                c == 0x09 || c == 0x0a || c == 0x0d || (0x20 <= c && c <= 0x7e) || 0xa0 <= c
            },
    decreases bytes.len(),
{
    if is_printable_utf8(bytes) {
        lemma_printable_chars(bytes);
    }
    if valid_utf8(bytes) && bytes.len() != 0 {
        let rest = pop_first_scalar(bytes);
        let d = decode_utf8(bytes);
        lemma_first_scalar_range(bytes);
        law_printable_utf8_characters(rest);
        assert(d == seq![decode_first_scalar(bytes) as char] + decode_utf8(rest));
        if forall|i: int|
            0 <= i < d.len() ==> {
                let c = #[trigger] d[i] as u32;
                c == 0x09 || c == 0x0a || c == 0x0d || (0x20 <= c && c <= 0x7e) || 0xa0 <= c
            } {
            assert(d[0] as u32 == decode_first_scalar(bytes));
            assert forall|i: int| 0 <= i < decode_utf8(rest).len() implies {
                let c = #[trigger] decode_utf8(rest)[i] as u32;
                c == 0x09 || c == 0x0a || c == 0x0d || (0x20 <= c && c <= 0x7e) || 0xa0 <= c
            } by {
                assert(decode_utf8(rest)[i] == d[i + 1]);
            }
        }
    }
}

} // verus!
