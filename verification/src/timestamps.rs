//! Where a timestamp reading comes from.

use vstd::prelude::*;

verus! {

/// Which numeric view of a field was read as a timestamp.
#[derive(Debug, Clone, Copy, PartialEq, Eq, Structural)]
pub enum TimeSource {
    /// A varint value, read as a signed integer.
    Varint,
    /// A fixed 8-byte value, its bits read as a signed integer.
    Fixed64AsInt,
    /// A fixed 8-byte value, its bits read as an IEEE-754 double.
    Fixed64AsFloat,
    /// A fixed 4-byte value, read as a signed integer.
    Fixed32AsInt,
}

/// The label of a timestamp source.
pub open spec fn source_label(source: TimeSource) -> Seq<char> {
    match source {
        TimeSource::Varint => "varint"@,
        TimeSource::Fixed64AsInt => "fixed64:int"@,
        TimeSource::Fixed64AsFloat => "fixed64:double"@,
        TimeSource::Fixed32AsInt => "fixed32:int"@,
    }
}

/// The label of a timestamp source, as rendered.
pub fn source_str(source: TimeSource) -> (r: &'static str)
    ensures
        r@ == source_label(source),
{
    match source {
        TimeSource::Varint => "varint",
        TimeSource::Fixed64AsInt => "fixed64:int",
        TimeSource::Fixed64AsFloat => "fixed64:double",
        TimeSource::Fixed32AsInt => "fixed32:int",
    }
}

/// A varint's value read as a signed integer: values above `i64::MAX` have no
/// signed reading.
pub fn varint_as_signed(value: u64) -> (r: Option<i64>)
    ensures
        value <= i64::MAX ==> r == Some(value as i64),
        value > i64::MAX ==> r is None,
{
    if value <= i64::MAX as u64 {
        Some(value as i64)
    } else {
        None
    }
}

} // verus!
