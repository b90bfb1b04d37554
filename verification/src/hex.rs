//! Hex text: rendering bytes as lowercase hex, and parsing hex input.

use vstd::prelude::*;
use vstd::string::StringExecFns;
use crate::strings::{chars_of, decimal, push_char, push_decimal, push_str};

verus! {

/// The lowercase hex digit of `d < 16`.
pub open spec fn hex_digit(d: nat) -> char {
    if d < 10 {
        (48 + d) as char
    } else {
        (87 + d) as char
    }
}

/// Two lowercase hex digits per byte, most significant nibble first.
pub open spec fn hex_encode(b: Seq<u8>) -> Seq<char> {
    Seq::new(
        2 * b.len(),
        |i: int|
            if i % 2 == 0 {
                hex_digit((b[i / 2] / 16) as nat)
            } else {
                hex_digit((b[i / 2] % 16) as nat)
            },
    )
}

fn hex_digit_char(d: u8) -> (c: char)
    requires
        d < 16,
    ensures
        c == hex_digit(d as nat),
{
    if d < 10 {
        (48u8 + d) as char
    } else {
        (87u8 + d) as char
    }
}

/// Render bytes as lowercase hex, two digits per byte.
pub fn hex(bytes: &[u8]) -> (r: String)
    ensures
        r@ == hex_encode(bytes@),
{
    let mut s = String::new();
    let n = bytes.len();
    let mut i: usize = 0;
    while i < n
        invariant
            n == bytes.len(),
            i <= n,
            s@ =~= hex_encode(bytes@.take(i as int)),
        decreases n - i,
    {
        let b = bytes[i];
        push_char(&mut s, hex_digit_char(b / 16));
        push_char(&mut s, hex_digit_char(b % 16));
        assert(bytes@.take(i + 1).take(i as int) =~= bytes@.take(i as int));
        assert(s@ =~= hex_encode(bytes@.take(i + 1)));
        i = i + 1;
    }
    assert(bytes@.take(n as int) =~= bytes@);
    s
}

/// A character that may separate hex digits: ASCII whitespace, `:` or `-`.
pub open spec fn is_separator(c: char) -> bool {
    c == ' ' || c == '\t' || c == '\n' || c == '\r' || c == '\x0c' || c == ':' || c == '-'
}

/// The value of a hex digit character, either case.
pub open spec fn hex_value(c: char) -> Option<u8> {
    if '0' <= c && c <= '9' {
        Some((c as u32 - 48) as u8)
    } else if 'a' <= c && c <= 'f' {
        Some((c as u32 - 87) as u8)
    } else if 'A' <= c && c <= 'F' {
        Some((c as u32 - 55) as u8)
    } else {
        None
    }
}

/// Where the digits begin: after a leading `0x`, if there is one (an
/// upper-case `X` is no prefix, and is refused as a non-hex character).
pub open spec fn hex_start(s: Seq<char>) -> int {
    if s.len() >= 2 && s[0] == '0' && s[1] == 'x' {
        2
    } else {
        0
    }
}

/// The digit values of `s[i..]`, skipping separators, or the index of the
/// first character that is neither.
pub open spec fn nibbles_from(s: Seq<char>, i: int) -> Result<Seq<u8>, int>
    decreases s.len() - i,
{
    if i >= s.len() {
        Ok(Seq::empty())
    } else if is_separator(s[i]) {
        nibbles_from(s, i + 1)
    } else {
        match hex_value(s[i]) {
            Some(v) => match nibbles_from(s, i + 1) {
                Ok(rest) => Ok(seq![v] + rest),
                Err(j) => Err(j),
            },
            None => Err(i),
        }
    }
}

/// The reason given for a character that is not a hex digit.
pub open spec fn bad_char_reason(c: char, position: nat) -> Seq<char> {
    "invalid hex character '"@ + seq![c] + "' at position "@ + decimal(position)
}

/// The reason given for an odd number of digits.
pub open spec fn odd_length_reason(digits: nat) -> Seq<char> {
    "odd number of hex digits ("@ + decimal(digits) + ")"@
}

/// Pairs of digit values as bytes, high nibble first.
pub open spec fn pair_nibbles(ns: Seq<u8>) -> Seq<u8> {
    Seq::new(ns.len() / 2, |k: int| (16 * ns[2 * k] + ns[2 * k + 1]) as u8)
}

/// The bytes that hex input denotes, or the reason it is not hex: a leading
/// `0x` is skipped, ASCII whitespace and `:`/`-` separate digits freely,
/// a character that is neither a digit nor a separator is named with its
/// position, and an odd number of digits is refused.
pub open spec fn spec_parse_hex(s: Seq<char>) -> Result<Seq<u8>, Seq<char>> {
    match nibbles_from(s, hex_start(s)) {
        Err(j) => Err(bad_char_reason(s[j], j as nat)),
        Ok(ns) => if ns.len() % 2 != 0 {
            Err(odd_length_reason(ns.len()))
        } else {
            Ok(pair_nibbles(ns))
        },
    }
}

/// `pre` followed by the digits of `r`.
pub open spec fn prefixed_nibbles(pre: Seq<u8>, r: Result<Seq<u8>, int>) -> Result<Seq<u8>, int> {
    match r {
        Ok(s) => Ok(pre + s),
        Err(j) => Err(j),
    }
}

fn hex_value_of(c: char) -> (r: Option<u8>)
    ensures
        r == hex_value(c),
{
    if '0' <= c && c <= '9' {
        Some((c as u32 - 48) as u8)
    } else if 'a' <= c && c <= 'f' {
        Some((c as u32 - 87) as u8)
    } else if 'A' <= c && c <= 'F' {
        Some((c as u32 - 55) as u8)
    } else {
        None
    }
}

/// Parse hex text (see [`spec_parse_hex`]); the error is the reason.
pub fn parse_hex_bytes(input: &str) -> (r: Result<Vec<u8>, String>)
    ensures
        match r {
            Ok(v) => spec_parse_hex(input@) == Ok::<Seq<u8>, Seq<char>>(v@),
            Err(reason) => spec_parse_hex(input@) == Err::<Seq<u8>, Seq<char>>(reason@),
        },
{
    let s = chars_of(input);
    let n = s.len();
    let start: usize = if n >= 2 && s[0] == '0' && s[1] == 'x' {
        2
    } else {
        0
    };
    let mut nibbles: Vec<u8> = Vec::new();
    let mut i = start;
    assert(nibbles_from(s@, start as int) == prefixed_nibbles(nibbles@, nibbles_from(s@, start as int))) by {
        match nibbles_from(s@, start as int) {
            Ok(x) => { assert(Seq::<u8>::empty() + x =~= x); }
            Err(_) => {}
        }
    }
    while i < n
        invariant
            n == s@.len(),
            start <= i <= n,
            start == hex_start(s@),
            s@ == input@,
            forall|k: int| 0 <= k < nibbles@.len() ==> nibbles@[k] < 16,
            nibbles_from(s@, start as int) == prefixed_nibbles(nibbles@, nibbles_from(s@, i as int)),
        decreases n - i,
    {
        let c = s[i];
        if c == ' ' || c == '\t' || c == '\n' || c == '\r' || c == '\x0c' || c == ':' || c == '-' {
        } else {
            match hex_value_of(c) {
                Some(v) => {
                    proof {
                        match nibbles_from(s@, i + 1) {
                            Ok(rest) => { assert(nibbles@ + (seq![v] + rest) =~= nibbles@.push(v) + rest); }
                            Err(_) => {}
                        }
                    }
                    nibbles.push(v);
                },
                None => {
                    let mut reason = String::from_str("invalid hex character '");
                    push_char(&mut reason, c);
                    push_str(&mut reason, "' at position ");
                    push_decimal(&mut reason, i as u64);
                    assert("invalid hex character '"@.push(c) =~= "invalid hex character '"@ + seq![c]);
                    return Err(reason);
                },
            }
        }
        i = i + 1;
    }
    assert(nibbles@ + Seq::<u8>::empty() =~= nibbles@);
    let count = nibbles.len();
    if count % 2 != 0 {
        let mut reason = String::from_str("odd number of hex digits (");
        push_decimal(&mut reason, count as u64);
        push_str(&mut reason, ")");
        return Err(reason);
    }
    let mut out: Vec<u8> = Vec::new();
    let mut k: usize = 0;
    while k < count / 2
        invariant
            count == nibbles@.len(),
            count % 2 == 0,
            k <= count / 2,
            forall|j: int| 0 <= j < nibbles@.len() ==> nibbles@[j] < 16,
            out@ =~= pair_nibbles(nibbles@).take(k as int),
        decreases count / 2 - k,
    {
        let hi = nibbles[2 * k];
        let lo = nibbles[2 * k + 1];
        out.push(16 * hi + lo);
        k = k + 1;
    }
    assert(pair_nibbles(nibbles@).take((count / 2) as int) =~= pair_nibbles(nibbles@));
    Ok(out)
}

} // verus!

verus! {

proof fn lemma_hex_digit_value(d: nat)
    requires
        d < 16,
    ensures
        hex_value(hex_digit(d)) == Some(d as u8),
        !is_separator(hex_digit(d)),
        hex_digit(d) != 'x',
{
}

/// A run of hex digits with no separators reads as the digit values.
proof fn lemma_nibbles_of_digits(s: Seq<char>, i: int)
    requires
        0 <= i <= s.len(),
        forall|j: int| i <= j < s.len() ==> !is_separator(s[j]) && (#[trigger] hex_value(s[j])) is Some,
    ensures
        nibbles_from(s, i) == Ok::<Seq<u8>, int>(
            Seq::new((s.len() - i) as nat, |k: int| hex_value(s[i + k])->Some_0),
        ),
    decreases s.len() - i,
{
    if i < s.len() {
        lemma_nibbles_of_digits(s, i + 1);
        assert(hex_value(s[i]) is Some);
        let rest = Seq::new((s.len() - (i + 1)) as nat, |k: int| hex_value(s[i + 1 + k])->Some_0);
        assert(seq![hex_value(s[i])->Some_0] + rest =~= Seq::new(
            (s.len() - i) as nat,
            |k: int| hex_value(s[i + k])->Some_0,
        ));
    } else {
        assert(Seq::new((s.len() - i) as nat, |k: int| hex_value(s[i + k])->Some_0) =~= Seq::<u8>::empty());
    }
}

/// Parsing the hex rendering of bytes gives the bytes back.
pub proof fn law_parse_hex_inverts_hex(b: Seq<u8>)
    ensures
        spec_parse_hex(hex_encode(b)) == Ok::<Seq<u8>, Seq<char>>(b),
{
    let s = hex_encode(b);
    assert forall|j: int| 0 <= j < s.len() implies !is_separator(s[j]) && (#[trigger] hex_value(s[j])) is Some by {
        if j % 2 == 0 {
            lemma_hex_digit_value((b[j / 2] / 16) as nat);
        } else {
            lemma_hex_digit_value((b[j / 2] % 16) as nat);
        }
    }
    if s.len() >= 2 {
        lemma_hex_digit_value((b[0] % 16) as nat);
        assert(s[1] == hex_digit((b[0] % 16) as nat));
    }
    assert(hex_start(s) == 0);
    lemma_nibbles_of_digits(s, 0);
    let ns = Seq::new(s.len(), |k: int| hex_value(s[0 + k])->Some_0);
    assert(ns.len() % 2 == 0);
    assert forall|k: int| 0 <= k < b.len() implies #[trigger] pair_nibbles(ns)[k] == b[k] by {
        lemma_hex_digit_value((b[k] / 16) as nat);
        lemma_hex_digit_value((b[k] % 16) as nat);
        assert(ns[2 * k] == b[k] / 16);
        assert(ns[2 * k + 1] == b[k] % 16);
    }
    assert(pair_nibbles(ns) =~= b);
}

} // verus!

verus! {

/// The characters of `s[i..]` with the separators removed.
pub open spec fn digits_of(s: Seq<char>, i: int) -> Seq<char>
    decreases s.len() - i,
{
    if i < 0 || i >= s.len() {
        Seq::empty()
    } else if is_separator(s[i]) {
        digits_of(s, i + 1)
    } else {
        seq![s[i]] + digits_of(s, i + 1)
    }
}

/// Reading digits skips separators and fails exactly when a remaining
/// character is not a hex digit; otherwise it gives the value of each one.
proof fn lemma_nibbles_digits(s: Seq<char>, i: int)
    requires
        0 <= i,
    ensures
        (nibbles_from(s, i) is Ok) == (forall|k: int|
            0 <= k < digits_of(s, i).len() ==> (#[trigger] hex_value(digits_of(s, i)[k])) is Some),
        nibbles_from(s, i) matches Ok(ns) ==> ns.len() == digits_of(s, i).len() && forall|k: int|
            0 <= k < ns.len() ==> ns[k] == #[trigger] hex_value(digits_of(s, i)[k])->Some_0,
    decreases s.len() - i,
{
    if i < s.len() {
        lemma_nibbles_digits(s, i + 1);
        let rest = digits_of(s, i + 1);
        if !is_separator(s[i]) {
            let d = digits_of(s, i);
            assert(d == seq![s[i]] + rest);
            assert(d[0] == s[i]);
            assert forall|k: int| 1 <= k < d.len() implies d[k] == rest[k - 1] by {}
            if hex_value(s[i]) is Some {
                if forall|k: int| 0 <= k < rest.len() ==> (#[trigger] hex_value(rest[k])) is Some {
                    assert forall|k: int| 0 <= k < d.len() implies (#[trigger] hex_value(d[k])) is Some by {
                        if k > 0 {
                            assert(d[k] == rest[k - 1]);
                        }
                    }
                } else {
                    let k0 = choose|k: int| 0 <= k < rest.len() && !((#[trigger] hex_value(rest[k])) is Some);
                    assert(d[k0 + 1] == rest[k0]);
                    assert(!(hex_value(d[k0 + 1]) is Some));
                }
            } else {
                assert(!(hex_value(d[0]) is Some));
            }
        }
    }
}

/// Hex parsing read through the digits that remain after the optional `0x`
/// prefix and the separators are dropped: it succeeds exactly when all of
/// them are hex digits and there is an even number of them, and then byte
/// `k` is the value of digits `2k` (high) and `2k + 1` (low).
pub proof fn law_parse_hex_digits(s: Seq<char>)
    ensures
        (spec_parse_hex(s) is Ok) == ((forall|k: int|
            0 <= k < digits_of(s, hex_start(s)).len() ==> (#[trigger] hex_value(
                digits_of(s, hex_start(s))[k],
            )) is Some) && digits_of(s, hex_start(s)).len() % 2 == 0),
        spec_parse_hex(s) matches Ok(bs) ==> bs.len() == digits_of(s, hex_start(s)).len() / 2
            && forall|k: int|
            0 <= k < bs.len() ==> #[trigger] bs[k] == 16 * hex_value(
                digits_of(s, hex_start(s))[2 * k],
            )->Some_0 + hex_value(digits_of(s, hex_start(s))[2 * k + 1])->Some_0,
{
    let t = digits_of(s, hex_start(s));
    lemma_nibbles_digits(s, hex_start(s));
    if let Ok(ns) = nibbles_from(s, hex_start(s)) {
        if ns.len() % 2 == 0 {
            let bs = pair_nibbles(ns);
            assert forall|k: int| 0 <= k < bs.len() implies #[trigger] bs[k] == 16 * hex_value(
                t[2 * k],
            )->Some_0 + hex_value(t[2 * k + 1])->Some_0 by {
                assert(ns[2 * k] == hex_value(t[2 * k])->Some_0);
                assert(ns[2 * k + 1] == hex_value(t[2 * k + 1])->Some_0);
                assert(ns[2 * k] < 16 && ns[2 * k + 1] < 16) by {
                    assert(hex_value(t[2 * k]) is Some);
                    assert(hex_value(t[2 * k + 1]) is Some);
                }
            }
        }
    }
}

} // verus!

verus! {

/// The value of each hex digit character, by its position in its run of
/// digits: `'0'..='9'` are 0 to 9, and `'a'..='f'` and `'A'..='F'` are both
/// 10 to 15 (case does not matter); no other character is a digit.
pub proof fn law_hex_digit_values(c: char)
    ensures
        '0' <= c <= '9' ==> hex_value(c) == Some((c as u32 - '0' as u32) as u8),
        'a' <= c <= 'f' ==> hex_value(c) == Some((c as u32 - 'a' as u32 + 10) as u8),
        'A' <= c <= 'F' ==> hex_value(c) == Some((c as u32 - 'A' as u32 + 10) as u8),
        !('0' <= c <= '9' || 'a' <= c <= 'f' || 'A' <= c <= 'F') ==> hex_value(c) is None,
{
}

/// The upper-case hex digit of `d < 16`.
pub open spec fn upper_hex_digit(d: nat) -> char {
    if d < 10 {
        ('0' as nat + d) as char
    } else {
        ('A' as nat + (d - 10)) as char
    }
}

/// Two upper-case hex digits per byte, most significant nibble first.
pub open spec fn hex_encode_upper(b: Seq<u8>) -> Seq<char> {
    Seq::new(
        2 * b.len(),
        |i: int|
            if i % 2 == 0 {
                upper_hex_digit((b[i / 2] / 16) as nat)
            } else {
                upper_hex_digit((b[i / 2] % 16) as nat)
            },
    )
}

proof fn lemma_upper_digit_value(d: nat)
    requires
        d < 16,
    ensures
        hex_value(upper_hex_digit(d)) == Some(d as u8),
        !is_separator(upper_hex_digit(d)),
        upper_hex_digit(d) != 'x',
{
}

/// Parsing the upper-case hex rendering of bytes gives the bytes back.
pub proof fn law_parse_hex_inverts_upper_hex(b: Seq<u8>)
    ensures
        spec_parse_hex(hex_encode_upper(b)) == Ok::<Seq<u8>, Seq<char>>(b),
{
    let s = hex_encode_upper(b);
    assert forall|j: int| 0 <= j < s.len() implies !is_separator(s[j]) && (#[trigger] hex_value(s[j])) is Some by {
        if j % 2 == 0 {
            lemma_upper_digit_value((b[j / 2] / 16) as nat);
        } else {
            lemma_upper_digit_value((b[j / 2] % 16) as nat);
        }
    }
    if s.len() >= 2 {
        lemma_upper_digit_value((b[0] % 16) as nat);
        assert(s[1] == upper_hex_digit((b[0] % 16) as nat));
    }
    assert(hex_start(s) == 0);
    lemma_nibbles_of_digits(s, 0);
    let ns = Seq::new(s.len(), |k: int| hex_value(s[0 + k])->Some_0);
    assert(ns.len() % 2 == 0);
    assert forall|k: int| 0 <= k < b.len() implies #[trigger] pair_nibbles(ns)[k] == b[k] by {
        lemma_upper_digit_value((b[k] / 16) as nat);
        lemma_upper_digit_value((b[k] % 16) as nat);
        assert(ns[2 * k] == b[k] / 16);
        assert(ns[2 * k + 1] == b[k] % 16);
    }
    assert(pair_nibbles(ns) =~= b);
}

} // verus!
