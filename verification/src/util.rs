//! Hexadecimal text, timestamp text and sign conversion.

use vstd::prelude::*;
use vstd::string::*;
use vstd::utf8::*;

use crate::text;
use crate::text::chars_of;
use crate::timestamp;
use crate::timestamp::{read_rfc3339, write_rfc3339, Timestamp};

verus! {

/// The lower-case hexadecimal digit for a value below sixteen.
pub open spec fn hex_digit(v: int) -> char {
    if v < 10 {
        (48 + v) as char
    } else {
        (87 + v) as char
    }
}

/// The value of a hexadecimal digit of either case.
pub open spec fn hex_value(c: char) -> Option<int> {
    if '0' <= c <= '9' {
        Some(c as int - 48)
    } else if 'a' <= c <= 'f' {
        Some(c as int - 87)
    } else if 'A' <= c <= 'F' {
        Some(c as int - 55)
    } else {
        None
    }
}

/// Two lower-case hexadecimal digits for every byte.
pub open spec fn hex_text(bytes: Seq<u8>) -> Seq<char> {
    Seq::new(
        bytes.len() * 2,
        |i: int|
            if i % 2 == 0 {
                hex_digit(bytes[i / 2] as int / 16)
            } else {
                hex_digit(bytes[i / 2] as int % 16)
            },
    )
}

/// The byte that a pair of characters denotes: two hexadecimal digits, or a
/// plus sign and one digit.
pub open spec fn hex_pair(a: char, b: char) -> Option<int> {
    match (hex_value(a), hex_value(b)) {
        (Some(x), Some(y)) => Some(16 * x + y),
        (None, Some(y)) => if a == '+' {
            Some(y)
        } else {
            None
        },
        _ => None,
    }
}

/// The text is made of pairs that each denote a byte.
pub open spec fn is_hex(s: Seq<char>) -> bool {
    &&& s.len() % 2 == 0
    &&& forall|i: int| 0 <= i < s.len() / 2 ==> #[trigger] hex_pair(s[2 * i], s[2 * i + 1]) is Some
}

/// A lower-case hexadecimal digit.
pub open spec fn is_lower_digit(c: char) -> bool {
    '0' <= c <= '9' || 'a' <= c <= 'f'
}

/// The text is made of pairs of lower-case hexadecimal digits.
pub open spec fn lower_hex(s: Seq<char>) -> bool {
    &&& s.len() % 2 == 0
    &&& forall|i: int| 0 <= i < s.len() ==> is_lower_digit(#[trigger] s[i])
}

/// The bytes that a text of pairs denotes.
pub open spec fn hex_bytes(s: Seq<char>) -> Seq<u8> {
    Seq::new(s.len() / 2, |i: int| hex_pair(s[2 * i], s[2 * i + 1])->Some_0 as u8)
}

pub(crate) fn digit_of(v: u8) -> (c: char)
    requires
        v < 16,
    ensures
        c == hex_digit(v as int),
{
    if v < 10 {
        (48 + v) as char
    } else {
        (87 + v) as char
    }
}

pub(crate) fn value_of(c: char) -> (r: Option<u8>)
    ensures
        r is Some == hex_value(c) is Some,
        r matches Some(v) ==> v == hex_value(c)->Some_0 && v < 16,
{
    let code: u32 = c as u32;
    if c >= '0' && c <= '9' {
        Some((code - 48) as u8)
    } else if c >= 'a' && c <= 'f' {
        Some((code - 87) as u8)
    } else if c >= 'A' && c <= 'F' {
        Some((code - 55) as u8)
    } else {
        None
    }
}

/// The bytes that a text of lower-case hexadecimal digits denotes, if it is
/// one.
pub fn lower_hex_decode(s: &str) -> (r: Option<Vec<u8>>)
    ensures
        r is Some == lower_hex(s@),
        r matches Some(v) ==> v@ == hex_bytes(s@),
{
    let chars = chars_of(s);
    let n: usize = chars.len();
    for i in 0..n
        invariant
            n == chars@.len(),
            chars@ == s@,
            forall|j: int| 0 <= j < i ==> is_lower_digit(#[trigger] s@[j]),
    {
        let c: char = chars[i];
        if !((c >= '0' && c <= '9') || (c >= 'a' && c <= 'f')) {
            assert(!is_lower_digit(s@[i as int]));
            return None;
        }
    }
    proof {
        if s@.len() % 2 == 0 {
            assert forall|i: int| 0 <= i < s@.len() / 2 implies #[trigger] hex_pair(
                s@[2 * i],
                s@[2 * i + 1],
            ) is Some by {
                assert(is_lower_digit(s@[2 * i]));
                assert(is_lower_digit(s@[2 * i + 1]));
            }
        }
    }
    hex_decode(s)
}

/// Writes bytes as lower-case hexadecimal text.
pub fn hex_encode(bytes: &[u8]) -> (r: String)
    ensures
        r@ == hex_text(bytes@),
{
    let mut out = String::new();
    let n: usize = bytes.len();
    for i in 0..n
        invariant
            n == bytes@.len(),
            out@ == hex_text(bytes@.take(i as int)),
    {
        let b: u8 = bytes[i];
        out.push(digit_of(b / 16));
        out.push(digit_of(b % 16));
        assert(out@ =~= hex_text(bytes@.take(i + 1))) by {
            let a = bytes@.take(i as int);
            let z = bytes@.take(i + 1);
            assert(hex_text(z).len() == hex_text(a).len() + 2);
            assert forall|k: int| 0 <= k < hex_text(a).len() implies hex_text(a)[k] == hex_text(
                z,
            )[k] by {
                assert(a[k / 2] == z[k / 2]);
            }
        }
    }
    assert(bytes@.take(n as int) =~= bytes@);
    out
}

/// Reads hexadecimal text; `None` where some pair of characters denotes no
/// byte or a character is left over.
pub fn hex_decode(s: &str) -> (r: Option<Vec<u8>>)
    ensures
        r is Some == is_hex(s@),
        r matches Some(v) ==> v@ == hex_bytes(s@),
{
    let chars = chars_of(s);
    let n: usize = chars.len();
    if n % 2 != 0 {
        return None;
    }
    let half: usize = n / 2;
    let mut out: Vec<u8> = Vec::new();
    for i in 0..half
        invariant
            chars@ == s@,
            n == chars@.len(),
            n % 2 == 0,
            half == n / 2,
            forall|k: int|
                0 <= k < i ==> #[trigger] hex_pair(s@[2 * k], s@[2 * k + 1]) is Some,
            out@ == hex_bytes(s@).take(i as int),
    {
        let a: char = chars[2 * i];
        let b: char = chars[2 * i + 1];
        let ghost pair = hex_pair(s@[2 * i], s@[2 * i + 1]);
        let low = match value_of(b) {
            Some(v) => v,
            None => {
                assert(hex_pair(s@[2 * i], s@[2 * i + 1]) is None);
                return None;
            },
        };
        let byte: u8 = match value_of(a) {
            Some(v) => v * 16 + low,
            None => {
                if a != '+' {
                    assert(hex_pair(s@[2 * i], s@[2 * i + 1]) is None);
                    return None;
                }
                low
            },
        };
        out.push(byte);
        assert(hex_bytes(s@)[i as int] == byte);
        assert(out@ =~= hex_bytes(s@).take(i + 1));
    }
    assert(hex_bytes(s@).take(half as int) =~= hex_bytes(s@));
    Some(out)
}

/// Decoding undoes encoding: the text of some bytes is hexadecimal, and it
/// denotes those bytes.
pub proof fn lemma_hex_round_trip(bytes: Seq<u8>)
    ensures
        is_hex(hex_text(bytes)),
        hex_bytes(hex_text(bytes)) == bytes,
{
    let s = hex_text(bytes);
    assert forall|i: int| 0 <= i < s.len() / 2 implies #[trigger] hex_pair(s[2 * i], s[2 * i + 1])
        == Some(bytes[i] as int) by {
        assert((2 * i) % 2 == 0 && (2 * i) / 2 == i && (2 * i + 1) % 2 == 1 && (2 * i + 1) / 2
            == i);
        let hi = bytes[i] as int / 16;
        let lo = bytes[i] as int % 16;
        assert(hex_value(hex_digit(hi)) == Some(hi));
        assert(hex_value(hex_digit(lo)) == Some(lo));
    }
    assert(hex_bytes(s) =~= bytes);
}

/// Hexadecimal text is at most ASCII: a text with any other character denotes
/// no bytes.
pub proof fn lemma_hex_is_ascii(s: Seq<char>)
    requires
        is_hex(s),
    ensures
        is_ascii_chars(s),
{
    assert forall|k: int| 0 <= k < s.len() implies '\0' <= #[trigger] s[k] <= '\u{7f}' by {
        let i = k / 2;
        assert(hex_pair(s[2 * i], s[2 * i + 1]) is Some);
    }
}

/// Reads an RFC 3339 text, its offset left out.
pub fn parse_rfc3339(s: &str) -> (r: Option<Timestamp>)
    ensures
        r == (match timestamp::rfc3339_value(s@) {
            Some(nanos) => Some(Timestamp { nanos }),
            None => None,
        }),
        r matches Some(ts) ==> ts.valid(),
{
    match read_rfc3339(s) {
        Some(nanos) => Some(Timestamp { nanos }),
        None => None,
    }
}

/// The text of an optional formatted value: empty where there is none.
pub open spec fn or_empty(s: Option<Seq<char>>) -> Seq<char> {
    match s {
        Some(t) => t,
        None => Seq::empty(),
    }
}

/// The text, or an empty one.
pub fn text_or_empty(s: Option<String>) -> (r: String)
    ensures
        r@ == or_empty(text::opt_view(s)),
{
    match s {
        Some(t) => t,
        None => String::new(),
    }
}

/// The RFC 3339 text of a point in time; empty for a year that has none.
pub open spec fn ts_text(ts: Timestamp) -> Seq<char> {
    or_empty(timestamp::rfc3339_text(ts.nanos))
}

/// Writes a point in time as RFC 3339 text; empty for a year that has none.
pub fn format_ts(ts: Timestamp) -> (r: String)
    ensures
        r@ == ts_text(ts),
{
    text_or_empty(write_rfc3339(ts.nanos))
}

/// The signed number that the low 64 bits of an unsigned one denote.
pub open spec fn wrapped(n: u64) -> int {
    if n <= i64::MAX {
        n as int
    } else {
        n - 0x1_0000_0000_0000_0000
    }
}

/// Takes an unsigned number as a signed one of the same bits.
pub fn as_signed(n: u64) -> (r: i64)
    ensures
        r == wrapped(n),
{
    assert(n > 0x7fff_ffff_ffff_ffffu64 ==> (n as i64) == n - 0x1_0000_0000_0000_0000)
        by (bit_vector);
    n as i64
}

// ---------------------------------------------------------------- laws

/// The text of some bytes is in lower case, two digits for each byte.
pub proof fn lemma_hex_text_is_lower_case(bytes: Seq<u8>)
    ensures
        lower_hex(hex_text(bytes)),
        hex_text(bytes).len() == 2 * bytes.len(),
{
    let s = hex_text(bytes);
    assert forall|i: int| 0 <= i < s.len() implies is_lower_digit(#[trigger] s[i]) by {
        let b = bytes[i / 2] as int;
        assert(0 <= b / 16 < 16 && 0 <= b % 16 < 16);
    }
}

/// Encoding undoes decoding: a text in lower case is the text of the bytes
/// that it denotes.
pub proof fn lemma_lower_hex_round_trip(s: Seq<char>)
    requires
        lower_hex(s),
    ensures
        is_hex(s),
        hex_text(hex_bytes(s)) == s,
{
    let b = hex_bytes(s);
    assert forall|i: int| 0 <= i < s.len() / 2 implies #[trigger] hex_pair(s[2 * i], s[2 * i + 1])
        is Some by {
        assert(is_lower_digit(s[2 * i]));
        assert(is_lower_digit(s[2 * i + 1]));
    }
    let t = hex_text(b);
    assert(t.len() == s.len());
    assert forall|k: int| 0 <= k < s.len() implies t[k] == s[k] by {
        let i = k / 2;
        assert(is_lower_digit(s[2 * i]));
        assert(is_lower_digit(s[2 * i + 1]));
        let x = hex_value(s[2 * i])->Some_0;
        let y = hex_value(s[2 * i + 1])->Some_0;
        assert(hex_pair(s[2 * i], s[2 * i + 1]) == Some(16 * x + y));
        assert(0 <= x < 16 && 0 <= y < 16);
        assert(b[i] == 16 * x + y);
        assert((16 * x + y) / 16 == x && (16 * x + y) % 16 == y);
        assert(hex_digit(x) == s[2 * i] && hex_digit(y) == s[2 * i + 1]);
        if k % 2 == 0 {
            assert(k == 2 * i);
        } else {
            assert(k == 2 * i + 1);
        }
    }
    assert(t =~= s);
}

/// A text is taken for lower case hexadecimal only where it has an even number
/// of characters, each a digit or a letter from `a` to `f`.
pub proof fn lemma_what_is_lower_hex(s: Seq<char>, i: int)
    requires
        0 <= i < s.len(),
    ensures
        s.len() % 2 == 1 ==> !lower_hex(s) && !is_hex(s),
        !('0' <= s[i] <= '9') && !('a' <= s[i] <= 'f') ==> !lower_hex(s),
{
}

/// The case of a digit does not change its value, each digit has its own, and
/// nothing else has one.
pub proof fn lemma_digit_values(c: char, v: int)
    ensures
        0 <= v < 10 ==> hex_value((48 + v) as char) == Some(v),
        10 <= v < 16 ==> hex_value((87 + v) as char) == Some(v) && hex_value((55 + v) as char)
            == Some(v),
        hex_value(c) is Some <==> '0' <= c <= '9' || 'a' <= c <= 'f' || 'A' <= c <= 'F',
        hex_value(c) matches Some(x) ==> 0 <= x < 16,
{
}

/// Two digits denote a byte with the first as the higher half.
pub proof fn lemma_pair_values(a: char, b: char)
    ensures
        hex_value(a) is Some && hex_value(b) is Some ==> hex_pair(a, b) == Some(
            16 * hex_value(a)->Some_0 + hex_value(b)->Some_0,
        ),
        a == '+' && hex_value(b) is Some ==> hex_pair(a, b) == hex_value(b),
        hex_value(b) is None ==> hex_pair(a, b) is None,
        hex_value(a) is None && a != '+' ==> hex_pair(a, b) is None,
{
}

/// A number that a signed one can hold stays as it is; any other comes out as
/// the signed number of the same 64 bits.
pub proof fn lemma_same_bits(n: u64)
    ensures
        n <= 0x7fff_ffff_ffff_ffff ==> wrapped(n) == n,
        -0x8000_0000_0000_0000 <= wrapped(n) <= 0x7fff_ffff_ffff_ffff,
        wrapped(n) == n || wrapped(n) == n - 0x1_0000_0000_0000_0000,
{
}

/// A missing text is shown as an empty one, any other as it is.
pub proof fn lemma_or_empty(s: Seq<char>)
    ensures
        or_empty(Some(s)) == s,
        or_empty(None).len() == 0,
{
}

/// A point in time is written as RFC 3339 writes it, and not at all where that
/// has no text for its year.
pub proof fn lemma_written_time(ts: Timestamp)
    ensures
        timestamp::rfc3339_text(ts.nanos) matches Some(t) ==> ts_text(ts) == t,
        timestamp::rfc3339_text(ts.nanos) is None ==> ts_text(ts).len() == 0,
{
}

/// A text denotes bytes exactly where it is made of pairs that each denote
/// one, and it denotes those, in order.
pub proof fn lemma_bytes_of_pairs(s: Seq<char>)
    ensures
        is_hex(s) <==> s.len() % 2 == 0 && forall|i: int|
            0 <= i < s.len() / 2 ==> #[trigger] hex_pair(s[2 * i], s[2 * i + 1]) is Some,
        hex_bytes(s).len() == s.len() / 2,
        is_hex(s) ==> forall|i: int|
            0 <= i < s.len() / 2 ==> #[trigger] hex_bytes(s)[i] == hex_pair(
                s[2 * i],
                s[2 * i + 1],
            )->Some_0,
        lower_hex(s) <==> s.len() % 2 == 0 && forall|i: int|
            0 <= i < s.len() ==> '0' <= #[trigger] s[i] <= '9' || 'a' <= s[i] <= 'f',
{
    if is_hex(s) {
        assert forall|i: int| 0 <= i < s.len() / 2 implies #[trigger] hex_bytes(s)[i] == hex_pair(
            s[2 * i],
            s[2 * i + 1],
        )->Some_0 by {
            assert(hex_pair(s[2 * i], s[2 * i + 1]) is Some);
        }
    }
    if s.len() % 2 == 0 && forall|i: int|
        0 <= i < s.len() ==> '0' <= #[trigger] s[i] <= '9' || 'a' <= s[i] <= 'f' {
        assert forall|i: int| 0 <= i < s.len() implies is_lower_digit(#[trigger] s[i]) by {}
    }
    if lower_hex(s) {
        assert forall|i: int| 0 <= i < s.len() implies '0' <= #[trigger] s[i] <= '9' || 'a' <= s[i]
            <= 'f' by {
            assert(is_lower_digit(s[i]));
        }
    }
}

} // verus!
