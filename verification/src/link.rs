//! Links to uploads: a slug as one segment of a URL path.

use vstd::prelude::*;
use vstd::string::*;
use vstd::utf8::*;

use crate::util;

verus! {

/// The byte stands for itself in a path segment: a letter, a digit, or one of
/// `-`, `.`, `_`, `~`.
pub open spec fn stays(b: u8) -> bool {
    ||| 0x30 <= b <= 0x39
    ||| 0x41 <= b <= 0x5a
    ||| 0x61 <= b <= 0x7a
    ||| b == 0x2d || b == 0x2e || b == 0x5f || b == 0x7e
}

/// The upper case hexadecimal digit for a value below sixteen.
pub open spec fn upper_digit(v: int) -> char {
    if v < 10 {
        (48 + v) as char
    } else {
        (55 + v) as char
    }
}

/// How a byte is written in a path segment.
pub open spec fn escaped(b: u8) -> Seq<char> {
    if stays(b) {
        seq![b as char]
    } else {
        seq!['%', upper_digit(b as int / 16), upper_digit(b as int % 16)]
    }
}

/// How a run of bytes is written in a path segment.
pub open spec fn segment(bytes: Seq<u8>) -> Seq<char>
    decreases bytes.len(),
{
    if bytes.len() == 0 {
        Seq::empty()
    } else {
        segment(bytes.drop_last()) + escaped(bytes.last())
    }
}

/// The bytes that a path segment stands for.
pub open spec fn unescaped(s: Seq<char>) -> Seq<u8>
    decreases s.len(),
{
    if s.len() == 0 {
        Seq::empty()
    } else if s.len() >= 3 && s[0] == '%' && util::hex_pair(s[1], s[2]) is Some {
        seq![util::hex_pair(s[1], s[2])->Some_0 as u8] + unescaped(s.skip(3))
    } else {
        seq![s[0] as u8] + unescaped(s.skip(1))
    }
}

/// The link to an upload.
pub open spec fn link_text(base: Seq<char>, slug: Seq<char>) -> Seq<char> {
    base + segment(encode_utf8(slug))
}

fn upper_digit_of(v: u8) -> (c: char)
    requires
        v < 16,
    ensures
        c == upper_digit(v as int),
{
    if v < 10 {
        (48 + v) as char
    } else {
        (55 + v) as char
    }
}

/// Writes a slug as a path segment.
pub fn encode_segment(slug: &str) -> (r: String)
    ensures
        r@ == segment(encode_utf8(slug@)),
{
    let bytes = slug.as_bytes();
    let n: usize = bytes.len();
    let mut out = String::new();
    for i in 0..n
        invariant
            n == bytes@.len(),
            bytes@ == encode_utf8(slug@),
            out@ == segment(bytes@.take(i as int)),
    {
        let b: u8 = bytes[i];
        let ghost before = out@;
        if (0x30 <= b && b <= 0x39) || (0x41 <= b && b <= 0x5a) || (0x61 <= b && b <= 0x7a) || b
            == 0x2d || b == 0x2e || b == 0x5f || b == 0x7e {
            out.push(b as char);
        } else {
            out.push('%');
            out.push(upper_digit_of(b / 16));
            out.push(upper_digit_of(b % 16));
        }
        proof {
            assert(out@ =~= before + escaped(b));
            assert(bytes@.take(i + 1).drop_last() =~= bytes@.take(i as int));
            assert(bytes@.take(i + 1).last() == b);
        }
    }
    assert(bytes@.take(n as int) =~= bytes@);
    out
}

/// The link to an upload.
pub fn link_to(base: &str, slug: &str) -> (r: String)
    ensures
        r@ == link_text(base@, slug@),
{
    let mut out = base.to_owned();
    let part = encode_segment(slug);
    out.append(part.as_str());
    out
}

proof fn lemma_escaped(b: u8, rest: Seq<char>)
    ensures
        unescaped(escaped(b) + rest) == seq![b] + unescaped(rest),
        forall|i: int| 0 <= i < escaped(b).len() ==> (#[trigger] escaped(b)[i]) != '/',
{
    let s = escaped(b) + rest;
    if stays(b) {
        assert(s[0] == b as char);
        assert(s[0] != '%');
        assert(s.skip(1) =~= rest);
        assert(s[0] as u8 == b);
    } else {
        let hi = b as int / 16;
        let lo = b as int % 16;
        assert(s[0] == '%' && s[1] == upper_digit(hi) && s[2] == upper_digit(lo));
        assert(util::hex_value(upper_digit(hi)) == Some(hi));
        assert(util::hex_value(upper_digit(lo)) == Some(lo));
        assert(16 * hi + lo == b);
        assert(s.skip(3) =~= rest);
    }
}

proof fn lemma_segment_appends(a: Seq<u8>, rest: Seq<char>)
    ensures
        unescaped(segment(a) + rest) == a + unescaped(rest),
        forall|i: int| 0 <= i < segment(a).len() ==> (#[trigger] segment(a)[i]) != '/',
    decreases a.len(),
{
    if a.len() == 0 {
        assert(segment(a) + rest =~= rest);
        assert(a + unescaped(rest) =~= unescaped(rest));
    } else {
        let front = a.drop_last();
        let b = a.last();
        lemma_segment_appends(front, escaped(b) + rest);
        lemma_escaped(b, rest);
        assert(segment(a) + rest =~= segment(front) + (escaped(b) + rest));
        assert(a + unescaped(rest) =~= front + (seq![b] + unescaped(rest)));
    }
}

/// A path segment stands for the bytes that it was written from, and holds
/// no slash.
pub proof fn lemma_segment_round_trip(bytes: Seq<u8>)
    ensures
        unescaped(segment(bytes)) == bytes,
        !segment(bytes).contains('/'),
{
    lemma_segment_appends(bytes, Seq::empty());
    assert(segment(bytes) + Seq::<char>::empty() =~= segment(bytes));
    assert(bytes + Seq::<u8>::empty() =~= bytes);
}

/// A link leads back to the slug that it was made for.
pub proof fn lemma_link_leads_to_slug(base: Seq<char>, slug: Seq<char>)
    ensures
        decode_utf8(unescaped(link_text(base, slug).skip(base.len() as int))) == slug,
{
    let part = segment(encode_utf8(slug));
    assert(link_text(base, slug).skip(base.len() as int) =~= part);
    lemma_segment_round_trip(encode_utf8(slug));
    encode_utf8_decode_utf8(slug);
}

/// Letters, digits and `-`, `.`, `_`, `~` stand for themselves in a link; any
/// other byte is written as `%` and its two hexadecimal digits in upper case.
pub proof fn lemma_escapes(b: u8)
    ensures
        ({
            let c = b as char;
            let own = 'a' <= c <= 'z' || 'A' <= c <= 'Z' || '0' <= c <= '9' || c == '-' || c == '.'
                || c == '_' || c == '~';
            &&& own ==> escaped(b) == seq![c]
            &&& !own ==> {
                &&& escaped(b).len() == 3
                &&& escaped(b)[0] == '%'
                &&& util::hex_pair(escaped(b)[1], escaped(b)[2]) == Some(b as int)
                &&& forall|i: int|
                    1 <= i < 3 ==> '0' <= #[trigger] escaped(b)[i] <= '9' || 'A' <= escaped(b)[i]
                        <= 'F'
            }
        }),
{
    let hi = b as int / 16;
    let lo = b as int % 16;
    assert(util::hex_value(upper_digit(hi)) == Some(hi));
    assert(util::hex_value(upper_digit(lo)) == Some(lo));
    assert(16 * hi + lo == b);
}

/// A link begins with what links begin with, and the links of joined bytes
/// join.
pub proof fn lemma_link_begins_with_base(base: Seq<char>, slug: Seq<char>, a: Seq<u8>, b: Seq<u8>)
    ensures
        base.is_prefix_of(link_text(base, slug)),
        segment(a + b) == segment(a) + segment(b),
    decreases b.len(),
{
    let all = link_text(base, slug);
    assert(all.subrange(0, base.len() as int) =~= base);
    if b.len() == 0 {
        assert(a + b =~= a);
        assert(segment(a) + segment(b) =~= segment(a));
    } else {
        lemma_link_begins_with_base(base, slug, a, b.drop_last());
        assert((a + b).drop_last() =~= a + b.drop_last());
        assert((a + b).last() == b.last());
        assert(segment(a + b) =~= segment(a) + segment(b));
    }
}

proof fn lemma_plain_segment(bytes: Seq<u8>, s: Seq<char>)
    requires
        bytes.len() == s.len(),
        forall|i: int|
            0 <= i < s.len() ==> #[trigger] bytes[i] as char == s[i] && (('a' <= s[i] <= 'z') || (
            'A' <= s[i] <= 'Z') || ('0' <= s[i] <= '9') || s[i] == '-' || s[i] == '.' || s[i] == '_'
                || s[i] == '~'),
    ensures
        segment(bytes) == s,
    decreases s.len(),
{
    if s.len() > 0 {
        let n = s.len() - 1;
        assert forall|i: int| 0 <= i < n implies #[trigger] bytes.drop_last()[i] as char
            == s.drop_last()[i] && (('a' <= s.drop_last()[i] <= 'z') || ('A' <= s.drop_last()[i]
            <= 'Z') || ('0' <= s.drop_last()[i] <= '9') || s.drop_last()[i] == '-'
            || s.drop_last()[i] == '.' || s.drop_last()[i] == '_' || s.drop_last()[i] == '~') by {
            assert(bytes[i] as char == s[i]);
        }
        lemma_plain_segment(bytes.drop_last(), s.drop_last());
        assert(bytes[n] as char == s[n]);
        lemma_escapes(bytes[n]);
        assert(segment(bytes) =~= s);
    }
}

/// The link of a slug that is made of letters, digits and `-`, `.`, `_`, `~`
/// ends in the slug as it is.
pub proof fn lemma_plain_slug_stays(base: Seq<char>, slug: Seq<char>)
    requires
        forall|i: int|
            0 <= i < slug.len() ==> ('a' <= #[trigger] slug[i] <= 'z') || ('A' <= slug[i] <= 'Z')
                || ('0' <= slug[i] <= '9') || slug[i] == '-' || slug[i] == '.' || slug[i] == '_'
                || slug[i] == '~',
    ensures
        link_text(base, slug) == base + slug,
{
    let bytes = encode_utf8(slug);
    assert(is_ascii_chars(slug));
    is_ascii_chars_encode_utf8(slug);
    assert forall|i: int| 0 <= i < slug.len() implies #[trigger] bytes[i] as char == slug[i] && ((
    'a' <= slug[i] <= 'z') || ('A' <= slug[i] <= 'Z') || ('0' <= slug[i] <= '9') || slug[i] == '-'
        || slug[i] == '.' || slug[i] == '_' || slug[i] == '~') by {
        assert(bytes[i] == slug[i] as u8);
    }
    lemma_plain_segment(bytes, slug);
}

} // verus!
