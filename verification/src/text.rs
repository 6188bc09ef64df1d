//! Text building blocks: searching, trimming, splitting and padding strings,
//! and reading and writing decimal numbers.

use vstd::prelude::*;
use vstd::string::*;
use vstd::utf8::*;

verus! {

/// `String::push`: the character goes to the end of the text.
pub assume_specification[ String::push ](s: &mut String, c: char)
    ensures
        final(s)@ == old(s)@.push(c),
;

/// Whether Unicode counts `c` as a letter or a number.
pub uninterp spec fn unicode_alphanumeric(c: char) -> bool;

/// ASCII letters and digits.
pub open spec fn ascii_alphanumeric(c: char) -> bool {
    'a' <= c <= 'z' || 'A' <= c <= 'Z' || '0' <= c <= '9'
}

/// `char::is_alphanumeric`: decided by the Unicode tables; among the ASCII
/// characters these are the letters and the digits.
pub assume_specification[ char::is_alphanumeric ](c: char) -> (r: bool)
    ensures
        r == unicode_alphanumeric(c),
        (c as u32) < 128 ==> r == ascii_alphanumeric(c),
;

/// Whether Unicode counts `c` as white space.
pub uninterp spec fn unicode_whitespace(c: char) -> bool;

/// ASCII white space: the space and the control characters from tab to
/// carriage return.
pub open spec fn ascii_whitespace(c: char) -> bool {
    c == ' ' || '\u{9}' <= c <= '\u{d}'
}

/// `char::is_whitespace`: decided by the Unicode tables; among the ASCII
/// characters these are the space and tab, line feed, vertical tab, form feed
/// and carriage return.
pub assume_specification[ char::is_whitespace ](c: char) -> (r: bool)
    ensures
        r == unicode_whitespace(c),
        (c as u32) < 128 ==> r == ascii_whitespace(c),
;

/// The lower-case form that Unicode gives a text.
pub uninterp spec fn unicode_lowercase(s: Seq<char>) -> Seq<char>;

/// The lower-case form of an ASCII character.
pub open spec fn ascii_lower(c: char) -> char {
    if 'A' <= c <= 'Z' {
        (c as u32 + 32) as char
    } else {
        c
    }
}

/// `str::to_lowercase`: the Unicode lower-case form; an ASCII text is mapped
/// character by character.
pub assume_specification[ str::to_lowercase ](s: &str) -> (r: String)
    ensures
        r@ == unicode_lowercase(s@),
        is_ascii_chars(s@) ==> r@ == s@.map_values(|c: char| ascii_lower(c)),
;

/// The text that replaces every invalid part of a byte string by U+FFFD.
pub uninterp spec fn lossy_utf8(bytes: Seq<u8>) -> Seq<char>;

/// `String::from_utf8_lossy`: valid UTF-8 is decoded as it stands, and invalid
/// parts become U+FFFD.
#[verifier::external_body]
pub(crate) fn lossy_text(bytes: &[u8]) -> (r: String)
    ensures
        r@ == lossy_utf8(bytes@),
        valid_utf8(bytes@) ==> r@ == decode_utf8(bytes@),
{
    String::from_utf8_lossy(bytes).into_owned()
}

/// The quoted and escaped form of a text.
pub uninterp spec fn debug_form(s: Seq<char>) -> Seq<char>;

/// `str`'s `Debug` formatting: the text in double quotes with its special
/// characters escaped.
#[verifier::external_body]
pub(crate) fn debug_text(s: &str) -> (r: String)
    ensures
        r@ == debug_form(s@),
{
    format!("{s:?}")
}

/// The characters of a text.
pub(crate) fn chars_of(s: &str) -> (r: Vec<char>)
    ensures
        r@ == s@,
{
    let mut out: Vec<char> = Vec::new();
    for c in it: s.chars()
        invariant
            it.seq() == s@,
            out@ == s@.take(it.index()),
    {
        out.push(c);
    }
    out
}

/// The text made of the given characters.
pub(crate) fn text_of(chars: &[char]) -> (r: String)
    ensures
        r@ == chars@,
{
    let mut out = String::new();
    let n: usize = chars.len();
    for i in 0..n
        invariant
            n == chars@.len(),
            out@ == chars@.take(i as int),
    {
        out.push(chars[i]);
    }
    assert(chars@.take(n as int) == chars@);
    out
}

/// The two texts hold the same characters.
pub(crate) fn same_text(a: &str, b: &str) -> (r: bool)
    ensures
        r == (a@ == b@),
{
    let left = a.to_owned();
    let right = b.to_owned();
    left == right
}

/// `a` followed by `b`.
pub(crate) fn joined(a: &str, b: &str) -> (r: String)
    ensures
        r@ == a@ + b@,
{
    let mut out = a.to_owned();
    out.append(b);
    out
}

/// The number of bytes that a text takes as UTF-8.
pub(crate) fn byte_len(s: &str) -> (r: usize)
    ensures
        r == encode_utf8(s@).len(),
{
    s.as_bytes().len()
}

/// A copy of an optional text.
pub(crate) fn copied(s: &Option<String>) -> (r: Option<String>)
    ensures
        r == *s,
{
    match s {
        Some(t) => Some(t.clone()),
        None => None,
    }
}

/// The view of an optional text.
pub open spec fn opt_view(s: Option<String>) -> Option<Seq<char>> {
    match s {
        Some(t) => Some(t@),
        None => None,
    }
}

/// The view of an optional text slice.
pub open spec fn opt_str_view(s: Option<&str>) -> Option<Seq<char>> {
    match s {
        Some(t) => Some(t@),
        None => None,
    }
}

// ---------------------------------------------------------------- searching

/// `needle` occurs in `hay` as a run of neighbouring characters.
pub open spec fn contains_run(hay: Seq<char>, needle: Seq<char>) -> bool {
    exists|i: int|
        0 <= i && i + needle.len() <= hay.len() && #[trigger] hay.subrange(i, i + needle.len())
            == needle
}

/// `needle` stands in `hay` at position `at`.
fn run_at(hay: &Vec<char>, needle: &Vec<char>, at: usize) -> (r: bool)
    requires
        at + needle@.len() <= hay@.len(),
    ensures
        r == (hay@.subrange(at as int, at + needle@.len()) == needle@),
{
    let n: usize = needle.len();
    let m: usize = hay.len();
    for j in 0..n
        invariant
            n == needle@.len(),
            m == hay@.len(),
            at + n <= m,
            forall|k: int| 0 <= k < j ==> hay@[at + k] == needle@[k],
    {
        if hay[at + j] != needle[j] {
            assert(hay@.subrange(at as int, at + needle@.len())[j as int] == hay@[at + j]);
            return false;
        }
    }
    assert(hay@.subrange(at as int, at + needle@.len()) =~= needle@);
    true
}

/// Whether `needle` occurs anywhere in `hay`.
pub fn contains_text(hay: &str, needle: &str) -> (r: bool)
    ensures
        r == contains_run(hay@, needle@),
{
    let h = chars_of(hay);
    let w = chars_of(needle);
    if w.len() > h.len() {
        return false;
    }
    let last: usize = h.len() - w.len();
    let mut i: usize = 0;
    while i <= last
        invariant
            h@ == hay@,
            w@ == needle@,
            w@.len() <= h@.len(),
            last == h@.len() - w@.len(),
            i <= last + 1,
            forall|k: int| 0 <= k < i ==> #[trigger] h@.subrange(k, k + w@.len()) != w@,
        decreases last + 1 - i,
    {
        if run_at(&h, &w, i) {
            return true;
        }
        if i == last {
            return false;
        }
        i += 1;
    }
    false
}

/// Whether `s` begins with `p`.
pub fn has_prefix(s: &str, p: &str) -> (r: bool)
    ensures
        r == p@.is_prefix_of(s@),
{
    let h = chars_of(s);
    let w = chars_of(p);
    w.len() <= h.len() && run_at(&h, &w, 0)
}

/// Whether `s` ends with `p`.
pub fn has_suffix(s: &str, p: &str) -> (r: bool)
    ensures
        r == p@.is_suffix_of(s@),
{
    let h = chars_of(s);
    let w = chars_of(p);
    w.len() <= h.len() && run_at(&h, &w, h.len() - w.len())
}

/// What follows the prefix `p` in `s`, if `s` begins with it.
pub fn without_prefix(s: &str, p: &str) -> (r: Option<String>)
    ensures
        r is Some <==> p@.is_prefix_of(s@),
        r matches Some(t) ==> t@ == s@.skip(p@.len() as int),
{
    if !has_prefix(s, p) {
        return None;
    }
    let h = chars_of(s);
    let n: usize = chars_of(p).len();
    let rest = vstd::slice::slice_subrange(h.as_slice(), n, h.len());
    let t = text_of(rest);
    assert(t@ =~= s@.skip(n as int));
    Some(t)
}

/// What precedes the suffix `p` in `s`, if `s` ends with it.
pub fn without_suffix(s: &str, p: &str) -> (r: Option<String>)
    ensures
        r is Some <==> p@.is_suffix_of(s@),
        r matches Some(t) ==> t@ == s@.take(s@.len() - p@.len()),
{
    if !has_suffix(s, p) {
        return None;
    }
    let h = chars_of(s);
    let n: usize = chars_of(p).len();
    let rest = vstd::slice::slice_subrange(h.as_slice(), 0, h.len() - n);
    let t = text_of(rest);
    assert(t@ =~= s@.take(s@.len() - p@.len()));
    Some(t)
}

/// The position of the first `c` in `s`, or the length of `s` without one.
pub open spec fn first_at(s: Seq<char>, c: char) -> int
    decreases s.len(),
{
    if s.len() == 0 {
        0
    } else if s[0] == c {
        0
    } else {
        1 + first_at(s.skip(1), c)
    }
}

/// A position before which no `c` stands, and which is the end or holds `c`,
/// is the first one.
pub proof fn lemma_first_at(s: Seq<char>, c: char, k: int)
    requires
        0 <= k <= s.len(),
        forall|j: int| 0 <= j < k ==> s[j] != c,
        k < s.len() ==> s[k] == c,
    ensures
        first_at(s, c) == k,
    decreases s.len(),
{
    if k > 0 {
        assert forall|j: int| 0 <= j < k - 1 implies s.skip(1)[j] != c by {
            assert(s.skip(1)[j] == s[j + 1]);
        }
        lemma_first_at(s.skip(1), c, k - 1);
    }
}

/// The first position at or after `from` that holds `c`, or the end.
pub(crate) fn find_char(s: &Vec<char>, from: usize, c: char) -> (r: usize)
    requires
        from <= s@.len(),
    ensures
        from <= r <= s@.len(),
        forall|j: int| from <= j < r ==> s@[j] != c,
        r < s@.len() ==> s@[r as int] == c,
        r == from + first_at(s@.skip(from as int), c),
{
    let n: usize = s.len();
    let mut i: usize = from;
    while i < n && s[i] != c
        invariant
            n == s@.len(),
            from <= i <= n,
            forall|j: int| from <= j < i ==> s@[j] != c,
        decreases n - i,
    {
        i += 1;
    }
    proof {
        let tail = s@.skip(from as int);
        assert forall|j: int| 0 <= j < i - from implies tail[j] != c by {
            assert(tail[j] == s@[from + j]);
        }
        lemma_first_at(tail, c, i - from);
    }
    i
}

// ---------------------------------------------------------------- trimming

/// Which characters are taken off the ends of a text.
pub enum Trim {
    /// White space.
    Blank,
    /// One given character.
    Only(char),
}

impl Trim {
    pub open spec fn takes(self, c: char) -> bool {
        match self {
            Trim::Blank => unicode_whitespace(c),
            Trim::Only(d) => c == d,
        }
    }

    fn test(&self, c: char) -> (r: bool)
        ensures
            r == self.takes(c),
    {
        match self {
            Trim::Blank => c.is_whitespace(),
            Trim::Only(d) => c == *d,
        }
    }
}

/// `s` without the characters that `t` takes off its front.
pub open spec fn trim_front(s: Seq<char>, t: Trim) -> Seq<char>
    decreases s.len(),
{
    if s.len() > 0 && t.takes(s[0]) {
        trim_front(s.skip(1), t)
    } else {
        s
    }
}

/// `s` without the characters that `t` takes off its back.
pub open spec fn trim_back(s: Seq<char>, t: Trim) -> Seq<char>
    decreases s.len(),
{
    if s.len() > 0 && t.takes(s.last()) {
        trim_back(s.drop_last(), t)
    } else {
        s
    }
}

/// `s` without the characters that `t` takes off its two ends.
pub open spec fn trim_both(s: Seq<char>, t: Trim) -> Seq<char> {
    trim_back(trim_front(s, t), t)
}

proof fn lemma_trim_front(s: Seq<char>, t: Trim, k: int)
    requires
        0 <= k <= s.len(),
        forall|j: int| 0 <= j < k ==> t.takes(s[j]),
        k < s.len() ==> !t.takes(s[k]),
    ensures
        trim_front(s, t) == s.skip(k),
    decreases s.len(),
{
    if k > 0 {
        assert forall|j: int| 0 <= j < k - 1 implies t.takes(s.skip(1)[j]) by {
            assert(s.skip(1)[j] == s[j + 1]);
        }
        lemma_trim_front(s.skip(1), t, k - 1);
        assert(s.skip(1).skip(k - 1) =~= s.skip(k));
    } else {
        assert(s.skip(0) =~= s);
    }
}

proof fn lemma_trim_back(s: Seq<char>, t: Trim, k: int)
    requires
        0 <= k <= s.len(),
        forall|j: int| k <= j < s.len() ==> t.takes(s[j]),
        k > 0 ==> !t.takes(s[k - 1]),
    ensures
        trim_back(s, t) == s.take(k),
    decreases s.len(),
{
    if k < s.len() {
        lemma_trim_back(s.drop_last(), t, k);
        assert(s.drop_last().take(k) =~= s.take(k));
    } else {
        assert(s.take(k) =~= s);
    }
}

/// Takes characters off both ends of a text.
pub fn trim_text(s: &str, t: &Trim) -> (r: String)
    ensures
        r@ == trim_both(s@, *t),
{
    let chars = chars_of(s);
    let n: usize = chars.len();
    let mut lo: usize = 0;
    while lo < n && t.test(chars[lo])
        invariant
            n == chars@.len(),
            lo <= n,
            forall|j: int| 0 <= j < lo ==> t.takes(chars@[j]),
        decreases n - lo,
    {
        lo += 1;
    }
    let mut hi: usize = n;
    while hi > lo && t.test(chars[hi - 1])
        invariant
            n == chars@.len(),
            lo <= hi <= n,
            forall|j: int| hi <= j < n ==> t.takes(chars@[j]),
        decreases hi,
    {
        hi -= 1;
    }
    let kept = vstd::slice::slice_subrange(chars.as_slice(), lo, hi);
    let out = text_of(kept);
    proof {
        lemma_trim_front(chars@, *t, lo as int);
        let rest = chars@.skip(lo as int);
        assert forall|j: int| hi - lo <= j < rest.len() implies t.takes(rest[j]) by {
            assert(rest[j] == chars@[lo + j]);
        }
        lemma_trim_back(rest, *t, hi - lo);
        assert(out@ =~= rest.take(hi - lo));
    }
    out
}

// ---------------------------------------------------------------- splitting

/// The pieces of `s` between separators `sep`, at most `n` of them: the last
/// piece keeps whatever separators are left.
pub open spec fn pieces(s: Seq<char>, sep: char, n: nat) -> Seq<Seq<char>>
    decreases n,
{
    let k = first_at(s, sep);
    if n <= 1 || k >= s.len() {
        seq![s]
    } else {
        seq![s.take(k)] + pieces(s.skip(k + 1), sep, (n - 1) as nat)
    }
}

/// Splits a text at a separator into at most `n` pieces.
pub fn split_text(s: &str, sep: char, n: usize) -> (r: Vec<String>)
    ensures
        r.deep_view() == pieces(s@, sep, n as nat),
{
    let chars = chars_of(s);
    let mut out: Vec<String> = Vec::new();
    let mut from: usize = 0;
    let mut left: usize = n;
    assert(chars@.skip(0) =~= s@);
    assert(out.deep_view() + pieces(chars@, sep, n as nat) =~= pieces(s@, sep, n as nat));
    while left > 1
        invariant
            chars@ == s@,
            from <= chars@.len(),
            left <= n,
            out.deep_view() + pieces(chars@.skip(from as int), sep, left as nat) == pieces(
                s@,
                sep,
                n as nat,
            ),
        decreases left,
    {
        let k: usize = find_char(&chars, from, sep);
        let ghost tail = chars@.skip(from as int);
        let ghost before = out.deep_view();
        let piece = text_of(vstd::slice::slice_subrange(chars.as_slice(), from, k));
        assert(piece@ =~= tail.take(k - from));
        let ghost word = piece@;
        out.push(piece);
        assert(out.deep_view() =~= before.push(word));
        if k >= chars.len() {
            assert(tail.take(k - from) =~= tail);
            assert(out.deep_view() =~= before + seq![tail]);
            return out;
        }
        proof {
            assert(tail.skip(k - from + 1) =~= chars@.skip(k + 1));
            assert(out.deep_view() + pieces(chars@.skip(k + 1), sep, (left - 1) as nat) =~= before
                + (seq![word] + pieces(chars@.skip(k + 1), sep, (left - 1) as nat)));
        }
        from = k + 1;
        left -= 1;
    }
    let ghost tail = chars@.skip(from as int);
    let ghost before = out.deep_view();
    let piece = text_of(vstd::slice::slice_subrange(chars.as_slice(), from, chars.len()));
    assert(piece@ =~= tail);
    out.push(piece);
    assert(out.deep_view() =~= before + seq![tail]);
    out
}

// ---------------------------------------------------------------- numbers

/// The decimal digit for a value below ten.
pub open spec fn digit_char(d: nat) -> char {
    (48 + d) as char
}

/// The decimal notation of a number, without leading zeros.
pub open spec fn decimal(n: nat) -> Seq<char>
    decreases n,
{
    if n < 10 {
        seq![digit_char(n)]
    } else {
        decimal(n / 10).push(digit_char(n % 10))
    }
}

/// The decimal notation of a signed number.
pub open spec fn decimal_int(n: int) -> Seq<char> {
    if n < 0 {
        seq!['-'] + decimal((-n) as nat)
    } else {
        decimal(n as nat)
    }
}

/// Writes a number in decimal.
pub fn decimal_text(n: u64) -> (r: String)
    ensures
        r@ == decimal(n as nat),
    decreases n,
{
    let d: u8 = (n % 10) as u8;
    let mut out = if n < 10 {
        String::new()
    } else {
        decimal_text(n / 10)
    };
    let c: char = (48 + d) as char;
    out.push(c);
    assert(out@ =~= decimal(n as nat));
    out
}

/// Writes a signed number in decimal.
pub fn decimal_int_text(n: i64) -> (r: String)
    ensures
        r@ == decimal_int(n as int),
{
    if n >= 0 {
        decimal_text(n as u64)
    } else {
        let m: u64 = (-(n as i128)) as u64;
        let digits = decimal_text(m);
        let out = joined("-", digits.as_str());
        proof {
            reveal_strlit("-");
            assert("-"@ =~= seq!['-']);
        }
        out
    }
}

/// A character that is an ASCII digit.
pub open spec fn is_digit(c: char) -> bool {
    '0' <= c <= '9'
}

/// The value of a run of decimal digits.
pub open spec fn digits_value(s: Seq<char>) -> nat
    decreases s.len(),
{
    if s.len() == 0 {
        0
    } else {
        digits_value(s.drop_last()) * 10 + (s.last() as nat - 48) as nat
    }
}

/// Every character is an ASCII digit.
pub open spec fn all_digits(s: Seq<char>) -> bool {
    forall|i: int| 0 <= i < s.len() ==> is_digit(#[trigger] s[i])
}

/// What is left of a number's text without its plus sign.
pub open spec fn without_plus(s: Seq<char>) -> Seq<char> {
    if s.len() > 0 && s[0] == '+' {
        s.skip(1)
    } else {
        s
    }
}

/// The number that a text denotes: an optional plus sign and then decimal
/// digits, at least one; leading zeros are allowed.
pub open spec fn unsigned_value(s: Seq<char>) -> Option<nat> {
    let body = without_plus(s);
    if body.len() > 0 && all_digits(body) {
        Some(digits_value(body))
    } else {
        None
    }
}

/// The `u64` that a text denotes; none for a number that exceeds it.
pub open spec fn u64_value(s: Seq<char>) -> Option<u64> {
    match unsigned_value(s) {
        Some(v) => if v <= u64::MAX {
            Some(v as u64)
        } else {
            None
        },
        None => None,
    }
}

/// Reads a number; `None` where the text is no number or it exceeds `u64`.
pub fn parse_u64(s: &str) -> (r: Option<u64>)
    ensures
        r == u64_value(s@),
{
    let chars = chars_of(s);
    let n: usize = chars.len();
    let from: usize = if n > 0 && chars[0] == '+' {
        1
    } else {
        0
    };
    let ghost body = without_plus(s@);
    assert(body =~= chars@.skip(from as int));
    if from >= n {
        return None;
    }
    let mut value: u64 = 0;
    let mut over: bool = false;
    let mut i: usize = from;
    assert(body.take(0) =~= Seq::<char>::empty());
    while i < n
        invariant
            n == chars@.len(),
            chars@ == s@,
            from <= i <= n,
            body == without_plus(s@),
            body == chars@.skip(from as int),
            forall|j: int| 0 <= j < i - from ==> is_digit(#[trigger] body[j]),
            !over ==> value == digits_value(body.take(i - from)),
            over ==> digits_value(body.take(i - from)) > u64::MAX,
        decreases n - i,
    {
        let c: char = chars[i];
        assert(body[i - from] == c);
        if c < '0' || c > '9' {
            assert(!is_digit(body[i - from]));
            return None;
        }
        let d: u64 = (c as u32 - 48) as u64;
        proof {
            assert(body.take(i - from + 1).drop_last() =~= body.take(i - from));
            assert(digits_value(body.take(i - from + 1)) == digits_value(body.take(i - from)) * 10
                + d);
        }
        if !over {
            match value.checked_mul(10) {
                Some(v) => match v.checked_add(d) {
                    Some(w) => {
                        value = w;
                    },
                    None => {
                        over = true;
                    },
                },
                None => {
                    over = true;
                },
            }
        }
        i += 1;
    }
    assert(body.take(n - from) =~= body);
    if over {
        None
    } else {
        Some(value)
    }
}

// ---------------------------------------------------------------- padding

/// So many spaces.
pub open spec fn spaces(n: nat) -> Seq<char> {
    Seq::new(n, |i: int| ' ')
}

/// `s` with spaces after it, up to a width.
pub open spec fn pad_end(s: Seq<char>, width: nat) -> Seq<char> {
    if s.len() < width {
        s + spaces((width - s.len()) as nat)
    } else {
        s
    }
}

/// `s` with spaces before it, up to a width.
pub open spec fn pad_start(s: Seq<char>, width: nat) -> Seq<char> {
    if s.len() < width {
        spaces((width - s.len()) as nat) + s
    } else {
        s
    }
}

fn space_text(n: usize) -> (r: String)
    ensures
        r@ == spaces(n as nat),
{
    let mut out = String::new();
    for i in 0..n
        invariant
            out@ == spaces(i as nat),
    {
        out.push(' ');
        assert(out@ =~= spaces((i + 1) as nat));
    }
    out
}

/// Pads a text with spaces on its right.
pub fn pad_right(s: &str, width: usize) -> (r: String)
    ensures
        r@ == pad_end(s@, width as nat),
{
    let n: usize = chars_of(s).len();
    if n < width {
        let fill = space_text(width - n);
        joined(s, fill.as_str())
    } else {
        s.to_owned()
    }
}

/// Pads a text with spaces on its left.
pub fn pad_left(s: &str, width: usize) -> (r: String)
    ensures
        r@ == pad_start(s@, width as nat),
{
    let n: usize = chars_of(s).len();
    if n < width {
        let fill = space_text(width - n);
        joined(fill.as_str(), s)
    } else {
        s.to_owned()
    }
}

// ---------------------------------------------------------------- laws

/// What is taken off the ends of a text is gone, and nothing else is: a text
/// that neither begins nor ends with such a character is what is left of it
/// with such characters around it.
pub proof fn lemma_trim_leaves_the_middle(
    front: Seq<char>,
    middle: Seq<char>,
    back: Seq<char>,
    t: Trim,
)
    requires
        forall|i: int| 0 <= i < front.len() ==> t.takes(#[trigger] front[i]),
        forall|i: int| 0 <= i < back.len() ==> t.takes(#[trigger] back[i]),
        middle.len() > 0 ==> !t.takes(middle[0]) && !t.takes(middle.last()),
    ensures
        trim_both(front + middle + back, t) == middle,
{
    let s = front + middle + back;
    if middle.len() > 0 {
        let k = front.len() as int;
        assert(s[k] == middle[0]);
        assert forall|j: int| 0 <= j < k implies t.takes(s[j]) by {
            assert(s[j] == front[j]);
        }
        lemma_trim_front(s, t, k);
        let rest = s.skip(k);
        let m = middle.len() as int;
        assert(rest =~= middle + back);
        assert forall|j: int| m <= j < rest.len() implies t.takes(rest[j]) by {
            assert(rest[j] == back[j - m]);
        }
        assert(rest[m - 1] == middle.last());
        lemma_trim_back(rest, t, m);
        assert(rest.take(m) =~= middle);
    } else {
        assert forall|j: int| 0 <= j < s.len() implies t.takes(s[j]) by {
            if j < front.len() {
                assert(s[j] == front[j]);
            } else {
                assert(s[j] == back[j - front.len()]);
            }
        }
        lemma_trim_front(s, t, s.len() as int);
        assert(s.skip(s.len() as int) =~= Seq::<char>::empty());
        assert(trim_both(s, t) =~= middle);
    }
}

/// Blanks are what Unicode counts as white space; a single character is taken
/// off only where it is that character.
pub proof fn lemma_what_is_taken_off(c: char, d: char)
    ensures
        Trim::Blank.takes(c) == unicode_whitespace(c),
        Trim::Only(d).takes(c) == (c == d),
{
}

/// A text that stands between two others occurs in the whole; and one that
/// occurs stands between two others.
pub proof fn lemma_contained_text(hay: Seq<char>, needle: Seq<char>)
    ensures
        contains_run(hay, needle) <==> exists|a: Seq<char>, b: Seq<char>| hay == #[trigger] (a
            + needle + b),
{
    if contains_run(hay, needle) {
        let i = choose|i: int|
            0 <= i && i + needle.len() <= hay.len() && #[trigger] hay.subrange(i, i + needle.len())
                == needle;
        let a = hay.take(i);
        let b = hay.skip(i + needle.len());
        assert(hay =~= a + needle + b);
    }
    if exists|a: Seq<char>, b: Seq<char>| hay == #[trigger] (a + needle + b) {
        let (a, b) = choose|a: Seq<char>, b: Seq<char>| hay == #[trigger] (a + needle + b);
        assert(hay.subrange(a.len() as int, a.len() as int + needle.len()) =~= needle);
    }
}

/// So many zero digits.
pub open spec fn zeros(n: nat) -> Seq<char> {
    Seq::new(n, |i: int| '0')
}

/// The decimal notation of a number is made of digits, has no zero at its
/// front unless it is zero, and denotes the number.
pub proof fn lemma_decimal_notation(n: nat)
    ensures
        decimal(n).len() >= 1,
        all_digits(decimal(n)),
        digits_value(decimal(n)) == n,
        n > 0 ==> decimal(n)[0] != '0',
        n == 0 ==> decimal(n) == seq!['0'],
    decreases n,
{
    let s = decimal(n);
    if n < 10 {
        assert(s.drop_last() =~= Seq::<char>::empty());
        assert(digits_value(s.drop_last()) == 0);
        assert(n == 0 ==> s =~= seq!['0']);
    } else {
        lemma_decimal_notation(n / 10);
        assert(s.drop_last() =~= decimal(n / 10));
        assert(s[0] == decimal(n / 10)[0]);
        assert forall|i: int| 0 <= i < s.len() implies is_digit(#[trigger] s[i]) by {
            if i < s.len() - 1 {
                assert(s[i] == decimal(n / 10)[i]);
            }
        }
    }
}

/// Two numbers never share a decimal notation.
pub proof fn lemma_decimal_injective(a: int, b: int)
    requires
        decimal_int(a) == decimal_int(b),
    ensures
        a == b,
{
    let x: nat = if a < 0 {
        (-a) as nat
    } else {
        a as nat
    };
    let y: nat = if b < 0 {
        (-b) as nat
    } else {
        b as nat
    };
    lemma_decimal_notation(x);
    lemma_decimal_notation(y);
    assert(is_digit(decimal(x)[0]) && is_digit(decimal(y)[0]));
    if a < 0 {
        assert(decimal_int(a)[0] == '-');
        assert(decimal_int(a).skip(1) =~= decimal(x));
    }
    if b < 0 {
        assert(decimal_int(b)[0] == '-');
        assert(decimal_int(b).skip(1) =~= decimal(y));
    }
}

/// A number below zero is written with a minus sign in front of its size.
pub proof fn lemma_minus_sign(n: nat)
    requires
        n > 0,
    ensures
        decimal_int(n as int) == decimal(n),
        decimal_int(-(n as int)) == seq!['-'] + decimal(n),
{
}

proof fn lemma_zeros_in_front(k: nat, s: Seq<char>)
    ensures
        digits_value(zeros(k) + s) == digits_value(s),
    decreases s.len(), k,
{
    let all = zeros(k) + s;
    if s.len() > 0 {
        lemma_zeros_in_front(k, s.drop_last());
        assert(all.drop_last() =~= zeros(k) + s.drop_last());
        assert(all.last() == s.last());
    } else if k > 0 {
        lemma_zeros_in_front((k - 1) as nat, s);
        assert(all.drop_last() =~= zeros((k - 1) as nat) + s);
        assert(all.last() == '0');
    } else {
        assert(all =~= s);
    }
}

/// A run of digits is the decimal notation of its value, with zeros in front.
pub proof fn lemma_digits_are_decimal(s: Seq<char>)
    requires
        s.len() > 0,
        all_digits(s),
    ensures
        exists|k: nat| s == #[trigger] zeros(k) + decimal(digits_value(s)),
    decreases s.len(),
{
    let front = s.drop_last();
    let c = s.last();
    assert(is_digit(s[s.len() - 1]));
    let d = (c as nat - 48) as nat;
    assert(digit_char(d) == c);
    if front.len() == 0 {
        assert(digits_value(front) == 0);
        assert(digits_value(s) == d);
        assert(zeros(0) + decimal(d) =~= s);
    } else {
        assert forall|i: int| 0 <= i < front.len() implies is_digit(#[trigger] front[i]) by {
            assert(is_digit(s[i]));
        }
        lemma_digits_are_decimal(front);
        let v = digits_value(front);
        let k = choose|k: nat| front == #[trigger] zeros(k) + decimal(v);
        assert(s =~= front.push(c));
        if v > 0 {
            assert((v * 10 + d) / 10 == v && (v * 10 + d) % 10 == d);
            assert(zeros(k) + decimal(digits_value(s)) =~= s);
        } else {
            assert(decimal(0) =~= seq!['0']);
            assert(zeros(k + 1) + decimal(d) =~= s);
        }
    }
}

/// Which texts denote a number: its decimal notation, with zeros and then a
/// plus sign in front or without. Nothing else is read as a number, and no
/// number is read as another.
pub proof fn lemma_number_texts(s: Seq<char>, v: u64)
    ensures
        u64_value(s) == Some(v) <==> exists|k: nat|
            s == #[trigger] (zeros(k) + decimal(v as nat)) || s == seq!['+'] + (zeros(k) + decimal(
                v as nat,
            )),
{
    lemma_decimal_notation(v as nat);
    if u64_value(s) == Some(v) {
        let body = without_plus(s);
        lemma_digits_are_decimal(body);
        let k = choose|k: nat| body == #[trigger] zeros(k) + decimal(v as nat);
        let all = zeros(k) + decimal(v as nat);
        if s.len() > 0 && s[0] == '+' {
            assert(s =~= seq!['+'] + all);
        }
        assert(s == zeros(k) + decimal(v as nat) || s == seq!['+'] + (zeros(k) + decimal(
            v as nat,
        )));
    }
    if exists|k: nat|
        s == #[trigger] (zeros(k) + decimal(v as nat)) || s == seq!['+'] + (zeros(k) + decimal(
            v as nat,
        )) {
        let k = choose|k: nat|
            s == #[trigger] (zeros(k) + decimal(v as nat)) || s == seq!['+'] + (zeros(k) + decimal(
                v as nat,
            ));
        let all = zeros(k) + decimal(v as nat);
        lemma_zeros_in_front(k, decimal(v as nat));
        assert forall|i: int| 0 <= i < all.len() implies is_digit(#[trigger] all[i]) by {
            if i >= k {
                assert(all[i] == decimal(v as nat)[i - k]);
            }
        }
        assert(is_digit(all[0]));
        assert((seq!['+'] + all).skip(1) =~= all);
        assert(without_plus(s) =~= all);
    }
}

/// Padding adds spaces on one side up to the width, and takes nothing off.
pub proof fn lemma_padding(s: Seq<char>, width: nat)
    ensures
        pad_end(s, width).len() >= width,
        pad_start(s, width).len() >= width,
        s.len() <= width ==> pad_end(s, width).len() == width && pad_start(s, width).len() == width,
        s.len() >= width ==> pad_end(s, width) == s && pad_start(s, width) == s,
        pad_end(s, width).take(s.len() as int) == s,
        pad_start(s, width).skip(pad_start(s, width).len() - s.len()) == s,
        forall|i: int| s.len() <= i < pad_end(s, width).len() ==> #[trigger] pad_end(s, width)[i]
            == ' ',
        forall|i: int|
            0 <= i < pad_start(s, width).len() - s.len() ==> #[trigger] pad_start(s, width)[i]
                == ' ',
{
    let a = pad_end(s, width);
    let b = pad_start(s, width);
    assert(a.take(s.len() as int) =~= s);
    assert(b.skip(b.len() - s.len()) =~= s);
}

/// The view of an optional text is that of the text, where there is one.
pub proof fn lemma_optional_texts(s: String, t: &str)
    ensures
        opt_view(Some(s)) == Some(s@),
        opt_view(None) is None,
        opt_str_view(Some(t)) == Some(t@),
        opt_str_view(None) is None,
{
}

} // verus!
