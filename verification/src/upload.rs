//! Received files: the client's address, the digest, the slug and the expiry.

use vstd::prelude::*;
use vstd::string::*;
use vstd::utf8::*;

use crate::ip::IpAddr;
use crate::ip_text;
use crate::ip_text::parse_ip;
use crate::names;
use crate::names::{extension_of, file_stem_of};
use crate::text;
use crate::text::{byte_len, chars_of, split_text, trim_text, Trim};
use crate::timestamp;
use crate::timestamp::Timestamp;

verus! {

/// The text is made of ASCII letters and digits.
pub open spec fn alphanumeric(s: Seq<char>) -> bool {
    forall|i: int| 0 <= i < s.len() ==> text::ascii_alphanumeric(#[trigger] s[i])
}

/// The text may stand as the random part of a slug with an id of length `len`.
pub open spec fn is_id(s: Seq<char>, len: nat) -> bool {
    s.len() == len && alphanumeric(s)
}

/// `rand::distr::Alphanumeric` through `sample_string` on `rand::rng()`:
/// claims only the number of characters and that they are ASCII letters and
/// digits. It panics on a length that no allocation can have, and where the
/// system cannot seed the generator.
#[verifier::external_body]
fn sample_text(len: usize) -> (r: String)
    requires
        len <= isize::MAX,
    ensures
        is_id(r@, len as nat),
{
    rand::distr::SampleString::sample_string(
        &rand::distr::Alphanumeric,
        &mut rand::rng(),
        len,
    )
}

/// A random text of ASCII letters and digits.
pub fn random_string(len: usize) -> (r: String)
    requires
        len <= isize::MAX,
    ensures
        is_id(r@, len as nat),
{
    sample_text(len)
}

/// The address that a request comes from: the first entry of the forwarding
/// header where that header is trusted, else the peer.
pub open spec fn client_ip(
    forwarded: Option<Seq<char>>,
    peer: Option<IpAddr>,
    trust_xff: bool,
) -> Option<IpAddr> {
    if trust_xff {
        match forwarded {
            Some(h) => ip_text::ip_value(
                text::trim_both(text::pieces(h, ',', 2)[0], Trim::Blank),
            ),
            None => None,
        }
    } else {
        peer
    }
}

/// The address that a request comes from. Bans, quotas, throttling and the
/// access log all go by it.
pub fn extract_ip(forwarded: Option<&str>, peer: Option<IpAddr>, trust_xff: bool) -> (r: Option<
    IpAddr,
>)
    ensures
        r == client_ip(text::opt_str_view(forwarded), peer, trust_xff),
{
    if trust_xff {
        match forwarded {
            Some(h) => {
                let parts = split_text(h, ',', 2);
                assert(parts.deep_view().len() == parts@.len());
                assert(parts.deep_view()[0] == parts@[0]@);
                let first = trim_text(parts[0].as_str(), &Trim::Blank);
                parse_ip(first.as_str())
            },
            None => None,
        }
    } else {
        peer
    }
}

/// The suffix that keeps the extension of an uploaded file on its temporary
/// file.
pub open spec fn suffix_of(file_name: Option<Seq<char>>) -> Option<Seq<char>> {
    match file_name {
        Some(n) => match names::extension(n) {
            Some(e) => Some(seq!['.'] + e),
            None => None,
        },
        None => None,
    }
}

/// The suffix of the temporary file for an upload.
pub fn ext_suffix(file_name: Option<&str>) -> (r: Option<String>)
    ensures
        text::opt_view(r) == suffix_of(text::opt_str_view(file_name)),
{
    match file_name {
        Some(n) => match extension_of(n) {
            Some(e) => {
                let mut out = String::new();
                out.push('.');
                assert(out@ =~= seq!['.']);
                out.append(e.as_str());
                Some(out)
            },
            None => None,
        },
        None => None,
    }
}

// ---------------------------------------------------------------- digest

/// `blake3::Hasher`: a hash in the making; of it only `absorbed` is known.
#[verifier::external_type_specification]
#[verifier::external_body]
pub struct ExHasher(blake3::Hasher);

/// The bytes that a hasher has been fed.
pub uninterp spec fn absorbed(h: blake3::Hasher) -> Seq<u8>;

/// The BLAKE3 hash of some bytes.
pub uninterp spec fn blake3_hash(data: Seq<u8>) -> Seq<u8>;

/// `blake3::Hasher::new`: a hasher that has been fed nothing.
#[verifier::external_body]
fn new_hasher() -> (r: blake3::Hasher)
    ensures
        absorbed(r) == Seq::<u8>::empty(),
{
    blake3::Hasher::new()
}

/// `blake3::Hasher::update`: claims that the bytes are added to those fed
/// before.
#[verifier::external_body]
fn feed(h: &mut blake3::Hasher, chunk: &[u8])
    ensures
        absorbed(*final(h)) == absorbed(*old(h)) + chunk@,
{
    h.update(chunk);
}

/// `blake3::Hasher::finalize`: claims that the 32 bytes depend on the bytes
/// fed alone, however they were cut into chunks.
#[verifier::external_body]
fn digest_of(h: &blake3::Hasher) -> (r: [u8; 32])
    ensures
        r@ == blake3_hash(absorbed(*h)),
{
    h.finalize().into()
}

/// The running digest of a file that arrives in chunks.
pub struct UploadDigest {
    hasher: blake3::Hasher,
    size: usize,
}

impl UploadDigest {
    /// The bytes received so far.
    pub closed spec fn received(&self) -> Seq<u8> {
        absorbed(self.hasher)
    }

    /// The size counts the bytes received.
    pub closed spec fn wf(&self) -> bool {
        self.size == absorbed(self.hasher).len()
    }

    /// Nothing received yet.
    pub fn new() -> (r: UploadDigest)
        ensures
            r.wf(),
            r.received() == Seq::<u8>::empty(),
    {
        UploadDigest { hasher: new_hasher(), size: 0 }
    }

    /// Takes in the next chunk.
    pub fn push(&mut self, chunk: &[u8])
        requires
            old(self).wf(),
            old(self).received().len() + chunk@.len() <= usize::MAX,
        ensures
            final(self).wf(),
            final(self).received() == old(self).received() + chunk@,
    {
        self.size = self.size + chunk.len();
        feed(&mut self.hasher, chunk);
    }

    /// How many bytes were received.
    pub fn size(&self) -> (r: usize)
        requires
            self.wf(),
        ensures
            r == self.received().len(),
    {
        self.size
    }

    /// The hash of the bytes received.
    pub fn finish(&self) -> (r: [u8; 32])
        ensures
            r@ == blake3_hash(self.received()),
    {
        digest_of(&self.hasher)
    }
}

// ---------------------------------------------------------------- expiry

/// When a file received at a point in time is dropped: so many days later,
/// where that is still a date.
pub open spec fn expiry(received: Timestamp, days: i64) -> Option<Timestamp> {
    let nanos = received.nanos + days * timestamp::NANOS_PER_DAY;
    if timestamp::in_range(nanos) {
        Some(Timestamp { nanos: nanos as i128 })
    } else {
        None
    }
}

/// When a file received at a point in time is dropped.
pub fn compute_expiry(received: Timestamp, days: i64) -> (r: Option<Timestamp>)
    requires
        received.valid(),
    ensures
        r == expiry(received, days),
        r matches Some(ts) ==> ts.valid(),
{
    if received.has_after_days(days) {
        Some(received.after_days(days))
    } else {
        None
    }
}

/// When a file received now is dropped.
pub fn calculate_expiry(days: i64) -> (r: Option<Timestamp>)
    ensures
        exists|now: Timestamp| now.valid() && r == #[trigger] expiry(now, days),
        r matches Some(ts) ==> ts.valid(),
{
    let now = Timestamp::now();
    compute_expiry(now, days)
}

// ---------------------------------------------------------------- slugs

/// The character may stand in the kept part of a slug: a letter or digit of
/// any script, or one of `.`, `_`, `-`.
pub open spec fn slug_char(c: char) -> bool {
    text::unicode_alphanumeric(c) || c == '.' || c == '_' || c == '-'
}

/// A file name without extension, with `_` for each character that may not
/// stand in a slug.
pub open spec fn clean_stem(name: Seq<char>) -> Seq<char> {
    match names::file_stem(name) {
        Some(stem) => stem.map_values(
            |c: char|
                if slug_char(c) {
                    c
                } else {
                    '_'
                },
        ),
        None => Seq::empty(),
    }
}

/// An ASCII letter or digit, or one of `.`, `_`, `-`.
pub open spec fn plain_char(c: char) -> bool {
    'a' <= c <= 'z' || 'A' <= c <= 'Z' || '0' <= c <= '9' || c == '.' || c == '_' || c == '-'
}

/// The text is made of such characters alone.
pub open spec fn plain_text(s: Seq<char>) -> bool {
    forall|i: int| 0 <= i < s.len() ==> plain_char(#[trigger] s[i])
}

/// Makes a file name without its extension fit for a slug: what is not a
/// letter or digit of any script, `.`, `_` or `-` becomes `_`.
pub fn sanitize_filename_stem(name: &str) -> (r: String)
    ensures
        r@ == clean_stem(name@),
        names::file_stem(name@) is None ==> r@.len() == 0,
        names::file_stem(name@) matches Some(stem) ==> {
            &&& r@.len() == stem.len()
            &&& forall|i: int|
                0 <= i < stem.len() && plain_char(stem[i]) ==> #[trigger] r@[i] == stem[i]
            &&& forall|i: int|
                0 <= i < stem.len() && (stem[i] as u32) < 128 && !plain_char(stem[i])
                    ==> #[trigger] r@[i] == '_'
        },
        names::file_stem(name@) matches Some(stem) ==> plain_text(stem) ==> r@ == stem,
{
    let mut out = String::new();
    match file_stem_of(name) {
        Some(stem) => {
            let chars = chars_of(stem.as_str());
            let n: usize = chars.len();
            for i in 0..n
                invariant
                    n == chars@.len(),
                    chars@ == stem@,
                    names::file_stem(name@) == Some(stem@),
                    out@ == clean_stem(name@).take(i as int),
                    out@.len() == i,
                    forall|j: int|
                        0 <= j < i && plain_char(stem@[j]) ==> #[trigger] out@[j] == stem@[j],
                    forall|j: int|
                        0 <= j < i && (stem@[j] as u32) < 128 && !plain_char(stem@[j])
                            ==> #[trigger] out@[j] == '_',
            {
                let c: char = chars[i];
                let ghost before = out@;
                if c.is_alphanumeric() || c == '.' || c == '_' || c == '-' {
                    out.push(c);
                } else {
                    out.push('_');
                }
                assert(clean_stem(name@).take(i + 1) =~= before.push(clean_stem(name@)[i as int]));
            }
            assert(clean_stem(name@).take(n as int) =~= clean_stem(name@));
            proof {
                if plain_text(stem@) {
                    assert forall|j: int| 0 <= j < stem@.len() implies out@[j] == stem@[j] by {
                        assert(plain_char(stem@[j]));
                    }
                    assert(out@ =~= stem@);
                }
            }
        },
        None => {
            assert(out@ =~= clean_stem(name@));
        },
    }
    out
}

/// The text may stand as the extension of a slug: not empty, and not over the
/// limit in bytes.
pub open spec fn fit_ext(ext: Option<Seq<char>>, max_len: nat) -> bool {
    match ext {
        Some(e) => e.len() > 0 && encode_utf8(e).len() <= max_len,
        None => false,
    }
}

/// The extension of a slug: that of the original name where it fits, else,
/// where that is asked for, the media subtype where it fits.
pub open spec fn slug_ext(
    name: Seq<char>,
    subtype: Option<Seq<char>>,
    auto_ext: bool,
    max_ext_len: nat,
) -> Option<Seq<char>> {
    if fit_ext(names::extension(name), max_ext_len) {
        names::extension(name)
    } else if auto_ext && fit_ext(subtype, max_ext_len) {
        subtype
    } else {
        None
    }
}

/// A slug without its extension: the id, behind the cleaned stem of the name
/// where the name is kept and has one.
pub open spec fn slug_base(id: Seq<char>, name: Seq<char>, keep_name: bool) -> Seq<char> {
    if keep_name && clean_stem(name).len() > 0 {
        clean_stem(name) + seq!['_'] + id
    } else {
        id
    }
}

/// The slug made from a random id.
pub open spec fn slug_text(
    id: Seq<char>,
    name: Seq<char>,
    subtype: Option<Seq<char>>,
    auto_ext: bool,
    max_ext_len: nat,
    keep_name: bool,
) -> Seq<char> {
    match slug_ext(name, subtype, auto_ext, max_ext_len) {
        Some(e) => slug_base(id, name, keep_name) + seq!['.'] + e,
        None => slug_base(id, name, keep_name),
    }
}

fn fits(ext: Option<&str>, max_len: usize) -> (r: bool)
    ensures
        r == fit_ext(text::opt_str_view(ext), max_len as nat),
{
    match ext {
        Some(e) => !e.is_empty() && byte_len(e) <= max_len,
        None => false,
    }
}

/// The slug made from a random id.
pub fn build_slug_with(
    id: &str,
    original_name: &str,
    subtype: Option<&str>,
    auto_ext: bool,
    max_ext_len: usize,
    keep_name: bool,
) -> (r: String)
    ensures
        r@ == slug_text(
            id@,
            original_name@,
            text::opt_str_view(subtype),
            auto_ext,
            max_ext_len as nat,
            keep_name,
        ),
        keep_name ==> (names::file_stem(original_name@) matches Some(stem) ==> stem.len() > 0
            && plain_text(stem) ==> (stem + seq!['_'] + id@).is_prefix_of(r@)),
        !keep_name ==> id@.is_prefix_of(r@),
{
    let mut out = String::new();
    let stem = sanitize_filename_stem(original_name);
    if keep_name && !stem.as_str().is_empty() {
        out.append(stem.as_str());
        out.push('_');
        assert(out@ =~= clean_stem(original_name@) + seq!['_']);
    }
    out.append(id);
    assert(out@ =~= slug_base(id@, original_name@, keep_name));
    let ghost base = out@;
    let own = extension_of(original_name);
    let own_str: Option<&str> = match &own {
        Some(e) => Some(e.as_str()),
        None => None,
    };
    let chosen: Option<&str> = if fits(own_str, max_ext_len) {
        own_str
    } else if auto_ext && fits(subtype, max_ext_len) {
        subtype
    } else {
        None
    };
    match chosen {
        Some(e) => {
            out.push('.');
            out.append(e);
            assert(out@ =~= slug_base(id@, original_name@, keep_name) + seq!['.'] + e@);
        },
        None => {},
    }
    assert(base =~= out@.subrange(0, base.len() as int));
    out
}

/// A new slug for an upload.
pub fn build_slug(
    original_name: &str,
    content_type_subtype: Option<&str>,
    id_len: usize,
    auto_ext: bool,
    max_ext_len: usize,
    keep_name: bool,
) -> (r: String)
    requires
        id_len <= isize::MAX,
    ensures
        exists|id: Seq<char>|
            is_id(id, id_len as nat) && r@ == #[trigger] slug_text(
                id,
                original_name@,
                text::opt_str_view(content_type_subtype),
                auto_ext,
                max_ext_len as nat,
                keep_name,
            ),
{
    let id = random_string(id_len);
    build_slug_with(
        id.as_str(),
        original_name,
        content_type_subtype,
        auto_ext,
        max_ext_len,
        keep_name,
    )
}

/// Two ids of one length never give the same slug to the same file.
pub proof fn lemma_slug_injective(
    a: Seq<char>,
    b: Seq<char>,
    name: Seq<char>,
    subtype: Option<Seq<char>>,
    auto_ext: bool,
    max_ext_len: nat,
    keep_name: bool,
)
    requires
        a.len() == b.len(),
        slug_text(a, name, subtype, auto_ext, max_ext_len, keep_name) == slug_text(
            b,
            name,
            subtype,
            auto_ext,
            max_ext_len,
            keep_name,
        ),
    ensures
        a == b,
{
    let x = slug_base(a, name, keep_name);
    let y = slug_base(b, name, keep_name);
    let s = slug_text(a, name, subtype, auto_ext, max_ext_len, keep_name);
    assert(x.len() == y.len());
    assert(s.take(x.len() as int) =~= x);
    assert(s.take(x.len() as int) =~= y);
    assert(x.skip(x.len() - a.len()) =~= a);
    assert(y.skip(x.len() - a.len()) =~= b);
}

// ---------------------------------------------------------------- laws

/// What Unicode counts as a letter or a number stands in the kept part of a
/// slug where it stood in the name, and so do `.`, `_` and `-`; each other
/// character is replaced by one `_`.
pub proof fn lemma_stem_is_kept(name: Seq<char>, stem: Seq<char>)
    requires
        names::file_stem(name) == Some(stem),
    ensures
        clean_stem(name).len() == stem.len(),
        forall|i: int|
            0 <= i < stem.len() ==> #[trigger] clean_stem(name)[i] == (if
            text::unicode_alphanumeric(stem[i]) || stem[i] == '.' || stem[i] == '_' || stem[i]
                == '-' {
                stem[i]
            } else {
                '_'
            }),
{
}

/// A stem in which nothing is to be replaced is kept as it is.
pub proof fn lemma_fit_stem_is_kept_whole(name: Seq<char>, stem: Seq<char>)
    requires
        names::file_stem(name) == Some(stem),
        forall|i: int|
            0 <= i < stem.len() ==> text::unicode_alphanumeric(#[trigger] stem[i]) || stem[i] == '.'
                || stem[i] == '_' || stem[i] == '-',
    ensures
        clean_stem(name) == stem,
{
    assert(clean_stem(name) =~= stem);
}

proof fn lemma_bytes_of_text(s: Seq<char>)
    requires
        s.len() > 0,
    ensures
        encode_utf8(s).len() > 0,
{
    assert(encode_utf8(s) == encode_scalar(s[0] as u32) + encode_utf8(s.drop_first()));
}

/// What a slug is made of: the random part, behind the kept name and `_` where
/// the name is kept and there is one, and then a dot and the extension, where
/// there is one. The file's own extension goes before the media subtype, which
/// counts only where it is asked for; an extension that is empty or has too
/// many bytes is left out.
pub proof fn lemma_slug_parts(
    id: Seq<char>,
    name: Seq<char>,
    subtype: Option<Seq<char>>,
    auto_ext: bool,
    max_ext_len: nat,
    keep_name: bool,
)
    ensures
        ({
            let slug = slug_text(id, name, subtype, auto_ext, max_ext_len, keep_name);
            let bare = slug_text(id, name, None, false, 0, keep_name);
            let own = names::extension(name);
            let own_fits = own is Some && own->Some_0.len() > 0 && encode_utf8(own->Some_0).len()
                <= max_ext_len;
            let sub_fits = subtype is Some && subtype->Some_0.len() > 0 && encode_utf8(
                subtype->Some_0,
            ).len() <= max_ext_len;
            &&& own_fits ==> slug == bare + seq!['.'] + own->Some_0
            &&& !own_fits && auto_ext && sub_fits ==> slug == bare + seq!['.'] + subtype->Some_0
            &&& !own_fits && !(auto_ext && sub_fits) ==> slug == bare
            &&& !keep_name || names::file_stem(name) is None || names::file_stem(name)->Some_0.len()
                == 0 ==> bare == id
            &&& keep_name && names::file_stem(name) is Some && names::file_stem(name)->Some_0.len()
                > 0 ==> bare == clean_stem(name) + seq!['_'] + id
        }),
{
    if let Some(e) = names::extension(name) {
        if e.len() > 0 {
            lemma_bytes_of_text(e);
        }
    }
}

/// Without trust in the forwarding header the peer is the client, whatever the
/// header says; with it the peer does not count, and without the header the
/// client is not known.
pub proof fn lemma_whose_word_counts(
    forwarded: Option<Seq<char>>,
    peer: Option<IpAddr>,
    other: Option<IpAddr>,
)
    ensures
        client_ip(forwarded, peer, false) == peer,
        client_ip(forwarded, peer, true) == client_ip(forwarded, other, true),
        client_ip(None, peer, true) is None,
{
}

/// With trust in the forwarding header the client is the address that the
/// header names first, with blanks around it or without, whoever else is named
/// behind it.
pub proof fn lemma_first_forwarded_counts(
    front: Seq<char>,
    entry: Seq<char>,
    back: Seq<char>,
    rest: Seq<char>,
    peer: Option<IpAddr>,
)
    requires
        !(front + entry + back).contains(','),
        forall|i: int| 0 <= i < front.len() ==> text::unicode_whitespace(#[trigger] front[i]),
        forall|i: int| 0 <= i < back.len() ==> text::unicode_whitespace(#[trigger] back[i]),
        entry.len() > 0 ==> !text::unicode_whitespace(entry[0]) && !text::unicode_whitespace(
            entry.last(),
        ),
    ensures
        client_ip(Some(front + entry + back), peer, true) == ip_text::ip_value(entry),
        client_ip(Some(front + entry + back + seq![','] + rest), peer, true) == ip_text::ip_value(
            entry,
        ),
{
    let head = front + entry + back;
    crate::text_laws::lemma_first_piece(head, ',', rest, 2);
    text::lemma_trim_leaves_the_middle(front, entry, back, Trim::Blank);
}

/// The temporary file of an upload has the extension of its name, behind a
/// dot, and none where the name has none.
pub proof fn lemma_suffix(file_name: Option<Seq<char>>)
    ensures
        suffix_of(None) is None,
        file_name matches Some(n) ==> (suffix_of(file_name) is Some <==> names::extension(n)
            is Some),
        file_name matches Some(n) ==> (names::extension(n) matches Some(e) ==> suffix_of(file_name)
            == Some(seq!['.'] + e)),
{
}

/// A file is kept for whole days of 24 hours from when it was received, as
/// long as that is a date before the year 10000; keeping it for some days and
/// then some more is keeping it for all of them.
pub proof fn lemma_days_add_up(received: Timestamp, a: i64, b: i64)
    requires
        -0x8000_0000_0000_0000 <= a + b <= 0x7fff_ffff_ffff_ffff,
    ensures
        expiry(received, a) matches Some(ts) ==> ts.nanos == received.nanos + a
            * 86_400_000_000_000,
        expiry(received, a) is Some <==> -377_705_116_800_000_000_000 <= received.nanos + a
            * 86_400_000_000_000 <= 253_402_300_799_999_999_999,
        expiry(received, a) is Some ==> expiry(expiry(received, a)->Some_0, b) == expiry(
            received,
            (a + b) as i64,
        ),
{
    assert((a + b) * 86_400_000_000_000 == a * 86_400_000_000_000 + b * 86_400_000_000_000)
        by (nonlinear_arith);
}

/// A file that is received later, or kept longer, is not dropped earlier.
pub proof fn lemma_expiry_is_monotone(early: Timestamp, late: Timestamp, less: i64, more: i64)
    requires
        early.nanos <= late.nanos,
        less <= more,
        expiry(early, less) is Some,
        expiry(late, more) is Some,
    ensures
        expiry(early, less)->Some_0.nanos <= expiry(late, more)->Some_0.nanos,
{
}

} // verus!
