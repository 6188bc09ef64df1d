//! Media types: what a file is, told from its bytes, its extension or what
//! the client said.

use vstd::prelude::*;
use vstd::string::*;

use crate::names;
use crate::text;
use crate::text::same_text;

verus! {

/// How many leading bytes of a file are looked at: the longest signature of
/// the signature table needs 594.
pub const SNIFF_LIMIT: u64 = 1024;

/// A media type: its whole text, its top level type and its subtype without
/// suffix and parameters.
#[derive(Debug)]
pub struct MimeType {
    pub text: String,
    pub kind: String,
    pub subtype: String,
}

impl View for MimeType {
    type V = (Seq<char>, Seq<char>, Seq<char>);

    open spec fn view(&self) -> (Seq<char>, Seq<char>, Seq<char>) {
        (self.text@, self.kind@, self.subtype@)
    }
}

/// The view of an optional media type.
pub open spec fn opt_view(m: Option<MimeType>) -> Option<(Seq<char>, Seq<char>, Seq<char>)> {
    match m {
        Some(t) => Some(t@),
        None => None,
    }
}

/// What the signature table says of a file: whether this is only its default,
/// the extensions of the format and its media types.
#[derive(Debug)]
pub struct FileKind {
    pub is_default: bool,
    pub extensions: Vec<String>,
    pub media_types: Vec<String>,
}

impl View for FileKind {
    type V = (bool, Seq<Seq<char>>, Seq<Seq<char>>);

    open spec fn view(&self) -> (bool, Seq<Seq<char>>, Seq<Seq<char>>) {
        (self.is_default, self.extensions.deep_view(), self.media_types.deep_view())
    }
}

/// The view of an optional file kind.
pub open spec fn opt_kind_view(k: Option<FileKind>) -> Option<
    (bool, Seq<Seq<char>>, Seq<Seq<char>>),
> {
    match k {
        Some(t) => Some(t@),
        None => None,
    }
}

/// The text, type and subtype of the media type that a text denotes.
pub uninterp spec fn mime_parts(s: Seq<char>) -> Option<(Seq<char>, Seq<char>, Seq<char>)>;

/// `mime::Mime`'s `FromStr`, with the parts that `as_ref`, `type_` and
/// `subtype` give: claims that the outcome depends on the text alone.
#[verifier::external_body]
pub(crate) fn parse_mime(s: &str) -> (r: Option<MimeType>)
    ensures
        opt_view(r) == mime_parts(s@),
{
    let parsed = s.parse::<mime::Mime>().ok();
    parsed.map(|m| MimeType {
        text: m.as_ref().to_string(),
        kind: m.type_().as_str().to_string(),
        subtype: m.subtype().as_str().to_string(),
    })
}

/// The first media type listed for a file extension.
pub uninterp spec fn extension_mime(ext: Seq<char>) -> Option<(Seq<char>, Seq<char>, Seq<char>)>;

/// `mime_guess::from_ext` and the guess's `first`: claims that the outcome
/// depends on the extension alone.
#[verifier::external_body]
fn guess_by_extension(ext: &str) -> (r: Option<MimeType>)
    ensures
        opt_view(r) == extension_mime(ext@),
{
    let guessed = mime_guess::from_ext(ext).first();
    guessed.map(|m| MimeType {
        text: m.as_ref().to_string(),
        kind: m.type_().as_str().to_string(),
        subtype: m.subtype().as_str().to_string(),
    })
}

/// The media type guessed for a path: that of its extension.
pub open spec fn path_mime(path: Seq<char>) -> Option<(Seq<char>, Seq<char>, Seq<char>)> {
    match names::extension(path) {
        Some(ext) => extension_mime(ext),
        None => None,
    }
}

/// `mime_guess::from_path` and the guess's `first`: claims that the guess is
/// that of the path's extension, and none for a path without extension.
#[verifier::external_body]
pub(crate) fn guess_by_path(path: &str) -> (r: Option<MimeType>)
    ensures
        opt_view(r) == path_mime(path@),
{
    let guessed = mime_guess::from_path(path).first();
    guessed.map(|m| MimeType {
        text: m.as_ref().to_string(),
        kind: m.type_().as_str().to_string(),
        subtype: m.subtype().as_str().to_string(),
    })
}

/// What the signature table says of some bytes.
pub uninterp spec fn bytes_kind(bytes: Seq<u8>) -> (bool, Seq<Seq<char>>, Seq<Seq<char>>);

/// `file_type::FileType::from_bytes`: claims that the outcome depends on the
/// bytes alone.
#[verifier::external_body]
fn kind_from_bytes(bytes: &[u8]) -> (r: FileKind)
    ensures
        r@ == bytes_kind(bytes@),
{
    let found = file_type::FileType::from_bytes(bytes);
    FileKind {
        is_default: *found.source_type() == file_type::format::SourceType::Default,
        extensions: found.extensions().iter().map(|e| e.to_string()).collect(),
        media_types: found.media_types().iter().map(|m| m.to_string()).collect(),
    }
}

/// What the signature table lists first for an extension.
pub uninterp spec fn extension_kind(ext: Seq<char>) -> Option<
    (bool, Seq<Seq<char>>, Seq<Seq<char>>),
>;

/// `file_type::FileType::from_extension`, of which the first entry is taken:
/// claims that the outcome depends on the extension alone.
#[verifier::external_body]
fn kind_from_extension(ext: &str) -> (r: Option<FileKind>)
    ensures
        opt_kind_view(r) == extension_kind(ext@),
{
    let listed = file_type::FileType::from_extension(ext).first();
    listed.map(|found| FileKind {
        is_default: *found.source_type() == file_type::format::SourceType::Default,
        extensions: found.extensions().iter().map(|e| e.to_string()).collect(),
        media_types: found.media_types().iter().map(|m| m.to_string()).collect(),
    })
}

/// The media type of a file of which nothing is known.
pub open spec fn octet_stream() -> Seq<char> {
    "application/octet-stream"@
}

/// The media type is the one that says nothing.
pub fn is_octet_stream(m: &MimeType) -> (r: bool)
    ensures
        r == (m@.0 == octet_stream()),
{
    same_text(m.text.as_str(), "application/octet-stream")
}

/// A copy of a media type.
pub(crate) fn copy_mime(m: &MimeType) -> (r: MimeType)
    ensures
        r == *m,
{
    MimeType { text: m.text.clone(), kind: m.kind.clone(), subtype: m.subtype.clone() }
}

/// Four given bytes stand in `b` at position `i`.
pub open spec fn four_at(b: Seq<u8>, i: int, run: Seq<u8>) -> bool {
    0 <= i && i + 4 <= b.len() && b.subrange(i, i + 4) == run
}

/// Four given bytes stand somewhere in `b`.
pub open spec fn contains_four(b: Seq<u8>, run: Seq<u8>) -> bool {
    exists|i: int| #[trigger] four_at(b, i, run)
}

/// The media type of the formats whose signature has a length in it: RIFF
/// files of type WEBP, EBML files that name webm, and ISO media files.
pub open spec fn sniffed_name(b: Seq<u8>) -> Option<Seq<char>> {
    if four_at(b, 0, seq![0x52u8, 0x49, 0x46, 0x46]) && four_at(
        b,
        8,
        seq![0x57u8, 0x45, 0x42, 0x50],
    ) {
        Some("image/webp"@)
    } else if four_at(b, 0, seq![0x1au8, 0x45, 0xdf, 0xa3]) && contains_four(
        b,
        seq![0x77u8, 0x65, 0x62, 0x6d],
    ) {
        Some("video/webm"@)
    } else if four_at(b, 4, seq![0x66u8, 0x74, 0x79, 0x70]) {
        Some("video/mp4"@)
    } else {
        None
    }
}

fn has_four_at(b: &[u8], i: usize, run: [u8; 4]) -> (r: bool)
    ensures
        r == four_at(b@, i as int, run@),
{
    let n: usize = b.len();
    if n < 4 || i > n - 4 {
        return false;
    }
    let same = b[i] == run[0] && b[i + 1] == run[1] && b[i + 2] == run[2] && b[i + 3] == run[3];
    let ghost cut = b@.subrange(i as int, i + 4);
    proof {
        assert(cut[0] == b@[i as int] && cut[1] == b@[i + 1] && cut[2] == b@[i + 2] && cut[3]
            == b@[i + 3]);
        if same {
            assert(cut =~= run@);
        }
    }
    same
}

fn has_four(b: &[u8], run: [u8; 4]) -> (r: bool)
    ensures
        r == contains_four(b@, run@),
{
    let n: usize = b.len();
    for i in 0..n
        invariant
            n == b@.len(),
            forall|j: int| 0 <= j < i ==> !#[trigger] four_at(b@, j, run@),
    {
        if has_four_at(b, i, run) {
            return true;
        }
    }
    false
}

/// The type of the formats whose signature has a length in it.
pub fn sniff_well_known(bytes: &[u8]) -> (r: Option<MimeType>)
    ensures
        opt_view(r) == (match sniffed_name(bytes@) {
            Some(name) => mime_parts(name),
            None => None,
        }),
{
    let riff: [u8; 4] = [0x52u8, 0x49, 0x46, 0x46];
    let webp: [u8; 4] = [0x57u8, 0x45, 0x42, 0x50];
    let ebml: [u8; 4] = [0x1au8, 0x45, 0xdf, 0xa3];
    let webm: [u8; 4] = [0x77u8, 0x65, 0x62, 0x6d];
    let ftyp: [u8; 4] = [0x66u8, 0x74, 0x79, 0x70];
    assert(riff@ =~= seq![0x52u8, 0x49, 0x46, 0x46]);
    assert(webp@ =~= seq![0x57u8, 0x45, 0x42, 0x50]);
    assert(ebml@ =~= seq![0x1au8, 0x45, 0xdf, 0xa3]);
    assert(webm@ =~= seq![0x77u8, 0x65, 0x62, 0x6d]);
    assert(ftyp@ =~= seq![0x66u8, 0x74, 0x79, 0x70]);
    if has_four_at(bytes, 0, riff) && has_four_at(bytes, 8, webp) {
        parse_mime("image/webp")
    } else if has_four_at(bytes, 0, ebml) && has_four(bytes, webm) {
        parse_mime("video/webm")
    } else if has_four_at(bytes, 4, ftyp) {
        parse_mime("video/mp4")
    } else {
        None
    }
}

/// The first guess that there is.
pub open spec fn first_some<T>(guesses: Seq<Option<T>>) -> Option<T>
    decreases guesses.len(),
{
    if guesses.len() == 0 {
        None
    } else if guesses[0] is Some {
        guesses[0]
    } else {
        first_some(guesses.skip(1))
    }
}

/// The views of a list of optional media types.
pub open spec fn guess_views(guesses: Seq<Option<MimeType>>) -> Seq<
    Option<(Seq<char>, Seq<char>, Seq<char>)>,
> {
    guesses.map_values(|g: Option<MimeType>| opt_view(g))
}

/// A media type that says something.
pub open spec fn telling(m: Option<(Seq<char>, Seq<char>, Seq<char>)>) -> Option<
    (Seq<char>, Seq<char>, Seq<char>),
> {
    match m {
        Some(t) => if t.0 == octet_stream() {
            None
        } else {
            Some(t)
        },
        None => None,
    }
}

/// The first guess, or else the listed type where it says something.
pub open spec fn chosen(
    guesses: Seq<Option<(Seq<char>, Seq<char>, Seq<char>)>>,
    listed: Option<(Seq<char>, Seq<char>, Seq<char>)>,
) -> Option<(Seq<char>, Seq<char>, Seq<char>)> {
    match first_some(guesses) {
        Some(t) => Some(t),
        None => telling(listed),
    }
}

proof fn lemma_first_some<T>(s: Seq<Option<T>>, k: int)
    requires
        0 <= k <= s.len(),
        forall|j: int| 0 <= j < k ==> (#[trigger] s[j]) is None,
    ensures
        first_some(s) == first_some(s.skip(k)),
    decreases k,
{
    if k > 0 {
        assert(s[0] is None);
        lemma_first_some(s.skip(1), k - 1);
        assert(s.skip(1).skip(k - 1) =~= s.skip(k));
    } else {
        assert(s.skip(0) =~= s);
    }
}

/// Picks the first guess, or else the listed type where it says something.
pub fn choose_mime(guesses: &Vec<Option<MimeType>>, listed: Option<MimeType>) -> (r: Option<
    MimeType,
>)
    ensures
        opt_view(r) == chosen(guess_views(guesses@), opt_view(listed)),
{
    let n: usize = guesses.len();
    let ghost views = guess_views(guesses@);
    for i in 0..n
        invariant
            n == guesses@.len(),
            views == guess_views(guesses@),
            forall|j: int| 0 <= j < i ==> (#[trigger] views[j]) is None,
    {
        match &guesses[i] {
            Some(m) => {
                proof {
                    lemma_first_some(views, i as int);
                    assert(views.skip(i as int)[0] == views[i as int]);
                }
                return Some(copy_mime(m));
            },
            None => {},
        }
    }
    proof {
        lemma_first_some(views, n as int);
    }
    match listed {
        Some(m) => if is_octet_stream(&m) {
            None
        } else {
            Some(m)
        },
        None => None,
    }
}

/// The media types guessed for a list of extensions.
pub open spec fn extension_guesses(exts: Seq<Seq<char>>) -> Seq<
    Option<(Seq<char>, Seq<char>, Seq<char>)>,
> {
    exts.map_values(|e: Seq<char>| extension_mime(e))
}

/// The media type of a file kind: the first guess for its extensions, or else
/// the first of its own media types where that says something.
pub open spec fn resolved(kind: (bool, Seq<Seq<char>>, Seq<Seq<char>>)) -> Option<
    (Seq<char>, Seq<char>, Seq<char>),
> {
    chosen(
        extension_guesses(kind.1),
        if kind.2.len() > 0 {
            mime_parts(kind.2[0])
        } else {
            None
        },
    )
}

/// The media type of a file kind.
pub fn resolve_mime(kind: &FileKind) -> (r: Option<MimeType>)
    ensures
        opt_view(r) == resolved(kind@),
{
    let mut guesses: Vec<Option<MimeType>> = Vec::new();
    let n: usize = kind.extensions.len();
    let ghost exts = kind.extensions.deep_view();
    for i in 0..n
        invariant
            n == kind.extensions@.len(),
            exts == kind.extensions.deep_view(),
            exts.len() == n,
            guess_views(guesses@) == extension_guesses(exts).take(i as int),
    {
        let ghost before = guess_views(guesses@);
        let g = guess_by_extension(kind.extensions[i].as_str());
        let ghost view = opt_view(g);
        guesses.push(g);
        proof {
            assert(exts[i as int] == kind.extensions@[i as int]@);
            assert(guess_views(guesses@) =~= before.push(view));
            assert(extension_guesses(exts).take(i + 1) =~= before.push(view));
        }
    }
    assert(extension_guesses(exts).take(n as int) =~= extension_guesses(exts));
    assert(kind@.2.len() == kind.media_types@.len());
    let listed = if kind.media_types.len() > 0 {
        assert(kind@.2[0] == kind.media_types@[0]@);
        parse_mime(kind.media_types[0].as_str())
    } else {
        None
    };
    choose_mime(&guesses, listed)
}

/// Which of the findings on a file counts: what its bytes say, or where the
/// signature table had only its default, the well known formats, then what
/// is listed for its extension, then the default.
pub open spec fn settled<T>(
    by_default: bool,
    content: Option<T>,
    sniffed: Option<T>,
    listed: Option<Option<T>>,
) -> Option<T> {
    if !by_default {
        content
    } else if sniffed is Some {
        sniffed
    } else {
        match listed {
            Some(m) => m,
            None => content,
        }
    }
}

/// Picks the finding on a file that counts: content goes before extension.
pub fn settle(
    by_default: bool,
    content: Option<MimeType>,
    sniffed: Option<MimeType>,
    listed: Option<Option<MimeType>>,
) -> (r: Option<MimeType>)
    ensures
        r == settled(by_default, content, sniffed, listed),
{
    if !by_default {
        return content;
    }
    match sniffed {
        Some(m) => Some(m),
        None => match listed {
            Some(m) => m,
            None => content,
        },
    }
}

/// The media type told from the first bytes of a file and its extension.
pub open spec fn detected(bytes: Seq<u8>, ext: Option<Seq<char>>) -> Option<
    (Seq<char>, Seq<char>, Seq<char>),
> {
    settled(
        bytes_kind(bytes).0,
        resolved(bytes_kind(bytes)),
        match sniffed_name(bytes) {
            Some(name) => mime_parts(name),
            None => None,
        },
        match ext {
            Some(e) => match extension_kind(e) {
                Some(kind) => Some(resolved(kind)),
                None => None,
            },
            None => None,
        },
    )
}

/// Tells the media type of a file from its first bytes and its extension.
pub fn detect_content_type(bytes: &[u8], ext: Option<&str>) -> (r: Option<MimeType>)
    ensures
        opt_view(r) == detected(bytes@, text::opt_str_view(ext)),
{
    let kind = kind_from_bytes(bytes);
    let content = resolve_mime(&kind);
    let sniffed = sniff_well_known(bytes);
    let listed = match ext {
        Some(e) => match kind_from_extension(e) {
            Some(k) => Some(resolve_mime(&k)),
            None => None,
        },
        None => None,
    };
    settle(kind.is_default, content, sniffed, listed)
}

// ---------------------------------------------------------------- laws

/// WebP, WebM and MP4 files are told by fixed bytes at fixed places, whatever
/// the bytes between and behind them; no other file is told this way.
pub proof fn lemma_signatures(b: Seq<u8>)
    ensures
        ({
            let riff_webp = b.len() >= 12 && b[0] == 0x52 && b[1] == 0x49 && b[2] == 0x46 && b[3]
                == 0x46 && b[8] == 0x57 && b[9] == 0x45 && b[10] == 0x42 && b[11] == 0x50;
            let ebml = b.len() >= 4 && b[0] == 0x1a && b[1] == 0x45 && b[2] == 0xdf && b[3] == 0xa3;
            let names_webm = exists|i: int|
                0 <= i && i + 4 <= b.len() && #[trigger] b[i] == 0x77 && b[i + 1] == 0x65 && b[i
                    + 2] == 0x62 && b[i + 3] == 0x6d;
            let ftyp = b.len() >= 8 && b[4] == 0x66 && b[5] == 0x74 && b[6] == 0x79 && b[7] == 0x70;
            &&& riff_webp ==> sniffed_name(b) == Some("image/webp"@)
            &&& ebml && names_webm ==> sniffed_name(b) == Some("video/webm"@)
            &&& !riff_webp && !(ebml && names_webm) && ftyp ==> sniffed_name(b) == Some(
                "video/mp4"@,
            )
            &&& !riff_webp && !(ebml && names_webm) && !ftyp ==> sniffed_name(b) is None
        }),
{
    let riff = seq![0x52u8, 0x49, 0x46, 0x46];
    let webp = seq![0x57u8, 0x45, 0x42, 0x50];
    let ebml = seq![0x1au8, 0x45, 0xdf, 0xa3];
    let webm = seq![0x77u8, 0x65, 0x62, 0x6d];
    let ftyp = seq![0x66u8, 0x74, 0x79, 0x70];
    lemma_four_at(b, 0, riff);
    lemma_four_at(b, 8, webp);
    lemma_four_at(b, 0, ebml);
    lemma_four_at(b, 4, ftyp);
    if contains_four(b, webm) {
        let i = choose|i: int| #[trigger] four_at(b, i, webm);
        lemma_four_at(b, i, webm);
        assert(b[i] == 0x77);
    }
    if exists|i: int|
        0 <= i && i + 4 <= b.len() && #[trigger] b[i] == 0x77 && b[i + 1] == 0x65 && b[i + 2]
            == 0x62 && b[i + 3] == 0x6d {
        let i = choose|i: int|
            0 <= i && i + 4 <= b.len() && #[trigger] b[i] == 0x77 && b[i + 1] == 0x65 && b[i + 2]
                == 0x62 && b[i + 3] == 0x6d;
        lemma_four_at(b, i, webm);
        assert(four_at(b, i, webm));
    }
}

proof fn lemma_four_at(b: Seq<u8>, i: int, run: Seq<u8>)
    requires
        run.len() == 4,
    ensures
        four_at(b, i, run) <==> 0 <= i && i + 4 <= b.len() && b[i] == run[0] && b[i + 1] == run[1]
            && b[i + 2] == run[2] && b[i + 3] == run[3],
{
    if 0 <= i && i + 4 <= b.len() {
        let cut = b.subrange(i, i + 4);
        assert(cut[0] == b[i] && cut[1] == b[i + 1] && cut[2] == b[i + 2] && cut[3] == b[i + 3]);
        if b[i] == run[0] && b[i + 1] == run[1] && b[i + 2] == run[2] && b[i + 3] == run[3] {
            assert(cut =~= run);
        }
    }
}

/// The first guess that there is counts, whatever comes behind it and whatever
/// is listed.
pub proof fn lemma_first_guess_counts(
    guesses: Seq<Option<(Seq<char>, Seq<char>, Seq<char>)>>,
    listed: Option<(Seq<char>, Seq<char>, Seq<char>)>,
    i: int,
)
    requires
        0 <= i < guesses.len(),
        guesses[i] is Some,
        forall|j: int| 0 <= j < i ==> (#[trigger] guesses[j]) is None,
    ensures
        chosen(guesses, listed) == guesses[i],
{
    lemma_first_some(guesses, i);
    assert(guesses.skip(i)[0] == guesses[i]);
}

/// Without a guess the listed type counts, unless it says nothing.
pub proof fn lemma_listed_type_is_a_fallback(
    guesses: Seq<Option<(Seq<char>, Seq<char>, Seq<char>)>>,
    listed: Option<(Seq<char>, Seq<char>, Seq<char>)>,
)
    requires
        forall|j: int| 0 <= j < guesses.len() ==> (#[trigger] guesses[j]) is None,
    ensures
        listed matches Some(m) ==> m.0 != "application/octet-stream"@ ==> chosen(guesses, listed)
            == Some(m),
        listed is None || listed->Some_0.0 == "application/octet-stream"@ ==> chosen(
            guesses,
            listed,
        ) is None,
{
    lemma_first_some(guesses, guesses.len() as int);
}

/// A format is of the media type of the first of its extensions that has one;
/// where none has, of the first of its own media types.
pub proof fn lemma_type_of_a_format(
    by_default: bool,
    exts: Seq<Seq<char>>,
    types: Seq<Seq<char>>,
    i: int,
)
    ensures
        0 <= i < exts.len() && extension_mime(exts[i]) is Some && (forall|j: int|
            0 <= j < i ==> extension_mime(#[trigger] exts[j]) is None) ==> resolved(
            (by_default, exts, types),
        ) == extension_mime(exts[i]),
        (forall|j: int| 0 <= j < exts.len() ==> extension_mime(#[trigger] exts[j]) is None) && (
        types.len() == 0 || mime_parts(types[0]) is None) ==> resolved((by_default, exts, types))
            is None,
        (forall|j: int| 0 <= j < exts.len() ==> extension_mime(#[trigger] exts[j]) is None)
            && types.len() > 0 && mime_parts(types[0]) is Some && mime_parts(types[0])->Some_0.0
            != "application/octet-stream"@ ==> resolved((by_default, exts, types)) == mime_parts(
            types[0],
        ),
{
    let guesses = extension_guesses(exts);
    let listed = if types.len() > 0 {
        mime_parts(types[0])
    } else {
        None
    };
    if 0 <= i < exts.len() && extension_mime(exts[i]) is Some && (forall|j: int|
        0 <= j < i ==> extension_mime(#[trigger] exts[j]) is None) {
        assert forall|j: int| 0 <= j < i implies (#[trigger] guesses[j]) is None by {
            assert(extension_mime(exts[j]) is None);
        }
        lemma_first_guess_counts(guesses, listed, i);
    }
    if forall|j: int| 0 <= j < exts.len() ==> extension_mime(#[trigger] exts[j]) is None {
        assert forall|j: int| 0 <= j < guesses.len() implies (#[trigger] guesses[j]) is None by {
            assert(extension_mime(exts[j]) is None);
        }
        lemma_listed_type_is_a_fallback(guesses, listed);
    }
}

/// What the bytes of a file say goes before its extension: where the table
/// knows the bytes, and where they have a well known signature, the extension
/// changes nothing.
pub proof fn lemma_content_goes_before_extension(
    bytes: Seq<u8>,
    a: Option<Seq<char>>,
    b: Option<Seq<char>>,
)
    ensures
        !bytes_kind(bytes).0 ==> detected(bytes, a) == resolved(bytes_kind(bytes)),
        !bytes_kind(bytes).0 ==> detected(bytes, a) == detected(bytes, b),
        bytes_kind(bytes).0 ==> (sniffed_name(bytes) matches Some(name) ==> mime_parts(name) is Some
            ==> detected(bytes, a) == mime_parts(name)),
{
}

/// Where the bytes say nothing, the extension decides, and without one that is
/// listed the table's default stands.
pub proof fn lemma_extension_decides_for_unknown_bytes(bytes: Seq<u8>, ext: Seq<char>)
    requires
        bytes_kind(bytes).0,
        sniffed_name(bytes) is None,
    ensures
        extension_kind(ext) matches Some(kind) ==> detected(bytes, Some(ext)) == resolved(kind),
        extension_kind(ext) is None ==> detected(bytes, Some(ext)) == resolved(bytes_kind(bytes)),
        detected(bytes, None) == resolved(bytes_kind(bytes)),
{
}

/// Which finding on a file counts, for findings of any kind.
pub proof fn lemma_finding_that_counts<T>(
    content: Option<T>,
    sniffed: T,
    listed: Option<T>,
    other: Option<T>,
)
    ensures
        settled(false, content, other, Some(listed)) == content,
        settled(false, content, other, None) == content,
        settled(true, content, Some(sniffed), Some(listed)) == Some(sniffed),
        settled(true, content, Some(sniffed), None) == Some(sniffed),
        settled(true, content, None, Some(listed)) == listed,
        settled(true, content, None, None) == content,
{
}

/// The guess for a path is that for its extension alone: paths with the same
/// extension have the same, and one without has none.
pub proof fn lemma_guess_goes_by_extension(a: Seq<char>, b: Seq<char>)
    ensures
        names::extension(a) == names::extension(b) ==> path_mime(a) == path_mime(b),
        names::extension(a) is None ==> path_mime(a) is None,
        names::extension(a) matches Some(e) ==> path_mime(a) == extension_mime(e),
{
}

/// A media type is told by its text, its type and its subtype; what the table
/// says of a file, by its three parts. At most 1024 bytes are looked at.
pub proof fn lemma_parts_of_a_type(m: MimeType, k: FileKind)
    ensures
        m@ == (m.text@, m.kind@, m.subtype@),
        opt_view(Some(m)) == Some(m@),
        opt_view(None) is None,
        k@.0 == k.is_default,
        k@.1 == k.extensions.deep_view(),
        k@.2 == k.media_types.deep_view(),
        SNIFF_LIMIT == 1024,
{
}

} // verus!
