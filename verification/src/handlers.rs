//! Answers of the public routes: the front page, the upload answer and the
//! way a stored file is served.

use vstd::prelude::*;
use vstd::string::*;

use crate::http::{Page, PageKind, Status};
use crate::ids;
use crate::ids::uuid_to_path;
use crate::intake;
use crate::intake::{Intake, UploadRow};
use crate::media;
use crate::media::{parse_mime, MimeType};
use crate::model::Upload;
use crate::text;
use crate::text::{chars_of, same_text};

verus! {

// ---------------------------------------------------------------- front page

/// The client configurations that the front page hands out.
#[derive(Debug, Clone, Copy, PartialEq, Eq, Structural)]
pub enum Config {
    Hupl,
    ShareX,
}

/// What the front page answers with.
#[derive(Debug)]
pub struct IndexAnswer {
    /// The configuration to send; without one the HTML page.
    pub config: Option<Config>,
    pub kind: PageKind,
    /// The file name to save it under.
    pub attachment: Option<String>,
}

/// The file name of a client configuration.
pub open spec fn config_file(name: Seq<char>, config: Config) -> Seq<char> {
    match config {
        Config::Hupl => name + ".hupl"@,
        Config::ShareX => name + ".sxcu"@,
    }
}

/// What the front page answers with: a configuration as a JSON attachment, or
/// the HTML page.
pub fn index(config: Option<Config>, service_name: &str) -> (r: IndexAnswer)
    ensures
        r.config == config,
        r.kind == (if config is Some {
            PageKind::Json
        } else {
            PageKind::Html
        }),
        text::opt_view(r.attachment) == (match config {
            Some(c) => Some(config_file(service_name@, c)),
            None => None,
        }),
{
    match config {
        Some(Config::Hupl) => {
            let mut name = service_name.to_owned();
            name.append(".hupl");
            IndexAnswer { config, kind: PageKind::Json, attachment: Some(name) }
        },
        Some(Config::ShareX) => {
            let mut name = service_name.to_owned();
            name.append(".sxcu");
            IndexAnswer { config, kind: PageKind::Json, attachment: Some(name) }
        },
        None => IndexAnswer { config, kind: PageKind::Html, attachment: None },
    }
}

// ---------------------------------------------------------------- upload

/// The length of the random part of a slug: what was asked for, held between
/// the two bounds, or else the lower bound.
pub open spec fn id_length(asked: Option<usize>, min: usize, max: usize) -> usize {
    match asked {
        Some(n) => if n < min {
            min
        } else if n > max {
            max
        } else {
            n
        },
        None => min,
    }
}

/// The length of the random part of a slug.
pub fn choose_id_length(asked: Option<usize>, min: usize, max: usize) -> (r: usize)
    requires
        asked is Some ==> min <= max,
    ensures
        r == id_length(asked, min, max),
        asked is Some ==> min <= r <= max,
{
    match asked {
        Some(n) => if n < min {
            min
        } else if n > max {
            max
        } else {
            n
        },
        None => min,
    }
}

/// How a character is written in HTML.
pub open spec fn html_char(c: char) -> Seq<char> {
    if c == '&' {
        "&amp;"@
    } else if c == '<' {
        "&lt;"@
    } else if c == '>' {
        "&gt;"@
    } else if c == '"' {
        "&quot;"@
    } else if c == '\'' {
        "&#039;"@
    } else {
        seq![c]
    }
}

/// How a text is written in HTML.
pub open spec fn html_text(s: Seq<char>) -> Seq<char>
    decreases s.len(),
{
    if s.len() == 0 {
        Seq::empty()
    } else {
        html_text(s.drop_last()) + html_char(s.last())
    }
}

/// Writes a text so that HTML shows it as it is.
pub fn escape_html(s: &str) -> (r: String)
    ensures
        r@ == html_text(s@),
{
    let chars = chars_of(s);
    let n: usize = chars.len();
    let mut out = String::new();
    for i in 0..n
        invariant
            n == chars@.len(),
            chars@ == s@,
            out@ == html_text(chars@.take(i as int)),
    {
        let c: char = chars[i];
        let ghost before = out@;
        if c == '&' {
            out.append("&amp;");
        } else if c == '<' {
            out.append("&lt;");
        } else if c == '>' {
            out.append("&gt;");
        } else if c == '"' {
            out.append("&quot;");
        } else if c == '\'' {
            out.append("&#039;");
        } else {
            out.push(c);
        }
        proof {
            assert(out@ =~= before + html_char(c));
            assert(chars@.take(i + 1).drop_last() =~= chars@.take(i as int));
            assert(chars@.take(i + 1).last() == c);
        }
    }
    assert(chars@.take(n as int) =~= chars@);
    out
}

proof fn lemma_html_char(c: char)
    ensures
        !html_char(c).contains('<'),
        !html_char(c).contains('>'),
        !html_char(c).contains('"'),
        !html_char(c).contains('\''),
{
    reveal_strlit("&amp;");
    reveal_strlit("&lt;");
    reveal_strlit("&gt;");
    reveal_strlit("&quot;");
    reveal_strlit("&#039;");
    let t = html_char(c);
    assert forall|i: int| 0 <= i < t.len() implies t[i] != '<' && t[i] != '>' && t[i] != '"' && t[i]
        != '\'' by {}
}

/// Escaped text holds nothing that could end a text or an attribute.
pub proof fn lemma_html_text_is_inert(s: Seq<char>)
    ensures
        !html_text(s).contains('<'),
        !html_text(s).contains('>'),
        !html_text(s).contains('"'),
        !html_text(s).contains('\''),
    decreases s.len(),
{
    if s.len() > 0 {
        lemma_html_text_is_inert(s.drop_last());
        lemma_html_char(s.last());
        let a = html_text(s.drop_last());
        let b = html_char(s.last());
        assert forall|i: int| 0 <= i < (a + b).len() implies (a + b)[i] != '<' && (a + b)[i] != '>'
            && (a + b)[i] != '"' && (a + b)[i] != '\'' by {
            if i < a.len() {
                assert(a.contains(a[i]));
            } else {
                assert(b.contains(b[i - a.len()]));
            }
        }
    }
}

/// The line of the upload answer for one link.
pub open spec fn link_line(url: Seq<char>, formatted: bool) -> Seq<char> {
    if formatted {
        "<pre>Access your file here: <a href=\""@ + url + "\">"@ + html_text(url)
            + "</a></pre>\n"@
    } else {
        url + "\n"@
    }
}

/// The upload answer for a list of links.
pub open spec fn link_lines(urls: Seq<Seq<char>>, formatted: bool) -> Seq<char>
    decreases urls.len(),
{
    if urls.len() == 0 {
        Seq::empty()
    } else {
        link_lines(urls.drop_last(), formatted) + link_line(urls.last(), formatted)
    }
}

/// The answer to an upload: one line for each file, in order, as plain text
/// or as HTML.
pub fn upload_answer(links: &Vec<String>, formatted: bool) -> (r: Page)
    ensures
        r.status == Status::Success,
        r.kind == (if formatted {
            PageKind::Html
        } else {
            PageKind::Plain
        }),
        r.body@ == link_lines(links.deep_view(), formatted),
{
    let n: usize = links.len();
    let ghost urls = links.deep_view();
    let mut body = String::new();
    for i in 0..n
        invariant
            n == links@.len(),
            urls == links.deep_view(),
            urls.len() == n,
            body@ == link_lines(urls.take(i as int), formatted),
    {
        let ghost before = body@;
        assert(urls[i as int] == links@[i as int]@);
        let url = links[i].as_str();
        if formatted {
            let mut line = "<pre>Access your file here: <a href=\"".to_owned();
            line.append(url);
            line.append("\">");
            let shown = escape_html(url);
            line.append(shown.as_str());
            line.append("</a></pre>\n");
            body.append(line.as_str());
        } else {
            body.append(url);
            body.append("\n");
        }
        proof {
            assert(body@ =~= before + link_line(urls[i as int], formatted));
            assert(urls.take(i + 1).drop_last() =~= urls.take(i as int));
            assert(urls.take(i + 1).last() == urls[i as int]);
        }
    }
    assert(urls.take(n as int) =~= urls);
    let kind = if formatted {
        PageKind::Html
    } else {
        PageKind::Plain
    };
    Page { status: Status::Success, kind, body }
}

// ---------------------------------------------------------------- serving

/// Whether a browser shows a file or saves it.
#[derive(Debug, Clone, Copy, PartialEq, Eq, Structural)]
pub enum Disposition {
    Inline,
    Attachment,
}

/// How a stored file is served.
#[derive(Debug)]
pub struct Serving {
    pub mime: MimeType,
    pub disposition: Disposition,
}

/// What came of looking up a slug.
#[derive(Debug, Clone, Copy, PartialEq, Eq, Structural)]
pub enum Lookup {
    Found,
    Missing,
    Failed,
}

/// The status that ends a request for a slug: 404 where nothing is stored
/// under it, 500 where the lookup failed.
pub fn lookup_status(lookup: Lookup) -> (r: Option<Status>)
    ensures
        r == (match lookup {
            Lookup::Found => None,
            Lookup::Missing => Some(Status::NotFound),
            Lookup::Failed => Some(Status::InternalServerError),
        }),
{
    match lookup {
        Lookup::Found => None,
        Lookup::Missing => Some(Status::NotFound),
        Lookup::Failed => Some(Status::InternalServerError),
    }
}

/// The media type that is shown in the browser: images, video, audio, plain
/// text, JSON and PDF.
pub open spec fn shown(mime: (Seq<char>, Seq<char>, Seq<char>)) -> bool {
    ||| mime.1 == "image"@ || mime.1 == "video"@ || mime.1 == "audio"@
    ||| mime.1 == "text"@ && mime.2 == "plain"@
    ||| mime.1 == "application"@ && (mime.2 == "json"@ || mime.2 == "pdf"@)
}

/// The media type that a file is served as: a text that is not plain becomes
/// plain, so that no browser runs it.
pub open spec fn served_as(mime: (Seq<char>, Seq<char>, Seq<char>)) -> (
    Seq<char>,
    Seq<char>,
    Seq<char>,
) {
    if mime.1 == "text"@ && mime.2 != "plain"@ {
        ("text/plain"@, "text"@, "plain"@)
    } else {
        mime
    }
}

/// How a file of a media type is served.
pub fn serving_of(mime: MimeType) -> (r: Serving)
    ensures
        r.mime@ == served_as(mime@),
        r.disposition == (if shown(mime@) {
            Disposition::Inline
        } else {
            Disposition::Attachment
        }),
        mime.kind@ == "image"@ || mime.kind@ == "video"@ || mime.kind@ == "audio"@ ==> r.disposition
            == Disposition::Inline && r.mime == mime,
        mime.kind@ == "text"@ ==> r.mime.kind@ == "text"@ && r.mime.subtype@ == "plain"@ && (
        r.disposition == Disposition::Inline <==> mime.subtype@ == "plain"@),
        mime.kind@ == "application"@ ==> r.mime == mime && (r.disposition == Disposition::Inline
            <==> mime.subtype@ == "json"@ || mime.subtype@ == "pdf"@),
{
    proof {
        lemma_what_is_shown(mime@);
        lemma_kinds_differ();
    }
    let kind = mime.kind.as_str();
    let subtype = mime.subtype.as_str();
    let is_text = same_text(kind, "text");
    let is_plain = same_text(subtype, "plain");
    let inline = same_text(kind, "image") || same_text(kind, "video") || same_text(kind, "audio")
        || (is_text && is_plain) || (same_text(kind, "application") && (same_text(subtype, "json")
        || same_text(subtype, "pdf")));
    let disposition = if inline {
        Disposition::Inline
    } else {
        Disposition::Attachment
    };
    if is_text && !is_plain {
        let plain = MimeType {
            text: "text/plain".to_owned(),
            kind: "text".to_owned(),
            subtype: "plain".to_owned(),
        };
        Serving { mime: plain, disposition }
    } else {
        Serving { mime, disposition }
    }
}

/// The media type that a recorded type stands for: the one that says nothing
/// where none is recorded or the text is no media type.
pub open spec fn stored_mime(content_type: Option<Seq<char>>) -> (
    Seq<char>,
    Seq<char>,
    Seq<char>,
) {
    let unknown = (media::octet_stream(), "application"@, "octet-stream"@);
    match content_type {
        Some(t) => match media::mime_parts(t) {
            Some(m) => m,
            None => unknown,
        },
        None => unknown,
    }
}

/// How a stored file is served by its recorded media type.
pub fn serve_policy(content_type: Option<&str>) -> (r: Serving)
    ensures
        r.mime@ == served_as(stored_mime(text::opt_str_view(content_type))),
        r.disposition == (if shown(stored_mime(text::opt_str_view(content_type))) {
            Disposition::Inline
        } else {
            Disposition::Attachment
        }),
{
    let parsed = match content_type {
        Some(t) => parse_mime(t),
        None => None,
    };
    let mime = match parsed {
        Some(m) => m,
        None => MimeType {
            text: "application/octet-stream".to_owned(),
            kind: "application".to_owned(),
            subtype: "octet-stream".to_owned(),
        },
    };
    serving_of(mime)
}

/// What a stored upload is answered with.
#[derive(Debug)]
pub struct Download {
    /// Where the file is.
    pub path: String,
    /// The file name that the client is told.
    pub file_name: String,
    pub serving: Serving,
}

/// What an answer with a stored upload holds.
pub struct DownloadView {
    pub path: Seq<char>,
    pub file_name: Seq<char>,
    pub mime: (Seq<char>, Seq<char>, Seq<char>),
    pub disposition: Disposition,
}

impl View for Download {
    type V = DownloadView;

    open spec fn view(&self) -> DownloadView {
        DownloadView {
            path: self.path@,
            file_name: self.file_name@,
            mime: self.serving.mime@,
            disposition: self.serving.disposition,
        }
    }
}

/// The answer with a stored upload: the file from the place of its id, under
/// its original name, by its recorded media type.
pub open spec fn answered(store_path: Seq<char>, upload: Upload) -> DownloadView {
    let mime = stored_mime(text::opt_view(upload.content_type));
    DownloadView {
        path: ids::store_path(store_path, upload.id),
        file_name: upload.original_name@,
        mime: served_as(mime),
        disposition: if shown(mime) {
            Disposition::Inline
        } else {
            Disposition::Attachment
        },
    }
}

/// What a stored upload is answered with.
pub fn download(store_path: &str, upload: &Upload) -> (r: Download)
    ensures
        r@ == answered(store_path@, *upload),
{
    let content_type: Option<&str> = match &upload.content_type {
        Some(t) => Some(t.as_str()),
        None => None,
    };
    Download {
        path: uuid_to_path(store_path, upload.id),
        file_name: upload.original_name.clone(),
        serving: serve_policy(content_type),
    }
}

/// The record of an upload holds the values of a row.
pub open spec fn holds_row(upload: Upload, row: UploadRow) -> bool {
    &&& upload.id == row.id
    &&& upload.original_name@ == row.original_name@
    &&& upload.slug@ == row.slug@
    &&& text::opt_view(upload.content_type) == Some(row.content_type@)
}

/// What was taken in is what is handed out: an upload is answered with the
/// file that its intake stored, under the name under which it was sent, by
/// the media type that was recorded for it.
pub proof fn lemma_stored_file_is_served(intake: Intake, row: UploadRow, upload: Upload)
    requires
        intake::is_row_of(row, intake),
        holds_row(upload, row),
    ensures
        answered(intake.root(), upload).path == ids::store_path(
            intake.root(),
            intake.upload_id(),
        ),
        answered(intake.root(), upload).file_name == intake.facts().name,
        answered(intake.root(), upload).mime == served_as(
            stored_mime(Some(intake::recorded_of(intake.received()))),
        ),
{
}

/// Text that a browser might run is served as plain text and saved, never
/// shown: no file is served as a text other than plain, and one that was
/// recorded as such is an attachment.
pub proof fn lemma_text_is_inert(mime: (Seq<char>, Seq<char>, Seq<char>))
    ensures
        served_as(mime).1 == "text"@ ==> served_as(mime).2 == "plain"@,
        mime.1 == "text"@ && mime.2 != "plain"@ ==> served_as(mime).0 == "text/plain"@ && !shown(
            mime,
        ),
{
    reveal_strlit("text");
    reveal_strlit("image");
    reveal_strlit("video");
    reveal_strlit("audio");
    reveal_strlit("application");
    assert("text"@[0] == 't');
    assert("image"@[0] == 'i');
    assert("video"@[0] == 'v');
    assert("audio"@[0] == 'a');
    assert("application"@[0] == 'a');
}

/// The lower case of an ASCII letter; other bytes stay.
pub open spec fn lower_byte(b: u8) -> int {
    if 0x41 <= b <= 0x5a {
        b + 32
    } else {
        b as int
    }
}

/// The bytes of `identity`.
pub open spec fn identity_bytes() -> Seq<u8> {
    seq![0x69u8, 0x64, 0x65, 0x6e, 0x74, 0x69, 0x74, 0x79]
}

/// The header value names the identity encoding, in letters of any case.
pub open spec fn names_identity(value: Seq<u8>) -> bool {
    &&& value.len() == identity_bytes().len()
    &&& forall|i: int|
        0 <= i < value.len() ==> lower_byte(#[trigger] value[i]) == identity_bytes()[i]
}

/// Whether a content encoding header names the identity encoding, which is
/// better left out of an answer.
pub fn is_identity_encoding(value: &[u8]) -> (r: bool)
    ensures
        r == names_identity(value@),
{
    let name: [u8; 8] = [0x69u8, 0x64, 0x65, 0x6e, 0x74, 0x69, 0x74, 0x79];
    assert(name@ =~= identity_bytes());
    let n: usize = value.len();
    if n != 8 {
        return false;
    }
    for i in 0..n
        invariant
            n == value@.len(),
            n == 8,
            name@ == identity_bytes(),
            forall|j: int| 0 <= j < i ==> lower_byte(#[trigger] value@[j]) == identity_bytes()[j],
    {
        let b: u8 = value[i];
        let low: u8 = if 0x41 <= b && b <= 0x5a {
            b + 32
        } else {
            b
        };
        if low != name[i] {
            assert(lower_byte(value@[i as int]) != identity_bytes()[i as int]);
            return false;
        }
    }
    true
}

// ---------------------------------------------------------------- laws

proof fn lemma_kinds_differ()
    ensures
        "text"@ != "image"@ && "text"@ != "video"@ && "text"@ != "audio"@,
        "application"@ != "image"@ && "application"@ != "video"@ && "application"@ != "audio"@,
        "application"@ != "text"@,
{
    reveal_strlit("text");
    reveal_strlit("image");
    reveal_strlit("video");
    reveal_strlit("audio");
    reveal_strlit("application");
    assert("text"@.len() == 4 && "application"@.len() == 11);
    assert("image"@.len() == 5 && "video"@.len() == 5 && "audio"@.len() == 5);
}

/// What a browser shows: every image, video and audio file, whatever its
/// subtype; of the texts only the plain ones; of the applications only JSON
/// and PDF; and nothing else.
pub proof fn lemma_what_is_shown(mime: (Seq<char>, Seq<char>, Seq<char>))
    ensures
        mime.1 == "image"@ || mime.1 == "video"@ || mime.1 == "audio"@ ==> shown(mime),
        mime.1 == "text"@ ==> (shown(mime) <==> mime.2 == "plain"@),
        mime.1 == "application"@ ==> (shown(mime) <==> mime.2 == "json"@ || mime.2 == "pdf"@),
        mime.1 != "image"@ && mime.1 != "video"@ && mime.1 != "audio"@ && mime.1 != "text"@
            && mime.1 != "application"@ ==> !shown(mime),
{
    lemma_kinds_differ();
}

/// The subtype of an image, a video or an audio file does not decide how it is
/// served, and the whole text of a media type decides nothing beside its type
/// and subtype.
pub proof fn lemma_subtype_does_not_decide(
    a: (Seq<char>, Seq<char>, Seq<char>),
    b: (Seq<char>, Seq<char>, Seq<char>),
)
    requires
        a.1 == b.1,
    ensures
        a.1 != "text"@ && a.1 != "application"@ ==> shown(a) == shown(b),
        a.2 == b.2 ==> shown(a) == shown(b),
{
    lemma_what_is_shown(a);
    lemma_what_is_shown(b);
}

/// A file is served as what it is, save that a text other than plain becomes
/// plain text.
pub proof fn lemma_what_is_served(mime: (Seq<char>, Seq<char>, Seq<char>))
    ensures
        mime.1 != "text"@ || mime.2 == "plain"@ ==> served_as(mime) == mime,
        mime.1 == "text"@ && mime.2 != "plain"@ ==> served_as(mime) == (
            "text/plain"@,
            "text"@,
            "plain"@,
        ),
        served_as(served_as(mime)) == served_as(mime),
{
}

/// A recorded media type that can be read is gone by; without one, and with a
/// text that is no media type, the file is saved as bytes of no known type.
pub proof fn lemma_unknown_type_is_saved(content_type: Option<Seq<char>>)
    ensures
        content_type is Some && media::mime_parts(content_type->Some_0) is Some ==> Some(
            stored_mime(content_type),
        ) == media::mime_parts(content_type->Some_0),
        content_type is None || media::mime_parts(content_type->Some_0) is None ==> {
            &&& stored_mime(content_type).0 == "application/octet-stream"@
            &&& served_as(stored_mime(content_type)) == stored_mime(content_type)
            &&& !shown(stored_mime(content_type))
        },
{
    reveal_strlit("application");
    reveal_strlit("octet-stream");
    reveal_strlit("text");
    reveal_strlit("json");
    reveal_strlit("pdf");
    assert("octet-stream"@.len() == 12 && "json"@.len() == 4 && "pdf"@.len() == 3);
    assert("application"@.len() == 11 && "text"@.len() == 4);
    lemma_what_is_shown(stored_mime(content_type));
}

/// A stored upload is answered with its own file, under the name under which
/// it was sent; a recorded image, video or audio type is shown and served as
/// it is, whatever else is recorded of the upload.
pub proof fn lemma_download_of_media(store_path: Seq<char>, upload: Upload)
    ensures
        answered(store_path, upload).path == ids::store_path(store_path, upload.id),
        answered(store_path, upload).file_name == upload.original_name@,
        upload.content_type matches Some(t) ==> (media::mime_parts(t@) matches Some(m) ==> {
            let a = answered(store_path, upload);
            &&& m.1 == "image"@ || m.1 == "video"@ || m.1 == "audio"@ ==> a.mime == m
                && a.disposition == Disposition::Inline
            &&& m.1 == "text"@ ==> a.mime.1 == "text"@ && a.mime.2 == "plain"@ && (a.disposition
                == Disposition::Inline <==> m.2 == "plain"@)
            &&& m.1 == "application"@ ==> a.mime == m && (a.disposition == Disposition::Inline
                <==> m.2 == "json"@ || m.2 == "pdf"@)
        }),
        upload.content_type is None ==> answered(store_path, upload).disposition
            == Disposition::Attachment,
{
    lemma_unknown_type_is_saved(text::opt_view(upload.content_type));
    if let Some(t) = upload.content_type {
        if let Some(m) = media::mime_parts(t@) {
            lemma_what_is_shown(m);
            lemma_what_is_served(m);
            lemma_kinds_differ();
        }
    }
}

/// The length that was asked for is given where it lies between the bounds,
/// else the nearer bound; a longer wish never gives a shorter id, and without
/// a wish the shortest is given.
pub proof fn lemma_id_length_is_held(a: usize, b: usize, min: usize, max: usize)
    requires
        min <= max,
        a <= b,
    ensures
        min <= id_length(Some(a), min, max) <= max,
        min <= a <= max ==> id_length(Some(a), min, max) == a,
        a < min ==> id_length(Some(a), min, max) == min,
        a > max ==> id_length(Some(a), min, max) == max,
        id_length(Some(a), min, max) <= id_length(Some(b), min, max),
        id_length(None, min, max) == min,
{
}

/// A client configuration is saved under the name of the service, with the
/// extension of its client.
pub proof fn lemma_config_names(name: Seq<char>)
    ensures
        config_file(name, Config::Hupl) == name + ".hupl"@,
        config_file(name, Config::ShareX) == name + ".sxcu"@,
{
}

/// The text begins with these characters.
spec fn begins(s: Seq<char>, front: Seq<char>) -> bool {
    s.len() >= front.len() && s.take(front.len() as int) == front
}

/// What a browser shows of HTML text.
pub closed spec fn html_shown(s: Seq<char>) -> Seq<char>
    decreases s.len(),
{
    if s.len() == 0 {
        Seq::empty()
    } else if begins(s, seq!['&', 'a', 'm', 'p', ';']) {
        seq!['&'] + html_shown(s.skip(5))
    } else if begins(s, seq!['&', 'l', 't', ';']) {
        seq!['<'] + html_shown(s.skip(4))
    } else if begins(s, seq!['&', 'g', 't', ';']) {
        seq!['>'] + html_shown(s.skip(4))
    } else if begins(s, seq!['&', 'q', 'u', 'o', 't', ';']) {
        seq!['"'] + html_shown(s.skip(6))
    } else if begins(s, seq!['&', '#', '0', '3', '9', ';']) {
        seq!['\''] + html_shown(s.skip(6))
    } else {
        seq![s[0]] + html_shown(s.skip(1))
    }
}

proof fn lemma_char_shown(c: char, rest: Seq<char>)
    ensures
        html_shown(html_char(c) + rest) == seq![c] + html_shown(rest),
{
    reveal_strlit("&amp;");
    reveal_strlit("&lt;");
    reveal_strlit("&gt;");
    reveal_strlit("&quot;");
    reveal_strlit("&#039;");
    let h = html_char(c);
    let s = h + rest;
    let amp = seq!['&', 'a', 'm', 'p', ';'];
    let lt = seq!['&', 'l', 't', ';'];
    let gt = seq!['&', 'g', 't', ';'];
    let quot = seq!['&', 'q', 'u', 'o', 't', ';'];
    assert(begins(s, amp) ==> s[0] == '&' && s[1] == 'a') by {
        if begins(s, amp) {
            assert(s.take(5)[0] == '&' && s.take(5)[1] == 'a');
        }
    }
    assert(begins(s, lt) ==> s[0] == '&' && s[1] == 'l') by {
        if begins(s, lt) {
            assert(s.take(4)[0] == '&' && s.take(4)[1] == 'l');
        }
    }
    assert(begins(s, gt) ==> s[0] == '&' && s[1] == 'g') by {
        if begins(s, gt) {
            assert(s.take(4)[0] == '&' && s.take(4)[1] == 'g');
        }
    }
    assert(begins(s, quot) ==> s[0] == '&' && s[1] == 'q') by {
        if begins(s, quot) {
            assert(s.take(6)[0] == '&' && s.take(6)[1] == 'q');
        }
    }
    let apos = seq!['&', '#', '0', '3', '9', ';'];
    assert(begins(s, apos) ==> s[0] == '&' && s[1] == '#') by {
        if begins(s, apos) {
            assert(s.take(6)[0] == '&' && s.take(6)[1] == '#');
        }
    }
    assert(s.skip(h.len() as int) =~= rest);
    if c == '&' {
        assert(s.take(5) =~= amp);
    } else if c == '<' {
        assert(s.take(4) =~= lt);
        assert(s[1] == 'l');
    } else if c == '>' {
        assert(s.take(4) =~= gt);
        assert(s[1] == 'g');
    } else if c == '"' {
        assert(s.take(6) =~= quot);
        assert(s[1] == 'q');
    } else if c == '\'' {
        assert(s.take(6) =~= apos);
        assert(s[1] == '#');
    } else {
        assert(s[0] == c);
    }
}

proof fn lemma_text_shown(s: Seq<char>, rest: Seq<char>)
    ensures
        html_shown(html_text(s) + rest) == s + html_shown(rest),
    decreases s.len(),
{
    if s.len() == 0 {
        assert(html_text(s) + rest =~= rest);
        assert(s + html_shown(rest) =~= html_shown(rest));
    } else {
        let front = s.drop_last();
        lemma_text_shown(front, html_char(s.last()) + rest);
        lemma_char_shown(s.last(), rest);
        assert(html_text(s) + rest =~= html_text(front) + (html_char(s.last()) + rest));
        assert(s + html_shown(rest) =~= front + (seq![s.last()] + html_shown(rest)));
    }
}

/// HTML shows an escaped text as it is.
pub proof fn lemma_escaped_text_is_shown(s: Seq<char>)
    ensures
        html_shown(html_text(s)) == s,
{
    lemma_text_shown(s, Seq::empty());
    assert(html_text(s) + Seq::<char>::empty() =~= html_text(s));
    assert(s + Seq::<char>::empty() =~= s);
}

/// A text without markup characters is not changed.
pub proof fn lemma_harmless_text_stays(s: Seq<char>)
    requires
        forall|i: int|
            0 <= i < s.len() ==> #[trigger] s[i] != '&' && s[i] != '<' && s[i] != '>' && s[i] != '"'
                && s[i] != '\'',
    ensures
        html_text(s) == s,
    decreases s.len(),
{
    if s.len() > 0 {
        let front = s.drop_last();
        assert forall|i: int| 0 <= i < front.len() implies #[trigger] front[i] != '&' && front[i]
            != '<' && front[i] != '>' && front[i] != '"' && front[i] != '\'' by {
            assert(front[i] == s[i]);
        }
        lemma_harmless_text_stays(front);
        assert(s[s.len() - 1] != '&');
        assert(html_text(s) =~= s);
    }
}

/// The answer to two uploads is that to the first and then that to the second;
/// the answer to one is its link on a line, in HTML as a link to it.
pub proof fn lemma_one_line_for_each_link(
    first: Seq<Seq<char>>,
    second: Seq<Seq<char>>,
    url: Seq<char>,
    formatted: bool,
)
    ensures
        link_lines(first + second, formatted) == link_lines(first, formatted) + link_lines(
            second,
            formatted,
        ),
        link_lines(seq![url], false) == url.push('\n'),
        link_lines(seq![url], true) == "<pre>Access your file here: <a href=\""@ + url + "\">"@
            + html_text(url) + "</a></pre>\n"@,
    decreases second.len(),
{
    let one = seq![url];
    assert(one.drop_last() =~= Seq::<Seq<char>>::empty());
    assert(link_lines(one.drop_last(), true) =~= Seq::<char>::empty());
    assert(link_lines(one.drop_last(), false) =~= Seq::<char>::empty());
    reveal_strlit("\n");
    assert(link_lines(one, false) =~= url.push('\n'));
    assert(link_lines(one, true) =~= link_line(url, true));
    if second.len() == 0 {
        assert(first + second =~= first);
        assert(link_lines(first, formatted) + link_lines(second, formatted) =~= link_lines(
            first,
            formatted,
        ));
    } else {
        lemma_one_line_for_each_link(first, second.drop_last(), url, formatted);
        assert((first + second).drop_last() =~= first + second.drop_last());
        assert((first + second).last() == second.last());
        assert(link_lines(first + second, formatted) =~= link_lines(first, formatted)
            + link_lines(second, formatted));
    }
}

/// A header names the identity encoding exactly where it is made of its eight
/// letters, each in either case.
pub proof fn lemma_identity_in_any_case(value: Seq<u8>)
    ensures
        names_identity(value) <==> {
            let low = seq![105u8, 100, 101, 110, 116, 105, 116, 121];
            &&& value.len() == 8
            &&& forall|i: int|
                0 <= i < 8 ==> #[trigger] value[i] == low[i] || value[i] == low[i] - 32
        },
{
    let low = seq![105u8, 100, 101, 110, 116, 105, 116, 121];
    assert(identity_bytes() =~= low);
    if value.len() == 8 {
        assert forall|i: int| 0 <= i < 8 implies (lower_byte(#[trigger] value[i]) == low[i]) == (
        value[i] == low[i] || value[i] == low[i] - 32) by {}
        if names_identity(value) {
            assert forall|i: int| 0 <= i < 8 implies #[trigger] value[i] == low[i] || value[i]
                == low[i] - 32 by {
                assert(lower_byte(value[i]) == identity_bytes()[i]);
            }
        }
        if forall|i: int| 0 <= i < 8 ==> #[trigger] value[i] == low[i] || value[i] == low[i] - 32 {
            assert forall|i: int| 0 <= i < value.len() implies lower_byte(#[trigger] value[i])
                == identity_bytes()[i] by {}
        }
    }
}

} // verus!
