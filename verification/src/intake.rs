//! Taking in one received file: screening, the search for a stored twin, the
//! search for a free slug, storing and recording.
//!
//! The caller carries out each step and reports the outcome; `Intake` says
//! what follows.

use vstd::prelude::*;
use vstd::string::*;
use vstd::utf8::*;

use crate::http;
use crate::http::{internal_page, Page, PageKind, Status};
use crate::ids;
use crate::ids::{draw_id, id_folder, uuid_to_path};
use crate::ip::IpAddr;
use crate::link;
use crate::link::link_to;
use crate::media;
use crate::media::{guess_by_path, is_octet_stream, MimeType};
use crate::names;
use crate::names::extension_of;
use crate::screening;
use crate::screening::{add_check, Answer, Check, Topic};
use crate::settings::Settings;
use crate::text;
use crate::text::{copied, same_text};
use crate::timestamp::Timestamp;
use crate::upload;
use crate::upload::{build_slug_with, calculate_expiry, compute_expiry, random_string};
use crate::util;
use crate::util::as_signed;

verus! {

/// How many slugs of one length are tried before a longer one.
pub const MAX_SLUG_ATTEMPTS: u32 = 3;

/// A received file, who sent it, and what was asked for.
#[derive(Debug)]
pub struct Received {
    pub file_name: Option<String>,
    /// The media type that the client gave.
    pub content_type: Option<MimeType>,
    /// The media type that the bytes tell.
    pub detected: Option<MimeType>,
    pub size: usize,
    pub hash: Vec<u8>,
    pub uploader_ip: Option<IpAddr>,
    pub user_agent: Option<String>,
    /// The length of the random part of the slug.
    pub id_len: usize,
    /// Whether the slug begins with the file's name.
    pub keep_name: bool,
}

/// The name under which a file was sent.
pub open spec fn original_name(file_name: Option<Seq<char>>) -> Seq<char> {
    match file_name {
        Some(n) => n,
        None => "unknown"@,
    }
}

/// The media type to go by, and its subtype: the client's where it says
/// something, else the one guessed from the name, else none.
pub open spec fn declared_type(
    given: Option<(Seq<char>, Seq<char>, Seq<char>)>,
    guess: Option<(Seq<char>, Seq<char>, Seq<char>)>,
) -> (Seq<char>, Option<Seq<char>>) {
    match media::telling(given) {
        Some(t) => (t.0, Some(t.2)),
        None => match guess {
            Some(g) => (g.0, Some(g.2)),
            None => (media::octet_stream(), None),
        },
    }
}

/// Picks the media type to go by from the client's and the guessed one.
pub fn choose_declared(given: Option<&MimeType>, guess: Option<MimeType>) -> (r: (
    String,
    Option<String>,
))
    ensures
        (r.0@, text::opt_view(r.1)) == declared_type(
            match given {
                Some(t) => Some(t@),
                None => None,
            },
            media::opt_view(guess),
        ),
{
    if let Some(t) = given {
        if !is_octet_stream(t) {
            return (t.text.clone(), Some(t.subtype.clone()));
        }
    }
    match guess {
        Some(g) => (g.text, Some(g.subtype)),
        None => ("application/octet-stream".to_owned(), None),
    }
}

/// The media type to go by for a file, and its subtype.
pub fn determine_content_type(given: Option<&MimeType>, original_name: &str) -> (r: (
    String,
    Option<String>,
))
    ensures
        (r.0@, text::opt_view(r.1)) == declared_type(
            match given {
                Some(t) => Some(t@),
                None => None,
            },
            media::path_mime(original_name@),
        ),
{
    choose_declared(given, guess_by_path(original_name))
}

/// The media type that is recorded: the detected one, unless that is a text
/// or says nothing, which only means that detection found nothing; then the
/// declared one, with plain text for a file whose declared type says nothing.
pub open spec fn recorded_type(
    detected: Option<(Seq<char>, Seq<char>, Seq<char>)>,
    declared: Seq<char>,
) -> Seq<char> {
    match detected {
        Some(d) => if d.1 != "text"@ && d.0 != media::octet_stream() {
            d.0
        } else if declared == media::octet_stream() {
            "text/plain"@
        } else {
            declared
        },
        None => declared,
    }
}

/// The media type that is recorded for a file.
pub fn content_type_for_db(detected: Option<&MimeType>, declared: &str) -> (r: String)
    ensures
        r@ == recorded_type(
            match detected {
                Some(t) => Some(t@),
                None => None,
            },
            declared@,
        ),
        detected matches Some(d) ==> d.kind@ != "text"@ && d.text@ != "application/octet-stream"@
            ==> r@ == d.text@,
        r@ == declared@ || (detected matches Some(d) && (r@ == d.text@ || r@ == "text/plain"@ && (
        d.kind@ == "text"@ || d.text@ == "application/octet-stream"@) && declared@
            == "application/octet-stream"@)),
{
    match detected {
        Some(d) => if !same_text(d.kind.as_str(), "text") && !is_octet_stream(d) {
            d.text.clone()
        } else if same_text(declared, "application/octet-stream") {
            "text/plain".to_owned()
        } else {
            declared.to_owned()
        },
        None => declared.to_owned(),
    }
}

/// The questions about a file, in order: its extension, the media type that
/// the client gave, the one that was detected, and its hash.
pub open spec fn file_topics(
    name: Seq<char>,
    given: Option<(Seq<char>, Seq<char>, Seq<char>)>,
    detected: Option<(Seq<char>, Seq<char>, Seq<char>)>,
    hash: Seq<u8>,
) -> Seq<Topic> {
    screening::at_most_one(
        match names::extension(name) {
            Some(e) => Some(Topic::Extension(e)),
            None => None,
        },
    ) + screening::at_most_one(
        match given {
            Some(t) => Some(Topic::Mime(t.0)),
            None => None,
        },
    ) + screening::at_most_one(
        match detected {
            Some(t) => Some(Topic::Mime(t.0)),
            None => None,
        },
    ) + seq![Topic::Hash(hash)]
}

/// The questions about a file.
pub fn file_checks(
    name: &str,
    given: Option<&MimeType>,
    detected: Option<&MimeType>,
    hash: &Vec<u8>,
) -> (r: Vec<Check>)
    ensures
        screening::topics(r@) == file_topics(
            name@,
            match given {
                Some(t) => Some(t@),
                None => None,
            },
            match detected {
                Some(t) => Some(t@),
                None => None,
            },
            hash@,
        ),
{
    let mut checks: Vec<Check> = Vec::new();
    if let Some(e) = extension_of(name) {
        add_check(&mut checks, Check::Extension(e));
    }
    if let Some(t) = given {
        add_check(&mut checks, Check::Mime(t.text.clone()));
    }
    if let Some(t) = detected {
        add_check(&mut checks, Check::Mime(t.text.clone()));
    }
    add_check(&mut checks, Check::Hash(hash.clone()));
    assert(screening::topics(checks@) =~= file_topics(
        name@,
        match given {
            Some(t) => Some(t@),
            None => None,
        },
        match detected {
            Some(t) => Some(t@),
            None => None,
        },
        hash@,
    ));
    checks
}

// ---------------------------------------------------------------- the steps

/// Where the intake of a file stands.
pub enum Stage {
    /// The question with this number is to be asked.
    Checking { next: nat },
    /// A stored file with the same hash is to be looked for.
    FindingTwin,
    /// It is to be found out whether the slug is taken; so many slugs of this
    /// length have been tried with it.
    NamingSlug { len: nat, tries: nat, slug: Seq<char> },
    /// The folder for the file is to be made.
    MakingFolder { slug: Seq<char>, expiry: Timestamp },
    /// The file is to be stored.
    Saving { slug: Seq<char>, expiry: Timestamp },
    /// The upload is to be recorded.
    Recording { slug: Seq<char>, expiry: Timestamp },
    /// The file is available under the link.
    Published { link: Seq<char> },
    /// The file was turned down, or something failed.
    Refused { status: Status, body: Seq<char> },
}

/// The outcome of a step.
#[derive(Debug)]
pub enum Reply {
    /// The answer to a question.
    Checked(Answer),
    /// The slug of the stored file with the same hash, if there is one.
    Twin(Option<String>),
    /// The slug is in use.
    SlugTaken,
    /// The slug is not in use; the upload would expire then.
    SlugFree(Timestamp),
    /// The step is done.
    Done,
    /// The step failed.
    Failed,
}

/// The reply that a slug is free, with the expiry of a file that is received
/// at a point in time and kept for so many days. None where that is no date.
pub open spec fn free_reply(received: Timestamp, days: i64) -> Option<Reply> {
    match upload::expiry(received, days) {
        Some(expiry) => Some(Reply::SlugFree(expiry)),
        None => None,
    }
}

/// The reply that a slug is free, for a file that is received at a point in
/// time and kept for so many days.
pub fn slug_free_at(received: Timestamp, days: i64) -> (r: Option<Reply>)
    requires
        received.valid(),
    ensures
        r == free_reply(received, days),
{
    match compute_expiry(received, days) {
        Some(expiry) => Some(Reply::SlugFree(expiry)),
        None => None,
    }
}

/// The reply that a slug is free, for a file that is received now and kept for
/// so many days.
pub fn slug_free(days: i64) -> (r: Option<Reply>)
    ensures
        exists|now: Timestamp| now.valid() && r == #[trigger] free_reply(now, days),
{
    let found = calculate_expiry(days);
    let ghost now = choose|now: Timestamp|
        now.valid() && found == #[trigger] upload::expiry(now, days);
    let reply = match found {
        Some(expiry) => Some(Reply::SlugFree(expiry)),
        None => None,
    };
    assert(reply == free_reply(now, days));
    reply
}

/// What the course of an intake depends on.
pub struct Facts {
    pub topics: Seq<Topic>,
    pub dedup: bool,
    pub base_url: Seq<char>,
    pub name: Seq<char>,
    pub subtype: Option<Seq<char>>,
    pub auto_ext: bool,
    pub max_ext_len: nat,
    pub keep_name: bool,
    pub id_len: nat,
}

/// The failure of a step ends the intake.
pub open spec fn broken() -> Stage {
    Stage::Refused {
        status: Status::InternalServerError,
        body: http::error_body(Status::InternalServerError, http::internal_message()),
    }
}

/// The attempt at a slug made from an id.
pub open spec fn naming(f: Facts, len: nat, tries: nat, id: Seq<char>) -> Stage {
    Stage::NamingSlug {
        len,
        tries,
        slug: upload::slug_text(id, f.name, f.subtype, f.auto_ext, f.max_ext_len, f.keep_name),
    }
}

/// The next length of the random part; lengths end where texts do.
pub open spec fn longer(len: nat) -> nat {
    if len < isize::MAX {
        len + 1
    } else {
        len
    }
}

/// A reply as the answer to a question.
pub open spec fn answer_of(reply: Reply) -> Answer {
    match reply {
        Reply::Checked(a) => a,
        _ => Answer::Failed,
    }
}

/// The stage that follows a reply. `id` is the random part of the slug that
/// is tried next, where one is.
pub open spec fn stage_after(f: Facts, stage: Stage, reply: Reply, id: Seq<char>) -> Stage {
    match stage {
        Stage::Checking { next } => match screening::refusal(
            f.topics[next as int],
            answer_of(reply),
        ) {
            Some((status, message)) => Stage::Refused {
                status,
                body: http::error_body(status, message),
            },
            None => if next + 1 < f.topics.len() {
                Stage::Checking { next: next + 1 }
            } else if f.dedup {
                Stage::FindingTwin
            } else {
                naming(f, f.id_len, 1, id)
            },
        },
        Stage::FindingTwin => match reply {
            Reply::Twin(Some(slug)) => Stage::Published { link: link::link_text(f.base_url, slug@) },
            Reply::Twin(None) => naming(f, f.id_len, 1, id),
            _ => broken(),
        },
        Stage::NamingSlug { len, tries, slug } => match reply {
            Reply::SlugTaken => if tries < MAX_SLUG_ATTEMPTS {
                naming(f, len, tries + 1, id)
            } else {
                naming(f, longer(len), 1, id)
            },
            Reply::SlugFree(expiry) => Stage::MakingFolder { slug, expiry },
            _ => broken(),
        },
        Stage::MakingFolder { slug, expiry } => match reply {
            Reply::Done => Stage::Saving { slug, expiry },
            _ => broken(),
        },
        Stage::Saving { slug, expiry } => match reply {
            Reply::Done => Stage::Recording { slug, expiry },
            _ => broken(),
        },
        Stage::Recording { slug, expiry } => match reply {
            Reply::Done => Stage::Published { link: link::link_text(f.base_url, slug) },
            _ => broken(),
        },
        Stage::Published { .. } => stage,
        Stage::Refused { .. } => stage,
    }
}

/// The length of the random part that the next slug needs, where a slug is
/// tried next.
pub open spec fn wanted_len(f: Facts, stage: Stage, reply: Reply) -> Option<nat> {
    match stage_after(f, stage, reply, Seq::empty()) {
        Stage::NamingSlug { len, .. } => Some(len),
        _ => None,
    }
}

/// Where the intake of a file stands.
#[derive(Debug)]
pub enum Phase {
    Checking(usize),
    FindingTwin,
    NamingSlug { len: usize, tries: u32, slug: String },
    MakingFolder { slug: String, expiry: Timestamp },
    Saving { slug: String, expiry: Timestamp },
    Recording { slug: String, expiry: Timestamp },
    Published { link: String },
    Refused(Page),
}

impl View for Phase {
    type V = Stage;

    open spec fn view(&self) -> Stage {
        match *self {
            Phase::Checking(next) => Stage::Checking { next: next as nat },
            Phase::FindingTwin => Stage::FindingTwin,
            Phase::NamingSlug { len, tries, slug } => Stage::NamingSlug {
                len: len as nat,
                tries: tries as nat,
                slug: slug@,
            },
            Phase::MakingFolder { slug, expiry } => Stage::MakingFolder { slug: slug@, expiry },
            Phase::Saving { slug, expiry } => Stage::Saving { slug: slug@, expiry },
            Phase::Recording { slug, expiry } => Stage::Recording { slug: slug@, expiry },
            Phase::Published { link } => Stage::Published { link: link@ },
            Phase::Refused(page) => Stage::Refused { status: page.status, body: page.body@ },
        }
    }
}

/// What is recorded of an upload.
#[derive(Debug)]
pub struct UploadRow {
    pub id: u128,
    pub original_name: String,
    pub expiry: Timestamp,
    pub slug: String,
    pub file_size: i64,
    pub hash: Vec<u8>,
    pub uploader_ip: Option<IpAddr>,
    pub content_type: String,
    pub user_agent: Option<String>,
}

/// The intake of one file.
pub struct Intake {
    file: Received,
    id: u128,
    name: String,
    subtype: Option<String>,
    db_type: String,
    checks: Vec<Check>,
    base_url: String,
    store_path: String,
    dedup: bool,
    auto_ext: bool,
    max_ext_len: usize,
    phase: Phase,
}

/// What the intake of a file depends on.
pub open spec fn facts_of(file: Received, settings: Settings) -> Facts {
    let name = original_name(text::opt_view(file.file_name));
    Facts {
        topics: file_topics(
            name,
            media::opt_view(file.content_type),
            media::opt_view(file.detected),
            file.hash@,
        ),
        dedup: settings.dedup,
        base_url: settings.base_url@,
        name,
        subtype: declared_type(media::opt_view(file.content_type), media::path_mime(name)).1,
        auto_ext: settings.auto_file_ext,
        max_ext_len: settings.max_ext_len as nat,
        keep_name: file.keep_name,
        id_len: file.id_len as nat,
    }
}

/// The media type that is recorded for a received file.
pub open spec fn recorded_of(file: Received) -> Seq<char> {
    recorded_type(
        media::opt_view(file.detected),
        declared_type(
            media::opt_view(file.content_type),
            media::path_mime(original_name(text::opt_view(file.file_name))),
        ).0,
    )
}

/// The row holds what an intake that stands at the recording records.
pub open spec fn is_row_of(row: UploadRow, intake: Intake) -> bool {
    &&& row.id == intake.upload_id()
    &&& row.original_name@ == intake.facts().name
    &&& row.expiry == intake.stage()->Recording_expiry
    &&& row.slug@ == intake.stage()->Recording_slug
    &&& row.file_size == util::wrapped(intake.received().size as u64)
    &&& row.hash@ == intake.received().hash@
    &&& row.uploader_ip == intake.received().uploader_ip
    &&& row.content_type@ == recorded_of(intake.received())
    &&& row.user_agent == intake.received().user_agent
}

impl Intake {
    /// What the course of the intake depends on.
    pub closed spec fn facts(&self) -> Facts {
        Facts {
            topics: screening::topics(self.checks@),
            dedup: self.dedup,
            base_url: self.base_url@,
            name: self.name@,
            subtype: text::opt_view(self.subtype),
            auto_ext: self.auto_ext,
            max_ext_len: self.max_ext_len as nat,
            keep_name: self.file.keep_name,
            id_len: self.file.id_len as nat,
        }
    }

    /// Where the intake stands.
    pub closed spec fn stage(&self) -> Stage {
        self.phase@
    }

    /// The file that is taken in.
    pub closed spec fn received(&self) -> Received {
        self.file
    }

    /// The id of the upload.
    pub closed spec fn upload_id(&self) -> u128 {
        self.id
    }

    /// The directory that uploads are stored in.
    pub closed spec fn root(&self) -> Seq<char> {
        self.store_path@
    }

    pub closed spec fn wf(&self) -> bool {
        &&& self.name@ == original_name(text::opt_view(self.file.file_name))
        &&& self.db_type@ == recorded_of(self.file)
        &&& self.file.id_len <= isize::MAX
        &&& (match self.phase {
            Phase::Checking(next) => next < self.checks@.len(),
            Phase::NamingSlug { len, tries, .. } => len <= isize::MAX && tries
                <= MAX_SLUG_ATTEMPTS,
            Phase::Refused(page) => page.kind == PageKind::Plain,
            _ => true,
        })
    }

    /// Begins the intake of a file under a given id.
    pub fn begin_with(file: Received, settings: &Settings, id: u128) -> (r: Intake)
        requires
            file.id_len <= isize::MAX,
        ensures
            r.wf(),
            r.facts() == facts_of(file, *settings),
            r.stage() == (Stage::Checking { next: 0 }),
            r.received() == file,
            r.upload_id() == id,
            r.root() == settings.store_path@,
    {
        let name = match &file.file_name {
            Some(n) => n.clone(),
            None => "unknown".to_owned(),
        };
        let given: Option<&MimeType> = match &file.content_type {
            Some(t) => Some(t),
            None => None,
        };
        let found: Option<&MimeType> = match &file.detected {
            Some(t) => Some(t),
            None => None,
        };
        let (declared, subtype) = determine_content_type(given, name.as_str());
        let db_type = content_type_for_db(found, declared.as_str());
        let checks = file_checks(name.as_str(), given, found, &file.hash);
        assert(screening::topics(checks@).len() == checks@.len());
        Intake {
            file,
            id,
            name,
            subtype,
            db_type,
            checks,
            base_url: settings.base_url.clone(),
            store_path: settings.store_path.clone(),
            dedup: settings.dedup,
            auto_ext: settings.auto_file_ext,
            max_ext_len: settings.max_ext_len,
            phase: Phase::Checking(0),
        }
    }

    /// Begins the intake of a file under a new id.
    pub fn begin(file: Received, settings: &Settings) -> (r: Intake)
        requires
            file.id_len <= isize::MAX,
        ensures
            r.wf(),
            r.facts() == facts_of(file, *settings),
            r.stage() == (Stage::Checking { next: 0 }),
            r.received() == file,
            ids::is_random_id(r.upload_id()),
            r.root() == settings.store_path@,
    {
        let id = draw_id();
        Intake::begin_with(file, settings, id)
    }

    /// Where the intake stands. The page of a refusal is plain text.
    pub fn phase(&self) -> (r: &Phase)
        requires
            self.wf(),
        ensures
            r@ == self.stage(),
            r matches Phase::Refused(page) ==> page.kind == PageKind::Plain,
    {
        &self.phase
    }

    /// The question to ask; none where no question is to be asked.
    pub fn question(&self) -> (r: Option<&Check>)
        requires
            self.wf(),
        ensures
            (match r {
                Some(c) => self.stage() is Checking && c@
                    == self.facts().topics[self.stage()->next as int],
                None => !(self.stage() is Checking),
            }),
    {
        match &self.phase {
            Phase::Checking(next) => Some(&self.checks[*next]),
            _ => None,
        }
    }

    /// The folder for the file.
    pub fn folder(&self) -> (r: String)
        ensures
            r@ == ids::store_folder(self.root(), self.upload_id()),
    {
        id_folder(self.store_path.as_str(), self.id)
    }

    /// The path for the file.
    pub fn path(&self) -> (r: String)
        ensures
            r@ == ids::store_path(self.root(), self.upload_id()),
    {
        uuid_to_path(self.store_path.as_str(), self.id)
    }

    /// What is to be recorded; none where nothing is to be recorded.
    pub fn row(&self) -> (r: Option<UploadRow>)
        requires
            self.wf(),
        ensures
            r is Some == self.stage() is Recording,
            r matches Some(row) ==> is_row_of(row, *self),
    {
        match &self.phase {
            Phase::Recording { slug, expiry } => Some(
                UploadRow {
                    id: self.id,
                    original_name: self.name.clone(),
                    expiry: *expiry,
                    slug: slug.clone(),
                    file_size: as_signed(self.file.size as u64),
                    hash: self.file.hash.clone(),
                    uploader_ip: self.file.uploader_ip,
                    content_type: self.db_type.clone(),
                    user_agent: copied(&self.file.user_agent),
                },
            ),
            _ => None,
        }
    }

    fn attempt(&self, len: usize, tries: u32, id: &str) -> (r: Phase)
        ensures
            r@ == naming(self.facts(), len as nat, tries as nat, id@),
            r matches Phase::NamingSlug { len: l, tries: t, .. } && l == len && t == tries,
    {
        let subtype: Option<&str> = match &self.subtype {
            Some(s) => Some(s.as_str()),
            None => None,
        };
        let slug = build_slug_with(
            id,
            self.name.as_str(),
            subtype,
            self.auto_ext,
            self.max_ext_len,
            self.file.keep_name,
        );
        Phase::NamingSlug { len, tries, slug }
    }

    /// Takes in the outcome of the step. `id` is the random part of the slug
    /// that is tried next, where one is.
    #[verifier::rlimit(50)]
    pub fn advance_with(&mut self, reply: &Reply, id: &str)
        requires
            old(self).wf(),
        ensures
            final(self).wf(),
            final(self).facts() == old(self).facts(),
            final(self).received() == old(self).received(),
            final(self).upload_id() == old(self).upload_id(),
            final(self).root() == old(self).root(),
            final(self).stage() == stage_after(
                old(self).facts(),
                old(self).stage(),
                *reply,
                id@,
            ),
    {
        let n: usize = self.checks.len();
        assert(self.facts().topics.len() == n);
        let next: Option<Phase> = match &self.phase {
            Phase::Checking(i) => {
                let answer: Answer = match reply {
                    Reply::Checked(a) => *a,
                    _ => Answer::Failed,
                };
                assert(self.facts().topics[*i as int] == self.checks@[*i as int]@);
                match self.checks[*i].judge(answer) {
                    Some(page) => Some(Phase::Refused(page)),
                    None => if *i + 1 < n {
                        Some(Phase::Checking(*i + 1))
                    } else if self.dedup {
                        Some(Phase::FindingTwin)
                    } else {
                        Some(self.attempt(self.file.id_len, 1, id))
                    },
                }
            },
            Phase::FindingTwin => match reply {
                Reply::Twin(Some(slug)) => Some(
                    Phase::Published { link: link_to(self.base_url.as_str(), slug.as_str()) },
                ),
                Reply::Twin(None) => Some(self.attempt(self.file.id_len, 1, id)),
                _ => Some(Phase::Refused(internal_page())),
            },
            Phase::NamingSlug { len, tries, slug } => match reply {
                Reply::SlugTaken => if *tries < MAX_SLUG_ATTEMPTS {
                    Some(self.attempt(*len, *tries + 1, id))
                } else if *len < isize::MAX as usize {
                    Some(self.attempt(*len + 1, 1, id))
                } else {
                    Some(self.attempt(*len, 1, id))
                },
                Reply::SlugFree(expiry) => Some(
                    Phase::MakingFolder { slug: slug.clone(), expiry: *expiry },
                ),
                _ => Some(Phase::Refused(internal_page())),
            },
            Phase::MakingFolder { slug, expiry } => match reply {
                Reply::Done => Some(Phase::Saving { slug: slug.clone(), expiry: *expiry }),
                _ => Some(Phase::Refused(internal_page())),
            },
            Phase::Saving { slug, expiry } => match reply {
                Reply::Done => Some(Phase::Recording { slug: slug.clone(), expiry: *expiry }),
                _ => Some(Phase::Refused(internal_page())),
            },
            Phase::Recording { slug, expiry: _ } => match reply {
                Reply::Done => Some(
                    Phase::Published { link: link_to(self.base_url.as_str(), slug.as_str()) },
                ),
                _ => Some(Phase::Refused(internal_page())),
            },
            Phase::Published { link: _ } => None,
            Phase::Refused(_) => None,
        };
        if let Some(phase) = next {
            self.phase = phase;
        }
    }

    fn draw_len(&self, reply: &Reply) -> (r: Option<usize>)
        requires
            self.wf(),
        ensures
            (match r {
                Some(l) => Some(l as nat),
                None => None,
            }) == wanted_len(self.facts(), self.stage(), *reply),
            r matches Some(l) ==> l <= isize::MAX,
    {
        let n: usize = self.checks.len();
        assert(self.facts().topics.len() == n);
        match &self.phase {
            Phase::Checking(i) => {
                let answer: Answer = match reply {
                    Reply::Checked(a) => *a,
                    _ => Answer::Failed,
                };
                assert(self.facts().topics[*i as int] == self.checks@[*i as int]@);
                if self.checks[*i].judge(answer).is_none() && *i + 1 == n && !self.dedup {
                    Some(self.file.id_len)
                } else {
                    None
                }
            },
            Phase::FindingTwin => match reply {
                Reply::Twin(None) => Some(self.file.id_len),
                _ => None,
            },
            Phase::NamingSlug { len, tries, slug: _ } => match reply {
                Reply::SlugTaken => if *tries < MAX_SLUG_ATTEMPTS || *len >= isize::MAX as usize {
                    Some(*len)
                } else {
                    Some(*len + 1)
                },
                _ => None,
            },
            _ => None,
        }
    }

    /// Takes in the outcome of the step, with a new random id for the slug
    /// that is tried next, where one is.
    pub fn advance(&mut self, reply: &Reply)
        requires
            old(self).wf(),
        ensures
            final(self).wf(),
            final(self).facts() == old(self).facts(),
            final(self).received() == old(self).received(),
            final(self).upload_id() == old(self).upload_id(),
            final(self).root() == old(self).root(),
            exists|id: Seq<char>|
                {
                    &&& final(self).stage() == #[trigger] stage_after(
                        old(self).facts(),
                        old(self).stage(),
                        *reply,
                        id,
                    )
                    &&& wanted_len(old(self).facts(), old(self).stage(), *reply) matches Some(len)
                        ==> upload::is_id(id, len)
                },
    {
        let id = match self.draw_len(reply) {
            Some(len) => random_string(len),
            None => String::new(),
        };
        self.advance_with(reply, id.as_str());
    }
}

// ---------------------------------------------------------------- laws

/// The stage after a row of replies, each with the random id at hand.
pub open spec fn run(f: Facts, replies: Seq<(Reply, Seq<char>)>) -> Stage
    decreases replies.len(),
{
    if replies.len() == 0 {
        Stage::Checking { next: 0 }
    } else {
        let (reply, id) = replies.last();
        stage_after(f, run(f, replies.drop_last()), reply, id)
    }
}

/// The first `n` replies let the file pass the first `n` questions.
pub open spec fn clear_up_to(f: Facts, replies: Seq<(Reply, Seq<char>)>, n: nat) -> bool {
    &&& n <= replies.len()
    &&& forall|i: int|
        0 <= i < n ==> (#[trigger] screening::refusal(
            f.topics[i],
            answer_of(replies[i].0),
        )) is None
}

proof fn lemma_clear_extends(f: Facts, replies: Seq<(Reply, Seq<char>)>, n: nat)
    requires
        replies.len() > 0,
        clear_up_to(f, replies.drop_last(), n),
    ensures
        clear_up_to(f, replies, n),
{
    assert forall|i: int| 0 <= i < n implies (#[trigger] screening::refusal(
        f.topics[i],
        answer_of(replies[i].0),
    )) is None by {
        assert(replies.drop_last()[i] == replies[i]);
        assert(screening::refusal(f.topics[i], answer_of(replies.drop_last()[i].0)) is None);
    }
}

/// No file gets past the questions unless every one of them was asked and
/// answered in its favour: whatever the replies, an intake that stands
/// neither at a question nor at a refusal has seen all questions clear.
pub proof fn lemma_screened_first(f: Facts, replies: Seq<(Reply, Seq<char>)>)
    requires
        f.topics.len() > 0,
    ensures
        (match run(f, replies) {
            Stage::Checking { next } => next < f.topics.len() && next == replies.len()
                && clear_up_to(f, replies, next),
            Stage::Refused { .. } => true,
            _ => clear_up_to(f, replies, f.topics.len()),
        }),
    decreases replies.len(),
{
    if replies.len() > 0 {
        let front = replies.drop_last();
        lemma_screened_first(f, front);
        match run(f, front) {
            Stage::Checking { next } => {
                lemma_clear_extends(f, replies, next);
                assert(replies[next as int] == replies.last());
            },
            Stage::Refused { .. } => {},
            _ => {
                lemma_clear_extends(f, replies, f.topics.len());
            },
        }
    }
}

/// Whatever is replied later, a refusal stays a refusal and a link stays the
/// link.
pub proof fn lemma_end_is_final(
    f: Facts,
    replies: Seq<(Reply, Seq<char>)>,
    later: Seq<(Reply, Seq<char>)>,
)
    requires
        run(f, replies) is Published || run(f, replies) is Refused,
    ensures
        run(f, replies + later) == run(f, replies),
    decreases later.len(),
{
    if later.len() == 0 {
        assert(replies + later =~= replies);
    } else {
        let all = replies + later;
        assert(all.drop_last() =~= replies + later.drop_last());
        lemma_end_is_final(f, replies, later.drop_last());
    }
}

/// The slug was asked about at step `k`, and the reply was that it is free.
pub open spec fn free_at(
    f: Facts,
    replies: Seq<(Reply, Seq<char>)>,
    k: int,
    slug: Seq<char>,
) -> bool {
    &&& 0 <= k < replies.len()
    &&& run(f, replies.take(k)) matches Stage::NamingSlug { slug: asked, .. } && asked == slug
    &&& replies[k].0 is SlugFree
}

/// The slug was reported at step `k` as that of the stored file with the
/// same hash.
pub open spec fn twin_at(
    f: Facts,
    replies: Seq<(Reply, Seq<char>)>,
    k: int,
    slug: Seq<char>,
) -> bool {
    &&& 0 <= k < replies.len()
    &&& run(f, replies.take(k)) is FindingTwin
    &&& replies[k].0 matches Reply::Twin(Some(s)) && s@ == slug
}

/// The slug that an intake works with was reported free.
pub open spec fn was_free(f: Facts, replies: Seq<(Reply, Seq<char>)>, slug: Seq<char>) -> bool {
    exists|k: int| #[trigger] free_at(f, replies, k, slug)
}

/// The link of an intake is that of a slug that was reported free, or of the
/// stored file with the same hash.
pub open spec fn well_linked(f: Facts, replies: Seq<(Reply, Seq<char>)>, link: Seq<char>) -> bool {
    ||| exists|k: int, slug: Seq<char>|
        #[trigger] free_at(f, replies, k, slug) && link == link::link_text(f.base_url, slug)
    ||| exists|k: int, slug: Seq<char>|
        #[trigger] twin_at(f, replies, k, slug) && link == link::link_text(f.base_url, slug)
}

proof fn lemma_prefix(replies: Seq<(Reply, Seq<char>)>, k: int)
    requires
        0 <= k < replies.len(),
    ensures
        k < replies.len() - 1 ==> replies.drop_last().take(k) == replies.take(k)
            && replies.drop_last()[k] == replies[k],
        k == replies.len() - 1 ==> replies.drop_last() == replies.take(k),
{
    if k < replies.len() - 1 {
        assert(replies.drop_last().take(k) =~= replies.take(k));
    } else {
        assert(replies.drop_last() =~= replies.take(k));
    }
}

proof fn lemma_free_extends(f: Facts, replies: Seq<(Reply, Seq<char>)>, slug: Seq<char>)
    requires
        replies.len() > 0,
        was_free(f, replies.drop_last(), slug),
    ensures
        was_free(f, replies, slug),
{
    let k = choose|k: int| #[trigger] free_at(f, replies.drop_last(), k, slug);
    lemma_prefix(replies, k);
    assert(free_at(f, replies, k, slug));
}

/// Nothing is stored, recorded or linked under a slug that was not reported
/// free; the only other link is that of the stored file with the same hash.
pub proof fn lemma_slug_was_free(f: Facts, replies: Seq<(Reply, Seq<char>)>)
    ensures
        (match run(f, replies) {
            Stage::MakingFolder { slug, .. } => was_free(f, replies, slug),
            Stage::Saving { slug, .. } => was_free(f, replies, slug),
            Stage::Recording { slug, .. } => was_free(f, replies, slug),
            Stage::Published { link } => well_linked(f, replies, link),
            _ => true,
        }),
    decreases replies.len(),
{
    if replies.len() > 0 {
        let front = replies.drop_last();
        let k = replies.len() - 1;
        lemma_slug_was_free(f, front);
        lemma_prefix(replies, k);
        match run(f, front) {
            Stage::FindingTwin => {
                if let Reply::Twin(Some(s)) = replies.last().0 {
                    assert(twin_at(f, replies, k, s@));
                }
            },
            Stage::NamingSlug { slug, .. } => {
                if replies.last().0 is SlugFree {
                    assert(free_at(f, replies, k, slug));
                }
            },
            Stage::MakingFolder { slug, .. } => {
                lemma_free_extends(f, replies, slug);
            },
            Stage::Saving { slug, .. } => {
                lemma_free_extends(f, replies, slug);
            },
            Stage::Recording { slug, .. } => {
                lemma_free_extends(f, replies, slug);
                let j = choose|j: int| #[trigger] free_at(f, replies, j, slug);
                assert(free_at(f, replies, j, slug));
            },
            Stage::Published { link } => {
                if exists|j: int, slug: Seq<char>|
                    #[trigger] free_at(f, front, j, slug) && link == link::link_text(
                        f.base_url,
                        slug,
                    ) {
                    let (j, slug) = choose|j: int, slug: Seq<char>|
                        #[trigger] free_at(f, front, j, slug) && link == link::link_text(
                            f.base_url,
                            slug,
                        );
                    lemma_prefix(replies, j);
                    assert(free_at(f, replies, j, slug));
                } else {
                    let (j, slug) = choose|j: int, slug: Seq<char>|
                        #[trigger] twin_at(f, front, j, slug) && link == link::link_text(
                            f.base_url,
                            slug,
                        );
                    lemma_prefix(replies, j);
                    assert(twin_at(f, replies, j, slug));
                }
            },
            _ => {},
        }
    }
}

/// The link of a recorded upload leads to the slug under which the upload was
/// recorded.
pub proof fn lemma_link_finds_the_upload(f: Facts, slug: Seq<char>, expiry: Timestamp, id: Seq<char>)
    ensures
        stage_after(f, Stage::Recording { slug, expiry }, Reply::Done, id) matches Stage::Published {
            link,
        } && decode_utf8(link::unescaped(link.skip(f.base_url.len() as int))) == slug,
{
    link::lemma_link_leads_to_slug(f.base_url, slug);
}

/// A media type that was detected and says something other than text is
/// recorded, whatever was declared.
pub proof fn lemma_detected_type_is_recorded(
    detected: (Seq<char>, Seq<char>, Seq<char>),
    declared: Seq<char>,
)
    requires
        detected.1 != "text"@,
        detected.0 != "application/octet-stream"@,
    ensures
        recorded_type(Some(detected), declared) == detected.0,
{
}

/// Where nothing was detected, or a text or bytes of no known type, the
/// declared type is recorded; only where that says nothing and something was
/// detected, plain text is.
pub proof fn lemma_declared_type_is_recorded(
    detected: Option<(Seq<char>, Seq<char>, Seq<char>)>,
    declared: Seq<char>,
)
    requires
        detected matches Some(d) ==> d.1 == "text"@ || d.0 == "application/octet-stream"@,
    ensures
        declared != "application/octet-stream"@ ==> recorded_type(detected, declared) == declared,
        detected is None ==> recorded_type(detected, declared) == declared,
        detected is Some && declared == "application/octet-stream"@ ==> recorded_type(
            detected,
            declared,
        ) == "text/plain"@,
{
}

/// Plain text is recorded only where it was detected or declared, or where a
/// text or bytes of no known type were detected and nothing was declared.
pub proof fn lemma_plain_text_is_a_fallback(
    detected: Option<(Seq<char>, Seq<char>, Seq<char>)>,
    declared: Seq<char>,
)
    requires
        recorded_type(detected, declared) == "text/plain"@,
    ensures
        declared == "text/plain"@ || detected is Some && (detected->Some_0.0 == "text/plain"@
            || declared == "application/octet-stream"@ && (detected->Some_0.1 == "text"@
            || detected->Some_0.0 == "application/octet-stream"@)),
{
}

/// A file is known by the name under which it was sent, or as `unknown`.
pub proof fn lemma_name_of_a_file(name: Seq<char>)
    ensures
        original_name(Some(name)) == name,
        original_name(None) == "unknown"@,
{
}

/// The client's word on the media type is taken unless it says nothing; then
/// the guess is, and without one the type that says nothing, which has no
/// subtype to name the file by.
pub proof fn lemma_whose_type_is_taken(
    given: Option<(Seq<char>, Seq<char>, Seq<char>)>,
    guess: Option<(Seq<char>, Seq<char>, Seq<char>)>,
)
    ensures
        given matches Some(t) ==> t.0 != "application/octet-stream"@ ==> declared_type(given, guess)
            == (t.0, Some(t.2)),
        given is None || given->Some_0.0 == "application/octet-stream"@ ==> declared_type(
            given,
            guess,
        ) == (match guess {
            Some(g) => (g.0, Some(g.2)),
            None => ("application/octet-stream"@, None),
        }),
{
}

/// What a received file is recorded as: a telling type that was detected, else
/// what the client declared, else what its name suggests, else plain text
/// where something was detected and bytes of no known type where nothing was.
pub proof fn lemma_recorded_type_of_a_file(file: Received)
    ensures
        file.detected matches Some(d) ==> d.kind@ != "text"@ && d.text@
            != "application/octet-stream"@ ==> recorded_of(file) == d.text@,
        file.detected is None ==> (file.content_type matches Some(t) ==> t.text@
            != "application/octet-stream"@ ==> recorded_of(file) == t.text@),
        file.detected matches Some(d) ==> d.kind@ == "text"@ || d.text@
            == "application/octet-stream"@ ==> (file.content_type matches Some(t) ==> t.text@
            != "application/octet-stream"@ ==> recorded_of(file) == t.text@),
        file.content_type is None && file.detected is None ==> (file.file_name matches Some(n) ==> (
        media::path_mime(n@) matches Some(g) ==> recorded_of(file) == g.0)),
        file.content_type is None && file.file_name is None && file.detected is None
            && media::path_mime("unknown"@) is None ==> recorded_of(file)
            == "application/octet-stream"@,
        (file.content_type matches Some(t) ==> t.text@ == "application/octet-stream"@)
            ==> (file.file_name matches Some(n) ==> (media::path_mime(n@) matches Some(g) ==> g.0
            != "application/octet-stream"@ ==> (file.detected matches Some(d) ==> d.kind@ == "text"@
            || d.text@ == "application/octet-stream"@) ==> recorded_of(file) == g.0)),
        (file.content_type matches Some(t) ==> t.text@ == "application/octet-stream"@)
            ==> (file.file_name matches Some(n) ==> media::path_mime(n@) is None ==> (
        file.detected matches Some(d) ==> d.kind@ == "text"@ || d.text@
            == "application/octet-stream"@ ==> recorded_of(file) == "text/plain"@)),
        (file.content_type matches Some(t) ==> t.text@ == "application/octet-stream"@)
            ==> (file.file_name matches Some(n) ==> media::path_mime(n@) is None
            ==> file.detected is None ==> recorded_of(file) == "application/octet-stream"@),
{
}

/// The course of an intake depends on the file and the settings as they are.
pub proof fn lemma_facts_of_a_file(file: Received, settings: Settings)
    ensures
        ({
            let f = facts_of(file, settings);
            &&& f.dedup == settings.dedup
            &&& f.base_url == settings.base_url@
            &&& f.auto_ext == settings.auto_file_ext
            &&& f.max_ext_len == settings.max_ext_len
            &&& f.keep_name == file.keep_name
            &&& f.id_len == file.id_len
            &&& file.file_name matches Some(n) ==> f.name == n@
            &&& file.file_name is None ==> f.name == "unknown"@
            &&& file.content_type matches Some(t) ==> t.text@ != "application/octet-stream"@
                ==> f.subtype == Some(t.subtype@)
            &&& (file.content_type matches Some(t) ==> t.text@ == "application/octet-stream"@)
                ==> f.subtype == (match media::path_mime(f.name) {
                Some(g) => Some(g.2),
                None => None,
            })
            &&& f.topics == file_topics(
                f.name,
                media::opt_view(file.content_type),
                media::opt_view(file.detected),
                file.hash@,
            )
            &&& f.topics.len() > 0
            &&& f.topics.last() == Topic::Hash(file.hash@)
        }),
{
}

/// What is recorded of an upload is what was received: the file under its
/// name, its size, its hash, who sent it and with which client, under the slug
/// that was found free and until the time that was set with it.
pub proof fn lemma_row_holds_what_was_received(row: UploadRow, intake: Intake)
    requires
        is_row_of(row, intake),
    ensures
        row.id == intake.upload_id(),
        row.original_name@ == intake.facts().name,
        row.hash@ == intake.received().hash@,
        row.uploader_ip == intake.received().uploader_ip,
        row.user_agent == intake.received().user_agent,
        row.content_type@ == recorded_of(intake.received()),
        intake.received().size <= 0x7fff_ffff_ffff_ffff ==> row.file_size
            == intake.received().size,
        intake.stage() matches Stage::Recording { slug, expiry } ==> row.slug@ == slug && row.expiry
            == expiry,
{
}

/// Which questions a file is asked: whether its extension, the media type that
/// the client gave, the one that was detected, and its hash are banned. The
/// hash is asked for in any case, and last.
pub proof fn lemma_file_questions(
    name: Seq<char>,
    given: Option<(Seq<char>, Seq<char>, Seq<char>)>,
    detected: Option<(Seq<char>, Seq<char>, Seq<char>)>,
    hash: Seq<u8>,
    topic: Topic,
)
    ensures
        file_topics(name, given, detected, hash).contains(topic) <==> (match topic {
            Topic::Extension(e) => names::extension(name) == Some(e),
            Topic::Mime(m) => given is Some && given->Some_0.0 == m || detected is Some
                && detected->Some_0.0 == m,
            Topic::Hash(h) => h == hash,
            _ => false,
        }),
        file_topics(name, given, detected, hash).len() > 0,
        file_topics(name, given, detected, hash).last() == Topic::Hash(hash),
{
    let all = file_topics(name, given, detected, hash);
    let a: int = if names::extension(name) is Some {
        1
    } else {
        0
    };
    let b: int = if given is Some {
        1
    } else {
        0
    };
    let c: int = if detected is Some {
        1
    } else {
        0
    };
    if names::extension(name) is Some {
        assert(all[0] == Topic::Extension(names::extension(name)->Some_0));
    }
    if given is Some {
        assert(all[a] == Topic::Mime(given->Some_0.0));
    }
    if detected is Some {
        assert(all[a + b] == Topic::Mime(detected->Some_0.0));
    }
    assert(all[a + b + c] == Topic::Hash(hash));
}

/// A question that is answered in the file's favour leads to the next one;
/// after the last the search for a twin begins where that is wanted, and else
/// that for a slug. A question that is not ends the intake with its page.
pub proof fn lemma_questions_in_order(f: Facts, next: nat, answer: Answer, id: Seq<char>)
    ensures
        ({
            let refused = screening::refusal(f.topics[next as int], answer);
            let after = stage_after(f, Stage::Checking { next }, Reply::Checked(answer), id);
            &&& refused is None && next + 1 < f.topics.len() ==> after == (Stage::Checking {
                next: next + 1,
            })
            &&& refused is None && next + 1 >= f.topics.len() && f.dedup ==> after is FindingTwin
            &&& refused is None && next + 1 >= f.topics.len() && !f.dedup ==> {
                &&& after is NamingSlug
                &&& after->len == f.id_len
                &&& after->tries == 1
            }
            &&& refused matches Some((status, message)) ==> after == (Stage::Refused {
                status,
                body: http::error_body(status, message),
            })
        }),
{
}

/// A file that is stored already is not stored again: its link is that of the
/// stored one. Only where there is none a slug is looked for.
pub proof fn lemma_twin_ends_the_intake(f: Facts, slug: String, id: Seq<char>)
    ensures
        stage_after(f, Stage::FindingTwin, Reply::Twin(Some(slug)), id) == (Stage::Published {
            link: link::link_text(f.base_url, slug@),
        }),
        stage_after(f, Stage::FindingTwin, Reply::Twin(None), id) == (Stage::NamingSlug {
            len: f.id_len,
            tries: 1,
            slug: upload::slug_text(id, f.name, f.subtype, f.auto_ext, f.max_ext_len, f.keep_name),
        }),
{
}

/// Three slugs of one length are tried before a longer one is: a slug that is
/// taken leads to another one of the same length, and the third one to one
/// that is longer by one.
pub proof fn lemma_slug_attempts(f: Facts, len: nat, tries: nat, slug: Seq<char>, id: Seq<char>)
    requires
        len < isize::MAX,
    ensures
        ({
            let after = stage_after(f, Stage::NamingSlug { len, tries, slug }, Reply::SlugTaken, id);
            &&& after is NamingSlug
            &&& after->NamingSlug_slug == upload::slug_text(
                id,
                f.name,
                f.subtype,
                f.auto_ext,
                f.max_ext_len,
                f.keep_name,
            )
            &&& tries < 3 ==> after->len == len && after->tries == tries + 1
            &&& tries >= 3 ==> after->len == len + 1 && after->tries == 1
        }),
{
}

/// A file is stored and recorded under the slug that was free, until the time
/// that was set then, step by step, and its link is that of the slug.
pub proof fn lemma_storing_in_order(
    f: Facts,
    len: nat,
    tries: nat,
    slug: Seq<char>,
    expiry: Timestamp,
    id: Seq<char>,
)
    ensures
        stage_after(f, Stage::NamingSlug { len, tries, slug }, Reply::SlugFree(expiry), id) == (
        Stage::MakingFolder { slug, expiry }),
        stage_after(f, Stage::MakingFolder { slug, expiry }, Reply::Done, id) == (Stage::Saving {
            slug,
            expiry,
        }),
        stage_after(f, Stage::Saving { slug, expiry }, Reply::Done, id) == (Stage::Recording {
            slug,
            expiry,
        }),
        stage_after(f, Stage::Recording { slug, expiry }, Reply::Done, id) == (Stage::Published {
            link: link::link_text(f.base_url, slug),
        }),
{
}

/// A step that fails ends the intake with a page that says so, wherever the
/// intake stands.
pub proof fn lemma_failure_ends_the_intake(f: Facts, stage: Stage, id: Seq<char>)
    requires
        !(stage is Published),
        !(stage is Refused),
    ensures
        stage_after(f, stage, Reply::Failed, id) == (Stage::Refused {
            status: Status::InternalServerError,
            body: http::error_body(Status::InternalServerError, "Something went wrong."@),
        }),
{
}

/// The reply at step `k` was that no stored file has the same hash.
pub open spec fn no_twin_at(f: Facts, replies: Seq<(Reply, Seq<char>)>, k: int) -> bool {
    &&& 0 <= k < replies.len()
    &&& run(f, replies.take(k)) is FindingTwin
    &&& replies[k].0 == Reply::Twin(None)
}

/// Where a file is not to be stored twice, nothing is named, stored or
/// recorded before it was found out that there is no twin; and where it may
/// be, no twin is looked for.
pub proof fn lemma_twin_is_looked_for(f: Facts, replies: Seq<(Reply, Seq<char>)>)
    ensures
        run(f, replies) is FindingTwin ==> f.dedup,
        f.dedup && (run(f, replies) is NamingSlug || run(f, replies) is MakingFolder || run(
            f,
            replies,
        ) is Saving || run(f, replies) is Recording) ==> exists|k: int| #[trigger]
            no_twin_at(f, replies, k),
    decreases replies.len(),
{
    if replies.len() > 0 {
        let front = replies.drop_last();
        let last = replies.len() - 1;
        lemma_twin_is_looked_for(f, front);
        lemma_prefix(replies, last);
        if run(f, front) is FindingTwin {
            if replies.last().0 == Reply::Twin(None) {
                assert(no_twin_at(f, replies, last));
            }
        } else if exists|k: int| #[trigger] no_twin_at(f, front, k) {
            let k = choose|k: int| #[trigger] no_twin_at(f, front, k);
            lemma_prefix(replies, k);
            assert(no_twin_at(f, replies, k));
        }
    }
}

/// Only an answer counts as one; anything else that comes back for a question
/// counts as its failure.
pub proof fn lemma_only_answers_count(answer: Answer, reply: Reply)
    ensures
        answer_of(Reply::Checked(answer)) == answer,
        !(reply is Checked) ==> answer_of(reply) is Failed,
{
}

/// A free slug is given out until the file's days are over.
pub proof fn lemma_free_slug_expires(received: Timestamp, days: i64)
    ensures
        free_reply(received, days) matches Some(Reply::SlugFree(expiry)) ==> expiry.nanos
            == received.nanos + days * 86_400_000_000_000,
        free_reply(received, days) is Some ==> free_reply(received, days)->Some_0 is SlugFree,
        free_reply(received, days) is Some <==> upload::expiry(received, days) is Some,
{
}

/// Nothing but what a step can come to leads on from it: any other reply ends
/// the intake as a failure does.
pub proof fn lemma_only_fitting_replies_lead_on(f: Facts, stage: Stage, reply: Reply, id: Seq<char>)
    requires
        match stage {
            Stage::FindingTwin => !(reply is Twin),
            Stage::NamingSlug { .. } => !(reply is SlugTaken) && !(reply is SlugFree),
            Stage::MakingFolder { .. } => !(reply is Done),
            Stage::Saving { .. } => !(reply is Done),
            Stage::Recording { .. } => !(reply is Done),
            _ => false,
        },
    ensures
        stage_after(f, stage, reply, id) == (Stage::Refused {
            status: Status::InternalServerError,
            body: http::error_body(Status::InternalServerError, "Something went wrong."@),
        }),
{
}

/// A random part is drawn exactly where a slug is tried next, as long as that
/// slug needs it, whatever was drawn.
pub proof fn lemma_when_a_part_is_drawn(f: Facts, stage: Stage, reply: Reply, id: Seq<char>)
    ensures
        wanted_len(f, stage, reply) is Some <==> stage_after(f, stage, reply, id) is NamingSlug,
        stage_after(f, stage, reply, id) matches Stage::NamingSlug { len, .. } ==> wanted_len(
            f,
            stage,
            reply,
        ) == Some(len),
{
}

/// Where an intake stands is told with the slug, the expiry, the link or the
/// page at hand.
pub proof fn lemma_where_an_intake_stands(
    next: usize,
    len: usize,
    tries: u32,
    slug: String,
    expiry: Timestamp,
    page: Page,
)
    ensures
        Phase::Checking(next)@ == (Stage::Checking { next: next as nat }),
        Phase::FindingTwin@ == Stage::FindingTwin,
        (Phase::NamingSlug { len, tries, slug })@ == (Stage::NamingSlug {
            len: len as nat,
            tries: tries as nat,
            slug: slug@,
        }),
        (Phase::MakingFolder { slug, expiry })@ == (Stage::MakingFolder { slug: slug@, expiry }),
        (Phase::Saving { slug, expiry })@ == (Stage::Saving { slug: slug@, expiry }),
        (Phase::Recording { slug, expiry })@ == (Stage::Recording { slug: slug@, expiry }),
        (Phase::Published { link: slug })@ == (Stage::Published { link: slug@ }),
        Phase::Refused(page)@ == (Stage::Refused { status: page.status, body: page.body@ }),
{
}

} // verus!
