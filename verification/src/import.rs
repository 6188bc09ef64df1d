//! Importing the files and the upload log of another file host.
//!
//! Every file found on disk goes through an `ImportFile`: the caller carries
//! out each step and reports the outcome. Log entries whose file is gone are
//! recorded as history.

use vstd::prelude::*;
use vstd::string::*;

use crate::ids;
use crate::ids::{draw_id, id_folder, uuid_to_path};
use crate::ip::IpAddr;
use crate::ip_text;
use crate::ip_text_laws;
use crate::media;
use crate::media::guess_by_path;
use crate::model::{NewUpload, NewUploadView};
use crate::text;
use crate::text::{copied, decimal_text, same_text};
use crate::timestamp;
use crate::timestamp::Timestamp;
use crate::upload;
use crate::upload::compute_expiry;
use crate::upload_log;
use crate::upload_log::{EntryView, LogEntry, LogTable};
use crate::util;
use crate::util::as_signed;

verus! {

/// What became of a file, a log entry or a stale record.
#[derive(Debug, Clone, Copy, PartialEq, Eq, Structural)]
pub enum Outcome {
    /// A record of a deleted upload whose file is there was purged.
    Reconciled,
    Imported,
    /// The slug is already in use.
    Skipped,
    Failed,
    /// A log entry without file was recorded as history.
    Archived,
    ArchiveSkipped,
    ArchiveFailed,
}

/// How often an outcome occurs.
pub open spec fn count_of(outcomes: Seq<Outcome>, kind: Outcome) -> nat
    decreases outcomes.len(),
{
    if outcomes.len() == 0 {
        0
    } else {
        count_of(outcomes.drop_last(), kind) + (if outcomes.last() == kind {
            1nat
        } else {
            0nat
        })
    }
}

/// Counts how often an outcome occurs.
pub fn count(outcomes: &Vec<Outcome>, kind: Outcome) -> (r: usize)
    ensures
        r == count_of(outcomes@, kind),
{
    let n: usize = outcomes.len();
    let mut c: usize = 0;
    for i in 0..n
        invariant
            n == outcomes@.len(),
            c <= i,
            c == count_of(outcomes@.take(i as int), kind),
    {
        assert(outcomes@.take(i + 1).drop_last() =~= outcomes@.take(i as int));
        if outcomes[i] == kind {
            c += 1;
        }
    }
    assert(outcomes@.take(n as int) =~= outcomes@);
    c
}

/// Every outcome is counted under exactly one heading.
pub proof fn lemma_every_outcome_counted(outcomes: Seq<Outcome>)
    ensures
        count_of(outcomes, Outcome::Reconciled) + count_of(outcomes, Outcome::Imported) + count_of(
            outcomes,
            Outcome::Skipped,
        ) + count_of(outcomes, Outcome::Failed) + count_of(outcomes, Outcome::Archived) + count_of(
            outcomes,
            Outcome::ArchiveSkipped,
        ) + count_of(outcomes, Outcome::ArchiveFailed) == outcomes.len(),
    decreases outcomes.len(),
{
    if outcomes.len() > 0 {
        lemma_every_outcome_counted(outcomes.drop_last());
    }
}

// ---------------------------------------------------------------- rows

/// The record of an imported upload. None where its expiry is no date.
pub open spec fn import_row(
    id: u128,
    slug: Seq<char>,
    name: Seq<char>,
    received: Timestamp,
    ip: Option<IpAddr>,
    size: u64,
    days: i64,
) -> Option<NewUploadView> {
    match upload::expiry(received, days) {
        Some(expiry) => Some(
            NewUploadView {
                id,
                slug,
                original_name: name,
                upload_timestamp: received,
                expiry_timestamp: expiry,
                file_size: util::wrapped(size),
                uploader_ip: ip,
                content_type: match media::path_mime(slug) {
                    Some(m) => Some(m.0),
                    None => None,
                },
                user_agent: None,
            },
        ),
        None => None,
    }
}

/// The view of an optional record.
pub open spec fn opt_row_view(row: Option<NewUpload>) -> Option<NewUploadView> {
    match row {
        Some(r) => Some(r@),
        None => None,
    }
}

/// The record of an imported upload. The media type is guessed from the slug.
pub fn draft_row(
    id: u128,
    slug: &str,
    name: &str,
    received: Timestamp,
    ip: Option<IpAddr>,
    size: u64,
    days: i64,
) -> (r: Option<NewUpload>)
    requires
        received.valid(),
    ensures
        opt_row_view(r) == import_row(id, slug@, name@, received, ip, size, days),
        r is Some <==> upload::expiry(received, days) is Some,
        r matches Some(row) ==> {
            &&& row.id == id
            &&& row.slug@ == slug@
            &&& row.original_name@ == name@
            &&& row.upload_timestamp == received
            &&& Some(row.expiry_timestamp) == upload::expiry(received, days)
            &&& row.file_size == util::wrapped(size)
            &&& row.uploader_ip == ip
            &&& row.user_agent is None
        },
{
    match compute_expiry(received, days) {
        Some(expiry) => {
            let content_type = match guess_by_path(slug) {
                Some(m) => Some(m.text),
                None => None,
            };
            Some(
                NewUpload {
                    id,
                    slug: slug.to_owned(),
                    original_name: name.to_owned(),
                    upload_timestamp: received,
                    expiry_timestamp: expiry,
                    file_size: as_signed(size),
                    uploader_ip: ip,
                    content_type,
                    user_agent: None,
                },
            )
        },
        None => None,
    }
}

fn copy_row(row: &NewUpload) -> (r: NewUpload)
    ensures
        r == *row,
{
    NewUpload {
        id: row.id,
        slug: row.slug.clone(),
        original_name: row.original_name.clone(),
        upload_timestamp: row.upload_timestamp,
        expiry_timestamp: row.expiry_timestamp,
        file_size: row.file_size,
        uploader_ip: row.uploader_ip,
        content_type: copied(&row.content_type),
        user_agent: copied(&row.user_agent),
    }
}

fn copy_entry(entry: &LogEntry) -> (r: LogEntry)
    ensures
        r == *entry,
{
    LogEntry {
        upload_timestamp: entry.upload_timestamp,
        uploader_ip: entry.uploader_ip,
        original_name: entry.original_name.clone(),
        file_size: entry.file_size,
    }
}

// ---------------------------------------------------------------- one file

/// Where the import of a file stands.
pub enum FileStage {
    /// The file's size is to be read.
    Measuring,
    /// The time of the file's last change is to be read.
    Dating { size: u64, days: i64 },
    /// The folder for the file is to be made.
    MakingFolder { row: NewUploadView },
    /// The file is to be moved into the store.
    Moving { row: NewUploadView },
    /// The upload is to be recorded.
    Recording { row: NewUploadView },
    /// The import has ended; the moved file is to be dropped or kept.
    Settled { outcome: Outcome, drop_file: bool },
}

/// The outcome of a step.
#[derive(Debug, Clone, Copy)]
pub enum Event {
    /// The size of the file and how many days files of that size are kept.
    Size { size: u64, days: i64 },
    /// The time of the last change.
    Modified(Timestamp),
    /// The step is done.
    Done,
    /// The upload was recorded, or its slug was found in use.
    Inserted(bool),
    /// The step failed.
    Failed,
}

/// What the import of a file depends on.
pub struct FileFacts {
    pub id: u128,
    pub slug: Seq<char>,
    pub entry: Option<EntryView>,
}

/// The import fails and leaves no moved file behind.
pub open spec fn failed() -> FileStage {
    FileStage::Settled { outcome: Outcome::Failed, drop_file: false }
}

/// The stage with a record at hand.
pub open spec fn with_row(row: Option<NewUploadView>) -> FileStage {
    match row {
        Some(r) => FileStage::MakingFolder { row: r },
        None => failed(),
    }
}

/// The stage that follows an event. What the log says of the slug goes before
/// what the file itself says.
pub open spec fn file_stage_after(f: FileFacts, stage: FileStage, event: Event) -> FileStage {
    match stage {
        FileStage::Measuring => match event {
            Event::Size { size, days } => match f.entry {
                Some(e) => with_row(
                    import_row(
                        f.id,
                        f.slug,
                        e.original_name,
                        e.upload_timestamp,
                        e.uploader_ip,
                        size,
                        days,
                    ),
                ),
                None => FileStage::Dating { size, days },
            },
            _ => failed(),
        },
        FileStage::Dating { size, days } => match event {
            Event::Modified(at) => with_row(
                import_row(f.id, f.slug, f.slug, at, None, size, days),
            ),
            _ => failed(),
        },
        FileStage::MakingFolder { row } => match event {
            Event::Done => FileStage::Moving { row },
            _ => failed(),
        },
        FileStage::Moving { row } => match event {
            Event::Done => FileStage::Recording { row },
            _ => failed(),
        },
        FileStage::Recording { row } => match event {
            Event::Inserted(true) => FileStage::Settled {
                outcome: Outcome::Imported,
                drop_file: false,
            },
            Event::Inserted(false) => FileStage::Settled {
                outcome: Outcome::Skipped,
                drop_file: true,
            },
            _ => FileStage::Settled { outcome: Outcome::Failed, drop_file: true },
        },
        FileStage::Settled { .. } => stage,
    }
}

/// Where the import of a file stands.
#[derive(Debug)]
pub enum FilePhase {
    Measuring,
    Dating { size: u64, days: i64 },
    MakingFolder(NewUpload),
    Moving(NewUpload),
    Recording(NewUpload),
    Settled { outcome: Outcome, drop_file: bool },
}

impl View for FilePhase {
    type V = FileStage;

    open spec fn view(&self) -> FileStage {
        match *self {
            FilePhase::Measuring => FileStage::Measuring,
            FilePhase::Dating { size, days } => FileStage::Dating { size, days },
            FilePhase::MakingFolder(row) => FileStage::MakingFolder { row: row@ },
            FilePhase::Moving(row) => FileStage::Moving { row: row@ },
            FilePhase::Recording(row) => FileStage::Recording { row: row@ },
            FilePhase::Settled { outcome, drop_file } => FileStage::Settled { outcome, drop_file },
        }
    }
}

/// The import of one file.
pub struct ImportFile {
    id: u128,
    slug: String,
    entry: Option<LogEntry>,
    phase: FilePhase,
}

fn phase_with(row: Option<NewUpload>) -> (r: FilePhase)
    ensures
        r@ == with_row(opt_row_view(row)),
{
    match row {
        Some(r) => FilePhase::MakingFolder(r),
        None => FilePhase::Settled { outcome: Outcome::Failed, drop_file: false },
    }
}

impl ImportFile {
    /// What the import depends on.
    pub closed spec fn facts(&self) -> FileFacts {
        FileFacts {
            id: self.id,
            slug: self.slug@,
            entry: match self.entry {
                Some(e) => Some(e@),
                None => None,
            },
        }
    }

    /// Where the import stands.
    pub closed spec fn stage(&self) -> FileStage {
        self.phase@
    }

    pub closed spec fn wf(&self) -> bool {
        self.entry matches Some(e) ==> e.upload_timestamp.valid()
    }

    /// Where the import stands.
    pub fn phase(&self) -> (r: &FilePhase)
        ensures
            r@ == self.stage(),
    {
        &self.phase
    }

    /// The folder for the file.
    pub fn folder(&self, store_path: &str) -> (r: String)
        ensures
            r@ == ids::store_folder(store_path@, self.facts().id),
    {
        id_folder(store_path, self.id)
    }

    /// The path for the file.
    pub fn dest(&self, store_path: &str) -> (r: String)
        ensures
            r@ == ids::store_path(store_path@, self.facts().id),
    {
        uuid_to_path(store_path, self.id)
    }

    /// Takes in the outcome of the step.
    pub fn advance(&mut self, event: Event)
        requires
            old(self).wf(),
            event matches Event::Modified(at) ==> at.valid(),
        ensures
            final(self).wf(),
            final(self).facts() == old(self).facts(),
            final(self).stage() == file_stage_after(old(self).facts(), old(self).stage(), event),
    {
        let next: Option<FilePhase> = match &self.phase {
            FilePhase::Measuring => match event {
                Event::Size { size, days } => match &self.entry {
                    Some(e) => Some(
                        phase_with(
                            draft_row(
                                self.id,
                                self.slug.as_str(),
                                e.original_name.as_str(),
                                e.upload_timestamp,
                                e.uploader_ip,
                                size,
                                days,
                            ),
                        ),
                    ),
                    None => Some(FilePhase::Dating { size, days }),
                },
                _ => Some(FilePhase::Settled { outcome: Outcome::Failed, drop_file: false }),
            },
            FilePhase::Dating { size, days } => match event {
                Event::Modified(at) => Some(
                    phase_with(
                        draft_row(
                            self.id,
                            self.slug.as_str(),
                            self.slug.as_str(),
                            at,
                            None,
                            *size,
                            *days,
                        ),
                    ),
                ),
                _ => Some(FilePhase::Settled { outcome: Outcome::Failed, drop_file: false }),
            },
            FilePhase::MakingFolder(row) => match event {
                Event::Done => Some(FilePhase::Moving(copy_row(row))),
                _ => Some(FilePhase::Settled { outcome: Outcome::Failed, drop_file: false }),
            },
            FilePhase::Moving(row) => match event {
                Event::Done => Some(FilePhase::Recording(copy_row(row))),
                _ => Some(FilePhase::Settled { outcome: Outcome::Failed, drop_file: false }),
            },
            FilePhase::Recording(_) => match event {
                Event::Inserted(true) => Some(
                    FilePhase::Settled { outcome: Outcome::Imported, drop_file: false },
                ),
                Event::Inserted(false) => Some(
                    FilePhase::Settled { outcome: Outcome::Skipped, drop_file: true },
                ),
                _ => Some(FilePhase::Settled { outcome: Outcome::Failed, drop_file: true }),
            },
            FilePhase::Settled { outcome: _, drop_file: _ } => None,
        };
        if let Some(phase) = next {
            self.phase = phase;
        }
    }
}

// ---------------------------------------------------------------- the whole

/// The numbers of the log rows whose slug was not seen on disk, in order.
pub open spec fn unseen(slugs: Seq<Seq<char>>, seen: Seq<Seq<char>>, n: nat) -> Seq<int>
    decreases n,
{
    if n == 0 {
        Seq::empty()
    } else {
        let before = unseen(slugs, seen, (n - 1) as nat);
        if seen.contains(slugs[n - 1]) {
            before
        } else {
            before.push(n - 1)
        }
    }
}

/// The size that a log entry gives, or else 0.
pub open spec fn size_of(e: EntryView) -> u64 {
    match e.file_size {
        Some(n) => n,
        None => 0,
    }
}

/// The row that the log entry with a number is recorded with as history.
pub open spec fn history_of(
    slugs: Seq<Seq<char>>,
    log: Map<Seq<char>, EntryView>,
    i: int,
    days: i64,
    id: u128,
) -> Option<NewUploadView> {
    let e = log[slugs[i]];
    import_row(
        id,
        slugs[i],
        e.original_name,
        e.upload_timestamp,
        e.uploader_ip,
        size_of(e),
        days,
    )
}

/// When an upload that is recorded as history counts as deleted: when it
/// would have expired.
pub open spec fn deletion_of(row: NewUploadView) -> Timestamp {
    row.expiry_timestamp
}

/// When an upload that is recorded as history counts as deleted.
pub fn history_deletion(row: &NewUpload) -> (r: Timestamp)
    ensures
        r == deletion_of(row@),
{
    row.expiry_timestamp
}

/// What came of recording a log entry as history.
pub fn archive_outcome(event: Event) -> (r: Outcome)
    ensures
        r == (match event {
            Event::Inserted(true) => Outcome::Archived,
            Event::Inserted(false) => Outcome::ArchiveSkipped,
            _ => Outcome::ArchiveFailed,
        }),
{
    match event {
        Event::Inserted(inserted) => if inserted {
            Outcome::Archived
        } else {
            Outcome::ArchiveSkipped
        },
        _ => Outcome::ArchiveFailed,
    }
}

/// A whole import.
pub struct Import {
    log: LogTable,
    seen: Vec<String>,
    outcomes: Vec<Outcome>,
}

impl Import {
    /// What the log says.
    pub closed spec fn log(&self) -> LogTable {
        self.log
    }

    /// The slugs of the files found on disk.
    pub closed spec fn seen(&self) -> Seq<Seq<char>> {
        self.seen.deep_view()
    }

    /// What became of everything handled so far.
    pub closed spec fn outcomes(&self) -> Seq<Outcome> {
        self.outcomes@
    }

    pub closed spec fn wf(&self) -> bool {
        self.log.wf()
    }

    /// An import with a log.
    pub fn new(log: LogTable) -> (r: Import)
        requires
            log.wf(),
        ensures
            r.wf(),
            r.log() == log,
            r.seen() == Seq::<Seq<char>>::empty(),
            r.outcomes() == Seq::<Outcome>::empty(),
    {
        let seen: Vec<String> = Vec::new();
        assert(seen.deep_view() =~= Seq::<Seq<char>>::empty());
        Import { log, seen, outcomes: Vec::new() }
    }

    /// Begins the import of a file found on disk, under a given id.
    pub fn begin_file_with(&mut self, slug: &str, id: u128) -> (r: ImportFile)
        requires
            old(self).wf(),
        ensures
            final(self).wf(),
            final(self).log() == old(self).log(),
            final(self).outcomes() == old(self).outcomes(),
            final(self).seen() == old(self).seen().push(slug@),
            r.wf(),
            r.stage() == FileStage::Measuring,
            r.facts() == (FileFacts {
                id,
                slug: slug@,
                entry: if old(self).log()@.dom().contains(slug@) {
                    Some(old(self).log()@[slug@])
                } else {
                    None
                },
            }),
    {
        let ghost before = self.seen.deep_view();
        let entry = match self.log.get(slug) {
            Some(e) => Some(copy_entry(e)),
            None => None,
        };
        let name = slug.to_owned();
        self.seen.push(name);
        assert(self.seen.deep_view() =~= before.push(slug@));
        ImportFile { id, slug: slug.to_owned(), entry, phase: FilePhase::Measuring }
    }

    /// Begins the import of a file found on disk, under a new id.
    pub fn begin_file(&mut self, slug: &str) -> (r: ImportFile)
        requires
            old(self).wf(),
        ensures
            final(self).wf(),
            final(self).log() == old(self).log(),
            final(self).outcomes() == old(self).outcomes(),
            final(self).seen() == old(self).seen().push(slug@),
            r.wf(),
            r.stage() == FileStage::Measuring,
            ids::is_random_id(r.facts().id),
            r.facts().slug == slug@,
            r.facts().entry == (if old(self).log()@.dom().contains(slug@) {
                Some(old(self).log()@[slug@])
            } else {
                None
            }),
    {
        let id = draw_id();
        self.begin_file_with(slug, id)
    }

    /// Notes what became of something.
    pub fn settle(&mut self, outcome: Outcome)
        requires
            old(self).wf(),
        ensures
            final(self).wf(),
            final(self).log() == old(self).log(),
            final(self).seen() == old(self).seen(),
            final(self).outcomes() == old(self).outcomes().push(outcome),
    {
        self.outcomes.push(outcome);
    }

    /// Decides on the record of a deleted upload, by whether a file stands
    /// under its slug: with one the record is stale, is to be purged, and is
    /// noted as such.
    pub fn reconcile(&mut self, present: bool) -> (r: bool)
        requires
            old(self).wf(),
        ensures
            r == present,
            final(self).wf(),
            final(self).log() == old(self).log(),
            final(self).seen() == old(self).seen(),
            final(self).outcomes() == (if present {
                old(self).outcomes().push(Outcome::Reconciled)
            } else {
                old(self).outcomes()
            }),
    {
        if present {
            self.outcomes.push(Outcome::Reconciled);
        }
        present
    }

    fn was_seen(&self, slug: &str) -> (r: bool)
        ensures
            r == self.seen().contains(slug@),
    {
        let n: usize = self.seen.len();
        assert(self.seen().len() == n);
        for i in 0..n
            invariant
                n == self.seen@.len(),
                self.seen().len() == n,
                forall|j: int| 0 <= j < i ==> self.seen()[j] != slug@,
        {
            assert(self.seen()[i as int] == self.seen@[i as int]@);
            if same_text(self.seen[i].as_str(), slug) {
                return true;
            }
        }
        false
    }

    /// The numbers of the log rows whose file is gone.
    pub fn missing(&self) -> (r: Vec<usize>)
        requires
            self.wf(),
        ensures
            r@.map_values(|i: usize| i as int) == unseen(
                self.log().slugs(),
                self.seen(),
                self.log().slugs().len(),
            ),
    {
        let n: usize = self.log.len();
        let mut out: Vec<usize> = Vec::new();
        assert(out@.map_values(|i: usize| i as int) =~= Seq::<int>::empty());
        for i in 0..n
            invariant
                self.wf(),
                n == self.log().slugs().len(),
                out@.map_values(|i: usize| i as int) == unseen(
                    self.log().slugs(),
                    self.seen(),
                    i as nat,
                ),
        {
            let ghost before = out@;
            let slug = self.log.row(i).slug.as_str();
            if !self.was_seen(slug) {
                out.push(i);
                assert(out@.map_values(|i: usize| i as int) =~= before.map_values(
                    |i: usize| i as int,
                ).push(i as int));
            }
        }
        out
    }

    /// The size to go by for a log row whose file is gone: what was logged, or
    /// else 0.
    pub fn history_size(&self, i: usize) -> (r: u64)
        requires
            self.wf(),
            i < self.log().slugs().len(),
        ensures
            r == size_of(self.log()@[self.log().slugs()[i as int]]),
    {
        match self.log.row(i).entry.file_size {
            Some(n) => n,
            None => 0,
        }
    }

    /// The row of a log entry whose file is gone.
    pub fn history_row(&self, i: usize, days: i64, id: u128) -> (r: Option<NewUpload>)
        requires
            self.wf(),
            i < self.log().slugs().len(),
        ensures
            opt_row_view(r) == history_of(self.log().slugs(), self.log()@, i as int, days, id),
            ({
                let slug = self.log().slugs()[i as int];
                let logged = self.log()@[slug];
                &&& r is Some <==> upload::expiry(logged.upload_timestamp, days) is Some
                &&& r matches Some(row) ==> {
                    &&& row.id == id
                    &&& row.slug@ == slug
                    &&& row.original_name@ == logged.original_name
                    &&& row.upload_timestamp == logged.upload_timestamp
                    &&& row.uploader_ip == logged.uploader_ip
                    &&& row.file_size == (match logged.file_size {
                        Some(n) => util::wrapped(n),
                        None => 0,
                    })
                    &&& Some(row.expiry_timestamp) == upload::expiry(
                        logged.upload_timestamp,
                        days,
                    )
                    &&& row.user_agent is None
                }
            }),
    {
        let size: u64 = self.history_size(i);
        let row = self.log.row(i);
        draft_row(
            id,
            row.slug.as_str(),
            row.entry.original_name.as_str(),
            row.entry.upload_timestamp,
            row.entry.uploader_ip,
            size,
            days,
        )
    }

    /// The closing line of the import.
    pub fn summary(&self) -> (r: String)
        ensures
            r@ == summary_text(self.outcomes()),
    {
        let mut out = "Done: ".to_owned();
        let reconciled = decimal_text(count(&self.outcomes, Outcome::Reconciled) as u64);
        out.append(reconciled.as_str());
        out.append(" bogus historical entries reconciled, ");
        let imported = decimal_text(count(&self.outcomes, Outcome::Imported) as u64);
        out.append(imported.as_str());
        out.append(" imported, ");
        let skipped = decimal_text(count(&self.outcomes, Outcome::Skipped) as u64);
        out.append(skipped.as_str());
        out.append(" skipped, ");
        let errors = decimal_text(count(&self.outcomes, Outcome::Failed) as u64);
        out.append(errors.as_str());
        out.append(" errors, ");
        let archived = decimal_text(count(&self.outcomes, Outcome::Archived) as u64);
        out.append(archived.as_str());
        out.append(" historical entries imported (");
        let left = decimal_text(count(&self.outcomes, Outcome::ArchiveSkipped) as u64);
        out.append(left.as_str());
        out.append(" skipped, ");
        let broken = decimal_text(count(&self.outcomes, Outcome::ArchiveFailed) as u64);
        out.append(broken.as_str());
        out.append(" errors).");
        out
    }
}

/// The closing line of an import.
pub open spec fn summary_text(outcomes: Seq<Outcome>) -> Seq<char> {
    "Done: "@ + text::decimal(count_of(outcomes, Outcome::Reconciled))
        + " bogus historical entries reconciled, "@ + text::decimal(
        count_of(outcomes, Outcome::Imported),
    ) + " imported, "@ + text::decimal(count_of(outcomes, Outcome::Skipped)) + " skipped, "@
        + text::decimal(count_of(outcomes, Outcome::Failed)) + " errors, "@ + text::decimal(
        count_of(outcomes, Outcome::Archived),
    ) + " historical entries imported ("@ + text::decimal(
        count_of(outcomes, Outcome::ArchiveSkipped),
    ) + " skipped, "@ + text::decimal(count_of(outcomes, Outcome::ArchiveFailed)) + " errors)."@
}

/// The store and the records agree: an import ends well exactly where the
/// upload was recorded, and otherwise the file that was moved into the store
/// is dropped from it.
pub proof fn lemma_store_matches_records(f: FileFacts, stage: FileStage, event: Event)
    requires
        !(stage is Settled),
    ensures
        file_stage_after(f, stage, event) matches FileStage::Settled { outcome, drop_file } ==> {
            &&& outcome == Outcome::Imported <==> stage is Recording && event
                == Event::Inserted(true)
            &&& drop_file <==> stage is Recording && outcome != Outcome::Imported
        },
{
}

/// The rows that are recorded as history are exactly those whose file was
/// not found.
pub proof fn lemma_unseen(slugs: Seq<Seq<char>>, seen: Seq<Seq<char>>, n: nat, i: int)
    requires
        n <= slugs.len(),
    ensures
        unseen(slugs, seen, n).contains(i) <==> 0 <= i < n && !seen.contains(slugs[i]),
    decreases n,
{
    if n > 0 {
        let before = unseen(slugs, seen, (n - 1) as nat);
        lemma_unseen(slugs, seen, (n - 1) as nat, i);
        if !seen.contains(slugs[n - 1]) {
            let all = before.push(n - 1);
            if before.contains(i) {
                let k = choose|k: int| 0 <= k < before.len() && before[k] == i;
                assert(all[k] == i);
            }
            if i == n - 1 {
                assert(all[before.len() as int] == i);
            }
            if all.contains(i) {
                let k = choose|k: int| 0 <= k < all.len() && all[k] == i;
                if k < before.len() {
                    assert(before[k] == i);
                }
            }
        }
    }
}

// ---------------------------------------------------------------- laws

/// History keeps what was logged: the record of a log line whose file is gone
/// carries the address in the second field of that line, the size in its
/// third, the name in its fourth without quotes, the slug in its fifth and the
/// time in its first, and expires so many days after that time.
pub proof fn lemma_history_keeps_what_was_logged(
    lines: Seq<Seq<u8>>,
    i: int,
    time: Seq<char>,
    address: Seq<char>,
    size: Seq<char>,
    name: Seq<char>,
    slug: Seq<char>,
    slugs: Seq<Seq<char>>,
    k: int,
    days: i64,
    id: u128,
    row: NewUpload,
)
    requires
        0 <= i < lines.len(),
        text::lossy_utf8(upload_log::chomped(lines[i])) == upload_log::written_line(
            time,
            address,
            size,
            name,
            slug,
        ),
        upload_log::loggable(time) && upload_log::loggable(address) && upload_log::loggable(size)
            && upload_log::loggable(name),
        name.len() > 0 ==> name[0] != '\'' && name.last() != '\'',
        timestamp::rfc3339_parts(time) is Some,
        forall|j: int|
            i < j < lines.len() ==> (match #[trigger] upload_log::line_row(lines[j]) {
                Some((other, _)) => other != slug,
                None => true,
            }),
        0 <= k < slugs.len(),
        slugs[k] == slug,
        opt_row_view(Some(row)) == history_of(slugs, upload_log::log_map(lines), k, days, id),
    ensures
        row.uploader_ip == ip_text::ip_value(address),
        row.original_name@ == name,
        row.slug@ == slug,
        row.upload_timestamp.nanos == timestamp::rfc3339_parts(time)->Some_0.0,
        row.file_size == (match text::u64_value(size) {
            Some(n) => util::wrapped(n),
            None => 0,
        }),
        row.expiry_timestamp.nanos == row.upload_timestamp.nanos + days * 86_400_000_000_000,
        row.id == id,
        row.user_agent is None,
        forall|ip: IpAddr| address == #[trigger] ip_text::ip_text(ip) ==> row.uploader_ip
            == Some(ip),
        forall|n: u64|
            size == #[trigger] text::decimal(n as nat) && n <= 0x7fff_ffff_ffff_ffff
                ==> row.file_size == n,
{
    upload_log::lemma_line_says_its_fields(lines[i], time, address, size, name, slug);
    let entry = upload_log::line_row(lines[i])->Some_0.1;
    upload_log::lemma_last_line_wins(lines, i, slug, entry);
    assert(row@.uploader_ip == row.uploader_ip);
    assert forall|ip: IpAddr| address == #[trigger] ip_text::ip_text(ip) implies row.uploader_ip
        == Some(ip) by {
        ip_text_laws::lemma_address_round_trip(ip);
    }
    assert forall|n: u64|
        size == #[trigger] text::decimal(n as nat) && n
            <= 0x7fff_ffff_ffff_ffff implies row.file_size == n by {
        assert(text::zeros(0) + text::decimal(n as nat) =~= size);
        text::lemma_number_texts(size, n);
    }
}

/// A record that is kept as history has the address of the log, or none where
/// none was logged: two entries that differ in it give records that differ in
/// it.
pub proof fn lemma_history_tells_uploaders_apart(
    slugs: Seq<Seq<char>>,
    a: Map<Seq<char>, EntryView>,
    b: Map<Seq<char>, EntryView>,
    i: int,
    days: i64,
    id: u128,
)
    requires
        history_of(slugs, a, i, days, id) is Some,
        history_of(slugs, a, i, days, id) == history_of(slugs, b, i, days, id),
    ensures
        a[slugs[i]].uploader_ip == b[slugs[i]].uploader_ip,
        a[slugs[i]].original_name == b[slugs[i]].original_name,
        a[slugs[i]].upload_timestamp == b[slugs[i]].upload_timestamp,
{
}

/// The record of an imported file holds the values it was made from; its media
/// type is the one guessed from the slug, and it expires so many days after it
/// was received. There is none exactly where that is no date.
pub proof fn lemma_import_row_holds_its_values(
    id: u128,
    slug: Seq<char>,
    name: Seq<char>,
    received: Timestamp,
    ip: Option<IpAddr>,
    size: u64,
    days: i64,
)
    ensures
        import_row(id, slug, name, received, ip, size, days) is Some <==> upload::expiry(
            received,
            days,
        ) is Some,
        import_row(id, slug, name, received, ip, size, days) matches Some(row) ==> {
            &&& row.id == id
            &&& row.slug == slug
            &&& row.original_name == name
            &&& row.upload_timestamp == received
            &&& row.expiry_timestamp.nanos == received.nanos + days * 86_400_000_000_000
            &&& row.uploader_ip == ip
            &&& size <= 0x7fff_ffff_ffff_ffff ==> row.file_size == size
            &&& row.user_agent is None
            &&& row.content_type is Some <==> media::path_mime(slug) is Some
            &&& media::path_mime(slug) matches Some(m) ==> row.content_type == Some(m.0)
        },
{
}

/// What the log says of a file goes before what the disk says: a logged file
/// is recorded with its logged name, time and address; only its size is that
/// on disk.
pub proof fn lemma_logged_file_is_recorded_as_logged(f: FileFacts, entry: EntryView, size: u64, days: i64)
    requires
        f.entry == Some(entry),
    ensures
        (match file_stage_after(f, FileStage::Measuring, Event::Size { size, days }) {
            FileStage::MakingFolder { row } => {
                &&& row.id == f.id
                &&& row.slug == f.slug
                &&& row.original_name == entry.original_name
                &&& row.upload_timestamp == entry.upload_timestamp
                &&& row.uploader_ip == entry.uploader_ip
                &&& row.expiry_timestamp.nanos == entry.upload_timestamp.nanos + days
                    * 86_400_000_000_000
                &&& size <= 0x7fff_ffff_ffff_ffff ==> row.file_size == size
            },
            FileStage::Settled { outcome, drop_file } => upload::expiry(
                entry.upload_timestamp,
                days,
            ) is None && outcome == Outcome::Failed && !drop_file,
            _ => false,
        }),
{
}

/// A file that the log does not speak of is recorded under its own name, with
/// the time of its last change and without an address.
pub proof fn lemma_unlogged_file_is_recorded_as_found(
    f: FileFacts,
    size: u64,
    days: i64,
    modified: Timestamp,
)
    requires
        f.entry is None,
        upload::expiry(modified, days) is Some,
    ensures
        ({
            let dating = file_stage_after(f, FileStage::Measuring, Event::Size { size, days });
            file_stage_after(f, dating, Event::Modified(modified)) matches FileStage::MakingFolder {
                row,
            } && {
                &&& row.id == f.id
                &&& row.slug == f.slug
                &&& row.original_name == f.slug
                &&& row.upload_timestamp == modified
                &&& row.uploader_ip is None
                &&& row.expiry_timestamp.nanos == modified.nanos + days * 86_400_000_000_000
                &&& size <= 0x7fff_ffff_ffff_ffff ==> row.file_size == size
            }
        }),
{
}

/// The record that was made of a file is the one that is inserted: the steps
/// in between change nothing in it, and a step that fails ends the import with
/// an error and nothing to drop.
pub proof fn lemma_record_is_carried(f: FileFacts, row: NewUploadView, event: Event)
    ensures
        file_stage_after(f, FileStage::MakingFolder { row }, event) == (if event is Done {
            FileStage::Moving { row }
        } else {
            FileStage::Settled { outcome: Outcome::Failed, drop_file: false }
        }),
        file_stage_after(f, FileStage::Moving { row }, event) == (if event is Done {
            FileStage::Recording { row }
        } else {
            FileStage::Settled { outcome: Outcome::Failed, drop_file: false }
        }),
        !(event is Size) ==> file_stage_after(f, FileStage::Measuring, event)
            == (FileStage::Settled { outcome: Outcome::Failed, drop_file: false }),
{
}

/// A file whose slug is in use is skipped, one whose record failed is an
/// error, and either is dropped from the store; an import that has ended stays
/// as it is.
pub proof fn lemma_recording_decides(
    f: FileFacts,
    row: NewUploadView,
    event: Event,
    outcome: Outcome,
    drop_file: bool,
)
    ensures
        file_stage_after(f, FileStage::Recording { row }, Event::Inserted(true))
            == (FileStage::Settled { outcome: Outcome::Imported, drop_file: false }),
        file_stage_after(f, FileStage::Recording { row }, Event::Inserted(false))
            == (FileStage::Settled { outcome: Outcome::Skipped, drop_file: true }),
        !(event is Inserted) ==> file_stage_after(f, FileStage::Recording { row }, event)
            == (FileStage::Settled { outcome: Outcome::Failed, drop_file: true }),
        file_stage_after(f, FileStage::Settled { outcome, drop_file }, event)
            == (FileStage::Settled { outcome, drop_file }),
{
}

/// An upload that is kept as history counts as deleted when it would have
/// expired.
pub proof fn lemma_history_ends_with_its_time(row: NewUpload)
    ensures
        deletion_of(row@) == row.expiry_timestamp,
{
}

/// One more outcome adds one to its own count and to no other.
pub proof fn lemma_each_outcome_counts_once(outcomes: Seq<Outcome>, one: Outcome, kind: Outcome)
    ensures
        count_of(Seq::empty(), kind) == 0,
        count_of(outcomes.push(one), kind) == count_of(outcomes, kind) + (if one == kind {
            1nat
        } else {
            0nat
        }),
{
    assert(outcomes.push(one).drop_last() =~= outcomes);
}

/// The log rows that are kept as history come in the order of the log, each
/// once.
pub proof fn lemma_unseen_in_order(
    slugs: Seq<Seq<char>>,
    seen: Seq<Seq<char>>,
    n: nat,
    a: int,
    b: int,
)
    requires
        n <= slugs.len(),
        0 <= a < b < unseen(slugs, seen, n).len(),
    ensures
        0 <= unseen(slugs, seen, n)[a] < unseen(slugs, seen, n)[b] < n,
    decreases n,
{
    if n > 0 {
        let m = (n - 1) as nat;
        let before = unseen(slugs, seen, m);
        if b < before.len() {
            lemma_unseen_in_order(slugs, seen, m, a, b);
        } else {
            lemma_unseen(slugs, seen, m, before[a]);
            assert(before.contains(before[a]));
        }
    }
}

/// The closing line tells the seven counts in this order.
pub proof fn lemma_summary_tells_the_counts(outcomes: Seq<Outcome>)
    ensures
        summary_text(outcomes) == "Done: "@ + text::decimal(
            count_of(outcomes, Outcome::Reconciled),
        ) + " bogus historical entries reconciled, "@ + text::decimal(
            count_of(outcomes, Outcome::Imported),
        ) + " imported, "@ + text::decimal(count_of(outcomes, Outcome::Skipped)) + " skipped, "@
            + text::decimal(count_of(outcomes, Outcome::Failed)) + " errors, "@ + text::decimal(
            count_of(outcomes, Outcome::Archived),
        ) + " historical entries imported ("@ + text::decimal(
            count_of(outcomes, Outcome::ArchiveSkipped),
        ) + " skipped, "@ + text::decimal(count_of(outcomes, Outcome::ArchiveFailed))
            + " errors)."@,
{
}

/// A log entry without a size counts as empty, and any other as its size; the
/// view of a record that is there is that of the record.
pub proof fn lemma_logged_sizes(e: EntryView, row: NewUpload)
    ensures
        e.file_size is None ==> size_of(e) == 0,
        e.file_size matches Some(n) ==> size_of(e) == n,
        opt_row_view(Some(row)) == Some(row@),
        opt_row_view(None) is None,
{
}

/// Where an import stands is told with the record at hand.
pub proof fn lemma_where_an_import_stands(
    row: NewUpload,
    size: u64,
    days: i64,
    outcome: Outcome,
    drop_file: bool,
)
    ensures
        FilePhase::Measuring@ == FileStage::Measuring,
        (FilePhase::Dating { size, days })@ == (FileStage::Dating { size, days }),
        FilePhase::MakingFolder(row)@ == (FileStage::MakingFolder { row: row@ }),
        FilePhase::Moving(row)@ == (FileStage::Moving { row: row@ }),
        FilePhase::Recording(row)@ == (FileStage::Recording { row: row@ }),
        (FilePhase::Settled { outcome, drop_file })@ == (FileStage::Settled { outcome, drop_file }),
{
}

} // verus!
