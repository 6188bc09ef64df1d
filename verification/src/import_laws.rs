//! What a whole import leaves in the uploads table.
//!
//! The table is a sequence of records. A new record is refused where the
//! check of `db::slug_check_sql` finds one in its way.

use vstd::prelude::*;

use crate::import;
use crate::import::{Event, FileFacts, FileStage};
use crate::model::NewUploadView;
use crate::timestamp::Timestamp;
use crate::upload_log::EntryView;

verus! {

/// A record of the uploads table.
pub struct Record {
    pub row: NewUploadView,
    pub deleted: Option<Timestamp>,
}

/// The records of a slug, in the order of the table.
pub open spec fn records_of(table: Seq<Record>, slug: Seq<char>) -> Seq<Record>
    decreases table.len(),
{
    if table.len() == 0 {
        Seq::empty()
    } else {
        let before = records_of(table.drop_last(), slug);
        if table.last().row.slug == slug {
            before.push(table.last())
        } else {
            before
        }
    }
}

/// A record in the way of a live one: it is live, or its time is not up.
pub open spec fn stands(record: Record, now: Timestamp) -> bool {
    record.deleted matches Some(at) ==> at.nanos > now.nanos
}

/// A live record of the slug would be refused.
pub open spec fn live_refused(table: Seq<Record>, slug: Seq<char>, now: Timestamp) -> bool {
    exists|i: int|
        0 <= i < records_of(table, slug).len() && #[trigger] stands(records_of(table, slug)[i], now)
}

/// A historical record of the slug would be refused.
pub open spec fn history_refused(table: Seq<Record>, slug: Seq<char>) -> bool {
    records_of(table, slug).len() > 0
}

/// The table after an attempt to record a live upload.
pub open spec fn with_live(table: Seq<Record>, row: NewUploadView, now: Timestamp) -> Seq<Record> {
    if live_refused(table, row.slug, now) {
        table
    } else {
        table.push(Record { row, deleted: None })
    }
}

/// The historical record of an upload: deleted when it would have expired.
pub open spec fn history_record(row: NewUploadView) -> Record {
    Record { row, deleted: Some(import::deletion_of(row)) }
}

/// The table after an attempt to record an upload as history.
pub open spec fn with_history(table: Seq<Record>, row: NewUploadView) -> Seq<Record> {
    if history_refused(table, row.slug) {
        table
    } else {
        table.push(history_record(row))
    }
}

/// The table without the records of deleted uploads whose file is there.
pub open spec fn purged(table: Seq<Record>, present: Seq<Seq<char>>) -> Seq<Record>
    decreases table.len(),
{
    if table.len() == 0 {
        Seq::empty()
    } else {
        let before = purged(table.drop_last(), present);
        let last = table.last();
        if last.deleted is Some && present.contains(last.row.slug) {
            before
        } else {
            before.push(last)
        }
    }
}

/// A file found on disk: what its import depends on, what the disk says of
/// it, and when its upload is recorded.
pub struct Found {
    pub facts: FileFacts,
    pub size: u64,
    pub days: i64,
    pub modified: Timestamp,
    pub now: Timestamp,
}

/// The names of the files found on disk.
pub open spec fn names_of(files: Seq<Found>) -> Seq<Seq<char>> {
    files.map_values(|f: Found| f.facts.slug)
}

/// Where the import of a file stands once it was measured, dated and moved
/// without an error.
pub open spec fn moved(f: Found) -> FileStage {
    let measured = import::file_stage_after(
        f.facts,
        FileStage::Measuring,
        Event::Size { size: f.size, days: f.days },
    );
    let dated = if measured is Dating {
        import::file_stage_after(f.facts, measured, Event::Modified(f.modified))
    } else {
        measured
    };
    import::file_stage_after(
        f.facts,
        import::file_stage_after(f.facts, dated, Event::Done),
        Event::Done,
    )
}

/// The table after the import of one file.
pub open spec fn with_file(table: Seq<Record>, f: Found) -> Seq<Record> {
    match moved(f) {
        FileStage::Recording { row } => with_live(table, row, f.now),
        _ => table,
    }
}

/// The table after the import of a row of files.
pub open spec fn with_files(table: Seq<Record>, files: Seq<Found>) -> Seq<Record>
    decreases files.len(),
{
    if files.len() == 0 {
        table
    } else {
        with_file(with_files(table, files.drop_last()), files.last())
    }
}

/// A log as an import goes through it: its slugs in order, what it says of
/// them, and the id and the days kept for each.
pub struct Log {
    pub slugs: Seq<Seq<char>>,
    pub entries: Map<Seq<char>, EntryView>,
    pub ids: Seq<u128>,
    pub days: Seq<i64>,
}

/// The row that a log entry without file is recorded with.
pub open spec fn log_row(log: Log, i: int) -> Option<NewUploadView> {
    import::history_of(log.slugs, log.entries, i, log.days[i], log.ids[i])
}

/// The table after the log entries with these numbers were recorded as
/// history.
pub open spec fn with_entries(table: Seq<Record>, log: Log, which: Seq<int>) -> Seq<Record>
    decreases which.len(),
{
    if which.len() == 0 {
        table
    } else {
        let before = with_entries(table, log, which.drop_last());
        match log_row(log, which.last()) {
            Some(row) => with_history(before, row),
            None => before,
        }
    }
}

/// The table after a whole import: stale records are purged, then the files
/// are imported, then the log entries without file become history.
pub open spec fn imported(table: Seq<Record>, files: Seq<Found>, log: Log) -> Seq<Record> {
    with_entries(
        with_files(purged(table, names_of(files)), files),
        log,
        import::unseen(log.slugs, names_of(files), log.slugs.len()),
    )
}

/// The record is live.
pub open spec fn is_live(record: Record) -> bool {
    record.deleted is None
}

/// The live ones among some records.
pub open spec fn live_ones(records: Seq<Record>) -> Seq<Record>
    decreases records.len(),
{
    if records.len() == 0 {
        Seq::empty()
    } else {
        let before = live_ones(records.drop_last());
        if is_live(records.last()) {
            before.push(records.last())
        } else {
            before
        }
    }
}

/// No slug has two live records.
pub open spec fn one_live_each(table: Seq<Record>) -> bool {
    forall|slug: Seq<char>| (#[trigger] live_ones(records_of(table, slug))).len() <= 1
}

/// The records are one live record.
pub open spec fn single_live(records: Seq<Record>) -> bool {
    records.len() == 1 && is_live(records[0])
}

/// The row is the one that the import of a file with that name records.
pub open spec fn from_file(files: Seq<Found>, slug: Seq<char>, row: NewUploadView) -> bool {
    exists|k: int|
        0 <= k < files.len() && (#[trigger] files[k]).facts.slug == slug && moved(files[k])
            == (FileStage::Recording { row })
}

// ---------------------------------------------------------------- steps

proof fn lemma_push(table: Seq<Record>, record: Record, slug: Seq<char>)
    ensures
        records_of(table.push(record), slug) == (if record.row.slug == slug {
            records_of(table, slug).push(record)
        } else {
            records_of(table, slug)
        }),
{
    assert(table.push(record).drop_last() =~= table);
}

proof fn lemma_live_ones_live(records: Seq<Record>)
    ensures
        forall|i: int|
            0 <= i < live_ones(records).len() ==> is_live(#[trigger] live_ones(records)[i]),
    decreases records.len(),
{
    if records.len() > 0 {
        let front = live_ones(records.drop_last());
        lemma_live_ones_live(records.drop_last());
        assert forall|i: int| 0 <= i < live_ones(records).len() implies is_live(
            #[trigger] live_ones(records)[i],
        ) by {
            if i < front.len() {
                assert(is_live(front[i]));
            }
        }
    }
}

proof fn lemma_live_push(records: Seq<Record>, record: Record)
    ensures
        live_ones(records.push(record)) == (if is_live(record) {
            live_ones(records).push(record)
        } else {
            live_ones(records)
        }),
{
    assert(records.push(record).drop_last() =~= records);
}

proof fn lemma_purged(table: Seq<Record>, present: Seq<Seq<char>>, slug: Seq<char>)
    ensures
        records_of(purged(table, present), slug) == (if present.contains(slug) {
            live_ones(records_of(table, slug))
        } else {
            records_of(table, slug)
        }),
    decreases table.len(),
{
    if table.len() > 0 {
        let last = table.last();
        let front = table.drop_last();
        lemma_purged(front, present, slug);
        lemma_push(purged(front, present), last, slug);
        lemma_live_push(records_of(front, slug), last);
    }
}

proof fn lemma_file(table: Seq<Record>, f: Found, slug: Seq<char>)
    ensures
        slug != f.facts.slug ==> records_of(with_file(table, f), slug) == records_of(table, slug),
        moved(f) matches FileStage::Recording { row } ==> row.slug == f.facts.slug,
        single_live(records_of(table, f.facts.slug)) ==> with_file(table, f) == table,
        moved(f) is Recording && records_of(table, f.facts.slug).len() == 0 ==> {
            &&& single_live(records_of(with_file(table, f), f.facts.slug))
            &&& records_of(with_file(table, f), f.facts.slug)[0].row == moved(f)->Recording_row
        },
{
    match moved(f) {
        FileStage::Recording { row } => {
            let record = Record { row, deleted: None };
            assert(row.slug == f.facts.slug);
            lemma_push(table, record, slug);
            lemma_push(table, record, f.facts.slug);
            if single_live(records_of(table, f.facts.slug)) {
                assert(stands(records_of(table, row.slug)[0], f.now));
            }
        },
        _ => {},
    }
}

proof fn lemma_files(table: Seq<Record>, files: Seq<Found>, slug: Seq<char>)
    requires
        names_of(files).contains(slug) ==> single_live(records_of(table, slug)) || records_of(
            table,
            slug,
        ).len() == 0,
        forall|i: int| 0 <= i < files.len() ==> moved(#[trigger] files[i]) is Recording,
    ensures
        !names_of(files).contains(slug) ==> records_of(with_files(table, files), slug)
            == records_of(table, slug),
        names_of(files).contains(slug) ==> single_live(records_of(with_files(table, files), slug)),
        single_live(records_of(table, slug)) ==> records_of(with_files(table, files), slug)
            == records_of(table, slug),
        names_of(files).contains(slug) && records_of(table, slug).len() == 0 ==> from_file(
            files,
            slug,
            records_of(with_files(table, files), slug)[0].row,
        ),
    decreases files.len(),
{
    if files.len() > 0 {
        let front = files.drop_last();
        let f = files.last();
        assert(names_of(files) =~= names_of(front).push(f.facts.slug));
        assert(names_of(front).contains(slug) ==> names_of(files).contains(slug)) by {
            if names_of(front).contains(slug) {
                let k = names_of(front).index_of(slug);
                assert(names_of(files)[k] == slug);
            }
        }
        assert(names_of(files)[files.len() - 1] == f.facts.slug);
        assert(names_of(files).contains(slug) ==> names_of(front).contains(slug) || f.facts.slug
            == slug) by {
            if names_of(files).contains(slug) {
                let k = names_of(files).index_of(slug);
                if k < front.len() {
                    assert(names_of(front)[k] == slug);
                }
            }
        }
        lemma_files(table, front, slug);
        lemma_file(with_files(table, front), f, slug);
        if names_of(files).contains(slug) && records_of(table, slug).len() == 0 {
            let row = records_of(with_files(table, files), slug)[0].row;
            if names_of(front).contains(slug) {
                let k = choose|k: int|
                    0 <= k < front.len() && (#[trigger] front[k]).facts.slug == slug && moved(
                        front[k],
                    ) == (FileStage::Recording { row });
                assert(files[k] == front[k]);
            } else {
                assert(files[files.len() - 1] == f);
                assert(moved(files[files.len() - 1]) is Recording);
            }
            assert(from_file(files, slug, row));
        }
    }
}

proof fn lemma_with_history(table: Seq<Record>, row: NewUploadView, slug: Seq<char>)
    ensures
        slug != row.slug ==> records_of(with_history(table, row), slug) == records_of(table, slug),
        records_of(table, slug).len() > 0 ==> records_of(with_history(table, row), slug)
            == records_of(table, slug),
        slug == row.slug && records_of(table, slug).len() == 0 ==> records_of(
            with_history(table, row),
            slug,
        ) == seq![history_record(row)],
{
    lemma_push(table, history_record(row), slug);
    if records_of(table, slug).len() == 0 {
        assert(records_of(table, slug).push(history_record(row)) =~= seq![history_record(row)]);
    }
}

/// The log speaks of the slug among its first `n` entries.
pub open spec fn logged(log: Log, n: nat, slug: Seq<char>) -> bool {
    exists|i: int| 0 <= i < n && #[trigger] log.slugs[i] == slug
}

/// Every entry of the log can be recorded: its expiry is a date.
pub open spec fn recordable(log: Log) -> bool {
    forall|i: int| 0 <= i < log.slugs.len() ==> (#[trigger] log_row(log, i)) is Some
}

proof fn lemma_entries(
    table: Seq<Record>,
    log: Log,
    seen: Seq<Seq<char>>,
    n: nat,
    slug: Seq<char>,
)
    requires
        n <= log.slugs.len(),
        recordable(log),
        log.slugs.no_duplicates(),
    ensures
        ({
            let after = with_entries(table, log, import::unseen(log.slugs, seen, n));
            let fresh = records_of(table, slug).len() == 0 && !seen.contains(slug);
            &&& !fresh ==> records_of(after, slug) == records_of(table, slug)
            &&& !logged(log, n, slug) ==> records_of(after, slug) == records_of(table, slug)
            &&& forall|i: int|
                0 <= i < n && #[trigger] log.slugs[i] == slug && fresh ==> records_of(after, slug)
                    == seq![history_record(log_row(log, i)->Some_0)]
        }),
    decreases n,
{
    if n > 0 {
        let m = (n - 1) as nat;
        lemma_entries(table, log, seen, m, slug);
        let before = import::unseen(log.slugs, seen, m);
        let last = log.slugs[n - 1];
        assert(logged(log, m, slug) ==> logged(log, n, slug));
        assert(last == slug ==> logged(log, n, slug));
        assert(last == slug ==> !logged(log, m, slug));
        if !seen.contains(last) {
            assert(before.push(n - 1).drop_last() =~= before);
            assert(log_row(log, n - 1) is Some);
            let row = log_row(log, n - 1)->Some_0;
            assert(row.slug == last);
            lemma_with_history(with_entries(table, log, before), row, slug);
        }
        assert forall|i: int|
            0 <= i < n && #[trigger] log.slugs[i] == slug && records_of(table, slug).len() == 0
                && !seen.contains(slug) implies records_of(
            with_entries(table, log, import::unseen(log.slugs, seen, n)),
            slug,
        ) == seq![history_record(log_row(log, i)->Some_0)] by {
            if i < n - 1 {
                assert(log.slugs[i] == slug);
                assert(last != slug);
            }
        }
    }
}

// ---------------------------------------------------------------- laws

/// What the table holds after a whole import without an error. Every file
/// found on disk has exactly one record, and it is live: the one that was
/// there, or the one of its import. A log entry whose file is gone and that
/// had no record gets one historical record, deleted when it would have
/// expired. Nothing else changes.
pub proof fn lemma_table_after_import(
    table: Seq<Record>,
    files: Seq<Found>,
    log: Log,
    slug: Seq<char>,
)
    requires
        one_live_each(table),
        forall|i: int| 0 <= i < files.len() ==> moved(#[trigger] files[i]) is Recording,
        recordable(log),
        log.slugs.no_duplicates(),
    ensures
        ({
            let before = records_of(table, slug);
            let after = records_of(imported(table, files, log), slug);
            let on_disk = names_of(files).contains(slug);
            &&& on_disk ==> single_live(after)
            &&& on_disk && live_ones(before).len() == 1 ==> after == live_ones(before)
            &&& on_disk && live_ones(before).len() == 0 ==> from_file(files, slug, after[0].row)
            &&& !on_disk && (before.len() > 0 || !logged(log, log.slugs.len(), slug)) ==> after
                == before
            &&& forall|i: int|
                0 <= i < log.slugs.len() && #[trigger] log.slugs[i] == slug && !on_disk
                    && before.len() == 0 ==> after == seq![
                    history_record(log_row(log, i)->Some_0),
                ]
        }),
{
    let names = names_of(files);
    let clean = purged(table, names);
    lemma_purged(table, names, slug);
    lemma_live_ones_live(records_of(table, slug));
    assert(live_ones(records_of(table, slug)).len() <= 1);
    if live_ones(records_of(table, slug)).len() == 1 {
        assert(is_live(live_ones(records_of(table, slug))[0]));
    }
    lemma_files(clean, files, slug);
    lemma_entries(with_files(clean, files), log, names, log.slugs.len(), slug);
}

proof fn lemma_nothing_to_purge(table: Seq<Record>, present: Seq<Seq<char>>)
    requires
        forall|slug: Seq<char>| #[trigger]
            present.contains(slug) ==> live_ones(records_of(table, slug)) == records_of(table, slug),
    ensures
        purged(table, present) == table,
    decreases table.len(),
{
    if table.len() > 0 {
        let front = table.drop_last();
        let last = table.last();
        assert forall|slug: Seq<char>| #[trigger] present.contains(slug) implies live_ones(
            records_of(front, slug),
        ) == records_of(front, slug) by {
            assert(front.push(last) =~= table);
            lemma_push(front, last, slug);
            lemma_live_push(records_of(front, slug), last);
            lemma_live_count(records_of(front, slug));
            if last.row.slug == slug {
                let a = live_ones(records_of(table, slug));
                assert(a.drop_last() =~= records_of(front, slug));
                if is_live(last) {
                    assert(a.drop_last() =~= live_ones(records_of(front, slug)));
                }
            }
        }
        lemma_nothing_to_purge(front, present);
        if present.contains(last.row.slug) {
            assert(front.push(last) =~= table);
            lemma_push(front, last, last.row.slug);
            lemma_live_push(records_of(front, last.row.slug), last);
            lemma_live_count(records_of(front, last.row.slug));
        }
        assert(front.push(last) =~= table);
    }
}

proof fn lemma_live_count(records: Seq<Record>)
    ensures
        live_ones(records).len() <= records.len(),
    decreases records.len(),
{
    if records.len() > 0 {
        lemma_live_count(records.drop_last());
    }
}

proof fn lemma_files_refused(table: Seq<Record>, files: Seq<Found>)
    requires
        forall|i: int|
            0 <= i < files.len() ==> single_live(
                records_of(table, (#[trigger] files[i]).facts.slug),
            ),
    ensures
        with_files(table, files) == table,
    decreases files.len(),
{
    if files.len() > 0 {
        lemma_files_refused(table, files.drop_last());
        assert(single_live(records_of(table, files[files.len() - 1].facts.slug)));
        lemma_file(table, files.last(), files.last().facts.slug);
    }
}

proof fn lemma_entries_refused(table: Seq<Record>, log: Log, seen: Seq<Seq<char>>, n: nat)
    requires
        n <= log.slugs.len(),
        forall|i: int|
            0 <= i < log.slugs.len() ==> records_of(table, #[trigger] log.slugs[i]).len() > 0,
    ensures
        with_entries(table, log, import::unseen(log.slugs, seen, n)) == table,
    decreases n,
{
    if n > 0 {
        lemma_entries_refused(table, log, seen, (n - 1) as nat);
        let before = import::unseen(log.slugs, seen, (n - 1) as nat);
        assert(before.push(n - 1).drop_last() =~= before);
        assert(records_of(table, log.slugs[n - 1]).len() > 0);
    }
}

/// An import is idempotent: a second one with the same log changes nothing in
/// the table, whether the files of the first are gone from the folder or some
/// of them are there again.
pub proof fn lemma_second_import_changes_nothing(
    table: Seq<Record>,
    files: Seq<Found>,
    log: Log,
    again: Seq<Found>,
    log_again: Log,
)
    requires
        one_live_each(table),
        forall|i: int| 0 <= i < files.len() ==> moved(#[trigger] files[i]) is Recording,
        recordable(log),
        log.slugs.no_duplicates(),
        log_again.slugs == log.slugs,
        forall|i: int|
            0 <= i < again.len() ==> names_of(files).contains((#[trigger] again[i]).facts.slug),
    ensures
        imported(imported(table, files, log), again, log_again) == imported(table, files, log),
{
    let after = imported(table, files, log);
    let names = names_of(again);
    assert forall|slug: Seq<char>| #[trigger] names.contains(slug) implies live_ones(
        records_of(after, slug),
    ) == records_of(after, slug) by {
        let k = names.index_of(slug);
        assert(again[k].facts.slug == slug);
        lemma_table_after_import(table, files, log, slug);
        let one = records_of(after, slug);
        assert(one.drop_last() =~= Seq::<Record>::empty());
        assert(live_ones(one.drop_last()) =~= Seq::<Record>::empty());
        assert(live_ones(one) =~= one);
    }
    lemma_nothing_to_purge(after, names);
    assert forall|i: int| 0 <= i < again.len() implies single_live(
        records_of(after, (#[trigger] again[i]).facts.slug),
    ) by {
        lemma_table_after_import(table, files, log, again[i].facts.slug);
    }
    lemma_files_refused(after, again);
    assert forall|i: int| 0 <= i < log_again.slugs.len() implies records_of(
        after,
        #[trigger] log_again.slugs[i],
    ).len() > 0 by {
        assert(log.slugs[i] == log_again.slugs[i]);
        lemma_table_after_import(table, files, log, log.slugs[i]);
    }
    lemma_entries_refused(after, log_again, names, log_again.slugs.len());
}

proof fn lemma_file_keeps(table: Seq<Record>, f: Found, slug: Seq<char>)
    ensures
        records_of(table, slug).len() <= records_of(with_file(table, f), slug).len(),
        moved(f) is Recording ==> records_of(with_file(table, f), f.facts.slug).len() > 0,
{
    match moved(f) {
        FileStage::Recording { row } => {
            let record = Record { row, deleted: None };
            assert(row.slug == f.facts.slug);
            lemma_push(table, record, slug);
            lemma_push(table, record, f.facts.slug);
        },
        _ => {},
    }
}

proof fn lemma_files_keep(table: Seq<Record>, files: Seq<Found>, slug: Seq<char>)
    requires
        forall|i: int| 0 <= i < files.len() ==> moved(#[trigger] files[i]) is Recording,
    ensures
        records_of(table, slug).len() <= records_of(with_files(table, files), slug).len(),
        names_of(files).contains(slug) ==> records_of(with_files(table, files), slug).len() > 0,
    decreases files.len(),
{
    if files.len() > 0 {
        let front = files.drop_last();
        let f = files.last();
        lemma_files_keep(table, front, slug);
        lemma_file_keeps(with_files(table, front), f, slug);
        assert(moved(files[files.len() - 1]) is Recording);
        if names_of(files).contains(slug) {
            let k = names_of(files).index_of(slug);
            if k < front.len() {
                assert(names_of(front)[k] == slug);
            }
        }
    }
}

proof fn lemma_entries_keep(
    table: Seq<Record>,
    log: Log,
    seen: Seq<Seq<char>>,
    n: nat,
    slug: Seq<char>,
)
    requires
        n <= log.slugs.len(),
        recordable(log),
    ensures
        ({
            let after = with_entries(table, log, import::unseen(log.slugs, seen, n));
            &&& records_of(table, slug).len() <= records_of(after, slug).len()
            &&& logged(log, n, slug) && !seen.contains(slug) ==> records_of(after, slug).len() > 0
        }),
    decreases n,
{
    if n > 0 {
        let m = (n - 1) as nat;
        lemma_entries_keep(table, log, seen, m, slug);
        let before = import::unseen(log.slugs, seen, m);
        assert(before.push(n - 1).drop_last() =~= before);
        assert(log_row(log, n - 1) is Some);
        let row = log_row(log, n - 1)->Some_0;
        assert(row.slug == log.slugs[n - 1]);
        lemma_push(with_entries(table, log, before), history_record(row), slug);
        if logged(log, n, slug) && log.slugs[n - 1] != slug {
            let i = choose|i: int| 0 <= i < n && #[trigger] log.slugs[i] == slug;
            assert(0 <= i < m && log.slugs[i] == slug);
        }
    }
}

/// A second import that finds no file left changes nothing in the table,
/// whatever the table held before the first one and however often the log
/// speaks of a slug.
pub proof fn lemma_import_of_an_emptied_folder(
    table: Seq<Record>,
    files: Seq<Found>,
    log: Log,
    log_again: Log,
)
    requires
        forall|i: int| 0 <= i < files.len() ==> moved(#[trigger] files[i]) is Recording,
        recordable(log),
        log_again.slugs == log.slugs,
    ensures
        imported(imported(table, files, log), Seq::empty(), log_again) == imported(
            table,
            files,
            log,
        ),
{
    let names = names_of(files);
    let stored = with_files(purged(table, names), files);
    let after = imported(table, files, log);
    let none = names_of(Seq::<Found>::empty());
    assert forall|slug: Seq<char>| #[trigger] none.contains(slug) implies live_ones(
        records_of(after, slug),
    ) == records_of(after, slug) by {}
    lemma_nothing_to_purge(after, none);
    assert forall|i: int| 0 <= i < log_again.slugs.len() implies records_of(
        after,
        #[trigger] log_again.slugs[i],
    ).len() > 0 by {
        let slug = log.slugs[i];
        assert(logged(log, log.slugs.len(), slug));
        lemma_files_keep(purged(table, names), files, slug);
        lemma_entries_keep(stored, log, names, log.slugs.len(), slug);
    }
    lemma_entries_refused(after, log_again, none, log_again.slugs.len());
}

} // verus!
