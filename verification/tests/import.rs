use filehost::import::{
    archive_outcome, count, draft_row, history_deletion, Event, FilePhase, Import, ImportFile, Outcome,
};
use filehost::ip_text::parse_ip;
use filehost::timestamp::Timestamp;
use filehost::upload_log::{parse_line, parse_log, read_fields, LogTable};
use filehost::util::parse_rfc3339;

const STORE: &str = "store/";
const ID: u128 = 0x550e8400_e29b_41d4_a716_446655440000;

fn mtime() -> Timestamp {
    parse_rfc3339("2026-06-06T14:30:45Z").unwrap()
}

fn run(f: &mut ImportFile, inserted: bool) -> Outcome {
    f.advance(Event::Size { size: 5, days: 180 });
    if matches!(f.phase(), FilePhase::Dating { .. }) {
        f.advance(Event::Modified(mtime()));
    }
    assert!(matches!(f.phase(), FilePhase::MakingFolder(_)));
    f.advance(Event::Done);
    assert!(matches!(f.phase(), FilePhase::Moving(_)));
    f.advance(Event::Done);
    assert!(matches!(f.phase(), FilePhase::Recording(_)));
    f.advance(Event::Inserted(inserted));
    match f.phase() {
        FilePhase::Settled { outcome, drop_file } => {
            assert_eq!(*drop_file, !inserted);
            *outcome
        }
        _ => panic!(),
    }
}

#[test]
fn import_php_imports_file() {
    let mut import = Import::new(LogTable::new());
    let mut f = import.begin_file_with("abc123.txt", ID);
    assert_eq!(f.folder(STORE), "store/550e");
    assert_eq!(f.dest(STORE), "store/550e/550e8400-e29b-41d4-a716-446655440000");
    f.advance(Event::Size { size: 5, days: 180 });
    f.advance(Event::Modified(mtime()));
    match f.phase() {
        FilePhase::MakingFolder(row) => {
            assert_eq!(row.id, ID);
            assert_eq!(row.slug, "abc123.txt");
            assert_eq!(row.original_name, "abc123.txt"); // falls back to slug
            assert_eq!(row.uploader_ip, None);
            assert_eq!(row.upload_timestamp, mtime());
            assert_eq!(row.expiry_timestamp.nanos, mtime().nanos + 180 * 86_400_000_000_000);
            assert_eq!(row.file_size, 5);
            assert_eq!(row.content_type, Some("text/plain".to_string()));
            assert_eq!(row.user_agent, None);
        }
        _ => panic!(),
    }
}

#[test]
fn import_php_uses_log() {
    let log = parse_log(
        b"2026-06-06T14:30:45+00:00\t10.0.0.1\t5\t'original name.txt'\tabc123.txt\n",
    );
    let mut import = Import::new(log);
    let mut f = import.begin_file("abc123.txt");
    f.advance(Event::Size { size: 5, days: 1 });
    match f.phase() {
        FilePhase::MakingFolder(row) => {
            assert_eq!(row.original_name, "original name.txt");
            assert_eq!(row.uploader_ip, parse_ip("10.0.0.1"));
            assert_eq!(row.upload_timestamp, mtime());
        }
        _ => panic!(),
    }
}

#[test]
fn import_php_log_uses_last_occurrence() {
    let log = parse_log(
        b"2026-01-01T00:00:00+00:00\t1.1.1.1\t5\t'old.txt'\tabc123.txt\n\
          2026-06-06T14:30:45+00:00\t10.0.0.1\t5\t'new.txt'\tabc123.txt\n",
    );
    assert_eq!(log.len(), 1);
    assert_eq!(log.get("abc123.txt").unwrap().original_name, "new.txt");
    assert_eq!(log.row(0).slug, "abc123.txt");
}

#[test]
fn import_php_is_idempotent() {
    let mut import = Import::new(LogTable::new());
    let mut f = import.begin_file("abc123.txt");
    let first = run(&mut f, true);
    import.settle(first);
    let mut f = import.begin_file("abc123.txt");
    let second = run(&mut f, false);
    import.settle(second);
    assert_eq!((first, second), (Outcome::Imported, Outcome::Skipped));
    assert_eq!(
        import.summary(),
        "Done: 0 bogus historical entries reconciled, 1 imported, 1 skipped, 0 errors, \
         0 historical entries imported (0 skipped, 0 errors)."
    );
}

#[test]
fn log_lines() {
    let row = parse_line(b"2026-06-06T14:30:45+02:00\t::1\t+7\t''a'b''\ts\tl\tug\r\n\r").unwrap();
    assert_eq!(row.slug, "s\tl\tug");
    assert_eq!(row.entry.original_name, "a'b");
    assert_eq!(row.entry.file_size, Some(7));
    assert_eq!(row.entry.uploader_ip, parse_ip("::1"));
    // the offset is left out
    assert_eq!(row.entry.upload_timestamp, mtime());
    let row = parse_line(b"2026-06-06T14:30:45Z\tnobody\t\t\xff\tslug").unwrap();
    assert_eq!(row.entry.original_name, "\u{fffd}");
    assert_eq!(row.entry.file_size, None);
    assert_eq!(row.entry.uploader_ip, None);
    assert!(parse_line(b"2026-06-06T14:30:45Z\t1.1.1.1\t5\t'x'").is_none());
    assert!(parse_line(b"yesterday\t1.1.1.1\t5\t'x'\tslug").is_none());
    assert!(parse_line(b"").is_none());
    let fields: Vec<String> = ["t", "1.1.1.1", "5", "'x'", "s"].map(String::from).to_vec();
    assert_eq!(read_fields(&fields, Some(mtime())).unwrap().slug, "s");
    assert!(read_fields(&fields, None).is_none());
}

#[test]
fn damaged_lines_do_not_lose_the_others() {
    let log = parse_log(
        b"garbage\n2026-06-06T14:30:45Z\t1.1.1.1\t5\t'x'\ta\n\n\
          2026-06-06T14:30:45Z\t1.1.1.1\t\t'y'\tb",
    );
    assert_eq!(log.len(), 2);
    assert!(log.get("a").is_some());
    assert_eq!(log.get("b").unwrap().file_size, None);
    assert!(log.get("c").is_none());
    assert_eq!(parse_log(b"").len(), 0);
}

#[test]
fn entries_without_file_become_history() {
    let log = parse_log(
        b"2026-06-06T14:30:45Z\t1.1.1.1\t5\t'x'\ta.png\n\
          2026-06-06T14:30:45Z\t1.1.1.2\t\t'y'\tb\n\
          2026-06-06T14:30:45Z\t1.1.1.3\t9\t'z'\tc\n",
    );
    let mut import = Import::new(log);
    let _ = import.begin_file("b");
    assert_eq!(import.missing(), vec![0, 2]);
    assert_eq!(import.history_size(0), 5);
    assert_eq!(import.history_size(1), 0);
    let row = import.history_row(0, 2, ID).unwrap();
    assert_eq!(row.slug, "a.png");
    assert_eq!(row.original_name, "x");
    assert_eq!(row.file_size, 5);
    assert_eq!(row.content_type, Some("image/png".to_string()));
    assert_eq!(row.expiry_timestamp.nanos, mtime().nanos + 2 * 86_400_000_000_000);
    for o in [
        Outcome::Reconciled,
        Outcome::Archived,
        Outcome::ArchiveSkipped,
        Outcome::ArchiveSkipped,
        Outcome::ArchiveFailed,
        Outcome::Failed,
    ] {
        import.settle(o);
    }
    assert_eq!(
        import.summary(),
        "Done: 1 bogus historical entries reconciled, 0 imported, 0 skipped, 1 errors, \
         1 historical entries imported (2 skipped, 1 errors)."
    );
}

fn outcome(events: &[Event]) -> (Outcome, bool) {
    let mut import = Import::new(LogTable::new());
    let mut f = import.begin_file("x");
    for e in events {
        f.advance(*e);
    }
    match f.phase() {
        FilePhase::Settled { outcome, drop_file } => (*outcome, *drop_file),
        _ => panic!(),
    }
}

#[test]
fn failed_steps_are_errors() {
    let size = Event::Size { size: 1, days: 1 };
    let date = Event::Modified(mtime());
    let failed = (Outcome::Failed, false);
    assert_eq!(outcome(&[Event::Failed]), failed);
    assert_eq!(outcome(&[size, Event::Failed]), failed);
    assert_eq!(outcome(&[size, date, Event::Failed]), failed);
    assert_eq!(outcome(&[size, date, Event::Done, Event::Failed]), failed);
    assert_eq!(
        outcome(&[size, date, Event::Done, Event::Done, Event::Failed]),
        (Outcome::Failed, true)
    );
    assert_eq!(outcome(&[Event::Size { size: 1, days: i64::MAX }, date]), failed);
}

#[test]
fn outcomes_are_counted() {
    let all = vec![Outcome::Failed, Outcome::Imported, Outcome::Failed];
    assert_eq!(count(&all, Outcome::Failed), 2);
    assert_eq!(count(&all, Outcome::Imported), 1);
    assert_eq!(count(&all, Outcome::Skipped), 0);
    let row = draft_row(1, "s", "n", mtime(), None, u64::MAX, 0).unwrap();
    assert_eq!(row.file_size, -1);
    assert_eq!(row.content_type, None);
}

/// A slug, when its record was deleted, and its size.
type Record = (String, Option<Timestamp>, i64);

const LOG: &[u8] = b"2026-06-06T14:30:45Z\t1.1.1.1\t5\t'x'\tgone\n\
    2026-06-06T14:30:45Z\t1.1.1.2\t\t'y'\there\n\
    2026-06-06T14:30:45Z\t1.1.1.3\t9\t'z'\tkept\n";

fn whole_import(table: &mut Vec<Record>, files: &[&str]) {
    let mut import = Import::new(parse_log(LOG));
    let stale: Vec<bool> = table
        .iter()
        .map(|r| r.1.is_some() && import.reconcile(files.contains(&r.0.as_str())))
        .collect();
    let mut i = 0;
    table.retain(|_| {
        i += 1;
        !stale[i - 1]
    });
    let now = mtime();
    for name in files {
        let mut f = import.begin_file(name);
        let refused = table
            .iter()
            .any(|r| r.0 == *name && r.1.map_or(true, |at| at.nanos > now.nanos));
        let outcome = run(&mut f, !refused);
        if outcome == Outcome::Imported {
            table.push((name.to_string(), None, 5));
        }
        import.settle(outcome);
    }
    for i in import.missing() {
        let row = import.history_row(i, 2, ID).unwrap();
        let refused = table.iter().any(|r| r.0 == row.slug);
        if !refused {
            let deleted = history_deletion(&row);
            assert_eq!(deleted, row.expiry_timestamp);
            table.push((row.slug, Some(deleted), row.file_size));
        }
        import.settle(archive_outcome(Event::Inserted(!refused)));
    }
}

#[test]
fn a_whole_import_and_a_second_one() {
    let long_ago = Some(Timestamp { nanos: 0 });
    let mut table: Vec<Record> = vec![
        ("here".to_string(), long_ago, 1),
        ("kept".to_string(), long_ago, 2),
        ("live".to_string(), None, 3),
    ];
    whole_import(&mut table, &["here", "live", "new"]);
    let expiry = Some(Timestamp { nanos: mtime().nanos + 2 * 86_400_000_000_000 });
    assert_eq!(
        table,
        vec![
            ("kept".to_string(), long_ago, 2),
            ("live".to_string(), None, 3),
            ("here".to_string(), None, 5),
            ("new".to_string(), None, 5),
            ("gone".to_string(), expiry, 5),
        ]
    );
    let after = table.clone();
    whole_import(&mut table, &[]);
    assert_eq!(table, after);
    whole_import(&mut table, &["new", "here", "live"]);
    assert_eq!(table, after);
}

#[test]
fn an_emptied_folder_changes_nothing() {
    let long_ago = Some(Timestamp { nanos: 0 });
    let mut table: Vec<Record> = vec![
        ("here".to_string(), None, 1),
        ("here".to_string(), None, 2),
        ("kept".to_string(), long_ago, 3),
        ("kept".to_string(), None, 4),
    ];
    whole_import(&mut table, &["new", "new", "here"]);
    assert_eq!(table.len(), 6);
    let after = table.clone();
    whole_import(&mut table, &[]);
    assert_eq!(table, after);
}

#[test]
fn stale_records_are_noted() {
    let mut import = Import::new(LogTable::new());
    assert!(import.reconcile(true));
    assert!(!import.reconcile(false));
    assert!(import.summary().starts_with("Done: 1 bogus"));
    assert_eq!(archive_outcome(Event::Inserted(true)), Outcome::Archived);
    assert_eq!(archive_outcome(Event::Inserted(false)), Outcome::ArchiveSkipped);
    assert_eq!(archive_outcome(Event::Failed), Outcome::ArchiveFailed);
}
