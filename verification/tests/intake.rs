use filehost::handlers::{download, Disposition};
use filehost::http::Status;
use filehost::intake::{
    choose_declared, content_type_for_db, determine_content_type, slug_free, slug_free_at, Intake,
    Phase, Received, Reply,
};
use filehost::ip::IpAddr;
use filehost::ip_text::parse_ip;
use filehost::media::MimeType;
use filehost::model::Upload;
use filehost::screening::{request_checks, Answer, Check, Screening};
use filehost::settings::Settings;
use filehost::timestamp::Timestamp;

fn settings(dedup: bool) -> Settings {
    Settings {
        name: "Test".to_string(),
        base_url: "http://localhost:8080/".to_string(),
        store_path: "files/".to_string(),
        min_id_length: 3,
        max_id_length: 24,
        max_ext_len: 7,
        auto_file_ext: false,
        trust_xff: false,
        dedup,
        max_uploads_per_day: None,
        max_bytes_per_day: None,
        admin_token: None,
        clamd_addr: None,
    }
}

fn mime(t: &str, k: &str, s: &str) -> MimeType {
    MimeType { text: t.to_string(), kind: k.to_string(), subtype: s.to_string() }
}

fn file() -> Received {
    Received {
        file_name: Some("hello.txt".to_string()),
        content_type: Some(mime("text/plain", "text", "plain")),
        detected: Some(mime("image/png", "image", "png")),
        size: 14,
        hash: vec![1, 2, 3],
        uploader_ip: parse_ip("1.2.3.4"),
        user_agent: Some("ua".to_string()),
        id_len: 3,
        keep_name: false,
    }
}

const CLEAR: Reply = Reply::Checked(Answer::Banned(false));
const ID: u128 = 0x550e8400_e29b_41d4_a716_446655440000;

fn question(i: &Intake) -> String {
    match i.question() {
        Some(Check::Extension(e)) => format!("ext {e}"),
        Some(Check::Mime(m)) => format!("mime {m}"),
        Some(Check::Hash(h)) => format!("hash {h:?}"),
        Some(c) => format!("{c:?}"),
        None => "none".to_string(),
    }
}

#[test]
fn a_file_is_screened_named_stored_and_recorded() {
    let mut i = Intake::begin_with(file(), &settings(true), ID);
    assert_eq!(question(&i), "ext txt");
    i.advance_with(&CLEAR, "");
    assert_eq!(question(&i), "mime text/plain");
    i.advance_with(&CLEAR, "");
    assert_eq!(question(&i), "mime image/png");
    i.advance_with(&CLEAR, "");
    assert_eq!(question(&i), "hash [1, 2, 3]");
    i.advance_with(&CLEAR, "");
    assert_eq!(question(&i), "none");
    assert!(matches!(i.phase(), Phase::FindingTwin));
    i.advance_with(&Reply::Twin(None), "abc");
    match i.phase() {
        Phase::NamingSlug { len, tries, slug } => {
            assert_eq!((*len, *tries, slug.as_str()), (3, 1, "abc.txt"));
        }
        _ => panic!(),
    }
    let expiry = Timestamp { nanos: 77 };
    i.advance_with(&Reply::SlugFree(expiry), "");
    assert!(matches!(i.phase(), Phase::MakingFolder { .. }));
    assert_eq!(i.folder(), "files/550e");
    assert_eq!(i.path(), "files/550e/550e8400-e29b-41d4-a716-446655440000");
    assert!(i.row().is_none());
    i.advance_with(&Reply::Done, "");
    assert!(matches!(i.phase(), Phase::Saving { .. }));
    i.advance_with(&Reply::Done, "");
    let row = i.row().unwrap();
    assert_eq!(row.id, ID);
    assert_eq!(row.original_name, "hello.txt");
    assert_eq!(row.expiry, expiry);
    assert_eq!(row.slug, "abc.txt");
    assert_eq!(row.file_size, 14);
    assert_eq!(row.hash, vec![1, 2, 3]);
    assert_eq!(row.uploader_ip, Some(IpAddr::V4(0x0102_0304)));
    assert_eq!(row.content_type, "image/png");
    assert_eq!(row.user_agent, Some("ua".to_string()));
    i.advance_with(&Reply::Done, "");
    match i.phase() {
        Phase::Published { link } => assert_eq!(link, "http://localhost:8080/abc.txt"),
        _ => panic!(),
    }
    i.advance_with(&Reply::Failed, "");
    assert!(matches!(i.phase(), Phase::Published { .. }));
}

#[test]
fn what_was_stored_is_served() {
    let mut i = Intake::begin_with(file(), &settings(false), ID);
    for _ in 0..4 {
        i.advance_with(&CLEAR, "abc");
    }
    let at = Timestamp { nanos: 7 };
    i.advance_with(&Reply::SlugFree(at), "");
    i.advance_with(&Reply::Done, "");
    i.advance_with(&Reply::Done, "");
    let row = i.row().unwrap();
    let d = download(
        "files/",
        &Upload {
            id: row.id,
            upload_timestamp: Timestamp { nanos: 1 },
            expiry_timestamp: row.expiry,
            deleted_timestamp: None,
            original_name: row.original_name,
            slug: row.slug,
            file_size: row.file_size,
            hash: Some(row.hash),
            uploader_ip: None,
            content_type: Some(row.content_type),
            user_agent: row.user_agent,
        },
    );
    assert_eq!(d.path, i.path());
    assert_eq!(d.file_name, "hello.txt");
    assert_eq!(d.serving.mime.text, "image/png");
    assert_eq!(d.serving.disposition, Disposition::Inline);
}

#[test]
fn slugs_grow_after_three_attempts() {
    let mut f = file();
    f.file_name = None;
    f.content_type = None;
    f.detected = None;
    let mut i = Intake::begin_with(f, &settings(false), ID);
    assert_eq!(question(&i), "hash [1, 2, 3]");
    i.advance(&CLEAR);
    for expected in [(3, 1), (3, 2), (3, 3), (4, 1), (4, 2), (4, 3), (5, 1)] {
        match i.phase() {
            Phase::NamingSlug { len, tries, slug } => {
                assert_eq!((*len, *tries), expected);
                assert_eq!(slug.len(), expected.0);
                assert!(slug.chars().all(|c| c.is_ascii_alphanumeric()));
            }
            _ => panic!(),
        }
        i.advance(&Reply::SlugTaken);
    }
}

#[test]
fn a_stored_twin_is_linked() {
    let mut i = Intake::begin(file(), &settings(true));
    for _ in 0..4 {
        i.advance(&CLEAR);
    }
    i.advance(&Reply::Twin(Some("a b".to_string())));
    match i.phase() {
        Phase::Published { link } => assert_eq!(link, "http://localhost:8080/a%20b"),
        _ => panic!(),
    }
}

fn refused(i: &Intake) -> (Status, String) {
    match i.phase() {
        Phase::Refused(p) => (p.status, p.body.clone()),
        _ => panic!(),
    }
}

#[test]
fn banned_files_are_refused() {
    let mut i = Intake::begin(file(), &settings(true));
    i.advance(&Reply::Checked(Answer::Banned(true)));
    assert_eq!(
        refused(&i),
        (Status::Forbidden, "403 Forbidden File type not allowed.".to_string())
    );
    i.advance(&CLEAR);
    assert_eq!(refused(&i).0, Status::Forbidden);
    for n in 1..4 {
        let mut i = Intake::begin(file(), &settings(true));
        for _ in 0..n {
            i.advance(&CLEAR);
        }
        i.advance(&Reply::Checked(Answer::Banned(true)));
        assert_eq!(
            refused(&i),
            (Status::Forbidden, "403 Forbidden Your upload was rejected.".to_string())
        );
    }
}

#[test]
fn failures_are_internal_errors() {
    for n in 0..8 {
        let mut i = Intake::begin(file(), &settings(true));
        for k in 0..n {
            match k {
                0..=3 => i.advance(&CLEAR),
                4 => i.advance(&Reply::Twin(None)),
                5 => i.advance(&Reply::SlugFree(Timestamp { nanos: 1 })),
                _ => i.advance(&Reply::Done),
            }
        }
        i.advance(&Reply::Failed);
        assert_eq!(
            refused(&i),
            (
                Status::InternalServerError,
                "500 Internal Server Error Something went wrong.".to_string()
            )
        );
    }
}

#[test]
fn declared_types() {
    let octets = mime("application/octet-stream", "application", "octet-stream");
    let html = mime("text/html", "text", "html");
    assert_eq!(
        determine_content_type(Some(&html), "x.png"),
        ("text/html".to_string(), Some("html".to_string()))
    );
    assert_eq!(
        determine_content_type(Some(&octets), "x.png"),
        ("image/png".to_string(), Some("png".to_string()))
    );
    assert_eq!(
        determine_content_type(None, "x.PNG"),
        ("image/png".to_string(), Some("png".to_string()))
    );
    assert_eq!(
        determine_content_type(None, "x"),
        ("application/octet-stream".to_string(), None)
    );
    assert_eq!(
        choose_declared(Some(&octets), None),
        ("application/octet-stream".to_string(), None)
    );
}

#[test]
fn recorded_types() {
    let octets = mime("application/octet-stream", "application", "octet-stream");
    let plain = mime("text/plain", "text", "plain");
    let png = mime("image/png", "image", "png");
    assert_eq!(content_type_for_db(Some(&png), "text/html"), "image/png");
    assert_eq!(content_type_for_db(Some(&plain), "text/html"), "text/html");
    assert_eq!(content_type_for_db(Some(&octets), "text/html"), "text/html");
    assert_eq!(content_type_for_db(Some(&plain), "application/octet-stream"), "text/plain");
    assert_eq!(content_type_for_db(None, "application/octet-stream"), "application/octet-stream");
}

#[test]
fn xff_used_when_trust_xff_enabled() {
    let ip = filehost::upload::extract_ip(Some("1.2.3.4"), parse_ip("127.0.0.1"), true);
    let mut s = Screening::new(request_checks(ip, None, None, None));
    assert!(matches!(s.ask(), Some(Check::Ip(IpAddr::V4(0x0102_0304)))));
    let page = s.answer(Answer::Banned(true)).unwrap();
    assert_eq!(page.status.code(), 403);
    assert_eq!(page.body, "403 Forbidden Your IP is banned from uploading.");
}

#[test]
fn xff_ignored_when_trust_xff_disabled() {
    let ip = filehost::upload::extract_ip(Some("1.2.3.4"), parse_ip("127.0.0.1"), false);
    let mut s = Screening::new(request_checks(ip, None, None, None));
    assert!(matches!(s.ask(), Some(Check::Ip(IpAddr::V4(0x7f00_0001)))));
    assert!(s.answer(Answer::Banned(false)).is_none());
    assert!(s.ask().is_none());
}

#[test]
fn requests_are_asked_about_in_order() {
    let ip = parse_ip("1.2.3.4");
    let checks = request_checks(ip, Some("curl"), Some(5), Some(100));
    assert_eq!(checks.len(), 4);
    let mut s = Screening::new(checks);
    assert!(matches!(s.ask(), Some(Check::Ip(_))));
    assert!(s.answer(Answer::Banned(false)).is_none());
    assert!(matches!(s.ask(), Some(Check::UserAgent(_))));
    assert!(s.answer(Answer::Banned(false)).is_none());
    assert!(matches!(s.ask(), Some(Check::UploadCount(_, 5))));
    assert!(s.answer(Answer::Amount(4)).is_none());
    assert!(matches!(s.ask(), Some(Check::ByteCount(_, 100))));
    let page = s.answer(Answer::Amount(100)).unwrap();
    assert_eq!(page.body, "429 Too Many Requests Daily byte quota reached.");
    assert!(s.answer(Answer::Amount(99)).is_none());
    assert!(s.ask().is_none());
    assert_eq!(request_checks(None, None, Some(5), Some(5)).len(), 0);
    assert_eq!(request_checks(ip, None, None, Some(5)).len(), 2);
}

#[test]
fn refusals_of_requests() {
    let ip = IpAddr::V4(1);
    let body = |c: Check, a: Answer| c.judge(a).map(|p| p.body);
    assert_eq!(
        body(Check::UserAgent("x".to_string()), Answer::Banned(true)).unwrap(),
        "403 Forbidden Your client is banned from uploading."
    );
    assert_eq!(
        body(Check::UploadCount(ip, 3), Answer::Amount(3)).unwrap(),
        "429 Too Many Requests Upload limit reached."
    );
    assert_eq!(body(Check::UploadCount(ip, 3), Answer::Amount(2)), None);
    for failed in [Answer::Failed, Answer::Banned(false)] {
        assert_eq!(
            body(Check::ByteCount(ip, 3), failed).unwrap(),
            "500 Internal Server Error Something went wrong."
        );
    }
    assert_eq!(
        body(Check::Ip(ip), Answer::Failed).unwrap(),
        "500 Internal Server Error Something went wrong."
    );
}

#[test]
fn a_free_slug_comes_with_its_expiry() {
    let at = Timestamp { nanos: 7 };
    match slug_free_at(at, 2) {
        Some(Reply::SlugFree(expiry)) => assert_eq!(expiry.nanos, 7 + 2 * 86_400_000_000_000),
        _ => panic!(),
    }
    assert!(slug_free_at(at, i64::MAX).is_none());
    let before = Timestamp::now().nanos;
    match slug_free(31) {
        Some(Reply::SlugFree(expiry)) => {
            let from = expiry.nanos - 31 * 86_400_000_000_000;
            assert!(before <= from && from <= Timestamp::now().nanos);
        }
        _ => panic!(),
    }
}
