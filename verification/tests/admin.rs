use filehost::admin::{
    authorize, banned_hash_dto, banned_ip_dto, banned_user_agent_dto, check_ip_ban, choose_page,
    constant_time_eq, internal_err, list_form, read_hash, read_id, read_ip, read_ip_ban,
    read_ip_filter, read_new_hash, respond_created, respond_removed, stored_ip_or_empty, upload_dto,
    BannedIpRangeCreate, Change, IP_STATS_HOURS, TOP_MIMES_LIMIT, TOP_UPLOADERS_LIMIT,
};
use filehost::http::Status;
use filehost::ip::to_db_bytes;
use filehost::ip_text::parse_ip;
use filehost::model::{BanType, BannedFileHash, BannedIpRange, BannedUserAgent, Upload};
use filehost::timestamp::Timestamp;
use filehost::util::parse_rfc3339;

#[test]
fn access() {
    let refusal = |c: Option<&str>, h: Option<&str>| authorize(c, h).map(|e| (e.status, e.message));
    assert_eq!(refusal(None, Some("Bearer x")), Some((Status::NotFound, "Not found")));
    let missing = Some((Status::Unauthorized, "Missing or malformed Authorization header"));
    assert_eq!(refusal(Some("x"), None), missing);
    assert_eq!(refusal(Some("x"), Some("Basic x")), missing);
    assert_eq!(refusal(Some("x"), Some("bearer x")), missing);
    let invalid = Some((Status::Forbidden, "Invalid admin token"));
    assert_eq!(refusal(Some("x"), Some("Bearer y")), invalid);
    assert_eq!(refusal(Some("x"), Some("Bearer x ")), invalid);
    assert_eq!(refusal(Some("x"), Some("Bearer ")), invalid);
    assert_eq!(refusal(Some("x"), Some("Bearer x")), None);
    assert_eq!(refusal(Some("ä"), Some("Bearer ä")), None);
}

#[test]
fn tokens_are_compared_whole() {
    assert!(constant_time_eq(b"", b""));
    assert!(constant_time_eq(b"abc", b"abc"));
    assert!(!constant_time_eq(b"abc", b"abd"));
    assert!(!constant_time_eq(b"bbc", b"abc"));
    assert!(!constant_time_eq(b"abc", b"abcd"));
}

#[test]
fn changes_are_answered() {
    let r = respond_created(Change::Done);
    assert_eq!((r.status.code(), r.message, r.invalidate), (201, None, true));
    let r = respond_created(Change::Failed);
    assert_eq!((r.status.code(), r.message, r.invalidate), (500, Some("Something went wrong."), false));
    let r = respond_removed(Change::Done);
    assert_eq!((r.status.code(), r.message, r.invalidate), (204, None, true));
    let r = respond_removed(Change::Nothing);
    assert_eq!((r.status.code(), r.message, r.invalidate), (404, Some("Not found"), false));
    let r = respond_removed(Change::Failed);
    assert_eq!((r.status.code(), r.message, r.invalidate), (500, Some("Something went wrong."), false));
    let e = internal_err();
    assert_eq!((e.status.code(), e.message), (500, "Something went wrong."));
}

#[test]
fn pages() {
    assert_eq!(choose_page(None, None), (100, 0));
    assert_eq!(choose_page(Some(0), Some(-1)), (1, 0));
    assert_eq!(choose_page(Some(1001), Some(7)), (1000, 7));
    assert_eq!(choose_page(Some(1000), Some(i64::MAX)), (1000, i64::MAX));
    assert_eq!((TOP_UPLOADERS_LIMIT, IP_STATS_HOURS, TOP_MIMES_LIMIT), (10, 24 * 7, 5));
}

#[test]
fn parameters() {
    assert_eq!(read_ip("1.2.3.4").unwrap(), parse_ip("1.2.3.4").unwrap());
    let e = read_ip("x").unwrap_err();
    assert_eq!((e.status, e.message), (Status::BadRequest, "Invalid ip"));
    assert_eq!(read_ip_filter(None).unwrap(), None);
    assert_eq!(read_ip_filter(Some("::1")).unwrap(), parse_ip("::1"));
    assert_eq!(read_ip_filter(Some("x")).unwrap_err().message, "Invalid ip");
    assert_eq!(read_id("00000000-0000-0000-0000-000000000007").unwrap(), 7);
    assert_eq!(read_id("7").unwrap_err().message, "Invalid id");
    assert_eq!(list_form("ExE"), "exe");
    assert_eq!(list_form("Ä"), "ä");
}

fn body(start: &str, end: &str, expires: Option<&str>, type_: u32) -> BannedIpRangeCreate {
    BannedIpRangeCreate {
        start_ip: start.to_string(),
        end_ip: end.to_string(),
        reason: None,
        expires_timestamp: expires.map(str::to_string),
        blacklist_id: None,
        type_,
    }
}

#[test]
fn ip_bans() {
    let ban = read_ip_ban(&body("1.2.3.4", "1.2.3.5", Some("2026-01-01T00:00:00Z"), 0)).unwrap();
    assert_eq!(ban.start, parse_ip("1.2.3.4").unwrap());
    assert_eq!(ban.end, parse_ip("1.2.3.5").unwrap());
    assert_eq!(ban.expires, parse_rfc3339("2026-01-01T00:00:00Z"));
    assert_eq!(ban.type_, BanType::ReadOnly);
    assert_eq!(read_ip_ban(&body("::1", "::2", None, 1)).unwrap().type_, BanType::ReadOnly);
    assert_eq!(read_ip_ban(&body("::1", "::2", None, 2)).unwrap().type_, BanType::Full);
    let fault = |b: BannedIpRangeCreate| read_ip_ban(&b).unwrap_err().message;
    assert_eq!(fault(body("x", "y", Some("z"), 9)), "Invalid start_ip");
    assert_eq!(fault(body("1.2.3.4", "y", Some("z"), 9)), "Invalid end_ip");
    assert_eq!(
        fault(body("1.2.3.4", "::1", Some("z"), 9)),
        "start_ip and end_ip must be the same IP version"
    );
    assert_eq!(fault(body("1.2.3.4", "1.2.3.4", Some("z"), 9)), "Invalid expires_timestamp");
    assert_eq!(fault(body("1.2.3.4", "1.2.3.4", None, 9)), "Invalid type (expected 1 or 2)");
    assert!(check_ip_ban(None, None, None, 1).is_err());
}

#[test]
fn hash_bans() {
    let hex = "ab".repeat(32);
    assert_eq!(read_new_hash(&hex).unwrap(), vec![0xab; 32]);
    assert_eq!(read_new_hash("abcd").unwrap_err().message, "Invalid hash length (expected 32-byte BLAKE3)");
    assert_eq!(read_new_hash("xyz").unwrap_err().message, "Invalid hash (expected lowercase hex)");
    assert_eq!(read_hash("abcd").unwrap(), vec![0xab, 0xcd]);
    assert_eq!(read_hash("abc").unwrap_err().message, "Invalid hash (expected lowercase hex)");
    assert_eq!(
        read_new_hash(&"AB".repeat(32)).unwrap_err().message,
        "Invalid hash (expected lowercase hex)"
    );
    assert_eq!(read_hash("+1").unwrap_err().message, "Invalid hash (expected lowercase hex)");
    assert_eq!(read_hash("AB").unwrap_err().message, "Invalid hash (expected lowercase hex)");
}

#[test]
fn records_are_shown() {
    let ts = |s: &str| parse_rfc3339(s).unwrap();
    let dto = upload_dto(Upload {
        id: 1,
        upload_timestamp: ts("2026-01-02T03:04:05Z"),
        expiry_timestamp: ts("2026-02-02T03:04:05.5Z"),
        deleted_timestamp: Some(ts("2026-02-02T03:04:05Z")),
        original_name: "n".to_string(),
        slug: "s".to_string(),
        file_size: 9,
        hash: Some(vec![0xab, 1]),
        uploader_ip: Some(to_db_bytes(parse_ip("1.2.3.4").unwrap()).to_vec()),
        content_type: None,
        user_agent: Some("u".to_string()),
    });
    assert_eq!(dto.id, "00000000-0000-0000-0000-000000000001");
    assert_eq!(dto.upload_timestamp, "2026-01-02T03:04:05Z");
    assert_eq!(dto.expiry_timestamp, "2026-02-02T03:04:05.5Z");
    assert!(dto.deleted);
    assert_eq!(dto.hash, Some("ab01".to_string()));
    assert_eq!(dto.uploader_ip, Some("1.2.3.4".to_string()));
    assert_eq!((dto.file_size, dto.original_name.as_str(), dto.slug.as_str()), (9, "n", "s"));
    let range = banned_ip_dto(BannedIpRange {
        id: 3,
        start_ip: to_db_bytes(parse_ip("::1").unwrap()).to_vec(),
        end_ip: vec![1],
        reason: None,
        banned_timestamp: Timestamp { nanos: 0 },
        expires_timestamp: None,
        blacklist_id: Some(4),
        type_: BanType::Full,
    });
    assert_eq!((range.start_ip.as_str(), range.end_ip.as_str()), ("::1", ""));
    assert_eq!(range.banned_timestamp, "1970-01-01T00:00:00Z");
    assert_eq!((range.type_, range.blacklist_id, range.expires_timestamp), (2, Some(4), None));
    let hash = banned_hash_dto(BannedFileHash { hash: vec![255], reason: Some("r".to_string()) });
    assert_eq!((hash.key.as_str(), hash.reason.as_deref()), ("ff", Some("r")));
    let ua = banned_user_agent_dto(BannedUserAgent { pattern: "p".to_string(), reason: None });
    assert_eq!((ua.key.as_str(), ua.reason), ("p", None));
    assert_eq!(stored_ip_or_empty(&[]), "");
}
