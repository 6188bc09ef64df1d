use filehost::cli::{
    added_line, banned_range_line, blacklist_line, check_ip_ban, deleted_line, hash_ban_line,
    ip_ban_line, list_or_empty, parse_ban_type, range_removal_result, read_hash, read_ip_ban,
    read_new_hash, removal_result, user_agent_ban_line, Subject,
};
use filehost::ip::to_db_bytes;
use filehost::ip_text::parse_ip;
use filehost::model::{BanType, BannedFileHash, BannedIpRange, BannedUserAgent, Blacklist};
use filehost::timestamp::Timestamp;
use filehost::util::parse_rfc3339;

#[test]
fn ban_types() {
    assert_eq!(parse_ban_type(1), Ok(BanType::ReadOnly));
    assert_eq!(parse_ban_type(2), Ok(BanType::Full));
    for bad in [0, 3, u32::MAX] {
        assert_eq!(parse_ban_type(bad), Err("type must be 1 (readonly) or 2 (full)"));
    }
    assert_eq!((BanType::ReadOnly.code(), BanType::Full.code()), (1, 2));
    assert_eq!((BanType::ReadOnly.name(), BanType::Full.name()), ("ReadOnly", "Full"));
    assert_eq!(BanType::from_code(2), Some(BanType::Full));
    assert_eq!(BanType::from_code(0), None);
}

#[test]
fn ip_bans_are_checked_in_order() {
    let v4 = parse_ip("1.2.3.4").unwrap();
    let v6 = parse_ip("::1").unwrap();
    assert_eq!(
        read_ip_ban(v4, v6, 9, Some("x")),
        Err("start and end must be the same IP version")
    );
    assert_eq!(
        read_ip_ban(v4, v4, 9, Some("x")),
        Err("type must be 1 (readonly) or 2 (full)")
    );
    assert_eq!(read_ip_ban(v4, v4, 2, Some("x")), Err("Invalid --expires timestamp"));
    assert_eq!(
        read_ip_ban(v4, v4, 2, Some("2026-01-01T00:00:00Z")),
        Ok((BanType::Full, parse_rfc3339("2026-01-01T00:00:00Z")))
    );
    assert_eq!(check_ip_ban(v6, v6, 1, None), Ok((BanType::ReadOnly, None)));
}

#[test]
fn hashes_are_checked() {
    assert_eq!(read_new_hash(&"00".repeat(32)), Ok(vec![0; 32]));
    assert_eq!(read_new_hash("00"), Err("Invalid hash length (expected 32-byte BLAKE3)"));
    assert_eq!(read_new_hash("0"), Err("Invalid hash (expected lowercase hex)"));
    assert_eq!(read_hash("00"), Ok(vec![0]));
    assert_eq!(read_hash("zz"), Err("Invalid hash (expected lowercase hex)"));
    assert_eq!(
        read_new_hash(&"AB".repeat(32)),
        Err("Invalid hash (expected lowercase hex)")
    );
    assert_eq!(read_hash("aB"), Err("Invalid hash (expected lowercase hex)"));
    assert_eq!(read_hash("+1"), Err("Invalid hash (expected lowercase hex)"));
    assert_eq!(read_hash("09af"), Ok(vec![0x09, 0xaf]));
}

#[test]
fn listings() {
    assert_eq!(list_or_empty(vec![], "No banned extensions."), vec!["No banned extensions."]);
    assert_eq!(list_or_empty(vec!["a".to_string()], "none"), vec!["a"]);
    let url = "http://x/".to_string();
    let list = Blacklist {
        id: 12,
        url: url.clone(),
        type_: BanType::Full,
        last_update: None,
        update_interval_seconds: 86400,
    };
    assert_eq!(
        blacklist_line(&list),
        format!("{:>6}  {:<255}  type=Full  interval={:>10}s  last_update=never", 12, url, 86400)
    );
    let list = Blacklist { last_update: Some(Timestamp { nanos: 0 }), ..list };
    let epoch = time::OffsetDateTime::UNIX_EPOCH.to_string();
    assert!(blacklist_line(&list).ends_with(&format!("s  last_update={epoch}")));
    let range = BannedIpRange {
        id: 7,
        start_ip: to_db_bytes(parse_ip("1.2.3.4").unwrap()).to_vec(),
        end_ip: to_db_bytes(parse_ip("1.2.3.5").unwrap()).to_vec(),
        reason: None,
        banned_timestamp: Timestamp { nanos: 0 },
        expires_timestamp: Some(Timestamp { nanos: 0 }),
        blacklist_id: None,
        type_: BanType::ReadOnly,
    };
    assert_eq!(
        ip_ban_line(&range),
        format!(
            "{:>6}  {:<15}-{:<15}  type={:<8}  reason={:<20}  expires={}",
            7, "1.2.3.4", "1.2.3.5", "ReadOnly", "-", "1970-01-01T00:00:00Z"
        )
    );
    let range = BannedIpRange { reason: Some("spam".to_string()), expires_timestamp: None, ..range };
    assert!(ip_ban_line(&range).ends_with("  reason=spam                  expires=never"));
    let hash = BannedFileHash { hash: vec![1, 255], reason: None };
    assert_eq!(hash_ban_line(&hash), "01ff  reason=-");
    let ua = BannedUserAgent { pattern: "curl".to_string(), reason: Some("bot".to_string()) };
    assert_eq!(user_agent_ban_line(&ua), "curl  reason=bot");
}

#[test]
fn outcomes() {
    let s = |t: &str| t.to_string();
    for (subject, removed, missing, added) in [
        (
            Subject::Blacklist(-3),
            "Removed entry -3.",
            "No entry with id -3.",
            "Added entry with id -3.",
        ),
        (
            Subject::Extension(s("exe")),
            "Removed ban on extension exe.",
            "No ban on extension exe.",
            "Banned extension exe.",
        ),
        (
            Subject::Mime(s("a/b")),
            "Removed ban on mime a/b.",
            "No ban on mime a/b.",
            "Banned mime a/b.",
        ),
        (
            Subject::Hash(s("00ff")),
            "Removed ban on hash 00ff.",
            "No ban on hash 00ff.",
            "Banned hash 00ff.",
        ),
        (
            Subject::UserAgent(s("a\"b")),
            "Removed ban on user agent pattern \"a\\\"b\".",
            "No ban on user agent pattern \"a\\\"b\".",
            "Banned user agent pattern \"a\\\"b\".",
        ),
    ] {
        assert_eq!(removal_result(true, &subject), Ok(s(removed)));
        assert_eq!(removal_result(false, &subject), Err(s(missing)));
        assert_eq!(added_line(&subject), added);
    }
    assert_eq!(range_removal_result(true, 5), Ok(s("Removed ban 5.")));
    assert_eq!(range_removal_result(false, 5), Err(s("No banned IP range with id 5.")));
    let a = parse_ip("1.2.3.4").unwrap();
    assert_eq!(banned_range_line(a, a, 8), "Banned 1.2.3.4-1.2.3.4 with id 8.");
    assert_eq!(deleted_line(3, false), "Deleted 3 upload(s).");
    assert_eq!(deleted_line(0, true), "Deleted 0 expired upload(s).");
}
