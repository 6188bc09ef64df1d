use filehost::ip::IpAddr;
use filehost::ip_text::parse_ip;
use filehost::model::{BanType, Blacklist};
use filehost::sync::{
    cidr_range, due_at, due_now, entries_from_hits, is_due, listed_bans, not_found_message,
    parse_body, tally, IpRangeEntry,
};
use filehost::timestamp::Timestamp;

fn ip(s: &str) -> IpAddr {
    parse_ip(s).unwrap()
}

fn one(input: &str, start: &str, end: &str) {
    let entries = parse_body(input);
    assert_eq!(entries.len(), 1, "{input}");
    assert_eq!(entries[0].start, ip(start), "{input}");
    assert_eq!(entries[0].end, ip(end), "{input}");
}

#[test]
fn single_ip() {
    one("1.2.3.4", "1.2.3.4", "1.2.3.4");
}

#[test]
fn single_ip_ws() {
    one("  10.0.0.1  ", "10.0.0.1", "10.0.0.1");
}

#[test]
fn cidr_24() {
    one("10.0.0.0/24", "10.0.0.0", "10.0.0.255");
}

#[test]
fn cidr_16() {
    one("172.16.0.0/16", "172.16.0.0", "172.16.255.255");
}

#[test]
fn cidr_8() {
    one("10.0.0.0/8", "10.0.0.0", "10.255.255.255");
}

#[test]
fn cidr_32() {
    one("192.168.1.1/32", "192.168.1.1", "192.168.1.1");
}

#[test]
fn cidr_0() {
    one("0.0.0.0/0", "0.0.0.0", "255.255.255.255");
}

#[test]
fn cidr_20() {
    one("192.168.16.0/20", "192.168.16.0", "192.168.31.255");
}

#[test]
fn cidr_27() {
    one("172.16.5.32/27", "172.16.5.32", "172.16.5.63");
}

#[test]
fn cidr_comment() {
    one("217.60.250.0/24 ; SBL694808", "217.60.250.0", "217.60.250.255");
}

#[test]
fn cidr_non_aligned_host_address() {
    one("10.0.0.5/24", "10.0.0.0", "10.0.0.255");
}

#[test]
fn multiple_entries() {
    let entries = parse_body("10.0.0.1\n192.168.1.100\n172.16.0.0/16");
    assert_eq!(entries.len(), 3);
    assert_eq!(entries[0].start, ip("10.0.0.1"));
    assert_eq!(entries[0].end, ip("10.0.0.1"));
    assert_eq!(entries[1].start, ip("192.168.1.100"));
    assert_eq!(entries[1].end, ip("192.168.1.100"));
    assert_eq!(entries[2].start, ip("172.16.0.0"));
    assert_eq!(entries[2].end, ip("172.16.255.255"));
}

#[test]
fn multiline() {
    let entries = parse_body("10.0.0.1\n10.0.0.2\n10.0.0.3\n");
    assert_eq!(entries.len(), 3);
}

#[test]
fn empty_body() {
    assert!(parse_body("").is_empty());
}

#[test]
fn json() {
    let body = r#"{"ip":"10.0.0.1","reason":"spam"}"#;
    let entries = parse_body(body);
    assert_eq!(entries.len(), 1);
    assert_eq!(entries[0].start, ip("10.0.0.1"));
    assert_eq!(entries[0].end, ip("10.0.0.1"));
}

#[test]
fn rss() {
    let body = r#"<item><ip>10.0.0.0/24</ip><note>SBL</note></item>"#;
    let entries = parse_body(body);
    assert_eq!(entries.len(), 1);
    assert_eq!(entries[0].start, ip("10.0.0.0"));
    assert_eq!(entries[0].end, ip("10.0.0.255"));
}

#[test]
fn invalid_ip_skipped() {
    let entries = parse_body("999.0.0.1\n10.0.0.1");
    assert_eq!(entries.len(), 1);
    assert_eq!(entries[0].start, ip("10.0.0.1"));
    assert_eq!(entries[0].end, ip("10.0.0.1"));
}

#[test]
fn cidr_prefix_too_large() {
    let entries = parse_body("10.0.0.0/33");
    assert!(entries.is_empty());
}

#[test]
fn blocks() {
    assert_eq!(cidr_range(0x0a00_0005, 24), (0x0a00_0000, 0x0a00_00ff));
    assert_eq!(cidr_range(0xffff_ffff, 0), (0, u32::MAX));
    assert_eq!(cidr_range(0xffff_ffff, 1), (0x8000_0000, u32::MAX));
    assert_eq!(cidr_range(5, 32), (5, 5));
    assert_eq!(cidr_range(5, 31), (4, 5));
}

#[test]
fn matches_become_ranges() {
    let hits = vec![
        vec![
            Some("1.2.3.4/30".to_string()),
            Some("1.2.3.6".to_string()),
            Some("30".to_string()),
        ],
        vec![Some("300.1.1.1".to_string()), Some("300.1.1.1".to_string()), None],
        vec![Some("x".to_string())],
        vec![None, None, None],
    ];
    let entries = entries_from_hits(&hits);
    assert_eq!(
        entries,
        vec![IpRangeEntry { start: ip("1.2.3.4"), end: ip("1.2.3.7") }]
    );
}

#[test]
fn bans_of_a_blacklist() {
    let entries = vec![IpRangeEntry { start: ip("1.2.3.4"), end: ip("1.2.3.7") }];
    let bans = listed_bans(&entries, 9, BanType::Full);
    assert_eq!(bans.len(), 1);
    assert_eq!(bans[0].start, ip("1.2.3.4"));
    assert_eq!(bans[0].end, ip("1.2.3.7"));
    assert_eq!(bans[0].blacklist_id, 9);
    assert_eq!(bans[0].type_, BanType::Full);
}

fn at(seconds: i128) -> Timestamp {
    Timestamp { nanos: seconds * 1_000_000_000 }
}

fn list(id: i32, last: Option<Timestamp>, interval: u64) -> Blacklist {
    Blacklist {
        id,
        url: "http://x/".to_string(),
        type_: BanType::ReadOnly,
        last_update: last,
        update_interval_seconds: interval,
    }
}

#[test]
fn due_lists() {
    let now = at(1000);
    assert!(is_due(None, u64::MAX, now));
    assert!(is_due(Some(at(900)), 100, now));
    assert!(!is_due(Some(at(901)), 100, now));
    assert!(!is_due(Some(Timestamp { nanos: 900_000_000_001 }), 100, now));
    assert!(!is_due(Some(at(2000)), 0, now));
    assert!(is_due(Some(now), 0, now));
    // an interval beyond the signed range has not elapsed either
    assert!(!is_due(Some(now), u64::MAX, now));
    assert!(!is_due(Some(at(900)), 1 << 63, now));
    let lists = vec![list(1, None, 5), list(2, Some(at(999)), 5), list(3, Some(at(1)), 5)];
    assert_eq!(due_at(&lists, now), vec![0, 2]);
    assert_eq!(due_now(&lists), vec![0, 1, 2]);
}

#[test]
fn results_are_tallied() {
    assert_eq!(tally(&vec![true, false, true]), (2, 1));
    assert_eq!(tally(&vec![]), (0, 0));
    assert_eq!(not_found_message(-3), "blacklist entry -3 not found");
}

#[test]
fn lines_do_not_affect_each_other() {
    let parts = [
        "",
        "10.0.0.1",
        "1.2.3.4/2",
        "1.2.3.4/",
        "4.3.2.1",
        "9.9.9",
        ".9",
        "5.6.7.8/24 and 1.1.1.1\n2.2.2.2",
        "0.0.0.0/33",
        "7",
    ];
    for a in parts {
        for b in parts {
            let mut apart = parse_body(a);
            apart.extend(parse_body(b));
            assert_eq!(parse_body(&format!("{a}\n{b}")), apart);
            for e in &apart {
                match (e.start, e.end) {
                    (IpAddr::V4(x), IpAddr::V4(y)) => assert!(x <= y),
                    _ => panic!(),
                }
            }
        }
    }
}
