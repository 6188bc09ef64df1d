use filehost::ip::{
    from_db_bytes, normalize_for_quota, quota_range, same_family, to_db_bytes, IpAddr,
};
use filehost::ip_text::{ip_string, parse_ip, parse_v4, parse_v6};

fn ip(s: &str) -> IpAddr {
    parse_ip(s).unwrap()
}

#[test]
fn v4_roundtrips_through_mapped_bytes() {
    let ip = ip("1.2.3.4");
    let bytes = to_db_bytes(ip);
    assert_eq!(
        bytes,
        [0, 0, 0, 0, 0, 0, 0, 0, 0, 0, 0xff, 0xff, 1, 2, 3, 4]
    );
    assert_eq!(from_db_bytes(&bytes), Some(ip));
}

#[test]
fn v4_mapped_bytes_preserve_u32_ordering() {
    let a = to_db_bytes(ip("1.2.3.4"));
    let b = to_db_bytes(ip("1.2.3.5"));
    assert!(a < b);
}

#[test]
fn v6_roundtrips() {
    let ip = ip("2001:db8::1");
    let bytes = to_db_bytes(ip);
    assert_eq!(from_db_bytes(&bytes), Some(ip));
}

#[test]
fn from_db_bytes_rejects_wrong_length() {
    assert_eq!(from_db_bytes(&[1, 2, 3, 4]), None);
}

#[test]
fn same_family_checks() {
    let v4 = ip("1.2.3.4");
    let v4b = ip("5.6.7.8");
    let v6 = ip("2001:db8::1");
    assert!(same_family(v4, v4b));
    assert!(same_family(v6, v6));
    assert!(!same_family(v4, v6));
}

#[test]
fn normalize_for_quota_leaves_v4_untouched() {
    let ip = ip("1.2.3.4");
    assert_eq!(normalize_for_quota(ip), ip);
}

#[test]
fn normalize_for_quota_zeroes_v6_low_64_bits() {
    let a = ip("2001:db8:1234:5678:aaaa:bbbb:cccc:dddd");
    let b = ip("2001:db8:1234:5678:1111:2222:3333:4444");
    assert_eq!(normalize_for_quota(a), normalize_for_quota(b));
    assert_eq!(normalize_for_quota(a), ip("2001:db8:1234:5678::"));
}

#[test]
fn normalize_for_quota_distinguishes_different_prefixes() {
    let a = ip("2001:db8:1234:5678::1");
    let b = ip("2001:db8:1234:9999::1");
    assert_ne!(normalize_for_quota(a), normalize_for_quota(b));
}

#[test]
fn quota_range_v4_is_exact() {
    let ip = ip("1.2.3.4");
    assert_eq!(quota_range(ip), (ip, ip));
}

#[test]
fn quota_range_v6_covers_whole_64_and_only_that() {
    let a = ip("2001:db8:1234:5678:aaaa::1");
    let (start, end) = quota_range(a);
    assert_eq!(start, ip("2001:db8:1234:5678::"));
    assert_eq!(end, ip("2001:db8:1234:5678:ffff:ffff:ffff:ffff"));
    let in_range = ip("2001:db8:1234:5678:ffff::1");
    let out_of_range = ip("2001:db8:1234:5679::1");
    assert!(
        to_db_bytes(start) <= to_db_bytes(in_range) && to_db_bytes(in_range) <= to_db_bytes(end)
    );
    assert!(to_db_bytes(out_of_range) > to_db_bytes(end));
}

#[test]
fn mapped_v6_is_stored_as_v4() {
    let v6 = ip("::ffff:1.2.3.4");
    assert_eq!(v6, IpAddr::V6(0xffff_0102_0304));
    assert_eq!(from_db_bytes(&to_db_bytes(v6)), Some(ip("1.2.3.4")));
}

#[test]
fn reads_v4() {
    assert_eq!(parse_v4("0.0.0.0"), Some(0));
    assert_eq!(parse_v4("255.255.255.255"), Some(u32::MAX));
    assert_eq!(parse_v4("10.0.0.1"), Some(0x0a00_0001));
    for bad in [
        "", "1.2.3", "1.2.3.4.5", "256.1.1.1", "01.2.3.4", "1..2.3", "1.2.3.4 ", " 1.2.3.4",
        "1.2.3.a", "1.2.3.+4", "0000.1.1.1",
    ] {
        assert_eq!(parse_v4(bad), None, "{bad}");
    }
}

#[test]
fn reads_v6() {
    assert_eq!(parse_v6("::"), Some(0));
    assert_eq!(parse_v6("::1"), Some(1));
    assert_eq!(parse_v6("1::"), Some(1u128 << 112));
    assert_eq!(
        parse_v6("1:2:3:4:5:6:7:8"),
        Some(0x0001_0002_0003_0004_0005_0006_0007_0008)
    );
    assert_eq!(
        parse_v6("1:2:3:4:5:6:7::"),
        Some(0x0001_0002_0003_0004_0005_0006_0007_0000)
    );
    assert_eq!(parse_v6("2001:DB8::aB"), Some(0x2001_0db8_0000_0000_0000_0000_0000_00ab));
    assert_eq!(parse_v6("::ffff:192.168.0.1"), Some(0xffff_c0a8_0001));
    assert_eq!(
        parse_v6("1:2:3:4:5:6:1.2.3.4"),
        Some(0x0001_0002_0003_0004_0005_0006_0102_0304)
    );
    for bad in [
        "", ":", ":::", "1", "1:2", "1:2:3:4:5:6:7", "1:2:3:4:5:6:7:8:9", "1::2::3", "12345::",
        "g::", "1:2:3:4:5:6:7:1.2.3.4", "1.2.3.4::", "::1%eth0", "1:2:3:4::5:6:7:8", ":1::",
    ] {
        assert_eq!(parse_v6(bad), None, "{bad}");
    }
}

#[test]
fn writes_addresses() {
    for s in [
        "1.2.3.4",
        "0.0.0.0",
        "255.255.255.255",
        "::",
        "::1",
        "1::",
        "2001:db8::1",
        "2001:db8:1234:5678::",
        "1:2:3:4:5:6:7:8",
        "1:0:2:3:4:5:6:7",
        "1:0:0:2::3",
        "1::2:0:0:3",
        "::ffff:1.2.3.4",
        "fe80::abcd:0:1",
        "ffff:ffff:ffff:ffff:ffff:ffff:ffff:ffff",
    ] {
        assert_eq!(ip_string(ip(s)), s);
    }
    assert_eq!(ip_string(ip("1:0:0:2:0:0:0:3")), "1:0:0:2::3");
    assert_eq!(ip_string(ip("1:0:0:2:3:0:0:4")), "1::2:3:0:0:4");
    assert_eq!(ip_string(ip("0:1:2:3:4:5:6:7")), "0:1:2:3:4:5:6:7");
}
