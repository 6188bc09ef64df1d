use filehost::bytes::{from_be, to_be};
use filehost::text::{
    contains_text, decimal_int_text, decimal_text, has_prefix, has_suffix, pad_left, pad_right,
    parse_u64, split_text, trim_text, without_prefix, without_suffix, Trim,
};
use filehost::timestamp::{seconds_between, Timestamp};
use filehost::util::{
    as_signed, format_ts, hex_decode, hex_encode, lower_hex_decode, parse_rfc3339, text_or_empty,
};

#[test]
fn hex_text() {
    assert_eq!(hex_encode(&[0, 0x1f, 0xff]), "001fff");
    assert_eq!(hex_decode("001fFF"), Some(vec![0, 0x1f, 0xff]));
    assert_eq!(hex_decode(""), Some(vec![]));
    assert_eq!(hex_decode("1"), None);
    assert_eq!(hex_decode("-1"), None);
    // a sign in front of a digit is read as a number's sign
    assert_eq!(hex_decode("+1"), Some(vec![1]));
    assert_eq!(hex_decode("é"), None);
    assert_eq!(lower_hex_decode("001fff"), Some(vec![0, 0x1f, 0xff]));
    assert_eq!(lower_hex_decode("001fFF"), None);
    assert_eq!(lower_hex_decode("+1"), None);
    assert_eq!(lower_hex_decode("1"), None);
    let all: Vec<u8> = (0..=255).collect();
    assert_eq!(hex_decode(&hex_encode(&all)), Some(all));
}

#[test]
fn timestamps() {
    let ts = parse_rfc3339("2026-06-06T14:30:45+02:00").unwrap();
    // the offset is left out, not applied
    assert_eq!(format_ts(ts), "2026-06-06T14:30:45Z");
    assert_eq!(format_ts(Timestamp { nanos: 1 }), "1970-01-01T00:00:00.000000001Z");
    assert_eq!(parse_rfc3339("2026-06-06 14:30:45"), None);
    assert_eq!(parse_rfc3339(""), None);
    // years before 0 have no text
    assert_eq!(format_ts(Timestamp { nanos: -377_705_116_800_000_000_000 }), "");
    assert!(Timestamp::now().nanos > 1_700_000_000_000_000_000);
    let t = |n: i128| Timestamp { nanos: n };
    assert_eq!(seconds_between(t(0), t(1_999_999_999)), 1);
    assert_eq!(seconds_between(t(1_999_999_999), t(0)), -1);
    assert_eq!(t(-1).hour_start().nanos, -3_600_000_000_000);
    assert_eq!(t(3_600_000_000_001).hour_start().nanos, 3_600_000_000_000);
    assert_eq!(text_or_empty(None), "");
}

#[test]
fn numbers() {
    assert_eq!(decimal_text(0), "0");
    assert_eq!(decimal_text(u64::MAX), u64::MAX.to_string());
    assert_eq!(decimal_int_text(i64::MIN), i64::MIN.to_string());
    assert_eq!(decimal_int_text(-7), "-7");
    for s in ["0", "007", "+5", "18446744073709551615", "18446744073709551616", "", "+", "-1", "1 "] {
        assert_eq!(parse_u64(s), s.parse::<u64>().ok(), "{s}");
    }
    for n in [0, 1, i64::MAX as u64, i64::MAX as u64 + 1, u64::MAX] {
        assert_eq!(as_signed(n), n as i64);
    }
    assert_eq!(to_be(0x0102, 4), vec![0, 0, 1, 2]);
    assert_eq!(from_be(&[1, 2]), 0x0102);
}

#[test]
fn searching() {
    for (hay, needle) in [("hello", "ell"), ("hello", ""), ("", ""), ("", "x"), ("aab", "ab"), ("ab", "abc")] {
        assert_eq!(contains_text(hay, needle), hay.contains(needle));
        assert_eq!(has_prefix(hay, needle), hay.starts_with(needle));
        assert_eq!(has_suffix(hay, needle), hay.ends_with(needle));
        assert_eq!(without_prefix(hay, needle).as_deref(), hay.strip_prefix(needle));
        assert_eq!(without_suffix(hay, needle).as_deref(), hay.strip_suffix(needle));
    }
    assert_eq!(has_prefix("hello", "he"), true);
    assert_eq!(has_suffix("hello", "lo"), true);
}

#[test]
fn cutting() {
    for s in ["", "a", "a,b", "a,b,c,d", ",", ",,a", "ä,ö"] {
        for n in 1..5 {
            let expected: Vec<String> = s.splitn(n, ',').map(str::to_string).collect();
            assert_eq!(split_text(s, ',', n), expected);
        }
    }
    for s in ["", "  ", " a b ", "\t\u{a0}x\u{3000}\n", "'x'"] {
        assert_eq!(trim_text(s, &Trim::Blank), s.trim());
        assert_eq!(trim_text(s, &Trim::Only('\'')), s.trim_matches('\''));
    }
    for s in ["", "ab", "äöü", "abcdef"] {
        assert_eq!(pad_right(s, 4), format!("{s:<4}"));
        assert_eq!(pad_left(s, 4), format!("{s:>4}"));
    }
}
