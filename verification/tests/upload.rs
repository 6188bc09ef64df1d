use filehost::ids::{id_folder, id_string, join_path, parse_id, uuid_to_path};
use filehost::ip_text::parse_ip;
use filehost::link::{encode_segment, link_to};
use filehost::names::{extension_of, file_stem_of};
use filehost::timestamp::{seconds_between, Timestamp};
use filehost::upload::{
    build_slug, build_slug_with, calculate_expiry, compute_expiry, ext_suffix, extract_ip,
    random_string, sanitize_filename_stem, UploadDigest,
};

#[test]
fn random_string_has_correct_length() {
    for len in [1, 3, 8, 24] {
        let s = random_string(len);
        assert_eq!(s.len(), len);
    }
}

#[test]
fn random_string_is_alphanumeric() {
    let s = random_string(64);
    assert!(s.chars().all(|c| c.is_ascii_alphanumeric()));
}

#[test]
fn uuid_to_path_structure() {
    let uuid = parse_id("550e8400-e29b-41d4-a716-446655440000").unwrap();
    let path = uuid_to_path("files", uuid);
    // top 16 bits of 0x550e8400e29b41d4a716446655440000 >> 112 = 0x550e
    assert_eq!(path, "files/550e/550e8400-e29b-41d4-a716-446655440000");
}

struct Ages {
    max_filesize: usize,
    max_fileage: usize,
    min_fileage: usize,
    decay_exp: usize,
}

const AGES: Ages = Ages { max_filesize: 512, max_fileage: 180, min_fileage: 31, decay_exp: 2 };

fn life_expectancy_days(file_size: u64, settings: &Ages) -> f64 {
    let max_bytes = (settings.max_filesize * 1024 * 1024) as f64;
    let ratio = (file_size as f64 / max_bytes).min(1.0);
    settings.min_fileage as f64
        + (settings.max_fileage - settings.min_fileage) as f64
            * (1.0 - ratio).powi(settings.decay_exp as i32)
}

fn days_until_expiry(file_size: usize) -> i64 {
    let days = life_expectancy_days(file_size as u64, &AGES) as i64;
    let expiry = calculate_expiry(days).unwrap();
    seconds_between(Timestamp::now(), expiry) / 86400
}

#[test]
fn calculate_expiry_tiny_file_gets_max_age() {
    let days = days_until_expiry(0);
    assert!(days >= AGES.max_fileage as i64 - 1 && days <= AGES.max_fileage as i64);
}

#[test]
fn calculate_expiry_max_size_file_gets_min_age() {
    let max_bytes = AGES.max_filesize * 1024 * 1024;
    let days = days_until_expiry(max_bytes);
    assert!(days >= AGES.min_fileage as i64 - 1 && days <= AGES.min_fileage as i64);
}

#[test]
fn calculate_expiry_mid_size_is_between_min_and_max() {
    let half_max = AGES.max_filesize * 1024 * 1024 / 2;
    let days = days_until_expiry(half_max);
    assert!(days >= AGES.min_fileage as i64 && days <= AGES.max_fileage as i64);
}

#[test]
fn expiry_is_whole_days_later() {
    let now = Timestamp { nanos: 5 };
    assert_eq!(compute_expiry(now, 31), Some(Timestamp { nanos: 5 + 31 * 86_400_000_000_000 }));
    assert_eq!(compute_expiry(now, -1), Some(Timestamp { nanos: 5 - 86_400_000_000_000 }));
    assert_eq!(compute_expiry(now, i64::MAX), None);
    assert_eq!(calculate_expiry(i64::MAX), None);
}

#[test]
fn build_slug_propagates_extension() {
    let slug = build_slug("photo.jpg", None, 5, false, 7, false);
    assert!(slug.ends_with(".jpg"));
    assert_eq!(slug.len(), 9); // 5 + dot + 3
}

#[test]
fn build_slug_no_extension_when_auto_ext_disabled() {
    let slug = build_slug("binary", None, 5, false, 7, false);
    assert!(!slug.contains('.'));
    assert_eq!(slug.len(), 5);
}

#[test]
fn build_slug_uses_mime_when_auto_ext_enabled_and_no_filename_ext() {
    let slug = build_slug("binary", Some("png"), 5, true, 7, false);
    assert!(slug.ends_with(".png"));
}

#[test]
fn build_slug_filename_ext_takes_priority_over_mime() {
    let slug = build_slug("image.jpg", Some("png"), 5, true, 7, false);
    assert!(slug.ends_with(".jpg"));
}

#[test]
fn build_slug_drops_extension_exceeding_max_len() {
    let slug = build_slug("file.toolongext", None, 5, false, 7, false);
    assert!(!slug.contains('.'));
    assert_eq!(slug.len(), 5);
}

#[test]
fn build_slug_respects_id_length() {
    for len in [3, 8, 16] {
        let slug = build_slug("noext", None, len, false, 7, false);
        assert_eq!(slug.len(), len);
    }
}

#[test]
fn build_slug_keep_name_includes_sanitised_stem() {
    let slug = build_slug("my report.pdf", None, 5, false, 7, true);
    assert!(slug.starts_with("my_report_"));
    assert!(slug.ends_with(".pdf"));
    // "my_report_" + 5 random chars + ".pdf"
    assert_eq!(slug.len(), "my_report_".len() + 5 + ".pdf".len());
}

#[test]
fn build_slug_keep_name_falls_back_when_stem_empty_after_sanitising() {
    // an empty original name has no file stem to keep
    let slug = build_slug("", None, 5, false, 7, true);
    assert!(!slug.contains('_'));
}

#[test]
fn sanitize_filename_stem_replaces_disallowed_chars() {
    assert_eq!(sanitize_filename_stem("a b*c d.txt"), "a_b_c_d");
}

#[test]
fn sanitize_filename_stem_keeps_unicode_letters() {
    assert_eq!(sanitize_filename_stem("ほげ.txt"), "ほげ");
}

#[test]
fn slugs_from_a_given_id() {
    assert_eq!(build_slug_with("Ab1", "x.tar.gz", None, false, 7, false), "Ab1.gz");
    assert_eq!(build_slug_with("Ab1", "x.tar.gz", None, false, 7, true), "x.tar_Ab1.gz");
    assert_eq!(build_slug_with("Ab1", "x.", Some("png"), true, 7, false), "Ab1.png");
    assert_eq!(build_slug_with("Ab1", "x.", Some("png"), false, 7, false), "Ab1");
    assert_eq!(build_slug_with("Ab1", "x", Some("toolongext"), true, 7, false), "Ab1");
    // the limit counts bytes
    assert_eq!(build_slug_with("Ab1", "x.ほげ", None, false, 6, false), "Ab1.ほげ");
    assert_eq!(build_slug_with("Ab1", "x.ほげ", None, false, 5, false), "Ab1");
}

#[test]
fn names_are_parted_as_paths() {
    for name in [
        "", ".", "..", "a", "a.b", ".a", ".a.b", "a.", "a..b", "x/y.z", "x/y.z/", "x/.", "x/..",
        "/", "./.", "a/b/./", "..a", "...", "a.b/c", "x//y.tar.gz//.", "ほげ.txt",
    ] {
        let path = std::path::Path::new(name);
        let ext = path.extension().and_then(|e| e.to_str()).map(str::to_string);
        let stem = path.file_stem().and_then(|e| e.to_str()).map(str::to_string);
        assert_eq!(extension_of(name), ext, "{name}");
        assert_eq!(file_stem_of(name), stem, "{name}");
    }
}

#[test]
fn temp_files_keep_the_extension() {
    assert_eq!(ext_suffix(Some("a.jpg")), Some(".jpg".to_string()));
    assert_eq!(ext_suffix(Some("a.")), Some(".".to_string()));
    assert_eq!(ext_suffix(Some("a")), None);
    assert_eq!(ext_suffix(None), None);
}

#[test]
fn the_client_address() {
    let peer = parse_ip("9.9.9.9");
    assert_eq!(extract_ip(Some("1.2.3.4"), peer, true), parse_ip("1.2.3.4"));
    assert_eq!(extract_ip(Some(" 1.2.3.4 , 5.6.7.8"), peer, true), parse_ip("1.2.3.4"));
    assert_eq!(extract_ip(Some("2001:db8::1,x"), peer, true), parse_ip("2001:db8::1"));
    assert_eq!(extract_ip(Some("nonsense"), peer, true), None);
    assert_eq!(extract_ip(None, peer, true), None);
    assert_eq!(extract_ip(Some("1.2.3.4"), peer, false), peer);
    assert_eq!(extract_ip(Some("1.2.3.4"), None, false), None);
}

#[test]
fn the_digest_does_not_depend_on_chunks() {
    let mut d = UploadDigest::new();
    d.push(b"hello ");
    d.push(b"");
    d.push(b"world");
    assert_eq!(d.size(), 11);
    assert_eq!(d.finish(), *blake3::hash(b"hello world").as_bytes());
    assert_eq!(UploadDigest::new().finish(), *blake3::hash(b"").as_bytes());
}

#[test]
fn ids_have_texts() {
    let id = 0x550e8400_e29b_41d4_a716_446655440000u128;
    assert_eq!(id_string(id), "550e8400-e29b-41d4-a716-446655440000");
    assert_eq!(parse_id(&id_string(id)), Some(id));
    assert_eq!(parse_id("550E8400e29b41d4a716446655440000"), Some(id));
    assert_eq!(parse_id("nonsense"), None);
    assert_eq!(id_string(1), "00000000-0000-0000-0000-000000000001");
    assert_eq!(id_folder("files/", id), "files/550e");
    assert_eq!(uuid_to_path("", id), "550e/550e8400-e29b-41d4-a716-446655440000");
    assert_eq!(join_path("a", "b"), "a/b");
    assert_eq!(join_path("a/", "b"), "a/b");
    assert_ne!(uuid_to_path("f", 1), uuid_to_path("f", 2));
}

const PATH_SEGMENT: &percent_encoding::AsciiSet = &percent_encoding::NON_ALPHANUMERIC
    .remove(b'-')
    .remove(b'.')
    .remove(b'_')
    .remove(b'~');

#[test]
fn links_are_path_segments() {
    for slug in ["abc.txt", "my report_1.pdf", "ほげ", "a/b?c#d%e", "-._~!$&'()*+,;=:@\"", ""] {
        let expected = percent_encoding::utf8_percent_encode(slug, PATH_SEGMENT).to_string();
        assert_eq!(encode_segment(slug), expected);
        let back = percent_encoding::percent_decode_str(&expected).decode_utf8().unwrap();
        assert_eq!(back, slug);
    }
    assert_eq!(encode_segment("a b"), "a%20b");
    assert_eq!(link_to("http://localhost:8080/", "ä.txt"), "http://localhost:8080/%C3%A4.txt");
}
