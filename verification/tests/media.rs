use filehost::media::{
    choose_mime, detect_content_type, is_octet_stream, resolve_mime, settle, sniff_well_known,
    FileKind, MimeType, SNIFF_LIMIT,
};

fn text(m: Option<MimeType>) -> Option<String> {
    m.map(|m| m.text)
}

fn mime(t: &str, k: &str, s: &str) -> MimeType {
    MimeType { text: t.to_string(), kind: k.to_string(), subtype: s.to_string() }
}

#[test]
fn detect_content_type_falls_back_to_extension_guess_when_media_type_missing() {
    // the signature table identifies 7z from just its signature but lists no
    // media types for it, so this exercises the guess by extension.
    let sevenzip_signature: &[u8] = &[0x37, 0x7A, 0xBC, 0xAF, 0x27, 0x1C];

    let detected = detect_content_type(sevenzip_signature, Some("7z"));

    assert_eq!(text(detected), Some("application/x-7z-compressed".to_string()));
}

fn both(bytes: &[u8], ext: &str, expected: &str) {
    assert_eq!(text(detect_content_type(bytes, Some(ext))), Some(expected.to_string()), "{ext}");
    assert_eq!(text(detect_content_type(bytes, None)), Some(expected.to_string()), "{ext}");
}

#[test]
fn detects_png() {
    let png = [
        0x89, b'P', b'N', b'G', 0x0d, 0x0a, 0x1a, 0x0a, 0, 0, 0, 13, b'I', b'H', b'D', b'R', 0, 0,
        0, 1, 0, 0, 0, 1, 8, 2, 0, 0, 0, 0x90, 0x77, 0x53, 0xde, 0, 0, 0, 0, b'I', b'E', b'N',
        b'D', 0xae, 0x42, 0x60, 0x82,
    ];
    both(&png, "png", "image/png");
}

#[test]
fn detects_webp() {
    both(b"RIFF\x24\x00\x00\x00WEBPVP8 \x18\x00\x00\x00", "webp", "image/webp");
}

#[test]
fn detects_webm() {
    both(b"\x1a\x45\xdf\xa3\x9f\x42\x86\x81\x01\x42\x82\x84webm", "webm", "video/webm");
}

#[test]
fn detects_mp4() {
    both(b"\x00\x00\x00\x1cftypXXXX\x00\x00\x02\x00", "mp4", "video/mp4");
}

#[test]
fn detects_plain_text() {
    both(b"just some text\n", "txt", "text/plain");
}

#[test]
fn sniffs_only_whole_signatures() {
    assert_eq!(text(sniff_well_known(b"RIFFxxxxWEBP")), Some("image/webp".to_string()));
    assert_eq!(text(sniff_well_known(b"RIFFxxxxWAVE")), None);
    assert_eq!(text(sniff_well_known(b"RIFFxxxxWEB")), None);
    assert_eq!(text(sniff_well_known(b"\x1a\x45\xdf\xa3webm")), Some("video/webm".to_string()));
    assert_eq!(text(sniff_well_known(b"\x1a\x45\xdf\xa3web")), None);
    assert_eq!(text(sniff_well_known(b"xxxxftyp")), Some("video/mp4".to_string()));
    assert_eq!(text(sniff_well_known(b"xxxxfty")), None);
    assert_eq!(text(sniff_well_known(b"")), None);
}

#[test]
fn a_guess_goes_before_a_listed_type() {
    let png = || Some(mime("image/png", "image", "png"));
    let octets = || Some(mime("application/octet-stream", "application", "octet-stream"));
    assert_eq!(text(choose_mime(&vec![None, png()], octets())), Some("image/png".to_string()));
    assert_eq!(text(choose_mime(&vec![None], png())), Some("image/png".to_string()));
    assert_eq!(text(choose_mime(&vec![], octets())), None);
    assert_eq!(
        text(choose_mime(&vec![octets()], png())),
        Some("application/octet-stream".to_string())
    );
    assert!(is_octet_stream(&octets().unwrap()));
    assert!(!is_octet_stream(&png().unwrap()));
}

#[test]
fn kinds_resolve_by_extension_first() {
    let kind = FileKind {
        is_default: false,
        extensions: vec!["nosuchext".to_string(), "png".to_string()],
        media_types: vec!["image/gif".to_string()],
    };
    let m = resolve_mime(&kind).unwrap();
    assert_eq!((m.text.as_str(), m.kind.as_str(), m.subtype.as_str()), ("image/png", "image", "png"));
    let listed = FileKind {
        is_default: true,
        extensions: vec![],
        media_types: vec!["Text/Html; charset=utf-8".to_string(), "image/gif".to_string()],
    };
    let m = resolve_mime(&listed).unwrap();
    assert_eq!((m.kind.as_str(), m.subtype.as_str()), ("text", "html"));
    let none =
        FileKind { is_default: true, extensions: vec![], media_types: vec!["nonsense".to_string()] };
    assert!(resolve_mime(&none).is_none());
}

#[test]
fn content_goes_before_extension() {
    let a = || Some(mime("a/a", "a", "a"));
    let b = || Some(mime("b/b", "b", "b"));
    let c = || Some(mime("c/c", "c", "c"));
    assert_eq!(text(settle(false, a(), b(), Some(c()))), Some("a/a".to_string()));
    assert_eq!(text(settle(false, None, b(), Some(c()))), None);
    assert_eq!(text(settle(true, a(), b(), Some(c()))), Some("b/b".to_string()));
    assert_eq!(text(settle(true, a(), None, Some(c()))), Some("c/c".to_string()));
    assert_eq!(text(settle(true, a(), None, Some(None))), None);
    assert_eq!(text(settle(true, a(), None, None)), Some("a/a".to_string()));
    assert_eq!(SNIFF_LIMIT, 1024);
}
