use filehost::handlers::{
    choose_id_length, download, escape_html, index, is_identity_encoding, lookup_status, serve_policy,
    serving_of, upload_answer, Config, Disposition, Lookup,
};
use filehost::http::{error_page, internal_page, PageKind, Status};
use filehost::media::MimeType;
use filehost::model::Upload;
use filehost::settings::{access_log_format, base_url_or_default, body_limit};
use filehost::timestamp::Timestamp;

#[test]
fn index_returns_200() {
    let a = index(None, "host");
    assert_eq!(a.kind, PageKind::Html);
    assert_eq!(a.attachment, None);
    assert_eq!(a.config, None);
}

#[test]
fn hupl_config_download() {
    let a = index(Some(Config::Hupl), "host");
    assert_eq!(a.kind, PageKind::Json);
    assert_eq!(a.attachment, Some("host.hupl".to_string()));
    let b = index(Some(Config::ShareX), "host");
    assert_eq!(b.kind, PageKind::Json);
    assert_eq!(b.attachment, Some("host.sxcu".to_string()));
}

#[test]
fn unknown_slug_returns_404() {
    assert_eq!(lookup_status(Lookup::Missing).unwrap().code(), 404);
    assert_eq!(lookup_status(Lookup::Failed).unwrap().code(), 500);
    assert_eq!(lookup_status(Lookup::Found), None);
}

#[test]
fn html_served_as_plaintext_attachment() {
    let s = serve_policy(Some("text/html"));
    assert_eq!(s.disposition, Disposition::Attachment);
    assert_eq!(s.mime.text, "text/plain");
    let s = serve_policy(Some("text/javascript; charset=utf-8"));
    assert_eq!(s.disposition, Disposition::Attachment);
    assert_eq!(s.mime.text, "text/plain");
}

#[test]
fn served_types() {
    for (stored, served, shown) in [
        (Some("text/plain"), "text/plain", true),
        (Some("text/plain; charset=utf-8"), "text/plain; charset=utf-8", true),
        (Some("image/png"), "image/png", true),
        (Some("image/svg+xml"), "image/svg+xml", true),
        (Some("video/mp4"), "video/mp4", true),
        (Some("audio/ogg"), "audio/ogg", true),
        (Some("application/json"), "application/json", true),
        (Some("application/pdf"), "application/pdf", true),
        (Some("application/zip"), "application/zip", false),
        (Some("nonsense"), "application/octet-stream", false),
        (None, "application/octet-stream", false),
    ] {
        let s = serve_policy(stored);
        assert_eq!(s.mime.text, served);
        assert_eq!(s.disposition == Disposition::Inline, shown, "{served}");
    }
    let s = serving_of(MimeType {
        text: "text/css".to_string(),
        kind: "text".to_string(),
        subtype: "css".to_string(),
    });
    assert_eq!(s.mime.text, "text/plain");
}

#[test]
fn upload_multiple() {
    let links = vec!["http://h/a".to_string(), "http://h/b".to_string()];
    let page = upload_answer(&links, false);
    assert_eq!(page.status, Status::Success);
    assert_eq!(page.kind, PageKind::Plain);
    assert_eq!(page.body.lines().count(), 2);
    assert_eq!(page.body, "http://h/a\nhttp://h/b\n");
    assert_eq!(upload_answer(&vec![], false).body, "");
}

#[test]
fn formatted_answers_are_html() {
    let page = upload_answer(&vec!["http://h/?a=1&b=2".to_string()], true);
    assert_eq!(page.kind, PageKind::Html);
    assert_eq!(
        page.body,
        "<pre>Access your file here: <a href=\"http://h/?a=1&b=2\">http://h/?a=1&amp;b=2</a></pre>\n"
    );
}

#[test]
fn html_is_escaped() {
    assert_eq!(escape_html("<a href=\"x\">'&amp;'</a>"),
        "&lt;a href=&quot;x&quot;&gt;&#039;&amp;amp;&#039;&lt;/a&gt;");
    assert_eq!(escape_html("plain ほげ"), "plain ほげ");
    assert_eq!(escape_html(""), "");
}

#[test]
fn id_lengths_are_held_in_bounds() {
    assert_eq!(choose_id_length(None, 3, 24), 3);
    assert_eq!(choose_id_length(Some(1), 3, 24), 3);
    assert_eq!(choose_id_length(Some(8), 3, 24), 8);
    assert_eq!(choose_id_length(Some(100), 3, 24), 24);
}

#[test]
fn error_pages() {
    let p = error_page(Status::Forbidden, "File type not allowed.");
    assert_eq!(p.status.code(), 403);
    assert_eq!(p.kind, PageKind::Plain);
    assert_eq!(p.body, "403 Forbidden File type not allowed.");
    assert_eq!(internal_page().body, "500 Internal Server Error Something went wrong.");
}

#[test]
fn status_lines_are_the_standard_ones() {
    for s in [
        Status::Success,
        Status::Created,
        Status::NoContent,
        Status::BadRequest,
        Status::Unauthorized,
        Status::Forbidden,
        Status::NotFound,
        Status::TooManyRequests,
        Status::InternalServerError,
    ] {
        let standard = actix_web::http::StatusCode::from_u16(s.code()).unwrap();
        assert_eq!(s.line(), standard.to_string());
    }
}

#[test]
fn identity_encoding() {
    assert!(is_identity_encoding(b"identity"));
    assert!(is_identity_encoding(b"IdenTity"));
    assert!(!is_identity_encoding(b"identit"));
    assert!(!is_identity_encoding(b"gzip"));
    assert!(!is_identity_encoding(b"identityx"));
}

#[test]
fn settings_defaults() {
    assert_eq!(base_url_or_default(None, "127.0.0.1", 8080), "http://127.0.0.1:8080/");
    assert_eq!(base_url_or_default(Some("https://x/".to_string()), "a", 1), "https://x/");
    assert!(access_log_format(true).starts_with("%{r}a "));
    assert!(access_log_format(false).starts_with("%a "));
    assert_eq!(body_limit(512), Some(536_870_912));
    assert_eq!(body_limit(usize::MAX), None);
}

#[test]
fn download_names_file_and_type() {
    let upload = |content_type: Option<&str>| Upload {
        id: 0x550e8400e29b41d4a716446655440000,
        upload_timestamp: Timestamp { nanos: 0 },
        expiry_timestamp: Timestamp { nanos: 1 },
        deleted_timestamp: None,
        original_name: "page.html".to_string(),
        slug: "abc.html".to_string(),
        file_size: 3,
        hash: None,
        uploader_ip: None,
        content_type: content_type.map(|s| s.to_string()),
        user_agent: None,
    };
    let d = download("files", &upload(Some("text/html")));
    assert_eq!(d.path, "files/550e/550e8400-e29b-41d4-a716-446655440000");
    assert_eq!(d.file_name, "page.html");
    assert_eq!(d.serving.mime.text, "text/plain");
    assert_eq!(d.serving.disposition, Disposition::Attachment);

    let d = download("files/", &upload(Some("image/png")));
    assert_eq!(d.path, "files/550e/550e8400-e29b-41d4-a716-446655440000");
    assert_eq!(d.serving.mime.text, "image/png");
    assert_eq!(d.serving.disposition, Disposition::Inline);

    let d = download("files", &upload(None));
    assert_eq!(d.serving.mime.text, "application/octet-stream");
    assert_eq!(d.serving.disposition, Disposition::Attachment);
}
