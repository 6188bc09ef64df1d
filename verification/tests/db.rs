use filehost::db::{
    count_in, delete_matching, hourly_counts_at, hourly_counts_on, list_uploads, slug_check_sql,
    slug_taken_sql, uploads_for_nsfw_scan, uploads_hourly_counts, DeleteTarget, HourRow, ListParam, UploadFilter,
};
use filehost::ip_text::parse_ip;
use filehost::nsfw::{model_input, picture_input, planar, scan_summary, Picture, INPUT_SIZE};
use filehost::timestamp::{Timestamp, FIRST_NANO};
use filehost::util::parse_rfc3339;

fn filter() -> UploadFilter {
    UploadFilter {
        ip: None,
        slug: None,
        include_deleted: true,
        has_min_score: false,
        limit: 100,
        offset: 0,
    }
}

const HEAD: &str = "SELECT id, upload_timestamp, expiry_timestamp, deleted_timestamp, \
    original_name, slug, file_size, hash, uploader_ip, content_type, user_agent, nsfw_score \
    FROM uploads WHERE 1=1";

#[test]
fn listings_bind_what_they_ask_for() {
    let q = list_uploads(&filter());
    assert_eq!(q.sql, format!("{HEAD} ORDER BY upload_timestamp DESC LIMIT ? OFFSET ?"));
    assert!(matches!(q.params[..], [ListParam::Number(100), ListParam::Number(0)]));
    let q = list_uploads(&UploadFilter {
        ip: parse_ip("1.2.3.4"),
        slug: Some("s".to_string()),
        include_deleted: false,
        has_min_score: true,
        limit: 5,
        offset: 6,
    });
    assert_eq!(
        q.sql,
        format!(
            "{HEAD} AND deleted_timestamp IS NULL AND nsfw_score >= ? AND uploader_ip = ? \
             AND slug = ? ORDER BY upload_timestamp DESC LIMIT ? OFFSET ?"
        )
    );
    assert_eq!(q.sql.matches('?').count(), q.params.len());
    match &q.params[..] {
        [ListParam::MinScore, ListParam::Ip(ip), ListParam::Slug(s), ListParam::Number(5), ListParam::Number(6)] =>
        {
            assert_eq!(Some(*ip), parse_ip("1.2.3.4"));
            assert_eq!(s, "s");
        }
        other => panic!("{other:?}"),
    }
}

#[test]
fn deletions_pick_live_uploads() {
    let ip = parse_ip("1.2.3.4").unwrap();
    for (target, condition) in [
        (DeleteTarget::Expired, "expiry_timestamp <= NOW()"),
        (DeleteTarget::Id(1), "id = ?"),
        (DeleteTarget::Slug("s".to_string()), "slug = ?"),
        (DeleteTarget::Ip(ip), "uploader_ip = ?"),
        (DeleteTarget::IpRange(ip, ip), "uploader_ip BETWEEN ? AND ?"),
    ] {
        assert_eq!(
            delete_matching(&target),
            format!(
                "SELECT id, slug, original_name FROM uploads WHERE {condition} \
                 AND deleted_timestamp IS NULL"
            )
        );
    }
}

#[test]
fn other_queries() {
    let all = "SELECT id FROM uploads WHERE deleted_timestamp IS NULL AND content_type LIKE 'image/%'";
    assert_eq!(uploads_for_nsfw_scan(true), all);
    assert_eq!(uploads_for_nsfw_scan(false), format!("{all} AND nsfw_score IS NULL"));
    assert!(slug_check_sql(false)
        .ends_with("slug = ? AND (deleted_timestamp IS NULL OR deleted_timestamp > NOW())"));
    assert!(slug_taken_sql().ends_with("slug = ? AND deleted_timestamp IS NULL"));
    assert!(slug_check_sql(true).ends_with("slug = ?"));
}

fn row(bucket: &str, count: i64) -> HourRow {
    HourRow { bucket: bucket.to_string(), count }
}

#[test]
fn hours_without_uploads_count_zero() {
    let now = parse_rfc3339("2026-03-01T01:59:59.5Z").unwrap();
    let rows = vec![row("2026-03-01T00:00:00", 4), row("2026-02-28T23:00:00", 7), row("x", 1)];
    let counts = hourly_counts_at(&rows, 4, now);
    let got: Vec<(String, i64)> = counts.into_iter().map(|c| (c.hour, c.count)).collect();
    assert_eq!(
        got,
        vec![
            ("2026-02-28T22:00:00Z".to_string(), 0),
            ("2026-02-28T23:00:00Z".to_string(), 7),
            ("2026-03-01T00:00:00Z".to_string(), 4),
            ("2026-03-01T01:00:00Z".to_string(), 0),
        ]
    );
    assert_eq!(hourly_counts_at(&rows, 0, now).len(), 0);
    assert_eq!(hourly_counts_at(&rows, i64::MIN, now).len(), 0);
    let same: Vec<(String, i64)> = hourly_counts_on(&rows, 4, now)
        .unwrap()
        .into_iter()
        .map(|c| (c.hour, c.count))
        .collect();
    assert_eq!(same, got);
    assert_eq!(hourly_counts_on(&rows, 0, now).unwrap().len(), 0);
    assert_eq!(hourly_counts_on(&rows, i64::MIN, now).unwrap().len(), 0);
    assert!(hourly_counts_on(&rows, i64::MAX, now).is_none());
    let first = Timestamp { nanos: FIRST_NANO + 1 };
    let before_our_era = hourly_counts_on(&rows, 1, first).unwrap();
    assert_eq!((before_our_era.len(), before_our_era[0].hour.as_str()), (1, ""));
    assert!(hourly_counts_on(&rows, 2, first).is_none());
    assert_eq!(uploads_hourly_counts(&rows, 168).unwrap().len(), 168);
    assert_eq!(uploads_hourly_counts(&rows, 1).unwrap().len(), 1);
    assert!(uploads_hourly_counts(&rows, i64::MAX).is_none());
    assert_eq!(count_in(&vec![row("a", 1), row("a", 2)], "a"), 2);
    assert_eq!(count_in(&rows, "y"), 0);
}

#[test]
fn images_are_laid_out_by_colour() {
    assert_eq!(planar(&[1, 2, 3, 4, 5, 6]), vec![1, 4, 2, 5, 3, 6]);
    assert_eq!(planar(&[]), Vec::<u8>::new());
    let rgb: Vec<u8> = (0..30).collect();
    let out = planar(&rgb);
    for pixel in 0..10 {
        for colour in 0..3 {
            assert_eq!(out[colour * 10 + pixel], rgb[3 * pixel + colour]);
        }
    }
    assert_eq!(scan_summary(3, 1, false), "Done: 3 scanned, 1 error(s).");
    assert_eq!(scan_summary(0, 0, true), "Done (dry run): 0 scanned, 0 error(s).");
}

#[test]
fn images_are_scaled_for_the_model() {
    let side = INPUT_SIZE as usize;
    let img = image::RgbImage::from_fn(30, 20, |x, y| {
        image::Rgb([x as u8 * 8, y as u8 * 12, if x > y { 255 } else { 3 }])
    });
    let mut png = std::io::Cursor::new(Vec::new());
    img.write_to(&mut png, image::ImageFormat::Png).unwrap();
    let filter = image::imageops::FilterType::Triangle;
    let scaled = image::imageops::resize(&img, INPUT_SIZE, INPUT_SIZE, filter).into_raw();
    let input = model_input(png.get_ref()).unwrap();
    assert_eq!(input.len(), 3 * side * side);
    assert_eq!(input, planar(&scaled));

    assert_eq!(model_input(b"no image"), None);
    assert_eq!(picture_input(None), None);
    let short = Picture { width: 2, height: 2, rgb: vec![0; 11] };
    assert_eq!(picture_input(Some(short)), None);
    let grey = Picture { width: 1, height: 1, rgb: vec![9, 8, 7] };
    let input = picture_input(Some(grey)).unwrap();
    assert_eq!((input[0], input[side * side], input[2 * side * side]), (9, 8, 7));
}
