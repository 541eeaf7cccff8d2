use shelf::db::{adjacent_chapter, series_order, series_query, session_is_honoured, session_viewer, SqlValue};
use shelf::models::{SeriesFilter, Viewer};
use shelf::db::{detect_series_media, progress_update_applies, UserRecord};
use shelf::models::{ContentType, SourceFormat, UserRole};

fn record(role: UserRole, access_all: bool, hash: &str) -> UserRecord {
    UserRecord {
        id: 4,
        username: "reader".into(),
        display_name: "Reader".into(),
        password_hash: hash.into(),
        role,
        access_all,
        disabled: false,
        failed_attempts: 2,
        locked_until: Some("2026-01-01T00:00:00Z".into()),
        created_at: "2025-01-01".into(),
    }
}

#[test]
fn user_records_hide_the_hash() {
    let owner = record(UserRole::Owner, false, "$argon2id$x").into_user();
    assert!(owner.access_all);
    assert!(owner.has_password);
    assert_eq!(owner.username, "reader");
    let member = record(UserRole::Member, false, "").into_user();
    assert!(!member.access_all);
    assert!(!member.has_password);
    assert_eq!(member.locked_until.as_deref(), Some("2026-01-01T00:00:00Z"));
}

#[test]
fn series_kind_from_folder_words() {
    assert_eq!(detect_series_media("/lib/Movies", "Heat"), (ContentType::Video, SourceFormat::Mp4));
    assert_eq!(detect_series_media("/lib/Books", "Dune"), (ContentType::Document, SourceFormat::Pdf));
    assert_eq!(detect_series_media("/lib/Webtoons", "Tower"), (ContentType::Manhwa, SourceFormat::Pdf));
    assert_eq!(detect_series_media("/lib/Stuff", "One Piece"), (ContentType::Manga, SourceFormat::Pdf));
    assert_eq!(
        detect_series_media("/lib/Notes", "report.pdf"),
        (ContentType::Document, SourceFormat::Pdf)
    );
    assert_eq!(detect_series_media("/lib/x", "clip.MP4"), (ContentType::Video, SourceFormat::Mp4));
}

#[test]
fn progress_last_write_wins() {
    assert!(progress_update_applies(None, "2026-01-02T00:00:00Z"));
    assert!(!progress_update_applies(Some("2026-01-02T00:00:00Z"), "2026-01-01T00:00:00Z"));
    assert!(progress_update_applies(Some("2026-01-01T00:00:00Z"), "2026-01-02T00:00:00Z"));
    assert!(progress_update_applies(Some("2026-01-02T00:00:00Z"), "2026-01-02T00:00:00Z"));
    assert!(!progress_update_applies(Some("2026-01-02"), "2026-01-0"));
    assert!(progress_update_applies(Some("a"), "ab"));
}

#[test]
fn series_listing_binds_viewer_then_filters() {
    let member = Viewer { user_id: 7, access_all: false };
    let plain = SeriesFilter { sort: "title".into(), ..SeriesFilter::default() };
    let (sql, args) = series_query(&member, &plain);
    assert!(sql.starts_with("SELECT s.id, s.root_id"));
    assert!(sql.ends_with(" ORDER BY s.title COLLATE NOCASE ASC"));
    assert_eq!(
        args,
        vec![SqlValue::Integer(7), SqlValue::Integer(7), SqlValue::Integer(0), SqlValue::Integer(7)]
    );
    assert_eq!(sql.matches('?').count(), args.len());

    let owner = Viewer { user_id: 1, access_all: true };
    let filter = SeriesFilter {
        search: Some("blue".into()),
        favorites_only: true,
        unread_only: true,
        collection_id: Some(3),
        reading_mode: Some("webtoon".into()),
        content_type: Some("manga".into()),
        sort: "last_read".into(),
    };
    let (sql, args) = series_query(&owner, &filter);
    assert!(sql.contains(" AND s.favorite = 1 AND COALESCE(agg.unread_count, 0) > 0 AND EXISTS"));
    assert!(sql.ends_with(" ORDER BY COALESCE(p.last_read, s.updated_at) DESC"));
    assert_eq!(args.len(), 4 + 1 + 1 + 1 + 5);
    assert_eq!(args[2], SqlValue::Integer(1));
    assert_eq!(args[4], SqlValue::Integer(3));
    assert_eq!(args[5], SqlValue::Text("webtoon".into()));
    assert_eq!(args[6], SqlValue::Text("manga".into()));
    assert!(args[7..].iter().all(|a| *a == SqlValue::Text("%blue%".into())));
    assert_eq!(sql.matches('?').count(), args.len());
    assert_eq!(series_order("added"), "s.created_at DESC");
    assert_eq!(series_order("progress"), "COALESCE(agg.progress_percent, 0) DESC");
    assert_eq!(series_order("whatever"), "s.title COLLATE NOCASE ASC");
}

#[test]
fn adjacent_chapters_skip_missing_files() {
    // ids 10, 11 (missing), 12, 13
    let chapters = [(10, false), (11, true), (12, false), (13, false)];
    assert_eq!(adjacent_chapter(&chapters, 10, true), Some(2));
    assert_eq!(adjacent_chapter(&chapters, 12, false), Some(0));
    assert_eq!(adjacent_chapter(&chapters, 13, true), None);
    assert_eq!(adjacent_chapter(&chapters, 10, false), None);
    assert_eq!(adjacent_chapter(&chapters, 11, true), None);
    assert_eq!(adjacent_chapter(&chapters, 99, true), None);
    // next and back again
    let there = adjacent_chapter(&chapters, 12, true).unwrap();
    let back = adjacent_chapter(&chapters, chapters[there].0, false).unwrap();
    assert_eq!(chapters[back].0, 12);
}

#[test]
fn sessions_expire_by_either_deadline() {
    let now = "2025-06-01T12:00:00+00:00";
    assert!(session_is_honoured("2025-06-10T00:00:00+00:00", "2025-08-01T00:00:00+00:00", now, false));
    assert!(!session_is_honoured("2025-06-10T00:00:00+00:00", "2025-08-01T00:00:00+00:00", now, true));
    assert!(!session_is_honoured("2025-06-01T11:59:59+00:00", "2025-08-01T00:00:00+00:00", now, false));
    assert!(!session_is_honoured("2025-06-10T00:00:00+00:00", now, now, false));
    let owner = session_viewer(1, UserRole::Owner, false);
    assert!(owner.access_all);
    let member = session_viewer(5, UserRole::Member, false);
    assert_eq!((member.user_id, member.access_all), (5, false));
}
