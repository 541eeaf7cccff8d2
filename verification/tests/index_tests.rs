use shelf::index::{
    chapter_refresh, derive_group_name, folder_has_pdf, match_library_root,
    reindex_jobs, series_folder_under_root, series_title, ChapterRefresh,
};
use shelf::index::hash_changed;
use shelf::jobs::JobKind;
use shelf::models::LibraryRoot;

#[test]
fn chooses_most_specific_matching_root() {
    let roots = vec![
        LibraryRoot { id: 1, path: "/Library".into(), added_at: "".into() },
        LibraryRoot { id: 2, path: "/Library/Anime".into(), added_at: "".into() },
    ];
    let matched = match_library_root(&roots, "/Library/Anime/Series/S1/01.mp4").unwrap();
    assert_eq!(matched.id, 2);
}

#[test]
fn nested_series_derives_top_level_group() {
    let root = "/tmp/preview-indexer-group";
    let series = format!("{root}/槍彈辯駁/未來篇");
    assert_eq!(derive_group_name(root, &series).as_deref(), Some("槍彈辯駁"));
    let standalone = format!("{root}/藍色監獄");
    assert_eq!(derive_group_name(root, &standalone), None);
    let hidden = format!("{root}/.ALPHA TRAUMA/S1");
    assert_eq!(derive_group_name(root, &hidden).as_deref(), Some("ALPHA TRAUMA"));
}

#[test]
fn roots_match_by_whole_components() {
    let roots = vec![
        LibraryRoot { id: 1, path: "/Lib".into(), added_at: "".into() },
        LibraryRoot { id: 2, path: "/Library/".into(), added_at: "".into() },
        LibraryRoot { id: 3, path: "/Library".into(), added_at: "".into() },
    ];
    assert_eq!(match_library_root(&roots, "/Library/a.pdf").unwrap().id, 3);
    assert_eq!(match_library_root(&roots, "/Lib/x.pdf").unwrap().id, 1);
    assert!(match_library_root(&roots, "/Other/x.pdf").is_none());
    assert!(match_library_root(&[], "/x").is_none());
}

#[test]
fn series_folders_lie_strictly_inside_the_root() {
    assert!(series_folder_under_root("/root", "/root/My Series/S1/Episode 01.mp4"));
    assert!(series_folder_under_root("/root", "/root/.ALPHA TRAUMA/temp_第02话/第02话.mp4"));
    assert!(!series_folder_under_root("/root", "/root/lonely.mp4"));
    assert!(!series_folder_under_root("/root", "/elsewhere/a/b.mp4"));
    assert!(!series_folder_under_root("/root", "/"));
}

#[test]
fn series_titles_and_groups() {
    assert_eq!(series_title("/lib/.Hidden Show "), "Hidden Show");
    assert_eq!(series_title("/"), "Unknown");
    assert_eq!(derive_group_name("/lib", "/other/a/b"), None);
    assert_eq!(derive_group_name("/lib", "/lib/.../b"), None);
}

#[test]
fn chapters_are_reindexed_only_when_changed() {
    assert_eq!(
        chapter_refresh(true, Some(5), Some(10), false, true, 5, 10),
        ChapterRefresh::Unchanged
    );
    assert_eq!(
        chapter_refresh(true, Some(5), Some(10), false, false, 5, 10),
        ChapterRefresh::NeedsHash
    );
    assert_eq!(
        chapter_refresh(true, Some(5), Some(10), true, true, 5, 10),
        ChapterRefresh::Reindex
    );
    assert_eq!(
        chapter_refresh(true, Some(6), Some(10), false, true, 5, 10),
        ChapterRefresh::Reindex
    );
    assert_eq!(chapter_refresh(false, None, None, false, false, 5, 10), ChapterRefresh::Reindex);
}

#[test]
fn pdf_presence_ignores_case() {
    assert!(folder_has_pdf(&["a.mp4".to_string(), "B.PDF".to_string()]));
    assert!(!folder_has_pdf(&["a.mp4".to_string(), "pdf".to_string()]));
    assert!(!folder_has_pdf(&[]));
}

#[test]
fn changed_pdf_queues_index_cover_and_hash() {
    let jobs: Vec<JobKind<(), (), ()>> = reindex_jobs(4, 9, "/Library/S/Vol 01.PDF");
    assert_eq!(jobs.len(), 3);
    assert!(matches!(&jobs[0], JobKind::Indexing { chapter_id: 9, file_path } if file_path == "/Library/S/Vol 01.PDF"));
    assert!(matches!(&jobs[1], JobKind::CoverGeneration { series_id: 4, chapter_id: 9, .. }));
    assert!(matches!(&jobs[2], JobKind::FileHash { chapter_id: 9, .. }));
}

#[test]
fn changed_video_queues_index_and_hash_only() {
    let jobs: Vec<JobKind<(), (), ()>> = reindex_jobs(4, 10, "/Library/S/ep1.mp4");
    assert_eq!(jobs.len(), 2);
    assert!(matches!(&jobs[0], JobKind::Indexing { chapter_id: 10, .. }));
    assert!(matches!(&jobs[1], JobKind::FileHash { chapter_id: 10, file_path } if file_path == "/Library/S/ep1.mp4"));
}

#[test]
fn only_a_changed_hash_makes_pages_stale() {
    assert!(!hash_changed(None, "abc"));
    assert!(!hash_changed(Some("abc"), "abc"));
    assert!(hash_changed(Some("abc"), "abd"));
}
