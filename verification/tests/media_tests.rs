use shelf::media::{
    content_range, detect_media_kind, infer_series_media, is_mp4_path, is_pdf_path,
    is_supported_media_path, mime_for_path, parse_byte_range, parse_chapter_id,
    parse_protocol_target, plan_range, range_headers, ByteRange, ProtocolTarget,
};
use shelf::media::{image_headers, preflight_headers};
use shelf::models::{ContentType, SourceFormat};

fn paths(v: &[&str]) -> Vec<String> {
    v.iter().map(|s| s.to_string()).collect()
}

#[test]
fn classifies_pdf_and_mp4() {
    let pdf = detect_media_kind("/lib/Notes/report.pdf");
    assert_eq!(pdf.content_type, ContentType::Document);
    assert_eq!(pdf.source_format, SourceFormat::Pdf);
    assert!(pdf.supported);

    let manga = detect_media_kind("/lib/One Piece/Chapter 001.pdf");
    assert_eq!(manga.content_type, ContentType::Manga);

    let video = detect_media_kind("/lib/Show/Episode 01.mp4");
    assert_eq!(video.content_type, ContentType::Video);
    assert_eq!(video.source_format, SourceFormat::Mp4);
}

#[test]
fn infers_series_from_files() {
    let videos = paths(&["S1/01.mp4", "S1/02.mp4", "bonus.pdf"]);
    assert_eq!(
        infer_series_media(&videos),
        Some((ContentType::Video, SourceFormat::Mp4))
    );
    let docs = paths(&["manual.pdf", "appendix.pdf"]);
    assert_eq!(
        infer_series_media(&docs),
        Some((ContentType::Document, SourceFormat::Pdf))
    );
    let manga = paths(&["Chapter 01.pdf", "Chapter 02.pdf"]);
    assert_eq!(
        infer_series_media(&manga),
        Some((ContentType::Manga, SourceFormat::Pdf))
    );
}

#[test]
fn infers_video_series_when_mp4_dominates() {
    let files = paths(&["S1/01.mp4", "S1/02.mp4", "chapter.pdf"]);
    let kind = infer_series_media(&files).unwrap();
    assert_eq!(kind.0, ContentType::Video);
    assert_eq!(kind.1, SourceFormat::Mp4);
}

#[test]
fn infers_pdf_series_when_pdf_dominates() {
    let files = paths(&["第01话.pdf", "第02话.pdf", "teaser.mp4"]);
    let kind = infer_series_media(&files).unwrap();
    assert_eq!(kind.0, ContentType::Manga);
    assert_eq!(kind.1, SourceFormat::Pdf);
}

#[test]
fn infers_document_series_for_plain_pdfs() {
    let files = paths(&["manual.pdf", "appendix.pdf"]);
    let kind = infer_series_media(&files).unwrap();
    assert_eq!(kind.0, ContentType::Document);
    assert_eq!(kind.1, SourceFormat::Pdf);
}

#[test]
fn parses_byte_ranges() {
    assert_eq!(
        parse_byte_range(Some("bytes=0-1"), 1000),
        Some(ByteRange { start: 0, end: 1 })
    );
    assert_eq!(
        parse_byte_range(Some("bytes=10-"), 100),
        Some(ByteRange { start: 10, end: 99 })
    );
    assert_eq!(
        parse_byte_range(Some("bytes=-10"), 100),
        Some(ByteRange { start: 90, end: 99 })
    );
    assert_eq!(parse_byte_range(Some("bytes=500-10"), 100), None);
}

#[test]
fn parses_protocol_chapter_ids() {
    assert_eq!(parse_chapter_id("/12"), Some(12));
    assert_eq!(parse_chapter_id("chapter/12"), Some(12));
    assert_eq!(parse_chapter_id("/chapter/12/"), Some(12));
    assert_eq!(parse_chapter_id("nope"), None);
}

#[test]
fn parses_protocol_page_and_file_targets() {
    assert_eq!(
        parse_protocol_target("/page-12-0-1400", None),
        Some(ProtocolTarget::Page { chapter_id: 12, page_index: 0, width: 1400 })
    );
    assert_eq!(
        parse_protocol_target("/page/12/2/800", None),
        Some(ProtocolTarget::Page { chapter_id: 12, page_index: 2, width: 800 })
    );
    assert_eq!(
        parse_protocol_target("/page%2F12%2F1%2F1200", None),
        Some(ProtocolTarget::Page { chapter_id: 12, page_index: 1, width: 1200 })
    );
    assert_eq!(
        parse_protocol_target("/page-9-0", Some("width=1600")),
        Some(ProtocolTarget::Page { chapter_id: 9, page_index: 0, width: 1600 })
    );
    assert_eq!(
        parse_protocol_target("/18", None),
        Some(ProtocolTarget::File { chapter_id: 18 })
    );
}

#[test]
fn parses_protocol_tile_targets() {
    assert_eq!(
        parse_protocol_target("/tile-12-1-7-1200", None),
        Some(ProtocolTarget::Tile { chapter_id: 12, page_index: 1, tile_index: 7, width: 1200 })
    );
    assert_eq!(
        parse_protocol_target("/tile%2F12%2F0%2F3%2F900", None),
        Some(ProtocolTarget::Tile { chapter_id: 12, page_index: 0, tile_index: 3, width: 900 })
    );
    assert_eq!(
        parse_protocol_target("/tile-4-0-0", Some("width=1600")),
        Some(ProtocolTarget::Tile { chapter_id: 4, page_index: 0, tile_index: 0, width: 1600 })
    );
    assert_eq!(parse_protocol_target("/tile-4-0", None), None);
}

#[test]
fn range_plan_for_a_file_with_spaces_sets_mp4_mime() {
    let plan = plan_range("/tmp/shelf-media-smoke/Episode 01.mp4", 16, Some("bytes=4-7"));
    assert!(plan.partial);
    assert_eq!((plan.start, plan.end, plan.length), (4, 7, 4));
    assert_eq!(plan.mime, "video/mp4");
    assert_eq!(content_range(&plan), "bytes 4-7/16");
    let headers = range_headers(&plan);
    assert_eq!(headers[0], ("content-type", "video/mp4".to_string()));
    assert_eq!(headers[2], ("content-length", "4".to_string()));
    assert_eq!(headers[4], ("content-range", "bytes 4-7/16".to_string()));
}

#[test]
fn large_files_without_a_range_get_the_first_window() {
    let size: u64 = 64 * 1024 * 1024;
    let plan = plan_range("movie.mp4", size, None);
    assert!(plan.partial);
    assert_eq!((plan.start, plan.end), (0, 2 * 1024 * 1024 - 1));
    let small = plan_range("a.pdf", 10, None);
    assert!(!small.partial);
    assert_eq!((small.start, small.end, small.length), (0, 9, 10));
    assert_eq!(range_headers(&small).len(), 4);
    let empty = plan_range("a.pdf", 0, None);
    assert_eq!(empty.length, 0);
}

#[test]
fn media_paths_by_extension() {
    assert!(is_pdf_path("A.PDF"));
    assert!(is_mp4_path("clip.Mp4"));
    assert!(!is_supported_media_path("notes.txt"));
    assert_eq!(mime_for_path("x.pdf"), "application/pdf");
    assert_eq!(mime_for_path("x.mp4"), "video/mp4");
    assert!(!detect_media_kind("cover.jpg").supported);
}

#[test]
fn extension_decides_the_viewer() {
    let pdf = detect_media_kind("/lib/Anime/Episode 03 movie.PDF");
    assert_eq!(pdf.source_format, SourceFormat::Pdf);
    assert_ne!(pdf.content_type, ContentType::Video);
    let video = detect_media_kind("/lib/Manga/Chapter 12.Mp4");
    assert_eq!(video.source_format, SourceFormat::Mp4);
    assert_eq!(video.content_type, ContentType::Video);
    assert!(!detect_media_kind("/lib/Manga/Chapter 12.epub").supported);
}

fn pairs(h: &[(&'static str, String)]) -> Vec<(String, String)> {
    h.iter().map(|(k, v)| (k.to_string(), v.clone())).collect()
}

#[test]
fn media_protocol_image_headers() {
    let png = [0x89, 0x50, 0x4e, 0x47, 0x0d, 0x0a, 0x1a, 0x0a, 0, 0];
    assert_eq!(
        pairs(&image_headers(&png, 800, 2400, true)),
        vec![
            ("content-type".to_string(), "image/png".to_string()),
            ("content-length".to_string(), "10".to_string()),
            ("cache-control".to_string(), "private, max-age=86400".to_string()),
            ("access-control-allow-origin".to_string(), "*".to_string()),
            ("access-control-expose-headers".to_string(), "x-image-width, x-image-height".to_string()),
            ("x-image-width".to_string(), "800".to_string()),
            ("x-image-height".to_string(), "2400".to_string()),
        ]
    );
    let page = image_headers(&[0xff, 0xd8, 0xff], 1200, 1700, false);
    assert_eq!(page.len(), 6);
    assert_eq!(page[0].1, "image/jpeg");
    assert_eq!(page[4], ("x-image-width", "1200".to_string()));
    let pre = pairs(&preflight_headers());
    assert_eq!(pre[1], ("access-control-allow-headers".to_string(), "range".to_string()));
    assert_eq!(pre.len(), 3);
}
