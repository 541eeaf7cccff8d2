use shelf::pdf::{bytes_to_data_url, chapter_tile_geometry, oldest_first, page_tile_geometry, page_tiles, TileGeometry};
use shelf::pdf::{cached_page_size, cached_segment_size, page_image_from_bytes};
use shelf::pdf::{
    clamp_target_width, image_mime, is_distant_page_file, is_pdfium_lib, tile_layout, PageCache,
    MAX_TILE_HEIGHT,
};

#[test]
fn tall_strip_is_split_into_full_width_segments() {
    let height = 43200;
    let layout = tile_layout(height);
    assert_eq!(layout.len(), 18);
    assert_eq!(layout[0], (0, MAX_TILE_HEIGHT));
    assert_eq!(layout.iter().map(|(_, h)| *h).sum::<u32>(), height);
    for pair in layout.windows(2) {
        assert_eq!(pair[0].0 + pair[0].1, pair[1].0);
    }
}

#[test]
fn short_page_is_a_single_segment() {
    let height = 1294;
    let layout = tile_layout(height);
    assert_eq!(layout.len(), 1);
    assert_eq!(layout[0], (0, height));
}

#[test]
fn layout_edges() {
    assert!(tile_layout(0).is_empty());
    assert_eq!(tile_layout(2400), vec![(0, 2400)]);
    assert_eq!(tile_layout(2401), vec![(0, 2400), (2400, 1)]);
    assert_eq!(clamp_target_width(5), 100);
    assert_eq!(clamp_target_width(5000), 2560);
    assert_eq!(clamp_target_width(1200), 1200);
}

#[test]
fn image_types_by_signature() {
    assert_eq!(image_mime(&[0xFF, 0xD8, 0xFF]), "image/jpeg");
    assert_eq!(image_mime(b"\x89PNG\r\n\x1a\n...."), "image/png");
    assert_eq!(image_mime(b"RIFF\0\0\0\0WEBPVP8 "), "image/webp");
    assert_eq!(image_mime(b"GIF89a"), "image/jpeg");
}

#[test]
fn cache_files_are_named_by_chapter_page_and_width() {
    let cache = PageCache::new("/data/cache".to_string(), 512);
    assert_eq!(cache.page_path(12, 3, 1200), "/data/cache/pages/12_3_1200.jpg");
    assert_eq!(cache.tile_path(12, -1, 4, 800), "/data/cache/pages/12_-1_t4_800.jpg");
    assert_eq!(cache.cover_path(7), "/data/cache/covers/7.webp");
    let slash = PageCache::new("/data/cache/".to_string(), 1);
    assert_eq!(slash.cover_path(1), "/data/cache/covers/1.webp");
}

#[test]
fn cache_accounting_tracks_the_limit() {
    let mut cache = PageCache::new("/c".to_string(), 1);
    assert_eq!(cache.used_bytes(), 0);
    cache.record_written(900_000);
    assert!(!cache.over_limit());
    cache.record_written(200_000);
    assert!(cache.over_limit());
    assert!(cache.above_eviction_floor());
    cache.record_removed(400_000);
    assert_eq!(cache.used_bytes(), 700_000);
    assert!(!cache.above_eviction_floor());
    cache.record_removed(u64::MAX);
    assert_eq!(cache.used_bytes(), 0);
    cache.set_used(5);
    cache.set_max_mb(2);
    assert_eq!(cache.used_bytes(), 5);
    cache.clear();
    assert_eq!(cache.used_bytes(), 0);
    assert_eq!(cache.cache_dir(), "/c");
}

#[test]
fn distant_pages_are_recognized_by_name() {
    assert!(is_distant_page_file("12_20_1200.jpg", 12, 10, 4));
    assert!(!is_distant_page_file("12_13_1200.jpg", 12, 10, 4));
    assert!(!is_distant_page_file("12_14_t0_1200.jpg", 12, 10, 4));
    assert!(is_distant_page_file("12_3_t2_1200.jpg", 12, 10, 4));
    assert!(!is_distant_page_file("121_50_1200.jpg", 12, 10, 4));
    assert!(!is_distant_page_file("12_x_1200.jpg", 12, 10, 4));
    assert!(is_distant_page_file("-5_-20_9.jpg", -5, 0, 4));
}

#[test]
fn pdfium_libraries_by_name() {
    assert!(is_pdfium_lib("/x/resources/pdfium/libpdfium.dylib"));
    assert!(is_pdfium_lib("C:/x/PDFIUM.DLL"));
    assert!(!is_pdfium_lib("/x/libpdfium.a"));
}

#[test]
fn chapter_geometry_lists_every_segment() {
    let page = page_tile_geometry(3, 1200, 5000);
    assert_eq!(
        page,
        vec![
            TileGeometry { page_index: 3, tile_index: 0, width: 1200, height: 2400 },
            TileGeometry { page_index: 3, tile_index: 1, width: 1200, height: 2400 },
            TileGeometry { page_index: 3, tile_index: 2, width: 1200, height: 200 },
        ]
    );
    let chapter = chapter_tile_geometry(&[(1000, 1294), (1000, 43200)]).unwrap();
    assert_eq!(chapter.len(), 19);
    assert_eq!(chapter[0].page_index, 0);
    assert_eq!(chapter[1].page_index, 1);
    assert_eq!(chapter[18].tile_index, 17);
    assert_eq!(page_tiles(&chapter, 1).unwrap().len(), 18);
    assert_eq!(page_tiles(&chapter, 2).unwrap_err(), "Page 2 is out of range");
    assert_eq!(chapter_tile_geometry(&[]).unwrap_err(), "This PDF has no readable pages");
    assert_eq!(chapter_tile_geometry(&[(100, 0)]).unwrap_err(), "This PDF has no readable pages");
}

#[test]
fn data_urls_carry_the_image_type() {
    assert_eq!(bytes_to_data_url(&[0xFF, 0xD8, 0xFF]), "data:image/jpeg;base64,/9j/");
    assert_eq!(bytes_to_data_url(b""), "data:image/jpeg;base64,");
}

#[test]
fn eviction_removes_oldest_files_first() {
    let times = [(300, 0), (100, 5), (100, 2), (-20, 7), (100, 2)];
    assert_eq!(oldest_first(&times), vec![3, 2, 4, 1, 0]);
    assert!(oldest_first(&[]).is_empty());
}

#[test]
fn reader_page_from_rendered_bytes() {
    let img = image::DynamicImage::ImageRgb8(image::RgbImage::new(6, 9));
    let mut buf = std::io::Cursor::new(Vec::new());
    img.write_to(&mut buf, image::ImageFormat::Png).unwrap();
    let bytes = buf.into_inner();
    let page = page_image_from_bytes(&bytes, 4, true).unwrap();
    assert_eq!((page.width, page.height, page.page_index, page.from_cache), (6, 9, 4, true));
    assert_eq!(page.data_url, bytes_to_data_url(&bytes));
    assert!(page.data_url.starts_with("data:image/png;base64,"));
    assert!(page_image_from_bytes(b"garbage", 0, false).is_err());
}

#[test]
fn cached_renderings_report_their_size() {
    let img = image::DynamicImage::ImageRgb8(image::RgbImage::new(5, 7));
    let mut buf = std::io::Cursor::new(Vec::new());
    img.write_to(&mut buf, image::ImageFormat::Jpeg).unwrap();
    let bytes = buf.into_inner();
    assert_eq!(cached_page_size(&bytes), Ok((5, 7)));
    assert_eq!(cached_segment_size(&bytes), Ok((5, 7)));
    assert!(cached_page_size(b"nope").unwrap_err().starts_with("Image error: "));
    assert_eq!(cached_segment_size(b"nope"), Err("Cached segment is unreadable".to_string()));
}
