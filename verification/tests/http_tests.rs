use shelf::http::{download_disposition, login_error_status, session_token};
use shelf::http::{api_image_width, not_modified, page_etag, render_refusal, tile_etag};
use shelf::http::{
    bearer_token, chunk_within_limit, client_ip, cookie_token, https_redirect_location,
    mime_guess, parse_upload_offset, plan_chunk, public_cookie_domain, request_host,
    request_is_https, sanitize_filename, sanitize_folder_name, security_headers,
    static_rel_path, upload_candidate, upload_complete, upload_size_allowed, ChunkPlan,
    UploadProgress, MAX_CHUNK_BYTES,
};

#[test]
fn https_from_forwarded_proto_not_cf_ip() {
    assert!(!request_is_https(None, None));
    assert!(request_is_https(Some("https"), None));
}

#[test]
fn cookie_token_reads_shelf_session() {
    assert_eq!(
        cookie_token(Some("x=1; shelf_session=new-token")).as_deref(),
        Some("new-token")
    );
}

#[test]
fn filename_rules() {
    assert!(sanitize_filename("ch01.pdf").is_ok());
    assert!(sanitize_filename("../etc/passwd.pdf").is_ok());
    assert_eq!(sanitize_filename("../etc/passwd.pdf").unwrap(), "passwd.pdf");
    assert!(sanitize_filename("nope.txt").is_err());
    assert!(sanitize_folder_name("New Series").is_ok());
    assert!(sanitize_folder_name("../escape").is_err());
}

#[test]
fn scheme_from_forwarded_headers() {
    assert!(request_is_https(Some(" HTTPS , http"), None));
    assert!(!request_is_https(Some("http, https"), None));
    assert!(request_is_https(None, Some("{\"Scheme\":\"HTTPS\"}")));
    assert!(!request_is_https(None, Some("{\"scheme\":\"http\"}")));
}

#[test]
fn tokens_from_cookies_and_bearer_headers() {
    assert_eq!(cookie_token(Some("shelf_session=  ; shelf_session=b")).as_deref(), Some("b"));
    assert_eq!(cookie_token(Some("a=1")), None);
    assert_eq!(cookie_token(None), None);
    assert_eq!(bearer_token(Some("Bearer abc")).as_deref(), Some("abc"));
    assert_eq!(bearer_token(Some("bearer abc")), None);
    assert_eq!(bearer_token(None), None);
}

#[test]
fn request_host_and_cookie_domain() {
    assert_eq!(request_host(Some(" Shelf.Example.com:443")), "shelf.example.com");
    assert_eq!(request_host(None), "");
    assert_eq!(
        public_cookie_domain(Some("www.shelf.example.com"), "shelf.example.com").as_deref(),
        Some("shelf.example.com")
    );
    assert_eq!(public_cookie_domain(Some("192.168.1.2"), "shelf.example.com"), None);
    assert_eq!(public_cookie_domain(Some("x"), ""), None);
}

#[test]
fn client_ip_prefers_cloudflare() {
    assert_eq!(client_ip(Some(" 1.2.3.4 "), Some("10.0.0.1")), "1.2.3.4");
    assert_eq!(client_ip(Some("  "), Some("10.0.0.1")), "10.0.0.1");
    assert_eq!(client_ip(None, None), "unknown");
}

#[test]
fn security_headers_depend_on_the_scheme() {
    let plain = security_headers(false);
    assert_eq!(plain.len(), 4);
    assert_eq!(plain[0], ("x-content-type-options", "nosniff"));
    assert!(!plain[3].1.contains("upgrade-insecure-requests"));
    let secure = security_headers(true);
    assert_eq!(secure.len(), 5);
    assert!(secure[3].1.ends_with("upgrade-insecure-requests"));
    assert_eq!(secure[4].0, "strict-transport-security");
}

#[test]
fn plain_http_through_the_public_host_is_redirected() {
    assert_eq!(
        https_redirect_location(Some("shelf.example.com"), Some("shelf.example.com"), false, true, Some("/api/x?y=1"))
            .as_deref(),
        Some("https://shelf.example.com/api/x?y=1")
    );
    assert_eq!(
        https_redirect_location(Some("shelf.example.com"), Some("www.shelf.example.com"), false, true, None)
            .as_deref(),
        Some("https://shelf.example.com/")
    );
    assert_eq!(https_redirect_location(Some("shelf.example.com"), Some("shelf.example.com"), true, true, None), None);
    assert_eq!(https_redirect_location(Some("shelf.example.com"), Some("shelf.example.com"), false, false, None), None);
    assert_eq!(https_redirect_location(Some("shelf.example.com"), Some("localhost"), false, true, None), None);
    assert_eq!(https_redirect_location(None, Some("shelf.example.com"), false, true, None), None);
}

#[test]
fn upload_offsets_and_chunks() {
    assert_eq!(parse_upload_offset(Some(" bytes 100-199/1000 ")), Some(100));
    assert_eq!(parse_upload_offset(Some("bytes 100-199")), None);
    assert_eq!(parse_upload_offset(Some("bytes 100/1000")), None);
    assert_eq!(parse_upload_offset(Some("items 0-1/2")), None);
    assert_eq!(parse_upload_offset(None), None);
    assert_eq!(plan_chunk(100, 1000, Some(100), 50), ChunkPlan::Append);
    assert_eq!(plan_chunk(100, 1000, None, 900), ChunkPlan::Append);
    assert_eq!(plan_chunk(100, 1000, Some(0), 50), ChunkPlan::Resync);
    assert_eq!(plan_chunk(100, 1000, None, 901), ChunkPlan::Exceeds);
    assert!(upload_size_allowed(1));
    assert!(!upload_size_allowed(0));
    assert!(!upload_size_allowed(8 * 1024 * 1024 * 1024 + 1));
    assert!(chunk_within_limit(MAX_CHUNK_BYTES));
    assert!(!chunk_within_limit(MAX_CHUNK_BYTES + 1));
    assert!(upload_complete(5, 5));
    assert!(!upload_complete(4, 5));
}

#[test]
fn upload_name_errors() {
    assert_eq!(sanitize_filename(".hidden.pdf").unwrap_err(), "Invalid file name");
    assert_eq!(sanitize_filename("dir/").unwrap_err(), "Only PDF and MP4 files can be uploaded");
    assert_eq!(sanitize_filename("..").unwrap_err(), "Invalid file name");
    assert_eq!(sanitize_filename("a\\b.MP4").unwrap(), "ab.MP4");
    let long = format!("{}.pdf", "a".repeat(177));
    assert_eq!(sanitize_filename(&long).unwrap_err(), "File name is too long");
    let fits = format!("{}.pdf", "a".repeat(176));
    assert!(sanitize_filename(&fits).is_ok());
    assert_eq!(sanitize_folder_name("  ").unwrap_err(), "Folder name must be 1–80 characters");
    assert_eq!(sanitize_folder_name(" .. ").unwrap_err(), "Invalid folder name");
    assert_eq!(sanitize_folder_name("  Fresh  ").unwrap(), "Fresh");
    assert!(sanitize_folder_name(&"b".repeat(81)).is_err());
}

#[test]
fn upload_names_step_past_taken_ones() {
    assert_eq!(upload_candidate("ch01.pdf", 0), "ch01.pdf");
    assert_eq!(upload_candidate("ch01.pdf", 1), "ch01-1.pdf");
    assert_eq!(upload_candidate("notes", 12), "notes-12");
    assert_eq!(upload_candidate("a.b.mp4", 999), "a.b-999.mp4");
    assert_eq!(upload_candidate("ch01.pdf", 1000), "ch01.pdf.new");
}

#[test]
fn static_paths_refuse_traversal_and_the_api() {
    assert_eq!(static_rel_path("/ok.js").as_deref(), Some("ok.js"));
    assert_eq!(static_rel_path("/assets/app.css").as_deref(), Some("assets/app.css"));
    assert_eq!(static_rel_path("/../ok.js"), None);
    assert_eq!(static_rel_path("/foo/../../etc/passwd"), None);
    assert_eq!(static_rel_path("/api/series"), None);
    assert_eq!(static_rel_path("/"), None);
    assert_eq!(static_rel_path("/a//b"), None);
    assert_eq!(mime_guess("manifest.webmanifest"), "application/manifest+json");
    assert_eq!(mime_guess("index.html"), "text/html; charset=utf-8");
    assert_eq!(mime_guess("blob"), "application/octet-stream");
}

#[test]
fn sign_in_tokens_statuses_and_downloads() {
    assert_eq!(session_token(Some("Bearer b1"), Some("shelf_session=c1")), "b1");
    assert_eq!(session_token(Some("Basic x"), Some("shelf_session=c1")), "c1");
    assert_eq!(session_token(None, None), "");
    assert_eq!(login_error_status("Too many sign-in attempts. Try again later."), 429);
    assert_eq!(
        login_error_status("Remote sign-in is not configured yet. Set an owner password on the Mac."),
        403
    );
    assert_eq!(login_error_status("Invalid username or password"), 401);
    assert_eq!(
        download_disposition("/lib/Show/Episode 01.mp4"),
        "attachment; filename=\"Episode 01.mp4\""
    );
    assert_eq!(download_disposition("/"), "attachment; filename=\"download\"");
}

#[test]
fn upload_progress_tracks_appended_chunks() {
    assert!(UploadProgress::start(0).is_none());
    assert!(UploadProgress::start(8 * 1024 * 1024 * 1024 + 1).is_none());
    let mut p = UploadProgress::start(100).unwrap();
    assert_eq!((p.received(), p.size()), (0, 100));
    assert_eq!(p.plan(Some(0), 60), ChunkPlan::Append);
    p.record_appended(60);
    assert_eq!(p.received(), 60);
    assert!(!p.is_complete());
    assert_eq!(p.plan(Some(0), 40), ChunkPlan::Resync);
    assert_eq!(p.plan(None, 41), ChunkPlan::Exceeds);
    assert_eq!(p.plan(Some(60), 40), ChunkPlan::Append);
    p.record_appended(40);
    assert!(p.is_complete());
}

#[test]
fn reader_image_requests() {
    assert_eq!(api_image_width(None), 1200);
    assert_eq!(api_image_width(Some(4000)), 2560);
    assert_eq!(api_image_width(Some(50)), 50);
    assert_eq!(render_refusal(true, "/lib/S/01.pdf"), Some((404, "Chapter file is missing")));
    assert_eq!(
        render_refusal(false, "/lib/S/01.mp4"),
        Some((400, "Page rendering is only available for PDF files"))
    );
    assert_eq!(render_refusal(false, "/lib/S/01.PDF"), None);
    let etag = page_etag(12, 3, 1200, 4567);
    assert_eq!(etag, "\"12-3-1200-4567\"");
    assert_eq!(tile_etag(-7, 0, 2, 800, 9), "\"-7-0-t2-800-9\"");
    assert!(not_modified(Some("\"12-3-1200-4567\""), &etag));
    assert!(!not_modified(Some("\"12-3-1200-4568\""), &etag));
    assert!(!not_modified(None, &etag));
}

#[test]
fn numbered_upload_names_never_repeat() {
    let names: std::collections::HashSet<String> =
        (1..1000u32).map(|i| upload_candidate("Vol 1.pdf", i)).collect();
    assert_eq!(names.len(), 999);
    assert_eq!(upload_candidate("Vol 1.pdf", 12), "Vol 1-12.pdf");
}
