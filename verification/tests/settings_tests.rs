use shelf::settings::{
    cache_size_mb, choose_engine, choose_translator, qr_data_url, setting_flag, tunnel_status_text,
    used_mb,
};
use base64::Engine;

#[test]
fn stored_settings_are_read_with_defaults() {
    assert!(setting_flag(Some("true")));
    assert!(!setting_flag(Some("True")));
    assert!(!setting_flag(None));
    assert_eq!(cache_size_mb(Some("1024")), 1024);
    assert_eq!(cache_size_mb(Some("lots")), 512);
    assert_eq!(cache_size_mb(None), 512);
    assert_eq!(used_mb(3 * 1024 * 1024 + 5), 3);
    assert_eq!(tunnel_status_text(false, "running"), "cloudflared not installed");
    assert_eq!(tunnel_status_text(true, "running"), "running");
    assert_eq!(choose_engine(None, None), "apple_vision");
    assert_eq!(choose_engine(None, Some("manga_ocr")), "manga_ocr");
    assert_eq!(choose_engine(Some("rapid_ocr"), Some("manga_ocr")), "rapid_ocr");
    assert_eq!(choose_translator(None, None), "apple");
    assert_eq!(choose_translator(None, Some("opencc")), "opencc");
}

#[test]
fn public_url_becomes_a_scannable_svg() {
    let url = qr_data_url("https://shelf.example.com").unwrap();
    let b64 = url.strip_prefix("data:image/svg+xml;base64,").unwrap();
    let svg = String::from_utf8(base64::engine::general_purpose::STANDARD.decode(b64).unwrap()).unwrap();
    assert!(svg.starts_with("<?xml"));
    assert!(svg.contains("<svg"));
    assert_eq!(qr_data_url(&"x".repeat(8000)), None);
}
