use shelf::ocr::{check_engine, cleanup_ocr_text, list_engines, text_cache_engine, OcrError};
use shelf::ocr::{image_to_png, recognizer_input};

fn encoded(format: image::ImageFormat, width: u32, height: u32) -> Vec<u8> {
    let img = image::DynamicImage::ImageRgb8(image::RgbImage::new(width, height));
    let mut buf = std::io::Cursor::new(Vec::new());
    img.write_to(&mut buf, format).unwrap();
    buf.into_inner()
}


#[test]
fn cleanup_strips_bubble_tails_from_chinese() {
    assert_eq!(cleanup_ocr_text(".你的接吻实力"), "你的接吻实力");
    assert_eq!(cleanup_ocr_text("：你的接吻实力"), "你的接吻实力");
    assert_eq!(cleanup_ocr_text("好像有点生疏了."), "好像有点生疏了。");
    assert_eq!(cleanup_ocr_text("…・・呃・"), "呃");
}

#[test]
fn cleanup_keeps_japanese_words() {
    assert_eq!(cleanup_ocr_text("こんにちは"), "こんにちは");
}

#[test]
fn cleanup_edge_cases() {
    assert_eq!(cleanup_ocr_text("   "), "");
    assert_eq!(cleanup_ocr_text("..."), "...");
    assert_eq!(cleanup_ocr_text("。 hello"), "hello");
    assert_eq!(cleanup_ocr_text("等等.."), "等等..");
    assert_eq!(cleanup_ocr_text("・なに・"), "なに・");
}

#[test]
fn engines_and_their_availability() {
    let engines = list_engines(true);
    assert_eq!(engines.len(), 4);
    assert_eq!(engines[0], ("apple_vision", "Apple Vision", true));
    assert_eq!(engines[3], ("rapid_ocr", "RapidOCR", false));
    assert!(!list_engines(false)[0].2);
    assert!(check_engine("apple_vision").is_ok());
    assert!(check_engine("anything").is_ok());
    match check_engine("paddle_ocr") {
        Err(e) => assert_eq!(
            e.message(),
            "OCR engine not available: PaddleOCR is not installed yet — select it after benchmarking"
        ),
        Ok(()) => panic!("paddle is not installed"),
    }
    assert_eq!(OcrError::Other("boom".into()).message(), "boom");
    assert_eq!(text_cache_engine("apple_vision"), "apple_vision.v3");
}

#[test]
fn recognizer_gets_png() {
    let png = encoded(image::ImageFormat::Png, 4, 3);
    assert_eq!(image_to_png(&png).unwrap(), png);
    let jpeg = encoded(image::ImageFormat::Jpeg, 4, 3);
    let converted = image_to_png(&jpeg).unwrap();
    assert_eq!(&converted[..8], b"\x89PNG\r\n\x1a\n");
    let decoded = image::load_from_memory(&converted).unwrap();
    assert_eq!((decoded.width(), decoded.height()), (4, 3));
    assert!(matches!(image_to_png(b"not an image"), Err(OcrError::Other(_))));
    assert_eq!(recognizer_input(b"not an image"), b"not an image".to_vec());
    assert_eq!(recognizer_input(&png), png);
}
