use shelf::translate::{
    accept_system_translation, apple_translation_wanted, convert_han, convert_local_with_apple,
    get_provider, list_providers, looks_han, looks_japanese, looks_korean, looks_latin,
    translation_mode, AppleTranslateProvider, CloudTranslateProvider, OpenCcProvider,
    ProviderKind, TranslateError,
};

#[test]
fn japanese_requires_kana_letters_not_punctuation() {
    assert!(looks_japanese("こんにちは"));
    assert!(looks_japanese("カタカナ"));
    assert!(!looks_japanese("你的接吻实力"));
    assert!(!looks_japanese("…・・呃・"));
    assert!(!looks_japanese(".你的接吻安力"));
}

#[test]
fn han_conversion_uses_taiwan_traditional() {
    assert_eq!(convert_han("你的接吻实力"), "你的接吻實力");
    assert_eq!(convert_han("好像有点生疏了。"), "好像有點生疏了。");
    assert_eq!(convert_han("こんにちは"), "こんにちは");
}

#[test]
fn scripts_are_told_apart() {
    assert!(looks_korean("안녕하세요"));
    assert!(!looks_korean("hello"));
    assert!(looks_han("漢字"));
    assert!(!looks_han("abc"));
    assert!(looks_latin("Hello, world"));
    assert!(!looks_latin("Héllo"));
    assert!(!looks_latin("123 !"));
}

#[test]
fn local_translation_prefers_tables_for_chinese() {
    assert_eq!(convert_local_with_apple("实力", Some("ignored")), "實力");
    assert_eq!(convert_local_with_apple("こんにちは", Some("你好")), "你好");
    assert_eq!(convert_local_with_apple("こんにちは", None), "こんにちは");
    assert_eq!(convert_local_with_apple("Hello", Some("哈囉")), "哈囉");
    assert_eq!(convert_local_with_apple("  ", Some("x")), "");
    assert_eq!(convert_local_with_apple("123", Some("x")), "123");
    assert!(apple_translation_wanted("Hello"));
    assert!(!apple_translation_wanted("实力"));
    assert!(apple_translation_wanted("こんにちは"));
    assert!(accept_system_translation("Hello", "哈囉"));
    assert!(!accept_system_translation("Hello", "Hello"));
    assert!(!accept_system_translation("Hello", ""));
    assert_eq!(convert_han("   "), "");
    assert_eq!(convert_han("plain"), "plain");
}

#[test]
fn providers_by_id() {
    assert_eq!(get_provider("cloud"), ProviderKind::Cloud);
    assert_eq!(get_provider("opencc"), ProviderKind::OpenCc);
    assert_eq!(get_provider("whatever"), ProviderKind::Apple);
    let list = list_providers(false);
    assert_eq!(list[0], ("apple", "Apple Translation", false));
    assert_eq!(list[1], ("opencc", "OpenCC (Simplified → Traditional)", true));
    assert_eq!(list[2], ("cloud", "Cloud Translation", false));
    assert!(matches!(translation_mode("cloud"), Err(TranslateError::NotAvailable(_))));
    assert!(matches!(translation_mode("opencc"), Ok(false)));
    assert!(matches!(translation_mode("apple"), Ok(true)));
    assert_eq!(OpenCcProvider::new().translate("实力").unwrap(), "實力");
    assert_eq!(OpenCcProvider::new().id(), "opencc");
    assert_eq!(AppleTranslateProvider::new().name(), "Apple Translation");
    assert_eq!(
        AppleTranslateProvider::new().translate("Hi", Some("嗨")).unwrap(),
        "嗨"
    );
    let cloud = CloudTranslateProvider::new();
    assert!(!cloud.available());
    assert_eq!(
        cloud.translate("x").unwrap_err().message(),
        "Translator not available: Cloud translation is not configured"
    );
}

#[test]
fn listed_translators_are_the_ones_their_ids_select() {
    for system in [true, false] {
        for (id, name, available) in list_providers(system) {
            let kind = get_provider(id);
            assert_eq!(kind.id(), id);
            assert_eq!(kind.name(), name);
            assert_eq!(kind.available(system), available);
        }
    }
    assert_eq!(get_provider("").id(), "apple");
    assert_eq!(get_provider("deepl").id(), "apple");
}
