use roblox_slang::locales::{
    get_country_locale_map, get_roblox_locales, get_supported_locale_codes, is_roblox_locale,
};

#[test]
fn test_get_roblox_locales() {
    let locales = get_roblox_locales();
    assert_eq!(locales.len(), 17);
}

#[test]
fn test_is_roblox_locale() {
    assert!(is_roblox_locale("en"));
    assert!(is_roblox_locale("id"));
    assert!(is_roblox_locale("zh-cn"));
    assert!(!is_roblox_locale("xx"));
}

#[test]
fn test_get_supported_locale_codes() {
    let codes = get_supported_locale_codes();
    assert_eq!(codes.len(), 17);
    assert!(codes.contains(&"en"));
    assert!(codes.contains(&"id"));
}

#[test]
fn test_get_locale_for_country() {
    let map = get_country_locale_map();

    assert!(map.iter().any(|(code, locale)| *code == "US" && *locale == "en"));
    assert!(map.iter().any(|(code, locale)| *code == "ID" && *locale == "id"));
    assert!(map.iter().any(|(code, locale)| *code == "ES" && *locale == "es"));
    assert!(map.iter().any(|(code, locale)| *code == "JP" && *locale == "ja"));
    assert!(map.iter().any(|(code, locale)| *code == "CN" && *locale == "zh-cn"));
    assert!(map.iter().any(|(code, locale)| *code == "TW" && *locale == "zh-tw"));
}

#[test]
fn test_country_locale_map_coverage() {
    let map = get_country_locale_map();

    assert!(map.len() > 50);

    let locales: Vec<&str> = map.iter().map(|(_, locale)| *locale).collect();
    for code in [
        "en", "es", "fr", "de", "pt", "id", "it", "ja", "ko", "ru", "th", "tr", "vi", "pl",
        "zh-cn", "zh-tw", "uk",
    ] {
        assert!(locales.contains(&code));
    }
}

#[test]
fn locale_table_holds_names() {
    let locales = get_roblox_locales();
    assert_eq!(locales[0].code, "en");
    assert_eq!(locales[0].name, "English");
    assert_eq!(locales[7].native_name, "日本語");
    assert!(!is_roblox_locale("EN"));
    assert!(!is_roblox_locale(""));
}
