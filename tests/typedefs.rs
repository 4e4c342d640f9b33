use roblox_slang::records::Translation;
use roblox_slang::typedefs::{build_namespace_tree, generate_type_definitions};

fn t(key: &str, value: &str, locale: &str) -> Translation {
    Translation {
        key: key.to_string(),
        value: value.to_string(),
        locale: locale.to_string(),
        context: None,
    }
}

#[test]
fn test_build_namespace_tree() {
    let translations = [t("ui.buttons.buy", "Buy", "en"), t("ui.labels.welcome", "Welcome", "en")];

    let keys: Vec<String> = translations.iter().map(|t| t.key.clone()).collect();
    let namespaces = build_namespace_tree(&keys);

    assert!(namespaces.contains(&"ui".to_string()));
    assert!(namespaces.contains(&"ui.buttons".to_string()));
    assert!(namespaces.contains(&"ui.labels".to_string()));
}

#[test]
fn test_generate_type_definitions_with_plurals() {
    let translations = vec![
        t("ui.messages.items(one)", "{count} item", "en"),
        t("ui.messages.items(other)", "{count} items", "en"),
    ];

    let code = generate_type_definitions(&translations, "en");

    assert!(code.contains(
        "ui_messages_items: (self: TranslationsInstance, count: number, params: {}?) -> string"
    ));

    assert!(code.contains("items: (self: TranslationsInstance, count: number, params: {}?) -> string"));

    assert!(!code.contains("items(one)"));
    assert!(!code.contains("items(other)"));
}

#[test]
fn type_definitions_layout() {
    let translations = vec![
        t("ui.title", "Shop", "en"),
        t("ui.buttons.buy", "Buy {n}", "en"),
        t("ui.buttons.buy", "Beli", "id"),
        t("menu", "Menu", "en"),
    ];
    let code = generate_type_definitions(&translations, "en");
    let tail = code.split("getAsset: (self: TranslationsInstance, assetKey: string) -> string,\n\n").nth(1).unwrap();
    assert_eq!(
        tail,
        [
            "    menu: (self: TranslationsInstance) -> string,\n",
            "    ui_buttons_buy: (self: TranslationsInstance, params: {}) -> string,\n",
            "    ui_title: (self: TranslationsInstance) -> string,\n",
            "\n",
            "    ui: {\n",
            "        title: (self: TranslationsInstance) -> string,\n",
            "        buttons: {\n",
            "            buy: (self: TranslationsInstance, params: {}) -> string,\n",
            "        },\n",
            "    },\n",
            "}\n",
        ]
        .concat()
    );
    assert!(generate_type_definitions(&translations, "fr").ends_with("export type Translations = {}\n"));
}
