use roblox_slang::overrides::merge_translations;
use roblox_slang::records::Translation;

fn t(key: &str, value: &str, locale: &str) -> Translation {
    Translation {
        key: key.to_string(),
        value: value.to_string(),
        locale: locale.to_string(),
        context: None,
    }
}

#[test]
fn test_merge_translations() {
    let main = vec![t("ui.buttons.buy", "Buy", "en"), t("ui.buttons.sell", "Sell", "en")];

    let overrides = vec![t("ui.buttons.buy", "Purchase Now!", "en")];

    let merged = merge_translations(main, overrides);

    assert_eq!(merged.len(), 2);

    let buy_trans = merged.iter().find(|t| t.key == "ui.buttons.buy").unwrap();
    assert_eq!(buy_trans.value, "Purchase Now!");

    let sell_trans = merged.iter().find(|t| t.key == "ui.buttons.sell").unwrap();
    assert_eq!(sell_trans.value, "Sell");
}

#[test]
fn overrides_add_new_pairs_once() {
    let main = vec![t("a", "A", "en")];
    let overrides = vec![
        t("b", "B1", "en"),
        t("a", "A1", "id"),
        t("b", "B2", "en"),
        t("a", "A2", "en"),
    ];
    let merged = merge_translations(main, overrides);
    assert_eq!(merged, vec![t("a", "A2", "en"), t("a", "A1", "id"), t("b", "B2", "en")]);
}
