use roblox_slang::config::Config;
use roblox_slang::merge::{Conflict, MergeStrategy};
use roblox_slang::records::Translation;
use roblox_slang::sync::{
    download_actions, upload_actions,
    sync_actions, SyncAction,
    conflicts_report,
    entries_to_translations, group_by_locale, plan_download, plan_sync, plan_upload,
    str_less, tally_locales, translations_to_entries, translations_to_map,
};
use roblox_slang::types::{Identifier, LocalizationEntry, Translation as ApiTranslation};

fn t(key: &str, locale: &str, value: &str) -> Translation {
    Translation {
        key: key.to_string(),
        locale: locale.to_string(),
        value: value.to_string(),
        context: None,
    }
}

fn base() -> String {
    Config::default().base_locale
}

#[test]
fn test_translations_to_map() {
    let translations = vec![t("ui.button", "en", "Buy"), t("ui.button", "id", "Beli")];

    let map = translations_to_map(&translations);

    assert_eq!(map.len(), 2);
    assert_eq!(
        map.get(&"ui.button".to_string(), &"en".to_string()),
        Some(&"Buy".to_string())
    );
    assert_eq!(
        map.get(&"ui.button".to_string(), &"id".to_string()),
        Some(&"Beli".to_string())
    );
}

#[test]
fn test_translations_to_entries() {
    let translations = vec![t("ui.button", "en", "Buy"), t("ui.button", "es", "Comprar")];

    let entries = translations_to_entries(&translations, &base());

    assert_eq!(entries.len(), 1);
    assert_eq!(entries[0].identifier.key, "ui.button");
    assert_eq!(entries[0].identifier.source, "Buy");
    assert_eq!(entries[0].translations.len(), 1);
}

#[test]
fn test_translations_to_entries_with_context() {
    let translations = vec![Translation {
        key: "ui.button".to_string(),
        locale: "en".to_string(),
        value: "Buy".to_string(),
        context: Some("shop".to_string()),
    }];

    let entries = translations_to_entries(&translations, &base());

    assert_eq!(entries.len(), 1);
    assert_eq!(entries[0].identifier.context, Some("shop".to_string()));
}

#[test]
fn source_falls_back_to_lowest_locale() {
    let translations = vec![
        t("k", "pt", "Comprar"),
        t("k", "de", "Kaufen"),
        t("k", "es", "Comprar!"),
        t("j", "id", "Beli"),
    ];
    let entries = translations_to_entries(&translations, &base());
    assert_eq!(entries.len(), 2);
    assert_eq!(entries[0].identifier.key, "k");
    assert_eq!(entries[0].identifier.source, "Kaufen");
    assert_eq!(entries[0].translations.len(), 3);
    assert_eq!(entries[0].metadata.as_ref().unwrap().entry_type, Some("manual".to_string()));
    assert_eq!(entries[1].identifier.source, "Beli");
}

#[test]
fn locale_order_is_by_code_point() {
    assert!(str_less(&"de".to_string(), &"en".to_string()));
    assert!(str_less(&"zh".to_string(), &"zh-cn".to_string()));
    assert!(!str_less(&"en".to_string(), &"en".to_string()));
    assert!(!str_less(&"es".to_string(), &"en".to_string()));
}

#[test]
fn test_entries_to_translations() {
    let entries = vec![LocalizationEntry {
        identifier: Identifier {
            key: "ui.button".to_string(),
            context: None,
            source: "Buy".to_string(),
        },
        metadata: None,
        translations: vec![ApiTranslation {
            locale: "es".to_string(),
            translation_text: "Comprar".to_string(),
        }],
    }];

    let translations = entries_to_translations(&entries, &base());

    assert_eq!(translations.len(), 2);

    assert_eq!(translations[0].key, "ui.button");
    assert_eq!(translations[0].locale, "en");
    assert_eq!(translations[0].value, "Buy");

    assert_eq!(translations[1].key, "ui.button");
    assert_eq!(translations[1].locale, "es");
    assert_eq!(translations[1].value, "Comprar");
}

#[test]
fn test_entries_to_translations_multiple_locales() {
    let entries = vec![LocalizationEntry {
        identifier: Identifier {
            key: "greeting".to_string(),
            context: None,
            source: "Hello".to_string(),
        },
        metadata: None,
        translations: vec![
            ApiTranslation {
                locale: "es".to_string(),
                translation_text: "Hola".to_string(),
            },
            ApiTranslation {
                locale: "id".to_string(),
                translation_text: "Halo".to_string(),
            },
        ],
    }];

    let translations = entries_to_translations(&entries, &base());

    assert_eq!(translations.len(), 3);

    let en_translation = translations.iter().find(|t| t.locale == "en").unwrap();
    assert_eq!(en_translation.value, "Hello");

    let es_translation = translations.iter().find(|t| t.locale == "es").unwrap();
    assert_eq!(es_translation.value, "Hola");

    let id_translation = translations.iter().find(|t| t.locale == "id").unwrap();
    assert_eq!(id_translation.value, "Halo");
}

#[test]
fn test_entries_to_translations_with_context() {
    let entries = vec![LocalizationEntry {
        identifier: Identifier {
            key: "ui.button".to_string(),
            context: Some("shop".to_string()),
            source: "Buy".to_string(),
        },
        metadata: None,
        translations: vec![ApiTranslation {
            locale: "es".to_string(),
            translation_text: "Comprar".to_string(),
        }],
    }];

    let translations = entries_to_translations(&entries, &base());

    for translation in &translations {
        assert_eq!(translation.context, Some("shop".to_string()));
    }
}

#[test]
fn test_translations_to_map_empty() {
    let translations = vec![];
    let map = translations_to_map(&translations);

    assert_eq!(map.len(), 0);
}

#[test]
fn test_translations_to_map_multiple_keys() {
    let translations = vec![
        t("ui.button", "en", "Buy"),
        t("ui.title", "en", "Shop"),
        t("ui.button", "es", "Comprar"),
    ];

    let map = translations_to_map(&translations);

    assert_eq!(map.len(), 3);
    assert_eq!(
        map.get(&"ui.button".to_string(), &"en".to_string()),
        Some(&"Buy".to_string())
    );
    assert_eq!(
        map.get(&"ui.title".to_string(), &"en".to_string()),
        Some(&"Shop".to_string())
    );
    assert_eq!(
        map.get(&"ui.button".to_string(), &"es".to_string()),
        Some(&"Comprar".to_string())
    );
}

#[test]
fn later_record_wins_in_map() {
    let translations = vec![t("k", "en", "a"), t("k", "en", "b")];
    let map = translations_to_map(&translations);
    assert_eq!(map.len(), 1);
    assert_eq!(map.get(&"k".to_string(), &"en".to_string()), Some(&"b".to_string()));
}

#[test]
fn grouping_by_locale_keeps_first_appearance_order() {
    let records = vec![t("a", "es", "1"), t("b", "en", "2"), t("c", "es", "3")];
    let groups = group_by_locale(&records);
    assert_eq!(groups.len(), 2);
    assert_eq!(groups[0].0, "es");
    assert_eq!(groups[0].1, vec![t("a", "es", "1"), t("c", "es", "3")]);
    assert_eq!(groups[1].0, "en");
    assert_eq!(groups[1].1, vec![t("b", "en", "2")]);
}

#[test]
fn upload_plan_counts_records_and_locales() {
    let records = vec![t("a", "en", "1"), t("a", "es", "2"), t("b", "en", "3")];
    let plan = plan_upload(&records, &base());
    assert_eq!(plan.entries_uploaded, 3);
    assert_eq!(plan.locales_processed, 2);
    assert_eq!(plan.entries.len(), 2);
}

#[test]
fn download_plan_groups_expanded_records() {
    let entries = vec![LocalizationEntry {
        identifier: Identifier { key: "g".to_string(), context: None, source: "Hi".to_string() },
        metadata: None,
        translations: vec![ApiTranslation {
            locale: "es".to_string(),
            translation_text: "Hola".to_string(),
        }],
    }];
    let plan = plan_download(&entries, &base());
    assert_eq!(plan.entries_downloaded, 1);
    assert_eq!(plan.by_locale.len(), 2);
    assert_eq!(plan.by_locale[0].0, "en");
    assert_eq!(plan.by_locale[1].1[0].value, "Hola");
    assert_eq!(tally_locales(&vec![true, false, false]), (2, 1));
}

#[test]
fn sync_plan_follows_the_strategy() {
    let local = vec![t("a", "en", "Buy"), t("c", "en", "Only local")];
    let cloud = vec![
        LocalizationEntry {
            identifier: Identifier { key: "a".to_string(), context: None, source: "Purchase".to_string() },
            metadata: None,
            translations: vec![],
        },
        LocalizationEntry {
            identifier: Identifier { key: "b".to_string(), context: None, source: "Cancel".to_string() },
            metadata: None,
            translations: vec![],
        },
    ];
    let plan = plan_sync(&local, &cloud, &base(), MergeStrategy::SkipConflicts);
    assert_eq!(plan.entries_added, 1);
    assert_eq!(plan.entries_updated, 1);
    assert_eq!(plan.entries_deleted, 0);
    assert_eq!(plan.conflicts_skipped, 1);
    assert_eq!(plan.upload_entries.len(), 1);
    assert_eq!(plan.upload_entries[0].identifier.key, "c");
    assert_eq!(plan.downloads.len(), 1);
    assert_eq!(plan.downloads[0].1[0].key, "b");

    let plan = plan_sync(&local, &cloud, &base(), MergeStrategy::Merge);
    assert_eq!(plan.entries_updated, 2);
    assert_eq!(plan.conflicts_skipped, 0);

    let plan = plan_sync(&local, &cloud, &base(), MergeStrategy::Overwrite);
    assert_eq!(plan.entries_added, 2);
    assert_eq!(plan.entries_updated, 0);
}

#[test]
fn conflicts_report_groups_by_locale() {
    let c = |k: &str, l: &str, a: &str, b: &str| Conflict {
        key: k.to_string(),
        locale: l.to_string(),
        local_value: a.to_string(),
        cloud_value: b.to_string(),
    };
    let report = conflicts_report(&vec![c("a", "en", "Buy", "Purchase"), c("b", "id", "x", "y"), c("c", "en", "1", "2")]);
    assert_eq!(
        report,
        "# Translation Conflicts\n# Resolve these conflicts manually\n\n\
en:\n  a:\n    local: \"Buy\"\n    cloud: \"Purchase\"\n  c:\n    local: \"1\"\n    cloud: \"2\"\n\n\
id:\n  b:\n    local: \"x\"\n    cloud: \"y\"\n\n"
    );
}

#[test]
fn sync_actions_come_in_order() {
    let local = vec![t("a", "en", "Buy"), t("c", "en", "Only local")];
    let cloud = vec![
        LocalizationEntry {
            identifier: Identifier { key: "a".to_string(), context: None, source: "Purchase".to_string() },
            metadata: None,
            translations: vec![ApiTranslation { locale: "id".to_string(), translation_text: "Beli".to_string() }],
        },
    ];
    let plan = plan_sync(&local, &cloud, &base(), MergeStrategy::SkipConflicts);
    assert_eq!(
        sync_actions(&plan, false),
        vec![SyncAction::UploadEntries, SyncAction::WriteLocale(0), SyncAction::WriteConflicts]
    );
    assert!(sync_actions(&plan, true).is_empty());
}

#[test]
fn dry_runs_write_and_send_nothing() {
    let records = vec![t("a", "en", "1"), t("a", "es", "2")];
    let up = plan_upload(&records, &base());
    assert_eq!(upload_actions(&up, false), vec![SyncAction::UploadEntries]);
    assert!(upload_actions(&up, true).is_empty());
    let entries = vec![LocalizationEntry {
        identifier: Identifier { key: "g".to_string(), context: None, source: "Hi".to_string() },
        metadata: None,
        translations: vec![ApiTranslation { locale: "es".to_string(), translation_text: "Hola".to_string() }],
    }];
    let down = plan_download(&entries, &base());
    assert_eq!(download_actions(&down, false), vec![SyncAction::WriteLocale(0), SyncAction::WriteLocale(1)]);
    assert!(download_actions(&down, true).is_empty());
}

#[test]
fn base_locale_is_not_repeated_in_entries() {
    let entries = translations_to_entries(&vec![t("k", "es", "Comprar"), t("k", "en", "Buy")], &base());
    assert_eq!(entries[0].identifier.source, "Buy");
    assert_eq!(entries[0].translations.len(), 1);
    assert_eq!(entries[0].translations[0].locale, "es");
}
