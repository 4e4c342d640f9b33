use roblox_slang::records::Translation;
use roblox_slang::validator::{contains_text, detect_conflicts, detect_missing_keys, locale_coverage, unused_keys};

#[test]
fn test_detect_conflicts() {
    let translations = vec![
        Translation {
            key: "ui.button".to_string(),
            value: "Buy".to_string(),
            locale: "en".to_string(),
            context: None,
        },
        Translation {
            key: "ui.button".to_string(),
            value: "Purchase".to_string(),
            locale: "en".to_string(),
            context: None,
        },
    ];

    let conflicts = detect_conflicts(&translations);

    assert_eq!(conflicts.len(), 1);
    assert!(conflicts[0].contains("Duplicate key 'ui.button'"));
    assert!(conflicts[0].contains("locale 'en'"));
}

#[test]
fn test_no_conflicts() {
    let translations = vec![
        Translation {
            key: "ui.button".to_string(),
            value: "Buy".to_string(),
            locale: "en".to_string(),
            context: None,
        },
        Translation {
            key: "ui.label".to_string(),
            value: "Welcome".to_string(),
            locale: "en".to_string(),
            context: None,
        },
    ];

    let conflicts = detect_conflicts(&translations);

    assert_eq!(conflicts.len(), 0);
}

#[test]
fn test_multiple_conflicts() {
    let translations = vec![
        Translation {
            key: "ui.button".to_string(),
            value: "Buy".to_string(),
            locale: "en".to_string(),
            context: None,
        },
        Translation {
            key: "ui.button".to_string(),
            value: "Purchase".to_string(),
            locale: "en".to_string(),
            context: None,
        },
        Translation {
            key: "ui.label".to_string(),
            value: "Welcome".to_string(),
            locale: "en".to_string(),
            context: None,
        },
        Translation {
            key: "ui.label".to_string(),
            value: "Hello".to_string(),
            locale: "en".to_string(),
            context: None,
        },
    ];

    let conflicts = detect_conflicts(&translations);

    assert_eq!(conflicts.len(), 2);
}

#[test]
fn test_same_key_different_locales_no_conflict() {
    let translations = vec![
        Translation {
            key: "ui.button".to_string(),
            value: "Buy".to_string(),
            locale: "en".to_string(),
            context: None,
        },
        Translation {
            key: "ui.button".to_string(),
            value: "Beli".to_string(),
            locale: "id".to_string(),
            context: None,
        },
    ];

    let conflicts = detect_conflicts(&translations);

    // Same key in different locales is NOT a conflict
    assert_eq!(conflicts.len(), 0);
}

#[test]
fn test_triple_duplicate() {
    let translations = vec![
        Translation {
            key: "ui.button".to_string(),
            value: "Buy".to_string(),
            locale: "en".to_string(),
            context: None,
        },
        Translation {
            key: "ui.button".to_string(),
            value: "Purchase".to_string(),
            locale: "en".to_string(),
            context: None,
        },
        Translation {
            key: "ui.button".to_string(),
            value: "Get".to_string(),
            locale: "en".to_string(),
            context: None,
        },
    ];

    let conflicts = detect_conflicts(&translations);

    // Should report conflict once (not multiple times)
    assert_eq!(conflicts.len(), 1);
}

#[test]
fn conflicts_test_empty_translations() {
    let translations = vec![];
    let conflicts = detect_conflicts(&translations);

    assert_eq!(conflicts.len(), 0);
}

#[test]
fn test_detect_missing_keys() {
    let translations = vec![
        Translation {
            key: "ui.button".to_string(),
            value: "Buy".to_string(),
            locale: "en".to_string(),
            context: None,
        },
        Translation {
            key: "ui.label".to_string(),
            value: "Welcome".to_string(),
            locale: "en".to_string(),
            context: None,
        },
        Translation {
            key: "ui.button".to_string(),
            value: "Beli".to_string(),
            locale: "id".to_string(),
            context: None,
        },
        // ui.label missing in id
    ];

    let supported_locales = vec!["en".to_string(), "id".to_string()];
    let missing = detect_missing_keys(&translations, "en", &supported_locales);

    assert_eq!(missing.len(), 1);
    assert!(missing.contains_key("id"));
    assert_eq!((*missing.get("id").unwrap()), vec!["ui.label"]);
}

#[test]
fn test_no_missing_keys() {
    let translations = vec![
        Translation {
            key: "ui.button".to_string(),
            value: "Buy".to_string(),
            locale: "en".to_string(),
            context: None,
        },
        Translation {
            key: "ui.button".to_string(),
            value: "Beli".to_string(),
            locale: "id".to_string(),
            context: None,
        },
    ];

    let supported_locales = vec!["en".to_string(), "id".to_string()];
    let missing = detect_missing_keys(&translations, "en", &supported_locales);

    assert_eq!(missing.len(), 0);
}

#[test]
fn test_multiple_locales_missing_keys() {
    let translations = vec![
        Translation {
            key: "ui.button".to_string(),
            value: "Buy".to_string(),
            locale: "en".to_string(),
            context: None,
        },
        Translation {
            key: "ui.label".to_string(),
            value: "Welcome".to_string(),
            locale: "en".to_string(),
            context: None,
        },
        Translation {
            key: "ui.message".to_string(),
            value: "Hello".to_string(),
            locale: "en".to_string(),
            context: None,
        },
        // id missing ui.label and ui.message
        Translation {
            key: "ui.button".to_string(),
            value: "Beli".to_string(),
            locale: "id".to_string(),
            context: None,
        },
        // es missing ui.message
        Translation {
            key: "ui.button".to_string(),
            value: "Comprar".to_string(),
            locale: "es".to_string(),
            context: None,
        },
        Translation {
            key: "ui.label".to_string(),
            value: "Bienvenido".to_string(),
            locale: "es".to_string(),
            context: None,
        },
    ];

    let supported_locales = vec!["en".to_string(), "id".to_string(), "es".to_string()];
    let missing = detect_missing_keys(&translations, "en", &supported_locales);

    assert_eq!(missing.len(), 2);
    assert!(missing.contains_key("id"));
    assert!(missing.contains_key("es"));
    assert_eq!((*missing.get("id").unwrap()).len(), 2);
    assert_eq!((*missing.get("es").unwrap()).len(), 1);
}

#[test]
fn missing_test_empty_translations() {
    let translations = vec![];
    let supported_locales = vec!["en".to_string(), "id".to_string()];
    let missing = detect_missing_keys(&translations, "en", &supported_locales);

    assert_eq!(missing.len(), 0);
}

#[test]
fn test_base_locale_only() {
    let translations = vec![Translation {
        key: "ui.button".to_string(),
        value: "Buy".to_string(),
        locale: "en".to_string(),
        context: None,
    }];

    let supported_locales = vec!["en".to_string()];
    let missing = detect_missing_keys(&translations, "en", &supported_locales);

    assert_eq!(missing.len(), 0);
}

#[test]
fn test_extra_keys_in_non_base_locale() {
    let translations = vec![
        Translation {
            key: "ui.button".to_string(),
            value: "Buy".to_string(),
            locale: "en".to_string(),
            context: None,
        },
        Translation {
            key: "ui.button".to_string(),
            value: "Beli".to_string(),
            locale: "id".to_string(),
            context: None,
        },
        Translation {
            key: "ui.extra".to_string(),
            value: "Extra".to_string(),
            locale: "id".to_string(),
            context: None,
        },
    ];

    let supported_locales = vec!["en".to_string(), "id".to_string()];
    let missing = detect_missing_keys(&translations, "en", &supported_locales);

    // Extra keys in non-base locale are not considered "missing"
    assert_eq!(missing.len(), 0);
}

#[test]
fn conflict_message_is_exact() {
    let t = |k: &str, l: &str| Translation {
        key: k.to_string(),
        value: "v".to_string(),
        locale: l.to_string(),
        context: None,
    };
    let conflicts = detect_conflicts(&vec![t("a", "en"), t("b", "en"), t("a", "en"), t("b", "id")]);
    assert_eq!(conflicts, vec!["Duplicate key 'a' in locale 'en'".to_string()]);
}

#[test]
fn missing_keys_are_listed_once_per_locale() {
    let t = |k: &str, l: &str| Translation {
        key: k.to_string(),
        value: "v".to_string(),
        locale: l.to_string(),
        context: None,
    };
    let records = vec![t("a", "en"), t("b", "en"), t("a", "en"), t("a", "id")];
    let supported = vec!["en".to_string(), "id".to_string(), "id".to_string(), "es".to_string()];
    let missing = detect_missing_keys(&records, "en", &supported);
    assert_eq!(missing.len(), 2);
    assert_eq!(*missing.get("id").unwrap(), vec!["b".to_string()]);
    assert_eq!(*missing.get("es").unwrap(), vec!["a".to_string(), "b".to_string()]);
    assert!(!missing.contains_key("en"));
}

#[test]
fn coverage_counts_keys() {
    use_coverage();
}

fn use_coverage() {
    let t = |k: &str, l: &str| Translation {
        key: k.to_string(),
        value: "v".to_string(),
        locale: l.to_string(),
        context: None,
    };
    let records = vec![t("ui.button", "en"), t("ui.label", "en"), t("ui.button", "id"), t("ui.button", "en")];
    let en = locale_coverage(&records, "en", &"en".to_string());
    assert_eq!((en.total_keys, en.translated_keys, en.missing_keys.len()), (2, 2, 0));
    let id = locale_coverage(&records, "en", &"id".to_string());
    assert_eq!((id.total_keys, id.translated_keys), (2, 1));
    assert_eq!(id.missing_keys, vec!["ui.label".to_string()]);
}

#[test]
fn unused_keys_are_those_absent_from_sources() {
    let keys = vec!["ui.buy".to_string(), "ui.sell".to_string(), "menu".to_string()];
    let content = "local t = T.ui.buy()\nprint(\"menu\")\n";
    assert_eq!(unused_keys(&keys, content), vec!["ui.sell".to_string()]);
    assert!(contains_text("abc", ""));
    assert!(!contains_text("ab", "abc"));
}

#[test]
fn colliding_messages_are_reported_once() {
    let t = |k: &str, l: &str| Translation {
        key: k.to_string(),
        value: "v".to_string(),
        locale: l.to_string(),
        context: None,
    };
    let records = vec![
        t("a' in locale 'b", "c"),
        t("a' in locale 'b", "c"),
        t("a", "b' in locale 'c"),
        t("a", "b' in locale 'c"),
    ];
    let conflicts = detect_conflicts(&records);
    assert_eq!(conflicts, vec!["Duplicate key 'a' in locale 'b' in locale 'c'".to_string()]);
}
