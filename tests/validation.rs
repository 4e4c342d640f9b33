use roblox_slang::config::Config;
use roblox_slang::validation::{validate_config, validate_locale_code, validate_translation_key};
#[test]
fn test_validate_locale_code_valid() {
    assert!(validate_locale_code("en").is_ok());
    assert!(validate_locale_code("id").is_ok());
    assert!(validate_locale_code("es").is_ok());
    assert!(validate_locale_code("en-US").is_ok());
    assert!(validate_locale_code("zh-CN").is_ok());
    assert!(validate_locale_code("pt-BR").is_ok());
    assert!(validate_locale_code("zh-Hans-CN").is_ok());
}

#[test]
fn test_validate_locale_code_empty() {
    assert!(validate_locale_code("").is_err());
}

#[test]
fn test_validate_locale_code_uppercase() {
    // Language code must be lowercase
    let result = validate_locale_code("EN");
    assert!(result.is_err());
    let err = result.unwrap_err().message().to_string();
    assert!(err.contains("lowercase"));

    // But region code can be uppercase (this is valid)
    assert!(validate_locale_code("en-US").is_ok());
}

#[test]
fn test_validate_locale_code_invalid_chars() {
    assert!(validate_locale_code("en US").is_err());
    assert!(validate_locale_code("en_US").is_err());
    assert!(validate_locale_code("en@US").is_err());
}

#[test]
fn test_validate_locale_code_invalid_format() {
    assert!(validate_locale_code("e").is_err()); // Too short
    assert!(validate_locale_code("engl").is_err()); // Too long
}

#[test]
fn test_validate_translation_key_valid() {
    assert!(validate_translation_key("ui").is_ok());
    assert!(validate_translation_key("ui.button").is_ok());
    assert!(validate_translation_key("ui.buttons.buy").is_ok());
    assert!(validate_translation_key("ui.buttons.buy_now").is_ok());
    assert!(validate_translation_key("ui.buttons.buy-now").is_ok());
}

#[test]
fn test_validate_translation_key_empty() {
    assert!(validate_translation_key("").is_err());
}

#[test]
fn test_validate_translation_key_leading_dot() {
    let result = validate_translation_key(".ui.button");
    assert!(result.is_err());
    let err = result.unwrap_err().message().to_string();
    assert!(err.contains("Cannot start with a dot"));
}

#[test]
fn test_validate_translation_key_trailing_dot() {
    let result = validate_translation_key("ui.button.");
    assert!(result.is_err());
    let err = result.unwrap_err().message().to_string();
    assert!(err.contains("Cannot end with a dot"));
}

#[test]
fn test_validate_translation_key_consecutive_dots() {
    let result = validate_translation_key("ui..button");
    assert!(result.is_err());
    let err = result.unwrap_err().message().to_string();
    assert!(err.contains("consecutive dots"));
}

#[test]
fn test_validate_translation_key_reserved_chars() {
    assert!(validate_translation_key("ui/button").is_err());
    assert!(validate_translation_key("ui\\button").is_err());
    assert!(validate_translation_key("ui:button").is_err());
    assert!(validate_translation_key("ui*button").is_err());
    assert!(validate_translation_key("ui?button").is_err());
}

#[test]
fn test_validate_translation_key_whitespace() {
    let result = validate_translation_key("ui button");
    assert!(result.is_err());
    let err = result.unwrap_err().message().to_string();
    assert!(err.contains("whitespace"));
}

#[test]
fn test_validate_config_valid() {
    let config = Config {
        base_locale: "en".to_string(),
        supported_locales: vec!["en".to_string(), "id".to_string()],
        input_directory: "translations".to_string(),
        output_directory: "output".to_string(),
        namespace: None,
        overrides: None,
        analytics: None,
        cloud: None,
    };

    assert!(validate_config(&config).is_ok());
}

#[test]
fn test_validate_config_with_namespace() {
    let config = Config {
        base_locale: "en".to_string(),
        supported_locales: vec!["en".to_string()],
        input_directory: "translations".to_string(),
        output_directory: "output".to_string(),
        namespace: Some("MyGame".to_string()),
        overrides: None,
        analytics: None,
        cloud: None,
    };

    assert!(validate_config(&config).is_ok());
}

#[test]
fn test_validate_config_invalid_base_locale() {
    let config = Config {
        base_locale: "EN".to_string(), // Uppercase not allowed
        supported_locales: vec!["EN".to_string()],
        input_directory: "translations".to_string(),
        output_directory: "output".to_string(),
        namespace: None,
        overrides: None,
        analytics: None,
        cloud: None,
    };

    let result = validate_config(&config);
    assert!(result.is_err());
    let err = result.unwrap_err().message().to_string();
    // The error comes from Config.validate() which checks if locale is supported by Roblox
    // "EN" is not a valid Roblox locale, so it will fail with "Unsupported locale"
    assert!(err.contains("Unsupported") || err.contains("base_locale"));
}

#[test]
fn test_validate_config_invalid_supported_locale() {
    let config = Config {
        base_locale: "en".to_string(),
        supported_locales: vec!["en".to_string(), "EN US".to_string()], // Invalid format
        input_directory: "translations".to_string(),
        output_directory: "output".to_string(),
        namespace: None,
        overrides: None,
        analytics: None,
        cloud: None,
    };

    let result = validate_config(&config);
    assert!(result.is_err());
    let err = result.unwrap_err().message().to_string();
    // The error comes from Config.validate() which checks if locale is supported by Roblox
    // "EN US" is not a valid Roblox locale, so it will fail with "Unsupported locale"
    assert!(err.contains("Unsupported") || err.contains("supported_locales"));
}

#[test]
fn test_validate_config_empty_namespace() {
    let config = Config {
        base_locale: "en".to_string(),
        supported_locales: vec!["en".to_string()],
        input_directory: "translations".to_string(),
        output_directory: "output".to_string(),
        namespace: Some("".to_string()), // Empty namespace
        overrides: None,
        analytics: None,
        cloud: None,
    };

    let result = validate_config(&config);
    assert!(result.is_err());
    let err = result.unwrap_err().message().to_string();
    assert!(err.contains("namespace"));
}

#[test]
fn test_validate_config_invalid_namespace_chars() {
    let config = Config {
        base_locale: "en".to_string(),
        supported_locales: vec!["en".to_string()],
        input_directory: "translations".to_string(),
        output_directory: "output".to_string(),
        namespace: Some("My-Game".to_string()), // Hyphen not allowed
        overrides: None,
        analytics: None,
        cloud: None,
    };

    let result = validate_config(&config);
    assert!(result.is_err());
    let err = result.unwrap_err().message().to_string();
    assert!(err.contains("invalid characters"));
}

#[test]
fn test_validate_config_namespace_starts_with_digit() {
    let config = Config {
        base_locale: "en".to_string(),
        supported_locales: vec!["en".to_string()],
        input_directory: "translations".to_string(),
        output_directory: "output".to_string(),
        namespace: Some("123Game".to_string()), // Starts with digit
        overrides: None,
        analytics: None,
        cloud: None,
    };

    let result = validate_config(&config);
    assert!(result.is_err());
    let err = result.unwrap_err().message().to_string();
    assert!(err.contains("cannot start with a digit"));
}

#[test]
fn test_validate_config_path_traversal() {
    let config = Config {
        base_locale: "en".to_string(),
        supported_locales: vec!["en".to_string()],
        input_directory: "../../../etc".to_string(), // Path traversal
        output_directory: "output".to_string(),
        namespace: None,
        overrides: None,
        analytics: None,
        cloud: None,
    };

    let result = validate_config(&config);
    assert!(result.is_err());
    let err = result.unwrap_err().message().to_string();
    assert!(err.contains("Path traversal"));
}

use roblox_slang::config::ConfigError;
use roblox_slang::validation::{validate_relative_path, ConfigCheckError, KeyError, LocaleCodeError};

#[test]
fn locale_code_errors_name_the_rule() {
    assert_eq!(validate_locale_code(""), Err(LocaleCodeError::Empty));
    assert_eq!(validate_locale_code("en_US"), Err(LocaleCodeError::InvalidCharacters));
    assert_eq!(validate_locale_code("a-b-c-d"), Err(LocaleCodeError::InvalidFormat));
    assert_eq!(validate_locale_code("engl"), Err(LocaleCodeError::LanguageLength));
    assert_eq!(validate_locale_code("En"), Err(LocaleCodeError::LanguageNotLowercase));
    assert_eq!(validate_locale_code("en-U"), Err(LocaleCodeError::RegionLength));
    assert_eq!(validate_locale_code("en-U1"), Err(LocaleCodeError::RegionNotLetters));
    assert_eq!(validate_locale_code("zh-Hans-CN"), Ok(()));
    assert_eq!(validate_locale_code("en-US-"), Ok(()));
}

#[test]
fn key_errors_name_the_rule() {
    assert_eq!(validate_translation_key("a/b"), Err(KeyError::ReservedCharacter('/')));
    assert_eq!(validate_translation_key("a\u{3000}b"), Err(KeyError::Whitespace));
    assert_eq!(validate_translation_key("a\tb"), Err(KeyError::Whitespace));
    assert_eq!(validate_translation_key("."), Err(KeyError::LeadingDot));
    assert_eq!(validate_translation_key("a.b"), Ok(()));
}

#[test]
fn config_check_errors_name_the_rule() {
    let mut config = Config::default();
    assert_eq!(validate_config(&config), Ok(()));
    config.output_directory = config.input_directory.clone();
    assert_eq!(
        validate_config(&config),
        Err(ConfigCheckError::Config(ConfigError::SameDirectories))
    );
    let mut config = Config::default();
    config.output_directory = "out/../x".to_string();
    assert_eq!(validate_config(&config), Err(ConfigCheckError::PathTraversal));
    assert!(validate_relative_path("translations/en.json"));
    assert!(!validate_relative_path("../etc/passwd"));
}
