use roblox_slang::auth::AuthConfig;
use roblox_slang::config::Config;
use roblox_slang::types::CloudConfig;

fn create_test_config_with_api_key(api_key: Option<String>) -> Config {
    Config {
        base_locale: "en".to_string(),
        supported_locales: vec!["en".to_string()],
        input_directory: "translations".to_string(),
        output_directory: "output".to_string(),
        namespace: None,
        overrides: None,
        analytics: None,
        cloud: Some(CloudConfig {
            table_id: None,
            game_id: None,
            api_key,
            strategy: None,
        }),
    }
}

#[test]
fn test_load_from_config() {
    let config = create_test_config_with_api_key(Some("test_api_key_12345".to_string()));
    let auth = AuthConfig::from_sources(None, &config).unwrap();
    assert_eq!(auth.api_key, "test_api_key_12345");
}

#[test]
fn test_load_missing_api_key() {
    let config = create_test_config_with_api_key(None);
    let result = AuthConfig::from_sources(None, &config);
    assert!(result.is_err());
    assert!(result.unwrap_err().message().contains("API key not found"));
}

#[test]
fn environment_key_comes_first() {
    let config = create_test_config_with_api_key(Some("config_key_12345".to_string()));
    let auth = AuthConfig::from_sources(Some("env_key_1234567".to_string()), &config).unwrap();
    assert_eq!(auth.api_key, "env_key_1234567");
    assert!(AuthConfig::from_sources(Some("short".to_string()), &config).is_err());
}


#[test]
fn test_validate_empty_key() {
    let auth = AuthConfig {
        api_key: String::new(),
    };
    let result = auth.validate();
    assert!(result.is_err());
    assert!(result.unwrap_err().message().contains("cannot be empty"));
}

#[test]
fn test_validate_short_key() {
    let auth = AuthConfig {
        api_key: "short".to_string(),
    };
    let result = auth.validate();
    assert!(result.is_err());
    assert!(result.unwrap_err().message().contains("too short"));
}

#[test]
fn test_validate_valid_key() {
    let auth = AuthConfig {
        api_key: "valid_api_key_12345".to_string(),
    };
    assert!(auth.validate().is_ok());
}

#[test]
fn key_length_counts_bytes() {
    let auth = AuthConfig { api_key: "ééééé".to_string() };
    assert!(auth.validate().is_ok());
    let auth = AuthConfig { api_key: "123456789".to_string() };
    assert!(auth.validate().is_err());
}
