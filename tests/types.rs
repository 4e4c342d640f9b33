use roblox_slang::types::{
    CloudConfig, CloudSyncError, DownloadStats, EntryMetadata, Identifier, LocalizationEntry,
    SyncStats, Translation, UploadStats,
};
use std::time::Duration;

#[test]
fn test_cloud_sync_error_display() {
    let auth_error = CloudSyncError::AuthenticationError("Invalid API key".to_string());
    assert!(auth_error.message().contains("Authentication failed"));

    let rate_limit_error = CloudSyncError::RateLimitError {
        retry_after: 60,
        attempt: 2,
    };
    assert!(rate_limit_error.message().contains("Rate limit exceeded"));
    assert!(rate_limit_error.message().contains("60s"));

    let server_error = CloudSyncError::ServerError {
        status: 500,
        message: "Internal Server Error".to_string(),
    };
    assert!(server_error.message().contains("500"));

    let config_error = CloudSyncError::ConfigError("Missing table_id".to_string());
    assert!(config_error.message().contains("Configuration error"));
}

#[test]
fn error_messages_are_exact() {
    let e = CloudSyncError::RateLimitError { retry_after: 60, attempt: 2 };
    assert_eq!(e.message(), "Rate limit exceeded. Retrying in 60s (attempt 2/3)");
    let e = CloudSyncError::ValidationError {
        file: "en.json".to_string(),
        line: 12,
        reason: "bad".to_string(),
    };
    assert_eq!(e.message(), "Validation failed in en.json:12 - bad");
    let e = CloudSyncError::ServerError { status: 503, message: "down".to_string() };
    assert_eq!(e.message(), "Server error: 503 - down");
    assert_eq!(CloudSyncError::ApiError("x".to_string()).message(), "API error: x");
    assert_eq!(CloudSyncError::NetworkError("y".to_string()).message(), "Network error: y");
}

#[test]
fn test_localization_entry_creation() {
    let entry = LocalizationEntry {
        identifier: Identifier {
            key: "ui.button".to_string(),
            context: None,
            source: "Buy".to_string(),
        },
        metadata: None,
        translations: vec![Translation {
            locale: "en".to_string(),
            translation_text: "Buy".to_string(),
        }],
    };

    assert_eq!(entry.identifier.key, "ui.button");
    assert_eq!(entry.translations.len(), 1);
    assert_eq!(entry.translations[0].locale, "en");
}

#[test]
fn test_identifier_with_context() {
    let identifier = Identifier {
        key: "common.close".to_string(),
        context: Some("button".to_string()),
        source: "Close".to_string(),
    };

    assert_eq!(identifier.context, Some("button".to_string()));
}

#[test]
fn test_entry_metadata() {
    let metadata = EntryMetadata {
        example: Some("Used in shop UI".to_string()),
        entry_type: Some("manual".to_string()),
    };

    assert_eq!(metadata.example, Some("Used in shop UI".to_string()));
    assert_eq!(metadata.entry_type, Some("manual".to_string()));
}

#[test]
fn test_cloud_config_defaults() {
    let config = CloudConfig::default();
    assert!(config.table_id.is_none());
    assert!(config.game_id.is_none());
    assert!(config.api_key.is_none());
    assert!(config.strategy.is_none());
}

#[test]
fn test_cloud_config_with_values() {
    let config = CloudConfig {
        table_id: Some("table-123".to_string()),
        game_id: Some("game-456".to_string()),
        api_key: Some("key-789".to_string()),
        strategy: Some("merge".to_string()),
    };

    assert_eq!(config.table_id, Some("table-123".to_string()));
    assert_eq!(config.game_id, Some("game-456".to_string()));
    assert_eq!(config.strategy, Some("merge".to_string()));
}

#[test]
fn test_upload_stats() {
    let stats = UploadStats {
        entries_uploaded: 100,
        locales_processed: 3,
        duration: Duration::from_secs(5),
    };

    assert_eq!(stats.entries_uploaded, 100);
    assert_eq!(stats.locales_processed, 3);
    assert_eq!(stats.duration.as_secs(), 5);
}

#[test]
fn test_download_stats() {
    let stats = DownloadStats {
        entries_downloaded: 50,
        locales_created: 2,
        locales_updated: 1,
        duration: Duration::from_secs(3),
    };

    assert_eq!(stats.entries_downloaded, 50);
    assert_eq!(stats.locales_created, 2);
    assert_eq!(stats.locales_updated, 1);
}

#[test]
fn test_sync_stats() {
    let stats = SyncStats {
        entries_added: 10,
        entries_updated: 20,
        entries_deleted: 5,
        conflicts_skipped: 2,
        duration: Duration::from_secs(10),
    };

    assert_eq!(stats.entries_added, 10);
    assert_eq!(stats.entries_updated, 20);
    assert_eq!(stats.entries_deleted, 5);
    assert_eq!(stats.conflicts_skipped, 2);
}

#[test]
fn test_localization_entry_clone() {
    let entry = LocalizationEntry {
        identifier: Identifier {
            key: "key".to_string(),
            context: None,
            source: "Source".to_string(),
        },
        metadata: None,
        translations: vec![],
    };

    let cloned = entry.clone();
    assert_eq!(entry.identifier.key, cloned.identifier.key);
}
