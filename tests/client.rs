use roblox_slang::client::{classify_table_ref, error_for_status, TableRef};
use roblox_slang::types::CloudSyncError;

#[test]
fn statuses_map_to_error_kinds() {
    assert!(matches!(error_for_status(401, "x", None), CloudSyncError::AuthenticationError(_)));
    assert!(matches!(error_for_status(403, "x", None), CloudSyncError::AuthenticationError(_)));
    assert!(matches!(
        error_for_status(429, "x", None),
        CloudSyncError::RateLimitError { retry_after: 1, attempt: 1 }
    ));
    assert!(matches!(
        error_for_status(429, "x", Some(30)),
        CloudSyncError::RateLimitError { retry_after: 30, attempt: 1 }
    ));
    assert!(matches!(error_for_status(503, "x", Some(9)), CloudSyncError::ServerError { status: 503, .. }));
    match error_for_status(404, "missing", None) {
        CloudSyncError::ApiError(m) => assert_eq!(m, "API request failed with status 404: missing"),
        other => panic!("unexpected {:?}", other),
    }
}

#[test]
fn table_references_are_classified() {
    assert_eq!(classify_table_ref("123e4567-e89b-12d3-a456-426614174000"), TableRef::Table);
    assert_eq!(classify_table_ref("4567890"), TableRef::Universe);
    assert_eq!(classify_table_ref("+12"), TableRef::Universe);
    assert_eq!(classify_table_ref("abc"), TableRef::Invalid);
    assert_eq!(classify_table_ref("99999999999999999999"), TableRef::Invalid);
}
