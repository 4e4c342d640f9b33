//! Cloud table types, the error taxonomy and operation statistics.
use std::time::Duration;
use vstd::prelude::*;
use vstd::string::StringExecFns;

verus! {

/// Decimal digits of `n`, most significant first, without sign or leading zeros.
pub open spec fn decimal_digits(n: nat) -> Seq<char>
    decreases n,
{
    if n < 10 {
        seq![digit_char(n)]
    } else {
        decimal_digits(n / 10).push(digit_char(n % 10))
    }
}

pub open spec fn digit_char(d: nat) -> char {
    if d == 0 { '0' } else if d == 1 { '1' } else if d == 2 { '2' } else if d == 3 { '3' }
    else if d == 4 { '4' } else if d == 5 { '5' } else if d == 6 { '6' } else if d == 7 { '7' }
    else if d == 8 { '8' } else { '9' }
}

/// Relies on `ToString` for `u64`: the decimal digits of the number.
#[verifier::external_body]
pub(crate) fn decimal_text(n: u64) -> (r: String)
    ensures
        r@ == decimal_digits(n as nat),
{
    n.to_string()
}

/// Errors of cloud synchronisation, each kind with its own payload.
#[derive(Debug)]
pub enum CloudSyncError {
    /// 401 or 403: the credentials were refused (terminal).
    AuthenticationError(String),
    /// 429: the server asks to wait `retry_after` seconds (retryable).
    RateLimitError { retry_after: u64, attempt: u32 },
    /// 5xx (retryable).
    ServerError { status: u16, message: String },
    /// A transport failure.
    NetworkError(String),
    /// A malformed input file.
    ValidationError { file: String, line: usize, reason: String },
    /// Missing or invalid credentials or settings (terminal).
    ConfigError(String),
    /// Any other 4xx (terminal).
    ApiError(String),
}

impl CloudSyncError {
    /// The human-readable text of the error.
    pub open spec fn message_view(&self) -> Seq<char> {
        match self {
            CloudSyncError::AuthenticationError(s) => "Authentication failed: "@ + s@,
            CloudSyncError::RateLimitError { retry_after, attempt } => "Rate limit exceeded. Retrying in "@
                + decimal_digits(*retry_after as nat) + "s (attempt "@ + decimal_digits(
                *attempt as nat,
            ) + "/3)"@,
            CloudSyncError::ServerError { status, message } => "Server error: "@ + decimal_digits(
                *status as nat,
            ) + " - "@ + message@,
            CloudSyncError::NetworkError(s) => "Network error: "@ + s@,
            CloudSyncError::ValidationError { file, line, reason } => "Validation failed in "@
                + file@ + ":"@ + decimal_digits(*line as nat) + " - "@ + reason@,
            CloudSyncError::ConfigError(s) => "Configuration error: "@ + s@,
            CloudSyncError::ApiError(s) => "API error: "@ + s@,
        }
    }

    /// The human-readable text of the error.
    pub fn message(&self) -> (r: String)
        ensures
            r@ == self.message_view(),
    {
        match self {
            CloudSyncError::AuthenticationError(s) => String::from_str(
                "Authentication failed: ",
            ).concat(s.as_str()),
            CloudSyncError::RateLimitError { retry_after, attempt } => {
                let a = decimal_text(*retry_after);
                let b = decimal_text(*attempt as u64);
                String::from_str("Rate limit exceeded. Retrying in ").concat(a.as_str()).concat(
                    "s (attempt ",
                ).concat(b.as_str()).concat("/3)")
            },
            CloudSyncError::ServerError { status, message } => {
                let a = decimal_text(*status as u64);
                String::from_str("Server error: ").concat(a.as_str()).concat(" - ").concat(
                    message.as_str(),
                )
            },
            CloudSyncError::NetworkError(s) => String::from_str("Network error: ").concat(
                s.as_str(),
            ),
            CloudSyncError::ValidationError { file, line, reason } => {
                let a = decimal_text(*line as u64);
                String::from_str("Validation failed in ").concat(file.as_str()).concat(
                    ":",
                ).concat(a.as_str()).concat(" - ").concat(reason.as_str())
            },
            CloudSyncError::ConfigError(s) => String::from_str("Configuration error: ").concat(
                s.as_str(),
            ),
            CloudSyncError::ApiError(s) => String::from_str("API error: ").concat(s.as_str()),
        }
    }
}

/// A page of entries as the cloud returns it.
#[derive(Debug)]
pub struct GetTableEntriesResponse {
    pub entries: Vec<LocalizationEntry>,
    pub next_cursor: Option<String>,
}

/// The body of an update request.
#[derive(Debug)]
pub struct UpdateTableRequest {
    pub entries: Vec<LocalizationEntry>,
}

/// The tables that an owner has.
#[derive(Debug)]
pub struct ListTablesResponse {
    pub data: Vec<TableInfo>,
}

/// One table of a listing.
#[derive(Debug)]
pub struct TableInfo {
    pub id: String,
    pub name: Option<String>,
    pub owner_type: Option<String>,
    pub owner_id: Option<i64>,
    pub asset_id: Option<i64>,
}

/// One key of the cloud table with all its translations.
#[derive(Debug, Clone)]
pub struct LocalizationEntry {
    pub identifier: Identifier,
    pub metadata: Option<EntryMetadata>,
    /// Translations for every locale but the base one, whose text is `identifier.source`.
    pub translations: Vec<Translation>,
}

/// The identity of a cloud entry.
#[derive(Debug, Clone)]
pub struct Identifier {
    pub key: String,
    pub context: Option<String>,
    /// The canonical text, normally the base-locale value.
    pub source: String,
}

/// Descriptive data of a cloud entry.
#[derive(Debug, Clone)]
pub struct EntryMetadata {
    pub example: Option<String>,
    pub entry_type: Option<String>,
}

/// The text of one locale in a cloud entry.
#[derive(Debug, Clone)]
pub struct Translation {
    pub locale: String,
    pub translation_text: String,
}

/// Cloud settings of a project.
#[derive(Debug, Clone)]
pub struct CloudConfig {
    pub table_id: Option<String>,
    pub game_id: Option<String>,
    pub api_key: Option<String>,
    pub strategy: Option<String>,
}

impl Default for CloudConfig {
    fn default() -> (r: CloudConfig)
        ensures
            r.table_id is None,
            r.game_id is None,
            r.api_key is None,
            r.strategy is None,
    {
        CloudConfig { table_id: None, game_id: None, api_key: None, strategy: None }
    }
}

/// Statistics of an upload.
#[derive(Debug)]
pub struct UploadStats {
    pub entries_uploaded: usize,
    pub locales_processed: usize,
    pub duration: Duration,
}

/// Statistics of a download.
#[derive(Debug)]
pub struct DownloadStats {
    pub entries_downloaded: usize,
    pub locales_created: usize,
    pub locales_updated: usize,
    pub duration: Duration,
}

/// Statistics of a bidirectional sync.
#[derive(Debug)]
pub struct SyncStats {
    pub entries_added: usize,
    pub entries_updated: usize,
    pub entries_deleted: usize,
    pub conflicts_skipped: usize,
    pub duration: Duration,
}

} // verus!
