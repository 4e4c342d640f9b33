//! How responses of the cloud API are classified.
use crate::format::digits_value;
use crate::types::{decimal_digits, decimal_text, CloudSyncError};
use vstd::prelude::*;
use vstd::string::{StringExecFns, StringSliceAdditionalSpecFns};

verus! {

/// Classifies a failed response by its status code: 401 and 403 are authentication
/// errors, 429 a rate limit that waits as long as the server asked (`retry_after`, in
/// seconds; one second when it gave no wait), 5xx a server error, any other status an API
/// error.
pub fn error_for_status(status: u16, body: &str, retry_after: Option<u64>) -> (e: CloudSyncError)
    ensures
        status == 401 ==> (e matches CloudSyncError::AuthenticationError(m) && m@
            == "Invalid or expired API key. Please check your credentials.\n\nResponse: "@ + body@),
        status == 403 ==> (e matches CloudSyncError::AuthenticationError(m) && m@
            == "Insufficient permissions for this operation.\n\nMake sure your API key has access to this table.\nResponse: "@
            + body@),
        status == 429 ==> e == (CloudSyncError::RateLimitError {
            retry_after: match retry_after {
                Some(n) => n,
                None => 1,
            },
            attempt: 1,
        }),
        500 <= status <= 599 ==> (e matches CloudSyncError::ServerError { status: s, message: m }
            && s == status && m@ == "Roblox server error. Please try again later.\n\nResponse: "@
            + body@),
        status != 401 && status != 403 && status != 429 && !(500 <= status <= 599) ==> (
        e matches CloudSyncError::ApiError(m) && m@ == "API request failed with status "@
            + decimal_digits(status as nat) + ": "@ + body@),
{
    if status == 401 {
        CloudSyncError::AuthenticationError(
            String::from_str(
                "Invalid or expired API key. Please check your credentials.\n\nResponse: ",
            ).concat(body),
        )
    } else if status == 403 {
        CloudSyncError::AuthenticationError(
            String::from_str(
                "Insufficient permissions for this operation.\n\nMake sure your API key has access to this table.\nResponse: ",
            ).concat(body),
        )
    } else if status == 429 {
        let wait = match retry_after {
            Some(n) => n,
            None => 1,
        };
        CloudSyncError::RateLimitError { retry_after: wait, attempt: 1 }
    } else if 500 <= status && status <= 599 {
        CloudSyncError::ServerError {
            status,
            message: String::from_str("Roblox server error. Please try again later.\n\nResponse: ").concat(
                body,
            ),
        }
    } else {
        let code = decimal_text(status as u64);
        CloudSyncError::ApiError(
            String::from_str("API request failed with status ").concat(code.as_str()).concat(
                ": ",
            ).concat(body),
        )
    }
}

/// Id and name of a localization table.
#[derive(Debug, Clone)]
pub struct TableMetadata {
    pub id: String,
    pub name: Option<String>,
}

/// What a table reference names.
#[derive(Debug, Clone, Copy, PartialEq, Eq)]
pub enum TableRef {
    /// A table id (a UUID), used as it is.
    Table,
    /// A universe id, whose first table is meant.
    Universe,
    /// Neither.
    Invalid,
}

/// What `u64::from_str` accepts: an optional `+`, then one or more decimal digits whose
/// value fits.
pub open spec fn parses_as_u64(s: Seq<char>) -> bool {
    let d = if s.len() > 0 && s[0] == '+' {
        s.drop_first()
    } else {
        s
    };
    d.len() > 0 && (forall|i: int| 0 <= i < d.len() ==> '0' <= #[trigger] d[i] && d[i] <= '9')
        && digits_value(d) <= u64::MAX as nat
}

/// Relies on `str::parse::<u64>`: an optional `+` and decimal digits, refused when empty,
/// when another character occurs, or when the value overflows.
#[verifier::external_body]
fn is_u64(s: &str) -> (r: bool)
    ensures
        r == parses_as_u64(s@),
{
    s.parse::<u64>().is_ok()
}

pub open spec fn table_ref_spec(id: Seq<char>, byte_len: nat) -> TableRef {
    if (exists|i: int| 0 <= i < id.len() && id[i] == '-') && byte_len == 36 {
        TableRef::Table
    } else if parses_as_u64(id) {
        TableRef::Universe
    } else {
        TableRef::Invalid
    }
}

/// Tells a table id (36 bytes with a hyphen) from a numeric universe id.
pub fn classify_table_ref(id: &str) -> (r: TableRef)
    ensures
        r == table_ref_spec(id@, vstd::utf8::encode_utf8(id@).len()),
{
    let n = id.unicode_len();
    let mut has_hyphen = false;
    let mut i: usize = 0;
    while i < n
        invariant
            n == id@.len(),
            i <= n,
            has_hyphen == exists|j: int| 0 <= j < i && id@[j] == '-',
        decreases n - i,
    {
        if id.get_char(i) == '-' {
            has_hyphen = true;
        }
        i = i + 1;
    }
    let raw = id.as_bytes();
    assert(raw@ == id.spec_bytes());
    let bytes = raw.len();
    if has_hyphen && bytes == 36 {
        TableRef::Table
    } else if is_u64(id) {
        TableRef::Universe
    } else {
        TableRef::Invalid
    }
}

} // verus!
