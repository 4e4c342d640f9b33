//! The API key used against the cloud.
use crate::config::Config;
use crate::types::CloudSyncError;
use vstd::prelude::*;
use vstd::string::{StringExecFns, StringSliceAdditionalSpecFns};
use vstd::utf8::encode_utf8;

verus! {

/// The error text when no source holds an API key.
pub const MISSING_KEY_MESSAGE: &'static str = "Roblox Cloud API key not found\n\nPlease set your API key using one of these methods:\n\n1. Environment variable (recommended):\n   export ROBLOX_CLOUD_API_KEY=your_api_key_here\n\n2. Configuration file (slang-roblox.yaml):\n   cloud:\n     api_key: your_api_key_here\n\nGet your API key from:\nhttps://create.roblox.com/credentials";

/// Credentials for the cloud API.
#[derive(Debug)]
pub struct AuthConfig {
    pub api_key: String,
}

impl AuthConfig {
    /// The key message when no source holds a key.
    pub open spec fn missing_key_message() -> Seq<char> {
        MISSING_KEY_MESSAGE@
    }

    /// Picks the API key: the environment's (`env_key`) first, then the configuration's,
    /// and validates it.
    pub fn from_sources(env_key: Option<String>, config: &Config) -> (r: Result<AuthConfig, CloudSyncError>)
        ensures
            env_key is Some ==> (match r {
                Ok(a) => a.api_key@ == env_key->Some_0@ && encode_utf8(a.api_key@).len() >= 10,
                Err(e) => e is ConfigError && encode_utf8(env_key->Some_0@).len() < 10,
            }),
            env_key is None && config.cloud is Some && config.cloud->Some_0.api_key is Some ==> (
            match r {
                Ok(a) => a.api_key@ == config.cloud->Some_0.api_key->Some_0@ && encode_utf8(
                    a.api_key@,
                ).len() >= 10,
                Err(e) => e is ConfigError && encode_utf8(config.cloud->Some_0.api_key->Some_0@).len()
                    < 10,
            }),
            env_key is None && !(config.cloud is Some && config.cloud->Some_0.api_key is Some) ==> (
            r matches Err(CloudSyncError::ConfigError(m)) && m@ == Self::missing_key_message()),
    {
        let key = match env_key {
            Some(k) => k,
            None => match &config.cloud {
                Some(c) => match &c.api_key {
                    Some(k) => k.clone(),
                    None => return Err(CloudSyncError::ConfigError(String::from_str(MISSING_KEY_MESSAGE))),
                },
                None => return Err(CloudSyncError::ConfigError(String::from_str(MISSING_KEY_MESSAGE))),
            },
        };
        let auth = AuthConfig { api_key: key };
        match auth.validate() {
            Ok(()) => Ok(auth),
            Err(e) => Err(e),
        }
    }

    /// Rejects an empty key, and one shorter than ten bytes.
    pub fn validate(&self) -> (r: Result<(), CloudSyncError>)
        ensures
            self.api_key@.len() == 0 ==> (r matches Err(CloudSyncError::ConfigError(m)) && m@
                == "API key cannot be empty"@),
            self.api_key@.len() > 0 && encode_utf8(self.api_key@).len() < 10 ==> (
            r matches Err(CloudSyncError::ConfigError(m)) && m@
                == "API key appears to be invalid (too short)"@),
            encode_utf8(self.api_key@).len() >= 10 ==> r is Ok,
    {
        if self.api_key.as_str().is_empty() {
            return Err(CloudSyncError::ConfigError(String::from_str("API key cannot be empty")));
        }
        let key = self.api_key.as_str();
        assert(key.spec_bytes() == encode_utf8(self.api_key@));
        if key.as_bytes().len() < 10 {
            return Err(
                CloudSyncError::ConfigError(
                    String::from_str("API key appears to be invalid (too short)"),
                ),
            );
        }
        Ok(())
    }
}

} // verus!
