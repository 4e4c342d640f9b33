//! Project configuration and its consistency rules.
use crate::locales::{is_roblox_locale, roblox_locale_codes};
use crate::text::str_eq;
use crate::types::CloudConfig;
use vstd::prelude::*;
use vstd::string::StringExecFns;

verus! {

/// Project configuration.
#[derive(Debug, Clone)]
pub struct Config {
    /// The canonical locale, used as the source text of each key.
    pub base_locale: String,
    pub supported_locales: Vec<String>,
    pub input_directory: String,
    pub output_directory: String,
    pub namespace: Option<String>,
    pub overrides: Option<OverrideConfig>,
    pub analytics: Option<AnalyticsConfig>,
    pub cloud: Option<CloudConfig>,
}

/// Settings of the override file.
#[derive(Debug, Clone)]
pub struct OverrideConfig {
    pub enabled: bool,
    pub file: String,
}

/// Settings of runtime analytics.
#[derive(Debug, Clone)]
pub struct AnalyticsConfig {
    pub enabled: bool,
    pub track_missing: bool,
    pub track_usage: bool,
    pub callback: Option<String>,
}

pub fn default_input_directory() -> (r: String)
    ensures
        r@ == "translations"@,
{
    String::from_str("translations")
}

pub fn default_output_directory() -> (r: String)
    ensures
        r@ == "output"@,
{
    String::from_str("output")
}

pub fn default_override_file() -> (r: String)
    ensures
        r@ == "overrides.yaml"@,
{
    String::from_str("overrides.yaml")
}

pub fn default_true() -> (r: bool)
    ensures
        r,
{
    true
}

impl Default for Config {
    fn default() -> (r: Config)
        ensures
            r.base_locale@ == "en"@,
            r.supported_locales@.len() == 1,
            r.supported_locales@[0]@ == "en"@,
            r.input_directory@ == "translations"@,
            r.output_directory@ == "output"@,
            r.namespace is None,
            r.overrides is None,
            r.analytics is None,
            r.cloud is None,
    {
        let mut supported_locales: Vec<String> = Vec::new();
        supported_locales.push(String::from_str("en"));
        Config {
            base_locale: String::from_str("en"),
            supported_locales,
            input_directory: default_input_directory(),
            output_directory: default_output_directory(),
            namespace: None,
            overrides: None,
            analytics: None,
            cloud: None,
        }
    }
}

/// Why a configuration was refused.
#[derive(Debug, Clone, Copy, PartialEq, Eq)]
pub enum ConfigError {
    EmptyBaseLocale,
    EmptySupportedLocales,
    /// The base locale is missing from the supported locales.
    BaseLocaleNotListed,
    /// Some supported locale is not one that Roblox supports.
    UnsupportedLocales,
    EmptyInputDirectory,
    EmptyOutputDirectory,
    SameDirectories,
}

impl ConfigError {
    /// A sentence that says what is wrong.
    /// The text of [`Self::message`].
    pub open spec fn message_text(&self) -> Seq<char> {
        match self {
            ConfigError::EmptyBaseLocale => "Configuration error: base_locale cannot be empty"@,
            ConfigError::EmptySupportedLocales => "Configuration error: supported_locales cannot be empty"@,
            ConfigError::BaseLocaleNotListed => "Configuration error: base_locale must be included in supported_locales"@,
            ConfigError::UnsupportedLocales => "Configuration error: Unsupported locale(s) in supported_locales"@,
            ConfigError::EmptyInputDirectory => "Configuration error: input_directory cannot be empty"@,
            ConfigError::EmptyOutputDirectory => "Configuration error: output_directory cannot be empty"@,
            ConfigError::SameDirectories => "Configuration error: input_directory and output_directory cannot be the same"@,
        }
    }

    pub fn message(&self) -> (r: &'static str)
        ensures
            r@ == self.message_text(),
    {
        match self {
            ConfigError::EmptyBaseLocale => "Configuration error: base_locale cannot be empty",
            ConfigError::EmptySupportedLocales => "Configuration error: supported_locales cannot be empty",
            ConfigError::BaseLocaleNotListed => "Configuration error: base_locale must be included in supported_locales",
            ConfigError::UnsupportedLocales => "Configuration error: Unsupported locale(s) in supported_locales",
            ConfigError::EmptyInputDirectory => "Configuration error: input_directory cannot be empty",
            ConfigError::EmptyOutputDirectory => "Configuration error: output_directory cannot be empty",
            ConfigError::SameDirectories => "Configuration error: input_directory and output_directory cannot be the same",
        }
    }
}

pub open spec fn strings_view(v: Seq<String>) -> Seq<Seq<char>> {
    v.map_values(|s: String| s@)
}

impl Config {
    /// The verdict on this configuration, rule by rule in order.
    pub open spec fn verdict(&self) -> Result<(), ConfigError> {
        let locales = strings_view(self.supported_locales@);
        if self.base_locale@.len() == 0 {
            Err(ConfigError::EmptyBaseLocale)
        } else if locales.len() == 0 {
            Err(ConfigError::EmptySupportedLocales)
        } else if !locales.contains(self.base_locale@) {
            Err(ConfigError::BaseLocaleNotListed)
        } else if exists|i: int|
            0 <= i < locales.len() && !roblox_locale_codes().contains(#[trigger] locales[i]) {
            Err(ConfigError::UnsupportedLocales)
        } else if self.input_directory@.len() == 0 {
            Err(ConfigError::EmptyInputDirectory)
        } else if self.output_directory@.len() == 0 {
            Err(ConfigError::EmptyOutputDirectory)
        } else if self.input_directory@ == self.output_directory@ {
            Err(ConfigError::SameDirectories)
        } else {
            Ok(())
        }
    }

    /// Checks that the base locale is set and listed, that every listed locale is one that
    /// Roblox supports, and that the two directories are set and differ.
    pub fn validate(&self) -> (r: Result<(), ConfigError>)
        ensures
            r == self.verdict(),
    {
        let ghost locales = strings_view(self.supported_locales@);
        if self.base_locale.as_str().unicode_len() == 0 {
            return Err(ConfigError::EmptyBaseLocale);
        }
        if self.supported_locales.len() == 0 {
            return Err(ConfigError::EmptySupportedLocales);
        }
        let mut listed = false;
        let mut i: usize = 0;
        while i < self.supported_locales.len()
            invariant
                i <= self.supported_locales@.len(),
                locales == strings_view(self.supported_locales@),
                listed == exists|j: int| 0 <= j < i && #[trigger] locales[j] == self.base_locale@,
            decreases self.supported_locales@.len() - i,
        {
            assert(locales[i as int] == self.supported_locales@[i as int]@);
            if str_eq(self.supported_locales[i].as_str(), self.base_locale.as_str()) {
                listed = true;
            }
            i = i + 1;
        }
        if !listed {
            return Err(ConfigError::BaseLocaleNotListed);
        }
        assert(locales.contains(self.base_locale@));
        let mut i: usize = 0;
        while i < self.supported_locales.len()
            invariant
                i <= self.supported_locales@.len(),
                locales == strings_view(self.supported_locales@),
                locales.contains(self.base_locale@),
                self.base_locale@.len() > 0,
                forall|j: int| 0 <= j < i ==> roblox_locale_codes().contains(#[trigger] locales[j]),
            decreases self.supported_locales@.len() - i,
        {
            assert(locales[i as int] == self.supported_locales@[i as int]@);
            if !is_roblox_locale(self.supported_locales[i].as_str()) {
                return Err(ConfigError::UnsupportedLocales);
            }
            i = i + 1;
        }
        if self.input_directory.as_str().unicode_len() == 0 {
            return Err(ConfigError::EmptyInputDirectory);
        }
        if self.output_directory.as_str().unicode_len() == 0 {
            return Err(ConfigError::EmptyOutputDirectory);
        }
        if str_eq(self.input_directory.as_str(), self.output_directory.as_str()) {
            return Err(ConfigError::SameDirectories);
        }
        Ok(())
    }
}

} // verus!
