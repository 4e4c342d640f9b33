//! Synchronisation of keyed, per-locale translation records with a cloud table, and the
//! tooling around them: validation, CSV and gettext import, key rewriting and type
//! definitions.
pub mod auth;
pub mod client;
pub mod config;
pub mod csv;
pub mod format;
pub mod gettext;
pub mod locales;
pub mod merge;
pub mod migrator;
pub mod overrides;
pub mod plurals;
pub mod rate_limit;
pub mod records;
pub mod sync;
pub mod text;
pub mod typedefs;
pub mod types;
pub mod validation;
pub mod validator;
