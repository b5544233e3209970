//! Core of a Node.js version manager: version strings, the alias store, the
//! remote catalog, token resolution, the installed-version index and the
//! active-version pointer, each with its contract.
pub mod active;
pub mod alias_file;
pub mod aliases;
pub mod catalog;
pub mod cleanup;
pub mod config;
pub mod detection;
pub mod download;
pub mod humanize;
pub mod i18n;
pub mod installed;
pub mod resolver;
pub mod semver;
pub mod shell;
pub mod shasums;
pub mod text;
