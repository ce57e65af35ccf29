//! Detects stale Oracle .NET driver assemblies in a Global Assembly Cache.
//!
//! The installed client version is read from an inventory document, turned
//! into the version that the managed driver assemblies should carry, and the
//! cache listing is scanned for vendor assemblies whose version sorts after it.
pub mod driver;
pub mod error;
pub mod gac;
pub mod inventory;
pub mod text;
pub mod version;
