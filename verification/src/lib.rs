//! A dependency manager for shell modules: it resolves a declared set of
//! git-hosted module dependencies, deduplicates and conflict-checks them,
//! fingerprints the installed content, and records a reproducible lockfile.
//!
//! The crate is the decision core. Everything with algorithmic content —
//! ref-kind selection, transitive resolution with conflict detection, the
//! content checksum over sorted file entries, lockfile staleness, and the
//! install planning state machine — lives here, specified and verified.
//! Network and filesystem traffic (git transport, directory walking, TOML
//! files on disk) stays with the caller, which feeds plain values in and
//! carries plain values out.

pub mod checksum;
pub mod config;
pub mod error;
pub mod git;
pub mod installer;
pub mod lockfile;
pub mod manifest;
pub mod order;
pub mod resolver;
pub mod sources;
pub mod strutil;
