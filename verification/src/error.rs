//! The error channel shared by every fallible operation of the crate.
//!
//! Errors are structured: each variant names the subsystem that failed, and
//! [`NuanceError::message`] renders the single human-readable line that a
//! caller reports. Nothing is retried anywhere — an error propagates
//! unchanged to the caller.

use vstd::prelude::*;

verus! {

/// A structured error from resolution, installation, validation or
/// configuration handling.
#[derive(Debug, Clone)]
pub enum NuanceError {
    /// A malformed or invalid manifest (bad dependency spec, empty fields).
    Manifest(String),
    /// A missing or malformed lockfile, or one demanded under frozen mode.
    Lockfile(String),
    /// A failure reported by the version-control layer.
    Git(String),
    /// Two resolutions disagree for one dependency name; carries both
    /// commit identifiers.
    Conflict {
        /// The dependency name both sides claim.
        name: String,
        /// The commit identifier already recorded.
        rev_a: String,
        /// The commit identifier of the later, disagreeing resolution.
        rev_b: String,
    },
    /// An invalid global configuration value.
    Config(String),
    /// No manifest file was found in the named directory.
    NoManifest(String),
    /// An input/output failure surfaced by the caller.
    Io(String),
    /// The on-disk TOML could not be parsed.
    TomlParse(String),
    /// A value could not be rendered as TOML.
    TomlSerialize(String),
    /// Anything else.
    Other(String),
}

/// The single rendered line for an error value.
pub open spec fn message_spec(e: NuanceError) -> Seq<char> {
    match e {
        NuanceError::Manifest(m) => "manifest error: "@ + m@,
        NuanceError::Lockfile(m) => "lockfile error: "@ + m@,
        NuanceError::Git(m) => "git error: "@ + m@,
        NuanceError::Conflict { name, rev_a, rev_b } => "dependency conflict: package '"@
            + name@ + "' required at "@ + rev_a@ + " and "@ + rev_b@,
        NuanceError::Config(m) => "config error: "@ + m@,
        NuanceError::NoManifest(p) => "no mod.toml found in "@ + p@,
        NuanceError::Io(m) => "io error: "@ + m@,
        NuanceError::TomlParse(m) => "toml parse error: "@ + m@,
        NuanceError::TomlSerialize(m) => "toml serialize error: "@ + m@,
        NuanceError::Other(m) => m@,
    }
}

impl NuanceError {
    /// Render the error as the one line reported to the caller.
    pub fn message(&self) -> (r: String)
        ensures
            r@ == message_spec(*self),
    {
        match self {
            NuanceError::Manifest(m) => String::from_str("manifest error: ").concat(m.as_str()),
            NuanceError::Lockfile(m) => String::from_str("lockfile error: ").concat(m.as_str()),
            NuanceError::Git(m) => String::from_str("git error: ").concat(m.as_str()),
            NuanceError::Conflict { name, rev_a, rev_b } => String::from_str(
                "dependency conflict: package '",
            ).concat(name.as_str()).concat("' required at ").concat(rev_a.as_str()).concat(
                " and ",
            ).concat(rev_b.as_str()),
            NuanceError::Config(m) => String::from_str("config error: ").concat(m.as_str()),
            NuanceError::NoManifest(p) => String::from_str("no mod.toml found in ").concat(
                p.as_str(),
            ),
            NuanceError::Io(m) => String::from_str("io error: ").concat(m.as_str()),
            NuanceError::TomlParse(m) => String::from_str("toml parse error: ").concat(m.as_str()),
            NuanceError::TomlSerialize(m) => String::from_str("toml serialize error: ").concat(
                m.as_str(),
            ),
            NuanceError::Other(m) => m.clone(),
        }
    }
}

} // verus!
