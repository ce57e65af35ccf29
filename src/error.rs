//! The ways a reconciliation run can fail.
use vstd::prelude::*;

verus! {

/// Why a step of a run failed.
#[derive(Debug, PartialEq, Eq)]
pub enum ReconcileError {
    /// An inventory file is missing or unreadable.
    Io,
    /// An inventory document is not well-formed XML.
    XmlParse,
    /// No version text follows a `SAVED_WITH` element.
    VersionNotFound,
    /// The installed version is not five numeric groups.
    VersionParse,
    /// A cache root or a vendor folder could not be listed.
    DirectoryRead,
    /// A path component is not valid Unicode.
    NonUnicodePath,
    /// A version folder name is not `<version>__<key>`.
    MalformedEntry,
    /// Neither inventory yields a version.
    NoInstallFound,
    /// The two inventories name different versions.
    VersionMismatch { v32: String, v64: String },
}

} // verus!
