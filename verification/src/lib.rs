use vstd::prelude::*;

pub mod assoc;
pub mod config;
pub mod git;
pub mod init;
pub mod registry;
pub mod repository;
pub mod stack;
pub mod catalog;
pub mod compose;
pub mod manifest;
pub mod noduro;
pub mod reference;
pub mod strutil;
pub mod vat_repository;
pub mod version;

verus! {

/// The failure modes of the library's core operations.
#[derive(Debug, Clone, PartialEq, Eq, Structural)]
pub enum VatError {
    ReferenceParseError,
    PackageNotFound,
    VersionConflict,
    WorkspaceMismatch,
    RegistryLocked,
    InvalidEnvironmentPath,
    ArchiveFailure,
    CatalogCorrupt,
    IoError,
}

} // verus!
