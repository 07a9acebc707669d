use vstd::prelude::*;

verus! {

/// The failures of dependency resolution and synchronisation.
#[derive(Debug, Clone, PartialEq, Eq)]
pub enum Error {
    /// A version string that is not a valid semantic version.
    InvalidVersion { text: String },
    /// One package name was given two different origins.
    ConflictingDefinition { name: String },
    /// The package at a path declares another name than the dependency expected.
    NameMismatch { expected: String, found: String },
    /// Version control dependencies are not available.
    GitUnsupported { name: String },
    /// The configuration of a local package at this canonical path has not been loaded.
    ConfigNotLoaded { path: String },
    /// A package recorded as local or version controlled was never provided.
    ProvidedNotFound { name: String },
    /// The solver's choices and the registry metadata supplied for them differ in number.
    ReleaseCountMismatch,
    /// The registry metadata of a chosen package was not supplied.
    ReleaseNotSupplied { name: String },
}

} // verus!
