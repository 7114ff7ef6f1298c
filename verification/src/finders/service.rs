//! The services a deployment provides to find package repositories and the
//! manifest of a distribution.
use vstd::prelude::*;

verus! {

/// Finds the package repositories.
pub trait RepoFinderService {
    /// The paths of the package repositories.
    fn find_repo(&self) -> Vec<String>;
}

/// Finds the manifest within a distribution.
pub trait ManifestFinderService {
    /// Given the path to a distribution, the path to its manifest.
    fn find_manifest(&self, distribution: String) -> String;
}

} // verus!
