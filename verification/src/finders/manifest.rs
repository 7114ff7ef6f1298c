//! The development manifest finder: the manifest lies at the root of the
//! distribution.
use vstd::prelude::*;

use crate::constants::MANIFEST_NAME;
use crate::finders::service::ManifestFinderService;
use crate::parser::paths::{push_path, push_path_part};

verus! {

/// The development manifest finder.
#[derive(Debug, Clone, Copy)]
pub struct DevManifestFinder;

/// A development manifest finder.
pub fn new_finder_service() -> (f: DevManifestFinder) {
    DevManifestFinder::new()
}

impl DevManifestFinder {
    /// The development manifest finder.
    pub fn new() -> (f: DevManifestFinder) {
        DevManifestFinder
    }

    /// The manifest of the distribution at `distribution`: `manifest.yaml` at its root.
    pub fn manifest_of(&self, distribution: String) -> (r: String)
        ensures
            r@ == push_path(distribution@, MANIFEST_NAME@),
    {
        let mut p = distribution;
        push_path_part(&mut p, MANIFEST_NAME);
        p
    }
}

impl ManifestFinderService for DevManifestFinder {
    fn find_manifest(&self, distribution: String) -> (r: String)
        ensures
            r@ == push_path(distribution@, MANIFEST_NAME@),
    {
        self.manifest_of(distribution)
    }
}

} // verus!
