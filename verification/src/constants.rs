//! Constants of the system.
use vstd::prelude::*;

verus! {

/// The number of variant indices a version range with an implicit index covers:
/// such a range runs from index 0 up to (excluding) this index.
pub const MAX_VARIANTS: u8 = 255;

/// The name of the manifest file at the root of a distribution.
pub const MANIFEST_NAME: &'static str = "manifest.yaml";

/// The name of the package the solver uses to hold a request.
pub const ROOT_REQUEST: &'static str = "ROOT_REQUEST";

} // verus!
