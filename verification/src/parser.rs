//! Parsers for versions and version ranges, package requests, variants and
//! environment paths.
//!
//! Each public parser comes in two forms. The non-consuming form reads a value
//! from the start of its input and returns the rest of the input with it. The
//! consuming form (`parse_consuming_*`) skips white space around the value and
//! fails unless the whole input is read.
pub mod grammar;
pub mod scan;
pub mod outcome;
pub mod paths;
pub mod semver;
pub mod package;
pub mod variant;
pub mod laws;

pub use crate::env::BasicVarProvider;
pub use package::{
    parse_consuming_package_range, parse_consuming_package_version, parse_package_range,
    parse_package_version,
};
pub use paths::{
    parse_abspath, parse_all_paths_with_provider, parse_append_paths_with_provider,
    parse_consuming_all_paths_with_provider, parse_exact_paths_with_provider,
    parse_path_with_provider, parse_paths_with_provider, parse_prepend_paths_with_provider,
    parse_relpath, parse_var, parse_var_with_provider,
};
pub use semver::{
    parse_consuming_semver, parse_consuming_semver_range, parse_semver, parse_semver_between,
    parse_semver_carrot, parse_semver_exact, parse_semver_range,
};
pub use variant::{
    parse_caret_explicit_variant_semver_range, parse_caret_implicit_variant_semver_range,
    parse_caret_variant_semver_range, parse_consuming_package_variant,
    parse_consuming_package_variants, parse_consuming_package_variants_range,
    parse_consuming_semver_with_implicit_variant_range, parse_consuming_variant_semver,
    parse_consuming_variant_semver_exact_range, parse_package_variant, parse_package_variants,
    parse_package_variants_range, parse_semver_variants_between,
    parse_semver_with_implicit_variant_range, parse_variant_semver,
    parse_variant_semver_exact_range,
};
