//! A repository of published packages, laid out as
//! `<root>/<package>/<version>/<manifest>`: where its distributions lie, and
//! which of them a solve may consider.
use vstd::prelude::*;

use crate::env::str_equal;
use crate::error::PesError;
use crate::parser::grammar::{consuming, package_version, start};
use crate::parser::outcome::{failure_text, nom_failure, overflows};
use crate::parser::parse_consuming_package_version;
use crate::parser::paths::{push_path, push_path_part};
use crate::release_type::ReleaseType;
use crate::semantic_version::SemanticVersion;

verus! {

/// The overrides name `package` at `version`, a pre-release.
pub open spec fn overridden(
    overrides: Seq<(Seq<char>, SemanticVersion)>,
    package: Seq<char>,
    version: SemanticVersion,
) -> bool {
    exists|k: int|
        0 <= k < overrides.len() && (#[trigger] overrides[k]).1.release_type != ReleaseType::Release
            && overrides[k].0 == package && overrides[k].1 == version
}

/// Whether the overrides name `package` at `version`, a pre-release.
pub fn is_overridden(overrides: &Vec<(String, SemanticVersion)>, package: &str, version: SemanticVersion) -> (b: bool)
    ensures
        b == overridden(crate::ordered_map::pairs_view(overrides@), package@, version),
{
    let ghost ov = crate::ordered_map::pairs_view(overrides@);
    let mut k: usize = 0;
    while k < overrides.len()
        invariant
            ov == crate::ordered_map::pairs_view(overrides@),
            k <= overrides@.len(),
            forall|j: int|
                0 <= j < k ==> !((#[trigger] ov[j]).1.release_type != ReleaseType::Release
                    && ov[j].0 == package@ && ov[j].1 == version),
        decreases overrides@.len() - k,
    {
        let (name, v) = (&overrides[k].0, overrides[k].1);
        proof {
            assert(ov[k as int] == (name@, v));
        }
        if v.release_type.rank_of() < 3 && str_equal(name.as_str(), package) && v == version {
            return true;
        }
        k = k + 1;
    }
    false
}

/// A package repository, by its root directory.
#[derive(Debug, Clone, PartialEq, Eq)]
pub struct PackageRepository {
    root: String,
}

impl PackageRepository {
    /// The root directory.
    pub closed spec fn root_spec(self) -> Seq<char> {
        self.root@
    }

    /// A repository rooted at `root`.
    pub fn new(root: String) -> (r: Self)
        ensures
            r.root_spec() == root@,
    {
        Self { root }
    }

    /// The root directory.
    pub fn root(&self) -> (r: &str)
        ensures
            r@ == self.root_spec(),
    {
        self.root.as_str()
    }

    /// The directory of `package` at version `version` (as written):
    /// `<root>/<package>/<version>`.
    pub fn distribution_dir(&self, package: &str, version: &str) -> (r: String)
        ensures
            r@ == push_path(push_path(self.root_spec(), package@), version@),
    {
        let mut p = self.root.clone();
        push_path_part(&mut p, package);
        push_path_part(&mut p, version);
        p
    }

    /// The directory of the distribution `distribution` (`name-version`).
    pub fn distribution_dir_for(&self, distribution: &str) -> (r: Result<String, PesError>)
        requires
            !overflows(package_version(distribution@, start(distribution@))),
        ensures
            match consuming(distribution@, package_version(distribution@, start(distribution@))) {
                Ok((w, v)) => r matches Ok(p) && p@ == push_path(
                    push_path(self.root_spec(), distribution@.subrange(start(distribution@), w)),
                    v.text(),
                ),
                Err(h) => r matches Err(PesError::ParsingFailure(m)) && m@ == "parse_consuming_package_version "@
                    + nom_failure(distribution@, h),
            },
    {
        let (name, version) = parse_consuming_package_version(distribution)?;
        let version = version.to_string();
        Ok(self.distribution_dir(name, version.as_str()))
    }

    /// Whether a manifest found when walking the repository is considered: with
    /// pre-releases left out (`min_release_type` above alpha), a version of a
    /// lower release type is considered only when the overrides name it.
    pub fn admits_manifest(
        package: &str,
        version: SemanticVersion,
        min_release_type: ReleaseType,
        overrides: &Vec<(String, SemanticVersion)>,
    ) -> (b: bool)
        ensures
            b == (min_release_type == ReleaseType::Alpha || version.release_type.rank()
                >= min_release_type.rank() || overridden(
                crate::ordered_map::pairs_view(overrides@),
                package@,
                version,
            )),
    {
        if min_release_type.rank_of() > 0 && version.release_type.rank_of() < min_release_type.rank_of() {
            is_overridden(overrides, package, version)
        } else {
            true
        }
    }

    /// Whether a distribution found when walking the repository is considered:
    /// below releases (`min_release_type` under release), a version of a lower
    /// release type is considered only when the overrides name it; with
    /// `min_release_type` a release, every distribution is.
    pub fn admits_distribution(
        package: &str,
        version: SemanticVersion,
        min_release_type: ReleaseType,
        overrides: &Vec<(String, SemanticVersion)>,
    ) -> (b: bool)
        ensures
            b == (min_release_type == ReleaseType::Release || version.release_type.rank()
                >= min_release_type.rank() || overridden(
                crate::ordered_map::pairs_view(overrides@),
                package@,
                version,
            )),
    {
        if min_release_type.rank_of() < 3 && version.release_type.rank_of() < min_release_type.rank_of() {
            is_overridden(overrides, package, version)
        } else {
            true
        }
    }

    /// Whether a version of a package is listed among its manifests: all are with
    /// `min_release_type` alpha, else those of at least that release type.
    pub fn admits_listed_manifest(version: SemanticVersion, min_release_type: ReleaseType) -> (b: bool)
        ensures
            b == (min_release_type == ReleaseType::Alpha || version.release_type.rank()
                >= min_release_type.rank()),
    {
        min_release_type.rank_of() == 0 || version.release_type.rank_of() >= min_release_type.rank_of()
    }
}

} // verus!
