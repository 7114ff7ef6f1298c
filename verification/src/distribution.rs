//! A distribution: a package name with one version, written `name-version`
//! (e.g. `maya-1.2.3`).
use vstd::prelude::*;

use crate::distribution_range::DistributionRange;
use crate::env::str_equal;
use crate::error::PesError;
use crate::parser::grammar::{consuming, package_version, semver, start};
use crate::parser::outcome::{failure_text, nom_failure, overflows};
use crate::parser::{parse_consuming_package_version, parse_consuming_semver};
use crate::range::Range;
use crate::semantic_version::SemanticVersion;

verus! {

/// A versioned package. Distributions are ordered by name, then by version.
#[derive(PartialEq, Eq, Ord, PartialOrd, Debug)]
pub struct Distribution<'a> {
    /// Name of the package
    pub name: &'a str,
    /// Version of the package
    pub version: SemanticVersion,
}

/// How a distribution is written: the name, `-` and the version.
pub open spec fn distribution_text(name: Seq<char>, version: SemanticVersion) -> Seq<char> {
    name + seq!['-'] + version.text()
}

impl<'a> Distribution<'a> {
    /// Construct a distribution from a name and a version.
    pub fn new(name: &'a str, version: SemanticVersion) -> (d: Self)
        ensures
            d.name == name,
            d.version == version,
    {
        Self { name, version }
    }

    /// Construct a distribution from a name and a version string (read as by
    /// `parse_consuming_semver`).
    pub fn from_strs(name: &'a str, version: &str) -> (r: Result<Self, PesError>)
        requires
            !overflows(semver(version@, start(version@))),
        ensures
            match consuming(version@, semver(version@, start(version@))) {
                Ok(v) => r matches Ok(d) && d.name == name && d.version == v,
                Err(_) => r matches Err(PesError::ParsingFailure(m)) && m@ == failure_text(
                    "parse_consuming_semver"@,
                    version@,
                ),
            },
    {
        let version = parse_consuming_semver(version)?;
        Ok(Self { name, version })
    }

    /// Construct a distribution from its written form, e.g. `maya-1.2.3` (read as
    /// by `parse_consuming_package_version`).
    pub fn from_str(name: &'a str) -> (r: Result<Self, PesError>)
        requires
            !overflows(package_version(name@, start(name@))),
        ensures
            match consuming(name@, package_version(name@, start(name@))) {
                Ok((w, v)) => r matches Ok(d) && d.name@ == name@.subrange(start(name@), w)
                    && d.version == v,
                Err(h) => r matches Err(PesError::ParsingFailure(m)) && m@ == "parse_consuming_package_version "@
                    + nom_failure(name@, h),
            },
    {
        let (name, version) = parse_consuming_package_version(name)?;
        Ok(Self { name, version })
    }

    /// Whether two distributions are of the same package.
    pub fn package_eq(&self, other: &Distribution) -> (b: bool)
        ensures
            b == (self.name@ == other.name@),
    {
        str_equal(self.name, other.name)
    }

    /// The range of exactly this distribution's version, for this package.
    pub fn to_distribution_range(self) -> (r: DistributionRange<'a>)
        requires
            self.version.can_bump(),
        ensures
            r.name == self.name,
            r.range == Range::exact(self.version),
    {
        let Distribution { name, version } = self;
        DistributionRange::new(name, Range::exact(version))
    }

    /// The written form, `name-version`.
    pub fn to_string(&self) -> (s: String)
        ensures
            s@ == distribution_text(self.name@, self.version),
    {
        proof {
            reveal_strlit("-");
        }
        let mut s = String::from_str(self.name);
        s.append("-");
        let v = self.version.to_string();
        s.append(v.as_str());
        s
    }
}

} // verus!
