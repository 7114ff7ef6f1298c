//! A package name with a range of versions (e.g. `maya-1.2.3+<4`).
use vstd::prelude::*;

use crate::env::Text;
use crate::error::PesError;
use crate::parser::grammar::{consuming, package_range, semver_range, start};
use crate::parser::outcome::{failure_text, nom_failure, overflows};
use crate::parser::{parse_consuming_package_range, parse_consuming_semver_range};
use crate::range::Range;
use crate::semantic_version::SemanticVersion;

verus! {

/// A package name with a range of versions, borrowing the name.
#[derive(PartialEq, Eq, Debug)]
pub struct DistributionRange<'a> {
    /// Name of the package
    pub name: &'a str,
    /// Version range for the package
    pub range: Range<SemanticVersion>,
}

impl<'a> DistributionRange<'a> {
    /// Construct from a name and a range.
    pub fn new(name: &'a str, range: Range<SemanticVersion>) -> (d: Self)
        ensures
            d.name == name,
            d.range == range,
    {
        Self { name, range }
    }

    /// Construct from a name and a range string (read as by
    /// `parse_consuming_semver_range`).
    pub fn from_strs(name: &'a str, range: &str) -> (r: Result<Self, PesError>)
        requires
            !overflows(semver_range(range@, start(range@))),
        ensures
            match consuming(range@, semver_range(range@, start(range@))) {
                Ok(g) => r matches Ok(d) && d.name == name && d.range == g,
                Err(_) => r matches Err(PesError::ParsingFailure(m)) && m@ == failure_text(
                    "parse_consuming_semver_range"@,
                    range@,
                ),
            },
    {
        let range = parse_consuming_semver_range(range)?;
        Ok(Self { name, range })
    }

    /// Construct from the written form, e.g. `maya-1.2.3+<4` or a bare name (read
    /// as by `parse_consuming_package_range`).
    pub fn from_str(name: &'a str) -> (r: Result<Self, PesError>)
        requires
            !overflows(package_range(name@, start(name@))),
        ensures
            match consuming(name@, package_range(name@, start(name@))) {
                Ok((w, g)) => r matches Ok(d) && d.name@ == name@.subrange(start(name@), w)
                    && d.range == g,
                Err(h) => r matches Err(PesError::ParsingFailure(m)) && m@ == nom_failure(name@, h),
            },
    {
        proof {
            reveal_strlit("");
        }
        match parse_consuming_package_range(name) {
            Ok((name, range)) => Ok(Self { name, range }),
            Err(e) => {
                proof {
                    if let Err(h) = consuming(name@, package_range(name@, start(name@))) {
                        assert(""@ + nom_failure(name@, h) =~= nom_failure(name@, h));
                    }
                }
                Err(e)
            },
        }
    }
}

/// A package name with a range of versions, owning the name.
#[derive(PartialEq, Eq, Debug)]
pub struct VersionedPackageOwning {
    /// Name of the package
    pub name: String,
    /// Version range for the package
    pub range: Range<SemanticVersion>,
}

impl VersionedPackageOwning {
    /// Construct from a name and a range.
    pub fn new<N: Text>(name: N, range: Range<SemanticVersion>) -> (p: Self)
        ensures
            p.name@ == name.chars(),
            p.range == range,
    {
        Self { name: name.into_string(), range }
    }

    /// Construct from a name and a range string (read as by
    /// `parse_consuming_semver_range`).
    pub fn from_strs<N: Text>(name: N, range: &str) -> (r: Result<Self, PesError>)
        requires
            !overflows(semver_range(range@, start(range@))),
        ensures
            match consuming(range@, semver_range(range@, start(range@))) {
                Ok(g) => r matches Ok(p) && p.name@ == name.chars() && p.range == g,
                Err(_) => r matches Err(PesError::ParsingFailure(m)) && m@ == failure_text(
                    "parse_consuming_semver_range"@,
                    range@,
                ),
            },
    {
        let range = parse_consuming_semver_range(range)?;
        Ok(Self { name: name.into_string(), range })
    }

    /// The name and the range.
    pub fn to_tuple(self) -> (t: (String, Range<SemanticVersion>))
        ensures
            t.0 == self.name,
            t.1 == self.range,
    {
        let Self { name, range } = self;
        (name, range)
    }
}

} // verus!
