//! Parsers of semantic versions and ranges of semantic versions.
use vstd::prelude::*;

use crate::error::{PesError, PesNomError};
use crate::parser::grammar::{
    carrot, consuming, semver, semver_between, semver_exact, semver_range, start,
};
use crate::parser::outcome::{answer, answer_all, overflows, reads, reads_all};
use crate::parser::scan::{
    scan_carrot, scan_semver, scan_semver_between, scan_semver_exact, scan_semver_range,
    skip_multispace,
};
use crate::range::Range;
use crate::semantic_version::SemanticVersion;
use crate::text::chars_of;

verus! {

/// Reads a semantic version (`1`, `1.2`, `1.2.3`, `1.2.3-beta`) from the start of `s`.
pub fn parse_semver(s: &str) -> (r: Result<(&str, SemanticVersion), PesNomError>)
    requires
        !overflows(semver(s@, 0)),
    ensures
        reads(r, s@, semver(s@, 0)),
{
    let c = chars_of(s);
    answer(s, c.len(), scan_semver(&c, 0))
}

/// Reads a `^` range from the start of `s`: `^1` is `[1.0.0, 2.0.0)`, `^2.5` is
/// `[2.5.0, 2.6.0)` and `^3.4.2` is `[3.4.2, 3.4.3)`.
pub fn parse_semver_carrot(s: &str) -> (r: Result<(&str, Range<SemanticVersion>), PesNomError>)
    requires
        !overflows(carrot(s@, 0)),
    ensures
        reads(r, s@, carrot(s@, 0)),
{
    let c = chars_of(s);
    answer(s, c.len(), scan_carrot(&c, 0))
}

/// Reads two versions separated by `+<` (spaces allowed around it) from the
/// start of `s`, as the range from the first up to the second.
pub fn parse_semver_between(s: &str) -> (r: Result<(&str, Range<SemanticVersion>), PesNomError>)
    requires
        !overflows(semver_between(s@, 0)),
    ensures
        reads(r, s@, semver_between(s@, 0)),
{
    let c = chars_of(s);
    answer(s, c.len(), scan_semver_between(&c, 0))
}

/// Reads a version from the start of `s`, as the range of exactly that version.
pub fn parse_semver_exact(s: &str) -> (r: Result<(&str, Range<SemanticVersion>), PesNomError>)
    requires
        !overflows(semver_exact(s@, 0)),
    ensures
        reads(r, s@, semver_exact(s@, 0)),
{
    let c = chars_of(s);
    answer(s, c.len(), scan_semver_exact(&c, 0))
}

/// Reads a range of versions from the start of `s`: a `^` range, two versions
/// separated by `+<`, or a single version.
pub fn parse_semver_range(s: &str) -> (r: Result<(&str, Range<SemanticVersion>), PesNomError>)
    requires
        !overflows(semver_range(s@, 0)),
    ensures
        reads(r, s@, semver_range(s@, 0)),
{
    let c = chars_of(s);
    answer(s, c.len(), scan_semver_range(&c, 0))
}

/// Reads a range of versions that makes up the whole of `s`, apart from white
/// space around it.
pub fn parse_consuming_semver_range(s: &str) -> (r: Result<Range<SemanticVersion>, PesError>)
    requires
        !overflows(semver_range(s@, start(s@))),
    ensures
        reads_all(
            r,
            s@,
            consuming(s@, semver_range(s@, start(s@))),
            "parse_consuming_semver_range"@,
        ),
{
    let c = chars_of(s);
    let i = skip_multispace(&c, 0);
    answer_all("parse_consuming_semver_range", s, &c, scan_semver_range(&c, i))
}

/// Reads a semantic version that makes up the whole of `s`, apart from white
/// space around it.
pub fn parse_consuming_semver(s: &str) -> (r: Result<SemanticVersion, PesError>)
    requires
        !overflows(semver(s@, start(s@))),
    ensures
        reads_all(r, s@, consuming(s@, semver(s@, start(s@))), "parse_consuming_semver"@),
{
    let c = chars_of(s);
    let i = skip_multispace(&c, 0);
    answer_all("parse_consuming_semver", s, &c, scan_semver(&c, i))
}

} // verus!
