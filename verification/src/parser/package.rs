//! Parsers of package requests: a package name with a version or a range of
//! versions.
use vstd::prelude::*;

use crate::error::{PesError, PesNomError};
use crate::parser::grammar::{consuming, package_range, package_version, start};
use crate::parser::outcome::{answer_all_named_nom, answer_named, overflows, reads_all_nom, reads_named};
use crate::parser::scan::{scan_package_range, scan_package_version, skip_multispace};
use crate::range::Range;
use crate::semantic_version::SemanticVersion;
use crate::text::chars_of;

verus! {

/// Reads a package name and a version separated by `-` (`maya-1.2.3`) from the
/// start of `input`.
pub fn parse_package_version(input: &str) -> (r: Result<(&str, (&str, SemanticVersion)), PesNomError>)
    requires
        !overflows(package_version(input@, 0)),
    ensures
        reads_named(r, input@, package_version(input@, 0)),
{
    let c = chars_of(input);
    answer_named(input, c.len(), scan_package_version(&c, 0))
}

/// Reads a package name and a version that make up the whole of `input`, apart
/// from white space around them.
pub fn parse_consuming_package_version(input: &str) -> (r: Result<(&str, SemanticVersion), PesError>)
    requires
        !overflows(package_version(input@, start(input@))),
    ensures
        reads_all_nom(
            r,
            input@,
            consuming(input@, package_version(input@, start(input@))),
            "parse_consuming_package_version "@,
        ),
{
    let c = chars_of(input);
    let i = skip_multispace(&c, 0);
    answer_all_named_nom("parse_consuming_package_version ", input, &c, i, scan_package_version(&c, i))
}

/// Reads a package name and a range of versions separated by `-`
/// (`houdini-1.2.3+<3`, `nuke-^2.2`), or a bare package name, which stands for
/// any version, from the start of `input`.
pub fn parse_package_range(input: &str) -> (r: Result<(&str, (&str, Range<SemanticVersion>)), PesNomError>)
    requires
        !overflows(package_range(input@, 0)),
    ensures
        reads_named(r, input@, package_range(input@, 0)),
{
    let c = chars_of(input);
    answer_named(input, c.len(), scan_package_range(&c, 0))
}

/// Reads a package name and a range of versions (or a bare package name) that
/// make up the whole of `input`, apart from white space around them.
pub fn parse_consuming_package_range(input: &str) -> (r: Result<(&str, Range<SemanticVersion>), PesError>)
    requires
        !overflows(package_range(input@, start(input@))),
    ensures
        reads_all_nom(
            r,
            input@,
            consuming(input@, package_range(input@, start(input@))),
            ""@,
        ),
{
    let c = chars_of(input);
    let i = skip_multispace(&c, 0);
    answer_all_named_nom("", input, &c, i, scan_package_range(&c, i))
}

} // verus!
