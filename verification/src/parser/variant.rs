//! Parsers of variants, ranges of variants and package requests with variants.
use vstd::prelude::*;

use crate::error::{PesError, PesNomError};
use crate::parser::grammar::{
    caret_explicit_variant_range, caret_implicit_variant_range, caret_variant_semver_range,
    consuming, package_variant, package_variants, package_variants_range, semver_variants_between,
    semver_with_implicit_variant_range, start, variant_semver, variant_semver_exact_range,
};
use crate::parser::outcome::{
    answer, answer_all, answer_all_named, answer_named, overflows, reads, reads_all,
    reads_all_named, reads_named,
};
use crate::parser::scan::{
    scan_caret_explicit_variant_range, scan_caret_implicit_variant_range,
    scan_caret_variant_semver_range, scan_package_variant, scan_package_variants,
    scan_package_variants_range, scan_semver_variants_between,
    scan_semver_with_implicit_variant_range, scan_variant_semver, scan_variant_semver_exact_range,
    skip_multispace,
};
use crate::range::Range;
use crate::semantic_version::SemanticVersion;
use crate::text::chars_of;
use crate::variant::Variant;

verus! {

/// Reads a package name and a range of variants separated by `-` from the start
/// of `input`: two versions (each with or without a variant index) separated by
/// `+<` or `..` (`maya-1.2.3@2+<2.2.2`), or a `^` range (`houdini-^0.2`).
pub fn parse_package_variants_range(input: &str) -> (r: Result<(&str, (&str, Range<Variant<SemanticVersion>>)), PesNomError>)
    requires
        !overflows(package_variants_range(input@, 0)),
    ensures
        reads_named(r, input@, package_variants_range(input@, 0)),
{
    let c = chars_of(input);
    answer_named(input, c.len(), scan_package_variants_range(&c, 0))
}

/// Reads a package name and a range of variants that make up the whole of
/// `input`, apart from white space around them.
pub fn parse_consuming_package_variants_range(input: &str) -> (r: Result<(&str, Range<Variant<SemanticVersion>>), PesError>)
    requires
        !overflows(package_variants_range(input@, start(input@))),
    ensures
        reads_all_named(
            r,
            input@,
            consuming(input@, package_variants_range(input@, start(input@))),
            "parse_consuming_package_variants_range failed"@,
        ),
{
    let c = chars_of(input);
    let i = skip_multispace(&c, 0);
    answer_all_named("parse_consuming_package_variants_range failed", input, &c, i, scan_package_variants_range(&c, i))
}

/// Reads a package name and either one variant (`maya-1.2.3-beta@1`, the range of
/// exactly that variant) or a version without index (`maya-1.2.3`, the range of
/// all its variants) from the start of `input`.
pub fn parse_package_variants(input: &str) -> (r: Result<(&str, (&str, Range<Variant<SemanticVersion>>)), PesNomError>)
    requires
        !overflows(package_variants(input@, 0)),
    ensures
        reads_named(r, input@, package_variants(input@, 0)),
{
    let c = chars_of(input);
    answer_named(input, c.len(), scan_package_variants(&c, 0))
}

/// Reads a package name with one variant or all variants of a version, making up
/// the whole of `input` apart from white space around them.
pub fn parse_consuming_package_variants(input: &str) -> (r: Result<(&str, Range<Variant<SemanticVersion>>), PesError>)
    requires
        !overflows(package_variants(input@, start(input@))),
    ensures
        reads_all_named(
            r,
            input@,
            consuming(input@, package_variants(input@, start(input@))),
            "parse_consuming_package_variants failed"@,
        ),
{
    let c = chars_of(input);
    let i = skip_multispace(&c, 0);
    answer_all_named("parse_consuming_package_variants failed", input, &c, i, scan_package_variants(&c, i))
}

/// Reads a package name and a variant separated by `-` (`maya-1.2.3@1`) from the
/// start of `input`.
pub fn parse_package_variant(input: &str) -> (r: Result<(&str, (&str, Variant<SemanticVersion>)), PesNomError>)
    requires
        !overflows(package_variant(input@, 0)),
    ensures
        reads_named(r, input@, package_variant(input@, 0)),
{
    let c = chars_of(input);
    answer_named(input, c.len(), scan_package_variant(&c, 0))
}

/// Reads a package name and a variant that make up the whole of `input`, apart
/// from white space around them.
pub fn parse_consuming_package_variant(input: &str) -> (r: Result<(&str, Variant<SemanticVersion>), PesError>)
    requires
        !overflows(package_variant(input@, start(input@))),
    ensures
        reads_all_named(
            r,
            input@,
            consuming(input@, package_variant(input@, start(input@))),
            "parsse_consuming_package_variant failed"@,
        ),
{
    let c = chars_of(input);
    let i = skip_multispace(&c, 0);
    answer_all_named("parsse_consuming_package_variant failed", input, &c, i, scan_package_variant(&c, i))
}

/// Reads a version with a variant index (`1.2.3@1`, `1.2.3-beta@1`) from the start
/// of `s`.
pub fn parse_variant_semver(s: &str) -> (r: Result<(&str, Variant<SemanticVersion>), PesNomError>)
    requires
        !overflows(variant_semver(s@, 0)),
    ensures
        reads(r, s@, variant_semver(s@, 0)),
{
    let c = chars_of(s);
    answer(s, c.len(), scan_variant_semver(&c, 0))
}

/// Reads a version with a variant index that makes up the whole of `input`, apart
/// from white space around it.
pub fn parse_consuming_variant_semver(input: &str) -> (r: Result<Variant<SemanticVersion>, PesError>)
    requires
        !overflows(variant_semver(input@, start(input@))),
    ensures
        reads_all(
            r,
            input@,
            consuming(input@, variant_semver(input@, start(input@))),
            "parse_consuming_variant_semver"@,
        ),
{
    let c = chars_of(input);
    let i = skip_multispace(&c, 0);
    answer_all("parse_consuming_variant_semver", input, &c, scan_variant_semver(&c, i))
}

/// Reads a version with a variant index from the start of `s`, as the range of
/// exactly that variant.
pub fn parse_variant_semver_exact_range(s: &str) -> (r: Result<(&str, Range<Variant<SemanticVersion>>), PesNomError>)
    requires
        !overflows(variant_semver_exact_range(s@, 0)),
    ensures
        reads(r, s@, variant_semver_exact_range(s@, 0)),
{
    let c = chars_of(s);
    answer(s, c.len(), scan_variant_semver_exact_range(&c, 0))
}

/// Reads a version with a variant index that makes up the whole of `input`, apart
/// from white space around it, as the range of exactly that variant.
pub fn parse_consuming_variant_semver_exact_range(input: &str) -> (r: Result<Range<Variant<SemanticVersion>>, PesError>)
    requires
        !overflows(variant_semver_exact_range(input@, start(input@))),
    ensures
        reads_all(
            r,
            input@,
            consuming(input@, variant_semver_exact_range(input@, start(input@))),
            "parse_consuming_variant_semver_exact_range"@,
        ),
{
    let c = chars_of(input);
    let i = skip_multispace(&c, 0);
    answer_all("parse_consuming_variant_semver_exact_range", input, &c, scan_variant_semver_exact_range(&c, i))
}

/// Reads a version without variant index from the start of `s`, as the range of
/// all its variants, from index 0 up to `MAX_VARIANTS`.
pub fn parse_semver_with_implicit_variant_range(s: &str) -> (r: Result<(&str, Range<Variant<SemanticVersion>>), PesNomError>)
    requires
        !overflows(semver_with_implicit_variant_range(s@, 0)),
    ensures
        reads(r, s@, semver_with_implicit_variant_range(s@, 0)),
{
    let c = chars_of(s);
    answer(s, c.len(), scan_semver_with_implicit_variant_range(&c, 0))
}

/// Reads a version without variant index that makes up the whole of `input`,
/// apart from white space around it, as the range of all its variants.
pub fn parse_consuming_semver_with_implicit_variant_range(input: &str) -> (r: Result<Range<Variant<SemanticVersion>>, PesError>)
    requires
        !overflows(semver_with_implicit_variant_range(input@, start(input@))),
    ensures
        reads_all(
            r,
            input@,
            consuming(input@, semver_with_implicit_variant_range(input@, start(input@))),
            "parse_consuming_semver_with_implicit_variant_range"@,
        ),
{
    let c = chars_of(input);
    let i = skip_multispace(&c, 0);
    answer_all("parse_consuming_semver_with_implicit_variant_range", input, &c, scan_semver_with_implicit_variant_range(&c, i))
}

/// Reads a `^` range of variants from the start of `s`, with an explicit index
/// (`^1.2.3@1`) or without one (`^1.2.3`).
pub fn parse_caret_variant_semver_range(s: &str) -> (r: Result<(&str, Range<Variant<SemanticVersion>>), PesNomError>)
    requires
        !overflows(caret_variant_semver_range(s@, 0)),
    ensures
        reads(r, s@, caret_variant_semver_range(s@, 0)),
{
    let c = chars_of(s);
    answer(s, c.len(), scan_caret_variant_semver_range(&c, 0))
}

/// Reads `^` and a version with an explicit variant index from the start of `s`:
/// the range from that variant up to the cargo upper bound of the version
/// (`^1.2.3@1` up to `2.0.0@1`, `^0.2.3@1` up to `0.3.0@1`, `^0.0.3@1` up to
/// `0.0.4@1`).
pub fn parse_caret_explicit_variant_semver_range(s: &str) -> (r: Result<(&str, Range<Variant<SemanticVersion>>), PesNomError>)
    requires
        !overflows(caret_explicit_variant_range(s@, 0)),
    ensures
        reads(r, s@, caret_explicit_variant_range(s@, 0)),
{
    let c = chars_of(s);
    answer(s, c.len(), scan_caret_explicit_variant_range(&c, 0))
}

/// Reads `^` and a version without variant index from the start of `s`: the range
/// from variant 0 of the version up to variant `MAX_VARIANTS` of its cargo upper
/// bound.
pub fn parse_caret_implicit_variant_semver_range(s: &str) -> (r: Result<(&str, Range<Variant<SemanticVersion>>), PesNomError>)
    requires
        !overflows(caret_implicit_variant_range(s@, 0)),
    ensures
        reads(r, s@, caret_implicit_variant_range(s@, 0)),
{
    let c = chars_of(s);
    answer(s, c.len(), scan_caret_implicit_variant_range(&c, 0))
}

/// Reads two versions separated by `+<` or `..` (blanks allowed around it) from the
/// start of `s`, as the range between them; a lower bound without index is
/// index 0, an upper bound without index is `MAX_VARIANTS`.
pub fn parse_semver_variants_between(s: &str) -> (r: Result<(&str, Range<Variant<SemanticVersion>>), PesNomError>)
    requires
        !overflows(semver_variants_between(s@, 0)),
    ensures
        reads(r, s@, semver_variants_between(s@, 0)),
{
    let c = chars_of(s);
    answer(s, c.len(), scan_semver_variants_between(&c, 0))
}

} // verus!
