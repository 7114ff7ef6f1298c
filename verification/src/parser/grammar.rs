//! The grammar of versions, version ranges, variants and package requests, as
//! functions from a character sequence and a start position to what is read and
//! where reading stopped.
//!
//! A parser either reads a value and stops at a position, fails (the input does
//! not match; a choice then tries its next alternative), or meets a number that
//! does not fit its type, or a bound that cannot be bumped (`Halt::Overflow`);
//! such inputs are outside what the public parsers accept.
use vstd::prelude::*;

use crate::constants::MAX_VARIANTS;
use crate::error::ErrorKind;
use crate::range::Range;
use crate::release_type::ReleaseType;
use crate::semantic_version::SemanticVersion;
use crate::text::{
    blank_end, decimal_value, digits_end, has_tag, is_digit, multispace_end, spaces_end,
    word_end,
};
use crate::variant::Variant;

verus! {

/// Why a parser did not read a value.
#[derive(Debug, Copy, Clone, PartialEq, Eq, Structural)]
pub enum Halt {
    /// The input does not match: where the last alternative tried failed, and
    /// what it expected there.
    Fail(usize, ErrorKind),
    /// A number does not fit its type, or a bound cannot be bumped.
    Overflow,
}

/// An executable parse result agrees with the grammar's.
pub open spec fn agrees<T>(r: Result<(T, usize), Halt>, g: Result<(T, int), Halt>) -> bool {
    match (r, g) {
        (Ok((v1, e1)), Ok((v2, e2))) => v1 == v2 && e1 as int == e2,
        (Err(h1), Err(h2)) => h1 == h2,
        _ => false,
    }
}

/// An executable named result (name end, value, end) agrees with the grammar's.
pub open spec fn agrees_named<T>(
    r: Result<(usize, T, usize), Halt>,
    g: Result<((int, T), int), Halt>,
) -> bool {
    match (r, g) {
        (Ok((w1, v1, e1)), Ok(((w2, v2), e2))) => w1 as int == w2 && v1 == v2 && e1 as int == e2,
        (Err(h1), Err(h2)) => h1 == h2,
        _ => false,
    }
}

/// A failure at `p` where `kind` was expected.
pub open spec fn fail_at<T>(p: int, kind: ErrorKind) -> Result<T, Halt> {
    Err(Halt::Fail(p as usize, kind))
}

/// A failure lies within the first `n` characters, or at their end.
pub open spec fn halt_within<T>(r: Result<T, Halt>, n: int) -> bool {
    r matches Err(Halt::Fail(p, _)) ==> p <= n
}

/// Ordered choice: the second alternative is tried only when the first fails;
/// when both fail, the failure is the second's.
pub open spec fn or_else<T>(first: Result<T, Halt>, second: Result<T, Halt>) -> Result<T, Halt> {
    match first {
        Err(Halt::Fail(_, _)) => second,
        _ => first,
    }
}

pub open spec fn tag_rc() -> Seq<char> {
    seq!['r', 'c']
}

pub open spec fn tag_release_candidate() -> Seq<char> {
    seq!['r', 'e', 'l', 'e', 'a', 's', 'e', 'C', 'a', 'n', 'd', 'i', 'd', 'a', 't', 'e']
}

pub open spec fn tag_alpha() -> Seq<char> {
    seq!['a', 'l', 'p', 'h', 'a']
}

pub open spec fn tag_beta() -> Seq<char> {
    seq!['b', 'e', 't', 'a']
}

/// The separator of a range between two versions, `+<`.
pub open spec fn tag_up_to() -> Seq<char> {
    seq!['+', '<']
}

/// The other separator of a range between two variants, `..`.
pub open spec fn tag_dots() -> Seq<char> {
    seq!['.', '.']
}

pub open spec fn char_at(s: Seq<char>, i: int, c: char) -> bool {
    0 <= i < s.len() && s[i] == c
}

/// A `.` followed by a digit at `j`.
pub open spec fn dot_digit(s: Seq<char>, j: int) -> bool {
    char_at(s, j, '.') && j + 1 < s.len() && is_digit(s[j + 1])
}

/// One to three dot-separated numbers: their values and the end position.
pub open spec fn numbers(s: Seq<char>, i: int) -> Option<(Seq<nat>, int)> {
    if 0 <= i < s.len() && is_digit(s[i]) {
        let j = digits_end(s, i);
        let v0 = decimal_value(s.subrange(i, j));
        if dot_digit(s, j) {
            let k = digits_end(s, j + 1);
            let v1 = decimal_value(s.subrange(j + 1, k));
            if dot_digit(s, k) {
                let m = digits_end(s, k + 1);
                Some((seq![v0, v1, decimal_value(s.subrange(k + 1, m))], m))
            } else {
                Some((seq![v0, v1], k))
            }
        } else {
            Some((seq![v0], j))
        }
    } else {
        None
    }
}

/// Every number is at most `u32::MAX`.
pub open spec fn numbers_fit(vals: Seq<nat>) -> bool {
    forall|k: int| 0 <= k < vals.len() ==> #[trigger] vals[k] <= u32::MAX
}

/// The `k`-th number, or 0 when fewer were given.
pub open spec fn number_or_zero(vals: Seq<nat>, k: int) -> nat {
    if k < vals.len() {
        vals[k]
    } else {
        0
    }
}

/// The version the numbers denote (missing minor and patch numbers are 0).
pub open spec fn version_of(vals: Seq<nat>, rt: ReleaseType) -> SemanticVersion {
    SemanticVersion::new(
        number_or_zero(vals, 0) as u32,
        number_or_zero(vals, 1) as u32,
        number_or_zero(vals, 2) as u32,
        rt,
    )
}

/// A pre-release suffix: `-` followed by `rc`, `releaseCandidate`, `alpha` or `beta`.
pub open spec fn prerelease(s: Seq<char>, i: int) -> Option<(ReleaseType, int)> {
    if !char_at(s, i, '-') {
        None
    } else if has_tag(s, i + 1, tag_rc()) {
        Some((ReleaseType::ReleaseCandidate, i + 3))
    } else if has_tag(s, i + 1, tag_release_candidate()) {
        Some((ReleaseType::ReleaseCandidate, i + 17))
    } else if has_tag(s, i + 1, tag_alpha()) {
        Some((ReleaseType::Alpha, i + 6))
    } else if has_tag(s, i + 1, tag_beta()) {
        Some((ReleaseType::Beta, i + 5))
    } else {
        None
    }
}

/// A semantic version: one to three numbers and an optional pre-release suffix,
/// e.g. `1`, `1.2`, `1.2.3`, `1.2.3-beta`.
pub open spec fn semver(s: Seq<char>, i: int) -> Result<(SemanticVersion, int), Halt> {
    match numbers(s, i) {
        None => fail_at(i, ErrorKind::Digit),
        Some((vals, e)) => if !numbers_fit(vals) {
            Err(Halt::Overflow)
        } else {
            match prerelease(s, e) {
                Some((rt, e2)) => Ok((version_of(vals, rt), e2)),
                None => Ok((version_of(vals, ReleaseType::Release), e)),
            }
        },
    }
}

/// The upper bound of a `^` range of versions: the last given number is bumped
/// (`^1` is `[1.0.0, 2.0.0)`, `^2.5` is `[2.5.0, 2.6.0)`, `^3.4.2` is `[3.4.2, 3.4.3)`).
pub open spec fn carrot_upper(vals: Seq<nat>) -> Seq<nat> {
    if vals.len() == 1 {
        seq![vals[0] + 1, 0, 0]
    } else if vals.len() == 2 {
        seq![vals[0], vals[1] + 1, 0]
    } else {
        seq![vals[0], vals[1], vals[2] + 1]
    }
}

/// `^` followed by one to three numbers.
pub open spec fn carrot(s: Seq<char>, i: int) -> Result<(Range<SemanticVersion>, int), Halt> {
    if !char_at(s, i, '^') {
        fail_at(i, ErrorKind::Tag)
    } else {
        match numbers(s, i + 1) {
            None => fail_at(i + 1, ErrorKind::Digit),
            Some((vals, e)) => if !numbers_fit(vals) || !numbers_fit(carrot_upper(vals)) {
                Err(Halt::Overflow)
            } else {
                Ok(
                    (
                        Range::between(
                            version_of(vals, ReleaseType::Release),
                            version_of(carrot_upper(vals), ReleaseType::Release),
                        ),
                        e,
                    ),
                )
            },
        }
    }
}

/// Two versions separated by `+<` with optional spaces around it.
pub open spec fn semver_between(s: Seq<char>, i: int) -> Result<(Range<SemanticVersion>, int), Halt> {
    match semver(s, i) {
        Err(h) => Err(h),
        Ok((low, e1)) => {
            let j = spaces_end(s, e1);
            if !has_tag(s, j, tag_up_to()) {
                fail_at(j, ErrorKind::Tag)
            } else {
                match semver(s, spaces_end(s, j + 2)) {
                    Err(h) => Err(h),
                    Ok((high, e2)) => Ok((Range::between(low, high), e2)),
                }
            }
        },
    }
}

/// A single version, read as the range of exactly that version.
pub open spec fn semver_exact(s: Seq<char>, i: int) -> Result<(Range<SemanticVersion>, int), Halt> {
    match semver(s, i) {
        Err(h) => Err(h),
        Ok((v, e)) => if !v.can_bump() {
            Err(Halt::Overflow)
        } else {
            Ok((Range::exact(v), e))
        },
    }
}

/// A range of versions: a `^` range, a range between two versions, or one version.
pub open spec fn semver_range(s: Seq<char>, i: int) -> Result<(Range<SemanticVersion>, int), Halt> {
    or_else(carrot(s, i), or_else(semver_between(s, i), semver_exact(s, i)))
}

/// A package name and a value separated by `-`; the value is read by `value`.
pub open spec fn named<T>(s: Seq<char>, i: int, value: spec_fn(int) -> Result<(T, int), Halt>) -> Result<((int, T), int), Halt> {
    match word_end(s, i) {
        None => fail_at(i, ErrorKind::Alpha),
        Some(w) => if !char_at(s, w, '-') {
            fail_at(w, ErrorKind::Tag)
        } else {
            match value(w + 1) {
                Err(h) => Err(h),
                Ok((v, e)) => Ok(((w, v), e)),
            }
        },
    }
}

/// A package name and a version: `maya-1.2.3`.
pub open spec fn package_version(s: Seq<char>, i: int) -> Result<((int, SemanticVersion), int), Halt> {
    named(s, i, |j: int| semver(s, j))
}

/// A package name and a range (`maya-1.2.3+<4`, `maya-^3.2`), or a bare package
/// name, which stands for any version.
pub open spec fn package_range(s: Seq<char>, i: int) -> Result<((int, Range<SemanticVersion>), int), Halt> {
    or_else(
        named(s, i, |j: int| semver_range(s, j)),
        match word_end(s, i) {
            None => fail_at(i, ErrorKind::Alpha),
            Some(w) => Ok(((w, Range::<SemanticVersion>::any()), w)),
        },
    )
}

/// `@` followed by a variant index (at most 255).
pub open spec fn variant_index(s: Seq<char>, i: int) -> Result<(u8, int), Halt> {
    if !char_at(s, i, '@') {
        fail_at(i, ErrorKind::Tag)
    } else if !(i + 1 < s.len() && is_digit(s[i + 1])) {
        fail_at(i + 1, ErrorKind::Digit)
    } else {
        let e = digits_end(s, i + 1);
        let v = decimal_value(s.subrange(i + 1, e));
        if v > u8::MAX {
            Err(Halt::Overflow)
        } else {
            Ok((v as u8, e))
        }
    }
}

/// A version with a variant index: `1.2.3@0`.
pub open spec fn variant_semver(s: Seq<char>, i: int) -> Result<(Variant<SemanticVersion>, int), Halt> {
    match semver(s, i) {
        Err(h) => Err(h),
        Ok((v, e)) => match variant_index(s, e) {
            Err(h) => Err(h),
            Ok((idx, e2)) => Ok((Variant::new(v, idx), e2)),
        },
    }
}

/// A version with a variant index, read as the range of that variant.
pub open spec fn variant_semver_exact_range(s: Seq<char>, i: int) -> Result<(Range<Variant<SemanticVersion>>, int), Halt> {
    match variant_semver(s, i) {
        Err(h) => Err(h),
        Ok((v, e)) => if !v.can_bump() {
            Err(Halt::Overflow)
        } else {
            Ok((Range::exact(v), e))
        },
    }
}

/// A version without a variant index, read as the range of all its variants
/// `[v@0, v@MAX_VARIANTS)`.
pub open spec fn semver_with_implicit_variant_range(s: Seq<char>, i: int) -> Result<(Range<Variant<SemanticVersion>>, int), Halt> {
    match semver(s, i) {
        Err(h) => Err(h),
        Ok((v, e)) => Ok((Range::between(Variant::new(v, 0), Variant::new(v, MAX_VARIANTS)), e)),
    }
}

/// A version read as a variant: with its explicit index, or else with `default_index`.
pub open spec fn variant_or_default(s: Seq<char>, i: int, default_index: u8) -> Result<(Variant<SemanticVersion>, int), Halt> {
    or_else(
        variant_semver(s, i),
        match semver(s, i) {
            Err(h) => Err(h),
            Ok((v, e)) => Ok((Variant::new(v, default_index), e)),
        },
    )
}

/// Two versions separated by `+<` or `..`, with optional blanks around it; a lower
/// bound without index is index 0, an upper bound without index is MAX_VARIANTS.
pub open spec fn semver_variants_between(s: Seq<char>, i: int) -> Result<(Range<Variant<SemanticVersion>>, int), Halt> {
    match variant_or_default(s, i, 0) {
        Err(h) => Err(h),
        Ok((low, e1)) => {
            let j = blank_end(s, e1);
            if !has_tag(s, j, tag_up_to()) && !has_tag(s, j, tag_dots()) {
                fail_at(j, ErrorKind::Tag)
            } else {
                match variant_or_default(s, blank_end(s, j + 2), MAX_VARIANTS) {
                    Err(h) => Err(h),
                    Ok((high, e2)) => Ok((Range::between(low, high), e2)),
                }
            }
        },
    }
}

/// The upper bound of a `^` range of variants, by the number of numbers given
/// after the first (as cargo reads `^`): `^1.2.3` up to `2.0.0`, `^0.2.3` up to
/// `0.3.0`, `^0.0.3` up to `0.0.4`, `^0.2` up to `0.3.0`, `^1` up to `2.0.0`.
/// The release type is kept.
pub open spec fn caret_upper(vals: Seq<nat>) -> Seq<nat> {
    let major = vals[0];
    let minor = number_or_zero(vals, 1);
    let patch = number_or_zero(vals, 2);
    if vals.len() == 1 || major >= 1 {
        seq![major + 1, 0, 0]
    } else if vals.len() == 2 || minor != 0 {
        seq![major, minor + 1, 0]
    } else {
        seq![major, minor, patch + 1]
    }
}

/// `^` and a version with an explicit variant index (`^1.2.3@1`): from that
/// variant up to the cargo upper bound with the same index.
pub open spec fn caret_explicit_variant_range(s: Seq<char>, i: int) -> Result<(Range<Variant<SemanticVersion>>, int), Halt> {
    if !char_at(s, i, '^') {
        fail_at(i, ErrorKind::Tag)
    } else {
        match numbers(s, i + 1) {
            None => fail_at(i + 1, ErrorKind::Digit),
            Some((vals, e)) => {
                // with a pre-release suffix and an index, or else with an index only
                let with_pre = match prerelease(s, e) {
                    Some((rt, e2)) => match variant_index(s, e2) {
                        Err(Halt::Fail(_, _)) => None,
                        r => Some((rt, r)),
                    },
                    None => None,
                };
                // when both fail, the failure is that of the version with an index only
                let picked = match with_pre {
                    Some(x) => Ok(x),
                    None => match variant_index(s, e) {
                        Err(Halt::Fail(p, k)) => Err(Halt::Fail(p, k)),
                        r => Ok((ReleaseType::Release, r)),
                    },
                };
                match picked {
                    Err(h) => Err(h),
                    Ok((rt, r)) => if !numbers_fit(vals) {
                        Err(Halt::Overflow)
                    } else {
                        match r {
                            Err(h) => Err(h),
                            Ok((idx, end)) => {
                                let up = caret_upper(vals);
                                if !numbers_fit(up) {
                                    Err(Halt::Overflow)
                                } else {
                                    Ok(
                                        (
                                            Range::between(
                                                Variant::new(version_of(vals, rt), idx),
                                                Variant::new(version_of(up, rt), idx),
                                            ),
                                            end,
                                        ),
                                    )
                                }
                            },
                        }
                    },
                }
            },
        }
    }
}

/// `^` and a version without variant index (`^1.2.3`, `^1.2-beta`): from variant 0
/// of the version up to variant MAX_VARIANTS of the cargo upper bound.
pub open spec fn caret_implicit_variant_range(s: Seq<char>, i: int) -> Result<(Range<Variant<SemanticVersion>>, int), Halt> {
    if !char_at(s, i, '^') {
        fail_at(i, ErrorKind::Tag)
    } else {
        match numbers(s, i + 1) {
            None => fail_at(i + 1, ErrorKind::Digit),
            Some((vals, e)) => if !numbers_fit(vals) || !numbers_fit(caret_upper(vals)) {
                Err(Halt::Overflow)
            } else {
                let (rt, end) = match prerelease(s, e) {
                    Some((rt, e2)) => (rt, e2),
                    None => (ReleaseType::Release, e),
                };
                Ok(
                    (
                        Range::between(
                            Variant::new(version_of(vals, rt), 0),
                            Variant::new(version_of(caret_upper(vals), rt), MAX_VARIANTS),
                        ),
                        end,
                    ),
                )
            },
        }
    }
}

/// A `^` range of variants, with or without an explicit index.
pub open spec fn caret_variant_semver_range(s: Seq<char>, i: int) -> Result<(Range<Variant<SemanticVersion>>, int), Halt> {
    or_else(caret_explicit_variant_range(s, i), caret_implicit_variant_range(s, i))
}

/// A package name and a variant: `maya-1.2.3@0`.
pub open spec fn package_variant(s: Seq<char>, i: int) -> Result<((int, Variant<SemanticVersion>), int), Halt> {
    named(s, i, |j: int| variant_semver(s, j))
}

/// A package name and either one variant or all variants of one version:
/// `maya-1.2.3@0`, `maya-1.2.3`.
pub open spec fn package_variants(s: Seq<char>, i: int) -> Result<((int, Range<Variant<SemanticVersion>>), int), Halt> {
    named(
        s,
        i,
        |j: int| or_else(variant_semver_exact_range(s, j), semver_with_implicit_variant_range(s, j)),
    )
}

/// A package name and a range of variants: `maya-1.2.3+<2.3.2`, `houdini-^0.2`,
/// `nuke-0.1@2+<1.1.1@2`.
pub open spec fn package_variants_range(s: Seq<char>, i: int) -> Result<((int, Range<Variant<SemanticVersion>>), int), Halt> {
    named(
        s,
        i,
        |j: int| or_else(semver_variants_between(s, j), caret_variant_semver_range(s, j)),
    )
}

/// Reading the whole input: white space is skipped before and after the value,
/// and nothing else may remain (else the failure is at what remains, where the
/// end was expected).
pub open spec fn consuming<T>(s: Seq<char>, r: Result<(T, int), Halt>) -> Result<T, Halt> {
    match r {
        Err(h) => Err(h),
        Ok((v, e)) => if multispace_end(s, e) == s.len() {
            Ok(v)
        } else {
            fail_at(multispace_end(s, e), ErrorKind::Eof)
        },
    }
}

/// Where a consuming parser starts reading: after the leading white space.
pub open spec fn start(s: Seq<char>) -> int {
    multispace_end(s, 0)
}

} // verus!
