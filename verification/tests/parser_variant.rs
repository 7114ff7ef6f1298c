use pes::constants::MAX_VARIANTS;
use pes::parser::{
    parse_caret_variant_semver_range, parse_consuming_package_variant,
    parse_consuming_package_variants, parse_consuming_semver_with_implicit_variant_range,
    parse_consuming_variant_semver, parse_consuming_variant_semver_exact_range,
    parse_package_variant, parse_package_variants, parse_package_variants_range,
    parse_semver_variants_between,
};
use pes::range::Range;
use pes::release_type::ReleaseType;
use pes::semantic_version::SemanticVersion;
use pes::variant::Variant;

fn sv(a: u32, b: u32, c: u32, rt: ReleaseType) -> SemanticVersion {
    SemanticVersion::new(a, b, c, rt)
}

fn var(a: u32, b: u32, c: u32, rt: ReleaseType, i: u8) -> Variant<SemanticVersion> {
    Variant::new(sv(a, b, c, rt), i)
}

#[test]
#[allow(non_snake_case)]
fn parser_variant_given_an_explicit_variant__succeeds() {
    let result = parse_consuming_package_variants("maya-1.2.3-beta@1");
    assert_eq!(result.unwrap(), ("maya", Range::exact(var(1, 2, 3, ReleaseType::Beta, 1))));
}

#[test]
#[allow(non_snake_case)]
fn parser_variant_given_an_implicit_variant__succeeds() {
    let result = parse_consuming_package_variants("maya-1.2.3-beta");
    assert_eq!(
        result.unwrap(),
        ("maya", Range::between(var(1, 2, 3, ReleaseType::Beta, 0), var(1, 2, 3, ReleaseType::Beta, MAX_VARIANTS)))
    );
}

#[test]
#[allow(non_snake_case)]
fn given_a_short_input__succeeds() {
    let result = parse_consuming_package_variants("maya-1");
    assert_eq!(
        result.unwrap(),
        ("maya", Range::between(var(1, 0, 0, ReleaseType::Release, 0), var(1, 0, 0, ReleaseType::Release, MAX_VARIANTS)))
    );
}

#[test]
#[allow(non_snake_case)]
fn given_other_input__fails() {
    let failures = &["maya-^1.2.3", "foo-1.2.3+<4.3.3"];
    for failure in failures.iter() {
        let result = parse_consuming_package_variants(failure);
        assert!(result.is_err());
    }
}

#[test]
#[allow(non_snake_case)]
fn parse_package_variants_given_an_explicit_variant__succeeds() {
    let result = parse_package_variants("maya-1.2.3-beta@1");
    assert_eq!(result.unwrap(), ("", ("maya", Range::exact(var(1, 2, 3, ReleaseType::Beta, 1)))));
}

#[test]
#[allow(non_snake_case)]
fn parse_package_variants_given_an_implicit_variant__succeeds() {
    let result = parse_package_variants("maya-1.2.3-beta");
    assert_eq!(
        result.unwrap(),
        ("", ("maya", Range::between(var(1, 2, 3, ReleaseType::Beta, 0), var(1, 2, 3, ReleaseType::Beta, MAX_VARIANTS))))
    );
}

#[test]
#[allow(non_snake_case)]
fn given_caret_semver__succeeds() {
    let result = parse_package_variants("maya-1.2.3-beta");
    assert_eq!(
        result.unwrap(),
        ("", ("maya", Range::between(var(1, 2, 3, ReleaseType::Beta, 0), var(1, 2, 3, ReleaseType::Beta, MAX_VARIANTS))))
    );
}

#[test]
#[allow(non_snake_case)]
fn parse_package_variant_given_expected_input__succeeds() {
    let result = parse_package_variant("maya-1.2.3@1");
    assert_eq!(result.unwrap(), ("", ("maya", var(1, 2, 3, ReleaseType::Release, 1))));
}

#[test]
#[allow(non_snake_case)]
fn parser_variant_given_expected_input__succeeds() {
    let result = parse_consuming_package_variant("maya-1.2.3@1");
    assert_eq!(result.unwrap(), ("maya", var(1, 2, 3, ReleaseType::Release, 1)));
}

#[test]
#[allow(non_snake_case)]
fn parser_variant_given_release__succeeds() {
    let result = parse_consuming_variant_semver("1.2.3@1");
    assert_eq!(result.unwrap(), var(1, 2, 3, ReleaseType::Release, 1));
}

#[test]
#[allow(non_snake_case)]
fn parser_variant_given_prerelease__succeeds() {
    let result = parse_consuming_variant_semver("1.2.3-beta@1");
    assert_eq!(result.unwrap(), var(1, 2, 3, ReleaseType::Beta, 1));
}

#[test]
#[allow(non_snake_case)]
fn exact_range_given_release__succeeds() {
    let result = parse_consuming_variant_semver_exact_range("1.2.3@1");
    assert_eq!(result.unwrap(), Range::exact(var(1, 2, 3, ReleaseType::Release, 1)));
}

#[test]
#[allow(non_snake_case)]
fn exact_range_given_prerelease__succeeds() {
    let result = parse_consuming_variant_semver_exact_range("1.2.3-beta@1");
    assert_eq!(result.unwrap(), Range::exact(var(1, 2, 3, ReleaseType::Beta, 1)));
}

#[test]
#[allow(non_snake_case)]
fn implicit_range_given_release__succeeds() {
    let result = parse_consuming_semver_with_implicit_variant_range("1.2.3");
    assert_eq!(
        result.unwrap(),
        Range::between(var(1, 2, 3, ReleaseType::Release, 0), var(1, 2, 3, ReleaseType::Release, MAX_VARIANTS))
    );
}

#[test]
#[allow(non_snake_case)]
fn implicit_range_given_prerelease__succeeds() {
    let result = parse_consuming_semver_with_implicit_variant_range("1.2.3-beta");
    assert_eq!(
        result.unwrap(),
        Range::between(var(1, 2, 3, ReleaseType::Beta, 0), var(1, 2, 3, ReleaseType::Beta, MAX_VARIANTS))
    );
}

#[test]
#[allow(non_snake_case)]
fn given_explicit_variant_and_version_one_or_greater__succeeds() {
    let result = parse_caret_variant_semver_range("^1.2.3@1");
    assert_eq!(result.unwrap(), ("", Range::between(var(1, 2, 3, ReleaseType::Release, 1), var(2, 0, 0, ReleaseType::Release, 1))));
}

#[test]
#[allow(non_snake_case)]
fn given_explicit_variant_and_version_major_zero__succeeds() {
    let result = parse_caret_variant_semver_range("^0.2.3@1");
    assert_eq!(result.unwrap(), ("", Range::between(var(0, 2, 3, ReleaseType::Release, 1), var(0, 3, 0, ReleaseType::Release, 1))));
}

#[test]
#[allow(non_snake_case)]
fn given_explicit_variant_and_version_major_zero_minor_zero__succeeds() {
    let result = parse_caret_variant_semver_range("^0.0.3@1");
    assert_eq!(result.unwrap(), ("", Range::between(var(0, 0, 3, ReleaseType::Release, 1), var(0, 0, 4, ReleaseType::Release, 1))));
}

#[test]
#[allow(non_snake_case)]
fn given_implicit_variant__succeeds() {
    let result = parse_caret_variant_semver_range("^1.2.3");
    assert_eq!(result.unwrap(), ("", Range::between(var(1, 2, 3, ReleaseType::Release, 0), var(2, 0, 0, ReleaseType::Release, MAX_VARIANTS))));
}

#[test]
#[allow(non_snake_case)]
fn given_implicit_variant_prerelease__succeeds() {
    let result = parse_caret_variant_semver_range("^1.2.3-beta");
    assert_eq!(result.unwrap(), ("", Range::between(var(1, 2, 3, ReleaseType::Beta, 0), var(2, 0, 0, ReleaseType::Beta, MAX_VARIANTS))));
}

#[test]
#[allow(non_snake_case)]
fn parser_variant_given_two_implicit_variants_separated_by_pgt_succeeds() {
    let result = parse_semver_variants_between("1.2.3+<2.2.2");
    assert_eq!(result.unwrap(), ("", Range::between(var(1, 2, 3, ReleaseType::Release, 0), var(2, 2, 2, ReleaseType::Release, MAX_VARIANTS))));
}

#[test]
#[allow(non_snake_case)]
fn parser_variant_given_two_implicit_variants_separated_by_dotdot_succeeds() {
    let result = parse_semver_variants_between("1.2.3..2.2.2");
    assert_eq!(result.unwrap(), ("", Range::between(var(1, 2, 3, ReleaseType::Release, 0), var(2, 2, 2, ReleaseType::Release, MAX_VARIANTS))));
}

#[test]
#[allow(non_snake_case)]
fn given_two_implicit_variants_with_prereleases_separated_by_pgt_succeeds() {
    let result = parse_semver_variants_between("1.2.3-beta+<2.2.2-beta");
    assert_eq!(result.unwrap(), ("", Range::between(var(1, 2, 3, ReleaseType::Beta, 0), var(2, 2, 2, ReleaseType::Beta, MAX_VARIANTS))));
}

#[test]
#[allow(non_snake_case)]
fn parser_variant_given_one_explicit_and_one_implicit_variant_separated_by_pgt_succeeds() {
    let result = parse_semver_variants_between("1.2.3@2+<2.2.2");
    assert_eq!(result.unwrap(), ("", Range::between(var(1, 2, 3, ReleaseType::Release, 2), var(2, 2, 2, ReleaseType::Release, MAX_VARIANTS))));
}

#[test]
#[allow(non_snake_case)]
fn parser_variant_given_one_explicit_and_one_implicit_variant_separated_by_dotdot_succeeds() {
    let result = parse_semver_variants_between("1.2.3@2..2.2.2");
    assert_eq!(result.unwrap(), ("", Range::between(var(1, 2, 3, ReleaseType::Release, 2), var(2, 2, 2, ReleaseType::Release, MAX_VARIANTS))));
}

#[test]
#[allow(non_snake_case)]
fn parser_variant_given_one_implicit_and_one_explicit_variant_separated_by_pgt_succeeds() {
    let result = parse_semver_variants_between("1.2.3+<2.2.2@4");
    assert_eq!(result.unwrap(), ("", Range::between(var(1, 2, 3, ReleaseType::Release, 0), var(2, 2, 2, ReleaseType::Release, 4))));
}

#[test]
#[allow(non_snake_case)]
fn parser_variant_given_one_implicit_and_one_explicit_variant_separated_by_dotdot_succeeds() {
    let result = parse_semver_variants_between("1.2.3..2.2.2@4");
    assert_eq!(result.unwrap(), ("", Range::between(var(1, 2, 3, ReleaseType::Release, 0), var(2, 2, 2, ReleaseType::Release, 4))));
}

#[test]
#[allow(non_snake_case)]
fn parser_variant_given_two_explicit_variants_separated_by_pgt_succeeds() {
    let result = parse_semver_variants_between("1.2.3@2+<2.2.2@4");
    assert_eq!(result.unwrap(), ("", Range::between(var(1, 2, 3, ReleaseType::Release, 2), var(2, 2, 2, ReleaseType::Release, 4))));
}

#[test]
#[allow(non_snake_case)]
fn given_two_explicit_variants_separated_by_dotdot_succeeds() {
    let result = parse_semver_variants_between("1.2.3@2..2.2.2@4");
    assert_eq!(result.unwrap(), ("", Range::between(var(1, 2, 3, ReleaseType::Release, 2), var(2, 2, 2, ReleaseType::Release, 4))));
}

#[test]
#[allow(non_snake_case)]
fn package_variants_range_given_two_implicit_variants_separated_by_pgt_succeeds() {
    let result = parse_package_variants_range("maya-1.2.3+<2.2.2");
    assert_eq!(result.unwrap(), ("", ("maya", Range::between(var(1, 2, 3, ReleaseType::Release, 0), var(2, 2, 2, ReleaseType::Release, MAX_VARIANTS)))));
}

#[test]
#[allow(non_snake_case)]
fn package_variants_range_given_two_implicit_variants_separated_by_dotdot_succeeds() {
    let result = parse_package_variants_range("maya-1.2.3..2.2.2");
    assert_eq!(result.unwrap(), ("", ("maya", Range::between(var(1, 2, 3, ReleaseType::Release, 0), var(2, 2, 2, ReleaseType::Release, MAX_VARIANTS)))));
}

#[test]
#[allow(non_snake_case)]
fn package_variants_range_given_one_explicit_and_one_implicit_variant_separated_by_pgt_succeeds() {
    let result = parse_package_variants_range("maya-1.2.3@2+<2.2.2");
    assert_eq!(result.unwrap(), ("", ("maya", Range::between(var(1, 2, 3, ReleaseType::Release, 2), var(2, 2, 2, ReleaseType::Release, MAX_VARIANTS)))));
}

#[test]
#[allow(non_snake_case)]
fn package_variants_range_given_one_explicit_and_one_implicit_variant_separated_by_dotdot_succeeds() {
    let result = parse_package_variants_range("maya-1.2.3@2..2.2.2");
    assert_eq!(result.unwrap(), ("", ("maya", Range::between(var(1, 2, 3, ReleaseType::Release, 2), var(2, 2, 2, ReleaseType::Release, MAX_VARIANTS)))));
}

#[test]
#[allow(non_snake_case)]
fn package_variants_range_given_one_implicit_and_one_explicit_variant_separated_by_pgt_succeeds() {
    let result = parse_package_variants_range("maya-1.2.3+<2.2.2@4");
    assert_eq!(result.unwrap(), ("", ("maya", Range::between(var(1, 2, 3, ReleaseType::Release, 0), var(2, 2, 2, ReleaseType::Release, 4)))));
}

#[test]
#[allow(non_snake_case)]
fn package_variants_range_given_one_implicit_and_one_explicit_variant_separated_by_dotdot_succeeds() {
    let result = parse_package_variants_range("maya-1.2.3..2.2.2@4");
    assert_eq!(result.unwrap(), ("", ("maya", Range::between(var(1, 2, 3, ReleaseType::Release, 0), var(2, 2, 2, ReleaseType::Release, 4)))));
}

#[test]
#[allow(non_snake_case)]
fn package_variants_range_given_two_explicit_variants_separated_by_pgt_succeeds() {
    let result = parse_package_variants_range("maya-1.2.3@2+<2.2.2@4");
    assert_eq!(result.unwrap(), ("", ("maya", Range::between(var(1, 2, 3, ReleaseType::Release, 2), var(2, 2, 2, ReleaseType::Release, 4)))));
}

#[test]
#[allow(non_snake_case)]
fn given_two_explicit_variants_separated_by_dotdot__succeeds() {
    let result = parse_package_variants_range("maya-1.2.3@2..2.2.2@4");
    assert_eq!(result.unwrap(), ("", ("maya", Range::between(var(1, 2, 3, ReleaseType::Release, 2), var(2, 2, 2, ReleaseType::Release, 4)))));
}

#[test]
#[allow(non_snake_case)]
fn given_explicit_variant_starting_with_caret__succeeds() {
    let result = parse_package_variants_range("maya-^1.2.3@1");
    assert_eq!(result.unwrap(), ("", ("maya", Range::between(var(1, 2, 3, ReleaseType::Release, 1), var(2, 0, 0, ReleaseType::Release, 1)))));
}

#[test]
#[allow(non_snake_case)]
fn given_implicit_variant_starting_with_caret__succeeds() {
    let result = parse_package_variants_range("maya-^1.2.3");
    assert_eq!(result.unwrap(), ("", ("maya", Range::between(var(1, 2, 3, ReleaseType::Release, 0), var(2, 0, 0, ReleaseType::Release, MAX_VARIANTS)))));
}

#[test]
#[allow(non_snake_case)]
fn given_explicit_variant_with_two_digit_semver_starting_with_caret__succeeds() {
    let result = parse_package_variants_range("maya-^1.2@1");
    assert_eq!(result.unwrap(), ("", ("maya", Range::between(var(1, 2, 0, ReleaseType::Release, 1), var(2, 0, 0, ReleaseType::Release, 1)))));
}

#[test]
#[allow(non_snake_case)]
fn given_implicit_variant_with_two_digit_semver_starting_with_caret__succeeds() {
    let result = parse_package_variants_range("maya-^1.2");
    assert_eq!(result.unwrap(), ("", ("maya", Range::between(var(1, 2, 0, ReleaseType::Release, 0), var(2, 0, 0, ReleaseType::Release, MAX_VARIANTS)))));
}

#[test]
#[allow(non_snake_case)]
fn given_explicit_variant_with_one_digit_semver_starting_with_caret__succeeds() {
    let result = parse_package_variants_range("maya-^1@1");
    assert_eq!(result.unwrap(), ("", ("maya", Range::between(var(1, 0, 0, ReleaseType::Release, 1), var(2, 0, 0, ReleaseType::Release, 1)))));
}

#[test]
#[allow(non_snake_case)]
fn given_implicit_variant_with_one_digit_semver_starting_with_caret__succeeds() {
    let result = parse_package_variants_range("maya-^1");
    assert_eq!(result.unwrap(), ("", ("maya", Range::between(var(1, 0, 0, ReleaseType::Release, 0), var(2, 0, 0, ReleaseType::Release, MAX_VARIANTS)))));
}

#[test]
#[allow(non_snake_case)]
fn given_implicit_variant_with_one_digit_semver_and_prerelease_starting_with_caret__succeeds() {
    let result = parse_package_variants_range("maya-^1-beta");
    assert_eq!(result.unwrap(), ("", ("maya", Range::between(var(1, 0, 0, ReleaseType::Beta, 0), var(2, 0, 0, ReleaseType::Beta, MAX_VARIANTS)))));
}
