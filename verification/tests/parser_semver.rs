use pes::error::{ErrorKind, PesError, PesNomError};
use pes::parser::{
    parse_consuming_package_range, parse_consuming_package_version, parse_consuming_semver,
    parse_consuming_semver_range, parse_package_range, parse_package_version, parse_semver,
    parse_semver_between, parse_semver_carrot, parse_semver_exact, parse_semver_range,
    parse_variant_semver,
};
use pes::range::Range;
use pes::release_type::ReleaseType;
use pes::semantic_version::SemanticVersion;
use pes::variant::Variant;

fn rel(a: u32, b: u32, c: u32) -> SemanticVersion {
    SemanticVersion::new(a, b, c, ReleaseType::Release)
}

#[test]
fn parse_semver_goodinput() {
    let result = parse_semver("1.2.3");
    assert_eq!(result, Ok(("", rel(1, 2, 3))));
}

#[test]
#[allow(non_snake_case)]
fn parse_semver__with_prerelease__goodinput() {
    let result = parse_semver("1.2.3-rc");
    assert_eq!(result, Ok(("", SemanticVersion::new(1, 2, 3, ReleaseType::ReleaseCandidate))));
}

#[test]
fn parse_semver_between_given_goodinput() {
    let result = parse_semver_between("1.2.3+<3.4.5");
    assert_eq!(result, Ok(("", Range::between(rel(1, 2, 3), rel(3, 4, 5)))));
}

#[test]
fn parse_range_with_spaces() {
    let result = parse_semver_between("1.2.3 +< 3.4.5");
    assert_eq!(result, Ok(("", Range::between(rel(1, 2, 3), rel(3, 4, 5)))));
}

#[test]
fn parse_str_starting_with_carot_major() {
    let result = parse_semver_carrot("^1");
    assert_eq!(result, Ok(("", Range::between(rel(1, 0, 0), rel(2, 0, 0)))));
}

#[test]
fn parse_str_starting_with_carot_minor() {
    let result = parse_semver_carrot("^2.5");
    assert_eq!(result, Ok(("", Range::between(rel(2, 5, 0), rel(2, 6, 0)))));
}

#[test]
fn parse_str_starting_with_carot_path() {
    let result = parse_semver_carrot("^3.4.2");
    assert_eq!(result, Ok(("", Range::between(rel(3, 4, 2), rel(3, 4, 3)))));
}

#[test]
fn parse_str_exact() {
    let result = parse_semver_exact("1.2.3");
    assert_eq!(result, Ok(("", Range::exact(rel(1, 2, 3)))));
}

#[test]
fn parse_semver_from_table() {
    let versions = vec![
        ("1.23.4", Ok(("", Range::exact(rel(1, 23, 4))))),
        ("1.2.3+<3", Ok(("", Range::between(rel(1, 2, 3), rel(3, 0, 0))))),
        ("^2.2", Ok(("", Range::between(rel(2, 2, 0), rel(2, 3, 0))))),
    ];
    for (input, expected) in versions {
        assert_eq!(parse_semver_range(input), expected);
    }
}

#[test]
fn parse_package_name_and_version() {
    let result = parse_package_version("maya-1.2.3");
    assert_eq!(result, Ok(("", ("maya", rel(1, 2, 3)))));
}

#[test]
fn parse_package_name_and_range() {
    let versions = vec![
        ("maya-1.23.4", Ok(("", ("maya", Range::exact(rel(1, 23, 4)))))),
        ("houdini-1.2.3+<3", Ok(("", ("houdini", Range::between(rel(1, 2, 3), rel(3, 0, 0)))))),
        ("houdini-1.2.3 +< 3.0.0", Ok(("", ("houdini", Range::between(rel(1, 2, 3), rel(3, 0, 0)))))),
        ("nuke-^2.2", Ok(("", ("nuke", Range::between(rel(2, 2, 0), rel(2, 3, 0)))))),
    ];
    for (input, expected) in versions {
        let result = parse_package_range(input);
        assert_eq!(result, expected);
    }
}

#[test]
#[allow(non_snake_case)]
fn parse_variant_semver__when_given_release__succeeds() {
    let result = parse_variant_semver("1.2.3@1");
    assert_eq!(result, Ok(("", Variant::new(rel(1, 2, 3), 1))));
}

#[test]
#[allow(non_snake_case)]
fn parse_variant_semver__when_given_prerelease__succeeds() {
    let result = parse_variant_semver("1.2.3-beta@1");
    assert_eq!(result, Ok(("", Variant::new(SemanticVersion::new(1, 2, 3, ReleaseType::Beta), 1))));
}

#[test]
fn non_consuming_parsers_return_the_rest() {
    assert_eq!(parse_semver("1.2 rest"), Ok((" rest", rel(1, 2, 0))));
    assert_eq!(parse_semver_range("1+<2 x"), Ok((" x", Range::between(rel(1, 0, 0), rel(2, 0, 0)))));
    assert_eq!(parse_package_range("maya foo"), Ok((" foo", ("maya", Range::any()))));
}

#[test]
fn failing_parsers_report_where_they_failed() {
    assert_eq!(parse_semver("x1"), Err(PesNomError::Nom("x1".to_string(), ErrorKind::Digit)));
    assert_eq!(parse_semver_carrot("^x"), Err(PesNomError::Nom("x".to_string(), ErrorKind::Digit)));
    assert_eq!(parse_semver_range("x"), Err(PesNomError::Nom("x".to_string(), ErrorKind::Digit)));
    assert_eq!(parse_package_version("9maya"), Err(PesNomError::Nom("9maya".to_string(), ErrorKind::Alpha)));
    assert_eq!(parse_package_version("maya_1.2"), Err(PesNomError::Nom(".2".to_string(), ErrorKind::Tag)));
    assert_eq!(
        parse_consuming_package_version("maya-1.2.3 x"),
        Err(PesError::ParsingFailure("parse_consuming_package_version Error(Nom(\"x\", Eof))".to_string()))
    );
    assert_eq!(
        parse_consuming_package_range("-maya"),
        Err(PesError::ParsingFailure("Error(Nom(\"-maya\", Alpha))".to_string()))
    );
}

#[test]
fn parse_semver_between_given_badinput() {
    let result = parse_semver_between("1.2.3<3.4.5");
    assert_eq!(result, Err(PesNomError::Nom("<3.4.5".to_string(), ErrorKind::Tag)));
}

#[test]
fn between_with_bounds_out_of_order_is_empty() {
    assert_eq!(parse_semver_range("3+<1"), Ok(("", Range::none())));
}

#[test]
fn consuming_parsers_skip_surrounding_white_space() {
    assert_eq!(parse_consuming_semver_range("  ^1.2 \t"), Ok(Range::between(rel(1, 2, 0), rel(1, 3, 0))));
    assert_eq!(parse_consuming_semver(" 2.0.1-alpha\n"), Ok(SemanticVersion::new(2, 0, 1, ReleaseType::Alpha)));
    assert_eq!(parse_consuming_package_version(" maya-1.2.3 "), Ok(("maya", rel(1, 2, 3))));
    assert_eq!(parse_consuming_package_range("maya"), Ok(("maya", Range::any())));
}

#[test]
fn consuming_parsers_fail_on_trailing_input() {
    assert_eq!(
        parse_consuming_semver_range("1.2.3 x"),
        Err(PesError::ParsingFailure("parse_consuming_semver_range 1.2.3 x".to_string()))
    );
    assert_eq!(
        parse_consuming_semver("1.2.3."),
        Err(PesError::ParsingFailure("parse_consuming_semver 1.2.3.".to_string()))
    );
    assert!(parse_consuming_package_version("maya").is_err());
}

#[test]
fn range_holds_its_versions() {
    let r = parse_consuming_semver_range("1.2.3+<2").unwrap();
    assert!(r.holds(&rel(1, 2, 3)));
    assert!(r.holds(&rel(1, 9, 0)));
    assert!(!r.holds(&rel(2, 0, 0)));
    let exact = Range::exact(rel(1, 2, 3));
    assert!(exact.holds(&rel(1, 2, 3)));
    assert!(!exact.holds(&rel(1, 2, 4)));
    assert!(Range::<SemanticVersion>::any().holds(&rel(0, 0, 0)));
    assert!(!Range::<SemanticVersion>::none().holds(&rel(0, 0, 0)));
}
