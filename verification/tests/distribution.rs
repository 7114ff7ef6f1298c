use pes::distribution::Distribution;
use pes::distribution_range::{DistributionRange, VersionedPackageOwning};
use pes::error::PesError;
use pes::range::Range;
use pes::release_type::ReleaseType;
use pes::semantic_version::SemanticVersion;

fn rel(a: u32, b: u32, c: u32) -> SemanticVersion {
    SemanticVersion::new(a, b, c, ReleaseType::Release)
}

#[test]
#[allow(non_snake_case)]
fn from_strs__given_good_input__parses() {
    let result = Distribution::from_strs("maya", "1.2.3").expect("should parse");
    let expected = Distribution { name: "maya", version: rel(1, 2, 3) };
    assert_eq!(result, expected);
}

#[test]
#[allow(non_snake_case)]
fn from_str__given_good_input__parses() {
    let result = Distribution::from_str("maya-3.2.1").expect("should parse");
    let expected = Distribution { name: "maya", version: rel(3, 2, 1) };
    assert_eq!(result, expected);
}

#[test]
#[allow(non_snake_case)]
fn eq__given_two_equivalent_Distributions__works() {
    let d1 = Distribution::from_str("maya-1.2.3").expect("should parse");
    let d2 = Distribution::from_str("maya-1.2.3").expect("should parse");
    assert_eq!(d1, d2);
}

#[test]
#[allow(non_snake_case)]
fn eq__given_two_different_Distributions__works() {
    let d1 = Distribution::from_str("maya-1.2.3").expect("should parse");
    let d2 = Distribution::from_str("maya-2.2.3").expect("should parse");
    assert_ne!(d1, d2);
}

#[test]
#[allow(non_snake_case)]
fn eq__given_two_Distributions_with_same_package_and_different_versions__works() {
    let d1 = Distribution::from_str("maya-1.2.3").expect("should parse");
    let d2 = Distribution::from_str("fauxmaya-1.2.3").expect("should parse");
    assert_ne!(d1, d2);
}

#[test]
#[allow(non_snake_case)]
fn ord__given_two_orded_distributions_with_same_packge__works() {
    let d1 = Distribution::from_str("maya-1.2.3").expect("should parse");
    let d2 = Distribution::from_str("maya-1.2.4").expect("should parse");
    assert!(d1 < d2);
}

#[test]
#[allow(non_snake_case)]
fn ord__given_two_orded_distributions_with_different_package__works() {
    let d1 = Distribution::from_str("maya-1.2.3").expect("should parse");
    let d2 = Distribution::from_str("amaya-1.2.3").expect("should parse");
    assert!(d1 > d2);
}

#[test]
#[allow(non_snake_case)]
fn package_eq__given_two_distributions_with_same_name__returns_true() {
    let d1 = Distribution::from_str("maya-1.2.3").expect("should parse");
    let d2 = Distribution::from_str("maya-3.3.3").expect("should parse");
    assert!(d1.package_eq(&d2));
    assert!(d2.package_eq(&d1));
}

#[test]
#[allow(non_snake_case)]
fn package_eq__given_two_distributions_with_different_name__returns_true() {
    let d1 = Distribution::from_str("maya-1.2.3").expect("should parse");
    let d2 = Distribution::from_str("houdini-1.2.3").expect("should parse");
    assert!(!d1.package_eq(&d2));
    assert!(!d2.package_eq(&d1));
}

#[test]
#[allow(non_snake_case)]
fn display__implements_to_string() {
    let d1 = Distribution::from_str("maya-1.2.3").expect("should parse");
    let display_rep = d1.to_string();
    assert_eq!(display_rep.as_str(), "maya-1.2.3");
}

#[test]
fn from_str_reports_what_it_cannot_read() {
    assert_eq!(
        Distribution::from_str("maya"),
        Err(PesError::ParsingFailure("parse_consuming_package_version Error(Nom(\"\", Tag))".to_string()))
    );
    assert_eq!(
        Distribution::from_strs("maya", "one"),
        Err(PesError::ParsingFailure("parse_consuming_semver one".to_string()))
    );
}

#[test]
fn to_distribution_range_is_exact() {
    let d = Distribution::new("maya", rel(1, 2, 3));
    let r = d.to_distribution_range();
    assert_eq!(r, DistributionRange::new("maya", Range::exact(rel(1, 2, 3))));
    assert_eq!(r.range, Range::between(rel(1, 2, 3), rel(1, 2, 4)));
}

#[test]
fn distribution_ranges_from_strings() {
    let r = DistributionRange::from_str("maya-1.2.3+<4").unwrap();
    assert_eq!(r.name, "maya");
    assert_eq!(r.range, Range::between(rel(1, 2, 3), rel(4, 0, 0)));
    let r = DistributionRange::from_strs("nuke", "^2").unwrap();
    assert_eq!(r.range, Range::between(rel(2, 0, 0), rel(3, 0, 0)));
    assert!(DistributionRange::from_strs("nuke", "two").is_err());
    let p = VersionedPackageOwning::from_strs("houdini", "1.0.0").unwrap();
    assert_eq!(p.to_tuple(), ("houdini".to_string(), Range::exact(rel(1, 0, 0))));
    let p = VersionedPackageOwning::new("houdini".to_string(), Range::any());
    assert_eq!(p.name, "houdini");
}
