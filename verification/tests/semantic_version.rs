use pes::error::PesError;
use pes::release_type::ReleaseType;
use pes::semantic_version::SemanticVersion;
use pes::variant::Variant;

#[test]
#[allow(non_snake_case)]
fn bump__given_release__should_bump_patch() {
    let semver = SemanticVersion::new(1, 2, 3, ReleaseType::Release);
    let semver = semver.bump();
    let expect = SemanticVersion::new(1, 2, 4, ReleaseType::Release);
    assert_eq!(semver, expect);
}

#[test]
#[allow(non_snake_case)]
fn bump__given_ReleaseCandidate__should_bump_release_type_to_Release() {
    let semver = SemanticVersion::new(1, 2, 3, ReleaseType::ReleaseCandidate);
    let semver = semver.bump();
    let expect = SemanticVersion::new(1, 2, 3, ReleaseType::Release);
    assert_eq!(semver, expect);
}

#[test]
#[allow(non_snake_case)]
fn bump__given_Beta__should_bump_release_type_to_ReleaseCandidate() {
    let semver = SemanticVersion::new(1, 2, 3, ReleaseType::Beta);
    let semver = semver.bump();
    let expect = SemanticVersion::new(1, 2, 3, ReleaseType::ReleaseCandidate);
    assert_eq!(semver, expect);
}

#[test]
#[allow(non_snake_case)]
fn bump__given_Alpha__should_bump_release_type_to_Beta() {
    let semver = SemanticVersion::new(1, 2, 3, ReleaseType::Alpha);
    let semver = semver.bump();
    let expect = SemanticVersion::new(1, 2, 3, ReleaseType::Beta);
    assert_eq!(semver, expect);
}

#[test]
fn bumps_of_parts() {
    let v = SemanticVersion::new(1, 2, 3, ReleaseType::Beta);
    assert_eq!(v.bump_patch(), SemanticVersion::new(1, 2, 4, ReleaseType::Beta));
    assert_eq!(v.bump_minor(), SemanticVersion::new(1, 3, 0, ReleaseType::Beta));
    assert_eq!(v.bump_major(), SemanticVersion::new(2, 0, 0, ReleaseType::Beta));
    assert_eq!(v.release(), SemanticVersion::new(1, 2, 3, ReleaseType::Release));
    assert_eq!(SemanticVersion::zero(), SemanticVersion::new(0, 0, 0, ReleaseType::Release));
    assert_eq!(SemanticVersion::one(), SemanticVersion::new(1, 0, 0, ReleaseType::Release));
    assert_eq!(SemanticVersion::two(), SemanticVersion::new(2, 0, 0, ReleaseType::Release));
}

#[test]
fn to_string_and_from_str_round_trip() {
    let versions = [
        SemanticVersion::new(0, 0, 0, ReleaseType::Release),
        SemanticVersion::new(1, 23, 456, ReleaseType::Release),
        SemanticVersion::new(4294967295, 7, 10, ReleaseType::Alpha),
        SemanticVersion::new(3, 2, 1, ReleaseType::ReleaseCandidate),
    ];
    for v in versions.iter() {
        let text = v.to_string();
        assert_eq!(SemanticVersion::from_str(text.as_str()), Ok(*v));
    }
    assert_eq!(SemanticVersion::new(1, 2, 3, ReleaseType::Beta).to_string(), "1.2.3-beta");
}

#[test]
fn from_str_errors() {
    assert_eq!(
        SemanticVersion::from_str("1.2"),
        Err(PesError::InvalidSemanticVersion("1.2".to_string()))
    );
    assert_eq!(
        SemanticVersion::from_str("1.x.3"),
        Err(PesError::ParseIntError {
            full_version: "1.x.3".to_string(),
            version_part: "x".to_string(),
            parse_error: "invalid digit found in string".to_string(),
        })
    );
    assert_eq!(
        SemanticVersion::from_str("1.2.3-gamma"),
        Err(PesError::UnknownReleaseType("gamma".to_string()))
    );
    assert_eq!(
        SemanticVersion::from_str("1.2.99999999999"),
        Err(PesError::ParseIntError {
            full_version: "1.2.99999999999".to_string(),
            version_part: "99999999999".to_string(),
            parse_error: "number too large to fit in target type".to_string(),
        })
    );
}

#[test]
fn ordering_follows_parts_then_release_type() {
    let a = SemanticVersion::new(1, 2, 3, ReleaseType::Beta);
    let b = SemanticVersion::new(1, 2, 3, ReleaseType::Release);
    let c = SemanticVersion::new(1, 2, 4, ReleaseType::Alpha);
    assert!(a.is_before(&b));
    assert!(b.is_before(&c));
    assert!(!c.is_before(&a));
    assert!(a < b && b < c);
}

#[test]
fn variant_accessors_and_bumps() {
    let v = Variant::new(SemanticVersion::new(1, 2, 3, ReleaseType::Release), 4);
    assert_eq!((v.major(), v.minor(), v.patch(), v.index()), (1, 2, 3, 4));
    assert_eq!(v.release_type(), ReleaseType::Release);
    assert_eq!(v.bump_index().index(), 5);
    assert_eq!(v.bump().patch(), 4);
    assert_eq!(v.to_string(), "1.2.3@4");
    assert!(v.is_before(&v.bump()));
    assert_eq!(Variant::default(), Variant::new(SemanticVersion::zero(), 0));
}
