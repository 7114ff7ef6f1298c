use pes::error::PesError;
use pes::release_type::ReleaseType;

#[test]
#[allow(non_snake_case)]
fn from_str__given_blank__should_parse() {
    let result = ReleaseType::from_str("").expect("could not parse release");
    assert_eq!(result, ReleaseType::Release);
}

#[test]
#[allow(non_snake_case)]
fn from_str__given_rc__should_parse() {
    let result = ReleaseType::from_str("rc").expect("could not parse rc");
    assert_eq!(result, ReleaseType::ReleaseCandidate);
}

#[test]
#[allow(non_snake_case)]
fn from_str__given_alpha__should_parse() {
    let result = ReleaseType::from_str("alpha").expect("could not parse alpha");
    assert_eq!(result, ReleaseType::Alpha);
}

#[test]
#[allow(non_snake_case)]
fn from_str__given_beta__should_parse() {
    let result = ReleaseType::from_str("beta").expect("could not parse beta");
    assert_eq!(result, ReleaseType::Beta);
}

#[test]
fn from_str_ignores_case_and_accepts_long_names() {
    assert_eq!(ReleaseType::from_str("ReleaseCandidate").unwrap(), ReleaseType::ReleaseCandidate);
    assert_eq!(ReleaseType::from_str("RELEASE").unwrap(), ReleaseType::Release);
    assert_eq!(ReleaseType::from_str("Beta").unwrap(), ReleaseType::Beta);
}

#[test]
fn from_str_rejects_unknown_names() {
    assert_eq!(
        ReleaseType::from_str("gamma"),
        Err(PesError::UnknownReleaseType("gamma".to_string()))
    );
}

#[test]
fn to_string_reads_back() {
    for rt in [ReleaseType::Alpha, ReleaseType::Beta, ReleaseType::ReleaseCandidate, ReleaseType::Release] {
        assert_eq!(ReleaseType::from_str(rt.to_string().as_str()).unwrap(), rt);
    }
    assert_eq!(ReleaseType::ReleaseCandidate.to_string(), "rc");
    assert_eq!(ReleaseType::Release.to_string(), "");
}

#[test]
fn release_types_are_ordered() {
    assert!(ReleaseType::Alpha < ReleaseType::Beta);
    assert!(ReleaseType::Beta < ReleaseType::ReleaseCandidate);
    assert!(ReleaseType::ReleaseCandidate < ReleaseType::Release);
    assert_eq!(ReleaseType::release(), ReleaseType::Release);
}
