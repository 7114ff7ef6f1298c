use pes::distribution_range::DistributionRange;
use pes::release_type::ReleaseType;
use pes::semantic_version::SemanticVersion;
use pes::solve::{
    convert_request_str, keep_in_solution, min_release_type_for, normalize_request,
    missing_distributions, prerelease_overrides, without_root_request,
};

#[test]
#[allow(non_snake_case)]
fn convert_request_str__given_space_separated_list__succeeds() {
    let request = "maya  maya_plugins-1.2.3+<3";
    let result = convert_request_str(request);
    assert_eq!(
        result,
        vec![
            DistributionRange::from_str("maya").unwrap(),
            DistributionRange::from_str("maya_plugins-1.2.3+<3").unwrap()
        ]
    );
}

#[test]
fn commas_separate_a_request_as_spaces_do() {
    let request = normalize_request("maya-1.0.1,maya-plugins,maya-startup-1.2.3+<4");
    assert_eq!(request, "maya-1.0.1 maya-plugins maya-startup-1.2.3+<4");
    let ranges = convert_request_str(request.as_str());
    // names are words of letters, digits and underscores: `maya-plugins` does not read
    assert_eq!(ranges.len(), 1);
    assert_eq!(ranges[0].name, "maya");
}

#[test]
fn prerelease_overrides_keep_named_prereleases() {
    let constraints = vec!["maya-1.2.3-beta", "nuke-1.0.0", "houdini", "bar-2.0-rc"];
    let overrides = prerelease_overrides(&constraints);
    assert_eq!(
        overrides,
        vec![
            ("maya".to_string(), SemanticVersion::new(1, 2, 3, ReleaseType::Beta)),
            ("bar".to_string(), SemanticVersion::new(2, 0, 0, ReleaseType::ReleaseCandidate)),
        ]
    );
    assert_eq!(min_release_type_for(true), ReleaseType::Alpha);
    assert_eq!(min_release_type_for(false), ReleaseType::Release);
}

#[test]
fn solutions_keep_releases_and_the_requested_distribution() {
    let beta = SemanticVersion::new(1, 0, 0, ReleaseType::Beta);
    let release = SemanticVersion::new(1, 0, 0, ReleaseType::Release);
    assert!(keep_in_solution("foo", release, "bar", beta));
    assert!(keep_in_solution("bar", beta, "bar", beta));
    assert!(!keep_in_solution("foo", beta, "bar", beta));
    let solution = vec![
        ("ROOT_REQUEST".to_string(), release),
        ("foo".to_string(), beta),
    ];
    assert_eq!(without_root_request(&solution), vec![("foo".to_string(), beta)]);
}

#[test]
fn missing_distributions_name_those_without_a_manifest() {
    let rel = |a, b, c| SemanticVersion::new(a, b, c, ReleaseType::Release);
    let solution = vec![
        ("maya".to_string(), rel(1, 0, 0)),
        ("ROOT_REQUEST".to_string(), rel(1, 0, 0)),
        ("gcc".to_string(), rel(4, 3, 2)),
        ("nuke".to_string(), SemanticVersion::new(2, 4, 0, ReleaseType::Beta)),
    ];
    let found = vec![true, false, false, false];
    assert_eq!(
        missing_distributions(&solution, &found),
        vec!["gcc-4.3.2".to_string(), "nuke-2.4.0-beta".to_string()]
    );
    assert!(missing_distributions(&solution, &vec![true, false, true, true]).is_empty());
}
