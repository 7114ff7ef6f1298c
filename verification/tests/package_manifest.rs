use pes::distribution_range::DistributionRange;
use pes::error::PesError;
use pes::manifest::{EnvMap, Manifest, PackageManifest, PackageTarget, TargetMap};
use pes::release_type::ReleaseType;
use pes::semantic_version::SemanticVersion;

// The manifest `mypackage-1.2.3`: `run` requires `maya-plugins` (`plugins_range`)
// and, when given, `maya-core` `2+<4`; `build` takes in `run` and requires
// `maya` `1.2.3+<4`.
fn targets(plugins_range: &str, with_core: bool) -> TargetMap {
    let mut run_target = PackageTarget::new();
    run_target.require("maya-plugins", plugins_range);
    if with_core {
        run_target.require("maya-core", "2+<4");
    }
    let mut build_target = PackageTarget::new();
    build_target.include_target("run").unwrap();
    build_target.require("maya", "1.2.3+<4");
    let mut target_map = TargetMap::new();
    target_map.insert("run".into(), run_target);
    target_map.insert("build".into(), build_target);
    target_map
}

fn parts(
    version: &str,
    targets: TargetMap,
    checked: bool,
) -> Result<PackageManifest, PesError> {
    if checked {
        PackageManifest::from_parts(
            1,
            "mypackage".to_string(),
            version,
            "this is the description".to_string(),
            targets,
            EnvMap::new(),
        )
    } else {
        PackageManifest::from_parts_unchecked(
            1,
            "mypackage".to_string(),
            version,
            "this is the description".to_string(),
            targets,
            EnvMap::new(),
        )
    }
}

fn expected(targets: TargetMap) -> PackageManifest {
    let mut m = PackageManifest::new(
        1,
        "mypackage".to_string(),
        SemanticVersion::new(1, 2, 3, ReleaseType::Release),
        "this is the description".to_string(),
    );
    for (name, target) in targets {
        m.add_target(name.as_str(), target);
    }
    m
}

#[test]
#[allow(non_snake_case)]
fn from_str_unchecked__succeeds() {
    let manifest = parts("1.2.3", targets("^4.3", true), false);
    assert_eq!(manifest.unwrap(), expected(targets("^4.3", true)));
}

#[test]
#[allow(non_snake_case)]
fn from_str__succeeds_when_given_valid_manifest_str() {
    let manifest = parts("1.2.3", targets("^4.3", true), true);
    assert_eq!(manifest.unwrap(), expected(targets("^4.3", true)));
}

#[test]
#[allow(non_snake_case)]
fn from_str__succeeds_when_given_valid_manifest_str_without_targets() {
    let manifest = parts("1.2.3", TargetMap::new(), true);
    assert_eq!(manifest.unwrap(), expected(TargetMap::new()));
}

#[test]
#[allow(non_snake_case)]
fn from_str__errors_when_given_invalid_manifest_str() {
    let manifest = parts("1.2.3", targets("flopsy", false), true);
    assert!(manifest.is_err())
}

#[test]
#[allow(non_snake_case)]
fn from_str__errors_when_given_manifest_str_with_invalid_version() {
    let manifest = parts("invalid", targets("1.2.3", false), true);
    assert!(manifest.is_err())
}

#[test]
#[allow(non_snake_case)]
fn get_requires__succeeds_when_called_on_target_without_includes() {
    let manifest = parts("1.2.3", targets("^4.3", true), true).unwrap();
    let requires = manifest.get_requires("run");
    let expected = vec![
        DistributionRange::from_strs("maya-plugins", "^4.3").unwrap(),
        DistributionRange::from_strs("maya-core", "2+<4").unwrap(),
    ];
    assert_eq!(requires.unwrap(), expected);
}

#[test]
#[allow(non_snake_case)]
fn get_requires__succeeds_when_called_on_target_with_includes() {
    let manifest = parts("1.2.3", targets("^4.3", true), true).unwrap();
    let requires = manifest.get_requires("build");
    let expected = vec![
        DistributionRange::from_strs("maya-plugins", "^4.3").unwrap(),
        DistributionRange::from_strs("maya-core", "2+<4").unwrap(),
        DistributionRange::from_strs("maya", "1.2.3+<4").unwrap(),
    ];
    assert_eq!(requires.unwrap(), expected);
}

#[test]
#[allow(non_snake_case)]
fn validate_manifest__is_ok_when_called_on_good_PackageManifest() {
    let manifest = parts("1.2.3", targets("^4.3", true), false).unwrap();
    assert!(manifest.validate().is_ok());
}

#[test]
#[allow(non_snake_case)]
fn validate_manifest__returns_err_when_called_on_invalid_manifest() {
    let manifest = parts("1.2.3", targets("flopsy", false), false).unwrap();
    let valid = manifest.validate();
    assert!(valid.is_err());
}

#[test]
#[allow(non_snake_case)]
fn distribution__returns_name_version() {
    let manifest = PackageManifest::new(
        1,
        "foo".to_string(),
        SemanticVersion::new(0, 1, 0, ReleaseType::Release),
        String::new(),
    );
    let dist = manifest.distribution();
    assert_eq!(dist.as_str(), "foo-0.1.0");
}

#[test]
fn get_requires_errors() {
    let manifest = parts("1.2.3", targets("flopsy", false), false).unwrap();
    assert_eq!(
        manifest.get_requires("test"),
        Err(PesError::MissingTarget("test".to_string()))
    );
    assert_eq!(
        manifest.get_requires("build"),
        Err(PesError::ParsingFailure("parse_consuming_semver_range flopsy".to_string()))
    );
    assert_eq!(
        manifest.validate(),
        Err(PesError::ParsingFailure("parse_consuming_semver_range flopsy".to_string()))
    );
    let mut lonely = PackageTarget::new();
    lonely.include_target("nowhere").unwrap();
    assert_eq!(lonely.include_target("nowhere"), Err(PesError::DuplicateKey("nowhere".to_string())));
    let mut lonely_map = TargetMap::new();
    lonely_map.insert("lonely".to_string(), lonely);
    let m = parts("1.2.3", lonely_map, false).unwrap();
    assert_eq!(
        m.get_requires("lonely"),
        Err(PesError::MissingInclude { target: "lonely".to_string(), included: "nowhere".to_string() })
    );
    assert!(m.ranges_in_bounds());
}

#[test]
fn manifest_with_root() {
    let mut with_env = parts("1.2.3", targets("^4.3", true), true).unwrap();
    with_env.add_environment("PATH", "{root}/bin");
    let manifest = Manifest::new("/repo/mypackage/1.2.3".to_string(), with_env);
    assert_eq!(manifest.distribution(), "mypackage-1.2.3");
    assert_eq!(manifest.package_root(), "/repo/mypackage/1.2.3");
    let mut env = EnvMap::new();
    env.insert("PATH".to_string(), "{root}/bin".to_string());
    assert_eq!(manifest.environment(), &env);
    assert_eq!(manifest.get_requires("run").unwrap().len(), 2);
    assert!(manifest.validate(true).is_ok());
    assert_eq!(
        manifest.validate(false),
        Err(PesError::MissingPath("/repo/mypackage/1.2.3".to_string()))
    );
}
