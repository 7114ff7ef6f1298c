use pes::error::PesError;
use pes::lock::{lock_solution, LockFile};
use pes::release_type::ReleaseType;
use pes::semantic_version::SemanticVersion;

fn rel(a: u32, b: u32, c: u32) -> SemanticVersion {
    SemanticVersion::new(a, b, c, ReleaseType::Release)
}

#[test]
#[allow(non_snake_case)]
fn add_dist__when_given_a_new_target_and_dist__succeeds() {
    let mut lockfile = LockFile::new("", "jgerber");
    lockfile.add_dist("run", "maya-1.0.0").unwrap();
    let expect = LockFile::from_parts(
        1,
        String::new(),
        "jgerber".to_string(),
        vec![("run".to_string(), vec![("maya".to_string(), rel(1, 0, 0))])],
    );
    assert_eq!(lockfile, expect);
}

#[test]
#[allow(non_snake_case)]
fn add_dist__when_given_a_existing_target_and_dist__succeeds() {
    let mut lockfile = LockFile::new("", "jgerber");
    lockfile.add_dist("run", "maya-1.0.0").unwrap();
    lockfile.add_dist("run", "maya-2.0.0").unwrap();
    let expect = LockFile::from_parts(
        1,
        String::new(),
        "jgerber".to_string(),
        vec![("run".to_string(), vec![("maya".to_string(), rel(2, 0, 0))])],
    );
    assert_eq!(lockfile, expect);
}

#[test]
#[allow(non_snake_case)]
fn version__when_given_extant_target_and_package__returns_some_version() {
    let mut lockfile = LockFile::new("", "jgerber");
    lockfile.add_dist("run", "maya-1.0.0").unwrap();
    lockfile.add_dist("run", "nuke-2.4.0").unwrap();
    let version = lockfile.version("run", "nuke");
    let expected = rel(2, 4, 0);
    assert_eq!(version, Some(&expected));
}

#[test]
#[allow(non_snake_case)]
fn version__when_given_non_extant_target_and_package__returns_none() {
    let mut lockfile = LockFile::new("", "jgerber");
    lockfile.add_dist("run", "maya-1.0.0").unwrap();
    lockfile.add_dist("run", "nuke-2.4.0").unwrap();
    let version = lockfile.version("run", "nothing");
    assert_eq!(version, None);
}

#[test]
#[allow(non_snake_case)]
fn targets__returns_iterator_over_targets() {
    let mut lockfile = LockFile::new("", "jgerber");
    lockfile.add_dist("run", "maya-1.0.0").unwrap();
    lockfile.add_dist("build", "nuke-2.4.0").unwrap();
    let mut targets = lockfile.targets();
    targets.sort();
    assert_eq!(targets, vec!["build", "run"]);
}

#[test]
#[allow(non_snake_case)]
fn dists_for__when_given_valid_target__returns_some_iter() {
    let mut lockfile = LockFile::new("", "jgerber");
    lockfile.add_dist("run", "maya-1.0.0").unwrap();
    lockfile.add_dist("run", "nuke-2.4.0").unwrap();
    let result = lockfile.dists_for("run").unwrap();
    let expected = vec![("maya", rel(1, 0, 0)), ("nuke", rel(2, 4, 0))];
    assert_eq!(result.len(), expected.len());
    for record in result {
        let mut exists = false;
        for e in &expected {
            if e.0 == record.0.as_str() && record.1 == e.1 {
                exists = true;
            }
        }
        assert!(exists);
    }
}

#[test]
#[allow(non_snake_case)]
fn dists_for__when_given_invalid_target__returns_None() {
    let mut lockfile = LockFile::new("", "jgerber");
    lockfile.add_dist("run", "maya-1.0.0").unwrap();
    lockfile.add_dist("run", "nuke-2.4.0").unwrap();
    let result = lockfile.dists_for("walk");
    assert!(result.is_none());
}

#[test]
fn add_dist_refuses_what_is_not_a_distribution() {
    let mut lockfile = LockFile::new("req", "me");
    assert_eq!(
        lockfile.add_dist("run", "maya"),
        Err(PesError::ParsingFailure("parse_consuming_package_version Error(Nom(\"\", Tag))".to_string()))
    );
    assert!(!lockfile.has_target("run"));
    lockfile.add_dist("run", "maya-1").unwrap();
    assert!(lockfile.has_target("run"));
    assert_eq!((lockfile.schema(), lockfile.request(), lockfile.author()), (1, "req", "me"));
}

#[test]
fn selected_dependencies_for_gives_the_locked_versions() {
    let mut lockfile = LockFile::new("", "me");
    lockfile.add_dist("run", "maya-1.0.0").unwrap();
    lockfile.add_dist("run", "nuke-2.4.0-beta").unwrap();
    let deps = lockfile.selected_dependencies_for("run").unwrap();
    assert_eq!(
        deps,
        vec![
            ("maya".to_string(), rel(1, 0, 0)),
            ("nuke".to_string(), SemanticVersion::new(2, 4, 0, ReleaseType::Beta)),
        ]
    );
    assert_eq!(
        lockfile.selected_dependencies_for("build"),
        Err(PesError::MissingTarget("build".to_string()))
    );
    let name = "nuke".to_string();
    let v = SemanticVersion::new(2, 4, 0, ReleaseType::Beta);
    assert_eq!(LockFile::dist_tuple_to_string((&name, &v)), "nuke-2.4.0-beta");
}

#[test]
fn lock_files_compare_by_contents_not_by_order() {
    let mut a = LockFile::new("req", "me");
    a.add_dist("run", "maya-1.0.0").unwrap();
    a.add_dist("run", "nuke-2.4.0").unwrap();
    a.add_dist("build", "gcc-4.3.2").unwrap();
    let mut b = LockFile::new("req", "me");
    b.add_dist("build", "gcc-4.3.2").unwrap();
    b.add_dist("run", "nuke-2.4.0").unwrap();
    b.add_dist("run", "maya-1.0.0").unwrap();
    assert_eq!(a, b);
    let mut c = LockFile::new("req", "me");
    c.add_dist("build", "gcc-4.3.2").unwrap();
    c.add_dist("run", "nuke-2.4.1").unwrap();
    c.add_dist("run", "maya-1.0.0").unwrap();
    assert_ne!(a, c);
    let mut d = LockFile::new("req", "you");
    d.add_dist("build", "gcc-4.3.2").unwrap();
    d.add_dist("run", "nuke-2.4.0").unwrap();
    d.add_dist("run", "maya-1.0.0").unwrap();
    assert_ne!(a, d);
    let mut e = LockFile::new("req", "me");
    e.add_dist("run", "maya-1.0.0").unwrap();
    e.add_dist("run", "nuke-2.4.0").unwrap();
    assert_ne!(a, e);
}

#[test]
fn lock_solution_locks_each_distribution_for_the_target() {
    let dists = vec!["maya-1.0.0".to_string(), "nuke-2.4.0-beta".to_string(), "maya-1.1.0".to_string()];
    let lock = lock_solution("req".to_string(), "me".to_string(), "run", &dists).unwrap();
    let mut expect = LockFile::new("req", "me");
    expect.add_dist("run", "maya-1.1.0").unwrap();
    expect.add_dist("run", "nuke-2.4.0-beta").unwrap();
    assert_eq!(lock, expect);
    assert_eq!(lock.schema(), 1);
    let bad = vec!["maya-1.0.0".to_string(), "not a dist".to_string()];
    assert_eq!(
        lock_solution("req".to_string(), "me".to_string(), "run", &bad),
        Err(PesError::ParsingFailure("parse_consuming_package_version Error(Nom(\" a dist\", Tag))".to_string()))
    );
}
