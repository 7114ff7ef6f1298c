use pes::env::{BasicVarProvider, PathMode};
use pes::error::PesError;
use pes::finders::manifest::DevManifestFinder;
use pes::finders::repo::DevRepoFinder;
use pes::finders::service::{ManifestFinderService, RepoFinderService};
use pes::jsys::{JsysCleanEnv, ManifestFactory};
use pes::manifest::{EnvMap, MetadataProvider, PackageManifest};
use pes::release_type::{ReleaseType, ReleaseTypeProvider};
use pes::repository::PackageRepository;
use pes::presentation::{solve_tree, TreeLine};
use pes::semantic_version::SemanticVersion;
use pes::shell::{apply_settings, env_line, split_at_char, wrapper_args, Shell};
use std::collections::VecDeque;

fn q(items: &[&str]) -> VecDeque<String> {
    items.iter().map(|s| s.to_string()).collect()
}

#[test]
fn shells_by_name() {
    assert_eq!(Shell::from_str("/bin/bash"), Ok(Shell::Bash));
    assert_eq!(Shell::from_str("-csh"), Ok(Shell::Tcsh));
    assert_eq!(Shell::from_str("sh"), Ok(Shell::Sh));
    assert_eq!(
        Shell::from_str("zsh"),
        Err(PesError::ParsingFailure("Shell::from_str zsh".to_string()))
    );
    assert_eq!(Shell::Bash.env_args(), vec!["-i", "bash", "--noprofile", "--norc"]);
    assert_eq!(Shell::Tcsh.env_args(), vec!["-i", "tcsh", "-f"]);
}

#[test]
fn settings_combine_into_the_environment() {
    let mut env_vars = vec![("PATH".to_string(), PathMode::Exact(q(&["/usr/bin"])))];
    let mut provider = BasicVarProvider::new();
    let mut settings = EnvMap::new();
    settings.insert("PATH".to_string(), "prepend({root}/bin)".to_string());
    settings.insert("LD_LIBRARY_PATH".to_string(), "{root}/lib".to_string());
    apply_settings(&mut env_vars, &mut provider, "/pkg/foo", &settings).unwrap();
    assert_eq!(
        env_vars,
        vec![
            ("PATH".to_string(), PathMode::Exact(q(&["/pkg/foo/bin", "/usr/bin"]))),
            ("LD_LIBRARY_PATH".to_string(), PathMode::Exact(q(&["/pkg/foo/lib"]))),
        ]
    );
    assert_eq!(env_line("PATH", &env_vars[0].1), "PATH=/pkg/foo/bin:/usr/bin");
    let mut bad = EnvMap::new();
    bad.insert("PATH".to_string(), "append(/a".to_string());
    assert_eq!(
        apply_settings(&mut env_vars, &mut provider, "/pkg/bar", &bad),
        Err(PesError::PesNomError("Parsing Error: Nom(\"(/a\", Eof)".to_string()))
    );
    assert_eq!(provider.get("root"), Some("/pkg/bar"));
}

#[test]
fn jsys_base_environment() {
    let env = JsysCleanEnv::new();
    let keys = env.keys();
    assert_eq!(keys.len(), 65);
    assert_eq!(keys[0], "JSYS_PROJECT");
    let mut values: Vec<Option<String>> = vec![None; keys.len()];
    values[0] = Some("proj".to_string());
    values[1] = Some("bad\0value".to_string());
    let entries = env.base_env_from(&values);
    assert_eq!(entries.len(), 64);
    assert_eq!(entries[0], "JSYS_PROJECT=proj");
    assert_eq!(entries[1], "JSYS_SHOT=");
    assert_eq!(ManifestFactory.locate("/repo/foo/1.0.0"), "/repo/foo/1.0.0/manifest.yaml");
}

#[test]
fn repository_paths_and_filters() {
    let repo = PackageRepository::new("/repo".to_string());
    assert_eq!(repo.root(), "/repo");
    assert_eq!(repo.distribution_dir("foo", "0.1.0"), "/repo/foo/0.1.0");
    assert_eq!(repo.distribution_dir_for("foo-0.1.0-beta").unwrap(), "/repo/foo/0.1.0-beta");
    assert!(repo.distribution_dir_for("foo").is_err());
    let beta = SemanticVersion::new(1, 0, 0, ReleaseType::Beta);
    let overrides = vec![("foo".to_string(), beta)];
    assert!(PackageRepository::admits_manifest("foo", beta, ReleaseType::Release, &overrides));
    assert!(!PackageRepository::admits_manifest("bar", beta, ReleaseType::Release, &overrides));
    assert!(PackageRepository::admits_manifest("bar", beta, ReleaseType::Alpha, &overrides));
    assert!(PackageRepository::admits_distribution("bar", beta, ReleaseType::Release, &overrides));
    assert!(!PackageRepository::admits_distribution("bar", beta, ReleaseType::ReleaseCandidate, &overrides));
    assert!(!PackageRepository::admits_listed_manifest(beta, ReleaseType::Release));
    assert!(PackageRepository::admits_listed_manifest(beta, ReleaseType::Alpha));
}

#[test]
fn development_finders() {
    let finder = DevRepoFinder::new(Some("/a/repo:/b/repo".to_string()), "/home/me".to_string());
    assert_eq!(finder.find_repo(), vec!["/a/repo".to_string(), "/b/repo".to_string()]);
    let finder = DevRepoFinder::new(None, "/home/me".to_string());
    assert_eq!(finder.find_repo(), vec!["/home/me/src/rust/pes/test_fixtures/repo_test".to_string()]);
    let manifests = DevManifestFinder::new();
    assert_eq!(manifests.find_manifest("/repo/foo/0.1.0".to_string()), "/repo/foo/0.1.0/manifest.yaml");
}

#[test]
fn wrapper_scripts_give_their_arguments() {
    let contents = "#!/usr/bin/env pes-run\n--pes-cmd bin/tool --pes-pkg foo\n# comment\n";
    let args = wrapper_args("/usr/local/bin/tool", contents);
    assert_eq!(
        args,
        vec!["/usr/local/bin/tool", "--pes-cmd", "bin/tool", "--pes-pkg", "foo", ""]
    );
    assert_eq!(split_at_char("a::b", ':'), vec!["a", "", "b"]);
    assert_eq!(split_at_char("", ':'), vec![""]);
}

#[test]
fn solve_trees_show_each_distribution_once() {
    let rel = |a, b, c| SemanticVersion::new(a, b, c, ReleaseType::Release);
    let solution = vec![
        ("maya".to_string(), rel(1, 0, 0)),
        ("gcc".to_string(), rel(4, 3, 2)),
        ("plugins".to_string(), rel(2, 1, 0)),
    ];
    let needs = vec![
        ("maya-1.0.0".to_string(), vec!["gcc".to_string(), "plugins".to_string()]),
        ("plugins-2.1.0".to_string(), vec!["gcc".to_string()]),
    ];
    let lines = solve_tree(&vec!["maya-1".to_string()], &solution, &needs).unwrap();
    let line = |depth, d: &str, repeated| TreeLine { depth, distribution: d.to_string(), repeated };
    assert_eq!(
        lines,
        vec![
            line(0, "maya-1.0.0", false),
            line(1, "gcc-4.3.2", false),
            line(1, "plugins-2.1.0", false),
            line(2, "gcc-4.3.2", true),
        ]
    );
    assert_eq!(
        solve_tree(&vec!["nuke".to_string()], &solution, &needs),
        Err(PesError::DistributionNotFound("nuke".to_string()))
    );
}

#[test]
fn release_type_provider_names_release() {
    assert_eq!(<ReleaseType as ReleaseTypeProvider>::release(), ReleaseType::Release);
}

#[test]
fn manifests_provide_their_metadata() {
    let m = PackageManifest::new(
        1,
        "maya".to_string(),
        SemanticVersion::new(2, 1, 0, ReleaseType::Beta),
        String::new(),
    );
    assert_eq!(m.version(), Ok(SemanticVersion::new(2, 1, 0, ReleaseType::Beta)));
    assert_eq!(m.name(), Ok("maya"));
}
