//! The development repository finder: the repositories are listed in the
//! `PES_REPO_PATH` variable, separated by `:`, or else found under the user's
//! home directory.
use vstd::prelude::*;

use crate::finders::service::RepoFinderService;
use crate::parser::paths::{push_path, push_path_part};
use crate::solve::pieces;

verus! {

/// The variable that lists the package repositories.
pub const REPO_VARNAME: &'static str = "PES_REPO_PATH";

/// Where the repository lies under the home directory when the variable is unset.
pub const HOME_REPO: &'static str = "src/rust/pes/test_fixtures/repo_test";

/// The development repository finder, given what the environment holds: the
/// value of `PES_REPO_PATH`, if set, and the user's home directory.
#[derive(Debug, Clone)]
pub struct DevRepoFinder {
    /// The value of `PES_REPO_PATH`, if set
    pub repo_var: Option<String>,
    /// The user's home directory
    pub home: String,
}

/// The repositories the development finder gives.
pub open spec fn dev_repos(repo_var: Option<Seq<char>>, home: Seq<char>) -> Seq<Seq<char>> {
    match repo_var {
        Some(v) => pieces(v, ':'),
        None => seq![push_path(home, HOME_REPO@)],
    }
}

/// A development repository finder.
pub fn new_finder_service(repo_var: Option<String>, home: String) -> (f: DevRepoFinder)
    ensures
        f.repo_var == repo_var,
        f.home == home,
{
    DevRepoFinder::new(repo_var, home)
}

impl DevRepoFinder {
    /// A finder for the given value of `PES_REPO_PATH` and home directory.
    pub fn new(repo_var: Option<String>, home: String) -> (f: DevRepoFinder)
        ensures
            f.repo_var == repo_var,
            f.home == home,
    {
        DevRepoFinder { repo_var, home }
    }

    /// The repositories: the pieces of `PES_REPO_PATH` split at `:`, or else the
    /// repository under the home directory.
    pub fn repos(&self) -> (r: Vec<String>)
        ensures
            r@.map_values(|s: String| s@) == dev_repos(
                match self.repo_var {
                    Some(v) => Some(v@),
                    None => None,
                },
                self.home@,
            ),
    {
        match &self.repo_var {
            Some(v) => {
                let ws = crate::shell::split_at_char(v.as_str(), ':');
                let mut out: Vec<String> = Vec::new();
                let mut i: usize = 0;
                while i < ws.len()
                    invariant
                        i <= ws@.len(),
                        out@.map_values(|s: String| s@) == ws@.map_values(|w: &str| w@).take(i as int),
                    decreases ws@.len() - i,
                {
                    let ghost before = out@;
                    out.push(String::from_str(ws[i]));
                    i = i + 1;
                    proof {
                        let wv = ws@.map_values(|w: &str| w@);
                        assert(wv.take(i as int) =~= wv.take(i - 1).push(wv[i - 1]));
                        assert(out@.map_values(|s: String| s@) =~= before.map_values(|s: String| s@).push(ws@[i - 1]@));
                    }
                }
                proof {
                    assert(ws@.map_values(|w: &str| w@).take(i as int) =~= ws@.map_values(|w: &str| w@));
                }
                out
            },
            None => {
                let mut p = self.home.clone();
                push_path_part(&mut p, HOME_REPO);
                let out = vec![p];
                proof {
                    assert(out@.map_values(|s: String| s@) =~= seq![p@]);
                }
                out
            },
        }
    }
}

impl RepoFinderService for DevRepoFinder {
    fn find_repo(&self) -> (r: Vec<String>)
        ensures
            r@.map_values(|s: String| s@) == dev_repos(
                match self.repo_var {
                    Some(v) => Some(v@),
                    None => None,
                },
                self.home@,
            ),
    {
        self.repos()
    }
}

} // verus!
