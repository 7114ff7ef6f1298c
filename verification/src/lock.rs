//! The lock file: the resolved versions of the packages of each target, as a
//! solve found them, with the request that was solved and its author.
use vstd::prelude::*;

use crate::distribution::distribution_text;
use crate::env::{str_equal, Text};
use crate::error::PesError;
use crate::ordered_map::{
    distinct_keys, find_key, insert_entry, key_index, keys_of, lemma_key_index, lemma_map_insert,
    map_get, map_insert, pairs_view,
};
use crate::parser::grammar::{consuming, package_version, start};
use crate::parser::outcome::{failure_text, nom_failure, overflows};
use crate::parser::laws::{is_package_name, lemma_package_version_reads_text};
use crate::parser::parse_consuming_package_version;
use crate::semantic_version::SemanticVersion;
use vstd::std_specs::cmp::PartialEqSpecImpl;

verus! {

/// The versions of the packages of one target, by package name.
pub type VersionMap = Vec<(String, SemanticVersion)>;

/// The version maps of the targets, by target name.
pub type LockMap = Vec<(String, VersionMap)>;

/// The lock map by the characters of its names.
pub open spec fn lock_view(lock: Seq<(String, VersionMap)>) -> Seq<(Seq<char>, Seq<(Seq<char>, SemanticVersion)>)> {
    lock.map_values(|e: (String, VersionMap)| (e.0@, pairs_view(e.1@)))
}

/// The version of package `p` locked for target `t`.
pub open spec fn lock_version(
    lm: Seq<(Seq<char>, Seq<(Seq<char>, SemanticVersion)>)>,
    t: Seq<char>,
    p: Seq<char>,
) -> Option<SemanticVersion> {
    match map_get(lm, t) {
        Some(m) => map_get(m, p),
        None => None,
    }
}

/// The lock map after locking package `p` at version `v` for target `t`.
pub open spec fn with_dist(
    lm: Seq<(Seq<char>, Seq<(Seq<char>, SemanticVersion)>)>,
    t: Seq<char>,
    p: Seq<char>,
    v: SemanticVersion,
) -> Seq<(Seq<char>, Seq<(Seq<char>, SemanticVersion)>)> {
    let m = match map_get(lm, t) {
        Some(m) => m,
        None => Seq::empty(),
    };
    map_insert(lm, t, map_insert(m, p, v))
}

/// No target occurs twice, nor a package twice within a target.
pub open spec fn lock_well_formed(lm: Seq<(Seq<char>, Seq<(Seq<char>, SemanticVersion)>)>) -> bool {
    &&& distinct_keys(lm)
    &&& forall|i: int| 0 <= i < lm.len() ==> distinct_keys(#[trigger] lm[i].1)
}

/// A copy of a version map.
fn copy_versions(map: &VersionMap) -> (out: VersionMap)
    ensures
        pairs_view(out@) == pairs_view(map@),
{
    let mut out: VersionMap = Vec::new();
    let mut i: usize = 0;
    while i < map.len()
        invariant
            i <= map@.len(),
            pairs_view(out@) == pairs_view(map@).take(i as int),
        decreases map@.len() - i,
    {
        let ghost prev = out@;
        let name = map[i].0.clone();
        out.push((name, map[i].1));
        proof {
            assert(pairs_view(out@) =~= pairs_view(prev).push((map@[i as int].0@, map@[i as int].1)));
            assert(pairs_view(map@)[i as int] == (map@[i as int].0@, map@[i as int].1));
            assert(pairs_view(map@).take(i + 1) =~= pairs_view(map@).take(i as int).push(
                pairs_view(map@)[i as int],
            ));
        }
        i = i + 1;
    }
    proof {
        assert(pairs_view(map@).take(i as int) =~= pairs_view(map@));
    }
    out
}

/// The lock file. Two lock files are equal when they hold the same schema,
/// request and author, and the same targets with the same version of each
/// package: the order in which entries were added does not count.
#[derive(Debug, Clone)]
pub struct LockFile {
    schema: u32,
    request: String,
    author: String,
    lock: LockMap,
}

impl LockFile {
    /// The targets with the versions of their packages.
    pub closed spec fn lock_map(self) -> Seq<(Seq<char>, Seq<(Seq<char>, SemanticVersion)>)> {
        lock_view(self.lock@)
    }

    /// The version of the lock file format.
    pub closed spec fn schema_spec(self) -> u32 {
        self.schema
    }

    /// The request that was solved.
    pub closed spec fn request_spec(self) -> Seq<char> {
        self.request@
    }

    /// Who made the solve.
    pub closed spec fn author_spec(self) -> Seq<char> {
        self.author@
    }

    /// A new, empty lock file of format 1.
    pub fn new<R: Text, A: Text>(request: R, author: A) -> (l: Self)
        ensures
            lock_well_formed(l.lock_map()),
            l.schema_spec() == 1,
            l.request_spec() == request.chars(),
            l.author_spec() == author.chars(),
            l.lock_map() == Seq::<(Seq<char>, Seq<(Seq<char>, SemanticVersion)>)>::empty(),
    {
        let l = Self {
            schema: 1,
            request: request.into_string(),
            author: author.into_string(),
            lock: Vec::new(),
        };
        proof {
            assert(l.lock_map() =~= Seq::<(Seq<char>, Seq<(Seq<char>, SemanticVersion)>)>::empty());
        }
        l
    }

    /// A lock file from its parts, as read from a file.
    pub fn from_parts(schema: u32, request: String, author: String, lock: LockMap) -> (l: Self)
        ensures
            l.schema_spec() == schema,
            l.request_spec() == request@,
            l.author_spec() == author@,
            l.lock_map() == lock_view(lock@),
    {
        Self { schema, request, author, lock }
    }

    /// The version of the lock file format.
    pub fn schema(&self) -> (r: u32)
        ensures
            r == self.schema_spec(),
    {
        self.schema
    }

    /// The request that was solved.
    pub fn request(&self) -> (r: &str)
        ensures
            r@ == self.request_spec(),
    {
        self.request.as_str()
    }

    /// Who made the solve.
    pub fn author(&self) -> (r: &str)
        ensures
            r@ == self.author_spec(),
    {
        self.author.as_str()
    }

    /// The targets with the versions of their packages.
    pub fn entries(&self) -> (r: &LockMap)
        ensures
            lock_view(r@) == self.lock_map(),
    {
        &self.lock
    }

    /// Lock the distribution `dist` (`name-version`) for `target`, replacing the
    /// version locked for that package, if any.
    pub fn add_dist(&mut self, target: &str, dist: &str) -> (r: Result<(), PesError>)
        requires
            !overflows(package_version(dist@, start(dist@))),
        ensures
            match consuming(dist@, package_version(dist@, start(dist@))) {
                Ok((w, v)) => r is Ok && final(self).lock_map() == with_dist(
                    old(self).lock_map(),
                    target@,
                    dist@.subrange(start(dist@), w),
                    v,
                ),
                Err(h) => r matches Err(PesError::ParsingFailure(m)) && m@ == "parse_consuming_package_version "@
                    + nom_failure(dist@, h) && final(self).lock_map() == old(self).lock_map(),
            },
            lock_well_formed(old(self).lock_map()) ==> lock_well_formed(final(self).lock_map()),
            final(self).schema_spec() == old(self).schema_spec(),
            final(self).request_spec() == old(self).request_spec(),
            final(self).author_spec() == old(self).author_spec(),
    {
        let (name, version) = parse_consuming_package_version(dist)?;
        proof {
            if lock_well_formed(lock_view(self.lock@)) {
                lemma_lock_read_after_add(lock_view(self.lock@), target@, name@, version, target@, name@);
            }
        }
        let ghost lm = lock_view(self.lock@);
        proof {
            lemma_key_index(pairs_view(self.lock@), target@);
            lemma_key_index(lm, target@);
            crate::ordered_map::lemma_key_index_same_keys(pairs_view(self.lock@), lm, target@, 0);
        }
        match find_key(&self.lock, target) {
            Some(i) => {
                let mut map = copy_versions(&self.lock[i].1);
                proof {
                    assert(lm[i as int].1 == pairs_view(map@));
                }
                insert_entry(&mut map, name, version);
                self.lock.set(i, (String::from_str(target), map));
                proof {
                    assert(lock_view(self.lock@) =~= with_dist(lm, target@, name@, version));
                }
            },
            None => {
                let mut map: VersionMap = Vec::new();
                proof {
                    assert(pairs_view(map@) =~= Seq::<(Seq<char>, SemanticVersion)>::empty());
                }
                insert_entry(&mut map, name, version);
                self.lock.push((String::from_str(target), map));
                proof {
                    assert(lock_view(self.lock@) =~= with_dist(lm, target@, name@, version));
                }
            },
        }
        Ok(())
    }

    /// Whether the lock file holds `target`.
    pub fn has_target(&self, target: &str) -> (b: bool)
        ensures
            b == (key_index(self.lock_map(), target@) is Some),
    {
        proof {
            crate::ordered_map::lemma_key_index_same_keys(pairs_view(self.lock@), self.lock_map(), target@, 0);
        }
        find_key(&self.lock, target).is_some()
    }

    /// The version of `package` locked for `target`, if there is one.
    pub fn version(&self, target: &str, package: &str) -> (r: Option<&SemanticVersion>)
        ensures
            match lock_version(self.lock_map(), target@, package@) {
                Some(v) => r matches Some(x) && *x == v,
                None => r is None,
            },
    {
        let ghost lm = self.lock_map();
        proof {
            crate::ordered_map::lemma_key_index_same_keys(pairs_view(self.lock@), lm, target@, 0);
            lemma_key_index(lm, target@);
        }
        match find_key(&self.lock, target) {
            Some(i) => {
                let map = &self.lock[i].1;
                proof {
                    assert(lm[i as int].1 == pairs_view(map@));
                    lemma_key_index(pairs_view(map@), package@);
                }
                match find_key(map, package) {
                    Some(j) => Some(&map[j].1),
                    None => None,
                }
            },
            None => None,
        }
    }

    /// The targets, in order.
    pub fn targets(&self) -> (r: Vec<&str>)
        ensures
            r@.map_values(|s: &str| s@) == keys_of(self.lock_map()),
    {
        let mut out: Vec<&str> = Vec::new();
        let mut i: usize = 0;
        while i < self.lock.len()
            invariant
                i <= self.lock@.len(),
                out@.map_values(|s: &str| s@) == keys_of(self.lock_map()).take(i as int),
            decreases self.lock@.len() - i,
        {
            let ghost prev = out@;
            out.push(self.lock[i].0.as_str());
            proof {
                assert(out@.map_values(|s: &str| s@) =~= prev.map_values(|s: &str| s@).push(
                    self.lock@[i as int].0@,
                ));
                assert(keys_of(self.lock_map())[i as int] == self.lock@[i as int].0@);
                assert(keys_of(self.lock_map()).take(i + 1) =~= keys_of(self.lock_map()).take(
                    i as int,
                ).push(keys_of(self.lock_map())[i as int]));
            }
            i = i + 1;
        }
        proof {
            assert(keys_of(self.lock_map()).take(i as int) =~= keys_of(self.lock_map()));
        }
        out
    }

    /// The packages and versions locked for `target`, if the lock file holds it.
    pub fn dists_for(&self, target: &str) -> (r: Option<&VersionMap>)
        ensures
            match map_get(self.lock_map(), target@) {
                Some(m) => r matches Some(v) && pairs_view(v@) == m,
                None => r is None,
            },
    {
        let ghost lm = self.lock_map();
        proof {
            crate::ordered_map::lemma_key_index_same_keys(pairs_view(self.lock@), lm, target@, 0);
            lemma_key_index(lm, target@);
        }
        match find_key(&self.lock, target) {
            Some(i) => Some(&self.lock[i].1),
            None => None,
        }
    }

    /// The packages and versions locked for `target`, as a solve gives them.
    pub fn selected_dependencies_for(&self, target: &str) -> (r: Result<VersionMap, PesError>)
        ensures
            match map_get(self.lock_map(), target@) {
                Some(m) => r matches Ok(v) && pairs_view(v@) == m,
                None => r matches Err(PesError::MissingTarget(t)) && t@ == target@,
            },
    {
        match self.dists_for(target) {
            Some(map) => Ok(copy_versions(map)),
            None => Err(PesError::MissingTarget(String::from_str(target))),
        }
    }

    /// The written form of a locked package and version, `name-version`.
    pub fn dist_tuple_to_string(input: (&String, &SemanticVersion)) -> (s: String)
        ensures
            s@ == distribution_text(input.0@, *input.1),
    {
        proof {
            reveal_strlit("-");
        }
        let mut s = input.0.clone();
        s.append("-");
        let v = input.1.to_string();
        s.append(v.as_str());
        s
    }
}

/// Read after write: once `p` is locked at `v` for `t`, the lock file gives `v`
/// for it, every other package of every target keeps its version, and the lock
/// file stays well formed.
pub proof fn lemma_lock_read_after_add(
    lm: Seq<(Seq<char>, Seq<(Seq<char>, SemanticVersion)>)>,
    t: Seq<char>,
    p: Seq<char>,
    v: SemanticVersion,
    t2: Seq<char>,
    p2: Seq<char>,
)
    requires
        lock_well_formed(lm),
    ensures
        lock_version(with_dist(lm, t, p, v), t, p) == Some(v),
        (t2 != t || p2 != p) ==> lock_version(with_dist(lm, t, p, v), t2, p2) == lock_version(
            lm,
            t2,
            p2,
        ),
        lock_well_formed(with_dist(lm, t, p, v)),
        key_index(with_dist(lm, t, p, v), t) is Some,
{
    let m = match map_get(lm, t) {
        Some(m) => m,
        None => Seq::<(Seq<char>, SemanticVersion)>::empty(),
    };
    lemma_key_index(lm, t);
    assert(distinct_keys(m));
    lemma_map_insert(m, p, v, p2);
    let m2 = map_insert(m, p, v);
    lemma_map_insert(lm, t, m2, t2);
    let n = with_dist(lm, t, p, v);
    lemma_key_index(n, t);
    assert forall|i: int| 0 <= i < n.len() implies distinct_keys(#[trigger] n[i].1) by {
        match key_index(lm, t) {
            Some(k) => {
                if i != k {
                    assert(n[i] == lm[i]);
                }
            },
            None => {
                if i < lm.len() {
                    assert(n[i] == lm[i]);
                }
            },
        }
    }
}

/// Locking a distribution written as `name-version` (as a solve's results are
/// written into a lock file) locks that package at that version: the lock file
/// then gives the version for the package and target.
pub proof fn lemma_lock_written_distribution(
    lm: Seq<(Seq<char>, Seq<(Seq<char>, SemanticVersion)>)>,
    t: Seq<char>,
    name: Seq<char>,
    v: SemanticVersion,
)
    requires
        lock_well_formed(lm),
        is_package_name(name),
    ensures
        ({
            let text = distribution_text(name, v);
            &&& consuming(text, package_version(text, start(text))) == Ok::<
                (int, SemanticVersion),
                crate::parser::grammar::Halt,
            >((name.len() as int, v))
            &&& text.subrange(start(text), name.len() as int) == name
            &&& lock_version(with_dist(lm, t, name, v), t, name) == Some(v)
        }),
{
    let text = distribution_text(name, v);
    lemma_package_version_reads_text(name, v);
    assert(text.subrange(0, name.len() as int) =~= name);
    lemma_lock_read_after_add(lm, t, name, v, t, name);
}

/// The lock map after locking each distribution of `ds` (`name-version`) for
/// target `t`, in order, or the failure message of the first distribution that
/// does not read.
pub open spec fn locked_all(
    lm: Seq<(Seq<char>, Seq<(Seq<char>, SemanticVersion)>)>,
    t: Seq<char>,
    ds: Seq<Seq<char>>,
) -> Result<Seq<(Seq<char>, Seq<(Seq<char>, SemanticVersion)>)>, Seq<char>>
    decreases ds.len(),
{
    if ds.len() == 0 {
        Ok(lm)
    } else {
        let d = ds[0];
        match consuming(d, package_version(d, start(d))) {
            Ok((w, v)) => locked_all(with_dist(lm, t, d.subrange(start(d), w), v), t, ds.drop_first()),
            Err(h) => Err("parse_consuming_package_version "@ + nom_failure(d, h)),
        }
    }
}

/// A lock file of format 1 for the solve of `request` by `author`: each
/// distribution of `dists` (`name-version`) locked for `target`, in order. A
/// distribution that does not read is an error.
pub fn lock_solution(request: String, author: String, target: &str, dists: &Vec<String>) -> (r: Result<LockFile, PesError>)
    requires
        forall|k: int|
            0 <= k < dists@.len() ==> !overflows(
                package_version(#[trigger] dists@[k]@, start(dists@[k]@)),
            ),
    ensures
        match locked_all(Seq::empty(), target@, dists@.map_values(|d: String| d@)) {
            Ok(lm) => r matches Ok(l) && l.lock_map() == lm && lock_well_formed(lm) && l.schema_spec() == 1
                && l.request_spec() == request@ && l.author_spec() == author@,
            Err(m0) => r matches Err(PesError::ParsingFailure(m)) && m@ == m0,
        },
{
    let ghost ds = dists@.map_values(|d: String| d@);
    let mut l = LockFile::new(request, author);
    let mut i: usize = 0;
    proof {
        assert(ds.skip(0) =~= ds);
    }
    while i < dists.len()
        invariant
            ds == dists@.map_values(|d: String| d@),
            i <= dists@.len(),
            forall|k: int|
                0 <= k < dists@.len() ==> !overflows(
                    package_version(#[trigger] dists@[k]@, start(dists@[k]@)),
                ),
            locked_all(l.lock_map(), target@, ds.skip(i as int)) == locked_all(Seq::empty(), target@, ds),
            lock_well_formed(l.lock_map()),
            l.schema_spec() == 1,
            l.request_spec() == request@,
            l.author_spec() == author@,
        decreases dists@.len() - i,
    {
        let ghost before = l.lock_map();
        let d = dists[i].as_str();
        proof {
            assert(ds.skip(i as int)[0] == d@);
            assert(ds.skip(i as int).drop_first() =~= ds.skip(i + 1));
        }
        match l.add_dist(target, d) {
            Ok(()) => {},
            Err(e) => {
                return Err(e);
            },
        }
        i = i + 1;
    }
    proof {
        assert(ds.skip(i as int).len() == 0);
    }
    Ok(l)
}

/// Two version maps give the same version (or none) for package `p`.
pub open spec fn same_version_of(
    a: Seq<(Seq<char>, SemanticVersion)>,
    b: Seq<(Seq<char>, SemanticVersion)>,
    p: Seq<char>,
) -> bool {
    map_get(a, p) == map_get(b, p)
}

/// Two version maps give the same version for every package.
pub open spec fn same_versions(a: Seq<(Seq<char>, SemanticVersion)>, b: Seq<(Seq<char>, SemanticVersion)>) -> bool {
    forall|p: Seq<char>| #[trigger] same_version_of(a, b, p)
}

/// Two lock maps both lack target `t`, or both hold it with the same versions.
pub open spec fn same_target(
    a: Seq<(Seq<char>, Seq<(Seq<char>, SemanticVersion)>)>,
    b: Seq<(Seq<char>, Seq<(Seq<char>, SemanticVersion)>)>,
    t: Seq<char>,
) -> bool {
    match map_get(a, t) {
        Some(x) => match map_get(b, t) {
            Some(y) => same_versions(x, y),
            None => false,
        },
        None => map_get(b, t) is None,
    }
}

/// Two lock maps hold the same targets, each with the same versions.
pub open spec fn same_locks(
    a: Seq<(Seq<char>, Seq<(Seq<char>, SemanticVersion)>)>,
    b: Seq<(Seq<char>, Seq<(Seq<char>, SemanticVersion)>)>,
) -> bool {
    forall|t: Seq<char>| #[trigger] same_target(a, b, t)
}

/// A key that occurs in a map has a value there.
proof fn lemma_key_has_value<V>(m: Seq<(Seq<char>, V)>, j: int)
    requires
        0 <= j < m.len(),
    ensures
        map_get(m, m[j].0) is Some,
{
    lemma_key_index(m, m[j].0);
}

/// The version of package `p` in a version map.
fn version_in(map: &VersionMap, p: &str) -> (r: Option<SemanticVersion>)
    ensures
        r == map_get(pairs_view(map@), p@),
{
    proof {
        lemma_key_index(pairs_view(map@), p@);
    }
    match find_key(map, p) {
        Some(i) => Some(map[i].1),
        None => None,
    }
}

/// Whether two version maps give the same version for every package.
fn same_version_maps(a: &VersionMap, b: &VersionMap) -> (r: bool)
    ensures
        r == same_versions(pairs_view(a@), pairs_view(b@)),
{
    let ghost av = pairs_view(a@);
    let ghost bv = pairs_view(b@);
    let mut i: usize = 0;
    while i < a.len()
        invariant
            av == pairs_view(a@),
            bv == pairs_view(b@),
            i <= a@.len(),
            forall|k: int| 0 <= k < i ==> same_version_of(av, bv, #[trigger] av[k].0),
        decreases a@.len() - i,
    {
        let p = a[i].0.as_str();
        proof {
            assert(av[i as int].0 == p@);
        }
        let x = version_in(a, p);
        let y = version_in(b, p);
        let same = match (x, y) {
            (Some(u), Some(w)) => u == w,
            (None, None) => true,
            _ => false,
        };
        if !same {
            proof {
                assert(!same_version_of(av, bv, p@));
            }
            return false;
        }
        i = i + 1;
    }
    let mut j: usize = 0;
    while j < b.len()
        invariant
            av == pairs_view(a@),
            bv == pairs_view(b@),
            j <= b@.len(),
            forall|k: int| 0 <= k < a@.len() ==> same_version_of(av, bv, #[trigger] av[k].0),
            forall|k: int| 0 <= k < j ==> map_get(av, #[trigger] bv[k].0) is Some,
        decreases b@.len() - j,
    {
        let p = b[j].0.as_str();
        proof {
            assert(bv[j as int].0 == p@);
        }
        if version_in(a, p).is_none() {
            proof {
                lemma_key_has_value(bv, j as int);
                assert(!same_version_of(av, bv, p@));
            }
            return false;
        }
        j = j + 1;
    }
    proof {
        assert forall|p: Seq<char>| #[trigger] same_version_of(av, bv, p) by {
            lemma_key_index(av, p);
            lemma_key_index(bv, p);
            if let Some(k) = key_index(bv, p) {
                assert(map_get(av, bv[k].0) is Some);
            }
        }
    }
    true
}

/// The version map of target `t`, if the lock map holds it.
fn versions_of<'a>(lock: &'a LockMap, t: &str) -> (r: Option<&'a VersionMap>)
    ensures
        match map_get(lock_view(lock@), t@) {
            Some(m) => r matches Some(x) && pairs_view(x@) == m,
            None => r is None,
        },
{
    proof {
        crate::ordered_map::lemma_key_index_same_keys(pairs_view(lock@), lock_view(lock@), t@, 0);
        lemma_key_index(pairs_view(lock@), t@);
    }
    match find_key(lock, t) {
        Some(i) => {
            proof {
                assert(lock_view(lock@)[i as int].1 == pairs_view(lock@[i as int].1@));
            }
            Some(&lock[i].1)
        },
        None => None,
    }
}

/// Whether two lock maps hold the same targets, each with the same versions.
fn same_lock_maps(a: &LockMap, b: &LockMap) -> (r: bool)
    ensures
        r == same_locks(lock_view(a@), lock_view(b@)),
{
    let ghost av = lock_view(a@);
    let ghost bv = lock_view(b@);
    let mut i: usize = 0;
    while i < a.len()
        invariant
            av == lock_view(a@),
            bv == lock_view(b@),
            i <= a@.len(),
            forall|k: int| 0 <= k < i ==> same_target(av, bv, #[trigger] av[k].0),
        decreases a@.len() - i,
    {
        let t = a[i].0.as_str();
        proof {
            assert(av[i as int].0 == t@);
        }
        let same = match (versions_of(a, t), versions_of(b, t)) {
            (Some(x), Some(y)) => same_version_maps(x, y),
            (None, None) => true,
            _ => false,
        };
        if !same {
            proof {
                assert(!same_target(av, bv, t@));
            }
            return false;
        }
        i = i + 1;
    }
    let mut j: usize = 0;
    while j < b.len()
        invariant
            av == lock_view(a@),
            bv == lock_view(b@),
            j <= b@.len(),
            forall|k: int| 0 <= k < a@.len() ==> same_target(av, bv, #[trigger] av[k].0),
            forall|k: int| 0 <= k < j ==> map_get(av, #[trigger] bv[k].0) is Some,
        decreases b@.len() - j,
    {
        let t = b[j].0.as_str();
        proof {
            assert(bv[j as int].0 == t@);
        }
        if versions_of(a, t).is_none() {
            proof {
                lemma_key_has_value(bv, j as int);
                assert(!same_target(av, bv, t@));
            }
            return false;
        }
        j = j + 1;
    }
    proof {
        assert forall|t: Seq<char>| #[trigger] same_target(av, bv, t) by {
            lemma_key_index(av, t);
            lemma_key_index(bv, t);
            if let Some(k) = key_index(av, t) {
                assert(same_target(av, bv, av[k].0));
            } else if let Some(k) = key_index(bv, t) {
                assert(map_get(av, bv[k].0) is Some);
            }
        }
    }
    true
}

impl LockFile {
    /// Holds the same schema, request and author as `other`, and the same
    /// targets with the same versions, whatever order they were added in.
    pub open spec fn same_as(self, other: LockFile) -> bool {
        &&& self.schema_spec() == other.schema_spec()
        &&& self.request_spec() == other.request_spec()
        &&& self.author_spec() == other.author_spec()
        &&& same_locks(self.lock_map(), other.lock_map())
    }
}

impl PartialEq for LockFile {
    fn eq(&self, other: &Self) -> (r: bool) {
        self.schema == other.schema && str_equal(self.request.as_str(), other.request.as_str())
            && str_equal(self.author.as_str(), other.author.as_str()) && same_lock_maps(
            &self.lock,
            &other.lock,
        )
    }
}

impl PartialEqSpecImpl for LockFile {
    open spec fn obeys_eq_spec() -> bool {
        true
    }

    open spec fn eq_spec(&self, other: &LockFile) -> bool {
        self.same_as(*other)
    }
}

} // verus!
