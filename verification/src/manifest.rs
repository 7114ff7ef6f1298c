//! The manifest of a package: its name, version and description, its targets
//! (`run`, `build`, ...) with the packages each target requires, and the
//! environment settings of the package.
//!
//! A target lists requirements as a package name and a range string
//! (`maya: 1.2.3+<4`), and may name other targets whose requirements it takes
//! in, before its own.
use vstd::prelude::*;

use crate::distribution::distribution_text;
use crate::distribution_range::DistributionRange;
use crate::error::PesError;
use crate::index_map::{
    target_entries, target_map_get, target_map_get_index, target_map_insert, target_map_len,
    target_map_new, text_entries, text_map_get_index, text_map_insert, text_map_len, text_map_new,
};
use crate::ordered_map::{map_get, map_insert};
use indexmap::IndexMap;
use crate::parser::grammar::{consuming, semver_range, start};
use crate::parser::outcome::{failure_text, overflows};
use crate::parser::scan::{scan_semver_range, skip_multispace};
use crate::parser::grammar::Halt;
use crate::range::Range;
use crate::semantic_version::{parsed_version, reads_version, SemanticVersion, VersionText};
use crate::text::chars_of;

verus! {

/// A target of a package: the targets it takes requirements from, and its own
/// requirements, package name to range string, in order.
#[derive(Debug, PartialEq, Eq)]
pub struct PackageTarget {
    included: Vec<String>,
    requirements: IndexMap<String, String>,
}

/// A target by what it holds: the names of the targets it takes in, and its
/// requirements, package names with their range strings, in order.
pub type TargetView = (Seq<Seq<char>>, Seq<(Seq<char>, Seq<char>)>);

/// The targets of a manifest by name, in order.
pub type TargetEntries = Seq<(Seq<char>, TargetView)>;

/// A target map: targets by name, in insertion order.
pub type TargetMap = IndexMap<String, PackageTarget>;

/// An environment map: settings by variable name, in insertion order.
pub type EnvMap = IndexMap<String, String>;

impl PackageTarget {
    /// The names of the targets whose requirements this target takes in, in order.
    pub closed spec fn includes(self) -> Seq<Seq<char>> {
        self.included@.map_values(|s: String| s@)
    }

    /// The requirements: package names with their range strings, in order.
    pub closed spec fn requirements(self) -> Seq<(Seq<char>, Seq<char>)> {
        text_entries(self.requirements)
    }

    /// The target by what it holds.
    pub open spec fn view(self) -> TargetView {
        (self.includes(), self.requirements())
    }

    /// A target with no includes and no requirements.
    pub fn new() -> (t: Self)
        ensures
            t.includes() == Seq::<Seq<char>>::empty(),
            t.requirements() == Seq::<(Seq<char>, Seq<char>)>::empty(),
    {
        let t = PackageTarget { included: Vec::new(), requirements: text_map_new() };
        proof {
            assert(t.includes() =~= Seq::<Seq<char>>::empty());
            assert(t.requirements() =~= Seq::<(Seq<char>, Seq<char>)>::empty());
        }
        t
    }

    /// Take in the requirements of target `name`; a target named twice is refused.
    pub fn include_target(&mut self, name: &str) -> (r: Result<(), PesError>)
        ensures
            old(self).includes().contains(name@) ==> (r matches Err(PesError::DuplicateKey(k)) && k@
                == name@ && *final(self) == *old(self)),
            !old(self).includes().contains(name@) ==> r is Ok && final(self).includes() == old(
                self,
            ).includes().push(name@) && final(self).requirements() == old(self).requirements(),
    {
        let mut i: usize = 0;
        while i < self.included.len()
            invariant
                i <= self.included@.len(),
                forall|j: int| 0 <= j < i ==> self.included@[j]@ != name@,
            decreases self.included@.len() - i,
        {
            if crate::env::str_equal(self.included[i].as_str(), name) {
                proof {
                    assert(self.includes()[i as int] == name@);
                }
                return Err(PesError::DuplicateKey(String::from_str(name)));
            }
            i = i + 1;
        }
        proof {
            assert(!self.includes().contains(name@)) by {
                if self.includes().contains(name@) {
                    let j = self.includes().index_of(name@);
                    assert(self.included@[j]@ == name@);
                }
            }
        }
        self.included.push(String::from_str(name));
        proof {
            assert(self.includes() =~= old(self).includes().push(name@));
        }
        Ok(())
    }

    /// Require `package` in the range written `range`; a package required again
    /// keeps its place and takes the new range.
    pub fn require(&mut self, package: &str, range: &str)
        ensures
            final(self).requirements() == map_insert(old(self).requirements(), package@, range@),
            final(self).includes() == old(self).includes(),
    {
        text_map_insert(&mut self.requirements, package, range);
    }

    /// The names of the included targets.
    pub fn includes_list(&self) -> (r: &Vec<String>)
        ensures
            r@.map_values(|s: String| s@) == self.includes(),
    {
        &self.included
    }

    /// The requirements, package name and range string.
    pub fn requirements_list(&self) -> (r: &EnvMap)
        ensures
            text_entries(*r) == self.requirements(),
    {
        &self.requirements
    }
}

/// Why the requirements of a target cannot be listed, or the list.
pub enum RequiresOutcome {
    /// The requirements: package names with their ranges, in order.
    Found(Seq<(Seq<char>, Range<SemanticVersion>)>),
    /// There is no such target.
    MissingTarget,
    /// The target takes in a target, named here, that does not exist.
    MissingInclude(Seq<char>),
    /// A range string, given here, is not a range.
    BadRange(Seq<char>),
}

/// The requirements of the targets `incs`, in order, or the first of them that
/// does not exist.
pub open spec fn included_requirements(
    targets: TargetEntries,
    incs: Seq<Seq<char>>,
) -> Result<Seq<(Seq<char>, Seq<char>)>, Seq<char>>
    decreases incs.len(),
{
    if incs.len() == 0 {
        Ok(Seq::empty())
    } else {
        match map_get(targets, incs[0]) {
            None => Err(incs[0]),
            Some(t) => match included_requirements(targets, incs.drop_first()) {
                Err(e) => Err(e),
                Ok(rest) => Ok(t.1 + rest),
            },
        }
    }
}

/// Range strings read as ranges, in order, or the first that is not a range.
pub open spec fn parsed_ranges(reqs: Seq<(Seq<char>, Seq<char>)>) -> Result<
    Seq<(Seq<char>, Range<SemanticVersion>)>,
    Seq<char>,
>
    decreases reqs.len(),
{
    if reqs.len() == 0 {
        Ok(Seq::empty())
    } else {
        let r = reqs[0].1;
        match consuming(r, semver_range(r, start(r))) {
            Err(_) => Err(r),
            Ok(g) => match parsed_ranges(reqs.drop_first()) {
                Err(e) => Err(e),
                Ok(rest) => Ok(seq![(reqs[0].0, g)] + rest),
            },
        }
    }
}

/// Every range string of a list of requirements is a range that fits or is no
/// range at all (none names a number beyond `u32`).
pub open spec fn ranges_fit(reqs: Seq<(Seq<char>, Seq<char>)>) -> bool {
    forall|j: int|
        0 <= j < reqs.len() ==> !overflows(
            semver_range(#[trigger] reqs[j].1, start(reqs[j].1)),
        )
}


/// The requirements of a list of borrowed requirement pairs, by their characters.
pub open spec fn ref_pairs(e: Seq<(&String, &String)>) -> Seq<(Seq<char>, Seq<char>)> {
    e.map_values(|p: (&String, &String)| (p.0@, p.1@))
}

/// A list read so far, followed by what reading the rest gives.
pub open spec fn then<T, E>(done: Seq<T>, rest: Result<Seq<T>, E>) -> Result<Seq<T>, E> {
    match rest {
        Ok(r) => Ok(done + r),
        Err(e) => Err(e),
    }
}

proof fn lemma_then_shift<T, E>(done: Seq<T>, more: Seq<T>, rest: Result<Seq<T>, E>)
    ensures
        then(done, then(more, rest)) == then(done + more, rest),
{
    if let Ok(r) = rest {
        assert(done + (more + r) =~= (done + more) + r);
    }
}

/// The requirements of target `target` among `targets`: those of the targets it
/// includes, in order, then its own, each with its range.
pub open spec fn requires_of(targets: TargetEntries, target: Seq<char>) -> RequiresOutcome {
    match map_get(targets, target) {
        None => RequiresOutcome::MissingTarget,
        Some(t) => match included_requirements(targets, t.0) {
            Err(inc) => RequiresOutcome::MissingInclude(inc),
            Ok(inc_reqs) => match parsed_ranges(inc_reqs + t.1) {
                Err(r) => RequiresOutcome::BadRange(r),
                Ok(ps) => RequiresOutcome::Found(ps),
            },
        },
    }
}

/// `e` is the error for target `target` whose requirements cannot be listed.
pub open spec fn requires_error(e: PesError, outcome: RequiresOutcome, target: Seq<char>) -> bool {
    match outcome {
        RequiresOutcome::MissingTarget => e matches PesError::MissingTarget(t) && t@ == target,
        RequiresOutcome::MissingInclude(inc) => e matches PesError::MissingInclude {
            target: t,
            included: i,
        } && t@ == target && i@ == inc,
        RequiresOutcome::BadRange(r) => e matches PesError::ParsingFailure(m) && m@ == failure_text(
            "parse_consuming_semver_range"@,
            r,
        ),
        RequiresOutcome::Found(_) => false,
    }
}

/// The answer of `get_requires` for `target`: the listed requirements, or the error.
pub open spec fn requires_answer(r: Result<Vec<DistributionRange>, PesError>, outcome: RequiresOutcome, target: Seq<char>) -> bool {
    match outcome {
        RequiresOutcome::Found(ps) => r matches Ok(v) && v@.len() == ps.len() && forall|i: int|
            0 <= i < ps.len() ==> (#[trigger] v@[i]).name@ == ps[i].0 && v@[i].range == ps[i].1,
        _ => r matches Err(e) && requires_error(e, outcome, target),
    }
}

/// Every target of `targets` lists its requirements.
pub open spec fn targets_valid(targets: TargetEntries) -> bool {
    forall|i: int| 0 <= i < targets.len() ==> requires_of(targets, (#[trigger] targets[i]).0) is Found
}

/// `e` is the error of the first target of `targets` that does not list its
/// requirements.
pub open spec fn first_target_error(targets: TargetEntries, e: PesError) -> bool {
    exists|k: int|
        0 <= k < targets.len() && (forall|j: int|
            0 <= j < k ==> requires_of(targets, (#[trigger] targets[j]).0) is Found) && requires_error(
            e,
            requires_of(targets, targets[k].0),
            targets[k].0,
        )
}

/// Appends (borrows of) the requirements of `t` to `reqs`.
fn push_requirements<'a>(reqs: &mut Vec<(&'a String, &'a String)>, t: &'a PackageTarget)
    ensures
        ref_pairs(final(reqs)@) == ref_pairs(old(reqs)@) + t.requirements(),
{
    let ghost before = ref_pairs(reqs@);
    let n = text_map_len(&t.requirements);
    let mut x: usize = 0;
    proof {
        assert(ref_pairs(reqs@) =~= before + t.requirements().take(0));
    }
    while x < n
        invariant
            n == t.requirements().len(),
            x <= n,
            ref_pairs(reqs@) == before + t.requirements().take(x as int),
        decreases n - x,
    {
        let ghost prev = reqs@;
        let p = text_map_get_index(&t.requirements, x);
        reqs.push(p);
        proof {
            assert(ref_pairs(reqs@) =~= ref_pairs(prev).push(t.requirements()[x as int]));
            assert(t.requirements().take(x + 1) =~= t.requirements().take(x as int).push(
                t.requirements()[x as int],
            ));
        }
        x = x + 1;
        proof {
            assert(ref_pairs(reqs@) =~= before + t.requirements().take(x as int));
        }
    }
    proof {
        assert(t.requirements().take(x as int) =~= t.requirements());
    }
}

/// Whether reading `r` as a range meets a number beyond `u32`.
fn range_overflows(r: &str) -> (b: bool)
    ensures
        b == overflows(semver_range(r@, start(r@))),
{
    let c = chars_of(r);
    let i = skip_multispace(&c, 0);
    match scan_semver_range(&c, i) {
        Err(Halt::Overflow) => true,
        _ => false,
    }
}

/// The basic metadata of a package manifest.
pub trait MetadataProvider {
    type Version;
    type Error;

    /// The version of the package.
    fn version(&self) -> Result<Self::Version, Self::Error>;

    /// The name of the package.
    fn name(&self) -> Result<&str, Self::Error>;
}

/// The manifest of a package.
#[derive(Debug, PartialEq, Eq)]
pub struct PackageManifest {
    /// Version of the manifest format
    pub schema: u32,
    /// Name of the package
    pub name: String,
    /// Version of the package
    pub version: SemanticVersion,
    /// Description of the package
    pub description: String,
    /// The targets by name, in order
    pub targets: TargetMap,
    /// The environment settings: variable name and setting, in order
    pub environment: EnvMap,
}

impl PackageManifest {
    /// The targets by name, in order.
    pub open spec fn target_map(self) -> TargetEntries {
        target_entries(self.targets)
    }

    /// The environment settings: variable name and setting, in order.
    pub open spec fn environment_map(self) -> Seq<(Seq<char>, Seq<char>)> {
        text_entries(self.environment)
    }

    /// No range string of any target names a number beyond `u32`.
    pub open spec fn in_bounds(self) -> bool {
        targets_in_bounds(self.target_map())
    }

    /// Every target lists its requirements.
    pub open spec fn valid(self) -> bool {
        targets_valid(self.target_map())
    }

    /// A manifest with no targets and no environment settings.
    pub fn new(schema: u32, name: String, version: SemanticVersion, description: String) -> (m: Self)
        ensures
            m.schema == schema,
            m.name == name,
            m.version == version,
            m.description == description,
            m.target_map() == Seq::<(Seq<char>, TargetView)>::empty(),
            m.environment_map() == Seq::<(Seq<char>, Seq<char>)>::empty(),
    {
        PackageManifest {
            schema,
            name,
            version,
            description,
            targets: target_map_new(),
            environment: text_map_new(),
        }
    }

    /// A manifest from its parts, the version given as a string, without checking
    /// the targets.
    pub fn from_parts_unchecked(
        schema: u32,
        name: String,
        version: &str,
        description: String,
        targets: TargetMap,
        environment: EnvMap,
    ) -> (r: Result<Self, PesError>)
        ensures
            match r {
                Ok(m) => reads_version(Ok(m.version), version@) && m.schema == schema && m.name
                    == name && m.description == description && m.targets == targets
                    && m.environment == environment,
                Err(e) => reads_version(Err(e), version@),
            },
    {
        let version = SemanticVersion::from_str(version)?;
        Ok(PackageManifest { schema, name, version, description, targets, environment })
    }

    /// A manifest from its parts, the version given as a string, checked: every
    /// target must list its requirements.
    pub fn from_parts(
        schema: u32,
        name: String,
        version: &str,
        description: String,
        targets: TargetMap,
        environment: EnvMap,
    ) -> (r: Result<Self, PesError>)
        requires
            targets_in_bounds(target_entries(targets)),
        ensures
            match r {
                Ok(m) => reads_version(Ok(m.version), version@) && m.schema == schema && m.name
                    == name && m.description == description && m.targets == targets
                    && m.environment == environment && m.valid(),
                Err(e) => reads_version(Err(e), version@) || (parsed_version(version@) is Version
                    && first_target_error(target_entries(targets), e)),
            },
            parsed_version(version@) is Version && targets_valid(target_entries(targets)) ==> r is Ok,
    {
        let m = Self::from_parts_unchecked(schema, name, version, description, targets, environment)?;
        m.validate()?;
        Ok(m)
    }

    /// The requirements of target `target`: those of the targets it takes in, in
    /// order, then its own, each package with its range.
    pub fn get_requires<'a>(&'a self, target: &str) -> (r: Result<Vec<DistributionRange<'a>>, PesError>)
        requires
            self.in_bounds(),
        ensures
            requires_answer(r, requires_of(self.target_map(), target@), target@),
    {
        let ghost tm = self.target_map();
        let t = match target_map_get(&self.targets, target) {
            None => {
                return Err(PesError::MissingTarget(String::from_str(target)));
            },
            Some(t) => t,
        };
        proof {
            crate::ordered_map::lemma_key_index(tm, target@);
        }
        let ghost ti = crate::ordered_map::key_index(tm, target@).unwrap();
        let ghost incs = t.includes();
        let mut reqs: Vec<(&'a String, &'a String)> = Vec::new();
        let mut k: usize = 0;
        proof {
            assert(incs.skip(0) =~= incs);
            assert(ref_pairs(reqs@) =~= Seq::<(Seq<char>, Seq<char>)>::empty());
            assert(then(Seq::<(Seq<char>, Seq<char>)>::empty(), included_requirements(tm, incs))
                == included_requirements(tm, incs)) by {
                if let Ok(x) = included_requirements(tm, incs) {
                    assert(Seq::<(Seq<char>, Seq<char>)>::empty() + x =~= x);
                }
            }
        }
        while k < t.included.len()
            invariant
                map_get(tm, target@) == Some(t.view()),
                tm == self.target_map(),
                self.in_bounds(),
                incs == t.includes(),
                k <= t.included@.len(),
                included_requirements(tm, incs) == then(
                    ref_pairs(reqs@),
                    included_requirements(tm, incs.skip(k as int)),
                ),
                ranges_fit(ref_pairs(reqs@)),
            decreases t.included@.len() - k,
        {
            let name = t.included[k].as_str();
            proof {
                assert(incs.skip(k as int)[0] == name@);
                assert(incs.skip(k as int).drop_first() =~= incs.skip(k + 1));
                crate::ordered_map::lemma_key_index(tm, name@);
            }
            let tj = match target_map_get(&self.targets, name) {
                None => {
                    proof {
                        assert(included_requirements(tm, incs.skip(k as int)) == Err::<
                            Seq<(Seq<char>, Seq<char>)>,
                            Seq<char>,
                        >(name@));
                    }
                    return Err(
                        PesError::MissingInclude {
                            target: String::from_str(target),
                            included: String::from_str(name),
                        },
                    );
                },
                Some(tj) => tj,
            };
            let ghost before = ref_pairs(reqs@);
            proof {
                let j = crate::ordered_map::key_index(tm, name@).unwrap();
                assert(tm[j].1 == tj.view());
                assert(ranges_fit(tm[j].1.1));
            }
            push_requirements(&mut reqs, tj);
            proof {
                assert(included_requirements(tm, incs.skip(k as int)) == then(
                    tj.requirements(),
                    included_requirements(tm, incs.skip(k + 1)),
                ));
                lemma_then_shift(before, tj.requirements(), included_requirements(tm, incs.skip(k + 1)));
                assert(ranges_fit(ref_pairs(reqs@))) by {
                    assert forall|q: int| 0 <= q < ref_pairs(reqs@).len() implies !overflows(
                        semver_range(#[trigger] ref_pairs(reqs@)[q].1, start(ref_pairs(reqs@)[q].1)),
                    ) by {
                        if q < before.len() {
                            assert(ref_pairs(reqs@)[q] == before[q]);
                        } else {
                            assert(ref_pairs(reqs@)[q] == tj.requirements()[q - before.len()]);
                        }
                    }
                }
            }
            k = k + 1;
        }
        // the target's own requirements
        let ghost before = ref_pairs(reqs@);
        proof {
            assert(incs.skip(k as int) =~= Seq::<Seq<char>>::empty());
            assert(tm[ti].1 == t.view());
            assert(ranges_fit(tm[ti].1.1));
        }
        push_requirements(&mut reqs, t);
        let ghost all = ref_pairs(reqs@);
        proof {
            assert(included_requirements(tm, incs) == Ok::<Seq<(Seq<char>, Seq<char>)>, Seq<char>>(before)) by {
                assert(before + Seq::<(Seq<char>, Seq<char>)>::empty() =~= before);
            }
            assert(ranges_fit(all)) by {
                assert forall|q: int| 0 <= q < all.len() implies !overflows(
                    semver_range(#[trigger] all[q].1, start(all[q].1)),
                ) by {
                    if q < before.len() {
                        assert(all[q] == before[q]);
                    } else {
                        assert(all[q] == t.requirements()[q - before.len()]);
                    }
                }
            }
            assert(all.skip(0) =~= all);
        }
        // read each range
        let mut out: Vec<DistributionRange<'a>> = Vec::new();
        let mut y: usize = 0;
        proof {
            assert(out@.map_values(|d: DistributionRange<'a>| (d.name@, d.range)) =~= Seq::<(Seq<char>, Range<SemanticVersion>)>::empty());
            if let Ok(z) = parsed_ranges(all) {
                assert(Seq::<(Seq<char>, Range<SemanticVersion>)>::empty() + z =~= z);
            }
            assert(requires_of(tm, target@) == match parsed_ranges(all) {
                Err(r) => RequiresOutcome::BadRange(r),
                Ok(ps) => RequiresOutcome::Found(ps),
            });
        }
        while y < reqs.len()
            invariant
                tm == self.target_map(),
                requires_of(tm, target@) == match parsed_ranges(all) {
                    Err(r) => RequiresOutcome::BadRange(r),
                    Ok(ps) => RequiresOutcome::Found(ps),
                },
                all == ref_pairs(reqs@),
                ranges_fit(all),
                y <= reqs@.len(),
                parsed_ranges(all) == then(
                    out@.map_values(|d: DistributionRange<'a>| (d.name@, d.range)),
                    parsed_ranges(all.skip(y as int)),
                ),
            decreases reqs@.len() - y,
        {
            let p = reqs[y];
            proof {
                assert(all.skip(y as int)[0] == all[y as int]);
                assert(all.skip(y as int).drop_first() =~= all.skip(y + 1));
                assert(all[y as int] == (p.0@, p.1@));
                assert(!overflows(semver_range(all[y as int].1, start(all[y as int].1))));
            }
            let d = match DistributionRange::from_strs(p.0.as_str(), p.1.as_str()) {
                Ok(d) => d,
                Err(e) => {
                    proof {
                        assert(parsed_ranges(all.skip(y as int)) == Err::<
                            Seq<(Seq<char>, Range<SemanticVersion>)>,
                            Seq<char>,
                        >(p.1@));
                    }
                    return Err(e);
                },
            };
            let ghost outv = out@.map_values(|d: DistributionRange<'a>| (d.name@, d.range));
            out.push(d);
            y = y + 1;
            proof {
                assert(out@.map_values(|d: DistributionRange<'a>| (d.name@, d.range)) =~= outv + seq![(p.0@, d.range)]);
                lemma_then_shift(outv, seq![(p.0@, d.range)], parsed_ranges(all.skip(y as int)));
            }
        }
        proof {
            assert(all.skip(y as int) =~= Seq::<(Seq<char>, Seq<char>)>::empty());
            let outv = out@.map_values(|d: DistributionRange<'a>| (d.name@, d.range));
            assert(outv + Seq::<(Seq<char>, Range<SemanticVersion>)>::empty() =~= outv);
        }
        Ok(out)
    }

    /// Checks the manifest: every target must list its requirements. Gives the
    /// error of the first target that does not.
    pub fn validate(&self) -> (r: Result<(), PesError>)
        requires
            self.in_bounds(),
        ensures
            r is Ok <==> self.valid(),
            r matches Err(e) ==> first_target_error(self.target_map(), e),
    {
        let ghost tm = self.target_map();
        let n = target_map_len(&self.targets);
        let mut i: usize = 0;
        while i < n
            invariant
                n == tm.len(),
                tm == self.target_map(),
                self.in_bounds(),
                i <= n,
                forall|j: int| 0 <= j < i ==> requires_of(tm, (#[trigger] tm[j]).0) is Found,
            decreases n - i,
        {
            let (name, _) = target_map_get_index(&self.targets, i);
            match self.get_requires(name.as_str()) {
                Ok(_) => {},
                Err(e) => {
                    proof {
                        assert(first_target_error(tm, e)) by {
                            assert(requires_error(e, requires_of(tm, tm[i as int].0), tm[i as int].0));
                        }
                        assert(!self.valid()) by {
                            assert(!(requires_of(tm, tm[i as int].0) is Found));
                        }
                    }
                    return Err(e);
                },
            }
            i = i + 1;
        }
        Ok(())
    }

    /// Whether no range string of any target names a number beyond `u32`
    /// (`get_requires` and `validate` are for such manifests).
    pub fn ranges_in_bounds(&self) -> (b: bool)
        ensures
            b == self.in_bounds(),
    {
        targets_ranges_in_bounds(&self.targets)
    }

    /// The targets, by name.
    pub fn targets(&self) -> (r: &TargetMap)
        ensures
            target_entries(*r) == self.target_map(),
    {
        &self.targets
    }

    /// The environment settings, by variable name.
    pub fn environment(&self) -> (r: &EnvMap)
        ensures
            text_entries(*r) == self.environment_map(),
    {
        &self.environment
    }

    /// Add or replace target `name`.
    pub fn add_target(&mut self, name: &str, target: PackageTarget)
        ensures
            final(self).target_map() == map_insert(old(self).target_map(), name@, target.view()),
            final(self).environment_map() == old(self).environment_map(),
            final(self).name == old(self).name,
            final(self).version == old(self).version,
    {
        target_map_insert(&mut self.targets, name, target);
    }

    /// Add or replace the setting of environment variable `key`.
    pub fn add_environment(&mut self, key: &str, value: &str)
        ensures
            final(self).environment_map() == map_insert(old(self).environment_map(), key@, value@),
            final(self).target_map() == old(self).target_map(),
            final(self).name == old(self).name,
            final(self).version == old(self).version,
    {
        text_map_insert(&mut self.environment, key, value);
    }

    /// The distribution the manifest describes, `name-version`.
    pub fn distribution(&self) -> (s: String)
        ensures
            s@ == distribution_text(self.name@, self.version),
    {
        proof {
            reveal_strlit("-");
        }
        let mut s = self.name.clone();
        s.append("-");
        let v = self.version.to_string();
        s.append(v.as_str());
        s
    }
}

/// No range string of any target of `targets` names a number beyond `u32`.
pub open spec fn targets_in_bounds(targets: TargetEntries) -> bool {
    forall|i: int| 0 <= i < targets.len() ==> ranges_fit((#[trigger] targets[i]).1.1)
}

/// Whether no range string of any target names a number beyond `u32`.
pub fn targets_ranges_in_bounds(targets: &TargetMap) -> (b: bool)
    ensures
        b == targets_in_bounds(target_entries(*targets)),
{
    let ghost tm = target_entries(*targets);
    let n = target_map_len(targets);
    let mut i: usize = 0;
    while i < n
        invariant
            n == tm.len(),
            tm == target_entries(*targets),
            i <= n,
            forall|j: int| 0 <= j < i ==> ranges_fit((#[trigger] tm[j]).1.1),
        decreases n - i,
    {
        let (_, t) = target_map_get_index(targets, i);
        let m = text_map_len(&t.requirements);
        let mut x: usize = 0;
        while x < m
            invariant
                tm == target_entries(*targets),
                i < n,
                n == tm.len(),
                tm[i as int].1 == t.view(),
                m == t.requirements().len(),
                forall|j: int| 0 <= j < i ==> ranges_fit((#[trigger] tm[j]).1.1),
                x <= m,
                forall|q: int| 0 <= q < x ==> !overflows(
                    semver_range(#[trigger] t.requirements()[q].1, start(t.requirements()[q].1)),
                ),
            decreases m - x,
        {
            let (_, r) = text_map_get_index(&t.requirements, x);
            if range_overflows(r.as_str()) {
                proof {
                    let reqs = tm[i as int].1.1;
                    assert(reqs == t.requirements());
                    assert(overflows(semver_range(reqs[x as int].1, start(reqs[x as int].1))));
                    assert(!ranges_fit(tm[i as int].1.1));
                    assert(!targets_in_bounds(tm));
                }
                return false;
            }
            x = x + 1;
        }
        proof {
            assert(ranges_fit(tm[i as int].1.1));
        }
        i = i + 1;
    }
    true
}

/// A package manifest with the root directory of the package.
#[derive(Debug, PartialEq, Eq)]
pub struct Manifest {
    /// The root directory of the package
    pub root: String,
    /// The package manifest
    pub inner: PackageManifest,
}

impl Manifest {
    /// Construct from the package root and the package manifest.
    pub fn new(package_root: String, package_manifest: PackageManifest) -> (m: Self)
        ensures
            m.root == package_root,
            m.inner == package_manifest,
    {
        Self { root: package_root, inner: package_manifest }
    }

    /// The distribution the manifest describes, `name-version`.
    pub fn distribution(&self) -> (s: String)
        ensures
            s@ == distribution_text(self.inner.name@, self.inner.version),
    {
        self.inner.distribution()
    }

    /// The requirements of target `target` (see `PackageManifest::get_requires`).
    pub fn get_requires<'a>(&'a self, target: &str) -> (r: Result<Vec<DistributionRange<'a>>, PesError>)
        requires
            self.inner.in_bounds(),
        ensures
            requires_answer(r, requires_of(self.inner.target_map(), target@), target@),
    {
        self.inner.get_requires(target)
    }

    /// The root directory of the package.
    pub fn package_root(&self) -> (r: &str)
        ensures
            r@ == self.root@,
    {
        self.root.as_str()
    }

    /// The environment settings of the package.
    pub fn environment(&self) -> (r: &EnvMap)
        ensures
            text_entries(*r) == self.inner.environment_map(),
    {
        self.inner.environment()
    }

    /// Checks the package manifest, then that the package root exists
    /// (`root_exists`, as the file system tells).
    pub fn validate(&self, root_exists: bool) -> (r: Result<(), PesError>)
        requires
            self.inner.in_bounds(),
        ensures
            !self.inner.valid() ==> (r matches Err(e) && first_target_error(self.inner.target_map(), e)),
            self.inner.valid() && !root_exists ==> (r matches Err(PesError::MissingPath(p)) && p@
                == self.root@),
            self.inner.valid() && root_exists ==> r is Ok,
    {
        self.inner.validate()?;
        if !root_exists {
            Err(PesError::MissingPath(self.root.clone()))
        } else {
            Ok(())
        }
    }
}

impl MetadataProvider for PackageManifest {
    type Version = SemanticVersion;
    type Error = PesError;

    fn version(&self) -> (r: Result<SemanticVersion, PesError>)
        ensures
            r == Ok::<SemanticVersion, PesError>(self.version),
    {
        Ok(self.version)
    }

    fn name(&self) -> (r: Result<&str, PesError>)
        ensures
            r matches Ok(n) && n@ == self.name@,
    {
        Ok(self.name.as_str())
    }
}

} // verus!
