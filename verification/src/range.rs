//! Version ranges as the solver uses them: the empty range, the range of every
//! version from the lowest one up, and half-open intervals `[low, high)`.
use vstd::prelude::*;

use crate::error::PesError;
use crate::parser::grammar::{consuming, semver_range, start};
use crate::parser::outcome::{overflows, reads_all};
use crate::parser::parse_consuming_semver_range;
use crate::release_type::ReleaseType;
use crate::semantic_version::SemanticVersion;
use crate::variant::Variant;

verus! {

/// A range of versions.
#[derive(Debug, Copy, Clone, PartialEq, Eq, Structural)]
pub enum Range<V> {
    /// No version.
    Empty,
    /// Every version from the lowest version up.
    Any,
    /// The versions `v` with `low <= v < high`; `low` comes strictly before `high`.
    Between(V, V),
}

/// A range of semantic versions.
pub type SemVerRange = Range<SemanticVersion>;

/// A range of variants of semantic versions.
pub type VariantRange = Range<Variant<SemanticVersion>>;

/// What a range needs of the versions it holds: an order, the lowest version and
/// the next version.
pub trait Version: Sized + Copy {
    /// `self` comes strictly before `other`.
    spec fn before(self, other: Self) -> bool;

    /// Whether `next` stays within range.
    spec fn can_step(self) -> bool;

    /// The next version.
    spec fn next(self) -> Self;

    /// The lowest version.
    spec fn least() -> Self;

    /// `self` comes strictly before `other`.
    fn comes_before(&self, other: &Self) -> (b: bool)
        ensures
            b == self.before(*other),
    ;

    /// The next version.
    fn next_version(&self) -> (v: Self)
        requires
            self.can_step(),
        ensures
            v == self.next(),
    ;

    /// The lowest version.
    fn lowest_version() -> (v: Self)
        ensures
            v == Self::least(),
    ;
}

impl Version for SemanticVersion {
    open spec fn before(self, other: Self) -> bool {
        self.precedes(other)
    }

    open spec fn can_step(self) -> bool {
        self.can_bump()
    }

    open spec fn next(self) -> Self {
        self.bumped()
    }

    open spec fn least() -> Self {
        SemanticVersion::new(0, 0, 0, ReleaseType::Release)
    }

    fn comes_before(&self, other: &Self) -> (b: bool) {
        self.is_before(other)
    }

    fn next_version(&self) -> (v: Self) {
        self.bump()
    }

    fn lowest_version() -> (v: Self) {
        SemanticVersion::lowest()
    }
}

impl Version for Variant<SemanticVersion> {
    open spec fn before(self, other: Self) -> bool {
        self.precedes(other)
    }

    open spec fn can_step(self) -> bool {
        self.can_bump()
    }

    open spec fn next(self) -> Self {
        self.bumped()
    }

    open spec fn least() -> Self {
        Variant::new(SemanticVersion::new(0, 0, 0, ReleaseType::Release), 0)
    }

    fn comes_before(&self, other: &Self) -> (b: bool) {
        self.is_before(other)
    }

    fn next_version(&self) -> (v: Self) {
        self.bump()
    }

    fn lowest_version() -> (v: Self) {
        Variant::lowest()
    }
}

impl<V: Version> Range<V> {
    /// The interval bounds are ordered.
    pub open spec fn well_formed(self) -> bool {
        self matches Range::Between(low, high) ==> low.before(high)
    }

    /// The versions the range holds.
    pub open spec fn contains(self, v: V) -> bool {
        match self {
            Range::Empty => false,
            Range::Any => !v.before(V::least()),
            Range::Between(low, high) => !v.before(low) && v.before(high),
        }
    }

    /// The empty range.
    #[verifier::allow_in_spec]
    pub fn none() -> Self
        returns
            Range::<V>::Empty,
    {
        Range::Empty
    }

    /// Every version.
    #[verifier::allow_in_spec]
    pub fn any() -> Self
        returns
            Range::<V>::Any,
    {
        Range::Any
    }

    /// The range of one version: from it up to the next version the solver knows,
    /// `[v, next(v))`.
    #[verifier::allow_in_spec]
    pub fn exact(v: V) -> Self
        requires
            v.can_step(),
        returns
            Range::Between(v, v.next()),
    {
        Range::Between(v, v.next_version())
    }

    /// The versions from `v1` (included) to `v2` (excluded); empty unless `v1 < v2`.
    #[verifier::allow_in_spec]
    pub fn between(v1: V, v2: V) -> Self
        returns
            (if v1.before(v2) {
                Range::Between(v1, v2)
            } else {
                Range::<V>::Empty
            }),
    {
        if v1.comes_before(&v2) {
            Range::Between(v1, v2)
        } else {
            Range::Empty
        }
    }

    /// Whether the range holds `v`.
    pub fn holds(&self, v: &V) -> (b: bool)
        ensures
            b == self.contains(*v),
    {
        match self {
            Range::Empty => false,
            Range::Any => !v.comes_before(&V::lowest_version()),
            Range::Between(low, high) => !v.comes_before(low) && v.comes_before(high),
        }
    }
}

impl Range<SemanticVersion> {
    /// Reads a range of versions that makes up the whole of `value`, apart from
    /// white space around it (see `parse_consuming_semver_range`).
    pub fn frm_str(value: &str) -> (r: Result<Self, PesError>)
        requires
            !overflows(semver_range(value@, start(value@))),
        ensures
            reads_all(
                r,
                value@,
                consuming(value@, semver_range(value@, start(value@))),
                "parse_consuming_semver_range"@,
            ),
    {
        parse_consuming_semver_range(value)
    }
}

/// The range of exactly a version holds that version; for a pre-release it holds
/// nothing else. (The range of the release `1.2.3` is `[1.2.3, 1.2.4)`, which also
/// holds the pre-release `1.2.4-alpha`.)
pub proof fn lemma_exact_range(v: SemanticVersion, w: SemanticVersion)
    requires
        v.can_bump(),
    ensures
        Range::exact(v).contains(v),
        v.release_type != ReleaseType::Release ==> (Range::exact(v).contains(w) <==> w == v),
{
    crate::semantic_version::lemma_bump_increases(v);
    crate::semantic_version::lemma_precedes_strict_total_order(v, w, v);
    if v.release_type != ReleaseType::Release && Range::exact(v).contains(w) && w != v {
        crate::semantic_version::lemma_bump_is_next_for_prerelease(v, w);
    }
}

/// A range between two versions holds exactly the versions from the first
/// (included) to the second (excluded).
pub proof fn lemma_between_range(low: SemanticVersion, high: SemanticVersion, w: SemanticVersion)
    ensures
        Range::between(low, high).contains(w) <==> (!w.precedes(low) && w.precedes(high)),
{
    crate::semantic_version::lemma_precedes_strict_total_order(low, w, high);
    crate::semantic_version::lemma_precedes_strict_total_order(w, low, high);
}

} // verus!
