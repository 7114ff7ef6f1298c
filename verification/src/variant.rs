//! A variant is a version together with a variant index, written `1.2.3@0`.
use vstd::prelude::*;

use crate::constants::MAX_VARIANTS;
use crate::range::{Range, Version};

use crate::release_type::ReleaseType;
use crate::semantic_version::SemanticVersion;
use crate::text::{decimal, push_decimal};

verus! {

/// A version with a variant index. Variants are ordered by version, then index.
#[derive(Debug, Copy, Clone, PartialEq, Eq, Structural, PartialOrd, Ord, Hash)]
pub struct Variant<T> {
    pub version: T,
    pub index: u8,
}

impl Variant<SemanticVersion> {
    /// `self` comes strictly before `other`: by version, then by index.
    pub open spec fn precedes(self, other: Variant<SemanticVersion>) -> bool {
        self.version.precedes(other.version) || (self.version == other.version && self.index
            < other.index)
    }

    /// Whether `bump` stays within range.
    pub open spec fn can_bump(self) -> bool {
        self.version.can_bump()
    }

    /// The next variant as the solver sees it: the next version, same index.
    pub open spec fn bumped(self) -> Variant<SemanticVersion> {
        Variant { version: self.version.bumped(), index: self.index }
    }

    /// How a variant is written: the version, `@` and the index.
    pub open spec fn text(self) -> Seq<char> {
        self.version.text() + seq!['@'] + decimal(self.index as nat)
    }

    /// Create a variant of a version.
    #[verifier::allow_in_spec]
    pub fn new(semver: SemanticVersion, index: u8) -> Self
        returns
            (Variant { version: semver, index }),
    {
        Variant { version: semver, index }
    }

    pub fn major(&self) -> (r: u32)
        ensures
            r == self.version.major,
    {
        self.version.major
    }

    pub fn minor(&self) -> (r: u32)
        ensures
            r == self.version.minor,
    {
        self.version.minor
    }

    pub fn patch(&self) -> (r: u32)
        ensures
            r == self.version.patch,
    {
        self.version.patch
    }

    pub fn index(&self) -> (r: u8)
        ensures
            r == self.index,
    {
        self.index
    }

    pub fn release_type(&self) -> (r: ReleaseType)
        ensures
            r == self.version.release_type,
    {
        self.version.release_type
    }

    /// Version 0.0.0, index 0.
    pub fn zero() -> (v: Self)
        ensures
            v == Variant::new(SemanticVersion::new(0, 0, 0, ReleaseType::Release), 0),
    {
        Variant { version: SemanticVersion::new(0, 0, 0, ReleaseType::Release), index: 0 }
    }

    /// Version 1.0.0, index 0.
    pub fn one() -> (v: Self)
        ensures
            v == Variant::new(SemanticVersion::new(1, 0, 0, ReleaseType::Release), 0),
    {
        Variant { version: SemanticVersion::new(1, 0, 0, ReleaseType::Release), index: 0 }
    }

    /// Version 2.0.0, index 0.
    pub fn two() -> (v: Self)
        ensures
            v == Variant::new(SemanticVersion::new(2, 0, 0, ReleaseType::Release), 0),
    {
        Variant { version: SemanticVersion::new(2, 0, 0, ReleaseType::Release), index: 0 }
    }

    /// The lowest variant as the solver sees it: version 0.0.0, index 0.
    pub fn lowest() -> (v: Self)
        ensures
            v == Variant::new(SemanticVersion::new(0, 0, 0, ReleaseType::Release), 0),
    {
        Self::zero()
    }

    /// The default variant: version 0.0.0, index 0.
    pub fn default() -> (v: Self)
        ensures
            v == Variant::new(SemanticVersion::new(0, 0, 0, ReleaseType::Release), 0),
    {
        Self::zero()
    }

    /// Bump up the release type of the version (see `SemanticVersion::bump_release_type`).
    pub fn bump_release_type(self) -> (v: Self)
        requires
            self.version.can_bump(),
        ensures
            v == Variant::new(self.version.bumped(), self.index),
    {
        let version = self.version.bump_release_type();
        Self::new(version, self.index)
    }

    /// The next variant as the solver sees it: see `bump_release_type`.
    pub fn bump(&self) -> (v: Self)
        requires
            self.can_bump(),
        ensures
            v == self.bumped(),
    {
        let version = self.version.bump();
        Self::new(version, self.index)
    }

    /// Bump the patch number of the version.
    pub fn bump_patch(self) -> (v: Self)
        requires
            self.version.patch < u32::MAX,
        ensures
            v == Variant::new(
                SemanticVersion::new(
                    self.version.major,
                    self.version.minor,
                    (self.version.patch + 1) as u32,
                    self.version.release_type,
                ),
                self.index,
            ),
    {
        Variant { version: self.version.bump_patch(), index: self.index }
    }

    /// Bump the minor number of the version.
    pub fn bump_minor(self) -> (v: Self)
        requires
            self.version.minor < u32::MAX,
        ensures
            v == Variant::new(
                SemanticVersion::new(
                    self.version.major,
                    (self.version.minor + 1) as u32,
                    0,
                    self.version.release_type,
                ),
                self.index,
            ),
    {
        Variant { version: self.version.bump_minor(), index: self.index }
    }

    /// Bump the major number of the version.
    pub fn bump_major(self) -> (v: Self)
        requires
            self.version.major < u32::MAX,
        ensures
            v == Variant::new(
                SemanticVersion::new((self.version.major + 1) as u32, 0, 0, self.version.release_type),
                self.index,
            ),
    {
        Variant { version: self.version.bump_major(), index: self.index }
    }

    /// The same variant of the release of the version.
    pub fn release(self) -> (v: Self)
        ensures
            v == Variant::new(
                SemanticVersion::new(
                    self.version.major,
                    self.version.minor,
                    self.version.patch,
                    ReleaseType::Release,
                ),
                self.index,
            ),
    {
        Variant { version: self.version.release(), index: self.index }
    }

    /// Increment the variant index.
    pub fn bump_index(self) -> (v: Self)
        requires
            self.index < u8::MAX,
        ensures
            v == Variant::new(self.version, (self.index + 1) as u8),
    {
        Variant { version: self.version, index: self.index + 1 }
    }

    /// `self` comes strictly before `other`.
    pub fn is_before(&self, other: &Variant<SemanticVersion>) -> (b: bool)
        ensures
            b == self.precedes(*other),
    {
        self.version.is_before(&other.version) || (self.version == other.version && self.index
            < other.index)
    }

    /// The written form of the variant (see `text`).
    pub fn to_string(&self) -> (s: String)
        ensures
            s@ == self.text(),
    {
        proof {
            reveal_strlit("@");
        }
        let mut out = self.version.to_string();
        out.append("@");
        push_decimal(&mut out, self.index as u32);
        out
    }
}

/// Bumping a variant gives a strictly later variant.
pub proof fn lemma_variant_bump_increases(v: Variant<SemanticVersion>)
    requires
        v.can_bump(),
    ensures
        v.precedes(v.bumped()),
{
}

/// The range of all variants of a version, `[v@0, v@MAX_VARIANTS)`, holds every
/// variant of it with a smaller index, and no variant of another version.
pub proof fn lemma_implicit_variant_range(v: SemanticVersion, x: Variant<SemanticVersion>)
    ensures
        Range::between(Variant::new(v, 0), Variant::new(v, MAX_VARIANTS)).contains(x) <==> (
        x.version == v && x.index < MAX_VARIANTS),
{
    crate::semantic_version::lemma_precedes_strict_total_order(v, x.version, v);
}

} // verus!
