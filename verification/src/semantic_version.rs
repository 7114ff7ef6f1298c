//! Semantic versions: major.minor.patch with a release type, e.g. `1.2.3` (a release)
//! or `1.2.3-beta`.
use vstd::prelude::*;

use crate::error::PesError;
use crate::release_type::{lemma_release_type_text_roundtrip, release_type_named, ReleaseType};
use crate::text::{
    chars_of, decimal, decimal_value, digit_value, is_digit, is_digit_char, lemma_decimal_roundtrip,
    push_decimal,
};

verus! {

/// A semantic version `major.minor.patch-release_type`.
/// Versions are ordered by major, then minor, then patch, then release type.
#[derive(Debug, Copy, Clone, PartialEq, Eq, Structural, PartialOrd, Ord, Hash)]
pub struct SemanticVersion {
    pub major: u32,
    pub minor: u32,
    pub patch: u32,
    pub release_type: ReleaseType,
}

impl SemanticVersion {
    /// `self` comes strictly before `other` in version order.
    pub open spec fn precedes(self, other: SemanticVersion) -> bool {
        ||| self.major < other.major
        ||| self.major == other.major && self.minor < other.minor
        ||| self.major == other.major && self.minor == other.minor && self.patch < other.patch
        ||| self.major == other.major && self.minor == other.minor && self.patch == other.patch
            && self.release_type.rank() < other.release_type.rank()
    }

    /// Whether `bump_release_type` stays within the `u32` range.
    pub open spec fn can_bump(self) -> bool {
        self.release_type != ReleaseType::Release || self.patch < u32::MAX
    }

    /// The version `bump_release_type` gives: the next release type, or for a
    /// release, the next patch.
    pub open spec fn bumped(self) -> SemanticVersion
        recommends
            self.can_bump(),
    {
        match self.release_type {
            ReleaseType::Release => SemanticVersion {
                patch: (self.patch + 1) as u32,
                ..self
            },
            ReleaseType::ReleaseCandidate => SemanticVersion {
                release_type: ReleaseType::Release,
                ..self
            },
            ReleaseType::Beta => SemanticVersion {
                release_type: ReleaseType::ReleaseCandidate,
                ..self
            },
            ReleaseType::Alpha => SemanticVersion { release_type: ReleaseType::Beta, ..self },
        }
    }

    /// How the version is written: `major.minor.patch`, followed by `-` and the
    /// release type for a pre-release.
    pub open spec fn text(self) -> Seq<char> {
        let core = decimal(self.major as nat) + seq!['.'] + decimal(self.minor as nat) + seq!['.']
            + decimal(self.patch as nat);
        if self.release_type == ReleaseType::Release {
            core
        } else {
            core + seq!['-'] + self.release_type.text()
        }
    }

    /// Create a version from its parts.
    #[verifier::allow_in_spec]
    pub fn new(major: u32, minor: u32, patch: u32, release_type: ReleaseType) -> Self
        returns
            (SemanticVersion { major, minor, patch, release_type }),
    {
        SemanticVersion { major, minor, patch, release_type }
    }

    /// Version 0.0.0.
    pub fn zero() -> (v: Self)
        ensures
            v == SemanticVersion::new(0, 0, 0, ReleaseType::Release),
    {
        Self::new(0, 0, 0, ReleaseType::Release)
    }

    /// Version 1.0.0.
    pub fn one() -> (v: Self)
        ensures
            v == SemanticVersion::new(1, 0, 0, ReleaseType::Release),
    {
        Self::new(1, 0, 0, ReleaseType::Release)
    }

    /// Version 2.0.0.
    pub fn two() -> (v: Self)
        ensures
            v == SemanticVersion::new(2, 0, 0, ReleaseType::Release),
    {
        Self::new(2, 0, 0, ReleaseType::Release)
    }

    /// The parts of the version as a tuple.
    pub fn into_tuple(self) -> (t: (u32, u32, u32, ReleaseType))
        ensures
            t == (self.major, self.minor, self.patch, self.release_type),
    {
        (self.major, self.minor, self.patch, self.release_type)
    }

    /// Bump up the release type. If the current release type is a release, bump the patch.
    pub fn bump_release_type(self) -> (v: Self)
        requires
            self.can_bump(),
        ensures
            v == self.bumped(),
    {
        match self.release_type {
            ReleaseType::Release => Self::new(
                self.major,
                self.minor,
                self.patch + 1,
                self.release_type,
            ),
            ReleaseType::ReleaseCandidate => Self::new(
                self.major,
                self.minor,
                self.patch,
                ReleaseType::Release,
            ),
            ReleaseType::Beta => Self::new(
                self.major,
                self.minor,
                self.patch,
                ReleaseType::ReleaseCandidate,
            ),
            ReleaseType::Alpha => Self::new(self.major, self.minor, self.patch, ReleaseType::Beta),
        }
    }

    /// Bump the patch number of a version.
    pub fn bump_patch(self) -> (v: Self)
        requires
            self.patch < u32::MAX,
        ensures
            v == SemanticVersion::new(self.major, self.minor, (self.patch + 1) as u32, self.release_type),
    {
        Self::new(self.major, self.minor, self.patch + 1, self.release_type)
    }

    /// Bump the minor number of a version, resetting the patch.
    pub fn bump_minor(self) -> (v: Self)
        requires
            self.minor < u32::MAX,
        ensures
            v == SemanticVersion::new(self.major, (self.minor + 1) as u32, 0, self.release_type),
    {
        Self::new(self.major, self.minor + 1, 0, self.release_type)
    }

    /// Bump the major number of a version, resetting minor and patch.
    pub fn bump_major(self) -> (v: Self)
        requires
            self.major < u32::MAX,
        ensures
            v == SemanticVersion::new((self.major + 1) as u32, 0, 0, self.release_type),
    {
        Self::new(self.major + 1, 0, 0, self.release_type)
    }

    /// The release of this version.
    pub fn release(self) -> (v: Self)
        ensures
            v == SemanticVersion::new(self.major, self.minor, self.patch, ReleaseType::Release),
    {
        Self::new(self.major, self.minor, self.patch, ReleaseType::Release)
    }

    /// The lowest version, 0.0.0 (as the solver sees it).
    pub fn lowest() -> (v: Self)
        ensures
            v == SemanticVersion::new(0, 0, 0, ReleaseType::Release),
    {
        Self::zero()
    }

    /// The next version as the solver sees it: see `bump_release_type`.
    pub fn bump(&self) -> (v: Self)
        requires
            self.can_bump(),
        ensures
            v == self.bumped(),
    {
        self.bump_release_type()
    }

    /// `self` comes strictly before `other`.
    pub fn is_before(&self, other: &SemanticVersion) -> (b: bool)
        ensures
            b == self.precedes(*other),
    {
        let r1 = self.release_type.rank_of();
        let r2 = other.release_type.rank_of();
        self.major < other.major || (self.major == other.major && self.minor < other.minor) || (
        self.major == other.major && self.minor == other.minor && self.patch < other.patch) || (
        self.major == other.major && self.minor == other.minor && self.patch == other.patch && r1
            < r2)
    }

    /// The written form of the version (see `text`).
    pub fn to_string(&self) -> (s: String)
        ensures
            s@ == self.text(),
    {
        proof {
            reveal_strlit(".");
            reveal_strlit("-");
        }
        let mut out = String::new();
        push_decimal(&mut out, self.major);
        out.append(".");
        push_decimal(&mut out, self.minor);
        out.append(".");
        push_decimal(&mut out, self.patch);
        if self.release_type != ReleaseType::Release {
            out.append("-");
            let rt = self.release_type.to_string();
            out.append(rt.as_str());
        }
        proof {
            assert(out@ =~= self.text());
        }
        out
    }

    /// Reads a version of the form `major.minor.patch` or `major.minor.patch-releasetype`.
    /// See `parsed_version` for what is accepted and which error is returned.
    pub fn from_str(s: &str) -> (r: Result<SemanticVersion, PesError>)
        ensures
            reads_version(r, s@),
    {
        let chars = chars_of(s);
        let n = chars.len();
        // split at '-'
        let dash = find_char(&chars, 0, '-');
        let version_end = match dash {
            Some(d) => d,
            None => n,
        };
        if let Some(d) = dash {
            if find_char(&chars, d + 1, '-').is_some() {
                proof {
                    assert(first_at(s@, 0, '-') == Some(d as int));
                    assert(first_at(s@, d + 1, '-') is Some);
                    assert(parsed_version(s@) == VersionText::Invalid);
                }
                return Err(PesError::InvalidSemanticVersion(String::from_str(s)));
            }
        }
        let mut rt = ReleaseType::Release;
        // split the version part at '.'
        let v = prefix_of(&chars, version_end);
        let a = match find_char(&v, 0, '.') {
            Some(a) => a,
            None => {
                return Err(PesError::InvalidSemanticVersion(String::from_str(s)));
            },
        };
        let b = match find_char(&v, a + 1, '.') {
            Some(b) => b,
            None => {
                return Err(PesError::InvalidSemanticVersion(String::from_str(s)));
            },
        };
        let c = match find_char(&v, b + 1, '.') {
            Some(c) => c,
            None => version_end,
        };
        proof {
            assert(v@.subrange(0, a as int) =~= s@.subrange(0, a as int));
            assert(v@.subrange(a + 1, b as int) =~= s@.subrange(a + 1, b as int));
            assert(v@.subrange(b + 1, c as int) =~= s@.subrange(b + 1, c as int));
        }
        let major = match parse_u32_part(&v, 0, a) {
            Ok(x) => x,
            Err(kind) => {
                return Err(part_error(s, &chars, 0, a, kind));
            },
        };
        let minor = match parse_u32_part(&v, a + 1, b) {
            Ok(x) => x,
            Err(kind) => {
                return Err(part_error(s, &chars, a + 1, b, kind));
            },
        };
        let patch = match parse_u32_part(&v, b + 1, c) {
            Ok(x) => x,
            Err(kind) => {
                return Err(part_error(s, &chars, b + 1, c, kind));
            },
        };
        if let Some(d) = dash {
            let name = s.substring_char(d + 1, n);
            match ReleaseType::from_str(name) {
                Ok(t) => {
                    rt = t;
                },
                Err(e) => {
                    return Err(e);
                },
            }
        }
        Ok(SemanticVersion::new(major, minor, patch, rt))
    }
}

// ------------------------------------------------------------------
// reading a version with `from_str`
// ------------------------------------------------------------------
/// Why a string is not a `u32`.
#[derive(Debug, Copy, Clone, PartialEq, Eq, Structural)]
pub enum IntErrorKind {
    /// The string is empty.
    Empty,
    /// The string holds a character that is not a digit (after an optional leading `+`).
    InvalidDigit,
    /// The number is larger than `u32::MAX`.
    PosOverflow,
}

/// The message of an integer parse error.
pub open spec fn int_error_message(kind: IntErrorKind) -> Seq<char> {
    match kind {
        IntErrorKind::Empty => "cannot parse integer from empty string"@,
        IntErrorKind::InvalidDigit => "invalid digit found in string"@,
        IntErrorKind::PosOverflow => "number too large to fit in target type"@,
    }
}

/// Reading digits from the left: the first non-digit is an invalid digit, unless the
/// value read so far already exceeded `u32::MAX`.
pub open spec fn scan_u32(d: Seq<char>, k: int) -> Result<nat, IntErrorKind>
    decreases k,
    when 0 <= k <= d.len()
{
    if k == 0 {
        Ok(0)
    } else {
        match scan_u32(d, k - 1) {
            Err(e) => Err(e),
            Ok(v) => if !is_digit(d[k - 1]) {
                Err(IntErrorKind::InvalidDigit)
            } else if v * 10 + digit_value(d[k - 1]) > u32::MAX {
                Err(IntErrorKind::PosOverflow)
            } else {
                Ok(v * 10 + digit_value(d[k - 1]))
            },
        }
    }
}

/// A string read as a `u32`: an optional leading `+` followed by decimal digits.
pub open spec fn parse_u32_text(p: Seq<char>) -> Result<u32, IntErrorKind> {
    if p.len() == 0 {
        Err(IntErrorKind::Empty)
    } else if p[0] == '+' && p.len() == 1 {
        Err(IntErrorKind::InvalidDigit)
    } else {
        let digits = if p[0] == '+' {
            p.drop_first()
        } else {
            p
        };
        match scan_u32(digits, digits.len() as int) {
            Ok(v) => Ok(v as u32),
            Err(e) => Err(e),
        }
    }
}

/// The outcome of reading a version with `from_str`.
pub enum VersionText {
    Version(SemanticVersion),
    /// The string does not have the shape of a version.
    Invalid,
    /// A numeric part is not a `u32`.
    BadPart(Seq<char>, IntErrorKind),
    /// The release type is not known.
    BadReleaseType(Seq<char>),
}

/// What reading `s` as a version gives (see `parsed_version`): the version, or the
/// error that says why `s` is not one.
pub open spec fn reads_version(r: Result<SemanticVersion, PesError>, s: Seq<char>) -> bool {
    match parsed_version(s) {
        VersionText::Version(v) => r == Ok::<SemanticVersion, PesError>(v),
        VersionText::Invalid => r matches Err(PesError::InvalidSemanticVersion(m)) && m@ == s,
        VersionText::BadPart(part, kind) => r matches Err(
            PesError::ParseIntError { full_version, version_part, parse_error },
        ) && full_version@ == s && version_part@ == part && parse_error@ == int_error_message(kind),
        VersionText::BadReleaseType(name) => r matches Err(PesError::UnknownReleaseType(m)) && m@
            == name,
    }
}

/// The position of the first `c` at or after `i`.
pub open spec fn first_at(s: Seq<char>, i: int, c: char) -> Option<int>
    decreases s.len() - i,
{
    if i < 0 || i >= s.len() {
        None
    } else if s[i] == c {
        Some(i)
    } else {
        first_at(s, i + 1, c)
    }
}

/// What `from_str` makes of a string. The string is split at `-`: one piece is the
/// version of a release, two pieces are a version and a release type name, more
/// are invalid. The version piece is split at `.`; fewer than three pieces are
/// invalid, pieces after the third are ignored. The three numbers are read in
/// order, then the release type name.
pub open spec fn parsed_version(s: Seq<char>) -> VersionText {
    let dash = first_at(s, 0, '-');
    let vend = match dash {
        Some(d) => d,
        None => s.len() as int,
    };
    let v = s.subrange(0, vend);
    if dash is Some && first_at(s, vend + 1, '-') is Some {
        VersionText::Invalid
    } else {
        match first_at(v, 0, '.') {
            None => VersionText::Invalid,
            Some(a) => match first_at(v, a + 1, '.') {
                None => VersionText::Invalid,
                Some(b) => {
                    let c = match first_at(v, b + 1, '.') {
                        Some(c) => c,
                        None => vend,
                    };
                    let p0 = v.subrange(0, a);
                    let p1 = v.subrange(a + 1, b);
                    let p2 = v.subrange(b + 1, c);
                    match (parse_u32_text(p0), parse_u32_text(p1), parse_u32_text(p2)) {
                        (Err(k), _, _) => VersionText::BadPart(p0, k),
                        (Ok(_), Err(k), _) => VersionText::BadPart(p1, k),
                        (Ok(_), Ok(_), Err(k)) => VersionText::BadPart(p2, k),
                        (Ok(x), Ok(y), Ok(z)) => {
                            if dash is Some {
                                let name = s.subrange(vend + 1, s.len() as int);
                                match release_type_named(name) {
                                    Some(rt) => VersionText::Version(
                                        SemanticVersion {
                                            major: x,
                                            minor: y,
                                            patch: z,
                                            release_type: rt,
                                        },
                                    ),
                                    None => VersionText::BadReleaseType(name),
                                }
                            } else {
                                VersionText::Version(
                                    SemanticVersion {
                                        major: x,
                                        minor: y,
                                        patch: z,
                                        release_type: ReleaseType::Release,
                                    },
                                )
                            }
                        },
                    }
                },
            },
        }
    }
}

pub proof fn lemma_find_char(s: Seq<char>, i: int, c: char)
    requires
        0 <= i,
    ensures
        first_at(s, i, c) matches Some(k) ==> i <= k < s.len() && s[k] == c && forall|j: int|
            i <= j < k ==> s[j] != c,
        first_at(s, i, c) is None ==> forall|j: int| i <= j < s.len() ==> s[j] != c,
    decreases s.len() - i,
{
    if i < s.len() && s[i] != c {
        lemma_find_char(s, i + 1, c);
    }
}

fn prefix_of(s: &Vec<char>, n: usize) -> (r: Vec<char>)
    requires
        n <= s@.len(),
    ensures
        r@ == s@.subrange(0, n as int),
{
    let mut r: Vec<char> = Vec::new();
    let mut k: usize = 0;
    while k < n
        invariant
            k <= n <= s@.len(),
            r@ == s@.subrange(0, k as int),
        decreases n - k,
    {
        r.push(s[k]);
        k = k + 1;
        assert(r@ =~= s@.subrange(0, k as int));
    }
    r
}

fn find_char(s: &Vec<char>, i: usize, c: char) -> (r: Option<usize>)
    requires
        i <= s@.len(),
    ensures
        r matches Some(k) ==> first_at(s@, i as int, c) == Some(k as int),
        r is None ==> first_at(s@, i as int, c) is None,
        r matches Some(k) ==> i <= k < s@.len() && s@[k as int] == c,
{
    proof {
        lemma_find_char(s@, i as int, c);
    }
    let mut j = i;
    while j < s.len()
        invariant
            i <= j <= s@.len(),
            first_at(s@, i as int, c) == first_at(s@, j as int, c),
        decreases s@.len() - j,
    {
        if s[j] == c {
            return Some(j);
        }
        j = j + 1;
    }
    None
}

fn parse_u32_part(s: &Vec<char>, from: usize, to: usize) -> (r: Result<u32, IntErrorKind>)
    requires
        from <= to <= s@.len(),
    ensures
        r == parse_u32_text(s@.subrange(from as int, to as int)),
{
    let ghost p = s@.subrange(from as int, to as int);
    if from == to {
        return Err(IntErrorKind::Empty);
    }
    let mut start = from;
    if s[from] == '+' {
        if to == from + 1 {
            return Err(IntErrorKind::InvalidDigit);
        }
        start = from + 1;
    }
    let ghost digits = s@.subrange(start as int, to as int);
    proof {
        if s@[from as int] == '+' {
            assert(digits =~= p.drop_first());
        } else {
            assert(digits =~= p);
        }
    }
    let mut k = start;
    let mut acc: u32 = 0;
    proof {
        assert(parse_u32_text(p) == (match scan_u32(digits, digits.len() as int) {
            Ok(v) => Ok(v as u32),
            Err(e) => Err(e),
        }));
    }
    while k < to
        invariant
            start <= k <= to <= s@.len(),
            digits == s@.subrange(start as int, to as int),
            p == s@.subrange(from as int, to as int),
            parse_u32_text(p) == (match scan_u32(digits, digits.len() as int) {
                Ok(v) => Ok(v as u32),
                Err(e) => Err(e),
            }),
            scan_u32(digits, (k - start) as int) == Ok::<nat, IntErrorKind>(acc as nat),
        decreases to - k,
    {
        let ch = s[k];
        proof {
            assert(digits[(k - start) as int] == ch);
            assert(scan_u32(digits, (k - start + 1) as int) == (if !is_digit(ch) {
                Err(IntErrorKind::InvalidDigit)
            } else if (acc as nat) * 10 + digit_value(ch) > u32::MAX {
                Err(IntErrorKind::PosOverflow)
            } else {
                Ok::<nat, IntErrorKind>((acc as nat) * 10 + digit_value(ch))
            }));
        }
        if !is_digit_char(ch) {
            proof {
                lemma_scan_u32_sticky(digits, (k - start + 1) as int);
            }
            return Err(IntErrorKind::InvalidDigit);
        }
        let wide: u64 = acc as u64 * 10 + (ch as u32 - '0' as u32) as u64;
        if wide > u32::MAX as u64 {
            proof {
                lemma_scan_u32_sticky(digits, (k - start + 1) as int);
            }
            return Err(IntErrorKind::PosOverflow);
        }
        acc = wide as u32;
        k = k + 1;
    }
    Ok(acc)
}

/// Once reading fails, it fails with the same error to the end.
proof fn lemma_scan_u32_sticky(d: Seq<char>, k: int)
    requires
        0 <= k <= d.len(),
        scan_u32(d, k) is Err,
    ensures
        scan_u32(d, d.len() as int) == scan_u32(d, k),
    decreases d.len() - k,
{
    if k < d.len() {
        assert(scan_u32(d, k + 1) == scan_u32(d, k));
        lemma_scan_u32_sticky(d, k + 1);
    }
}

// ------------------------------------------------------------------
// laws
// ------------------------------------------------------------------
/// Version order is a strict total order: irreflexive, transitive, and any two
/// different versions are ordered one way or the other.
pub proof fn lemma_precedes_strict_total_order(a: SemanticVersion, b: SemanticVersion, c: SemanticVersion)
    ensures
        !a.precedes(a),
        a.precedes(b) && b.precedes(c) ==> a.precedes(c),
        a != b ==> a.precedes(b) || b.precedes(a),
        a.precedes(b) ==> !b.precedes(a),
{
    if a != b && a.major == b.major && a.minor == b.minor && a.patch == b.patch {
        assert(a.release_type != b.release_type);
        assert(a.release_type.rank() != b.release_type.rank());
    }
}

/// Bumping a version gives a strictly later version.
pub proof fn lemma_bump_increases(v: SemanticVersion)
    requires
        v.can_bump(),
    ensures
        v.precedes(v.bumped()),
{
}

/// For a pre-release, the bumped version is the next one: no version lies strictly
/// between them. (For a release `1.2.3`, bumped to `1.2.4`, the pre-release
/// `1.2.4-alpha` lies between, so the law is stated for pre-releases.)
pub proof fn lemma_bump_is_next_for_prerelease(v: SemanticVersion, w: SemanticVersion)
    requires
        v.release_type != ReleaseType::Release,
        v.precedes(w),
    ensures
        !w.precedes(v.bumped()),
{
}

/// The lowest version, `0.0.0`, comes before every other version except the
/// pre-releases of `0.0.0`.
pub proof fn lemma_lowest_is_least(w: SemanticVersion)
    requires
        !(w.major == 0 && w.minor == 0 && w.patch == 0),
    ensures
        SemanticVersion::new(0, 0, 0, ReleaseType::Release).precedes(w),
{
}

/// `first_at` finds `c` at `k` when `k` holds the first `c` from `i` on.
pub proof fn lemma_first_at_found(s: Seq<char>, i: int, k: int, c: char)
    requires
        0 <= i <= k < s.len(),
        s[k] == c,
        forall|j: int| i <= j < k ==> s[j] != c,
    ensures
        first_at(s, i, c) == Some(k),
    decreases k - i,
{
    if i < k {
        lemma_first_at_found(s, i + 1, k, c);
    }
}

/// `first_at` finds nothing when no `c` occurs from `i` on.
pub proof fn lemma_first_at_absent(s: Seq<char>, i: int, c: char)
    requires
        0 <= i,
        forall|j: int| i <= j < s.len() ==> s[j] != c,
    ensures
        first_at(s, i, c) is None,
    decreases s.len() - i,
{
    if i < s.len() {
        lemma_first_at_absent(s, i + 1, c);
    }
}

/// A prefix of a string of digits has at most its value.
proof fn lemma_decimal_value_prefix(d: Seq<char>, k: int)
    requires
        0 <= k <= d.len(),
    ensures
        decimal_value(d.subrange(0, k)) <= decimal_value(d),
    decreases d.len() - k,
{
    if k < d.len() {
        lemma_decimal_value_prefix(d, k + 1);
        let p = d.subrange(0, k + 1);
        assert(p.drop_last() =~= d.subrange(0, k));
    } else {
        assert(d.subrange(0, k) =~= d);
    }
}

/// Digits whose value fits read as that value.
proof fn lemma_scan_u32_digits(d: Seq<char>, k: int)
    requires
        0 <= k <= d.len(),
        forall|j: int| 0 <= j < d.len() ==> is_digit(#[trigger] d[j]),
        decimal_value(d) <= u32::MAX,
    ensures
        scan_u32(d, k) == Ok::<nat, IntErrorKind>(decimal_value(d.subrange(0, k))),
    decreases k,
{
    if k > 0 {
        lemma_scan_u32_digits(d, k - 1);
        lemma_decimal_value_prefix(d, k);
        let p = d.subrange(0, k);
        assert(p.drop_last() =~= d.subrange(0, k - 1));
        assert(p.last() == d[k - 1]);
    } else {
        assert(d.subrange(0, 0) =~= Seq::<char>::empty());
    }
}

/// The numeral of a `u32` reads back as that `u32`.
proof fn lemma_parse_u32_numeral(n: u32)
    ensures
        parse_u32_text(decimal(n as nat)) == Ok::<u32, IntErrorKind>(n),
{
    let d = decimal(n as nat);
    lemma_decimal_roundtrip(n as nat);
    lemma_scan_u32_digits(d, d.len() as int);
    assert(d.subrange(0, d.len() as int) =~= d);
    assert(is_digit(d[0]));
}

/// A written version reads back as the same version: `from_str` undoes `to_string`.
pub proof fn lemma_version_text_roundtrip(v: SemanticVersion)
    ensures
        parsed_version(v.text()) == VersionText::Version(v),
{
    let d0 = decimal(v.major as nat);
    let d1 = decimal(v.minor as nat);
    let d2 = decimal(v.patch as nat);
    lemma_decimal_roundtrip(v.major as nat);
    lemma_decimal_roundtrip(v.minor as nat);
    lemma_decimal_roundtrip(v.patch as nat);
    lemma_parse_u32_numeral(v.major);
    lemma_parse_u32_numeral(v.minor);
    lemma_parse_u32_numeral(v.patch);
    let core = d0 + seq!['.'] + d1 + seq!['.'] + d2;
    let a = d0.len() as int;
    let b = a + 1 + d1.len();
    let l = b + 1 + d2.len();
    assert(core.len() == l);
    assert forall|j: int| 0 <= j < l && j != a && j != b implies is_digit(#[trigger] core[j]) by {
        if j < a {
            assert(core[j] == d0[j]);
        } else if j < b {
            assert(core[j] == d1[j - a - 1]);
        } else {
            assert(core[j] == d2[j - b - 1]);
        }
    }
    assert(core[a] == '.');
    assert(core[b] == '.');
    assert(core.subrange(0, a) =~= d0);
    assert(core.subrange(a + 1, b) =~= d1);
    assert(core.subrange(b + 1, l) =~= d2);
    let t = v.text();
    assert(t.subrange(0, l) =~= core);
    assert forall|j: int| 0 <= j < l implies #[trigger] t[j] != '-' by {
        assert(t[j] == core[j]);
        if j != a && j != b {
            assert(is_digit(core[j]));
        }
    }
    lemma_first_at_found(core, 0, a, '.');
    lemma_first_at_found(core, a + 1, b, '.');
    lemma_first_at_absent(core, b + 1, '.');
    if v.release_type == ReleaseType::Release {
        assert(t =~= core);
        lemma_first_at_absent(t, 0, '-');
    } else {
        let name = v.release_type.text();
        assert(t =~= core + seq!['-'] + name);
        assert(t[l] == '-');
        lemma_first_at_found(t, 0, l, '-');
        assert forall|j: int| l + 1 <= j < t.len() implies #[trigger] t[j] != '-' by {
            assert(t[j] == name[j - l - 1]);
        }
        lemma_first_at_absent(t, l + 1, '-');
        assert(t.subrange(l + 1, t.len() as int) =~= name);
        lemma_release_type_text_roundtrip(v.release_type);
    }
}

fn int_error_text(kind: IntErrorKind) -> (s: String)
    ensures
        s@ == int_error_message(kind),
{
    proof {
        reveal_strlit("cannot parse integer from empty string");
        reveal_strlit("invalid digit found in string");
        reveal_strlit("number too large to fit in target type");
    }
    match kind {
        IntErrorKind::Empty => String::from_str("cannot parse integer from empty string"),
        IntErrorKind::InvalidDigit => String::from_str("invalid digit found in string"),
        IntErrorKind::PosOverflow => String::from_str("number too large to fit in target type"),
    }
}

fn part_error(s: &str, chars: &Vec<char>, from: usize, to: usize, kind: IntErrorKind) -> (e:
    PesError)
    requires
        chars@ == s@,
        from <= to <= s@.len(),
    ensures
        e matches PesError::ParseIntError { full_version, version_part, parse_error }
            && full_version@ == s@ && version_part@ == s@.subrange(from as int, to as int)
            && parse_error@ == int_error_message(kind),
{
    PesError::ParseIntError {
        full_version: String::from_str(s),
        version_part: String::from_str(s.substring_char(from, to)),
        parse_error: int_error_text(kind),
    }
}

} // verus!
