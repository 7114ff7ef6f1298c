//! The release type enumerates the kinds of releases the system supports and their
//! precedence: alpha, beta, release candidate (rc) and release, in that order.
use vstd::prelude::*;

use crate::error::PesError;

verus! {

/// The kind of a release: a release, or some form of pre-release.
/// The variants are listed in ascending order of precedence.
#[derive(Debug, Copy, Clone, PartialEq, Eq, Structural, PartialOrd, Ord, Hash)]
pub enum ReleaseType {
    Alpha,
    Beta,
    ReleaseCandidate,
    Release,
}

/// The character `c` turned to ASCII lower case is `d`.
pub open spec fn lowers_to(c: char, d: char) -> bool {
    c == d || ('A' as u32 <= c as u32 && c as u32 <= 'Z' as u32 && c as u32 + 32 == d as u32)
}

/// `s` equals the lower-case word `w` when ASCII letter case is ignored.
pub open spec fn equals_ignoring_case(s: Seq<char>, w: Seq<char>) -> bool {
    s.len() == w.len() && forall|k: int| 0 <= k < s.len() ==> lowers_to(#[trigger] s[k], w[k])
}

pub open spec fn word_release() -> Seq<char> {
    seq!['r', 'e', 'l', 'e', 'a', 's', 'e']
}

pub open spec fn word_rc() -> Seq<char> {
    seq!['r', 'c']
}

pub open spec fn word_release_candidate() -> Seq<char> {
    seq!['r', 'e', 'l', 'e', 'a', 's', 'e', 'c', 'a', 'n', 'd', 'i', 'd', 'a', 't', 'e']
}

pub open spec fn word_beta() -> Seq<char> {
    seq!['b', 'e', 't', 'a']
}

pub open spec fn word_alpha() -> Seq<char> {
    seq!['a', 'l', 'p', 'h', 'a']
}

/// The release type a name denotes, letter case ignored: the empty name and
/// "release" denote a release, "rc" and "releasecandidate" a release candidate,
/// "beta" and "alpha" those pre-releases.
pub open spec fn release_type_named(s: Seq<char>) -> Option<ReleaseType> {
    if s.len() == 0 || equals_ignoring_case(s, word_release()) {
        Some(ReleaseType::Release)
    } else if equals_ignoring_case(s, word_rc()) || equals_ignoring_case(
        s,
        word_release_candidate(),
    ) {
        Some(ReleaseType::ReleaseCandidate)
    } else if equals_ignoring_case(s, word_beta()) {
        Some(ReleaseType::Beta)
    } else if equals_ignoring_case(s, word_alpha()) {
        Some(ReleaseType::Alpha)
    } else {
        None
    }
}

impl ReleaseType {
    /// The position of a release type in precedence order.
    pub open spec fn rank(self) -> nat {
        match self {
            ReleaseType::Alpha => 0,
            ReleaseType::Beta => 1,
            ReleaseType::ReleaseCandidate => 2,
            ReleaseType::Release => 3,
        }
    }

    /// How a release type is written: nothing for a release, "rc", "beta", "alpha".
    pub open spec fn text(self) -> Seq<char> {
        match self {
            ReleaseType::Alpha => word_alpha(),
            ReleaseType::Beta => word_beta(),
            ReleaseType::ReleaseCandidate => word_rc(),
            ReleaseType::Release => Seq::empty(),
        }
    }

    /// The position of the release type in precedence order.
    pub fn rank_of(&self) -> (r: u8)
        ensures
            r as nat == self.rank(),
    {
        match self {
            ReleaseType::Alpha => 0,
            ReleaseType::Beta => 1,
            ReleaseType::ReleaseCandidate => 2,
            ReleaseType::Release => 3,
        }
    }

    /// Parses a release type name, ignoring letter case.
    pub fn from_str(input: &str) -> (r: Result<ReleaseType, PesError>)
        ensures
            match release_type_named(input@) {
                Some(rt) => r == Ok::<ReleaseType, PesError>(rt),
                None => r matches Err(PesError::UnknownReleaseType(msg)) && msg@ == input@,
            },
    {
        let empty = input.unicode_len() == 0;
        proof {
            reveal_strlit("release");
            reveal_strlit("rc");
            reveal_strlit("releasecandidate");
            reveal_strlit("beta");
            reveal_strlit("alpha");
            assert("release"@ =~= word_release());
            assert("rc"@ =~= word_rc());
            assert("releasecandidate"@ =~= word_release_candidate());
            assert("beta"@ =~= word_beta());
            assert("alpha"@ =~= word_alpha());
        }
        if empty || eq_ignoring_case(input, "release") {
            Ok(ReleaseType::Release)
        } else if eq_ignoring_case(input, "rc") || eq_ignoring_case(input, "releasecandidate") {
            Ok(ReleaseType::ReleaseCandidate)
        } else if eq_ignoring_case(input, "beta") {
            Ok(ReleaseType::Beta)
        } else if eq_ignoring_case(input, "alpha") {
            Ok(ReleaseType::Alpha)
        } else {
            Err(PesError::UnknownReleaseType(String::from_str(input)))
        }
    }

    /// The written form of the release type.
    pub fn to_string(&self) -> (s: String)
        ensures
            s@ == self.text(),
    {
        proof {
            reveal_strlit("alpha");
            reveal_strlit("beta");
            reveal_strlit("rc");
            reveal_strlit("");
        }
        match self {
            ReleaseType::Alpha => String::from_str("alpha"),
            ReleaseType::Beta => String::from_str("beta"),
            ReleaseType::ReleaseCandidate => String::from_str("rc"),
            ReleaseType::Release => String::new(),
        }
    }

    /// The release type of a release.
    pub fn release() -> (r: ReleaseType)
        ensures
            r == ReleaseType::Release,
    {
        ReleaseType::Release
    }
}

fn lowers_to_exec(c: char, d: char) -> (b: bool)
    ensures
        b == lowers_to(c, d),
{
    c == d || ('A' as u32 <= c as u32 && c as u32 <= 'Z' as u32 && c as u32 + 32 == d as u32)
}

fn eq_ignoring_case(s: &str, w: &str) -> (b: bool)
    ensures
        b == equals_ignoring_case(s@, w@),
{
    let n = s.unicode_len();
    if n != w.unicode_len() {
        return false;
    }
    let mut k: usize = 0;
    while k < n
        invariant
            n == s@.len(),
            n == w@.len(),
            k <= n,
            forall|j: int| 0 <= j < k ==> lowers_to(#[trigger] s@[j], w@[j]),
        decreases n - k,
    {
        if !lowers_to_exec(s.get_char(k), w.get_char(k)) {
            return false;
        }
        k = k + 1;
    }
    true
}

/// Writing a release type and reading it back gives the same release type.
pub proof fn lemma_release_type_text_roundtrip(rt: ReleaseType)
    ensures
        release_type_named(rt.text()) == Some(rt),
{
    assert(equals_ignoring_case(word_rc(), word_rc()));
    assert(equals_ignoring_case(word_beta(), word_beta()));
    assert(equals_ignoring_case(word_alpha(), word_alpha()));
    assert(!equals_ignoring_case(word_rc(), word_release()));
    assert(!equals_ignoring_case(word_beta(), word_release()));
    assert(!equals_ignoring_case(word_alpha(), word_release()));
    assert(!equals_ignoring_case(word_beta(), word_rc()));
    assert(!equals_ignoring_case(word_alpha(), word_rc()));
    assert(!equals_ignoring_case(word_beta(), word_release_candidate()));
    assert(!equals_ignoring_case(word_alpha(), word_release_candidate()));
    assert(!equals_ignoring_case(word_alpha(), word_beta()));
}

/// A kind of release type: the variant that stands for a release.
pub trait ReleaseTypeProvider: Sized + Copy {
    /// The variant that stands for a release.
    fn release() -> Self;
}

impl ReleaseTypeProvider for ReleaseType {
    fn release() -> (r: Self)
        ensures
            r == ReleaseType::Release,
    {
        ReleaseType::Release
    }
}

} // verus!
