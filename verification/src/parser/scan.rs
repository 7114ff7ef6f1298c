//! Executable readers for the grammar of `grammar.rs`, over a vector of characters.
use vstd::prelude::*;

use crate::constants::MAX_VARIANTS;
use crate::parser::grammar::{
    agrees, agrees_named, caret_explicit_variant_range, caret_implicit_variant_range, caret_upper,
    caret_variant_semver_range, carrot, carrot_upper, char_at, number_or_zero, numbers,
    numbers_fit, package_range, package_variant, package_variants, package_variants_range,
    package_version, prerelease, semver, semver_between, semver_exact, semver_range,
    semver_variants_between, semver_with_implicit_variant_range, tag_alpha, tag_beta, tag_dots,
    tag_rc, tag_release_candidate, tag_up_to, variant_index, variant_or_default, variant_semver,
    variant_semver_exact_range, version_of, Halt, fail_at, halt_within,
};
use crate::error::ErrorKind;
use crate::range::Range;
use crate::release_type::ReleaseType;
use crate::semantic_version::SemanticVersion;
use crate::text::{
    blank_end, decimal_value, digits_end, has_tag, is_alpha_char, is_digit_char,
    is_word_char_exec, lemma_blank_end_bounds, lemma_digits_end_bounds, lemma_multispace_end_bounds,
    lemma_spaces_end_bounds, lemma_word_chars_end_bounds, multispace_end, scan_number, spaces_end,
    word_chars_end, word_end,
};
use crate::variant::Variant;

verus! {

/// `t` occurs in `s` at `i`.
pub fn tag_at(s: &Vec<char>, i: usize, t: &str) -> (b: bool)
    ensures
        b == has_tag(s@, i as int, t@),
{
    let n = t.unicode_len();
    if i > s.len() || n > s.len() - i {
        return false;
    }
    let mut k: usize = 0;
    while k < n
        invariant
            n == t@.len(),
            i + n <= s@.len(),
            s@.len() == s.len(),
            k <= n,
            forall|j: int| 0 <= j < k ==> s@[i + j] == #[trigger] t@[j],
        decreases n - k,
    {
        if s[i + k] != t.get_char(k) {
            proof {
                assert(s@.subrange(i as int, i + n)[k as int] != t@[k as int]);
            }
            return false;
        }
        k = k + 1;
    }
    proof {
        assert(s@.subrange(i as int, i + n) =~= t@);
    }
    true
}

/// The character at `i` is `c`.
pub fn char_is(s: &Vec<char>, i: usize, c: char) -> (b: bool)
    ensures
        b == char_at(s@, i as int, c),
{
    i < s.len() && s[i] == c
}

/// The end of the run of white space from `i`.
pub fn skip_multispace(s: &Vec<char>, i: usize) -> (e: usize)
    requires
        i <= s.len(),
    ensures
        e as int == multispace_end(s@, i as int),
        i <= e <= s@.len(),
{
    proof {
        lemma_multispace_end_bounds(s@, i as int);
    }
    let mut j = i;
    while j < s.len() && (s[j] == ' ' || s[j] == '\t' || s[j] == '\n' || s[j] == '\r')
        invariant
            i <= j <= s@.len(),
            multispace_end(s@, i as int) == multispace_end(s@, j as int),
        decreases s@.len() - j,
    {
        j = j + 1;
    }
    j
}

/// The end of the run of spaces from `i`.
pub fn skip_spaces(s: &Vec<char>, i: usize) -> (e: usize)
    requires
        i <= s.len(),
    ensures
        e as int == spaces_end(s@, i as int),
        i <= e <= s@.len(),
{
    proof {
        lemma_spaces_end_bounds(s@, i as int);
    }
    let mut j = i;
    while j < s.len() && s[j] == ' '
        invariant
            i <= j <= s@.len(),
            spaces_end(s@, i as int) == spaces_end(s@, j as int),
        decreases s@.len() - j,
    {
        j = j + 1;
    }
    j
}

/// The end of the run of blanks from `i`.
pub fn skip_blanks(s: &Vec<char>, i: usize) -> (e: usize)
    requires
        i <= s.len(),
    ensures
        e as int == blank_end(s@, i as int),
        i <= e <= s@.len(),
{
    proof {
        lemma_blank_end_bounds(s@, i as int);
    }
    let mut j = i;
    while j < s.len() && (s[j] == ' ' || s[j] == '\t')
        invariant
            i <= j <= s@.len(),
            blank_end(s@, i as int) == blank_end(s@, j as int),
        decreases s@.len() - j,
    {
        j = j + 1;
    }
    j
}

/// The end of a word starting at `i`, if one does.
pub fn scan_word(s: &Vec<char>, i: usize) -> (r: Option<usize>)
    requires
        i <= s.len(),
    ensures
        match word_end(s@, i as int) {
            Some(w) => r == Some(w as usize) && i < w <= s@.len(),
            None => r is None,
        },
{
    if i < s.len() && is_alpha_char(s[i]) {
        proof {
            lemma_word_chars_end_bounds(s@, i + 1);
        }
        let mut j = i + 1;
        while j < s.len() && is_word_char_exec(s[j])
            invariant
                i < j <= s@.len(),
                word_chars_end(s@, i + 1) == word_chars_end(s@, j as int),
            decreases s@.len() - j,
        {
            j = j + 1;
        }
        Some(j)
    } else {
        None
    }
}

/// The numbers read by `numbers`: how many were given, the first three values
/// (0 when not given), whether all fit a `u32`, and the end position.
pub struct Numbers {
    pub count: usize,
    pub first: u32,
    pub second: u32,
    pub third: u32,
    pub fit: bool,
    pub end: usize,
}

pub open spec fn numbers_match(n: Numbers, vals: Seq<nat>, e: int) -> bool {
    &&& n.count == vals.len()
    &&& n.end == e
    &&& n.fit == numbers_fit(vals)
    &&& n.fit ==> n.first == number_or_zero(vals, 0) && n.second == number_or_zero(vals, 1)
        && n.third == number_or_zero(vals, 2)
}

/// Reads one to three dot-separated numbers.
pub fn scan_numbers(s: &Vec<char>, i: usize) -> (r: Option<Numbers>)
    requires
        i <= s.len(),
    ensures
        match numbers(s@, i as int) {
            None => r is None,
            Some((vals, e)) => r matches Some(n) && numbers_match(n, vals, e) && 1 <= vals.len()
                <= 3 && i < e <= s@.len(),
        },
{
    if !(i < s.len() && is_digit_char(s[i])) {
        return None;
    }
    proof {
        lemma_digits_end_bounds(s@, i + 1);
    }
    let (j, v0, f0) = scan_number(s, i, u32::MAX);
    let ghost g0 = decimal_value(s@.subrange(i as int, j as int));
    proof {
        let vals = seq![g0];
        assert(numbers_fit(vals) == f0) by {
            if f0 {
                assert forall|x: int| 0 <= x < vals.len() implies #[trigger] vals[x]
                    <= u32::MAX by {}
            } else {
                assert(vals[0] > u32::MAX);
            }
        }
    }
    if !(j < s.len() && j + 1 < s.len() && s[j] == '.' && is_digit_char(s[j + 1])) {
        return Some(Numbers { count: 1, first: v0, second: 0, third: 0, fit: f0, end: j });
    }
    proof {
        lemma_digits_end_bounds(s@, j + 1);
    }
    let (k, v1, f1) = scan_number(s, j + 1, u32::MAX);
    let ghost g1 = decimal_value(s@.subrange(j + 1, k as int));
    if !(k < s.len() && k + 1 < s.len() && s[k] == '.' && is_digit_char(s[k + 1])) {
        proof {
            let vals = seq![g0, g1];
            assert(numbers_fit(vals) == (f0 && f1)) by {
                if f0 && f1 {
                    assert forall|x: int| 0 <= x < vals.len() implies #[trigger] vals[x]
                        <= u32::MAX by {}
                } else if !f0 {
                    assert(vals[0] > u32::MAX);
                } else {
                    assert(vals[1] > u32::MAX);
                }
            }
        }
        return Some(Numbers { count: 2, first: v0, second: v1, third: 0, fit: f0 && f1, end: k });
    }
    proof {
        lemma_digits_end_bounds(s@, k + 1);
    }
    let (m, v2, f2) = scan_number(s, k + 1, u32::MAX);
    proof {
        let g2 = decimal_value(s@.subrange(k + 1, m as int));
        let vals = seq![g0, g1, g2];
        assert(numbers_fit(vals) == (f0 && f1 && f2)) by {
            if f0 && f1 && f2 {
                assert forall|x: int| 0 <= x < vals.len() implies #[trigger] vals[x]
                    <= u32::MAX by {}
            } else if !f0 {
                assert(vals[0] > u32::MAX);
            } else if !f1 {
                assert(vals[1] > u32::MAX);
            } else {
                assert(vals[2] > u32::MAX);
            }
        }
    }
    Some(Numbers { count: 3, first: v0, second: v1, third: v2, fit: f0 && f1 && f2, end: m })
}

/// Reads a pre-release suffix at `i`.
pub fn scan_prerelease(s: &Vec<char>, i: usize) -> (r: Option<(ReleaseType, usize)>)
    requires
        i <= s.len(),
    ensures
        match prerelease(s@, i as int) {
            None => r is None,
            Some((rt, e)) => r == Some((rt, e as usize)) && i < e <= s@.len(),
        },
{
    proof {
        reveal_strlit("rc");
        reveal_strlit("releaseCandidate");
        reveal_strlit("alpha");
        reveal_strlit("beta");
        assert("rc"@ =~= tag_rc());
        assert("releaseCandidate"@ =~= tag_release_candidate());
        assert("alpha"@ =~= tag_alpha());
        assert("beta"@ =~= tag_beta());
    }
    if !char_is(s, i, '-') {
        None
    } else if tag_at(s, i + 1, "rc") {
        Some((ReleaseType::ReleaseCandidate, i + 3))
    } else if tag_at(s, i + 1, "releaseCandidate") {
        Some((ReleaseType::ReleaseCandidate, i + 17))
    } else if tag_at(s, i + 1, "alpha") {
        Some((ReleaseType::Alpha, i + 6))
    } else if tag_at(s, i + 1, "beta") {
        Some((ReleaseType::Beta, i + 5))
    } else {
        None
    }
}

/// Reads a semantic version at `i`.
pub fn scan_semver(s: &Vec<char>, i: usize) -> (r: Result<(SemanticVersion, usize), Halt>)
    requires
        i <= s.len(),
    ensures
        agrees(r, semver(s@, i as int)),
        halt_within(r, s@.len() as int),
        r matches Ok((_, e)) ==> i < e <= s@.len(),
{
    match scan_numbers(s, i) {
        None => Err(Halt::Fail(i, ErrorKind::Digit)),
        Some(n) => {
            if !n.fit {
                return Err(Halt::Overflow);
            }
            match scan_prerelease(s, n.end) {
                Some((rt, e2)) => Ok((SemanticVersion::new(n.first, n.second, n.third, rt), e2)),
                None => Ok(
                    (SemanticVersion::new(n.first, n.second, n.third, ReleaseType::Release), n.end),
                ),
            }
        },
    }
}

/// Reads a `^` range of versions at `i`.
pub fn scan_carrot(s: &Vec<char>, i: usize) -> (r: Result<(Range<SemanticVersion>, usize), Halt>)
    requires
        i <= s.len(),
    ensures
        agrees(r, carrot(s@, i as int)),
        halt_within(r, s@.len() as int),
        r matches Ok((_, e)) ==> i < e <= s@.len(),
{
    if !char_is(s, i, '^') {
        return Err(Halt::Fail(i, ErrorKind::Tag));
    }
    match scan_numbers(s, i + 1) {
        None => Err(Halt::Fail(i + 1, ErrorKind::Digit)),
        Some(n) => {
            let ghost vals = numbers(s@, i + 1).unwrap().0;
            if !n.fit {
                return Err(Halt::Overflow);
            }
            let low = SemanticVersion::new(n.first, n.second, n.third, ReleaseType::Release);
            if n.count == 1 {
                if n.first == u32::MAX {
                    proof {
                        assert(carrot_upper(vals)[0] > u32::MAX);
                    }
                    return Err(Halt::Overflow);
                }
                proof {
                    assert(numbers_fit(carrot_upper(vals)));
                }
                let high = SemanticVersion::new(n.first + 1, 0, 0, ReleaseType::Release);
                Ok((Range::between(low, high), n.end))
            } else if n.count == 2 {
                if n.second == u32::MAX {
                    proof {
                        assert(carrot_upper(vals)[1] > u32::MAX);
                    }
                    return Err(Halt::Overflow);
                }
                proof {
                    assert(numbers_fit(carrot_upper(vals)));
                }
                let high = SemanticVersion::new(n.first, n.second + 1, 0, ReleaseType::Release);
                Ok((Range::between(low, high), n.end))
            } else {
                if n.third == u32::MAX {
                    proof {
                        assert(carrot_upper(vals)[2] > u32::MAX);
                    }
                    return Err(Halt::Overflow);
                }
                proof {
                    assert(numbers_fit(carrot_upper(vals)));
                }
                let high = SemanticVersion::new(n.first, n.second, n.third + 1, ReleaseType::Release);
                Ok((Range::between(low, high), n.end))
            }
        },
    }
}

/// Reads a range between two versions at `i`.
pub fn scan_semver_between(s: &Vec<char>, i: usize) -> (r: Result<(Range<SemanticVersion>, usize), Halt>)
    requires
        i <= s.len(),
    ensures
        agrees(r, semver_between(s@, i as int)),
        halt_within(r, s@.len() as int),
        r matches Ok((_, e)) ==> i < e <= s@.len(),
{
    proof {
        reveal_strlit("+<");
        assert("+<"@ =~= tag_up_to());
    }
    match scan_semver(s, i) {
        Err(h) => Err(h),
        Ok((low, e1)) => {
            let j = skip_spaces(s, e1);
            if !tag_at(s, j, "+<") {
                return Err(Halt::Fail(j, ErrorKind::Tag));
            }
            let k = skip_spaces(s, j + 2);
            match scan_semver(s, k) {
                Err(h) => Err(h),
                Ok((high, e2)) => Ok((Range::between(low, high), e2)),
            }
        },
    }
}

/// Reads one version at `i` as the range of that version.
pub fn scan_semver_exact(s: &Vec<char>, i: usize) -> (r: Result<(Range<SemanticVersion>, usize), Halt>)
    requires
        i <= s.len(),
    ensures
        agrees(r, semver_exact(s@, i as int)),
        halt_within(r, s@.len() as int),
        r matches Ok((_, e)) ==> i < e <= s@.len(),
{
    match scan_semver(s, i) {
        Err(h) => Err(h),
        Ok((v, e)) => {
            if v.release_type == ReleaseType::Release && v.patch == u32::MAX {
                return Err(Halt::Overflow);
            }
            Ok((Range::exact(v), e))
        },
    }
}

/// Reads a range of versions at `i`.
pub fn scan_semver_range(s: &Vec<char>, i: usize) -> (r: Result<(Range<SemanticVersion>, usize), Halt>)
    requires
        i <= s.len(),
    ensures
        agrees(r, semver_range(s@, i as int)),
        halt_within(r, s@.len() as int),
        r matches Ok((_, e)) ==> i < e <= s@.len(),
{
    match scan_carrot(s, i) {
        Err(Halt::Fail(_, _)) => match scan_semver_between(s, i) {
            Err(Halt::Fail(_, _)) => scan_semver_exact(s, i),
            r => r,
        },
        r => r,
    }
}

/// Reads a package name and a version at `i`.
pub fn scan_package_version(s: &Vec<char>, i: usize) -> (r: Result<(usize, SemanticVersion, usize), Halt>)
    requires
        i <= s.len(),
    ensures
        agrees_named(r, package_version(s@, i as int)),
        halt_within(r, s@.len() as int),
        r matches Ok((w, _, e)) ==> i < w < e <= s@.len(),
{
    match scan_word(s, i) {
        None => Err(Halt::Fail(i, ErrorKind::Alpha)),
        Some(w) => {
            if !char_is(s, w, '-') {
                return Err(Halt::Fail(w, ErrorKind::Tag));
            }
            match scan_semver(s, w + 1) {
                Err(h) => Err(h),
                Ok((v, e)) => Ok((w, v, e)),
            }
        },
    }
}

/// Reads a package name with a range, or a bare package name, at `i`.
pub fn scan_package_range(s: &Vec<char>, i: usize) -> (r: Result<(usize, Range<SemanticVersion>, usize), Halt>)
    requires
        i <= s.len(),
    ensures
        agrees_named(r, package_range(s@, i as int)),
        halt_within(r, s@.len() as int),
        r matches Ok((w, _, e)) ==> i < w <= e <= s@.len(),
{
    match scan_word(s, i) {
        None => Err(Halt::Fail(i, ErrorKind::Alpha)),
        Some(w) => {
            if char_is(s, w, '-') {
                match scan_semver_range(s, w + 1) {
                    Err(Halt::Fail(_, _)) => {},
                    Err(h) => {
                        return Err(h);
                    },
                    Ok((v, e)) => {
                        return Ok((w, v, e));
                    },
                }
            }
            Ok((w, Range::any(), w))
        },
    }
}

/// Reads `@` and a variant index at `i`.
pub fn scan_variant_index(s: &Vec<char>, i: usize) -> (r: Result<(u8, usize), Halt>)
    requires
        i <= s.len(),
    ensures
        agrees(r, variant_index(s@, i as int)),
        halt_within(r, s@.len() as int),
        r matches Ok((_, e)) ==> i < e <= s@.len(),
{
    if !char_is(s, i, '@') {
        return Err(Halt::Fail(i, ErrorKind::Tag));
    }
    if !(i + 1 < s.len() && is_digit_char(s[i + 1])) {
        return Err(Halt::Fail(i + 1, ErrorKind::Digit));
    }
    proof {
        lemma_digits_end_bounds(s@, i + 1);
    }
    let (e, v, fits) = scan_number(s, i + 1, 255);
    if !fits {
        return Err(Halt::Overflow);
    }
    Ok((v as u8, e))
}

/// Reads a version with a variant index at `i`.
pub fn scan_variant_semver(s: &Vec<char>, i: usize) -> (r: Result<(Variant<SemanticVersion>, usize), Halt>)
    requires
        i <= s.len(),
    ensures
        agrees(r, variant_semver(s@, i as int)),
        halt_within(r, s@.len() as int),
        r matches Ok((_, e)) ==> i < e <= s@.len(),
{
    match scan_semver(s, i) {
        Err(h) => Err(h),
        Ok((v, e)) => match scan_variant_index(s, e) {
            Err(h) => Err(h),
            Ok((idx, e2)) => Ok((Variant::new(v, idx), e2)),
        },
    }
}

/// Reads a version with a variant index at `i`, as the range of that variant.
pub fn scan_variant_semver_exact_range(s: &Vec<char>, i: usize) -> (r: Result<(Range<Variant<SemanticVersion>>, usize), Halt>)
    requires
        i <= s.len(),
    ensures
        agrees(r, variant_semver_exact_range(s@, i as int)),
        halt_within(r, s@.len() as int),
        r matches Ok((_, e)) ==> i < e <= s@.len(),
{
    match scan_variant_semver(s, i) {
        Err(h) => Err(h),
        Ok((v, e)) => {
            if v.version.release_type == ReleaseType::Release && v.version.patch == u32::MAX {
                return Err(Halt::Overflow);
            }
            Ok((Range::exact(v), e))
        },
    }
}

/// Reads a version at `i` as the range of all its variants.
pub fn scan_semver_with_implicit_variant_range(s: &Vec<char>, i: usize) -> (r: Result<(Range<Variant<SemanticVersion>>, usize), Halt>)
    requires
        i <= s.len(),
    ensures
        agrees(r, semver_with_implicit_variant_range(s@, i as int)),
        halt_within(r, s@.len() as int),
        r matches Ok((_, e)) ==> i < e <= s@.len(),
{
    match scan_semver(s, i) {
        Err(h) => Err(h),
        Ok((v, e)) => Ok(
            (Range::between(Variant::new(v, 0), Variant::new(v, MAX_VARIANTS)), e),
        ),
    }
}

/// Reads a version at `i` as a variant, with `default_index` when no index is given.
fn scan_variant_or_default(s: &Vec<char>, i: usize, default_index: u8) -> (r: Result<(Variant<SemanticVersion>, usize), Halt>)
    requires
        i <= s.len(),
    ensures
        agrees(r, variant_or_default(s@, i as int, default_index)),
        halt_within(r, s@.len() as int),
        r matches Ok((_, e)) ==> i < e <= s@.len(),
{
    match scan_variant_semver(s, i) {
        Err(Halt::Fail(_, _)) => match scan_semver(s, i) {
            Err(h) => Err(h),
            Ok((v, e)) => Ok((Variant::new(v, default_index), e)),
        },
        r => r,
    }
}

/// Reads a range between two variants at `i`.
pub fn scan_semver_variants_between(s: &Vec<char>, i: usize) -> (r: Result<(Range<Variant<SemanticVersion>>, usize), Halt>)
    requires
        i <= s.len(),
    ensures
        agrees(r, semver_variants_between(s@, i as int)),
        halt_within(r, s@.len() as int),
        r matches Ok((_, e)) ==> i < e <= s@.len(),
{
    proof {
        reveal_strlit("+<");
        reveal_strlit("..");
        assert("+<"@ =~= tag_up_to());
        assert(".."@ =~= tag_dots());
    }
    match scan_variant_or_default(s, i, 0) {
        Err(h) => Err(h),
        Ok((low, e1)) => {
            let j = skip_blanks(s, e1);
            if !tag_at(s, j, "+<") && !tag_at(s, j, "..") {
                return Err(Halt::Fail(j, ErrorKind::Tag));
            }
            let k = skip_blanks(s, j + 2);
            match scan_variant_or_default(s, k, MAX_VARIANTS) {
                Err(h) => Err(h),
                Ok((high, e2)) => Ok((Range::between(low, high), e2)),
            }
        },
    }
}

/// The cargo upper bound of a `^` range, or `None` when a number cannot be bumped.
fn caret_upper_of(n: &Numbers, rt: ReleaseType, Ghost(vals): Ghost<Seq<nat>>) -> (r: Option<
    SemanticVersion,
>)
    requires
        n.fit,
        numbers_match(*n, vals, n.end as int),
        1 <= vals.len() <= 3,
    ensures
        numbers_fit(caret_upper(vals)) ==> r == Some(version_of(caret_upper(vals), rt)),
        !numbers_fit(caret_upper(vals)) ==> r is None,
{
    let ghost up = caret_upper(vals);
    if n.count == 1 || n.first >= 1 {
        if n.first == u32::MAX {
            proof {
                assert(up[0] > u32::MAX);
            }
            return None;
        }
        proof {
            assert(numbers_fit(up));
        }
        Some(SemanticVersion::new(n.first + 1, 0, 0, rt))
    } else if n.count == 2 || n.second != 0 {
        if n.second == u32::MAX {
            proof {
                assert(up[1] > u32::MAX);
            }
            return None;
        }
        proof {
            assert(numbers_fit(up));
        }
        Some(SemanticVersion::new(n.first, n.second + 1, 0, rt))
    } else {
        if n.third == u32::MAX {
            proof {
                assert(up[2] > u32::MAX);
            }
            return None;
        }
        proof {
            assert(numbers_fit(up));
        }
        Some(SemanticVersion::new(n.first, n.second, n.third + 1, rt))
    }
}

/// Reads `^` and a version with an explicit variant index at `i`.
pub fn scan_caret_explicit_variant_range(s: &Vec<char>, i: usize) -> (r: Result<(Range<Variant<SemanticVersion>>, usize), Halt>)
    requires
        i <= s.len(),
    ensures
        agrees(r, caret_explicit_variant_range(s@, i as int)),
        halt_within(r, s@.len() as int),
        r matches Ok((_, e)) ==> i < e <= s@.len(),
{
    if !char_is(s, i, '^') {
        return Err(Halt::Fail(i, ErrorKind::Tag));
    }
    let n = match scan_numbers(s, i + 1) {
        None => {
            return Err(Halt::Fail(i + 1, ErrorKind::Digit));
        },
        Some(n) => n,
    };
    let ghost vals = numbers(s@, i + 1).unwrap().0;
    // with a pre-release suffix and an index, or else with an index only
    let mut with_pre: Option<(ReleaseType, Result<(u8, usize), Halt>)> = None;
    match scan_prerelease(s, n.end) {
        Some((rt, e2)) => match scan_variant_index(s, e2) {
            Err(Halt::Fail(_, _)) => {},
            r => {
                with_pre = Some((rt, r));
            },
        },
        None => {},
    }
    // when both fail, the failure is that of the version with an index only
    let picked: Result<(ReleaseType, Result<(u8, usize), Halt>), Halt> = match with_pre {
        Some(x) => Ok(x),
        None => match scan_variant_index(s, n.end) {
            Err(Halt::Fail(p, k)) => Err(Halt::Fail(p, k)),
            r => Ok((ReleaseType::Release, r)),
        },
    };
    match picked {
        Err(h) => Err(h),
        Ok((rt, r)) => {
            if !n.fit {
                return Err(Halt::Overflow);
            }
            match r {
                Err(h) => Err(h),
                Ok((idx, end)) => {
                    match caret_upper_of(&n, rt, Ghost(vals)) {
                        None => Err(Halt::Overflow),
                        Some(up) => {
                            let low = SemanticVersion::new(n.first, n.second, n.third, rt);
                            Ok((Range::between(Variant::new(low, idx), Variant::new(up, idx)), end))
                        },
                    }
                },
            }
        },
    }
}

/// Reads `^` and a version without variant index at `i`.
pub fn scan_caret_implicit_variant_range(s: &Vec<char>, i: usize) -> (r: Result<(Range<Variant<SemanticVersion>>, usize), Halt>)
    requires
        i <= s.len(),
    ensures
        agrees(r, caret_implicit_variant_range(s@, i as int)),
        halt_within(r, s@.len() as int),
        r matches Ok((_, e)) ==> i < e <= s@.len(),
{
    if !char_is(s, i, '^') {
        return Err(Halt::Fail(i, ErrorKind::Tag));
    }
    let n = match scan_numbers(s, i + 1) {
        None => {
            return Err(Halt::Fail(i + 1, ErrorKind::Digit));
        },
        Some(n) => n,
    };
    let ghost vals = numbers(s@, i + 1).unwrap().0;
    if !n.fit {
        return Err(Halt::Overflow);
    }
    let (rt, end) = match scan_prerelease(s, n.end) {
        Some((rt, e2)) => (rt, e2),
        None => (ReleaseType::Release, n.end),
    };
    match caret_upper_of(&n, rt, Ghost(vals)) {
        None => Err(Halt::Overflow),
        Some(up) => {
            let low = SemanticVersion::new(n.first, n.second, n.third, rt);
            Ok((Range::between(Variant::new(low, 0), Variant::new(up, MAX_VARIANTS)), end))
        },
    }
}

/// Reads a `^` range of variants at `i`.
pub fn scan_caret_variant_semver_range(s: &Vec<char>, i: usize) -> (r: Result<(Range<Variant<SemanticVersion>>, usize), Halt>)
    requires
        i <= s.len(),
    ensures
        agrees(r, caret_variant_semver_range(s@, i as int)),
        halt_within(r, s@.len() as int),
        r matches Ok((_, e)) ==> i < e <= s@.len(),
{
    match scan_caret_explicit_variant_range(s, i) {
        Err(Halt::Fail(_, _)) => scan_caret_implicit_variant_range(s, i),
        r => r,
    }
}

/// Reads a package name and a variant at `i`.
pub fn scan_package_variant(s: &Vec<char>, i: usize) -> (r: Result<(usize, Variant<SemanticVersion>, usize), Halt>)
    requires
        i <= s.len(),
    ensures
        agrees_named(r, package_variant(s@, i as int)),
        halt_within(r, s@.len() as int),
        r matches Ok((w, _, e)) ==> i < w < e <= s@.len(),
{
    match scan_word(s, i) {
        None => Err(Halt::Fail(i, ErrorKind::Alpha)),
        Some(w) => {
            if !char_is(s, w, '-') {
                return Err(Halt::Fail(w, ErrorKind::Tag));
            }
            match scan_variant_semver(s, w + 1) {
                Err(h) => Err(h),
                Ok((v, e)) => Ok((w, v, e)),
            }
        },
    }
}

/// Reads a package name and one variant or all variants of a version at `i`.
pub fn scan_package_variants(s: &Vec<char>, i: usize) -> (r: Result<(usize, Range<Variant<SemanticVersion>>, usize), Halt>)
    requires
        i <= s.len(),
    ensures
        agrees_named(r, package_variants(s@, i as int)),
        halt_within(r, s@.len() as int),
        r matches Ok((w, _, e)) ==> i < w < e <= s@.len(),
{
    match scan_word(s, i) {
        None => Err(Halt::Fail(i, ErrorKind::Alpha)),
        Some(w) => {
            if !char_is(s, w, '-') {
                return Err(Halt::Fail(w, ErrorKind::Tag));
            }
            let r = match scan_variant_semver_exact_range(s, w + 1) {
                Err(Halt::Fail(_, _)) => scan_semver_with_implicit_variant_range(s, w + 1),
                r => r,
            };
            match r {
                Err(h) => Err(h),
                Ok((v, e)) => Ok((w, v, e)),
            }
        },
    }
}

/// Reads a package name and a range of variants at `i`.
pub fn scan_package_variants_range(s: &Vec<char>, i: usize) -> (r: Result<(usize, Range<Variant<SemanticVersion>>, usize), Halt>)
    requires
        i <= s.len(),
    ensures
        agrees_named(r, package_variants_range(s@, i as int)),
        halt_within(r, s@.len() as int),
        r matches Ok((w, _, e)) ==> i < w < e <= s@.len(),
{
    match scan_word(s, i) {
        None => Err(Halt::Fail(i, ErrorKind::Alpha)),
        Some(w) => {
            if !char_is(s, w, '-') {
                return Err(Halt::Fail(w, ErrorKind::Tag));
            }
            let r = match scan_semver_variants_between(s, w + 1) {
                Err(Halt::Fail(_, _)) => scan_caret_variant_semver_range(s, w + 1),
                r => r,
            };
            match r {
                Err(h) => Err(h),
                Ok((v, e)) => Ok((w, v, e)),
            }
        },
    }
}

} // verus!
