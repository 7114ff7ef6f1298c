//! What the parsers make of the written forms of versions and distributions: a
//! written version reads back as the same version, and `name-version` reads
//! back as the same name and version.
use vstd::prelude::*;

use crate::constants::MAX_VARIANTS;
use crate::parser::grammar::{
    caret_explicit_variant_range, caret_implicit_variant_range, caret_upper,
    caret_variant_semver_range, char_at, consuming, dot_digit, numbers, numbers_fit,
    package_version, prerelease, semver, start, tag_alpha, tag_beta, tag_rc,
    tag_release_candidate, variant_index, version_of, Halt,
};
use crate::range::Range;
use crate::variant::Variant;
use crate::release_type::{word_alpha, word_beta, word_rc, ReleaseType};
use crate::semantic_version::SemanticVersion;
use crate::text::{
    decimal, decimal_value, digits_end, has_tag, is_alpha, is_digit, is_multispace, is_word_char,
    lemma_decimal_roundtrip, multispace_end, word_chars_end, word_end,
};

verus! {

/// A run of digits from `j` to `e` ends the digits read from `j`.
proof fn lemma_digits_run(t: Seq<char>, j: int, e: int)
    requires
        0 <= j <= e <= t.len(),
        forall|k: int| j <= k < e ==> is_digit(#[trigger] t[k]),
        e == t.len() || !is_digit(t[e]),
    ensures
        digits_end(t, j) == e,
    decreases e - j,
{
    if j < e {
        lemma_digits_run(t, j + 1, e);
    }
}

/// A run of word characters from `j` to `e` ends the word read from `j`.
proof fn lemma_word_run(t: Seq<char>, j: int, e: int)
    requires
        0 <= j <= e <= t.len(),
        forall|k: int| j <= k < e ==> is_word_char(#[trigger] t[k]),
        e == t.len() || !is_word_char(t[e]),
    ensures
        word_chars_end(t, j) == e,
    decreases e - j,
{
    if j < e {
        lemma_word_run(t, j + 1, e);
    }
}

/// The numeral of `n` at `i` is read as `n`, up to its end.
proof fn lemma_numeral_at(t: Seq<char>, i: int, n: nat)
    requires
        0 <= i,
        i + decimal(n).len() <= t.len(),
        t.subrange(i, i + decimal(n).len()) == decimal(n),
        i + decimal(n).len() == t.len() || !is_digit(t[i + decimal(n).len()]),
    ensures
        digits_end(t, i) == i + decimal(n).len(),
        decimal_value(t.subrange(i, i + decimal(n).len())) == n,
        is_digit(t[i]),
{
    lemma_decimal_roundtrip(n);
    let d = decimal(n);
    assert forall|k: int| i <= k < i + d.len() implies is_digit(#[trigger] t[k]) by {
        assert(t[k] == t.subrange(i, i + d.len())[k - i]);
    }
    lemma_digits_run(t, i, i + d.len());
    assert(t[i] == d[0]);
}

/// A written version at `i` that runs to the end of `t` is read as that version.
pub proof fn lemma_semver_reads_text(t: Seq<char>, i: int, v: SemanticVersion)
    requires
        0 <= i <= t.len(),
        t.subrange(i, t.len() as int) == v.text(),
    ensures
        semver(t, i) == Ok::<(SemanticVersion, int), crate::parser::grammar::Halt>((v, t.len() as int)),
{
    let d0 = decimal(v.major as nat);
    let d1 = decimal(v.minor as nat);
    let d2 = decimal(v.patch as nat);
    lemma_decimal_roundtrip(v.major as nat);
    lemma_decimal_roundtrip(v.minor as nat);
    lemma_decimal_roundtrip(v.patch as nat);
    let a = i + d0.len();
    let b = a + 1 + d1.len();
    let e = b + 1 + d2.len();
    let txt = v.text();
    assert(t.len() == i + txt.len());
    assert forall|k: int| 0 <= k < txt.len() implies #[trigger] t[i + k] == txt[k] by {
        assert(t.subrange(i, t.len() as int)[k] == t[i + k]);
    }
    // the three numerals and the dots between them
    assert(t.subrange(i, a) =~= d0) by {
        assert forall|k: int| 0 <= k < d0.len() implies t.subrange(i, a)[k] == d0[k] by {
            assert(t[i + k] == txt[k]);
        }
    }
    assert(t[a] == '.') by {
        assert(t[a] == txt[a - i]);
    }
    assert(t.subrange(a + 1, b) =~= d1) by {
        assert forall|k: int| 0 <= k < d1.len() implies t.subrange(a + 1, b)[k] == d1[k] by {
            assert(t[a + 1 + k] == txt[a + 1 + k - i]);
        }
    }
    assert(t[b] == '.') by {
        assert(t[b] == txt[b - i]);
    }
    assert(t.subrange(b + 1, e) =~= d2) by {
        assert forall|k: int| 0 <= k < d2.len() implies t.subrange(b + 1, e)[k] == d2[k] by {
            assert(t[b + 1 + k] == txt[b + 1 + k - i]);
        }
    }
    if v.release_type == ReleaseType::Release {
        assert(e == t.len());
    } else {
        assert(t[e] == '-') by {
            assert(t[e] == txt[e - i]);
        }
    }
    lemma_numeral_at(t, i, v.major as nat);
    lemma_numeral_at(t, a + 1, v.minor as nat);
    lemma_numeral_at(t, b + 1, v.patch as nat);
    assert(dot_digit(t, a));
    assert(dot_digit(t, b));
    assert(!dot_digit(t, e));
    assert(numbers(t, i) == Some((seq![v.major as nat, v.minor as nat, v.patch as nat], e)));
    assert(numbers_fit(seq![v.major as nat, v.minor as nat, v.patch as nat]));
    let vals = seq![v.major as nat, v.minor as nat, v.patch as nat];
    if v.release_type == ReleaseType::Release {
        assert(prerelease(t, e) is None);
        assert(version_of(vals, ReleaseType::Release) == v);
    } else {
        let name = v.release_type.text();
        assert(t.subrange(e + 1, t.len() as int) =~= name) by {
            assert forall|k: int| 0 <= k < name.len() implies t.subrange(e + 1, t.len() as int)[k]
                == name[k] by {
                assert(t[e + 1 + k] == txt[e + 1 + k - i]);
            }
        }
        match v.release_type {
            ReleaseType::ReleaseCandidate => {
                assert(name == word_rc());
                assert(t.subrange(e + 1, e + 3) =~= tag_rc());
                assert(prerelease(t, e) == Some((ReleaseType::ReleaseCandidate, e + 3)));
            },
            ReleaseType::Alpha => {
                assert(name == word_alpha());
                assert(t[e + 1] == 'a');
                assert(!has_tag(t, e + 1, tag_rc())) by {
                    assert(t.subrange(e + 1, e + 3)[0] != tag_rc()[0]);
                }
                assert(!has_tag(t, e + 1, tag_release_candidate()));
                assert(t.subrange(e + 1, e + 6) =~= tag_alpha());
                assert(prerelease(t, e) == Some((ReleaseType::Alpha, e + 6)));
            },
            ReleaseType::Beta => {
                assert(name == word_beta());
                assert(t[e + 1] == 'b');
                assert(!has_tag(t, e + 1, tag_rc())) by {
                    assert(t.subrange(e + 1, e + 3)[0] != tag_rc()[0]);
                }
                assert(!has_tag(t, e + 1, tag_release_candidate()));
                assert(t.len() == e + 5);
                assert(!has_tag(t, e + 1, tag_alpha()));
                assert(t.subrange(e + 1, e + 5) =~= tag_beta());
                assert(prerelease(t, e) == Some((ReleaseType::Beta, e + 5)));
            },
            ReleaseType::Release => {},
        }
        assert(version_of(vals, v.release_type) == v);
    }
}

/// A package name: an ASCII letter followed by letters, digits or underscores.
pub open spec fn is_package_name(name: Seq<char>) -> bool {
    name.len() > 0 && is_alpha(name[0]) && forall|k: int|
        0 <= k < name.len() ==> is_word_char(#[trigger] name[k])
}

/// A written version reads back as that version: `parse_consuming_semver` undoes
/// `SemanticVersion::to_string`.
pub proof fn lemma_consuming_semver_reads_text(v: SemanticVersion)
    ensures
        consuming(v.text(), semver(v.text(), start(v.text()))) == Ok::<
            SemanticVersion,
            crate::parser::grammar::Halt,
        >(v),
{
    let t = v.text();
    lemma_decimal_roundtrip(v.major as nat);
    assert(t[0] == decimal(v.major as nat)[0]);
    assert(!is_multispace(t[0]));
    assert(start(t) == 0);
    assert(t.subrange(0, t.len() as int) =~= t);
    lemma_semver_reads_text(t, 0, v);
}

/// A written distribution `name-version` reads back as the same name and version:
/// `Distribution::from_str` and `LockFile::add_dist` undo the written form.
pub proof fn lemma_package_version_reads_text(name: Seq<char>, v: SemanticVersion)
    requires
        is_package_name(name),
    ensures
        consuming(
            name + seq!['-'] + v.text(),
            package_version(name + seq!['-'] + v.text(), start(name + seq!['-'] + v.text())),
        ) == Ok::<(int, SemanticVersion), crate::parser::grammar::Halt>((name.len() as int, v)),
{
    let t = name + seq!['-'] + v.text();
    let w = name.len() as int;
    assert(t[0] == name[0]);
    assert(!is_multispace(t[0]));
    assert(start(t) == 0);
    assert forall|k: int| 1 <= k < w implies is_word_char(#[trigger] t[k]) by {
        assert(t[k] == name[k]);
    }
    assert(t[w] == '-');
    lemma_word_run(t, 1, w);
    assert(word_end(t, 0) == Some(w));
    assert(char_at(t, w, '-'));
    assert(t.subrange(w + 1, t.len() as int) =~= v.text());
    lemma_semver_reads_text(t, w + 1, v);
}

/// Numbers written with dots between them: `a`, `a.b` or `a.b.c`.
pub open spec fn numerals(vals: Seq<nat>) -> Seq<char> {
    if vals.len() == 1 {
        decimal(vals[0])
    } else if vals.len() == 2 {
        decimal(vals[0]) + seq!['.'] + decimal(vals[1])
    } else {
        decimal(vals[0]) + seq!['.'] + decimal(vals[1]) + seq!['.'] + decimal(vals[2])
    }
}

/// `t` holds `u` at `i`.
proof fn lemma_piece_at(t: Seq<char>, i: int, u: Seq<char>, k: int)
    requires
        0 <= i,
        i + u.len() <= t.len(),
        t.subrange(i, i + u.len()) == u,
        0 <= k < u.len(),
    ensures
        t[i + k] == u[k],
{
    assert(t.subrange(i, i + u.len())[k] == t[i + k]);
}

/// Written numbers at `i`, followed by the end or by a character that is neither
/// a dot nor a digit, are read as those numbers.
proof fn lemma_numbers_read(t: Seq<char>, i: int, vals: Seq<nat>)
    requires
        1 <= vals.len() <= 3,
        0 <= i,
        i + numerals(vals).len() <= t.len(),
        t.subrange(i, i + numerals(vals).len()) == numerals(vals),
        i + numerals(vals).len() == t.len() || (t[i + numerals(vals).len()] != '.' && !is_digit(
            t[i + numerals(vals).len()],
        )),
    ensures
        numbers(t, i) == Some((vals, i + numerals(vals).len())),
{
    let w = numerals(vals);
    let e = i + w.len();
    let d0 = decimal(vals[0]);
    lemma_decimal_roundtrip(vals[0]);
    let a = i + d0.len();
    assert forall|k: int| 0 <= k < w.len() implies #[trigger] t[i + k] == w[k] by {
        lemma_piece_at(t, i, w, k);
    }
    assert(t.subrange(i, a) =~= d0) by {
        assert forall|k: int| 0 <= k < d0.len() implies t.subrange(i, a)[k] == d0[k] by {
            assert(t[i + k] == w[k]);
        }
    }
    if vals.len() == 1 {
        assert(vals =~= seq![vals[0]]);
        lemma_numeral_at(t, i, vals[0]);
        assert(!dot_digit(t, a));
    } else {
        let d1 = decimal(vals[1]);
        lemma_decimal_roundtrip(vals[1]);
        let b = a + 1 + d1.len();
        assert(t[a] == '.') by {
            assert(t[i + d0.len()] == w[d0.len() as int]);
        }
        assert(t.subrange(a + 1, b) =~= d1) by {
            assert forall|k: int| 0 <= k < d1.len() implies t.subrange(a + 1, b)[k] == d1[k] by {
                assert(t[i + (d0.len() + 1 + k)] == w[d0.len() + 1 + k]);
            }
        }
        if vals.len() == 2 {
            assert(vals =~= seq![vals[0], vals[1]]);
            assert(b == e);
            assert(t.subrange(i, a) == d0);
            assert(i + d0.len() == t.len() || !is_digit(t[a])) by {
                assert(t[a] == '.');
            }
            lemma_numeral_at(t, i, vals[0]);
            lemma_numeral_at(t, a + 1, vals[1]);
            assert(dot_digit(t, a));
            assert(!dot_digit(t, b));
        } else {
            let d2 = decimal(vals[2]);
            lemma_decimal_roundtrip(vals[2]);
            let c = b + 1 + d2.len();
            assert(c == e);
            assert(t[b] == '.') by {
                assert(t[i + (d0.len() + 1 + d1.len())] == w[(d0.len() + 1 + d1.len()) as int]);
            }
            assert(t.subrange(b + 1, c) =~= d2) by {
                assert forall|k: int| 0 <= k < d2.len() implies t.subrange(b + 1, c)[k] == d2[k] by {
                    assert(t[i + (d0.len() + 1 + d1.len() + 1 + k)] == w[d0.len() + 1 + d1.len() + 1 + k]);
                }
            }
            assert(vals =~= seq![vals[0], vals[1], vals[2]]);
            lemma_numeral_at(t, i, vals[0]);
            lemma_numeral_at(t, a + 1, vals[1]);
            lemma_numeral_at(t, b + 1, vals[2]);
            assert(dot_digit(t, a));
            assert(dot_digit(t, b));
            assert(!dot_digit(t, c));
        }
    }
}

/// The version with the numbers given, the missing ones 0, of release type `rt`.
pub open spec fn given_version(vals: Seq<nat>, rt: ReleaseType) -> SemanticVersion {
    SemanticVersion::new(
        vals[0] as u32,
        (if vals.len() >= 2 {
            vals[1]
        } else {
            0
        }) as u32,
        (if vals.len() == 3 {
            vals[2]
        } else {
            0
        }) as u32,
        rt,
    )
}

/// The cargo upper bound of `^` and the numbers given, as the cargo manual
/// writes it: `^M`, `^M.m`, `^M.m.p` with `M > 0` up to `(M+1).0.0`; `^0.m`
/// and `^0.m.p` with `m > 0` up to `0.(m+1).0` (also `^0.0`: up to `0.1.0`);
/// `^0.0.p` up to `0.0.(p+1)`.
pub open spec fn cargo_upper(vals: Seq<nat>) -> SemanticVersion {
    if vals.len() == 1 || vals[0] > 0 {
        SemanticVersion::new((vals[0] + 1) as u32, 0, 0, ReleaseType::Release)
    } else if vals.len() == 2 || vals[1] > 0 {
        SemanticVersion::new(0, (vals[1] + 1) as u32, 0, ReleaseType::Release)
    } else {
        SemanticVersion::new(0, 0, (vals[2] + 1) as u32, ReleaseType::Release)
    }
}

/// The numbers and what follows them in a `^` range: `^` at 0, then the numbers.
proof fn lemma_caret_numbers(t: Seq<char>, vals: Seq<nat>)
    requires
        1 <= vals.len() <= 3,
        t.len() >= 1 + numerals(vals).len() as int,
        t[0] == '^',
        t.subrange(1, 1 + numerals(vals).len() as int) == numerals(vals),
        1 + numerals(vals).len() as int == t.len() || t[1 + numerals(vals).len() as int] == '@',
        forall|k: int| 0 <= k < vals.len() ==> #[trigger] vals[k] < u32::MAX,
    ensures
        char_at(t, 0, '^'),
        numbers(t, 1) == Some((vals, 1 + numerals(vals).len() as int)),
        prerelease(t, 1 + numerals(vals).len() as int) is None,
        numbers_fit(vals),
        numbers_fit(caret_upper(vals)),
        version_of(vals, ReleaseType::Release) == given_version(vals, ReleaseType::Release),
        version_of(caret_upper(vals), ReleaseType::Release) == cargo_upper(vals),
{
    lemma_numbers_read(t, 1, vals);
    let up = caret_upper(vals);
    assert forall|k: int| 0 <= k < up.len() implies #[trigger] up[k] <= u32::MAX by {
        assert(vals[0] < u32::MAX);
        if vals.len() >= 2 {
            assert(vals[1] < u32::MAX);
        }
        if vals.len() == 3 {
            assert(vals[2] < u32::MAX);
        }
    }
    assert forall|k: int| 0 <= k < vals.len() implies #[trigger] vals[k] <= u32::MAX by {}
}

/// A `^` range with an explicit variant index is the cargo range of that index:
/// `^M.m.p@i` holds the variants `@i` from `M.m.p` up to the cargo upper bound
/// (so `^0.2@1` is `[0.2.0@1, 0.3.0@1)`, `^1.2@1` is `[1.2.0@1, 2.0.0@1)`).
pub proof fn lemma_caret_explicit_variant_range_is_cargo(vals: Seq<nat>, idx: u8)
    requires
        1 <= vals.len() <= 3,
        forall|k: int| 0 <= k < vals.len() ==> #[trigger] vals[k] < u32::MAX,
    ensures
        ({
            let t = seq!['^'] + numerals(vals) + seq!['@'] + decimal(idx as nat);
            caret_variant_semver_range(t, 0) == Ok::<(Range<Variant<SemanticVersion>>, int), Halt>(
                (
                    Range::between(
                        Variant::new(given_version(vals, ReleaseType::Release), idx),
                        Variant::new(cargo_upper(vals), idx),
                    ),
                    t.len() as int,
                ),
            )
        }),
{
    let w = numerals(vals);
    let d = decimal(idx as nat);
    let t = seq!['^'] + w + seq!['@'] + d;
    let e = 1 + w.len() as int;
    lemma_decimal_roundtrip(idx as nat);
    assert(t.subrange(1, e) =~= w);
    assert(t[e] == '@');
    lemma_caret_numbers(t, vals);
    assert(t.subrange(e + 1, t.len() as int) =~= d);
    assert(t.subrange(e + 1, e + 1 + d.len() as int) =~= d);
    lemma_numeral_at(t, e + 1, idx as nat);
    assert(variant_index(t, e) == Ok::<(u8, int), Halt>((idx, t.len() as int)));
}

/// A `^` range without variant index is the cargo range over all variants:
/// `^M.m.p` holds the variants from `M.m.p@0` up to the cargo upper bound at
/// index `MAX_VARIANTS` (so `^0.2` is `[0.2.0@0, 0.3.0@MAX_VARIANTS)`).
pub proof fn lemma_caret_implicit_variant_range_is_cargo(vals: Seq<nat>)
    requires
        1 <= vals.len() <= 3,
        forall|k: int| 0 <= k < vals.len() ==> #[trigger] vals[k] < u32::MAX,
    ensures
        ({
            let t = seq!['^'] + numerals(vals);
            caret_variant_semver_range(t, 0) == Ok::<(Range<Variant<SemanticVersion>>, int), Halt>(
                (
                    Range::between(
                        Variant::new(given_version(vals, ReleaseType::Release), 0),
                        Variant::new(cargo_upper(vals), MAX_VARIANTS),
                    ),
                    t.len() as int,
                ),
            )
        }),
{
    let w = numerals(vals);
    let t = seq!['^'] + w;
    let e = 1 + w.len() as int;
    assert(t.subrange(1, e) =~= w);
    lemma_caret_numbers(t, vals);
    assert(variant_index(t, e) is Err);
    assert(caret_explicit_variant_range(t, 0) is Err);
}

/// A `^0.m` range of one index holds every patch version `0.m.p` of that index,
/// and not `0.(m+1).0`.
pub proof fn lemma_caret_zero_minor_holds_every_patch(m: u32, idx: u8, p: u32)
    requires
        m < u32::MAX,
    ensures
        ({
            let t = seq!['^'] + numerals(seq![0nat, m as nat]) + seq!['@'] + decimal(idx as nat);
            caret_variant_semver_range(t, 0) matches Ok((rg, _)) && rg.contains(
                Variant::new(SemanticVersion::new(0, m, p, ReleaseType::Release), idx),
            ) && !rg.contains(
                Variant::new(SemanticVersion::new(0, (m + 1) as u32, 0, ReleaseType::Release), idx),
            )
        }),
{
    let vals = seq![0nat, m as nat];
    lemma_caret_explicit_variant_range_is_cargo(vals, idx);
    assert(cargo_upper(vals) == SemanticVersion::new(0, (m + 1) as u32, 0, ReleaseType::Release));
    assert(given_version(vals, ReleaseType::Release) == SemanticVersion::new(0, m, 0, ReleaseType::Release));
}

/// The written suffixes of the pre-release types, with the release type each
/// stands for: `rc` and `releaseCandidate` for a release candidate, `alpha`,
/// `beta`.
pub open spec fn prerelease_alias(w: Seq<char>, rt: ReleaseType) -> bool {
    ||| w == seq!['r', 'c'] && rt == ReleaseType::ReleaseCandidate
    ||| w == seq!['r', 'e', 'l', 'e', 'a', 's', 'e', 'C', 'a', 'n', 'd', 'i', 'd', 'a', 't', 'e']
        && rt == ReleaseType::ReleaseCandidate
    ||| w == seq!['a', 'l', 'p', 'h', 'a'] && rt == ReleaseType::Alpha
    ||| w == seq!['b', 'e', 't', 'a'] && rt == ReleaseType::Beta
}

/// Numbers written at the start of `t` and followed by `-`.
proof fn lemma_numbers_then_dash(t: Seq<char>, vals: Seq<nat>)
    requires
        1 <= vals.len() <= 3,
        t.len() > numerals(vals).len(),
        t.subrange(0, numerals(vals).len() as int) == numerals(vals),
        t[numerals(vals).len() as int] == '-',
    ensures
        start(t) == 0,
        numbers(t, 0) == Some((vals, numerals(vals).len() as int)),
{
    lemma_numbers_read(t, 0, vals);
    lemma_decimal_roundtrip(vals[0]);
    assert(t[0] == numerals(vals)[0]) by {
        lemma_piece_at(t, 0, numerals(vals), 0);
    }
    assert(numerals(vals)[0] == decimal(vals[0])[0]);
    assert(is_digit(t[0]));
    assert(!is_multispace(t[0]));
}

/// Every written pre-release suffix reads as its release type: a version
/// `a.b.c-rc` or `a.b.c-releaseCandidate` (also with one or two numbers) is read
/// whole as a release candidate of `a.b.c`; `-alpha` and `-beta` likewise.
pub proof fn lemma_prerelease_aliases_read(vals: Seq<nat>, w: Seq<char>, rt: ReleaseType)
    requires
        1 <= vals.len() <= 3,
        forall|k: int| 0 <= k < vals.len() ==> #[trigger] vals[k] <= u32::MAX,
        prerelease_alias(w, rt),
    ensures
        ({
            let t = numerals(vals) + seq!['-'] + w;
            consuming(t, semver(t, start(t))) == Ok::<SemanticVersion, Halt>(given_version(vals, rt))
        }),
{
    let n = numerals(vals);
    let t = n + seq!['-'] + w;
    let e = n.len() as int;
    assert(t.subrange(0, e) =~= n);
    lemma_numbers_then_dash(t, vals);
    assert(t.subrange(e + 1, t.len() as int) =~= w);
    if w == seq!['r', 'c'] {
        assert(t.subrange(e + 1, e + 3) =~= tag_rc());
    } else if w == seq!['r', 'e', 'l', 'e', 'a', 's', 'e', 'C', 'a', 'n', 'd', 'i', 'd', 'a', 't', 'e'] {
        assert(!has_tag(t, e + 1, tag_rc())) by {
            assert(t.subrange(e + 1, e + 3)[1] != tag_rc()[1]);
        }
        assert(t.subrange(e + 1, e + 17) =~= tag_release_candidate());
    } else if w == seq!['a', 'l', 'p', 'h', 'a'] {
        assert(!has_tag(t, e + 1, tag_rc())) by {
            assert(t.subrange(e + 1, e + 3)[0] != tag_rc()[0]);
        }
        assert(!has_tag(t, e + 1, tag_release_candidate()));
        assert(t.subrange(e + 1, e + 6) =~= tag_alpha());
    } else {
        assert(!has_tag(t, e + 1, tag_rc())) by {
            assert(t.subrange(e + 1, e + 3)[0] != tag_rc()[0]);
        }
        assert(!has_tag(t, e + 1, tag_release_candidate()));
        assert(!has_tag(t, e + 1, tag_alpha()));
        assert(t.subrange(e + 1, e + 5) =~= tag_beta());
    }
    assert(prerelease(t, e) == Some((rt, t.len() as int)));
    assert forall|k: int| 0 <= k < vals.len() implies #[trigger] vals[k] <= u32::MAX by {}
    assert(numbers_fit(vals));
    assert(version_of(vals, rt) == given_version(vals, rt));
}

/// `release_candidate` is not a pre-release suffix: a version followed by
/// `-release_candidate` is read as a release, with the suffix left unread.
pub proof fn lemma_underscore_alias_is_not_read(vals: Seq<nat>)
    requires
        1 <= vals.len() <= 3,
        forall|k: int| 0 <= k < vals.len() ==> #[trigger] vals[k] <= u32::MAX,
    ensures
        ({
            let t = numerals(vals) + seq!['-', 'r', 'e', 'l', 'e', 'a', 's', 'e', '_', 'c', 'a', 'n', 'd', 'i', 'd', 'a', 't', 'e'];
            &&& semver(t, 0) == Ok::<(SemanticVersion, int), Halt>(
                (given_version(vals, ReleaseType::Release), numerals(vals).len() as int),
            )
            &&& consuming(t, semver(t, start(t))) is Err
        }),
{
    let n = numerals(vals);
    let u = seq!['-', 'r', 'e', 'l', 'e', 'a', 's', 'e', '_', 'c', 'a', 'n', 'd', 'i', 'd', 'a', 't', 'e'];
    let t = n + u;
    let e = n.len() as int;
    assert(t.subrange(0, e) =~= n);
    assert(t[e] == '-');
    lemma_numbers_then_dash(t, vals);
    assert(t[e + 1] == 'r');
    assert(t[e + 2] == 'e');
    assert(t[e + 8] == '_');
    assert(!has_tag(t, e + 1, tag_rc())) by {
        assert(t.subrange(e + 1, e + 3)[1] != tag_rc()[1]);
    }
    assert(!has_tag(t, e + 1, tag_release_candidate())) by {
        if e + 17 <= t.len() {
            assert(t.subrange(e + 1, e + 17)[7] != tag_release_candidate()[7]);
        }
    }
    assert(!has_tag(t, e + 1, tag_alpha())) by {
        assert(t.subrange(e + 1, e + 6)[0] != tag_alpha()[0]);
    }
    assert(!has_tag(t, e + 1, tag_beta())) by {
        assert(t.subrange(e + 1, e + 5)[0] != tag_beta()[0]);
    }
    assert(prerelease(t, e) is None);
    assert forall|k: int| 0 <= k < vals.len() implies #[trigger] vals[k] <= u32::MAX by {}
    assert(numbers_fit(vals));
    assert(version_of(vals, ReleaseType::Release) == given_version(vals, ReleaseType::Release));
    assert(crate::text::multispace_end(t, e) == e) by {
        assert(!is_multispace(t[e]));
    }
}

} // verus!
