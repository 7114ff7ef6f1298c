//! What surrounds a dependency solve: reading a request into package ranges,
//! choosing which pre-releases the solve may pick, and which distributions of a
//! solution are kept.
use vstd::prelude::*;

use crate::constants::ROOT_REQUEST;
use crate::distribution_range::DistributionRange;
use crate::env::str_equal;
use crate::parser::grammar::{consuming, package_range, package_version, start};
use crate::parser::outcome::overflows;
use crate::parser::parse_consuming_package_version;
use crate::range::Range;
use crate::release_type::ReleaseType;
use crate::semantic_version::{first_at, lemma_find_char, SemanticVersion};

verus! {

/// The pieces of `s` from `i` on, split at every `c` (empty pieces included, as
/// `str::split` gives them).
pub open spec fn pieces_from(s: Seq<char>, c: char, i: int) -> Seq<Seq<char>>
    decreases s.len() - i,
{
    if i < 0 || i > s.len() {
        Seq::empty()
    } else {
        match first_at(s, i, c) {
            None => seq![s.subrange(i, s.len() as int)],
            Some(j) => if j < i || j >= s.len() {
                Seq::empty()
            } else {
                seq![s.subrange(i, j)] + pieces_from(s, c, j + 1)
            },
        }
    }
}

/// The pieces of `s` split at `c`.
pub open spec fn pieces(s: Seq<char>, c: char) -> Seq<Seq<char>> {
    pieces_from(s, c, 0)
}

/// The package ranges a request gives: each piece that reads as a package range,
/// in order, with its name and range; pieces that do not read are dropped.
pub open spec fn request_ranges(ps: Seq<Seq<char>>) -> Seq<(Seq<char>, Range<SemanticVersion>)>
    decreases ps.len(),
{
    if ps.len() == 0 {
        Seq::empty()
    } else {
        let p = ps[0];
        let rest = request_ranges(ps.drop_first());
        match consuming(p, package_range(p, start(p))) {
            Ok((w, g)) => seq![(p.subrange(start(p), w), g)] + rest,
            Err(_) => rest,
        }
    }
}

/// No piece of a request names a number beyond `u32`.
pub open spec fn request_in_bounds(ps: Seq<Seq<char>>) -> bool {
    forall|k: int| 0 <= k < ps.len() ==> !overflows(package_range(#[trigger] ps[k], start(ps[k])))
}

/// The piece from `i` ends at `j`, at the next `c` or the end.
pub proof fn lemma_pieces_from_step(s: Seq<char>, c: char, i: int, j: int)
    requires
        0 <= i <= j <= s.len(),
        forall|k: int| i <= k < j ==> s[k] != c,
        j < s.len() ==> s[j] == c,
    ensures
        pieces_from(s, c, i) == seq![s.subrange(i, j)] + (if j < s.len() {
            pieces_from(s, c, j + 1)
        } else {
            Seq::<Seq<char>>::empty()
        }),
{
    if j < s.len() {
        crate::semantic_version::lemma_first_at_found(s, i, j, c);
    } else {
        crate::semantic_version::lemma_first_at_absent(s, i, c);
        assert(seq![s.subrange(i, j)] + Seq::<Seq<char>>::empty() =~= seq![s.subrange(i, j)]);
    }
}

/// One step of reading a request: the ranges of what was read and of one more piece.
proof fn lemma_request_ranges_one(seen: Seq<Seq<char>>, p: Seq<char>)
    ensures
        request_ranges(seen.push(p)) == request_ranges(seen) + request_ranges(seq![p]),
        request_ranges(seq![p]) == (match consuming(p, package_range(p, start(p))) {
            Ok((w, g)) => seq![(p.subrange(start(p), w), g)],
            Err(_) => Seq::<(Seq<char>, Range<SemanticVersion>)>::empty(),
        }),
{
    lemma_request_ranges_append(seen, seq![p]);
    assert(seen + seq![p] =~= seen.push(p));
    assert(seq![p].drop_first() =~= Seq::<Seq<char>>::empty());
    assert(request_ranges(Seq::<Seq<char>>::empty()) == Seq::<(Seq<char>, Range<SemanticVersion>)>::empty());
    if let Ok((w, g)) = consuming(p, package_range(p, start(p))) {
        assert(seq![(p.subrange(start(p), w), g)] + Seq::<(Seq<char>, Range<SemanticVersion>)>::empty()
            =~= seq![(p.subrange(start(p), w), g)]);
    }
}

proof fn lemma_request_ranges_append(a: Seq<Seq<char>>, b: Seq<Seq<char>>)
    ensures
        request_ranges(a + b) == request_ranges(a) + request_ranges(b),
    decreases a.len(),
{
    if a.len() == 0 {
        assert(a + b =~= b);
        assert(Seq::<(Seq<char>, Range<SemanticVersion>)>::empty() + request_ranges(b) =~= request_ranges(b));
    } else {
        assert((a + b).drop_first() =~= a.drop_first() + b);
        lemma_request_ranges_append(a.drop_first(), b);
        let p = a[0];
        match consuming(p, package_range(p, start(p))) {
            Ok((w, g)) => {
                assert(seq![(p.subrange(start(p), w), g)] + (request_ranges(a.drop_first()) + request_ranges(b))
                    =~= (seq![(p.subrange(start(p), w), g)] + request_ranges(a.drop_first())) + request_ranges(b));
            },
            Err(_) => {},
        }
    }
}

/// The end of the piece of `c` that starts at `i`: the next space, or the end.
fn piece_end(c: &Vec<char>, i: usize) -> (j: usize)
    requires
        i <= c.len(),
    ensures
        i <= j <= c@.len(),
        forall|k: int| i <= k < j ==> c@[k] != ' ',
        j < c@.len() ==> c@[j as int] == ' ',
{
    let mut j = i;
    while j < c.len() && c[j] != ' '
        invariant
            i <= j <= c@.len(),
            forall|k: int| i <= k < j ==> c@[k] != ' ',
        decreases c@.len() - j,
    {
        j = j + 1;
    }
    j
}

/// Reads a request of package ranges separated by spaces (`maya-1 nuke-^2.2`),
/// keeping the pieces that read as a package range, in order.
pub fn convert_request_str<'a>(request: &'a str) -> (r: Vec<DistributionRange<'a>>)
    requires
        request_in_bounds(pieces(request@, ' ')),
    ensures
        r@.map_values(|d: DistributionRange<'a>| (d.name@, d.range)) == request_ranges(
            pieces(request@, ' '),
        ),
{
    let ghost s = request@;
    let ghost all = pieces(s, ' ');
    let c = crate::text::chars_of(request);
    let n = c.len();
    let mut out: Vec<DistributionRange<'a>> = Vec::new();
    let mut i: usize = 0;
    let ghost mut seen: Seq<Seq<char>> = Seq::empty();
    proof {
        assert(seen + pieces_from(s, ' ', 0) =~= all);
        assert(out@.map_values(|d: DistributionRange<'a>| (d.name@, d.range)) =~= Seq::<(Seq<char>, Range<SemanticVersion>)>::empty());
    }
    loop
        invariant
            s == request@,
            c@ == s,
            n == s.len(),
            i <= n,
            all == pieces(s, ' '),
            request_in_bounds(all),
            seen + pieces_from(s, ' ', i as int) == all,
            out@.map_values(|d: DistributionRange<'a>| (d.name@, d.range)) == request_ranges(seen),
        decreases n - i,
    {
        let j = piece_end(&c, i);
        let piece = request.substring_char(i, j);
        let ghost before = out@.map_values(|d: DistributionRange<'a>| (d.name@, d.range));
        let ghost tail = if j < n {
            pieces_from(s, ' ', j + 1)
        } else {
            Seq::<Seq<char>>::empty()
        };
        proof {
            lemma_pieces_from_step(s, ' ', i as int, j as int);
            assert(piece@ == s.subrange(i as int, j as int));
            assert(all =~= seen.push(piece@) + tail);
            assert(all[seen.len() as int] == piece@);
            assert(!overflows(package_range(piece@, start(piece@))));
            lemma_request_ranges_one(seen, piece@);
        }
        match DistributionRange::from_str(piece) {
            Ok(d) => {
                out.push(d);
                proof {
                    assert(out@.map_values(|d: DistributionRange<'a>| (d.name@, d.range)) =~= before
                        + seq![(d.name@, d.range)]);
                }
            },
            Err(_) => {
                proof {
                    assert(before + Seq::<(Seq<char>, Range<SemanticVersion>)>::empty() =~= before);
                }
            },
        }
        proof {
            seen = seen.push(piece@);
        }
        if j >= n {
            proof {
                assert(seen =~= all);
            }
            return out;
        }
        i = j + 1;
    }
}

/// Replaces the commas of a request with spaces, so that `maya-1,nuke-2` reads
/// as `maya-1 nuke-2`.
pub fn normalize_request(request: &str) -> (r: String)
    ensures
        r@ == request@.map_values(|ch: char| if ch == ',' { ' ' } else { ch }),
{
    proof {
        reveal_strlit(" ");
    }
    let c = crate::text::chars_of(request);
    let mut out = String::new();
    let mut i: usize = 0;
    while i < c.len()
        invariant
            i <= c@.len(),
            c@ == request@,
            out@ == request@.take(i as int).map_values(|ch: char| if ch == ',' { ' ' } else { ch }),
        decreases c@.len() - i,
    {
        let ghost prev = out@;
        if c[i] == ',' {
            out.append(" ");
            proof {
                reveal_strlit(" ");
                assert(" "@ =~= seq![' ']);
            }
        } else {
            let one = request.substring_char(i, i + 1);
            out.append(one);
            proof {
                assert(one@ =~= seq![request@[i as int]]);
            }
        }
        i = i + 1;
        proof {
            assert(request@.take(i as int) =~= request@.take(i - 1).push(request@[i - 1]));
            assert(out@ =~= prev.push(if request@[i - 1] == ',' { ' ' } else { request@[i - 1] }));
            assert(out@ =~= request@.take(i as int).map_values(
                |ch: char| if ch == ',' { ' ' } else { ch },
            ));
        }
    }
    proof {
        assert(request@.take(i as int) =~= request@);
    }
    out
}

/// The lowest release type a solve may pick: any with pre-releases, else only
/// releases.
pub fn min_release_type_for(include_pre: bool) -> (r: ReleaseType)
    ensures
        r == (if include_pre { ReleaseType::Alpha } else { ReleaseType::Release }),
{
    if include_pre {
        ReleaseType::Alpha
    } else {
        ReleaseType::Release
    }
}

/// The pre-releases a request names exactly (`maya-1.2.3-beta`), which a solve
/// that leaves out pre-releases must still be able to pick: each constraint that
/// reads as a package and a pre-release version, in order.
pub open spec fn named_prereleases(cs: Seq<Seq<char>>) -> Seq<(Seq<char>, SemanticVersion)>
    decreases cs.len(),
{
    if cs.len() == 0 {
        Seq::empty()
    } else {
        let c = cs[0];
        let rest = named_prereleases(cs.drop_first());
        match consuming(c, package_version(c, start(c))) {
            Ok((w, v)) => if v.release_type != ReleaseType::Release {
                seq![(c.subrange(start(c), w), v)] + rest
            } else {
                rest
            },
            Err(_) => rest,
        }
    }
}

proof fn lemma_named_prereleases_push(cs: Seq<Seq<char>>, c: Seq<char>)
    ensures
        named_prereleases(cs.push(c)) == named_prereleases(cs) + named_prereleases(seq![c]),
    decreases cs.len(),
{
    if cs.len() == 0 {
        assert(cs.push(c) =~= seq![c]);
        assert(Seq::<(Seq<char>, SemanticVersion)>::empty() + named_prereleases(seq![c]) =~= named_prereleases(seq![c]));
    } else {
        assert(cs.push(c).drop_first() =~= cs.drop_first().push(c));
        lemma_named_prereleases_push(cs.drop_first(), c);
        let x = cs[0];
        match consuming(x, package_version(x, start(x))) {
            Ok((w, v)) => {
                if v.release_type != ReleaseType::Release {
                    assert(seq![(x.subrange(start(x), w), v)] + (named_prereleases(cs.drop_first())
                        + named_prereleases(seq![c])) =~= (seq![(x.subrange(start(x), w), v)]
                        + named_prereleases(cs.drop_first())) + named_prereleases(seq![c]));
                }
            },
            Err(_) => {},
        }
    }
}

/// The pre-releases named by the constraints of a request (see `named_prereleases`).
pub fn prerelease_overrides(constraints: &Vec<&str>) -> (r: Vec<(String, SemanticVersion)>)
    requires
        forall|k: int|
            0 <= k < constraints@.len() ==> !overflows(
                package_version(#[trigger] constraints@[k]@, start(constraints@[k]@)),
            ),
    ensures
        crate::ordered_map::pairs_view(r@) == named_prereleases(constraints@.map_values(|c: &str| c@)),
{
    let ghost cs = constraints@.map_values(|c: &str| c@);
    let mut out: Vec<(String, SemanticVersion)> = Vec::new();
    let mut i: usize = 0;
    proof {
        assert(cs.take(0) =~= Seq::<Seq<char>>::empty());
        assert(crate::ordered_map::pairs_view(out@) =~= Seq::<(Seq<char>, SemanticVersion)>::empty());
    }
    while i < constraints.len()
        invariant
            cs == constraints@.map_values(|c: &str| c@),
            i <= constraints@.len(),
            forall|k: int|
                0 <= k < constraints@.len() ==> !overflows(
                    package_version(#[trigger] constraints@[k]@, start(constraints@[k]@)),
                ),
            crate::ordered_map::pairs_view(out@) == named_prereleases(cs.take(i as int)),
        decreases constraints@.len() - i,
    {
        let c = constraints[i];
        let ghost before = crate::ordered_map::pairs_view(out@);
        proof {
            assert(cs[i as int] == c@);
            assert(cs.take(i + 1) =~= cs.take(i as int).push(c@));
            lemma_named_prereleases_push(cs.take(i as int), c@);
            assert(seq![c@].drop_first() =~= Seq::<Seq<char>>::empty());
            assert(named_prereleases(Seq::<Seq<char>>::empty()) == Seq::<(Seq<char>, SemanticVersion)>::empty());
        }
        match parse_consuming_package_version(c) {
            Ok((name, version)) => {
                if version.release_type.rank_of() < 3 {
                    out.push((String::from_str(name), version));
                    proof {
                        assert(crate::ordered_map::pairs_view(out@) =~= before + seq![(name@, version)]);
                        assert(seq![(name@, version)] + Seq::<(Seq<char>, SemanticVersion)>::empty() =~= seq![(name@, version)]);
                    }
                } else {
                    proof {
                        assert(before + Seq::<(Seq<char>, SemanticVersion)>::empty() =~= before);
                    }
                }
            },
            Err(_) => {
                proof {
                    assert(before + Seq::<(Seq<char>, SemanticVersion)>::empty() =~= before);
                }
            },
        }
        i = i + 1;
    }
    proof {
        assert(cs.take(i as int) =~= cs);
    }
    out
}

/// Whether a distribution of a solution is kept when pre-releases are left out:
/// releases are kept, and so is the distribution that was asked for.
pub fn keep_in_solution(
    name: &str,
    version: SemanticVersion,
    requested_name: &str,
    requested_version: SemanticVersion,
) -> (b: bool)
    ensures
        b == (version.release_type == ReleaseType::Release || (name@ == requested_name@ && version
            == requested_version)),
{
    version.release_type.rank_of() >= 3 || (str_equal(name, requested_name) && version
        == requested_version)
}

/// A solved package other than the one that holds the request.
pub open spec fn not_root_request() -> spec_fn((Seq<char>, SemanticVersion)) -> bool {
    |p: (Seq<char>, SemanticVersion)| p.0 != ROOT_REQUEST@
}

/// A solution without the package that holds the request.
pub fn without_root_request(solution: &Vec<(String, SemanticVersion)>) -> (r: Vec<(String, SemanticVersion)>)
    ensures
        crate::ordered_map::pairs_view(r@) == crate::ordered_map::pairs_view(solution@).filter(
            not_root_request(),
        ),
{
    let ghost sv = crate::ordered_map::pairs_view(solution@);
    let mut out: Vec<(String, SemanticVersion)> = Vec::new();
    let mut k: usize = 0;
    proof {
        assert(sv.take(0) =~= Seq::<(Seq<char>, SemanticVersion)>::empty());
        assert(sv.take(0).filter(not_root_request()) =~= Seq::<(Seq<char>, SemanticVersion)>::empty());
        assert(crate::ordered_map::pairs_view(out@) =~= Seq::<(Seq<char>, SemanticVersion)>::empty());
    }
    while k < solution.len()
        invariant
            sv == crate::ordered_map::pairs_view(solution@),
            k <= solution@.len(),
            crate::ordered_map::pairs_view(out@) == sv.take(k as int).filter(not_root_request()),
        decreases solution@.len() - k,
    {
        proof {
            assert(sv[k as int] == (solution@[k as int].0@, solution@[k as int].1));
            assert(sv.take(k + 1) =~= sv.take(k as int).push(sv[k as int]));
            sv.take(k as int).lemma_filter_push(sv[k as int], not_root_request());
        }
        if !str_equal(solution[k].0.as_str(), ROOT_REQUEST) {
            let ghost prev = out@;
            let name = solution[k].0.clone();
            out.push((name, solution[k].1));
            proof {
                assert(crate::ordered_map::pairs_view(out@) =~= crate::ordered_map::pairs_view(prev).push(sv[k as int]));
            }
        }
        k = k + 1;
    }
    proof {
        assert(sv.take(k as int) =~= sv);
    }
    out
}

/// The distributions (`name-version`) among the first `n` of a solution whose
/// manifest was not found (`found[k]` false), the package that holds the request
/// left out, in order.
pub open spec fn missing_upto(sol: Seq<(Seq<char>, SemanticVersion)>, found: Seq<bool>, n: int) -> Seq<Seq<char>>
    decreases n,
{
    if n <= 0 {
        Seq::empty()
    } else {
        let prev = missing_upto(sol, found, n - 1);
        let e = sol[n - 1];
        if !found[n - 1] && e.0 != ROOT_REQUEST@ {
            prev.push(crate::distribution::distribution_text(e.0, e.1))
        } else {
            prev
        }
    }
}

/// The distributions of a solution whose manifest was not found (`found` tells,
/// for each entry of the solution, whether its manifest was), in order; the
/// package that holds the request is never missing.
pub fn missing_distributions(solution: &Vec<(String, SemanticVersion)>, found: &Vec<bool>) -> (r: Vec<String>)
    requires
        found@.len() == solution@.len(),
    ensures
        r@.map_values(|s: String| s@) == missing_upto(
            crate::ordered_map::pairs_view(solution@),
            found@,
            solution@.len() as int,
        ),
{
    let ghost sv = crate::ordered_map::pairs_view(solution@);
    let mut out: Vec<String> = Vec::new();
    let mut k: usize = 0;
    proof {
        assert(out@.map_values(|s: String| s@) =~= Seq::<Seq<char>>::empty());
    }
    while k < solution.len()
        invariant
            sv == crate::ordered_map::pairs_view(solution@),
            found@.len() == solution@.len(),
            k <= solution@.len(),
            out@.map_values(|s: String| s@) == missing_upto(sv, found@, k as int),
        decreases solution@.len() - k,
    {
        proof {
            assert(sv[k as int] == (solution@[k as int].0@, solution@[k as int].1));
        }
        if !found[k] && !str_equal(solution[k].0.as_str(), ROOT_REQUEST) {
            let ghost prev = out@;
            let d = crate::lock::LockFile::dist_tuple_to_string((&solution[k].0, &solution[k].1));
            out.push(d);
            proof {
                assert(out@.map_values(|s: String| s@) =~= prev.map_values(|s: String| s@).push(d@));
            }
        }
        k = k + 1;
    }
    out
}

} // verus!
