//! The tree of a solve as it is shown: each requested package with the version
//! the solve picked, followed, one level deeper, by the packages its
//! distribution requires; a distribution shown before is marked and not
//! expanded again.
use vstd::prelude::*;

use crate::distribution::distribution_text;
use crate::env::str_equal;
use crate::error::PesError;
use crate::ordered_map::{key_index, lemma_key_index, map_get, pairs_view};
use crate::semantic_version::{first_at, lemma_find_char, SemanticVersion};

verus! {

/// What a solve tree is drawn for: the constraints of a request, or a target
/// of a distribution.
pub enum PresentationInput<'a> {
    Constraints(Vec<&'a str>),
    Target { distribution: &'a str, target: &'a str },
}

/// One line of a solve tree.
#[derive(Debug, Clone, PartialEq, Eq)]
pub struct TreeLine {
    /// How deep the line is nested
    pub depth: usize,
    /// The distribution, `name-version`
    pub distribution: String,
    /// Whether the distribution was shown before (and is not expanded again)
    pub repeated: bool,
}

/// A line of a solve tree by its values.
pub type LineView = (nat, Seq<char>, bool);

/// The package a request names: the text up to its first `-`.
pub open spec fn package_of(d: Seq<char>) -> Seq<char> {
    match first_at(d, 0, '-') {
        Some(j) => d.subrange(0, j),
        None => d,
    }
}

/// The package a request names is the text before its first `-`: for a package
/// name `n` and any text `r`, the request `n-r` (a distribution with any written
/// version, pre-releases included) names `n`, and a bare name names itself.
pub proof fn lemma_package_of_request(n: Seq<char>, r: Seq<char>)
    requires
        crate::parser::laws::is_package_name(n),
    ensures
        package_of(n + seq!['-'] + r) == n,
        package_of(n) == n,
{
    let d = n + seq!['-'] + r;
    assert forall|j: int| 0 <= j < n.len() implies d[j] != '-' by {
        assert(d[j] == n[j]);
        assert(crate::text::is_word_char(n[j]));
    }
    assert(d[n.len() as int] == '-');
    crate::semantic_version::lemma_first_at_found(d, 0, n.len() as int, '-');
    assert(d.subrange(0, n.len() as int) =~= n);
    assert forall|j: int| 0 <= j < n.len() implies n[j] != '-' by {
        assert(crate::text::is_word_char(n[j]));
    }
    crate::semantic_version::lemma_first_at_absent(n, 0, '-');
}

/// What each distribution requires, by package name; nothing when not listed.
pub open spec fn requires_in(reqs: Seq<(Seq<char>, Seq<Seq<char>>)>, d: Seq<char>) -> Seq<Seq<char>> {
    match map_get(reqs, d) {
        Some(r) => r,
        None => Seq::empty(),
    }
}

/// The lines of the tree of `packages` at `depth`, with the distributions shown
/// so far `memo`: the lines and the distributions shown after them, or the first
/// package the solution does not hold. A distribution is expanded at most `fuel`
/// levels deep.
pub open spec fn walk(
    sol: Seq<(Seq<char>, SemanticVersion)>,
    reqs: Seq<(Seq<char>, Seq<Seq<char>>)>,
    packages: Seq<Seq<char>>,
    memo: Set<Seq<char>>,
    depth: nat,
    fuel: nat,
) -> Result<(Seq<LineView>, Set<Seq<char>>), Seq<char>>
    decreases fuel, packages.len(),
{
    if packages.len() == 0 || fuel == 0 {
        Ok((Seq::empty(), memo))
    } else {
        let pkg = package_of(packages[0]);
        match map_get(sol, pkg) {
            None => Err(pkg),
            Some(v) => {
                let d = distribution_text(pkg, v);
                if memo.contains(d) {
                    match walk(sol, reqs, packages.drop_first(), memo, depth, fuel) {
                        Err(e) => Err(e),
                        Ok((ls, m)) => Ok((seq![(depth, d, true)] + ls, m)),
                    }
                } else {
                    match walk(sol, reqs, requires_in(reqs, d), memo.insert(d), depth + 1, (fuel - 1) as nat) {
                        Err(e) => Err(e),
                        Ok((sub, m1)) => match walk(sol, reqs, packages.drop_first(), m1, depth, fuel) {
                            Err(e) => Err(e),
                            Ok((ls, m2)) => Ok((seq![(depth, d, false)] + sub + ls, m2)),
                        },
                    }
                }
            },
        }
    }
}

/// The lines of the tree of `packages` for a solution: nesting is bounded by the
/// number of distributions solved, as each level shows a distribution not shown
/// above it.
pub open spec fn solve_tree_spec(
    sol: Seq<(Seq<char>, SemanticVersion)>,
    reqs: Seq<(Seq<char>, Seq<Seq<char>>)>,
    packages: Seq<Seq<char>>,
) -> Result<Seq<LineView>, Seq<char>> {
    match walk(sol, reqs, packages, Set::empty(), 0, sol.len() + 1) {
        Ok((ls, _)) => Ok(ls),
        Err(p) => Err(p),
    }
}

/// The distributions of a solution, `name-version` each.
pub open spec fn solution_dists(sol: Seq<(Seq<char>, SemanticVersion)>) -> Set<Seq<char>> {
    sol.map_values(|p: (Seq<char>, SemanticVersion)| distribution_text(p.0, p.1)).to_set()
}

/// A walk only adds to the distributions shown.
proof fn lemma_walk_memo_grows(
    sol: Seq<(Seq<char>, SemanticVersion)>,
    reqs: Seq<(Seq<char>, Seq<Seq<char>>)>,
    packages: Seq<Seq<char>>,
    memo: Set<Seq<char>>,
    depth: nat,
    fuel: nat,
)
    ensures
        walk(sol, reqs, packages, memo, depth, fuel) matches Ok((_, m)) ==> memo.subset_of(m),
    decreases fuel, packages.len(),
{
    if packages.len() > 0 && fuel > 0 {
        let pkg = package_of(packages[0]);
        if let Some(v) = map_get(sol, pkg) {
            let d = distribution_text(pkg, v);
            if memo.contains(d) {
                lemma_walk_memo_grows(sol, reqs, packages.drop_first(), memo, depth, fuel);
            } else {
                let sub = walk(sol, reqs, requires_in(reqs, d), memo.insert(d), depth + 1, (fuel - 1) as nat);
                lemma_walk_memo_grows(sol, reqs, requires_in(reqs, d), memo.insert(d), depth + 1, (fuel - 1) as nat);
                if let Ok((_, m1)) = sub {
                    lemma_walk_memo_grows(sol, reqs, packages.drop_first(), m1, depth, fuel);
                }
            }
        }
    }
}

/// A walk with more fuel than distributions left to show is not cut short:
/// any more fuel gives the same result.
proof fn lemma_walk_fuel(
    sol: Seq<(Seq<char>, SemanticVersion)>,
    reqs: Seq<(Seq<char>, Seq<Seq<char>>)>,
    packages: Seq<Seq<char>>,
    memo: Set<Seq<char>>,
    depth: nat,
    fuel: nat,
    more: nat,
)
    requires
        fuel <= more,
        fuel > solution_dists(sol).difference(memo).len(),
    ensures
        walk(sol, reqs, packages, memo, depth, fuel) == walk(sol, reqs, packages, memo, depth, more),
    decreases fuel, packages.len(),
{
    broadcast use vstd::set::group_set_axioms, vstd::seq_lib::seq_to_set_is_finite;

    let dists = solution_dists(sol);
    if packages.len() > 0 {
        let pkg = package_of(packages[0]);
        if let Some(v) = map_get(sol, pkg) {
            let d = distribution_text(pkg, v);
            if memo.contains(d) {
                lemma_walk_fuel(sol, reqs, packages.drop_first(), memo, depth, fuel, more);
            } else {
                lemma_key_index(sol, pkg);
                let i = key_index(sol, pkg).unwrap();
                let names = sol.map_values(|p: (Seq<char>, SemanticVersion)| distribution_text(p.0, p.1));
                assert(names[i] == d);
                assert(dists.contains(d));
                let left = dists.difference(memo);
                assert(left.contains(d));
                assert(dists.difference(memo.insert(d)) =~= left.remove(d));
                let memo1 = memo.insert(d);
                lemma_walk_fuel(sol, reqs, requires_in(reqs, d), memo1, depth + 1, (fuel - 1) as nat, (more - 1) as nat);
                lemma_walk_memo_grows(sol, reqs, requires_in(reqs, d), memo1, depth + 1, (fuel - 1) as nat);
                if let Ok((_, m1)) = walk(sol, reqs, requires_in(reqs, d), memo1, depth + 1, (fuel - 1) as nat) {
                    assert(dists.difference(m1).subset_of(dists.difference(memo1)));
                    vstd::set_lib::lemma_len_subset(dists.difference(m1), dists.difference(memo1));
                    lemma_walk_fuel(sol, reqs, packages.drop_first(), m1, depth, fuel, more);
                }
            }
        }
    }
}

/// The nesting bound of a solve tree never cuts it short: a walk with any more
/// fuel than the number of distributions solved gives the same tree.
pub proof fn lemma_solve_tree_not_cut(
    sol: Seq<(Seq<char>, SemanticVersion)>,
    reqs: Seq<(Seq<char>, Seq<Seq<char>>)>,
    packages: Seq<Seq<char>>,
    fuel: nat,
)
    requires
        fuel >= sol.len() + 1,
    ensures
        walk(sol, reqs, packages, Set::empty(), 0, fuel) == walk(
            sol,
            reqs,
            packages,
            Set::empty(),
            0,
            sol.len() + 1,
        ),
{
    broadcast use vstd::set::group_set_axioms, vstd::seq_lib::seq_to_set_is_finite;

    let names = sol.map_values(|p: (Seq<char>, SemanticVersion)| distribution_text(p.0, p.1));
    names.lemma_cardinality_of_set();
    assert(solution_dists(sol).difference(Set::empty()) =~= solution_dists(sol));
    lemma_walk_fuel(sol, reqs, packages, Set::empty(), 0, sol.len() + 1, fuel);
}

/// The distributions of the lines that expand one (not marked as shown before),
/// in order.
pub open spec fn expanded(ls: Seq<LineView>) -> Seq<Seq<char>>
    decreases ls.len(),
{
    if ls.len() == 0 {
        Seq::empty()
    } else if ls[0].2 {
        expanded(ls.drop_first())
    } else {
        seq![ls[0].1] + expanded(ls.drop_first())
    }
}

proof fn lemma_expanded_add(a: Seq<LineView>, b: Seq<LineView>)
    ensures
        expanded(a + b) == expanded(a) + expanded(b),
    decreases a.len(),
{
    if a.len() == 0 {
        assert(a + b =~= b);
        assert(expanded(a) + expanded(b) =~= expanded(b));
    } else {
        assert((a + b).drop_first() =~= a.drop_first() + b);
        lemma_expanded_add(a.drop_first(), b);
        assert((a + b)[0] == a[0]);
        if !a[0].2 {
            assert(seq![a[0].1] + (expanded(a.drop_first()) + expanded(b)) =~= (seq![a[0].1] + expanded(
                a.drop_first(),
            )) + expanded(b));
        }
    }
}

proof fn lemma_no_duplicates_add(a: Seq<Seq<char>>, b: Seq<Seq<char>>)
    requires
        a.no_duplicates(),
        b.no_duplicates(),
        forall|x: Seq<char>| a.contains(x) ==> !b.contains(x),
    ensures
        (a + b).no_duplicates(),
{
    let c = a + b;
    assert forall|i: int, j: int| 0 <= i < c.len() && 0 <= j < c.len() && i != j implies c[i] != c[j] by {
        if i < a.len() && j >= a.len() {
            assert(a.contains(c[i]));
            assert(b[j - a.len()] == c[j]);
            assert(b.contains(c[j]));
        } else if j < a.len() && i >= a.len() {
            assert(a.contains(c[j]));
            assert(b[i - a.len()] == c[i]);
            assert(b.contains(c[i]));
        } else if i >= a.len() && j >= a.len() {
            assert(c[i] == b[i - a.len()] && c[j] == b[j - a.len()]);
        }
    }
}

/// A walk expands each distribution once: the distributions it expands are
/// distinct, none was shown before, and afterwards the distributions shown are
/// those shown before and those expanded.
proof fn lemma_walk_expands_once(
    sol: Seq<(Seq<char>, SemanticVersion)>,
    reqs: Seq<(Seq<char>, Seq<Seq<char>>)>,
    packages: Seq<Seq<char>>,
    memo: Set<Seq<char>>,
    depth: nat,
    fuel: nat,
)
    ensures
        walk(sol, reqs, packages, memo, depth, fuel) matches Ok((ls, m)) ==> {
            &&& expanded(ls).no_duplicates()
            &&& forall|x: Seq<char>| expanded(ls).contains(x) ==> !memo.contains(x)
            &&& m == memo.union(expanded(ls).to_set())
        },
    decreases fuel, packages.len(),
{
    if packages.len() == 0 || fuel == 0 {
        assert(memo.union(expanded(Seq::<LineView>::empty()).to_set()) =~= memo);
    } else {
        let pkg = package_of(packages[0]);
        if let Some(v) = map_get(sol, pkg) {
            let d = distribution_text(pkg, v);
            if memo.contains(d) {
                lemma_walk_expands_once(sol, reqs, packages.drop_first(), memo, depth, fuel);
                if let Ok((ls, m)) = walk(sol, reqs, packages.drop_first(), memo, depth, fuel) {
                    let all = seq![(depth, d, true)] + ls;
                    assert(all.drop_first() =~= ls);
                }
            } else {
                let memo1 = memo.insert(d);
                lemma_walk_expands_once(sol, reqs, requires_in(reqs, d), memo1, depth + 1, (fuel - 1) as nat);
                if let Ok((sub, m1)) = walk(sol, reqs, requires_in(reqs, d), memo1, depth + 1, (fuel - 1) as nat) {
                    lemma_walk_expands_once(sol, reqs, packages.drop_first(), m1, depth, fuel);
                    if let Ok((ls2, m2)) = walk(sol, reqs, packages.drop_first(), m1, depth, fuel) {
                        let first: Seq<LineView> = seq![(depth, d, false)];
                        let all = first + sub + ls2;
                        assert(all.drop_first() =~= sub + ls2);
                        lemma_expanded_add(sub, ls2);
                        let es = expanded(sub);
                        let e2 = expanded(ls2);
                        assert(expanded(all) == seq![d] + (es + e2));
                        assert(memo1.contains(d));
                        assert(m1.contains(d));
                        assert(!es.contains(d));
                        assert(!e2.contains(d));
                        assert(expanded(all)[0] == d);
                        assert forall|x: Seq<char>| es.contains(x) implies !e2.contains(x) by {
                            assert(m1.contains(x));
                        }
                        lemma_no_duplicates_add(es, e2);
                        assert forall|x: Seq<char>| seq![d].contains(x) implies !(es + e2).contains(x) by {
                            assert(x == d);
                            if (es + e2).contains(x) {
                                let k = choose|k: int| 0 <= k < (es + e2).len() && (es + e2)[k] == x;
                                if k < es.len() {
                                    assert(es.contains(x));
                                } else {
                                    assert(e2[k - es.len()] == x);
                                    assert(e2.contains(x));
                                }
                            }
                        }
                        assert(seq![d].no_duplicates());
                        lemma_no_duplicates_add(seq![d], es + e2);
                        assert forall|x: Seq<char>| expanded(all).contains(x) implies !memo.contains(x) by {
                            let k = choose|k: int| 0 <= k < expanded(all).len() && expanded(all)[k] == x;
                            if k == 0 {
                                assert(x == d);
                            } else if k - 1 < es.len() {
                                assert(es[k - 1] == x);
                                assert(es.contains(x));
                                assert(!memo1.contains(x));
                            } else {
                                assert(e2[k - 1 - es.len()] == x);
                                assert(e2.contains(x));
                                assert(!m1.contains(x));
                                assert(memo.subset_of(m1));
                            }
                        }
                        assert forall|x: Seq<char>| m2.contains(x) <==> memo.union(expanded(all).to_set()).contains(x) by {
                            if expanded(all).contains(x) {
                                let k = choose|k: int| 0 <= k < expanded(all).len() && expanded(all)[k] == x;
                                if k == 0 {
                                } else if k - 1 < es.len() {
                                    assert(es[k - 1] == x);
                                    assert(es.contains(x));
                                } else {
                                    assert(e2[k - 1 - es.len()] == x);
                                    assert(e2.contains(x));
                                }
                            }
                            if es.contains(x) {
                                let k = choose|k: int| 0 <= k < es.len() && es[k] == x;
                                assert(expanded(all)[k + 1] == x);
                            }
                            if e2.contains(x) {
                                let k = choose|k: int| 0 <= k < e2.len() && e2[k] == x;
                                assert(expanded(all)[k + 1 + es.len()] == x);
                            }
                            assert(expanded(all)[0] == d);
                        }
                        assert(m2 =~= memo.union(expanded(all).to_set()));
                    }
                }
            }
        }
    }
}

/// A solve tree expands each distribution at most once: the lines not marked
/// as shown before name distinct distributions.
pub proof fn lemma_solve_tree_expands_once(
    sol: Seq<(Seq<char>, SemanticVersion)>,
    reqs: Seq<(Seq<char>, Seq<Seq<char>>)>,
    packages: Seq<Seq<char>>,
)
    ensures
        solve_tree_spec(sol, reqs, packages) matches Ok(ls) ==> expanded(ls).no_duplicates(),
{
    lemma_walk_expands_once(sol, reqs, packages, Set::empty(), 0, sol.len() + 1);
}

/// A walk fails only on a package the solution does not hold.
proof fn lemma_walk_fails_on_missing(
    sol: Seq<(Seq<char>, SemanticVersion)>,
    reqs: Seq<(Seq<char>, Seq<Seq<char>>)>,
    packages: Seq<Seq<char>>,
    memo: Set<Seq<char>>,
    depth: nat,
    fuel: nat,
)
    ensures
        walk(sol, reqs, packages, memo, depth, fuel) matches Err(p) ==> map_get(sol, p) is None,
    decreases fuel, packages.len(),
{
    if packages.len() > 0 && fuel > 0 {
        let pkg = package_of(packages[0]);
        if let Some(v) = map_get(sol, pkg) {
            let d = distribution_text(pkg, v);
            if memo.contains(d) {
                lemma_walk_fails_on_missing(sol, reqs, packages.drop_first(), memo, depth, fuel);
            } else {
                lemma_walk_fails_on_missing(sol, reqs, requires_in(reqs, d), memo.insert(d), depth + 1, (fuel - 1) as nat);
                if let Ok((_, m1)) = walk(sol, reqs, requires_in(reqs, d), memo.insert(d), depth + 1, (fuel - 1) as nat) {
                    lemma_walk_fails_on_missing(sol, reqs, packages.drop_first(), m1, depth, fuel);
                }
            }
        }
    }
}

/// A request for a distribution `n-r` (any written version, pre-releases
/// included) of a package `n` the solution holds at `v` is shown first as
/// `n-v`, not repeated, at depth 0; a failing tree fails only on a package the
/// solution does not hold.
pub proof fn lemma_solve_tree_of_distribution_request(
    sol: Seq<(Seq<char>, SemanticVersion)>,
    reqs: Seq<(Seq<char>, Seq<Seq<char>>)>,
    n: Seq<char>,
    r: Seq<char>,
    v: SemanticVersion,
)
    requires
        crate::parser::laws::is_package_name(n),
        map_get(sol, n) == Some(v),
    ensures
        match solve_tree_spec(sol, reqs, seq![n + seq!['-'] + r]) {
            Ok(ls) => ls.len() >= 1 && ls[0] == (0nat, distribution_text(n, v), false),
            Err(p) => map_get(sol, p) is None,
        },
{
    let packages = seq![n + seq!['-'] + r];
    let fuel = (sol.len() + 1) as nat;
    lemma_package_of_request(n, r);
    lemma_walk_fails_on_missing(sol, reqs, packages, Set::empty(), 0, fuel);
    lemma_key_index(sol, n);
    assert(packages.drop_first() =~= Seq::<Seq<char>>::empty());
    let d = distribution_text(n, v);
    if let Ok((sub, m1)) = walk(sol, reqs, requires_in(reqs, d), Set::<Seq<char>>::empty().insert(d), 1, (fuel - 1) as nat) {
        let ls = seq![(0nat, d, false)] + sub + Seq::<LineView>::empty();
        assert(ls[0] == (0nat, d, false));
    }
}

/// The lines by their values.
pub open spec fn lines_view(lines: Seq<TreeLine>) -> Seq<LineView> {
    lines.map_values(|l: TreeLine| (l.depth as nat, l.distribution@, l.repeated))
}

/// The requirement lists by their characters.
pub open spec fn reqs_view(reqs: Seq<(String, Vec<String>)>) -> Seq<(Seq<char>, Seq<Seq<char>>)> {
    reqs.map_values(|e: (String, Vec<String>)| (e.0@, e.1@.map_values(|s: String| s@)))
}

/// The package a request names (see `package_of`).
fn package_name<'a>(d: &'a str) -> (r: &'a str)
    ensures
        r@ == package_of(d@),
{
    let c = crate::text::chars_of(d);
    let mut j: usize = 0;
    while j < c.len() && c[j] != '-'
        invariant
            c@ == d@,
            j <= c@.len(),
            forall|k: int| 0 <= k < j ==> c@[k] != '-',
        decreases c@.len() - j,
    {
        j = j + 1;
    }
    proof {
        if j < c.len() {
            crate::semantic_version::lemma_first_at_found(d@, 0, j as int, '-');
        } else {
            crate::semantic_version::lemma_first_at_absent(d@, 0, '-');
            assert(d@.subrange(0, j as int) =~= d@);
        }
    }
    d.substring_char(0, j)
}

/// Whether `memo` holds `d`.
fn shown(memo: &Vec<String>, d: &str) -> (b: bool)
    ensures
        b == memo@.map_values(|s: String| s@).to_set().contains(d@),
{
    let ghost mv = memo@.map_values(|s: String| s@);
    let mut i: usize = 0;
    while i < memo.len()
        invariant
            mv == memo@.map_values(|s: String| s@),
            i <= memo@.len(),
            forall|k: int| 0 <= k < i ==> mv[k] != d@,
        decreases memo@.len() - i,
    {
        if str_equal(memo[i].as_str(), d) {
            proof {
                assert(mv.contains(d@)) by {
                    assert(mv[i as int] == d@);
                }
            }
            return true;
        }
        i = i + 1;
    }
    proof {
        assert(!mv.to_set().contains(d@)) by {
            if mv.to_set().contains(d@) {
                let k = mv.index_of(d@);
                assert(mv[k] == d@);
            }
        }
    }
    false
}

/// The version of package `p` in a solution.
fn version_of_package(sol: &Vec<(String, SemanticVersion)>, p: &str) -> (r: Option<SemanticVersion>)
    ensures
        r == map_get(pairs_view(sol@), p@),
{
    proof {
        lemma_key_index(pairs_view(sol@), p@);
    }
    match crate::ordered_map::find_key(sol, p) {
        Some(i) => Some(sol[i].1),
        None => None,
    }
}

/// The requirements listed for distribution `d`.
fn requires_for<'a>(reqs: &'a Vec<(String, Vec<String>)>, d: &str) -> (r: Option<&'a Vec<String>>)
    ensures
        match r {
            Some(v) => v@.map_values(|s: String| s@) == requires_in(reqs_view(reqs@), d@),
            None => requires_in(reqs_view(reqs@), d@) == Seq::<Seq<char>>::empty(),
        },
{
    proof {
        lemma_key_index(pairs_view(reqs@), d@);
        lemma_key_index(reqs_view(reqs@), d@);
        crate::ordered_map::lemma_key_index_same_keys(pairs_view(reqs@), reqs_view(reqs@), d@, 0);
    }
    match crate::ordered_map::find_key(reqs, d) {
        Some(i) => Some(&reqs[i].1),
        None => None,
    }
}

/// A tree walked so far, followed by the walk of the rest.
pub open spec fn after(
    done: Seq<LineView>,
    rest: Result<(Seq<LineView>, Set<Seq<char>>), Seq<char>>,
) -> Result<(Seq<LineView>, Set<Seq<char>>), Seq<char>> {
    match rest {
        Ok((ls, m)) => Ok((done + ls, m)),
        Err(e) => Err(e),
    }
}

/// Appends the lines of the tree of `packages` to `out`, tracking the
/// distributions shown in `memo` (see `walk`).
fn walk_tree(
    sol: &Vec<(String, SemanticVersion)>,
    reqs: &Vec<(String, Vec<String>)>,
    packages: &Vec<String>,
    memo: &mut Vec<String>,
    depth: usize,
    fuel: usize,
    out: &mut Vec<TreeLine>,
) -> (r: Result<(), PesError>)
    requires
        depth + fuel < usize::MAX,
    ensures
        match walk(
            pairs_view(sol@),
            reqs_view(reqs@),
            packages@.map_values(|s: String| s@),
            old(memo)@.map_values(|s: String| s@).to_set(),
            depth as nat,
            fuel as nat,
        ) {
            Ok((ls, m)) => r is Ok && lines_view(final(out)@) == lines_view(old(out)@) + ls
                && final(memo)@.map_values(|s: String| s@).to_set() == m,
            Err(p) => r matches Err(PesError::DistributionNotFound(q)) && q@ == p,
        },
    decreases fuel,
{
    let ghost s = pairs_view(sol@);
    let ghost rv = reqs_view(reqs@);
    let ghost ps = packages@.map_values(|x: String| x@);
    let ghost m0 = memo@.map_values(|x: String| x@).to_set();
    let ghost out0 = lines_view(out@);
    if fuel == 0 {
        proof {
            assert(lines_view(out@) =~= out0 + Seq::<LineView>::empty());
        }
        return Ok(());
    }
    let mut i: usize = 0;
    proof {
        assert(ps.skip(0) =~= ps);
        if let Ok((ls, m)) = walk(s, rv, ps, m0, depth as nat, fuel as nat) {
            assert(out0 + ls =~= lines_view(out@) + ls);
        }
        assert(walk(s, rv, ps, m0, depth as nat, fuel as nat) == after(
            lines_view(out@).subrange(out0.len() as int, lines_view(out@).len() as int),
            walk(s, rv, ps.skip(0), memo@.map_values(|x: String| x@).to_set(), depth as nat, fuel as nat),
        )) by {
            assert(lines_view(out@).subrange(out0.len() as int, lines_view(out@).len() as int) =~= Seq::<LineView>::empty());
            if let Ok((ls, m)) = walk(s, rv, ps, m0, depth as nat, fuel as nat) {
                assert(Seq::<LineView>::empty() + ls =~= ls);
            }
        }
    }
    while i < packages.len()
        invariant
            fuel > 0,
            depth + fuel < usize::MAX,
            s == pairs_view(sol@),
            rv == reqs_view(reqs@),
            ps == packages@.map_values(|x: String| x@),
            i <= packages@.len(),
            out0.len() <= lines_view(out@).len(),
            lines_view(out@).subrange(0, out0.len() as int) == out0,
            walk(s, rv, ps, m0, depth as nat, fuel as nat) == after(
                lines_view(out@).subrange(out0.len() as int, lines_view(out@).len() as int),
                walk(s, rv, ps.skip(i as int), memo@.map_values(|x: String| x@).to_set(), depth as nat, fuel as nat),
            ),
            m0 == old(memo)@.map_values(|x: String| x@).to_set(),
            out0 == lines_view(old(out)@),
        decreases packages@.len() - i,
    {
        let ghost mi = memo@.map_values(|x: String| x@).to_set();
        let ghost done = lines_view(out@).subrange(out0.len() as int, lines_view(out@).len() as int);
        let pkg = package_name(packages[i].as_str());
        proof {
            assert(ps.skip(i as int)[0] == ps[i as int]);
            assert(ps.skip(i as int).drop_first() =~= ps.skip(i + 1));
        }
        let version = match version_of_package(sol, pkg) {
            None => {
                return Err(PesError::DistributionNotFound(String::from_str(pkg)));
            },
            Some(v) => v,
        };
        let d = crate::distribution::Distribution::new(pkg, version).to_string();
        if shown(memo, d.as_str()) {
            let ghost before = lines_view(out@);
            out.push(TreeLine { depth, distribution: d, repeated: true });
            proof {
                assert(lines_view(out@) =~= before.push((depth as nat, d@, true)));
                assert(lines_view(out@).subrange(0, out0.len() as int) =~= before.subrange(0, out0.len() as int));
                let done2 = lines_view(out@).subrange(out0.len() as int, lines_view(out@).len() as int);
                assert(done2 =~= done + seq![(depth as nat, d@, true)]);
                if let Ok((ls, m)) = walk(s, rv, ps.skip(i + 1), mi, depth as nat, fuel as nat) {
                    assert(done + (seq![(depth as nat, d@, true)] + ls) =~= done2 + ls);
                }
            }
        } else {
            let ghost before = lines_view(out@);
            let dist = d.clone();
            out.push(TreeLine { depth, distribution: d, repeated: false });
            let ghost pm = memo@.map_values(|x: String| x@);
            let ghost pv = memo@;
            memo.push(dist.clone());
            proof {
                assert(memo@ == pv.push(dist));
                let nm = memo@.map_values(|x: String| x@);
                assert(nm =~= pm.push(dist@));
                assert forall|x: Seq<char>| nm.to_set().contains(x) <==> mi.insert(dist@).contains(x) by {
                    if nm.contains(x) {
                        let k = nm.index_of(x);
                        if k < pm.len() {
                            assert(pm[k] == x);
                            assert(pm.contains(x));
                        }
                    }
                    if pm.contains(x) {
                        let k = pm.index_of(x);
                        assert(nm[k] == x);
                    }
                    if x == dist@ {
                        assert(nm[pm.len() as int] == x);
                    }
                }
                assert(nm.to_set() =~= mi.insert(dist@));
            }
            let ghost mid = lines_view(out@);
            let empty: Vec<String> = Vec::new();
            let sub = match requires_for(reqs, dist.as_str()) {
                Some(v) => v,
                None => &empty,
            };
            proof {
                assert(empty@.map_values(|x: String| x@) =~= Seq::<Seq<char>>::empty());
            }
            match walk_tree(sol, reqs, sub, memo, depth + 1, fuel - 1, out) {
                Err(e) => {
                    return Err(e);
                },
                Ok(()) => {},
            }
            proof {
                match walk(s, rv, requires_in(rv, dist@), mi.insert(dist@), (depth + 1) as nat, (fuel - 1) as nat) {
                    Ok((subl, m1)) => {
                        assert(lines_view(out@).subrange(0, out0.len() as int) =~= before.subrange(0, out0.len() as int)) by {
                            assert forall|k: int| 0 <= k < out0.len() implies lines_view(out@)[k] == before[k] by {
                                assert(lines_view(out@)[k] == (mid + subl)[k]);
                                assert(mid[k] == before[k]);
                            }
                        }
                        let done2 = lines_view(out@).subrange(out0.len() as int, lines_view(out@).len() as int);
                        assert(done2 =~= done + seq![(depth as nat, dist@, false)] + subl);
                        if let Ok((ls, m2)) = walk(s, rv, ps.skip(i + 1), m1, depth as nat, fuel as nat) {
                            assert(done + (seq![(depth as nat, dist@, false)] + subl + ls) =~= done2 + ls);
                        }
                    },
                    Err(_) => {},
                }
            }
        }
        i = i + 1;
    }
    proof {
        assert(ps.skip(i as int) =~= Seq::<Seq<char>>::empty());
        let done = lines_view(out@).subrange(out0.len() as int, lines_view(out@).len() as int);
        assert(done + Seq::<LineView>::empty() =~= done);
        assert(lines_view(out@) =~= out0 + done);
    }
    Ok(())
}

/// The tree of a solve: `packages` are the requested packages (a request may name
/// a distribution, `name-version`, of which the name counts), `solution` the
/// versions solved, and `needs` what each distribution's target requires, by
/// package name. A requested package the solution does not hold is an error.
pub fn solve_tree(
    packages: &Vec<String>,
    solution: &Vec<(String, SemanticVersion)>,
    needs: &Vec<(String, Vec<String>)>,
) -> (r: Result<Vec<TreeLine>, PesError>)
    requires
        solution@.len() + 2 < usize::MAX,
    ensures
        match solve_tree_spec(pairs_view(solution@), reqs_view(needs@), packages@.map_values(|s: String| s@)) {
            Ok(ls) => r matches Ok(v) && lines_view(v@) == ls,
            Err(p) => r matches Err(PesError::DistributionNotFound(q)) && q@ == p,
        },
{
    let mut memo: Vec<String> = Vec::new();
    let mut out: Vec<TreeLine> = Vec::new();
    proof {
        assert(memo@.map_values(|s: String| s@).to_set() =~= Set::<Seq<char>>::empty());
        assert(lines_view(out@) =~= Seq::<LineView>::empty());
    }
    let fuel = solution.len() + 1;
    match walk_tree(solution, needs, packages, &mut memo, 0, fuel, &mut out) {
        Ok(()) => {
            proof {
                if let Ok((ls, _)) = walk(pairs_view(solution@), reqs_view(needs@), packages@.map_values(|s: String| s@), Set::empty(), 0, (solution@.len() + 1) as nat) {
                    assert(Seq::<LineView>::empty() + ls =~= ls);
                }
            }
            Ok(out)
        },
        Err(e) => Err(e),
    }
}

} // verus!
