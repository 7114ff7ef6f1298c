//! Maps keyed by strings that keep their keys in insertion order, held as a vector
//! of pairs. Inserting a key that is present replaces its value in place.
use vstd::prelude::*;

use crate::env::str_equal;

verus! {

/// The pairs of a map with each key taken by its characters.
pub open spec fn pairs_view<V>(e: Seq<(String, V)>) -> Seq<(Seq<char>, V)> {
    e.map_values(|p: (String, V)| (p.0@, p.1))
}

/// The keys of a map, in order.
pub open spec fn keys_of<V>(m: Seq<(Seq<char>, V)>) -> Seq<Seq<char>> {
    m.map_values(|p: (Seq<char>, V)| p.0)
}

/// No key occurs twice.
pub open spec fn distinct_keys<V>(m: Seq<(Seq<char>, V)>) -> bool {
    forall|i: int, j: int| 0 <= i < j < m.len() ==> m[i].0 != m[j].0
}

/// The position of key `k` at or after `from`, if it occurs there.
pub open spec fn key_index_from<V>(m: Seq<(Seq<char>, V)>, k: Seq<char>, from: int) -> Option<int>
    decreases m.len() - from,
{
    if from < 0 || from >= m.len() {
        None
    } else if m[from].0 == k {
        Some(from)
    } else {
        key_index_from(m, k, from + 1)
    }
}

/// The position of key `k`, if it occurs.
pub open spec fn key_index<V>(m: Seq<(Seq<char>, V)>, k: Seq<char>) -> Option<int> {
    key_index_from(m, k, 0)
}

/// The value of key `k`, if it occurs.
pub open spec fn map_get<V>(m: Seq<(Seq<char>, V)>, k: Seq<char>) -> Option<V> {
    match key_index(m, k) {
        Some(i) => Some(m[i].1),
        None => None,
    }
}

/// The map after inserting `v` at `k`: a present key keeps its place and takes the
/// new value; a new key is added at the end.
pub open spec fn map_insert<V>(m: Seq<(Seq<char>, V)>, k: Seq<char>, v: V) -> Seq<(Seq<char>, V)> {
    match key_index(m, k) {
        Some(i) => m.update(i, (k, v)),
        None => m.push((k, v)),
    }
}

pub proof fn lemma_key_index_from<V>(m: Seq<(Seq<char>, V)>, k: Seq<char>, from: int)
    requires
        0 <= from,
    ensures
        key_index_from(m, k, from) matches Some(i) ==> from <= i < m.len() && m[i].0 == k && forall|
            j: int,
        | from <= j < i ==> m[j].0 != k,
        key_index_from(m, k, from) is None ==> forall|j: int| from <= j < m.len() ==> m[j].0 != k,
    decreases m.len() - from,
{
    if from < m.len() && m[from].0 != k {
        lemma_key_index_from(m, k, from + 1);
    }
}

/// The facts about `key_index`: where it points, and that nothing before it matches.
pub proof fn lemma_key_index<V>(m: Seq<(Seq<char>, V)>, k: Seq<char>)
    ensures
        key_index(m, k) matches Some(i) ==> 0 <= i < m.len() && m[i].0 == k && forall|j: int|
            0 <= j < i ==> m[j].0 != k,
        key_index(m, k) is None ==> forall|j: int| 0 <= j < m.len() ==> m[j].0 != k,
{
    lemma_key_index_from(m, k, 0);
}

/// A key found at `i` with no earlier match is where `key_index` points.
pub proof fn lemma_key_index_at<V>(m: Seq<(Seq<char>, V)>, k: Seq<char>, i: int)
    requires
        0 <= i < m.len(),
        m[i].0 == k,
        forall|j: int| 0 <= j < i ==> m[j].0 != k,
    ensures
        key_index(m, k) == Some(i),
{
    lemma_key_index(m, k);
    if let Some(x) = key_index(m, k) {
        if x < i {
            assert(m[x].0 != k);
        }
    }
}

/// Read after write: after inserting `v` at `k`, `k` holds `v`, every other key
/// holds what it held, and no key occurs twice if none did.
pub proof fn lemma_map_insert<V>(m: Seq<(Seq<char>, V)>, k: Seq<char>, v: V, other: Seq<char>)
    requires
        distinct_keys(m),
    ensures
        map_get(map_insert(m, k, v), k) == Some(v),
        other != k ==> map_get(map_insert(m, k, v), other) == map_get(m, other),
        distinct_keys(map_insert(m, k, v)),
        keys_of(map_insert(m, k, v)).to_set() == keys_of(m).to_set().insert(k),
{
    let n = map_insert(m, k, v);
    lemma_key_index(m, k);
    lemma_key_index(m, other);
    lemma_key_index(n, k);
    lemma_key_index(n, other);
    match key_index(m, k) {
        Some(i) => {
            lemma_key_index_at(n, k, i);
            if other != k {
                match key_index(m, other) {
                    Some(j) => {
                        lemma_key_index_at(n, other, j);
                    },
                    None => {},
                }
            }
            assert forall|x: Seq<char>| #[trigger] keys_of(n).to_set().contains(x) <==> keys_of(
                m,
            ).to_set().insert(k).contains(x) by {
                if keys_of(n).to_set().contains(x) {
                    let a = keys_of(n).index_of(x);
                    if a != i {
                        assert(keys_of(m)[a] == x);
                    }
                }
                if keys_of(m).to_set().contains(x) {
                    let a = keys_of(m).index_of(x);
                    if a != i {
                        assert(keys_of(n)[a] == x);
                    } else {
                        assert(keys_of(n)[i] == k);
                    }
                }
                if x == k {
                    assert(keys_of(n)[i] == k);
                }
            }
        },
        None => {
            lemma_key_index_at(n, k, m.len() as int);
            if other != k {
                match key_index(m, other) {
                    Some(j) => {
                        lemma_key_index_at(n, other, j);
                    },
                    None => {},
                }
            }
            assert forall|x: Seq<char>| #[trigger] keys_of(n).to_set().contains(x) <==> keys_of(
                m,
            ).to_set().insert(k).contains(x) by {
                if keys_of(n).to_set().contains(x) {
                    let a = keys_of(n).index_of(x);
                    if a < m.len() {
                        assert(keys_of(m)[a] == x);
                    }
                }
                if keys_of(m).to_set().contains(x) {
                    let a = keys_of(m).index_of(x);
                    assert(keys_of(n)[a] == x);
                }
                if x == k {
                    assert(keys_of(n)[m.len() as int] == k);
                }
            }
        },
    }
    assert(keys_of(n).to_set() =~= keys_of(m).to_set().insert(k));
}

/// The position of key `k` in a vector of pairs.
pub fn find_key<V>(entries: &Vec<(String, V)>, k: &str) -> (r: Option<usize>)
    ensures
        match r {
            Some(i) => key_index(pairs_view(entries@), k@) == Some(i as int),
            None => key_index(pairs_view(entries@), k@) is None,
        },
{
    let ghost m = pairs_view(entries@);
    proof {
        lemma_key_index(m, k@);
    }
    let mut i: usize = 0;
    while i < entries.len()
        invariant
            m == pairs_view(entries@),
            i <= entries@.len(),
            forall|j: int| 0 <= j < i ==> m[j].0 != k@,
        decreases entries@.len() - i,
    {
        if str_equal(entries[i].0.as_str(), k) {
            proof {
                lemma_key_index_at(m, k@, i as int);
            }
            return Some(i);
        }
        i = i + 1;
    }
    None
}

/// Inserts `v` at `k` (see `map_insert`).
pub fn insert_entry<V>(entries: &mut Vec<(String, V)>, k: &str, v: V)
    ensures
        pairs_view(final(entries)@) == map_insert(pairs_view(old(entries)@), k@, v),
{
    proof {
        lemma_key_index(pairs_view(entries@), k@);
    }
    match find_key(entries, k) {
        Some(i) => {
            entries.set(i, (String::from_str(k), v));
            proof {
                assert(pairs_view(entries@) =~= map_insert(pairs_view(old(entries)@), k@, v));
            }
        },
        None => {
            entries.push((String::from_str(k), v));
            proof {
                assert(pairs_view(entries@) =~= map_insert(pairs_view(old(entries)@), k@, v));
            }
        },
    }
}

/// Where a key is found depends on the keys alone.
pub proof fn lemma_key_index_same_keys<V, W>(m1: Seq<(Seq<char>, V)>, m2: Seq<(Seq<char>, W)>, k: Seq<char>, from: int)
    requires
        m1.len() == m2.len(),
        forall|i: int| 0 <= i < m1.len() ==> m1[i].0 == m2[i].0,
    ensures
        key_index_from(m1, k, from) == key_index_from(m2, k, from),
    decreases m1.len() - from,
{
    if 0 <= from < m1.len() && m1[from].0 != k {
        lemma_key_index_same_keys(m1, m2, k, from + 1);
    }
}

} // verus!
