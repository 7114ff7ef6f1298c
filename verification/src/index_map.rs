//! The insertion-ordered maps of `indexmap` that a manifest keeps its targets,
//! requirements and environment settings in, as far as the library uses them.
//!
//! What a map holds is named by the functions below (its pairs, in order, each
//! taken by its characters or its view); the operations say what they do to them,
//! as the `indexmap` documentation states: inserting a key that is present keeps
//! it in its place with the new value, a new key goes last.
use indexmap::IndexMap;
use vstd::prelude::*;

use crate::manifest::{PackageTarget, TargetView};
use crate::ordered_map::{map_get, map_insert};

verus! {

/// `indexmap::IndexMap`, whose contents the functions below name.
#[verifier::external_type_specification]
#[verifier::external_body]
#[verifier::reject_recursive_types(K)]
#[verifier::reject_recursive_types(V)]
#[verifier::reject_recursive_types(S)]
pub struct ExIndexMap<K, V, S>(IndexMap<K, V, S>);

/// The pairs of a map of strings, in order, by their characters.
pub uninterp spec fn text_entries(m: IndexMap<String, String>) -> Seq<(Seq<char>, Seq<char>)>;

/// The pairs of a map of targets, in order: each name by its characters, each
/// target by its view.
pub uninterp spec fn target_entries(m: IndexMap<String, PackageTarget>) -> Seq<(Seq<char>, TargetView)>;

/// `IndexMap::new` for strings: an empty map.
#[verifier::external_body]
pub(crate) fn text_map_new() -> (m: IndexMap<String, String>)
    ensures
        text_entries(m) == Seq::<(Seq<char>, Seq<char>)>::empty(),
{
    IndexMap::new()
}

/// `IndexMap::insert` for strings: a present key keeps its place and takes the
/// value, a new key goes last.
#[verifier::external_body]
pub(crate) fn text_map_insert(m: &mut IndexMap<String, String>, k: &str, v: &str)
    ensures
        text_entries(*final(m)) == map_insert(text_entries(*old(m)), k@, v@),
{
    m.insert(k.to_string(), v.to_string());
}

/// `IndexMap::len` for strings: the number of pairs.
#[verifier::external_body]
pub(crate) fn text_map_len(m: &IndexMap<String, String>) -> (n: usize)
    ensures
        n == text_entries(*m).len(),
{
    m.len()
}

/// `IndexMap::get_index` for strings: the pair at position `i`.
#[verifier::external_body]
pub(crate) fn text_map_get_index(m: &IndexMap<String, String>, i: usize) -> (r: (&String, &String))
    requires
        i < text_entries(*m).len(),
    ensures
        (r.0@, r.1@) == text_entries(*m)[i as int],
{
    m.get_index(i).unwrap()
}

/// `IndexMap::new` for targets: an empty map.
#[verifier::external_body]
pub(crate) fn target_map_new() -> (m: IndexMap<String, PackageTarget>)
    ensures
        target_entries(m) == Seq::<(Seq<char>, TargetView)>::empty(),
{
    IndexMap::new()
}

/// `IndexMap::insert` for targets: a present name keeps its place and takes the
/// target, a new name goes last.
#[verifier::external_body]
pub(crate) fn target_map_insert(m: &mut IndexMap<String, PackageTarget>, k: &str, t: PackageTarget)
    ensures
        target_entries(*final(m)) == map_insert(target_entries(*old(m)), k@, t.view()),
{
    m.insert(k.to_string(), t);
}

/// `IndexMap::len` for targets: the number of targets.
#[verifier::external_body]
pub(crate) fn target_map_len(m: &IndexMap<String, PackageTarget>) -> (n: usize)
    ensures
        n == target_entries(*m).len(),
{
    m.len()
}

/// `IndexMap::get_index` for targets: the name and target at position `i`.
#[verifier::external_body]
pub(crate) fn target_map_get_index(m: &IndexMap<String, PackageTarget>, i: usize) -> (r: (&String, &PackageTarget))
    requires
        i < target_entries(*m).len(),
    ensures
        (r.0@, r.1.view()) == target_entries(*m)[i as int],
{
    m.get_index(i).unwrap()
}

/// `IndexMap::get` for targets: the target named `k`, if there is one.
#[verifier::external_body]
pub(crate) fn target_map_get<'a>(m: &'a IndexMap<String, PackageTarget>, k: &str) -> (r: Option<&'a PackageTarget>)
    ensures
        match map_get(target_entries(*m), k@) {
            Some(tv) => r matches Some(t) && t.view() == tv,
            None => r is None,
        },
{
    m.get(k)
}

} // verus!
