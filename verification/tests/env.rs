use pes::env::{BasicVarProvider, PathMode, PathToken};
use std::collections::VecDeque;

#[test]
#[allow(non_snake_case)]
fn variable__given_input__succeeds() {
    let value = PathToken::variable("foo");
    assert_eq!(value, PathToken::Variable("foo"));
}

#[test]
#[allow(non_snake_case)]
fn owned_variable__given_str__succeeds() {
    let value = PathToken::owned_variable("foo");
    assert_eq!(value, PathToken::OwnedVariable("foo".to_string()));
}

#[test]
#[allow(non_snake_case)]
fn owned_variable__given_string__succeeds() {
    let value = PathToken::owned_variable("foo".to_string());
    assert_eq!(value, PathToken::OwnedVariable("foo".to_string()));
}

#[test]
#[allow(non_snake_case)]
fn path__given_relpath__succeeds() {
    let value = PathToken::path("foo/bar");
    assert_eq!(value, PathToken::Relpath("foo/bar"));
}

#[test]
#[allow(non_snake_case)]
fn path__given_abspath__succeeds() {
    let value = PathToken::path("/foo/bar");
    assert_eq!(value, PathToken::Abspath("/foo/bar"));
}

#[test]
#[allow(non_snake_case)]
fn insert__given_new_key_value__returns_None() {
    let mut provider = BasicVarProvider::new();
    let old_value = provider.insert("foo", "bar");
    assert_eq!(old_value, None);
}

#[test]
#[allow(non_snake_case)]
fn insert__given_new_key_value__returns_Some() {
    let mut provider = BasicVarProvider::new();
    provider.insert("foo", "blue");
    let old_value = provider.insert("foo", "bar");
    assert_eq!(old_value, Some("blue".to_string()));
}

#[test]
#[allow(non_snake_case)]
fn get__given_extant_key__returns_Some_result() {
    let mut provider = BasicVarProvider::new();
    provider.insert("foo", "bar");
    let result = provider.get("foo");
    assert_eq!(result, Some("bar"));
}

#[test]
#[allow(non_snake_case)]
fn get__given_non_extant_key__returns_None() {
    let mut provider = BasicVarProvider::new();
    provider.insert("foo", "bar");
    let result = provider.get("MISSING");
    assert_eq!(result, None);
}

#[test]
fn insert_overwrites_and_keeps_other_variables() {
    let mut provider = BasicVarProvider::new();
    provider.insert("root", "/a");
    provider.insert_var("name", "fred");
    provider.insert_var("root", "/b");
    assert_eq!(provider.get("root"), Some("/b"));
    assert_eq!(provider.get("name"), Some("fred"));
}

fn q(items: &[&str]) -> VecDeque<String> {
    items.iter().map(|s| s.to_string()).collect()
}

#[test]
fn add_appends_prepends_in_reverse_and_exact_replaces() {
    let base = PathMode::Exact(q(&["/a", "/b"]));
    let appended = base.add(PathMode::Append(q(&["/c", "/d"])));
    assert_eq!(appended, PathMode::Append(q(&["/a", "/b", "/c", "/d"])));
    let prepended = appended.add(PathMode::Prepend(q(&["/x", "/y"])));
    assert_eq!(prepended, PathMode::Prepend(q(&["/y", "/x", "/a", "/b", "/c", "/d"])));
    let exact = prepended.add(PathMode::Exact(q(&["/z"])));
    assert_eq!(exact, PathMode::Exact(q(&["/z"])));
}

#[test]
fn add_assign_keeps_its_own_kind() {
    let mut mode = PathMode::Prepend(q(&["/a"]));
    mode.add_assign(PathMode::Append(q(&["/b"])));
    assert_eq!(mode, PathMode::Prepend(q(&["/a", "/b"])));
    mode.add_assign(PathMode::Exact(q(&["/c"])));
    assert_eq!(mode, PathMode::Prepend(q(&["/c"])));
    assert_eq!(mode.inner(), q(&["/c"]));
}

#[test]
#[allow(non_snake_case)]
fn insert_env_var__given_existing_var__returns_Ok() {
    let mut provider = BasicVarProvider::new();
    let result = provider.insert_env_var("FOO", Some("definitely_bar".to_string()));
    assert!(result.is_ok());

    let result = provider.get("FOO");
    assert_eq!(result, Some("definitely_bar"));
}

#[test]
#[allow(non_snake_case)]
fn insert_env_var__given_non_extant_env_var__returns_PesError() {
    let mut provider = BasicVarProvider::new();
    let result = provider.insert_env_var("NOT_SET_FOR_SURE", None);
    assert!(result.is_err());

    let result = provider.get("NOT_SET_FOR_SURE");
    assert_eq!(result, None);
}
