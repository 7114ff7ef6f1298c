use pes::env::{BasicVarProvider, PathMode, PathToken};
use pes::error::{ErrorKind, PesError, PesNomError};
use pes::parser::{
    parse_abspath, parse_all_paths_with_provider, parse_append_paths_with_provider,
    parse_consuming_all_paths_with_provider, parse_exact_paths_with_provider,
    parse_path_with_provider, parse_paths_with_provider, parse_prepend_paths_with_provider,
    parse_relpath, parse_var, parse_var_with_provider,
};
use std::collections::VecDeque;

fn provider() -> BasicVarProvider {
    let mut provider = BasicVarProvider::new();
    provider.insert("root", "foobar");
    provider.insert("name", "fred");
    provider
}

fn q(items: &[&str]) -> VecDeque<String> {
    items.iter().map(|s| s.to_string()).collect()
}

#[test]
#[allow(non_snake_case)]
fn parse_var__given_appropriate_str__succeeds() {
    let result = parse_var("{othervar}/foo/bar").unwrap();
    assert_eq!(result.0, "/foo/bar");
    assert_eq!(result.1, PathToken::Variable("othervar"));
}

#[test]
#[allow(non_snake_case)]
fn parse_relpath__given_relpath__succeeds() {
    let result = parse_relpath("foo/bar/bla:").unwrap();
    assert_eq!(result.0, ":");
    assert_eq!(result.1, PathToken::relpath("foo/bar/bla"));
}

#[test]
#[allow(non_snake_case)]
fn parse_relpath__given_abspath__fails() {
    let result = parse_relpath("/foo/bar/bla:");
    assert!(result.is_err());
}

#[test]
#[allow(non_snake_case)]
fn parse_abspath__given_relpath__succeeds() {
    let result = parse_abspath("/foo/bar/bla:").unwrap();
    assert_eq!(result.0, ":");
    assert_eq!(result.1, PathToken::abspath("/foo/bar/bla"));
}

#[test]
#[allow(non_snake_case)]
fn parse_var_with_provider__given_known_var() {
    let mut provider = BasicVarProvider::new();
    provider.insert("root", "foobar");
    let result = parse_var_with_provider(&provider, "{root}").unwrap();
    assert_eq!(result.0, "");
    assert_eq!(result.1, PathToken::OwnedVariable("foobar".into()));
}

#[test]
fn parse_var_with_provider_given_unknown_var_names_it() {
    let provider = provider();
    let result = parse_var_with_provider(&provider, "{other}/x");
    assert_eq!(result, Err(PesNomError::InvalidKey("other".to_string())));
}

#[test]
#[allow(non_snake_case)]
fn parse_path_with_provider__given_valid_path__succeeds() {
    let provider = provider();
    let result = parse_path_with_provider(&provider, "/packages/{root}/stuff/{name}").unwrap();
    assert_eq!(result.0, "");
    assert_eq!(result.1, "/packages/foobar/stuff/fred".to_string());
}

#[test]
#[allow(non_snake_case)]
fn parse_paths_with_provider__given_valid_path__succeeds() {
    let provider = provider();
    let result = parse_paths_with_provider(&provider, "/packages/{root}/stuff/{name}:/foo/bar/bla").unwrap();
    assert_eq!(result.0, "");
    assert_eq!(
        result.1,
        vec!["/packages/foobar/stuff/fred".to_string(), "/foo/bar/bla".to_string()]
    );
}

#[test]
#[allow(non_snake_case)]
fn parse_append_paths_with_provider__given_valid_path__succeeds() {
    let provider = provider();
    let result = parse_append_paths_with_provider(&provider, "append(/packages/{root}/stuff/{name}:/foo/bar/bla)").unwrap();
    assert_eq!(result.0, "");
    assert_eq!(result.1, PathMode::Append(q(&["/packages/foobar/stuff/fred", "/foo/bar/bla"])));
}

#[test]
#[allow(non_snake_case)]
fn parse_prepend_paths_with_provider__given_valid_path__succeeds() {
    let provider = provider();
    let result = parse_prepend_paths_with_provider(&provider, "prepend(/packages/{root}/stuff/{name}:/foo/bar/bla)").unwrap();
    assert_eq!(result.0, "");
    assert_eq!(result.1, PathMode::Prepend(q(&["/packages/foobar/stuff/fred", "/foo/bar/bla"])));
}

#[test]
#[allow(non_snake_case)]
fn parse_exact_paths_with_provider__given_valid_path__succeeds() {
    let provider = provider();
    let result = parse_exact_paths_with_provider(&provider, "/packages/{root}/stuff/{name}:/foo/bar/bla").unwrap();
    assert_eq!(result.0, "");
    assert_eq!(result.1, PathMode::Exact(q(&["/packages/foobar/stuff/fred", "/foo/bar/bla"])));
}

#[test]
#[allow(non_snake_case)]
fn parse_all_paths_with_provider__given_valid_path__succeeds() {
    let provider = provider();
    let result = parse_all_paths_with_provider(&provider, "/packages/{root}/stuff/{name}:/foo/bar/bla").unwrap();
    assert_eq!(result.0, "");
    assert_eq!(result.1, PathMode::Exact(q(&["/packages/foobar/stuff/fred", "/foo/bar/bla"])));

    let result = parse_all_paths_with_provider(&provider, "prepend(/packages/{root}/stuff/{name}:/foo/bar/bla)").unwrap();
    assert_eq!(result.0, "");
    assert_eq!(result.1, PathMode::Prepend(q(&["/packages/foobar/stuff/fred", "/foo/bar/bla"])));

    let result = parse_all_paths_with_provider(&provider, "append(/packages/{root}/stuff/{name}:/foo/bar/bla)").unwrap();
    assert_eq!(result.0, "");
    assert_eq!(result.1, PathMode::Append(q(&["/packages/foobar/stuff/fred", "/foo/bar/bla"])));
}

#[test]
#[allow(non_snake_case)]
fn parse_consuming_all_paths_with_provider__given_valid_path__succeeds() {
    let provider = provider();
    let result = parse_consuming_all_paths_with_provider(&provider, " /packages/{root}/stuff/{name}:/foo/bar/bla ").unwrap();
    assert_eq!(result, PathMode::Exact(q(&["/packages/foobar/stuff/fred", "/foo/bar/bla"])));

    let result = parse_consuming_all_paths_with_provider(&provider, " prepend( /packages/{root}/stuff/{name}:/foo/bar/bla ) ").unwrap();
    assert_eq!(result, PathMode::Prepend(q(&["/packages/foobar/stuff/fred", "/foo/bar/bla"])));

    let result = parse_consuming_all_paths_with_provider(&provider, " append( /packages/{root}/stuff/{name}:/foo/bar/bla ) ").unwrap();
    assert_eq!(result, PathMode::Append(q(&["/packages/foobar/stuff/fred", "/foo/bar/bla"])));
}

#[test]
#[allow(non_snake_case)]
fn parse_consuming_all_paths_with_provider__given_invalid_path__errors() {
    let provider = provider();
    let result = parse_consuming_all_paths_with_provider(&provider, "/packages/{root}/stuff/{name}:/foo/bar/bla other stuff");
    assert!(result.is_err());
    let result = parse_consuming_all_paths_with_provider(&provider, "prepend(/packages/{root}/stuff/{name}:/foo/bar/bla) bla");
    assert!(result.is_err());
    let result = parse_consuming_all_paths_with_provider(&provider, "append(/packages/{root}/stuff/{name}:/foo/bar/bla   )bla");
    assert_eq!(
        result,
        Err(PesError::PesNomError("Parsing Error: Nom(\"bla\", Eof)".to_string()))
    );
}

#[test]
fn a_slash_after_a_variable_is_taken_with_it() {
    let provider = provider();
    let result = parse_path_with_provider(&provider, "{root}/bin").unwrap();
    assert_eq!(result, ("", "foobar/bin".to_string()));
    let result = parse_path_with_provider(&provider, "/a/{root}").unwrap();
    assert_eq!(result, ("", "/a/foobar".to_string()));
}

#[test]
fn an_unknown_variable_ends_a_path() {
    let provider = provider();
    let result = parse_path_with_provider(&provider, "/a/{nope}").unwrap();
    assert_eq!(result, ("{nope}", "/a/".to_string()));
    assert_eq!(
        parse_path_with_provider(&provider, "{nope}"),
        Err(PesNomError::InvalidKey("nope".to_string()))
    );
}

fn nom(rest: &str, kind: ErrorKind) -> Option<PesNomError> {
    Some(PesNomError::Nom(rest.to_string(), kind))
}

#[test]
fn failing_path_parsers_report_where_they_failed() {
    assert_eq!(parse_var("foo").err(), nom("foo", ErrorKind::Tag));
    assert_eq!(parse_var("{9}").err(), nom("9}", ErrorKind::Alpha));
    assert_eq!(parse_var("{root]").err(), nom("]", ErrorKind::Tag));
    assert_eq!(parse_relpath("/foo").err(), nom("/foo", ErrorKind::Alpha));
    assert_eq!(parse_abspath("foo").err(), nom("foo", ErrorKind::Tag));
    let provider = provider();
    assert_eq!(parse_path_with_provider(&provider, ":x").err(), nom(":x", ErrorKind::Tag));
    assert_eq!(parse_append_paths_with_provider(&provider, "append(/a").err(), nom("", ErrorKind::Tag));
    assert_eq!(
        parse_prepend_paths_with_provider(&provider, "append(/a)").err(),
        nom("append(/a)", ErrorKind::Tag)
    );
}
