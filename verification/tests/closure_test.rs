use std::collections::HashSet;

use cargo_polylith::closure::transitive_closure;

fn as_set(v: Vec<String>) -> HashSet<String> {
    v.into_iter().collect()
}

#[test]
fn transitive_closure_linear_chain() {
    let result = transitive_closure(
        vec!["a".to_string()],
        |name: &str| match name {
            "a" => vec!["b".to_owned()],
            "b" => vec!["c".to_owned()],
            _ => vec![],
        },
        |dep_key: &str| vec![dep_key.to_owned()],
    );
    assert_eq!(as_set(result), HashSet::from(["a".to_owned(), "b".to_owned(), "c".to_owned()]));
}

#[test]
fn transitive_closure_diamond() {
    let result = transitive_closure(
        vec!["a".to_string()],
        |name: &str| match name {
            "a" => vec!["b".to_owned(), "c".to_owned()],
            "b" => vec!["d".to_owned()],
            "c" => vec!["d".to_owned()],
            _ => vec![],
        },
        |dep_key: &str| vec![dep_key.to_owned()],
    );
    assert_eq!(
        as_set(result),
        HashSet::from(["a".to_owned(), "b".to_owned(), "c".to_owned(), "d".to_owned()])
    );
}

#[test]
fn transitive_closure_with_resolve_alias() {
    let result = as_set(transitive_closure(
        vec!["logging-impl".to_string()],
        |name: &str| match name {
            "logging-impl" => vec!["core".to_owned()],
            "core" => vec!["logging".to_owned()],
            _ => vec![],
        },
        |dep_key: &str| match dep_key {
            "logging" => vec!["logging-impl-v2".to_owned()],
            other => vec![other.to_owned()],
        },
    ));
    assert!(result.contains("logging-impl"), "seed should be present");
    assert!(result.contains("core"), "direct dep of seed should be reachable");
    assert!(result.contains("logging-impl-v2"), "alias-resolved dep should be reachable");
    assert!(!result.contains("logging"), "interface dep key should not appear in result");
}

#[test]
fn transitive_closure_no_deps() {
    let result = transitive_closure(vec!["a".to_string()], |_: &str| vec![], |dep_key: &str| vec![dep_key.to_owned()]);
    assert_eq!(as_set(result), HashSet::from(["a".to_owned()]));
}

#[test]
fn transitive_closure_cycle() {
    let result = transitive_closure(
        vec!["a".to_string()],
        |name: &str| match name {
            "a" => vec!["b".to_owned()],
            "b" => vec!["a".to_owned()],
            _ => vec![],
        },
        |dep_key: &str| vec![dep_key.to_owned()],
    );
    assert_eq!(as_set(result), HashSet::from(["a".to_owned(), "b".to_owned()]));
}

#[test]
fn transitive_closure_lists_each_name_once() {
    let result = transitive_closure(
        vec!["a".to_string(), "a".to_string()],
        |name: &str| match name {
            "a" => vec!["b".to_owned(), "b".to_owned()],
            _ => vec![],
        },
        |dep_key: &str| vec![dep_key.to_owned()],
    );
    assert_eq!(result.len(), 2);
}
