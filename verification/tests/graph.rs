use matrix_core::deps::{
    find_cycle, graph_edges, parse_requires, provider_candidates, topo_order, transitive_consumers,
};
use matrix_core::json::Json;
use matrix_core::strmap::StrMap;

fn provs(pairs: &[(&str, &[&str])]) -> StrMap<Vec<String>> {
    let mut m = StrMap::new();
    for (k, v) in pairs {
        m.insert(k, v.iter().map(|s| s.to_string()).collect());
    }
    m
}

fn names(list: &[&str]) -> Json {
    Json::list(list.iter().map(|s| Json::str(s)).collect())
}

#[test]
fn unique_provider_resolves() {
    let p = provs(&[("workspace", &["workspace.fs@1"])]);
    let r = parse_requires(Some(&names(&["workspace.fs@1"]))).unwrap();
    assert_eq!(provider_candidates(&r[0], &p), vec!["workspace".to_string()]);
}

#[test]
fn ambiguous_lists_providers() {
    let p = provs(&[("a", &["x.y@1"]), ("b", &["x.y@1"])]);
    let r = parse_requires(Some(&names(&["x.y@1"]))).unwrap();
    assert_eq!(provider_candidates(&r[0], &p).len(), 2);
}

#[test]
fn cycle_found_with_path() {
    let mut e = StrMap::new();
    e.insert("a", vec!["b".to_string()]);
    e.insert("b", vec!["a".to_string()]);
    let c = find_cycle(&e).unwrap();
    assert!(c.first() == c.last());
    assert!(c.contains(&"a".to_string()));
}

#[test]
fn topo_providers_first() {
    let mut e = StrMap::new();
    e.insert("search", vec!["workspace".to_string()]);
    e.insert("workspace", vec![]);
    e.insert("echo", vec![]);
    let o = topo_order(&e).unwrap();
    assert!(o.iter().position(|n| n == "workspace").unwrap()
        < o.iter().position(|n| n == "search").unwrap());
}

fn edges(pairs: &[(&str, &[&str])]) -> StrMap<Vec<String>> {
    provs(pairs)
}

#[test]
fn cycle_starts_at_the_least_name() {
    let e = edges(&[("z", &["y"]), ("y", &["x"]), ("x", &["z"]), ("a", &["z"])]);
    assert_eq!(find_cycle(&e).unwrap(), vec!["z", "y", "x", "z"]);
    assert!(topo_order(&e).is_none());
    let loops = edges(&[("a", &["a"])]);
    assert_eq!(find_cycle(&loops).unwrap(), vec!["a", "a"]);
}

#[test]
fn order_prefers_the_least_name() {
    let e = edges(&[("b", &["d"]), ("a", &["b"]), ("c", &[])]);
    assert!(find_cycle(&e).is_none());
    assert_eq!(topo_order(&e).unwrap(), vec!["c", "d", "b", "a"]);
}

#[test]
fn consumers_are_transitive() {
    let e = edges(&[("a", &["b"]), ("b", &["c"]), ("c", &[]), ("d", &["e"])]);
    assert_eq!(transitive_consumers("c", &e), vec!["a", "b"]);
    assert_eq!(transitive_consumers("e", &e), vec!["d"]);
    assert!(transitive_consumers("a", &e).is_empty());
    let ring = edges(&[("a", &["b"]), ("b", &["a"])]);
    assert_eq!(transitive_consumers("a", &ring), vec!["b"]);
}

#[test]
fn edges_name_explicit_or_all_providers() {
    let p = provs(&[("p", &["x@1"]), ("q", &["x@1", "x@2"])]);
    let mut req = StrMap::new();
    req.insert("c", parse_requires(Some(&names(&["x@1", "x@2"]))).unwrap());
    let explicit = Json::list(vec![Json::object()
        .with("interface", Json::str("x@1"))
        .with("provider", Json::str("gone"))]);
    req.insert("d", parse_requires(Some(&explicit)).unwrap());
    let e = graph_edges(&req, &p);
    assert_eq!(e.get("c").unwrap(), &vec!["p".to_string(), "q".to_string()]);
    assert_eq!(e.get("d").unwrap(), &vec!["gone".to_string()]);
    assert!(e.get("p").unwrap().is_empty());
    assert_eq!(e.len(), 4);
}
