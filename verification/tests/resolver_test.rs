use seesea_installer::resolver::DependencyGraph;

fn graph(nodes: &[(&str, &[&str])]) -> DependencyGraph {
    let mut g = DependencyGraph::new();
    for (name, deps) in nodes {
        g.insert(name.to_string(), deps.iter().map(|d| d.to_string()).collect());
    }
    g
}

fn names(list: &[&str]) -> Vec<String> {
    list.iter().map(|s| s.to_string()).collect()
}

#[test]
fn dependency_comes_first() {
    let g = graph(&[("A", &[]), ("B", &["A"])]);
    assert_eq!(g.resolve().unwrap(), names(&["A", "B"]));
    let g = graph(&[("B", &["A"]), ("A", &[])]);
    assert_eq!(g.resolve().unwrap(), names(&["A", "B"]));
}

#[test]
fn cycle_is_an_error() {
    let g = graph(&[("A", &["B"]), ("B", &["A"])]);
    let e = g.resolve().unwrap_err();
    assert_eq!(e.unresolved, names(&["A", "B"]));
}

#[test]
fn self_dependency_is_a_cycle() {
    let g = graph(&[("A", &["A"])]);
    assert_eq!(g.resolve().unwrap_err().unresolved, names(&["A"]));
}

#[test]
fn ready_components_come_in_name_order() {
    let g = graph(&[("delta", &[]), ("alpha", &[]), ("charlie", &["delta"]), ("bravo", &[])]);
    assert_eq!(g.resolve().unwrap(), names(&["alpha", "bravo", "delta", "charlie"]));
}

#[test]
fn smallest_ready_name_wins_at_every_step() {
    // Once "z" is out, "a" is ready and goes before "m".
    let g = graph(&[("m", &[]), ("z", &[]), ("a", &["z"])]);
    assert_eq!(g.resolve().unwrap(), names(&["m", "z", "a"]));
    let g = graph(&[("b", &[]), ("a", &["b"]), ("c", &[])]);
    assert_eq!(g.resolve().unwrap(), names(&["b", "a", "c"]));
}

#[test]
fn every_component_follows_its_dependencies() {
    let g = graph(&[
        ("app", &["lib", "data"]),
        ("lib", &["core"]),
        ("data", &["core"]),
        ("core", &[]),
        ("docs", &[]),
    ]);
    let order = g.resolve().unwrap();
    assert_eq!(order, names(&["core", "data", "docs", "lib", "app"]));
    let at = |n: &str| order.iter().position(|x| x == n).unwrap();
    assert!(at("core") < at("lib"));
    assert!(at("core") < at("data"));
    assert!(at("lib") < at("app"));
    assert!(at("data") < at("app"));
}

#[test]
fn resolving_twice_gives_the_same_order() {
    let g = graph(&[("x", &["y"]), ("y", &[]), ("w", &["x"]), ("v", &[])]);
    assert_eq!(g.resolve().unwrap(), g.resolve().unwrap());
}

#[test]
fn unresolved_are_the_cycle_and_what_hangs_on_it() {
    let g = graph(&[
        ("free", &[]),
        ("a", &["b"]),
        ("b", &["a"]),
        ("user", &["a", "free"]),
        ("other", &["free"]),
    ]);
    assert_eq!(g.resolve().unwrap_err().unresolved, names(&["a", "b", "user"]));
}

#[test]
fn undeclared_dependency_is_unresolved() {
    let g = graph(&[("a", &["ghost"]), ("b", &[])]);
    assert_eq!(g.resolve().unwrap_err().unresolved, names(&["a"]));
}

#[test]
fn empty_graph_resolves_to_nothing() {
    let g = DependencyGraph::new();
    assert_eq!(g.len(), 0);
    assert_eq!(g.resolve().unwrap(), Vec::<String>::new());
}

#[test]
fn insert_replaces_in_place() {
    let mut g = graph(&[("a", &["b"]), ("b", &["a"])]);
    assert_eq!(g.len(), 2);
    g.insert("a".to_string(), vec![]);
    assert_eq!(g.len(), 2);
    assert_eq!(g.position(&"a".to_string()), Some(0));
    assert_eq!(g.position(&"b".to_string()), Some(1));
    assert_eq!(g.position(&"c".to_string()), None);
    assert_eq!(g.resolve().unwrap(), names(&["a", "b"]));
}

#[test]
fn repeated_dependency_counts_once() {
    let g = graph(&[("a", &["b", "b"]), ("b", &[])]);
    assert_eq!(g.resolve().unwrap(), names(&["b", "a"]));
}
