use plm::dag::{Dag, Package};

fn pkg(name: &str, deps: &[&str]) -> Package {
    Package { name: name.to_string(), dependencies: deps.iter().map(|d| d.to_string()).collect() }
}

#[test]
fn dag_accepts_acyclic_packages() {
    let mut d = Dag::new();
    assert_eq!(d.add_package(pkg("a", &["b"])), Ok(()));
    assert_eq!(d.add_package(pkg("b", &["c"])), Ok(()));
    assert_eq!(d.add_package(pkg("c", &[])), Ok(()));
    assert_eq!(d.add_package(pkg("d", &["a", "c"])), Ok(()));
}

#[test]
fn dag_rejects_duplicate() {
    let mut d = Dag::new();
    assert_eq!(d.add_package(pkg("a", &[])), Ok(()));
    assert_eq!(d.add_package(pkg("a", &["b"])), Err("Package already exists."));
}

#[test]
fn dag_rejects_self_dependency() {
    let mut d = Dag::new();
    assert_eq!(d.add_package(pkg("a", &["a"])), Err("Cyclic dependency detected."));
    // The refused package was not added.
    assert_eq!(d.add_package(pkg("a", &[])), Ok(()));
}

#[test]
fn dag_rejects_cycle_through_existing_packages() {
    let mut d = Dag::new();
    assert_eq!(d.add_package(pkg("a", &["b"])), Ok(()));
    assert_eq!(d.add_package(pkg("b", &["c"])), Ok(()));
    assert_eq!(d.add_package(pkg("c", &["a"])), Err("Cyclic dependency detected."));
    assert_eq!(d.add_package(pkg("c", &["x", "y"])), Ok(()));
}

#[test]
fn dag_duplicate_checked_before_cycle() {
    let mut d = Dag::new();
    assert_eq!(d.add_package(pkg("a", &["b"])), Ok(()));
    assert_eq!(d.add_package(pkg("b", &[])), Ok(()));
    assert_eq!(d.add_package(pkg("b", &["a"])), Err("Package already exists."));
}
