use std::collections::HashMap;

use plm::versioning::resolve_versions;

fn to_pairs_vec(m: HashMap<String, Vec<String>>) -> Vec<(String, Vec<String>)> {
    m.into_iter().collect()
}

fn to_pairs(m: HashMap<String, String>) -> Vec<(String, String)> {
    m.into_iter().collect()
}

fn resolve_map(
    available_versions: HashMap<String, Vec<String>>,
    package_requirements: HashMap<String, String>,
) -> Result<HashMap<String, String>, String> {
    resolve_versions(to_pairs_vec(available_versions), to_pairs(package_requirements))
        .map(|v| v.into_iter().collect())
}

#[test]
fn test_resolve_versions() {
    let mut available_versions = HashMap::new();
    available_versions.insert(
        "package_a".to_string(),
        vec!["1.0.0".to_string(), "2.0.0".to_string()],
    );
    available_versions.insert(
        "package_b".to_string(),
        vec!["0.9.0".to_string(), "1.0.0".to_string()],
    );

    let mut package_requirements = HashMap::new();
    package_requirements.insert("package_a".to_string(), "^1".to_string());
    package_requirements.insert("package_b".to_string(), ">=0.9, <2".to_string());

    let resolved = resolve_map(available_versions, package_requirements).unwrap();

    assert_eq!(resolved.get("package_a").unwrap(), "1.0.0");
    assert_eq!(resolved.get("package_b").unwrap(), "1.0.0");
}

fn avail(name: &str, versions: &[&str]) -> (String, Vec<String>) {
    (name.to_string(), versions.iter().map(|v| v.to_string()).collect())
}

fn req(name: &str, r: &str) -> (String, String) {
    (name.to_string(), r.to_string())
}

#[test]
fn resolve_picks_greatest_matching_release() {
    let r = resolve_versions(
        vec![avail("a", &["1.2.0", "1.10.0", "1.9.3", "2.0.0"])],
        vec![req("a", "^1")],
    );
    assert_eq!(r, Ok(vec![("a".to_string(), "1.10.0".to_string())]));
}

#[test]
fn resolve_keeps_requirement_order() {
    let r = resolve_versions(
        vec![avail("x", &["0.1.0"]), avail("y", &["3.0.0", "3.1.0"])],
        vec![req("y", "*"), req("x", "=0.1.0")],
    )
    .unwrap();
    assert_eq!(
        r,
        vec![("y".to_string(), "3.1.0".to_string()), ("x".to_string(), "0.1.0".to_string())]
    );
}

#[test]
fn resolve_unknown_package() {
    let r = resolve_versions(vec![avail("a", &["1.0.0"])], vec![req("b", "^1")]);
    assert_eq!(r, Err("Package b not found".to_string()));
}

#[test]
fn resolve_invalid_requirement() {
    let r = resolve_versions(vec![avail("a", &["1.0.0"])], vec![req("a", "not a req")]);
    assert_eq!(r, Err("Invalid version requirement for a".to_string()));
}

#[test]
fn resolve_invalid_version() {
    let r = resolve_versions(vec![avail("a", &["1.0.0", "1.x"])], vec![req("a", "^1")]);
    assert_eq!(r, Err("Invalid version 1.x for a".to_string()));
}

#[test]
fn resolve_no_match() {
    let r = resolve_versions(vec![avail("a", &["1.0.0", "1.5.0"])], vec![req("a", "^2")]);
    assert_eq!(r, Err("No matching version found for a".to_string()));
}

#[test]
fn resolve_first_failure_wins() {
    let r = resolve_versions(
        vec![avail("a", &["1.0.0"])],
        vec![req("a", "^1"), req("missing", "^1"), req("a", "bad req")],
    );
    assert_eq!(r, Err("Package missing not found".to_string()));
}

#[test]
fn resolve_prerelease_orders_before_release() {
    let r = resolve_versions(
        vec![avail("a", &["1.0.0-rc.1", "1.0.0", "1.0.0-beta"])],
        vec![req("a", ">=1.0.0-beta")],
    );
    assert_eq!(r, Ok(vec![("a".to_string(), "1.0.0".to_string())]));
}

#[test]
fn resolve_empty_requirements() {
    let r = resolve_versions(vec![avail("a", &["1.0.0"])], vec![]);
    assert_eq!(r, Ok(vec![]));
}

#[test]
fn greatest_among_pre_releases_and_builds() {
    let available = vec![(
        "p".to_string(),
        vec!["1.0.0-alpha".to_string(), "1.0.0-beta.2".to_string(), "1.0.0-beta.11".to_string(), "0.9.0".to_string()],
    )];
    let reqs = vec![("p".to_string(), ">=1.0.0-alpha".to_string())];
    assert_eq!(
        resolve_versions(available, reqs),
        Ok(vec![("p".to_string(), "1.0.0-beta.11".to_string())])
    );
}
