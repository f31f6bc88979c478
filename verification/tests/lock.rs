use plm::lock::{Dependency, Library, ProtoLock};

fn lib(name: &str, version: &str) -> Library {
    Library { name: name.to_string(), version: version.to_string(), dependencies: vec![] }
}

#[test]
fn add_find_update_remove() {
    let mut l = ProtoLock::new();
    l.add_library(lib("a", "1"));
    l.add_library(lib("b", "1"));
    l.add_library(lib("a", "2"));
    assert_eq!(l.find_library(Some("a".to_string())).unwrap().version, "1");
    assert!(l.find_library(Some("c".to_string())).is_none());
    assert!(l.find_library(None).is_none());

    let mut upd = lib("a", "3");
    upd.dependencies.push(Dependency { name: "b".to_string(), version: "1".to_string() });
    l.update_library(upd);
    assert_eq!(l.libraries[0].version, "3");
    assert_eq!(l.libraries[0].dependencies.len(), 1);
    assert_eq!(l.libraries[2].version, "2");

    l.update_library(lib("zzz", "9"));
    assert_eq!(l.libraries.len(), 3);

    l.remove_library("a");
    assert_eq!(l.libraries.len(), 1);
    assert_eq!(l.libraries[0].name, "b");
}

#[test]
fn placeholders() {
    let l = ProtoLock::new();
    assert!(l.resolve_dependencies("a".to_string()).unwrap().is_empty());
    assert!(l.validate().is_ok());
}

#[test]
fn lookups_after_each_change() {
    let mut l = ProtoLock::new();
    l.add_library(lib("x", "1"));
    assert_eq!(l.find_library(Some("x".to_string())).unwrap().version, "1");
    l.add_library(lib("x", "2"));
    assert_eq!(l.find_library(Some("x".to_string())).unwrap().version, "1");
    l.update_library(lib("x", "5"));
    assert_eq!(l.find_library(Some("x".to_string())).unwrap().version, "5");
    l.remove_library("x");
    assert!(l.find_library(Some("x".to_string())).is_none());
}
