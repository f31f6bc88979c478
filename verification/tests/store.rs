use plm::store::{
    parse_package_files_map, release_include_dir, release_library, release_package, File,
    FileDescriptor,
};
use plm::fs::FileSystem;
use plm::order::sort_strings;
use plm::store::{Dependency, LibraryStore};

fn strings(v: &[&str]) -> Vec<String> {
    v.iter().map(|s| s.to_string()).collect()
}

#[test]
fn join_paths_like_std() {
    assert_eq!(FileSystem::join_paths("a", "b"), "a/b");
    assert_eq!(FileSystem::join_paths("a/", "b"), "a/b");
    assert_eq!(FileSystem::join_paths("", "b"), "b");
    assert_eq!(FileSystem::join_paths("a", "/b"), "/b");
    assert_eq!(FileSystem::join_paths("a", ""), "a/");
    for (p, q) in [("x/y", "z.proto"), ("/", "etc"), ("a", "b/c")] {
        assert_eq!(
            FileSystem::join_paths(p, q),
            std::path::Path::new(p).join(q).to_str().unwrap()
        );
    }
}

#[test]
fn relative_path_by_components() {
    assert_eq!(FileSystem::to_relative_path("/a/b/c.proto", "/a"), Ok("b/c.proto".to_string()));
    assert_eq!(FileSystem::to_relative_path("/ab/c", "/a"), Err("Not a prefix".to_string()));
}

#[test]
fn collect_excludes_and_sorts() {
    let files = strings(&[
        "/lib/z/b.proto",
        "/lib/vendor/x.proto",
        "/lib/a.proto",
        "/lib/z/a.proto",
    ]);
    let r = LibraryStore::collect(&files, "/lib", &strings(&["vendor"]));
    assert_eq!(r, Ok(strings(&["a.proto", "z/a.proto", "z/b.proto"])));
}

#[test]
fn collect_fails_outside_base() {
    let files = strings(&["/lib/a.proto", "/other/b.proto"]);
    let r = LibraryStore::collect(&files, "/lib", &vec![]);
    assert_eq!(r, Err("failed to process relative paths".to_string()));
}

#[test]
fn collect_excluded_outside_base_is_fine() {
    let files = strings(&["/lib/a.proto", "/other/b.proto"]);
    let r = LibraryStore::collect(&files, "/lib", &strings(&["/other"]));
    assert_eq!(r, Ok(strings(&["a.proto"])));
}

#[test]
fn sort_matches_std_sort() {
    let v = strings(&["b", "a", "ab", "", "é", "Z", "a"]);
    let mut expected = v.clone();
    expected.sort();
    assert_eq!(sort_strings(v), expected);
}

#[test]
fn locate_installed_library() {
    let d = Dependency { library_id: "lib".to_string(), version: "1.0.0".to_string() };
    assert_eq!(LibraryStore::locate(&d), "proto_modules/lib/1.0.0");
    assert_eq!(LibraryStore::manifest_path(&d), "proto_modules/lib/1.0.0/proto-package.json");
}

#[test]
fn package_files_grouped_in_first_seen_order() {
    let fd = |p: Option<&str>, n: Option<&str>| FileDescriptor {
        package: p.map(|s| s.to_string()),
        name: n.map(|s| s.to_string()),
    };
    let groups = parse_package_files_map(vec![
        fd(Some("b.v1"), Some("b/one.proto")),
        fd(Some("a.v1"), Some("a/x.proto")),
        fd(None, Some("loose.proto")),
        fd(Some("b.v1"), Some("b/two.proto")),
        fd(Some("a.v1"), None),
    ]);
    assert_eq!(
        groups,
        vec![
            ("b.v1".to_string(), vec!["b/one.proto".to_string(), "b/two.proto".to_string()]),
            ("a.v1".to_string(), vec!["a/x.proto".to_string(), "".to_string()]),
        ]
    );
    assert!(parse_package_files_map(vec![]).is_empty());
}

#[test]
fn release_include_directory() {
    assert_eq!(release_include_dir("", false), Ok(".".to_string()));
    assert_eq!(release_include_dir(".", false), Ok(".".to_string()));
    assert_eq!(release_include_dir("protos", true), Ok("protos".to_string()));
    assert_eq!(
        release_include_dir("protos", false),
        Err("must have a valid 'src_dir' value pointing to a root .proto files directory".to_string())
    );
}

#[test]
fn release_packages_and_library() {
    let ok = release_package(
        "a.v1".to_string(),
        Ok(vec![File { name: "a.proto".to_string(), content: vec![7] }]),
    );
    assert_eq!(ok.name, "a.v1");
    assert_eq!(ok.files.len(), 1);
    let failed = release_package("a.v1".to_string(), Err("unreadable".to_string()));
    assert_eq!(failed.name, "");
    assert!(failed.files.is_empty());
    let lib = release_library("lib".to_string(), "1.0.0".to_string(), vec![1, 2], "42".to_string(), vec![ok]);
    assert_eq!(lib.name, "lib");
    assert_eq!(lib.version, "1.0.0");
    assert_eq!(lib.fd_set, vec![1, 2]);
    assert_eq!(lib.metadata, vec![("checksum".to_string(), "42".to_string())]);
    assert_eq!(lib.packages.len(), 1);
}

#[test]
fn only_proto_files_are_listed() {
    let files = strings(&["/p/a.proto", "/p/.proto", "/p/b.proto.bak", "/p/dir.proto/c", "/p/D.PROTO", "/p/x/y.proto"]);
    assert_eq!(FileSystem::list_protos(&files), strings(&["/p/a.proto", "/p/x/y.proto"]));
    assert!(FileSystem::list_protos(&vec![]).is_empty());
}
