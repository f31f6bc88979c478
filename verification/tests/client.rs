use plm::client::{
    bytes_to_human_readable, download_name, library_tag, unpack_download, upload_requests,
    upload_summary, upload_throttle_millis, CliRegistryClientBuilder, DownloadPayload,
};
use plm::store::{Dependency, File, Library, Package};

#[test]
fn human_readable_sizes() {
    assert_eq!(bytes_to_human_readable(0), "0 B");
    assert_eq!(bytes_to_human_readable(1023), "1023 B");
    assert_eq!(bytes_to_human_readable(1024), "1 KB");
    assert_eq!(bytes_to_human_readable(5 * 1024 * 1024 + 7), "5 MB");
    assert_eq!(bytes_to_human_readable(3 * 1024 * 1024 * 1024), "3 GB");
    assert_eq!(bytes_to_human_readable(usize::MAX), "16777215 TB");
}

#[test]
fn builder_settings() {
    let mut b = CliRegistryClientBuilder::new();
    assert_eq!(b.addr.as_deref(), Some("http://localhost:8080"));
    assert_eq!(b.authorization(), "Bearer ");
    b.with_addr("http://[::1]:7575".to_string()).with_token("tok".to_string());
    assert_eq!(b.addr.as_deref(), Some("http://[::1]:7575"));
    assert_eq!(b.authorization(), "Bearer tok");
}

#[test]
fn download_and_release_names() {
    let latest = Dependency { library_id: "lib".to_string(), version: "".to_string() };
    assert_eq!(download_name(&latest), "lib");
    let pinned = Dependency { library_id: "lib".to_string(), version: "1.2.3".to_string() };
    assert_eq!(download_name(&pinned), "lib:1.2.3");
    assert_eq!(library_tag("a", "0.1.0"), "a:0.1.0");
}

fn file(name: &str, size: usize) -> File {
    File { name: name.to_string(), content: vec![0u8; size] }
}

#[test]
fn upload_summary_counts_files_and_bytes() {
    let lib = Library {
        name: "l".to_string(),
        version: "1".to_string(),
        fd_set: vec![],
        metadata: vec![],
        packages: vec![
            Package { name: "p".to_string(), files: vec![file("a", 1000), file("b", 100)], metadata: vec![] },
            Package { name: "q".to_string(), files: vec![file("c", 2000)], metadata: vec![] },
        ],
    };
    assert_eq!(upload_summary(&lib), "Uploading 3 files, total: 3 KB");
}

#[test]
fn upload_requests_tag_every_file() {
    let file = |n: &str, c: Vec<u8>| File { name: n.to_string(), content: c };
    let lib = Library {
        name: "lib".to_string(),
        version: "1.0.0".to_string(),
        fd_set: vec![],
        metadata: vec![],
        packages: vec![
            Package { name: "a".to_string(), files: vec![file("a/1.proto", vec![1]), file("a/2.proto", vec![2])], metadata: vec![] },
            Package { name: "b".to_string(), files: vec![], metadata: vec![] },
            Package { name: "c".to_string(), files: vec![file("c/1.proto", vec![3, 4])], metadata: vec![] },
        ],
    };
    let reqs = upload_requests(lib);
    let names: Vec<(String, String)> = reqs.iter().map(|(t, f)| (t.clone(), f.name.clone())).collect();
    assert_eq!(
        names,
        vec![
            ("lib:1.0.0".to_string(), "a/1.proto".to_string()),
            ("lib:1.0.0".to_string(), "a/2.proto".to_string()),
            ("lib:1.0.0".to_string(), "c/1.proto".to_string()),
        ]
    );
    assert_eq!(reqs[2].1.content, vec![3, 4]);
}

#[test]
fn upload_throttling() {
    assert_eq!(upload_throttle_millis(0), 0);
    assert_eq!(upload_throttle_millis(100), 0);
    assert_eq!(upload_throttle_millis(101), 50);
}

#[test]
fn download_payloads() {
    let lib = Library { name: "l".to_string(), version: "1".to_string(), fd_set: vec![], metadata: vec![], packages: vec![] };
    assert_eq!(unpack_download(Some(DownloadPayload::Protobuf(lib))).ok().unwrap().name, "l");
    assert_eq!(unpack_download(Some(DownloadPayload::Gz(vec![0]))).err(), Some("error while unpacking download response".to_string()));
    assert_eq!(unpack_download(None).err(), Some("error while unpacking download response".to_string()));
}

#[test]
fn human_readable_stops_at_terabytes() {
    assert_eq!(bytes_to_human_readable(5 * (1usize << 40)), "5 TB");
    assert_eq!(bytes_to_human_readable(1usize << 50), "1024 TB");
    assert_eq!(bytes_to_human_readable((1usize << 30) - 1), "1023 MB");
}
